//! The viewing camera: a thin lens over a focus plane.
//!
//! The camera maps normalised image-plane coordinates to world-space rays,
//! jittering the ray origin inside the lens aperture for depth of field.
//! Its basis is built here from the view points; only the tangent that
//! turns a field of view into a viewport height is left to the caller.

use vstd::prelude::*;
use crate::fixed::{SCALE, mul_scaled, fmul, lemma_ms_fit, lemma_ms31};
use crate::linear_algebra::{
    Vec3, Ray, V3, bounded, vadd, vsub, vlen2, vcross, vunit, vscale, vdivk,
    random_vec_in_unit_disk, disk_draw_spec,
};
use crate::random::Rng;

verus! {

/// A camera with a precomputed basis and viewport frame.
#[derive(Clone, Copy, Debug, PartialEq, Eq, Structural)]
pub struct Camera {
    pub origin: Vec3,
    pub lower_left_corner: Vec3,
    pub horizontal: Vec3,
    pub vertical: Vec3,
    pub u: Vec3,
    pub v: Vec3,
    pub w: Vec3,
    pub lens_radius: i64,
}

/// The bounds a usable camera satisfies.
pub open spec fn camera_wf(c: Camera) -> bool {
    &&& bounded(c.origin@, 0x100_0000)
    &&& bounded(c.lower_left_corner@, 0x4000_0000)
    &&& bounded(c.horizontal@, 0x1000_0000)
    &&& bounded(c.vertical@, 0x2000_0000)
    &&& bounded(c.u@, 0x2_0001)
    &&& bounded(c.v@, 0x10_0000)
    &&& bounded(c.w@, 0x2_0001)
    &&& 0 <= c.lens_radius <= SCALE as int
}

/// The ray the camera casts for image-plane coordinates `(s, t)`, with the
/// lens jitter drawn from the given state.
pub open spec fn get_ray_spec(c: Camera, s: int, t: int, st: u64) -> ((V3, V3), u64) {
    let (rd, st1) = disk_draw_spec(st, 32);
    let random_direction = vscale(rd, c.lens_radius as int);
    let offset = vadd(vscale(c.u@, random_direction.0), vscale(c.v@, random_direction.1));
    let origin = vadd(c.origin@, offset);
    let direction = vsub(
        vsub(
            vadd(vadd(c.lower_left_corner@, vscale(c.horizontal@, s)), vscale(c.vertical@, t)),
            c.origin@,
        ),
        offset,
    );
    ((origin, direction), st1)
}

impl Camera {
    /// A camera looking from `look_from` toward `look_at`, with `vec_up`
    /// fixing the roll, a viewport of the given height (twice the tangent
    /// of half the vertical field of view) and width `aspect_ratio` times
    /// that, a lens of diameter `aperture`, and the focus plane at
    /// `focus_dist`.
    pub fn new(
        look_from: Vec3,
        look_at: Vec3,
        vec_up: Vec3,
        viewport_height: i64,
        aspect_ratio: i64,
        aperture: i64,
        focus_dist: i64,
    ) -> (r: Self)
        requires
            bounded(look_from@, 0x100_0000),
            bounded(look_at@, 0x100_0000),
            vlen2(vsub(look_from@, look_at@)) >= 4096,
            bounded(vec_up@, 0x2_0000),
            vlen2(vcross(vec_up@, vunit(vsub(look_from@, look_at@)))) >= 4096,
            0 < viewport_height <= 0x8_0000,
            0 < aspect_ratio <= 0x4_0000,
            0 <= aperture <= 0x2_0000,
            0 < focus_dist <= 0x20_0000,
        ensures
            r.origin == look_from,
            r.w@ == vunit(vsub(look_from@, look_at@)),
            r.u@ == vunit(vcross(vec_up@, vunit(vsub(look_from@, look_at@)))),
            r.v@ == vcross(r.w@, r.u@),
            r.horizontal@ == vscale(
                r.u@,
                mul_scaled(focus_dist as int, mul_scaled(aspect_ratio as int, viewport_height as int)),
            ),
            r.vertical@ == vscale(
                r.v@,
                mul_scaled(focus_dist as int, viewport_height as int),
            ),
            r.lower_left_corner@ == vsub(
                vsub(
                    vsub(look_from@, vdivk(r.horizontal@, 2 * SCALE as int)),
                    vdivk(r.vertical@, 2 * SCALE as int),
                ),
                vscale(r.w@, focus_dist as int),
            ),
            r.lens_radius == mul_scaled(aperture as int, 32768),
            camera_wf(r),
    {
        let w = look_from.sub(look_at).unit_vector();
        proof {
            let vu = vec_up@;
            lemma_ms_fit(vu.1, w@.2, 0x2_0000, 0x2_0001);
            lemma_ms_fit(vu.2, w@.1, 0x2_0000, 0x2_0001);
            lemma_ms_fit(vu.2, w@.0, 0x2_0000, 0x2_0001);
            lemma_ms_fit(vu.0, w@.2, 0x2_0000, 0x2_0001);
            lemma_ms_fit(vu.0, w@.1, 0x2_0000, 0x2_0001);
            lemma_ms_fit(vu.1, w@.0, 0x2_0000, 0x2_0001);
        }
        let u = vec_up.cross(&w).unit_vector();
        proof {
            lemma_ms_fit(w@.1, u@.2, 0x2_0001, 0x2_0001);
            lemma_ms_fit(w@.2, u@.1, 0x2_0001, 0x2_0001);
            lemma_ms_fit(w@.2, u@.0, 0x2_0001, 0x2_0001);
            lemma_ms_fit(w@.0, u@.2, 0x2_0001, 0x2_0001);
            lemma_ms_fit(w@.0, u@.1, 0x2_0001, 0x2_0001);
            lemma_ms_fit(w@.1, u@.0, 0x2_0001, 0x2_0001);
        }
        let v = w.cross(&u);
        let origin = look_from;
        proof {
            lemma_ms_fit(aspect_ratio as int, viewport_height as int, 0x4_0000, 0x8_0000);
            lemma_ms_fit(
                focus_dist as int,
                mul_scaled(aspect_ratio as int, viewport_height as int),
                0x20_0000,
                0x20_0001,
            );
            lemma_ms_fit(focus_dist as int, viewport_height as int, 0x20_0000, 0x8_0000);
        }
        let viewport_width = fmul(aspect_ratio, viewport_height);
        let fw = fmul(focus_dist, viewport_width);
        let fh = fmul(focus_dist, viewport_height);
        proof {
            lemma_ms_fit(u@.0, fw as int, 0x2_0001, 0x400_0021);
            lemma_ms_fit(u@.1, fw as int, 0x2_0001, 0x400_0021);
            lemma_ms_fit(u@.2, fw as int, 0x2_0001, 0x400_0021);
            lemma_ms_fit(v@.0, fh as int, 0x10_0000, 0x100_0001);
            lemma_ms_fit(v@.1, fh as int, 0x10_0000, 0x100_0001);
            lemma_ms_fit(v@.2, fh as int, 0x10_0000, 0x100_0001);
        }
        let horizontal = u.scale(fw);
        let vertical = v.scale(fh);
        proof {
            lemma_ms_fit(w@.0, focus_dist as int, 0x2_0001, 0x20_0000);
            lemma_ms_fit(w@.1, focus_dist as int, 0x2_0001, 0x20_0000);
            lemma_ms_fit(w@.2, focus_dist as int, 0x2_0001, 0x20_0000);
        }
        let lower_left_corner = origin.sub(horizontal.div_scalar(2 * SCALE)).sub(
            vertical.div_scalar(2 * SCALE),
        ).sub(w.scale(focus_dist));
        proof {
            lemma_ms31(aperture as int, 32768);
        }
        let lens_radius = fmul(aperture, 32768);
        Self { origin, lower_left_corner, horizontal, vertical, u, v, w, lens_radius }
    }

    /// The ray for image-plane coordinates `(s, t)`, jittered inside the
    /// lens aperture.
    pub fn get_ray(&self, s: i64, t: i64, rng: &mut Rng) -> (r: Ray)
        requires
            camera_wf(*self),
            0 <= s <= 2 * SCALE,
            0 <= t <= 2 * SCALE,
        ensures
            (r@, final(rng)@) == get_ray_spec(*self, s as int, t as int, old(rng)@),
    {
        let rd = random_vec_in_unit_disk(rng);
        proof {
            lemma_ms_fit(rd@.0, self.lens_radius as int, 0x1_0000, 0x1_0000);
            lemma_ms_fit(rd@.1, self.lens_radius as int, 0x1_0000, 0x1_0000);
            lemma_ms_fit(rd@.2, self.lens_radius as int, 0x1_0000, 0x1_0000);
        }
        let random_direction = rd.scale(self.lens_radius);
        proof {
            lemma_ms_fit(self.u@.0, random_direction@.0, 0x2_0001, 0x1_0001);
            lemma_ms_fit(self.u@.1, random_direction@.0, 0x2_0001, 0x1_0001);
            lemma_ms_fit(self.u@.2, random_direction@.0, 0x2_0001, 0x1_0001);
            lemma_ms_fit(self.v@.0, random_direction@.1, 0x10_0000, 0x1_0001);
            lemma_ms_fit(self.v@.1, random_direction@.1, 0x10_0000, 0x1_0001);
            lemma_ms_fit(self.v@.2, random_direction@.1, 0x10_0000, 0x1_0001);
        }
        let offset = self.u.scale(random_direction.x()).add(self.v.scale(random_direction.y()));
        proof {
            lemma_ms_fit(self.horizontal@.0, s as int, 0x1000_0000, 0x2_0000);
            lemma_ms_fit(self.horizontal@.1, s as int, 0x1000_0000, 0x2_0000);
            lemma_ms_fit(self.horizontal@.2, s as int, 0x1000_0000, 0x2_0000);
            lemma_ms_fit(self.vertical@.0, t as int, 0x2000_0000, 0x2_0000);
            lemma_ms_fit(self.vertical@.1, t as int, 0x2000_0000, 0x2_0000);
            lemma_ms_fit(self.vertical@.2, t as int, 0x2000_0000, 0x2_0000);
        }
        Ray::new(
            self.origin.add(offset),
            self.lower_left_corner.add(self.horizontal.scale(s)).add(self.vertical.scale(t)).sub(
                self.origin,
            ).sub(offset),
        )
    }
}

} // verus!
