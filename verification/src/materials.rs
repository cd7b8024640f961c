//! Surface materials and their scattering models.
//!
//! The closed set of materials is a tagged sum over four kinds: a diffuse
//! (Lambertian) surface, a fuzzed mirror (metal), a clear refractive medium
//! (dielectric), and the empty material that absorbs everything. Scattering
//! draws from the explicit generator, and every decision is stated exactly
//! over the integer model.

use vstd::prelude::*;
use crate::fixed::{SCALE, mul_scaled, div_scaled, sqrt_scaled, fmul, fdiv, fsqrt, lemma_ms_fit,
    lemma_ds_fit, lemma_ds_unit, lemma_ms_sq_nonneg};
use crate::linear_algebra::{
    Vec3, Colour, Ray, V3, bounded, vadd, vscale, vdot, vreflect, vrefract, vunit,
    near_zero_spec, reflect, refract, random_unit_vector, unit_draw_spec, DIR_LIMIT,
};
use crate::random::{Rng, rand, rand_spec, next_state};
use crate::geometry::{HitRecord, HitM, hit_wf, ray_ok};

verus! {

/// The model of an optional scatter outcome: attenuation and outgoing ray.
pub type ScatterM = (V3, (V3, V3));

/// Every colour channel is a weight in `[0, 1]`.
pub open spec fn colour_wf(c: V3) -> bool {
    &&& 0 <= c.0 <= SCALE as int
    &&& 0 <= c.1 <= SCALE as int
    &&& 0 <= c.2 <= SCALE as int
}

/// The outcome of a scatter decision: the attenuation colour and the
/// outgoing ray.
#[derive(Clone, Copy, Debug, PartialEq, Eq, Structural)]
pub struct ScatteredRay {
    pub attenuation: Colour,
    pub ray: Ray,
}

impl View for ScatteredRay {
    type V = (V3, (V3, V3));

    open spec fn view(&self) -> (V3, (V3, V3)) {
        (self.attenuation@, self.ray@)
    }
}

/// A material that absorbs every ray.
#[derive(Clone, Copy, Debug, PartialEq, Eq, Structural)]
pub struct EmptyMaterial;

/// A diffuse surface with a fixed albedo.
#[derive(Clone, Copy, Debug, PartialEq, Eq, Structural)]
pub struct Lambertian {
    pub albedo: Colour,
}

/// A reflective surface with a fixed albedo and a roughness in `[0, 1]`.
#[derive(Clone, Copy, Debug, PartialEq, Eq, Structural)]
pub struct Metal {
    pub albedo: Colour,
    pub fuzz: i64,
}

/// A clear refractive medium with a fixed index of refraction.
#[derive(Clone, Copy, Debug, PartialEq, Eq, Structural)]
pub struct Dielectric {
    pub refraction_index: i64,
    pub attenuation: Colour,
}

/// The closed set of material kinds, dispatched by pattern match.
#[derive(Clone, Copy, Debug, PartialEq, Eq, Structural)]
pub enum MaterialKind {
    Empty(EmptyMaterial),
    Lambertian(Lambertian),
    Metal(Metal),
    Dielectric(Dielectric),
}

impl Lambertian {
    /// A diffuse material with the given albedo.
    pub fn new(albedo: Colour) -> (r: Self)
        requires
            colour_wf(albedo@),
        ensures
            r.albedo == albedo,
    {
        Self { albedo }
    }
}

impl Metal {
    /// A reflective material with the given albedo and roughness.
    pub fn new(albedo: Colour, fuzz: i64) -> (r: Self)
        requires
            colour_wf(albedo@),
            0 <= fuzz <= SCALE,
        ensures
            r.albedo == albedo,
            r.fuzz == fuzz,
    {
        Self { albedo, fuzz }
    }
}

impl Dielectric {
    /// A clear medium with the given index of refraction (between a quarter
    /// and four) and fully transmissive attenuation.
    pub fn new(refraction_index: i64) -> (r: Self)
        requires
            16384 <= refraction_index <= 262144,
        ensures
            r.refraction_index == refraction_index,
            r.attenuation@ == (SCALE as int, SCALE as int, SCALE as int),
    {
        Self { refraction_index, attenuation: Vec3::new(SCALE, SCALE, SCALE) }
    }
}

/// The bounds a stored material must satisfy.
pub open spec fn mat_wf(m: MaterialKind) -> bool {
    match m {
        MaterialKind::Empty(_) => true,
        MaterialKind::Lambertian(l) => colour_wf(l.albedo@),
        MaterialKind::Metal(mt) => colour_wf(mt.albedo@) && 0 <= mt.fuzz <= SCALE as int,
        MaterialKind::Dielectric(d) => 16384 <= d.refraction_index <= 262144 && colour_wf(
            d.attenuation@,
        ),
    }
}

/// The model of an optional scattered ray.
pub open spec fn opt_scatter_model(r: Option<ScatteredRay>) -> Option<ScatterM> {
    match r {
        Option::Some(sc) => Option::Some(sc@),
        Option::None => Option::None,
    }
}

/// What a diffuse surface does: scatter toward the normal tilted by a
/// random unit direction, falling back to the normal itself when that sum
/// degenerates; the albedo always attenuates.
pub open spec fn scatter_lambertian_spec(l: Lambertian, hit: HitM, s: u64) -> (
    Option<ScatterM>,
    u64,
) {
    let (u, s1) = unit_draw_spec(s);
    let d0 = vadd(hit.2, u);
    let d = if near_zero_spec(d0) {
        hit.2
    } else {
        d0
    };
    (Option::Some((l.albedo@, (hit.1, d))), s1)
}

/// The direction a metal scatters into: the mirror reflection, perturbed
/// by `fuzz` times a random unit direction.
pub open spec fn metal_direction(m: Metal, ray: (V3, V3), hit: HitM, s: u64) -> V3 {
    vadd(vreflect(ray.1, hit.2), vscale(unit_draw_spec(s).0, m.fuzz as int))
}

/// What a metal does: reflect with fuzz, but absorb whenever the perturbed
/// direction does not leave the surface.
pub open spec fn scatter_metal_spec(m: Metal, ray: (V3, V3), hit: HitM, s: u64) -> (
    Option<ScatterM>,
    u64,
) {
    let d = metal_direction(m, ray, hit, s);
    let s1 = unit_draw_spec(s).1;
    if vdot(d, hit.2) > 0 {
        (Option::Some((m.albedo@, (hit.1, d))), s1)
    } else {
        (Option::None, s1)
    }
}

/// The Schlick approximation of angle-dependent reflectance.
pub open spec fn reflectance_spec(cosine: int, refraction_index: int) -> int {
    let s = SCALE as int;
    let q = div_scaled(s - refraction_index, s + refraction_index);
    let r0 = mul_scaled(q, q);
    let omc = s - cosine;
    let p2 = mul_scaled(omc, omc);
    let p4 = mul_scaled(p2, p2);
    let p5 = mul_scaled(p4, omc);
    r0 + mul_scaled(s - r0, p5)
}

/// The ratio of refraction indices the interface presents: the reciprocal
/// index on entry, the index itself on exit.
pub open spec fn dielectric_ratio(di: Dielectric, front_face: bool) -> int {
    if front_face {
        div_scaled(SCALE as int, di.refraction_index as int)
    } else {
        di.refraction_index as int
    }
}

/// The cosine the interface sees, capped at one.
pub open spec fn dielectric_cosine(ray: (V3, V3), hit: HitM) -> int {
    let d = vdot(vunit(ray.1), hit.2);
    if -d > SCALE as int {
        SCALE as int
    } else {
        -d
    }
}

/// The sine paired with that cosine.
pub open spec fn dielectric_sine(ray: (V3, V3), hit: HitM) -> int {
    let c = dielectric_cosine(ray, hit);
    let k = SCALE as int - mul_scaled(c, c);
    sqrt_scaled(
        if k < 0 {
            0
        } else {
            k
        },
    )
}

/// Total internal reflection: the refracted angle would exceed a right
/// angle, so the interface must reflect whatever is drawn.
pub open spec fn dielectric_cannot_refract(di: Dielectric, ray: (V3, V3), hit: HitM) -> bool {
    mul_scaled(dielectric_ratio(di, hit.3), dielectric_sine(ray, hit)) > SCALE as int
}

/// What a dielectric does: always scatter, reflecting on total internal
/// reflection or a Schlick draw, refracting otherwise; the attenuation is
/// fully transmissive.
pub open spec fn scatter_dielectric_spec(di: Dielectric, ray: (V3, V3), hit: HitM, s: u64) -> (
    Option<ScatterM>,
    u64,
) {
    let ratio = dielectric_ratio(di, hit.3);
    let unit_direction = vunit(ray.1);
    let cosine = dielectric_cosine(ray, hit);
    let cannot_refract = dielectric_cannot_refract(di, ray, hit);
    let draw = rand_spec(s, 0, SCALE as int);
    let s1 = next_state(s);
    let schlick_reflect = reflectance_spec(cosine, ratio) > draw;
    let d = if cannot_refract || schlick_reflect {
        vreflect(unit_direction, hit.2)
    } else {
        vrefract(unit_direction, hit.2, ratio)
    };
    (Option::Some((di.attenuation@, (hit.1, d))), s1)
}

/// What each material kind does with an incoming ray at a hit.
pub open spec fn scatter_spec(m: MaterialKind, ray: (V3, V3), hit: HitM, s: u64) -> (
    Option<ScatterM>,
    u64,
) {
    match m {
        MaterialKind::Empty(_) => (Option::None, s),
        MaterialKind::Lambertian(l) => scatter_lambertian_spec(l, hit, s),
        MaterialKind::Metal(mt) => scatter_metal_spec(mt, ray, hit, s),
        MaterialKind::Dielectric(d) => scatter_dielectric_spec(d, ray, hit, s),
    }
}

/// The capability of deciding whether and how light continues at a surface:
/// absence means absorption, and a scattered ray starts at the hit point
/// with a well-formed attenuation.
pub trait Material {
    /// The receiver's values are on the fixed grid.
    spec fn wf(&self) -> bool;

    /// Decides whether the incoming ray continues, and how.
    fn scatter(&self, incident_ray: &Ray, hit_record: &HitRecord, rng: &mut Rng) -> (r: Option<
        ScatteredRay,
    >)
        requires
            self.wf(),
            hit_wf(hit_record@),
            ray_ok(incident_ray@),
        ensures
            r matches Option::Some(sc) ==> colour_wf(sc@.0) && sc@.1.0 == hit_record@.1,
    ;
}

impl EmptyMaterial {
    /// Absorbs the ray: no scatter, no draw.
    pub fn scatter(&self, _incident_ray: &Ray, _hit_record: &HitRecord, rng: &mut Rng) -> (r:
        Option<ScatteredRay>)
        ensures
            r matches Option::None,
            final(rng)@ == old(rng)@,
    {
        Option::None
    }
}

impl Lambertian {
    /// Scatters diffusely: one unit draw tilts the normal, with the albedo
    /// as attenuation; a degenerate sum falls back to the normal.
    pub fn scatter(&self, _incident_ray: &Ray, hit_record: &HitRecord, rng: &mut Rng) -> (r:
        Option<ScatteredRay>)
        requires
            colour_wf(self.albedo@),
            hit_wf(hit_record@),
        ensures
            (opt_scatter_model(r), final(rng)@) == scatter_lambertian_spec(
                *self,
                hit_record@,
                old(rng)@,
            ),
            r matches Option::Some(sc) ==> colour_wf(sc@.0) && sc@.1.0 == hit_record@.1,
    {
        let u = random_unit_vector(rng);
        let mut scatter_direction = hit_record.normal.add(u);
        if scatter_direction.near_zero() {
            scatter_direction = hit_record.normal;
        }
        let scattered_ray = ScatteredRay {
            attenuation: self.albedo,
            ray: Ray::new(hit_record.hit_point, scatter_direction),
        };
        Option::Some(scattered_ray)
    }
}

impl Metal {
    /// Scatters specularly: the reflection of the incoming direction,
    /// perturbed by `fuzz` times a unit draw; a direction that would point
    /// into the surface is absorbed instead.
    pub fn scatter(&self, incident_ray: &Ray, hit_record: &HitRecord, rng: &mut Rng) -> (r: Option<
        ScatteredRay,
    >)
        requires
            colour_wf(self.albedo@),
            0 <= self.fuzz <= SCALE,
            hit_wf(hit_record@),
            bounded(incident_ray@.1, DIR_LIMIT as int),
        ensures
            (opt_scatter_model(r), final(rng)@) == scatter_metal_spec(
                *self,
                incident_ray@,
                hit_record@,
                old(rng)@,
            ),
            vdot(metal_direction(*self, incident_ray@, hit_record@, old(rng)@), hit_record@.2)
                <= 0 ==> r matches Option::None,
            r matches Option::Some(sc) ==> colour_wf(sc@.0) && sc@.1.0 == hit_record@.1,
    {
        proof {
            let v = incident_ray@.1;
            let n = hit_record@.2;
            lemma_ms_fit(v.0, n.0, 0x200_0000, 0x2_0000);
            lemma_ms_fit(v.1, n.1, 0x200_0000, 0x2_0000);
            lemma_ms_fit(v.2, n.2, 0x200_0000, 0x2_0000);
            lemma_ms_fit(n.0, 2 * vdot(v, n), 0x2_0000, 0x1800_0010);
            lemma_ms_fit(n.1, 2 * vdot(v, n), 0x2_0000, 0x1800_0010);
            lemma_ms_fit(n.2, 2 * vdot(v, n), 0x2_0000, 0x1800_0010);
        }
        let reflected = reflect(incident_ray.direction, hit_record.normal);
        let u = random_unit_vector(rng);
        proof {
            lemma_ms_fit(u@.0, self.fuzz as int, 0x2_0001, 0x1_0000);
            lemma_ms_fit(u@.1, self.fuzz as int, 0x2_0001, 0x1_0000);
            lemma_ms_fit(u@.2, self.fuzz as int, 0x2_0001, 0x1_0000);
        }
        let scattered = Ray::new(hit_record.hit_point, reflected.add(u.scale(self.fuzz)));
        if scattered.direction.dot(&hit_record.normal) > 0 {
            Option::Some(ScatteredRay { attenuation: self.albedo, ray: scattered })
        } else {
            Option::None
        }
    }
}

impl Dielectric {
    /// The Schlick reflectance for the given capped cosine and ratio.
    fn reflectance(cosine: i64, refraction_index: i64) -> (r: i64)
        requires
            -0x10_0000 <= cosine <= SCALE,
            0 <= refraction_index <= 0x4_0000,
        ensures
            r == reflectance_spec(cosine as int, refraction_index as int),
    {
        proof {
            lemma_ds_unit(
                SCALE as int - refraction_index as int,
                SCALE as int + refraction_index as int,
            );
            let q = div_scaled(
                SCALE as int - refraction_index as int,
                SCALE as int + refraction_index as int,
            );
            lemma_ds_fit(
                SCALE as int - refraction_index as int,
                SCALE as int + refraction_index as int,
                0x4_0000,
                1,
            );
            lemma_ms_fit(q, q, 0x1_0001, 0x1_0001);
            lemma_ms_sq_nonneg(q);
            let omc = SCALE as int - cosine as int;
            lemma_ms_fit(omc, omc, 0x20_0000, 0x20_0000);
            lemma_ms_sq_nonneg(omc);
            let p2 = mul_scaled(omc, omc);
            lemma_ms_fit(p2, p2, 0x400_0001, 0x400_0001);
            lemma_ms_sq_nonneg(p2);
            let p4 = mul_scaled(p2, p2);
            lemma_ms_fit(p4, omc, 0x11_0000_0000, 0x20_0000);
            let r0 = mul_scaled(q, q);
            let p5 = mul_scaled(p4, omc);
            lemma_ms_fit(SCALE as int - r0, p5, 0x2_0004, 0x221_0000_0000);
        }
        let q = fdiv(SCALE - refraction_index, SCALE + refraction_index);
        let r0 = fmul(q, q);
        let omc = SCALE - cosine;
        let p2 = fmul(omc, omc);
        let p4 = fmul(p2, p2);
        let p5 = fmul(p4, omc);
        r0 + fmul(SCALE - r0, p5)
    }

    /// Scatters through the interface: always continues, reflecting under
    /// total internal reflection or a Schlick draw, refracting otherwise.
    pub fn scatter(&self, incident_ray: &Ray, hit_record: &HitRecord, rng: &mut Rng) -> (r: Option<
        ScatteredRay,
    >)
        requires
            16384 <= self.refraction_index <= 262144,
            colour_wf(self.attenuation@),
            hit_wf(hit_record@),
            ray_ok(incident_ray@),
        ensures
            (opt_scatter_model(r), final(rng)@) == scatter_dielectric_spec(
                *self,
                incident_ray@,
                hit_record@,
                old(rng)@,
            ),
            dielectric_cannot_refract(*self, incident_ray@, hit_record@) ==> (r matches Option::
                Some(sc) && sc@.1.1 == vreflect(vunit(incident_ray@.1), hit_record@.2)),
            r matches Option::Some(sc) ==> colour_wf(sc@.0) && sc@.1.0 == hit_record@.1,
    {
        proof {
            lemma_ds_fit(SCALE as int, self.refraction_index as int, 0x1_0000, 0x4000);
            vstd::arithmetic::div_mod::lemma_div_pos_is_pos(
                (SCALE as int) * (SCALE as int),
                self.refraction_index as int,
            );
        }
        let refraction_ratio = if hit_record.front_face {
            fdiv(SCALE, self.refraction_index)
        } else {
            self.refraction_index
        };
        let unit_direction = incident_ray.direction.unit_vector();
        proof {
            lemma_ms_fit(unit_direction@.0, hit_record@.2.0, 0x2_0001, 0x2_0000);
            lemma_ms_fit(unit_direction@.1, hit_record@.2.1, 0x2_0001, 0x2_0000);
            lemma_ms_fit(unit_direction@.2, hit_record@.2.2, 0x2_0001, 0x2_0000);
        }
        let d = unit_direction.dot(&hit_record.normal);
        let negd = -d;
        let cosine = if negd > SCALE {
            SCALE
        } else {
            negd
        };
        proof {
            lemma_ms_fit(cosine as int, cosine as int, 0x10_0000, 0x10_0000);
            lemma_ms_sq_nonneg(cosine as int);
        }
        let k = SCALE - fmul(cosine, cosine);
        let sine = fsqrt(
            if k < 0 {
                0
            } else {
                k
            },
        );
        proof {
            assert(sine <= 65536) by (nonlinear_arith)
                requires
                    0 <= sine,
                    sine * sine <= 65536 * 65536;
            lemma_ms_fit(refraction_ratio as int, sine as int, 0x4_0000, 0x1_0000);
        }
        let cannot_refract = fmul(refraction_ratio, sine) > SCALE;
        let schlick_reflect = Dielectric::reflectance(cosine, refraction_ratio) > rand(
            rng,
            0,
            SCALE,
        );
        let direction = if cannot_refract || schlick_reflect {
            reflect(unit_direction, hit_record.normal)
        } else {
            refract(unit_direction, hit_record.normal, refraction_ratio)
        };
        let scattered_ray = Ray::new(hit_record.hit_point, direction);
        Option::Some(ScatteredRay { attenuation: self.attenuation, ray: scattered_ray })
    }
}

impl MaterialKind {
    /// Dispatches the scatter decision to the stored kind.
    pub fn scatter(&self, incident_ray: &Ray, hit_record: &HitRecord, rng: &mut Rng) -> (r: Option<
        ScatteredRay,
    >)
        requires
            mat_wf(*self),
            hit_wf(hit_record@),
            ray_ok(incident_ray@),
        ensures
            (opt_scatter_model(r), final(rng)@) == scatter_spec(
                *self,
                incident_ray@,
                hit_record@,
                old(rng)@,
            ),
            r matches Option::Some(sc) ==> colour_wf(sc@.0) && sc@.1.0 == hit_record@.1,
    {
        match self {
            MaterialKind::Empty(m) => m.scatter(incident_ray, hit_record, rng),
            MaterialKind::Lambertian(m) => Lambertian::scatter(m, incident_ray, hit_record, rng),
            MaterialKind::Metal(m) => Metal::scatter(m, incident_ray, hit_record, rng),
            MaterialKind::Dielectric(m) => Dielectric::scatter(m, incident_ray, hit_record, rng),
        }
    }
}

impl Material for EmptyMaterial {
    open spec fn wf(&self) -> bool {
        true
    }

    fn scatter(&self, incident_ray: &Ray, hit_record: &HitRecord, rng: &mut Rng) -> (r: Option<
        ScatteredRay,
    >) {
        EmptyMaterial::scatter(self, incident_ray, hit_record, rng)
    }
}

impl Material for Lambertian {
    open spec fn wf(&self) -> bool {
        colour_wf(self.albedo@)
    }

    fn scatter(&self, incident_ray: &Ray, hit_record: &HitRecord, rng: &mut Rng) -> (r: Option<
        ScatteredRay,
    >) {
        Lambertian::scatter(self, incident_ray, hit_record, rng)
    }
}

impl Material for Metal {
    open spec fn wf(&self) -> bool {
        colour_wf(self.albedo@) && 0 <= self.fuzz <= SCALE as int
    }

    fn scatter(&self, incident_ray: &Ray, hit_record: &HitRecord, rng: &mut Rng) -> (r: Option<
        ScatteredRay,
    >) {
        Metal::scatter(self, incident_ray, hit_record, rng)
    }
}

impl Material for Dielectric {
    open spec fn wf(&self) -> bool {
        16384 <= self.refraction_index <= 262144 && colour_wf(self.attenuation@)
    }

    fn scatter(&self, incident_ray: &Ray, hit_record: &HitRecord, rng: &mut Rng) -> (r: Option<
        ScatteredRay,
    >) {
        Dielectric::scatter(self, incident_ray, hit_record, rng)
    }
}

impl Material for MaterialKind {
    open spec fn wf(&self) -> bool {
        mat_wf(*self)
    }

    fn scatter(&self, incident_ray: &Ray, hit_record: &HitRecord, rng: &mut Rng) -> (r: Option<
        ScatteredRay,
    >) {
        MaterialKind::scatter(self, incident_ray, hit_record, rng)
    }
}

} // verus!
