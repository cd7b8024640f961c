//! Hit testing: the sphere primitive and the aggregate scene.
//!
//! The hit-testing capability answers whether a ray is blocked by geometry
//! at a parameter strictly inside `(t_min, t_max)`, and with what surface
//! data. A sphere answers it analytically; the aggregate answers with the
//! nearest hit among its members.

use vstd::prelude::*;
use crate::fixed::{
    SCALE, mul_scaled, div_scaled, sqrt_scaled, fmul, fdiv, fsqrt, lemma_ms_fit, lemma_ds_fit,
};
use crate::linear_algebra::{
    Vec3, Ray, V3, bounded, vsub, vneg, vdot, vlen2, vdivk, ray_at, COORD_LIMIT, DIR_LIMIT,
    T_LIMIT,
};
use crate::materials::{MaterialKind, mat_wf};

verus! {

/// Largest magnitude a surface-normal component may take: two units.
pub const NORMAL_LIMIT: i64 = 2 * SCALE;

/// The integer model of a sphere: centre, radius, material.
pub type SphereM = (V3, int, MaterialKind);

/// The integer model of a hit: parameter, hit point, corrected normal,
/// front-face flag, material.
pub type HitM = (int, V3, V3, bool, MaterialKind);

/// A ray the renderer can trace: origin in the scene box, direction within
/// the direction limit and long enough to be normalised.
pub open spec fn ray_ok(r: (V3, V3)) -> bool {
    &&& bounded(r.0, COORD_LIMIT as int)
    &&& bounded(r.1, DIR_LIMIT as int)
    &&& vlen2(r.1) >= 4096
}

/// Decides whether a ray is traceable: origin and direction on the grid
/// and the direction long enough to be normalised.
pub fn ray_ok_check(r: &Ray) -> (b: bool)
    ensures
        b == ray_ok(r@),
{
    let o = &r.origin;
    let d = &r.direction;
    let o_ok = -COORD_LIMIT <= o.x && o.x <= COORD_LIMIT && -COORD_LIMIT <= o.y && o.y
        <= COORD_LIMIT && -COORD_LIMIT <= o.z && o.z <= COORD_LIMIT;
    let d_ok = -DIR_LIMIT <= d.x && d.x <= DIR_LIMIT && -DIR_LIMIT <= d.y && d.y <= DIR_LIMIT
        && -DIR_LIMIT <= d.z && d.z <= DIR_LIMIT;
    if o_ok && d_ok {
        r.direction.length_squared() >= 4096
    } else {
        false
    }
}

/// The bounds every reported hit satisfies.
pub open spec fn hit_wf(h: HitM) -> bool {
    &&& 0 <= h.0 <= T_LIMIT as int
    &&& bounded(h.1, COORD_LIMIT as int)
    &&& bounded(h.2, NORMAL_LIMIT as int)
    &&& mat_wf(h.4)
}

/// The bounds every stored sphere satisfies.
pub open spec fn sphere_wf(s: SphereM) -> bool {
    &&& bounded(s.0, COORD_LIMIT as int)
    &&& 0 < s.1 <= COORD_LIMIT as int
    &&& mat_wf(s.2)
}

/// The record a hit produces from its raw data: the hit point, and the
/// outward normal flipped to oppose the incoming ray, with `front_face`
/// remembering which side was struck.
pub open spec fn hit_record_spec(t: int, ray: (V3, V3), outward: V3, m: MaterialKind) -> HitM {
    let p = ray_at(ray, t);
    let ff = vdot(ray.1, outward) < 0;
    let n = if ff {
        outward
    } else {
        vneg(outward)
    };
    (t, p, n, ff, m)
}

/// The model of an optional hit record.
pub open spec fn opt_hit_model(r: Option<HitRecord>) -> Option<HitM> {
    match r {
        Option::Some(h) => Option::Some(h@),
        Option::None => Option::None,
    }
}

/// What `Sphere::hit` returns: the reduced quadratic is solved, the nearer
/// admissible root is taken, and the hit is reported only when its point
/// and normal stay on the fixed grid.
pub open spec fn sphere_hit_spec(s: SphereM, ray: (V3, V3), t_min: int, t_max: int) -> Option<
    HitM,
> {
    let oc = vsub(ray.0, s.0);
    let a = vlen2(ray.1);
    let half_b = vdot(oc, ray.1);
    let c = vlen2(oc) - mul_scaled(s.1, s.1);
    let disc = mul_scaled(half_b, half_b) - mul_scaled(a, c);
    if disc <= 0 {
        Option::None
    } else {
        let sq = sqrt_scaled(disc);
        let root1 = div_scaled(-half_b - sq, a);
        let root = if t_min < root1 && root1 < t_max {
            root1
        } else {
            div_scaled(-half_b + sq, a)
        };
        if !(t_min < root && root < t_max) {
            Option::None
        } else {
            let p = ray_at(ray, root);
            if !bounded(p, COORD_LIMIT as int) {
                Option::None
            } else {
                let outward = vdivk(vsub(p, s.0), s.1);
                if !bounded(outward, NORMAL_LIMIT as int) {
                    Option::None
                } else {
                    Option::Some(hit_record_spec(root, ray, outward, s.2))
                }
            }
        }
    }
}

/// The nearest hit an aggregate reports, folding its members in insertion
/// order while narrowing the admissible parameter.
pub open spec fn list_hit_loop(
    objs: Seq<SphereM>,
    ray: (V3, V3),
    t_min: int,
    t_max: int,
    i: int,
    min_t: int,
    best: Option<HitM>,
) -> Option<HitM>
    decreases objs.len() - i,
{
    if i < 0 || i >= objs.len() {
        best
    } else {
        match sphere_hit_spec(objs[i], ray, t_min, t_max) {
            Option::Some(h) => if h.0 < min_t {
                list_hit_loop(objs, ray, t_min, t_max, i + 1, h.0, Option::Some(h))
            } else {
                list_hit_loop(objs, ray, t_min, t_max, i + 1, min_t, best)
            },
            Option::None => list_hit_loop(objs, ray, t_min, t_max, i + 1, min_t, best),
        }
    }
}

/// What `HittableList::hit` returns.
pub open spec fn list_hit_spec(objs: Seq<SphereM>, ray: (V3, V3), t_min: int, t_max: int) -> Option<
    HitM,
> {
    list_hit_loop(objs, ray, t_min, t_max, 0, t_max, Option::None)
}

/// Every stored sphere is well formed.
pub open spec fn list_wf(objs: Seq<SphereM>) -> bool {
    forall|i: int| 0 <= i < objs.len() ==> sphere_wf(#[trigger] objs[i])
}

/// A sphere reports hits only strictly inside the queried range.
proof fn lemma_sphere_hit_in_range(s: SphereM, ray: (V3, V3), t_min: int, t_max: int)
    ensures
        sphere_hit_spec(s, ray, t_min, t_max) matches Option::Some(h) ==> t_min < h.0 < t_max,
{
}

/// Folding on from an accumulator that already holds a hit keeps a hit,
/// and never moves it farther away.
proof fn lemma_loop_le_acc(
    objs: Seq<SphereM>,
    ray: (V3, V3),
    t_min: int,
    t_max: int,
    k: int,
    min_t: int,
    best: Option<HitM>,
)
    requires
        best matches Option::Some(b) ==> b.0 == min_t,
    ensures
        best matches Option::Some(b) ==> (list_hit_loop(objs, ray, t_min, t_max, k, min_t, best)
            matches Option::Some(r) && r.0 <= min_t),
    decreases objs.len() - k,
{
    if 0 <= k < objs.len() {
        match sphere_hit_spec(objs[k], ray, t_min, t_max) {
            Option::Some(g) => {
                if g.0 < min_t {
                    lemma_loop_le_acc(objs, ray, t_min, t_max, k + 1, g.0, Option::Some(g));
                } else {
                    lemma_loop_le_acc(objs, ray, t_min, t_max, k + 1, min_t, best);
                }
            },
            Option::None => {
                lemma_loop_le_acc(objs, ray, t_min, t_max, k + 1, min_t, best);
            },
        }
    }
}

/// If some member from index `k` on is hit at parameter `h.0`, the fold
/// reports a hit no farther than that.
proof fn lemma_loop_nearest(
    objs: Seq<SphereM>,
    ray: (V3, V3),
    t_min: int,
    t_max: int,
    k: int,
    min_t: int,
    best: Option<HitM>,
    i: int,
    h: HitM,
)
    requires
        0 <= k <= i < objs.len(),
        sphere_hit_spec(objs[i], ray, t_min, t_max) == Option::Some(h),
        (best matches Option::Some(b) && b.0 == min_t) || (best is None && min_t == t_max),
    ensures
        list_hit_loop(objs, ray, t_min, t_max, k, min_t, best) matches Option::Some(r) && r.0
            <= h.0,
    decreases i - k,
{
    lemma_sphere_hit_in_range(objs[i], ray, t_min, t_max);
    if k == i {
        if h.0 < min_t {
            lemma_loop_le_acc(objs, ray, t_min, t_max, k + 1, h.0, Option::Some(h));
        } else {
            lemma_loop_le_acc(objs, ray, t_min, t_max, k + 1, min_t, best);
        }
    } else {
        match sphere_hit_spec(objs[k], ray, t_min, t_max) {
            Option::Some(g) => {
                if g.0 < min_t {
                    lemma_loop_nearest(objs, ray, t_min, t_max, k + 1, g.0, Option::Some(g), i, h);
                } else {
                    lemma_loop_nearest(objs, ray, t_min, t_max, k + 1, min_t, best, i, h);
                }
            },
            Option::None => {
                lemma_loop_nearest(objs, ray, t_min, t_max, k + 1, min_t, best, i, h);
            },
        }
    }
}

/// Occlusion ordering: whenever any member of the aggregate is hit, the
/// aggregate reports a hit, and at a parameter no larger than that
/// member's — the nearest surface wins regardless of insertion order.
pub proof fn lemma_list_hit_nearest(
    objs: Seq<SphereM>,
    ray: (V3, V3),
    t_min: int,
    t_max: int,
    i: int,
    h: HitM,
)
    requires
        0 <= i < objs.len(),
        sphere_hit_spec(objs[i], ray, t_min, t_max) == Option::Some(h),
    ensures
        list_hit_spec(objs, ray, t_min, t_max) matches Option::Some(r) && r.0 <= h.0,
{
    lemma_loop_nearest(objs, ray, t_min, t_max, 0, t_max, Option::None, i, h);
}

/// The exact fixed-point arithmetic of an axial cast: every product and
/// quotient the quadratic meets on the sphere's own axis comes out exact.
proof fn lemma_axial_parts(d: int, r: int)
    requires
        0 <= d,
        256 <= r,
        r % 256 == 0,
    ensures
        mul_scaled(0, 0) == 0,
        mul_scaled(d, -(SCALE as int)) == -d,
        mul_scaled(-(SCALE as int), -(SCALE as int)) == SCALE as int,
        mul_scaled(-d, -d) == mul_scaled(d, d),
        mul_scaled(SCALE as int, mul_scaled(d, d) - mul_scaled(r, r)) == mul_scaled(d, d)
            - mul_scaled(r, r),
        mul_scaled(r, r) > 0,
        sqrt_scaled(mul_scaled(r, r)) == r,
        div_scaled(d - r, SCALE as int) == d - r,
        div_scaled(d + r, SCALE as int) == d + r,
        div_scaled(0, r) == 0,
        div_scaled(r, r) == SCALE as int,
        div_scaled(-r, r) == -(SCALE as int),
        mul_scaled(-(SCALE as int), d - r) == -(d - r),
        mul_scaled(-(SCALE as int), d + r) == -(d + r),
        mul_scaled(0, d - r) == 0,
        mul_scaled(0, d + r) == 0,
        mul_scaled(-(SCALE as int), SCALE as int) == -(SCALE as int),
{
    let s = SCALE as int;
    vstd::arithmetic::div_mod::lemma_div_of0(65536);
    vstd::arithmetic::div_mod::lemma_div_of0(r);
    assert(d * -s == 65536 * (-d));
    vstd::arithmetic::div_mod::lemma_div_multiples_vanish(-d, 65536);
    assert((-s) * (-s) == 65536 * 65536);
    vstd::arithmetic::div_mod::lemma_div_multiples_vanish(65536, 65536);
    assert((-d) * (-d) == d * d) by (nonlinear_arith);
    let c = mul_scaled(d, d) - mul_scaled(r, r);
    assert(s * c == 65536 * c);
    vstd::arithmetic::div_mod::lemma_div_multiples_vanish(c, 65536);
    // The radius is whole in grid steps of 1/256, so its square and square
    // root are exact.
    let j = r / 256;
    vstd::arithmetic::div_mod::lemma_fundamental_div_mod(r, 256);
    assert(r == 256 * j);
    assert(j >= 1);
    assert(r * r == 65536 * (j * j)) by (nonlinear_arith)
        requires
            r == 256 * j;
    vstd::arithmetic::div_mod::lemma_div_multiples_vanish(j * j, 65536);
    assert(mul_scaled(r, r) == j * j);
    assert(j * j >= 1) by (nonlinear_arith)
        requires
            j >= 1;
    assert((j * j) * s == (256 * j) * (256 * j)) by (nonlinear_arith)
        requires
            s == 65536;
    assert(((j * j) * s) as nat == ((r as nat) * (r as nat)));
    crate::fixed::lemma_sqrt_floor_square(r as nat);
    assert(div_scaled(d - r, s) == d - r) by {
        assert((d - r) * s == 65536 * (d - r));
        vstd::arithmetic::div_mod::lemma_div_multiples_vanish(d - r, 65536);
    }
    assert(div_scaled(d + r, s) == d + r) by {
        assert((d + r) * s == 65536 * (d + r));
        vstd::arithmetic::div_mod::lemma_div_multiples_vanish(d + r, 65536);
    }
    assert(div_scaled(r, r) == s) by {
        vstd::arithmetic::div_mod::lemma_div_multiples_vanish(65536, r);
    }
    assert(div_scaled(-r, r) == -s) by {
        assert((-r) * 65536 == r * (-65536)) by (nonlinear_arith);
        vstd::arithmetic::div_mod::lemma_div_multiples_vanish(-65536, r);
    }
    assert(mul_scaled(-s, d - r) == -(d - r)) by {
        assert((-s) * (d - r) == 65536 * (-(d - r)));
        vstd::arithmetic::div_mod::lemma_div_multiples_vanish(-(d - r), 65536);
    }
    assert(mul_scaled(-s, d + r) == -(d + r)) by {
        assert((-s) * (d + r) == 65536 * (-(d + r)));
        vstd::arithmetic::div_mod::lemma_div_multiples_vanish(-(d + r), 65536);
    }
    assert(mul_scaled(0, d - r) == 0) by {
        assert(0 * (d - r) == 0);
    }
    assert(mul_scaled(0, d + r) == 0) by {
        assert(0 * (d + r) == 0);
    }
    assert(mul_scaled(-s, s) == -s) by {
        assert((-s) * s == 65536 * (-65536));
        vstd::arithmetic::div_mod::lemma_div_multiples_vanish(-65536, 65536);
    }
}

/// A ray cast from outside a sphere, straight at its centre along the
/// axis, hits at parameter `t` equal to the centre distance less the
/// radius, on the front face, with the outward normal back along the ray.
/// Exactness asks the radius to be whole in grid steps of 1/256.
pub proof fn lemma_axial_hit_outside(
    o: V3,
    d: int,
    r: int,
    m: MaterialKind,
    t_min: int,
    t_max: int,
)
    requires
        256 <= r < d,
        r % 256 == 0,
        0 <= t_min < d - r < t_max,
        bounded(o, COORD_LIMIT as int),
        -(COORD_LIMIT as int) <= o.2 - (d - r) <= COORD_LIMIT as int,
    ensures
        sphere_hit_spec(
            ((o.0, o.1, o.2 - d), r, m),
            (o, (0int, 0int, -(SCALE as int))),
            t_min,
            t_max,
        ) == Option::Some(
            ((d - r), (o.0, o.1, o.2 - (d - r)), (0int, 0int, SCALE as int), true, m),
        ),
{
    lemma_axial_parts(d, r);
    let s = SCALE as int;
    let ray = (o, (0int, 0int, -s));
    let sm = ((o.0, o.1, o.2 - d), r, m);
    assert(vsub(ray.0, sm.0) == (0int, 0int, d));
    assert(vdot((0int, 0int, d), ray.1) == -d);
    assert(vlen2(ray.1) == s);
    assert(ray_at(ray, d - r) == (o.0, o.1, o.2 - (d - r)));
    assert(vsub((o.0, o.1, o.2 - (d - r)), sm.0) == (0int, 0int, r));
    assert(vdivk((0int, 0int, r), r) == (0int, 0int, s));
    assert(vdot(ray.1, (0int, 0int, s)) == -s);
    assert(hit_record_spec(d - r, ray, (0int, 0int, s), m) == (
        (d - r),
        (o.0, o.1, o.2 - (d - r)),
        (0int, 0int, s),
        true,
        m,
    ));
}

/// A ray cast from strictly inside a sphere toward its centre leaves it at
/// parameter `t` equal to the centre distance plus the radius, on the back
/// face: `front_face` is false and the reported normal is flipped to
/// oppose the ray. Exactness asks the radius to be whole in grid steps of
/// 1/256.
pub proof fn lemma_axial_hit_inside(o: V3, d: int, r: int, m: MaterialKind, t_min: int, t_max: int)
    requires
        256 <= r,
        0 <= d < r,
        0 <= t_min < d + r < t_max,
        r % 256 == 0,
        bounded(o, COORD_LIMIT as int),
        -(COORD_LIMIT as int) <= o.2 - (d + r) <= COORD_LIMIT as int,
    ensures
        sphere_hit_spec(
            ((o.0, o.1, o.2 - d), r, m),
            (o, (0int, 0int, -(SCALE as int))),
            t_min,
            t_max,
        ) == Option::Some(
            ((d + r), (o.0, o.1, o.2 - (d + r)), (0int, 0int, SCALE as int), false, m),
        ),
{
    lemma_axial_parts(d, r);
    let s = SCALE as int;
    let ray = (o, (0int, 0int, -s));
    let sm = ((o.0, o.1, o.2 - d), r, m);
    assert(vsub(ray.0, sm.0) == (0int, 0int, d));
    assert(vdot((0int, 0int, d), ray.1) == -d);
    assert(vlen2(ray.1) == s);
    assert(ray_at(ray, d + r) == (o.0, o.1, o.2 - (d + r)));
    assert(vsub((o.0, o.1, o.2 - (d + r)), sm.0) == (0int, 0int, -r));
    assert(vdivk((0int, 0int, -r), r) == (0int, 0int, -s));
    assert(vdot(ray.1, (0int, 0int, -s)) == s);
    assert(hit_record_spec(d + r, ray, (0int, 0int, -s), m) == (
        (d + r),
        (o.0, o.1, o.2 - (d + r)),
        (0int, 0int, s),
        false,
        m,
    ));
}

/// The capability of being hit by a ray: a hit is reported only with its
/// parameter strictly inside `(t_min, t_max)` and its data on the grid.
pub trait Hittable {
    /// The receiver is ready to be queried.
    spec fn wf(&self) -> bool;

    /// The nearest intersection strictly inside `(t_min, t_max)`, if any.
    fn hit(&self, ray: Ray, t_min: i64, t_max: i64) -> (r: Option<HitRecord>)
        requires
            self.wf(),
            ray_ok(ray@),
            0 <= t_min <= t_max <= T_LIMIT,
        ensures
            r matches Option::Some(h) ==> hit_wf(h@) && t_min < h@.0 < t_max,
    ;
}

/// The surface data of one intersection.
#[derive(Clone, Copy, Debug, PartialEq, Eq, Structural)]
pub struct HitRecord {
    pub t: i64,
    pub hit_point: Vec3,
    pub normal: Vec3,
    pub front_face: bool,
    pub material: MaterialKind,
}

impl View for HitRecord {
    type V = HitM;

    open spec fn view(&self) -> HitM {
        (self.t as int, self.hit_point@, self.normal@, self.front_face, self.material)
    }
}

impl HitRecord {
    /// The record of a hit at parameter `t`, with the outward normal
    /// corrected to oppose the ray.
    pub fn new(t: i64, ray: Ray, outward_normal: Vec3, material: MaterialKind) -> (r: Self)
        requires
            bounded(ray@.0, 0x3fff_ffff_ffff),
            bounded(ray@.1, DIR_LIMIT as int),
            -(T_LIMIT as int) <= t <= T_LIMIT as int,
            bounded(outward_normal@, 0x8000_0000),
        ensures
            r@ == hit_record_spec(t as int, ray@, outward_normal@, material),
    {
        let hit_point = ray.at(t);
        let front_face = ray.direction.dot(&outward_normal) < 0;
        let normal = if front_face {
            outward_normal
        } else {
            outward_normal.neg()
        };
        HitRecord { t, hit_point, normal, front_face, material }
    }
}

/// A sphere: centre, radius and the material of its surface.
#[derive(Clone, Copy, Debug, PartialEq, Eq, Structural)]
pub struct Sphere {
    pub centre: Vec3,
    pub radius: i64,
    pub material: MaterialKind,
}

impl View for Sphere {
    type V = SphereM;

    open spec fn view(&self) -> SphereM {
        (self.centre@, self.radius as int, self.material)
    }
}

impl Sphere {
    /// The sphere with the given centre, radius and material.
    pub fn new(centre: Vec3, radius: i64, material: MaterialKind) -> (r: Self)
        requires
            bounded(centre@, COORD_LIMIT as int),
            0 < radius <= COORD_LIMIT,
            mat_wf(material),
        ensures
            r@ == (centre@, radius as int, material),
            sphere_wf(r@),
    {
        Sphere { centre, radius, material }
    }

    /// Solves the reduced quadratic for the ray against this sphere and
    /// reports the nearer root strictly inside `(t_min, t_max)`, if any.
    pub fn hit(&self, ray: Ray, t_min: i64, t_max: i64) -> (r: Option<HitRecord>)
        requires
            sphere_wf(self@),
            ray_ok(ray@),
            0 <= t_min <= t_max <= T_LIMIT,
        ensures
            opt_hit_model(r) == sphere_hit_spec(self@, ray@, t_min as int, t_max as int),
            r matches Option::Some(h) ==> hit_wf(h@) && t_min < h@.0 < t_max,
    {
        let oc = ray.origin.sub(self.centre);
        proof {
            lemma_ms_fit(ray@.1.0, ray@.1.0, 0x200_0000, 0x200_0000);
            lemma_ms_fit(ray@.1.1, ray@.1.1, 0x200_0000, 0x200_0000);
            lemma_ms_fit(ray@.1.2, ray@.1.2, 0x200_0000, 0x200_0000);
            lemma_ms_fit(oc@.0, ray@.1.0, 0x1000_0000, 0x200_0000);
            lemma_ms_fit(oc@.1, ray@.1.1, 0x1000_0000, 0x200_0000);
            lemma_ms_fit(oc@.2, ray@.1.2, 0x1000_0000, 0x200_0000);
            lemma_ms_fit(oc@.0, oc@.0, 0x1000_0000, 0x1000_0000);
            lemma_ms_fit(oc@.1, oc@.1, 0x1000_0000, 0x1000_0000);
            lemma_ms_fit(oc@.2, oc@.2, 0x1000_0000, 0x1000_0000);
            lemma_ms_fit(self@.1, self@.1, 0x800_0000, 0x800_0000);
        }
        let a = ray.direction.length_squared();
        let half_b = oc.dot(&ray.direction);
        let c = oc.length_squared() - fmul(self.radius, self.radius);
        proof {
            lemma_ms_fit(half_b as int, half_b as int, 0x61_0000_0000, 0x61_0000_0000);
            lemma_ms_fit(a as int, c as int, 0xD_0000_0000, 0x410_0000_0000);
        }
        let disc = fmul(half_b, half_b) - fmul(a, c);
        if disc <= 0 {
            return Option::None;
        }
        let sq = fsqrt(disc);
        proof {
            lemma_ds_fit(-(half_b as int) - (sq as int), a as int, 0x200_0000_0000, 4096);
            lemma_ds_fit(-(half_b as int) + (sq as int), a as int, 0x200_0000_0000, 4096);
        }
        let mut root = fdiv(-half_b - sq, a);
        if !(t_min < root && root < t_max) {
            root = fdiv(-half_b + sq, a);
            if !(t_min < root && root < t_max) {
                return Option::None;
            }
        }
        let p = ray.at(root);
        let in_box = -COORD_LIMIT <= p.x && p.x <= COORD_LIMIT && -COORD_LIMIT <= p.y && p.y
            <= COORD_LIMIT && -COORD_LIMIT <= p.z && p.z <= COORD_LIMIT;
        if !in_box {
            return Option::None;
        }
        let diff = p.sub(self.centre);
        proof {
            lemma_ds_fit(diff@.0, self@.1, 0x1000_0000, 1);
            lemma_ds_fit(diff@.1, self@.1, 0x1000_0000, 1);
            lemma_ds_fit(diff@.2, self@.1, 0x1000_0000, 1);
        }
        let outward_normal = Vec3::new(
            fdiv(diff.x, self.radius),
            fdiv(diff.y, self.radius),
            fdiv(diff.z, self.radius),
        );
        let in_range = -NORMAL_LIMIT <= outward_normal.x && outward_normal.x <= NORMAL_LIMIT
            && -NORMAL_LIMIT <= outward_normal.y && outward_normal.y <= NORMAL_LIMIT
            && -NORMAL_LIMIT <= outward_normal.z && outward_normal.z <= NORMAL_LIMIT;
        if !in_range {
            return Option::None;
        }
        Option::Some(HitRecord::new(root, ray, outward_normal, self.material))
    }
}

impl Hittable for Sphere {
    open spec fn wf(&self) -> bool {
        sphere_wf(self@)
    }

    fn hit(&self, ray: Ray, t_min: i64, t_max: i64) -> (r: Option<HitRecord>) {
        Sphere::hit(self, ray, t_min, t_max)
    }
}

/// An insertion-ordered aggregate of spheres, itself hit-testable.
pub struct HittableList {
    pub objects: Vec<Sphere>,
}

impl View for HittableList {
    type V = Seq<SphereM>;

    open spec fn view(&self) -> Seq<SphereM> {
        self.objects@.map_values(|s: Sphere| s@)
    }
}

impl HittableList {
    /// An empty aggregate.
    pub fn new() -> (r: Self)
        ensures
            r@.len() == 0,
            list_wf(r@),
    {
        HittableList { objects: Vec::new() }
    }

    /// Appends a sphere, keeping insertion order.
    pub fn add(&mut self, item: Sphere)
        requires
            sphere_wf(item@),
        ensures
            final(self)@ == old(self)@.push(item@),
            list_wf(old(self)@) ==> list_wf(final(self)@),
    {
        self.objects.push(item);
        proof {
            assert(final(self)@ =~= old(self)@.push(item@));
            if list_wf(old(self)@) {
                assert forall|i: int| 0 <= i < final(self)@.len() implies sphere_wf(
                    #[trigger] final(self)@[i],
                ) by {
                    if i < old(self)@.len() {
                        assert(final(self)@[i] == old(self)@[i]);
                    }
                }
            }
        }
    }

    /// Removes every sphere.
    pub fn clear(&mut self)
        ensures
            final(self)@.len() == 0,
            list_wf(final(self)@),
    {
        self.objects.clear();
    }

    /// The nearest hit among all members: each is queried over the full
    /// range, and a hit is kept only when it is closer than the best so far.
    pub fn hit(&self, ray: Ray, t_min: i64, t_max: i64) -> (r: Option<HitRecord>)
        requires
            list_wf(self@),
            ray_ok(ray@),
            0 <= t_min <= t_max <= T_LIMIT,
        ensures
            opt_hit_model(r) == list_hit_spec(self@, ray@, t_min as int, t_max as int),
            r matches Option::Some(h) ==> hit_wf(h@) && t_min < h@.0 < t_max,
    {
        let mut closest_hit: Option<HitRecord> = Option::None;
        let mut min_t = t_max;
        let n = self.objects.len();
        let mut idx: usize = 0;
        while idx < n
            invariant
                0 <= idx <= n,
                n == self@.len(),
                list_wf(self@),
                ray_ok(ray@),
                0 <= t_min <= t_max <= T_LIMIT,
                t_min <= min_t <= t_max,
                closest_hit matches Option::Some(h) ==> hit_wf(h@) && t_min < h@.0 < t_max
                    && min_t == h@.0,
                closest_hit matches Option::None ==> min_t == t_max,
                list_hit_spec(self@, ray@, t_min as int, t_max as int) == list_hit_loop(
                    self@,
                    ray@,
                    t_min as int,
                    t_max as int,
                    idx as int,
                    min_t as int,
                    opt_hit_model(closest_hit),
                ),
            decreases n - idx,
        {
            proof {
                assert(self@[idx as int] == self.objects@[idx as int]@);
            }
            if let Option::Some(hit_record) = Sphere::hit(&self.objects[idx], ray, t_min, t_max) {
                if hit_record.t < min_t {
                    min_t = hit_record.t;
                    closest_hit = Option::Some(hit_record);
                }
            }
            idx = idx + 1;
        }
        closest_hit
    }
}

impl Hittable for HittableList {
    open spec fn wf(&self) -> bool {
        list_wf(self@)
    }

    fn hit(&self, ray: Ray, t_min: i64, t_max: i64) -> (r: Option<HitRecord>) {
        HittableList::hit(self, ray, t_min, t_max)
    }
}

} // verus!
