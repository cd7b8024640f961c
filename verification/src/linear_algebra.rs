//! Vectors and rays over fixed-point scalars.
//!
//! A `Vec3` holds three fixed-point components and serves as point,
//! direction and colour alike. Every operation states its result exactly
//! over the integer model `(int, int, int)` reached through `@`.

use vstd::prelude::*;
use crate::fixed::{
    SCALE, mul_scaled, div_scaled, sqrt_scaled, abs_int, fmul, fdiv, fsqrt, lemma_ms_fit,
    lemma_ds_fit, lemma_neg_div, lemma_square_lt, lemma_ms31, lemma_bounded_div,
};
use crate::random::{Rng, rand, rand_spec, next_state};

verus! {

/// The integer model of a vector: its three components.
pub type V3 = (int, int, int);

/// Largest magnitude a scene coordinate (a point component) may take.
pub const COORD_LIMIT: i64 = 0x800_0000;

/// Largest magnitude a ray-direction component may take.
pub const DIR_LIMIT: i64 = 0x200_0000;

/// Largest magnitude a ray parameter `t` may take; stands in for infinity.
pub const T_LIMIT: i64 = 0x100_0000_0000;

/// Componentwise tolerance of `near_zero`: below a quarter unit on every
/// axis a direction carries too little information to be normalised.
pub const NEAR_ZERO_LIMIT: i64 = 16384;

/// Every component of `v` lies within `m` in magnitude.
pub open spec fn bounded(v: V3, m: int) -> bool {
    &&& -m <= v.0 <= m
    &&& -m <= v.1 <= m
    &&& -m <= v.2 <= m
}

/// Componentwise sum.
pub open spec fn vadd(a: V3, b: V3) -> V3 {
    (a.0 + b.0, a.1 + b.1, a.2 + b.2)
}

/// Componentwise difference.
pub open spec fn vsub(a: V3, b: V3) -> V3 {
    (a.0 - b.0, a.1 - b.1, a.2 - b.2)
}

/// Componentwise negation.
pub open spec fn vneg(a: V3) -> V3 {
    (-a.0, -a.1, -a.2)
}

/// Componentwise (Hadamard) product.
pub open spec fn vmul(a: V3, b: V3) -> V3 {
    (mul_scaled(a.0, b.0), mul_scaled(a.1, b.1), mul_scaled(a.2, b.2))
}

/// Product with a scalar.
pub open spec fn vscale(a: V3, k: int) -> V3 {
    (mul_scaled(a.0, k), mul_scaled(a.1, k), mul_scaled(a.2, k))
}

/// Quotient by a scalar.
pub open spec fn vdivk(a: V3, k: int) -> V3 {
    (div_scaled(a.0, k), div_scaled(a.1, k), div_scaled(a.2, k))
}

/// Scalar product.
pub open spec fn vdot(a: V3, b: V3) -> int {
    mul_scaled(a.0, b.0) + mul_scaled(a.1, b.1) + mul_scaled(a.2, b.2)
}

/// Vector product.
pub open spec fn vcross(a: V3, b: V3) -> V3 {
    (
        mul_scaled(a.1, b.2) - mul_scaled(a.2, b.1),
        mul_scaled(a.2, b.0) - mul_scaled(a.0, b.2),
        mul_scaled(a.0, b.1) - mul_scaled(a.1, b.0),
    )
}

/// Squared length.
pub open spec fn vlen2(a: V3) -> int {
    vdot(a, a)
}

/// The vector scaled to unit length: each component divided by the length.
pub open spec fn vunit(a: V3) -> V3 {
    vdivk(a, sqrt_scaled(vlen2(a)))
}

/// Mirror image of `v` about the plane with normal `n`.
pub open spec fn vreflect(v: V3, n: V3) -> V3 {
    vsub(v, vscale(n, 2 * vdot(v, n)))
}

/// All three components are below the `near_zero` tolerance in magnitude.
pub open spec fn near_zero_spec(a: V3) -> bool {
    &&& abs_int(a.0) < NEAR_ZERO_LIMIT as int
    &&& abs_int(a.1) < NEAR_ZERO_LIMIT as int
    &&& abs_int(a.2) < NEAR_ZERO_LIMIT as int
}

/// A colour is a vector of red, green and blue weights in `[0, 1]`.
pub type Colour = Vec3;

/// A three-component fixed-point vector.
#[derive(Clone, Copy, Debug, PartialEq, Eq, Structural)]
pub struct Vec3 {
    pub x: i64,
    pub y: i64,
    pub z: i64,
}

impl View for Vec3 {
    type V = V3;

    open spec fn view(&self) -> V3 {
        (self.x as int, self.y as int, self.z as int)
    }
}

impl Vec3 {
    /// The vector with the given components.
    pub fn new(x: i64, y: i64, z: i64) -> (r: Self)
        ensures
            r@ == (x as int, y as int, z as int),
    {
        Vec3 { x, y, z }
    }

    /// First component.
    pub fn x(&self) -> (r: i64)
        ensures
            r == self@.0,
    {
        self.x
    }

    /// Second component.
    pub fn y(&self) -> (r: i64)
        ensures
            r == self@.1,
    {
        self.y
    }

    /// Third component.
    pub fn z(&self) -> (r: i64)
        ensures
            r == self@.2,
    {
        self.z
    }

    /// Squared length.
    pub fn length_squared(&self) -> (r: i64)
        requires
            bounded(self@, 0x8000_0000),
        ensures
            r == vlen2(self@),
    {
        proof {
            lemma_ms31(self@.0, self@.0);
            lemma_ms31(self@.1, self@.1);
            lemma_ms31(self@.2, self@.2);
        }
        fmul(self.x, self.x) + fmul(self.y, self.y) + fmul(self.z, self.z)
    }

    /// Length: the square root of the squared length.
    pub fn length(&self) -> (r: i64)
        requires
            bounded(self@, 0x8000_0000),
        ensures
            r == sqrt_scaled(vlen2(self@)),
            r >= 0,
    {
        let len2 = self.length_squared();
        proof {
            lemma_ms_nonneg(self@.0, self@.0);
            lemma_ms_nonneg(self@.1, self@.1);
            lemma_ms_nonneg(self@.2, self@.2);
        }
        fsqrt(len2)
    }

    /// Scalar product.
    pub fn dot(&self, other: &Vec3) -> (r: i64)
        requires
            bounded(self@, 0x8000_0000),
            bounded(other@, 0x8000_0000),
        ensures
            r == vdot(self@, other@),
    {
        proof {
            lemma_ms31(self@.0, other@.0);
            lemma_ms31(self@.1, other@.1);
            lemma_ms31(self@.2, other@.2);
        }
        fmul(self.x, other.x) + fmul(self.y, other.y) + fmul(self.z, other.z)
    }

    /// Vector product.
    pub fn cross(&self, other: &Vec3) -> (r: Vec3)
        requires
            bounded(self@, 0x8000_0000),
            bounded(other@, 0x8000_0000),
        ensures
            r@ == vcross(self@, other@),
    {
        proof {
            lemma_ms31(self@.0, other@.1);
            lemma_ms31(self@.0, other@.2);
            lemma_ms31(self@.1, other@.0);
            lemma_ms31(self@.1, other@.2);
            lemma_ms31(self@.2, other@.0);
            lemma_ms31(self@.2, other@.1);
        }
        let x = fmul(self.y, other.z) - fmul(self.z, other.y);
        let y = fmul(self.z, other.x) - fmul(self.x, other.z);
        let z = fmul(self.x, other.y) - fmul(self.y, other.x);
        Vec3::new(x, y, z)
    }

    /// The direction of the vector at unit length. The vector must be long
    /// enough (length at least a quarter) to be normalised on the fixed grid.
    pub fn unit_vector(&self) -> (r: Vec3)
        requires
            bounded(self@, 0x4000_0000),
            vlen2(self@) >= SCALE as int / 16,
        ensures
            r@ == vunit(self@),
            bounded(r@, 2 * SCALE as int + 1),
    {
        let len2 = self.length_squared();
        proof {
            lemma_ms_nonneg(self@.0, self@.0);
            lemma_ms_nonneg(self@.1, self@.1);
            lemma_ms_nonneg(self@.2, self@.2);
        }
        let l = fsqrt(len2);
        proof {
            lemma_unit_comp(self@.0, len2 as int, l as int);
            lemma_unit_comp(self@.1, len2 as int, l as int);
            lemma_unit_comp(self@.2, len2 as int, l as int);
            lemma_ds_fit(self@.0, l as int, 0x4000_0000, 16384);
            lemma_ds_fit(self@.1, l as int, 0x4000_0000, 16384);
            lemma_ds_fit(self@.2, l as int, 0x4000_0000, 16384);
        }
        Vec3::new(fdiv(self.x, l), fdiv(self.y, l), fdiv(self.z, l))
    }

    /// Whether every component is below the degenerate-direction tolerance.
    pub fn near_zero(&self) -> (r: bool)
        requires
            bounded(self@, 0x3fff_ffff_ffff_ffff),
        ensures
            r == near_zero_spec(self@),
    {
        let t = NEAR_ZERO_LIMIT;
        let ax = if self.x < 0 { -self.x } else { self.x };
        let ay = if self.y < 0 { -self.y } else { self.y };
        let az = if self.z < 0 { -self.z } else { self.z };
        ax < t && ay < t && az < t
    }

    /// Componentwise negation.
    pub fn neg(self) -> (r: Self)
        requires
            bounded(self@, 0x3fff_ffff_ffff_ffff),
        ensures
            r@ == vneg(self@),
    {
        Vec3::new(-self.x, -self.y, -self.z)
    }

    /// Componentwise sum.
    pub fn add(self, other: Self) -> (r: Self)
        requires
            bounded(self@, 0x3fff_ffff_ffff_ffff),
            bounded(other@, 0x3fff_ffff_ffff_ffff),
        ensures
            r@ == vadd(self@, other@),
    {
        Vec3::new(self.x + other.x, self.y + other.y, self.z + other.z)
    }

    /// Componentwise difference.
    pub fn sub(self, other: Self) -> (r: Self)
        requires
            bounded(self@, 0x3fff_ffff_ffff_ffff),
            bounded(other@, 0x3fff_ffff_ffff_ffff),
        ensures
            r@ == vsub(self@, other@),
    {
        Vec3::new(self.x - other.x, self.y - other.y, self.z - other.z)
    }

    /// Componentwise product.
    pub fn mul(self, other: Self) -> (r: Self)
        requires
            bounded(self@, 0x8000_0000),
            bounded(other@, 0x8000_0000),
        ensures
            r@ == vmul(self@, other@),
    {
        proof {
            lemma_ms31(self@.0, other@.0);
            lemma_ms31(self@.1, other@.1);
            lemma_ms31(self@.2, other@.2);
        }
        Vec3::new(fmul(self.x, other.x), fmul(self.y, other.y), fmul(self.z, other.z))
    }

    /// Product with a scalar.
    pub fn scale(self, k: i64) -> (r: Self)
        requires
            bounded(self@, 0x8000_0000),
            -0x8000_0000 <= k <= 0x8000_0000,
        ensures
            r@ == vscale(self@, k as int),
    {
        proof {
            lemma_ms31(self@.0, k as int);
            lemma_ms31(self@.1, k as int);
            lemma_ms31(self@.2, k as int);
        }
        Vec3::new(fmul(self.x, k), fmul(self.y, k), fmul(self.z, k))
    }

    /// Quotient by a positive scalar.
    pub fn div_scalar(self, k: i64) -> (r: Self)
        requires
            bounded(self@, 0x3fff_ffff_ffff),
            k >= 1,
        ensures
            r@ == vdivk(self@, k as int),
    {
        proof {
            lemma_ds_fit(self@.0, k as int, 0x3fff_ffff_ffff, 1);
            lemma_ds_fit(self@.1, k as int, 0x3fff_ffff_ffff, 1);
            lemma_ds_fit(self@.2, k as int, 0x3fff_ffff_ffff, 1);
        }
        Vec3::new(fdiv(self.x, k), fdiv(self.y, k), fdiv(self.z, k))
    }

    /// Adds `rhs` to the vector in place.
    pub fn add_assign(&mut self, rhs: Vec3)
        requires
            bounded(old(self)@, 0x3fff_ffff_ffff_ffff),
            bounded(rhs@, 0x3fff_ffff_ffff_ffff),
        ensures
            final(self)@ == vadd(old(self)@, rhs@),
    {
        self.x = self.x + rhs.x;
        self.y = self.y + rhs.y;
        self.z = self.z + rhs.z;
    }

    /// Scales the vector by `rhs` in place.
    pub fn mul_assign(&mut self, rhs: i64)
        requires
            bounded(old(self)@, 0x8000_0000),
            -0x8000_0000 <= rhs <= 0x8000_0000,
        ensures
            final(self)@ == vscale(old(self)@, rhs as int),
    {
        proof {
            lemma_ms31(old(self)@.0, rhs as int);
            lemma_ms31(old(self)@.1, rhs as int);
            lemma_ms31(old(self)@.2, rhs as int);
        }
        self.x = fmul(self.x, rhs);
        self.y = fmul(self.y, rhs);
        self.z = fmul(self.z, rhs);
    }

    /// Divides the vector by the positive scalar `rhs` in place.
    pub fn div_assign(&mut self, rhs: i64)
        requires
            bounded(old(self)@, 0x3fff_ffff_ffff),
            rhs >= 1,
        ensures
            final(self)@ == vdivk(old(self)@, rhs as int),
    {
        proof {
            lemma_ds_fit(old(self)@.0, rhs as int, 0x3fff_ffff_ffff, 1);
            lemma_ds_fit(old(self)@.1, rhs as int, 0x3fff_ffff_ffff, 1);
            lemma_ds_fit(old(self)@.2, rhs as int, 0x3fff_ffff_ffff, 1);
        }
        self.x = fdiv(self.x, rhs);
        self.y = fdiv(self.y, rhs);
        self.z = fdiv(self.z, rhs);
    }
}

/// Snell refraction in fixed point, following the perpendicular/parallel
/// decomposition: the cosine is read off the incoming direction (capped at
/// one), the perpendicular part is the ratio times the tilted direction,
/// and the parallel part restores unit length.
pub open spec fn vrefract(uv: V3, n: V3, ratio: int) -> V3 {
    let d = vdot(uv, n);
    let cosine = if -d > SCALE as int {
        SCALE as int
    } else {
        -d
    };
    let perp = vscale(vadd(uv, vscale(n, cosine)), ratio);
    let k = (SCALE as int) - vlen2(perp);
    let sq = sqrt_scaled(abs_int(k));
    vadd(perp, vscale(n, -sq))
}

/// The point a ray reaches at parameter `t`.
pub open spec fn ray_at(r: (V3, V3), t: int) -> V3 {
    vadd(r.0, vscale(r.1, t))
}

/// The vector that three consecutive draws in `[min, max)` yield, with the
/// state after them.
pub open spec fn random_vector_spec(s: u64, min: int, max: int) -> (V3, u64) {
    let x = rand_spec(s, min, max);
    let s1 = next_state(s);
    let y = rand_spec(s1, min, max);
    let s2 = next_state(s1);
    let z = rand_spec(s2, min, max);
    let s3 = next_state(s2);
    ((x, y, z), s3)
}

/// A draw usable as a diffuse bounce: inside the unit sphere and long
/// enough (length at least a quarter) to be normalised.
pub open spec fn in_sphere_shell(v: V3) -> bool {
    4096 <= vlen2(v) < SCALE as int
}

/// Rejection sampling inside the unit sphere: up to `tries` draws, keeping
/// the first usable one; after that, a fixed half-unit vector.
pub open spec fn sphere_draw_spec(s: u64, tries: nat) -> (V3, u64)
    decreases tries,
{
    if tries == 0 {
        ((32768int, 0int, 0int), s)
    } else {
        let (v, s1) = random_vector_spec(s, -(SCALE as int), SCALE as int);
        if in_sphere_shell(v) {
            (v, s1)
        } else {
            sphere_draw_spec(s1, (tries - 1) as nat)
        }
    }
}

/// A unit-length draw: the sphere draw, normalised.
pub open spec fn unit_draw_spec(s: u64) -> (V3, u64) {
    let (v, s1) = sphere_draw_spec(s, 32);
    (vunit(v), s1)
}

/// Rejection sampling inside the unit disk of the `x`/`y` plane: up to
/// `tries` pairs of draws, keeping the first inside; after that, the origin.
pub open spec fn disk_draw_spec(s: u64, tries: nat) -> (V3, u64)
    decreases tries,
{
    if tries == 0 {
        ((0int, 0int, 0int), s)
    } else {
        let x = rand_spec(s, -(SCALE as int), SCALE as int);
        let s1 = next_state(s);
        let y = rand_spec(s1, -(SCALE as int), SCALE as int);
        let s2 = next_state(s1);
        if vlen2((x, y, 0int)) < SCALE as int {
            ((x, y, 0int), s2)
        } else {
            disk_draw_spec(s2, (tries - 1) as nat)
        }
    }
}

/// Mirror image of `v` about the plane with normal `n`.
pub fn reflect(v: Vec3, n: Vec3) -> (r: Vec3)
    requires
        bounded(v@, 0x400_0000),
        bounded(n@, 0x4_0000),
    ensures
        r@ == vreflect(v@, n@),
{
    proof {
        lemma_ms_fit(v@.0, n@.0, 0x400_0000, 0x4_0000);
        lemma_ms_fit(v@.1, n@.1, 0x400_0000, 0x4_0000);
        lemma_ms_fit(v@.2, n@.2, 0x400_0000, 0x4_0000);
    }
    let d = v.dot(&n);
    proof {
        lemma_ms31(n@.0, 2 * d as int);
        lemma_ms31(n@.1, 2 * d as int);
        lemma_ms31(n@.2, 2 * d as int);
    }
    v.sub(n.scale(2 * d))
}

/// Snell refraction of the unit direction `unit_vector` at a surface with
/// normal `normal` and the given ratio of refraction indices.
pub fn refract(unit_vector: Vec3, normal: Vec3, refraction_ratio: i64) -> (r: Vec3)
    requires
        bounded(unit_vector@, 0x4_0000),
        bounded(normal@, 0x4_0000),
        0 <= refraction_ratio <= 0x4_0000,
    ensures
        r@ == vrefract(unit_vector@, normal@, refraction_ratio as int),
{
    proof {
        lemma_ms_fit(unit_vector@.0, normal@.0, 0x4_0000, 0x4_0000);
        lemma_ms_fit(unit_vector@.1, normal@.1, 0x4_0000, 0x4_0000);
        lemma_ms_fit(unit_vector@.2, normal@.2, 0x4_0000, 0x4_0000);
    }
    let d = unit_vector.dot(&normal);
    let negd = -d;
    let cosine = if negd > SCALE {
        SCALE
    } else {
        negd
    };
    proof {
        lemma_ms_fit(normal@.0, cosine as int, 0x4_0000, 0x40_0000);
        lemma_ms_fit(normal@.1, cosine as int, 0x4_0000, 0x40_0000);
        lemma_ms_fit(normal@.2, cosine as int, 0x4_0000, 0x40_0000);
    }
    let tilted = unit_vector.add(normal.scale(cosine));
    proof {
        lemma_ms_fit(tilted@.0, refraction_ratio as int, 0x200_0000, 0x4_0000);
        lemma_ms_fit(tilted@.1, refraction_ratio as int, 0x200_0000, 0x4_0000);
        lemma_ms_fit(tilted@.2, refraction_ratio as int, 0x200_0000, 0x4_0000);
    }
    let perp_vec = tilted.scale(refraction_ratio);
    proof {
        lemma_ms_nonneg(perp_vec@.0, perp_vec@.0);
        lemma_ms_nonneg(perp_vec@.1, perp_vec@.1);
        lemma_ms_nonneg(perp_vec@.2, perp_vec@.2);
        lemma_ms_fit(perp_vec@.0, perp_vec@.0, 0x800_0001, 0x800_0001);
        lemma_ms_fit(perp_vec@.1, perp_vec@.1, 0x800_0001, 0x800_0001);
        lemma_ms_fit(perp_vec@.2, perp_vec@.2, 0x800_0001, 0x800_0001);
    }
    let p2 = perp_vec.length_squared();
    let k = SCALE - p2;
    let a = if k < 0 {
        -k
    } else {
        k
    };
    let sq = fsqrt(a);
    proof {
        assert(sq * sq <= (a as int) * (SCALE as int));
        assert(sq <= 0x1000_0000) by (nonlinear_arith)
            requires
                0 <= sq,
                sq * sq <= (a as int) * (SCALE as int),
                0 <= a <= 0x100_0000_0000;
        lemma_ms31(normal@.0, -sq as int);
        lemma_ms31(normal@.1, -sq as int);
        lemma_ms31(normal@.2, -sq as int);
    }
    let parallel_vec = normal.scale(-sq);
    perp_vec.add(parallel_vec)
}

/// A vector with three independent uniform draws in `[min, max)` as its
/// components.
pub fn random_vector(rng: &mut Rng, min: i64, max: i64) -> (r: Vec3)
    requires
        min <= max,
        -0x4000_0000 <= min,
        max <= 0x4000_0000,
    ensures
        (r@, final(rng)@) == random_vector_spec(old(rng)@, min as int, max as int),
        bounded(r@, if -min > max { -(min as int) } else { max as int }),
{
    let x = rand(rng, min, max);
    let y = rand(rng, min, max);
    let z = rand(rng, min, max);
    Vec3::new(x, y, z)
}

/// One rejection-sampling attempt sequence for the unit sphere.
fn draw_in_sphere(rng: &mut Rng, tries: u64) -> (r: Vec3)
    ensures
        (r@, final(rng)@) == sphere_draw_spec(old(rng)@, tries as nat),
        in_sphere_shell(r@),
        bounded(r@, SCALE as int),
    decreases tries,
{
    if tries == 0 {
        let r = Vec3::new(32768, 0, 0);
        proof {
            lemma_ms31(32768, 32768);
            assert(vlen2(r@) == mul_scaled(32768, 32768));
            assert(32768 * 32768 == 65536 * 16384);
            vstd::arithmetic::div_mod::lemma_div_multiples_vanish(16384, 65536);
        }
        r
    } else {
        let v = random_vector(rng, -SCALE, SCALE);
        let len2 = v.length_squared();
        if 4096 <= len2 && len2 < SCALE {
            v
        } else {
            draw_in_sphere(rng, tries - 1)
        }
    }
}

/// A uniform draw from the unit sphere, rejected until it is both inside
/// the sphere and long enough to be normalised.
pub fn random_vector_in_unit_sphere(rng: &mut Rng) -> (r: Vec3)
    ensures
        (r@, final(rng)@) == sphere_draw_spec(old(rng)@, 32),
        in_sphere_shell(r@),
        bounded(r@, SCALE as int),
{
    draw_in_sphere(rng, 32)
}

/// A uniformly distributed unit-length direction.
pub fn random_unit_vector(rng: &mut Rng) -> (r: Vec3)
    ensures
        (r@, final(rng)@) == unit_draw_spec(old(rng)@),
        bounded(r@, 2 * SCALE as int + 1),
{
    let v = random_vector_in_unit_sphere(rng);
    v.unit_vector()
}

/// One rejection-sampling attempt sequence for the unit disk.
fn draw_in_disk(rng: &mut Rng, tries: u64) -> (r: Vec3)
    ensures
        (r@, final(rng)@) == disk_draw_spec(old(rng)@, tries as nat),
        vlen2(r@) < SCALE as int,
        bounded(r@, SCALE as int),
        r@.2 == 0,
    decreases tries,
{
    if tries == 0 {
        let r = Vec3::new(0, 0, 0);
        proof {
            lemma_ms31(0, 0);
        }
        r
    } else {
        let x = rand(rng, -SCALE, SCALE);
        let y = rand(rng, -SCALE, SCALE);
        let v = Vec3::new(x, y, 0);
        let len2 = v.length_squared();
        if len2 < SCALE {
            v
        } else {
            draw_in_disk(rng, tries - 1)
        }
    }
}

/// A uniform draw from the unit disk of the `x`/`y` plane.
pub fn random_vec_in_unit_disk(rng: &mut Rng) -> (r: Vec3)
    ensures
        (r@, final(rng)@) == disk_draw_spec(old(rng)@, 32),
        vlen2(r@) < SCALE as int,
        bounded(r@, SCALE as int),
        r@.2 == 0,
{
    draw_in_disk(rng, 32)
}

/// A ray: an origin point and a direction.
#[derive(Clone, Copy, Debug, PartialEq, Eq, Structural)]
pub struct Ray {
    pub origin: Vec3,
    pub direction: Vec3,
}

impl View for Ray {
    type V = (V3, V3);

    open spec fn view(&self) -> (V3, V3) {
        (self.origin@, self.direction@)
    }
}

impl Ray {
    /// The ray from `origin` along `direction`.
    pub fn new(origin: Vec3, direction: Vec3) -> (r: Self)
        ensures
            r@ == (origin@, direction@),
    {
        Ray { origin, direction }
    }

    /// The point the ray reaches at parameter `t`.
    pub fn at(&self, t: i64) -> (r: Vec3)
        requires
            bounded(self@.0, 0x3fff_ffff_ffff),
            bounded(self@.1, DIR_LIMIT as int),
            -(T_LIMIT as int) <= t <= T_LIMIT as int,
        ensures
            r@ == ray_at(self@, t as int),
    {
        proof {
            lemma_ms_fit(self@.1.0, t as int, 0x200_0000, 0x100_0000_0000);
            lemma_ms_fit(self@.1.1, t as int, 0x200_0000, 0x100_0000_0000);
            lemma_ms_fit(self@.1.2, t as int, 0x200_0000, 0x100_0000_0000);
        }
        Vec3::new(
            self.origin.x + fmul(self.direction.x, t),
            self.origin.y + fmul(self.direction.y, t),
            self.origin.z + fmul(self.direction.z, t),
        )
    }
}

/// A scaled product of a value with itself is never negative.
proof fn lemma_ms_nonneg(a: int, b: int)
    requires
        a == b,
    ensures
        mul_scaled(a, b) >= 0,
{
    assert(a * b >= 0) by (nonlinear_arith)
        requires
            a == b;
    vstd::arithmetic::div_mod::lemma_div_pos_is_pos(a * b, 65536);
}

/// Each component of a normalised vector stays within two units.
proof fn lemma_unit_comp(c: int, len2: int, l: int)
    requires
        -0x4000_0000 <= c <= 0x4000_0000,
        mul_scaled(c, c) <= len2,
        4096 <= len2,
        0 <= l,
        l * l <= len2 * (SCALE as int),
        len2 * (SCALE as int) < (l + 1) * (l + 1),
    ensures
        16384 <= l,
        -(2 * SCALE as int) - 1 <= div_scaled(c, l) <= 2 * SCALE as int + 1,
{
    let s = SCALE as int;
    // The length is at least a quarter unit.
    assert(len2 * s >= 4096 * 65536);
    if l < 16384 {
        lemma_square_lt(l, 16384);
        assert((l + 1) * (l + 1) <= 16384 * 16384) by (nonlinear_arith)
            requires
                0 <= l < 16384;
        assert(16384 * 16384 == 4096 * 65536);
        assert(false);
    }
    let a = abs_int(c);
    if a < s / 2 {
        // The length is at least a quarter, so the quotient grows at most
        // fourfold, staying under two units.
        assert(a * s <= (2 * s) * l) by (nonlinear_arith)
            requires
                0 <= a < 32768,
                l >= 16384,
                s == 65536;
    } else {
        // A large component is nearly the whole length, so the quotient is
        // barely more than one unit.
        assert(mul_scaled(c, c) == (a * a) / s) by (nonlinear_arith)
            requires
                s == 65536,
                (c < 0 ==> a == -c) && (c >= 0 ==> a == c);
        vstd::arithmetic::div_mod::lemma_fundamental_div_mod(a * a, s);
        assert(((a * a) / s) * s > a * a - s);
        assert(len2 * s >= ((a * a) / s) * s) by (nonlinear_arith)
            requires
                s == 65536,
                len2 >= (a * a) / s;
        assert((a - 1) * (a - 1) <= a * a - s + 1) by (nonlinear_arith)
            requires
                a >= 32768,
                s == 65536;
        assert(l >= a - 1) by {
            if l < a - 1 {
                assert((l + 1) * (l + 1) <= (a - 1) * (a - 1)) by (nonlinear_arith)
                    requires
                        0 <= l,
                        l + 1 <= a - 1;
                assert(false);
            }
        };
        assert(a * s <= (2 * s) * l) by (nonlinear_arith)
            requires
                a >= 2,
                l >= a - 1,
                s == 65536;
    }
    lemma_bounded_div(a * s, l, 2 * s);
    assert(div_scaled(c, l) == if c >= 0 {
        (a * s) / l
    } else {
        (-(a * s)) / l
    });
    if c < 0 {
        lemma_neg_div(a * s, l);
    }
}

} // verus!
