//! Fixed-point scalar arithmetic.
//!
//! A scalar is an `i64` holding a multiple of `1 / SCALE`; the integer `r`
//! stands for the number `r / SCALE`. Products and quotients round toward
//! negative infinity, so each operation equals one exact expression over the
//! mathematical integers, stated by the spec functions below.

use vstd::prelude::*;

verus! {

/// Number of fixed-point steps in one unit; the representation of `1`.
pub const SCALE: i64 = 65536;

/// Magnitude cap under which a scaled product or quotient is accepted.
pub const FIT_LIMIT: i64 = 0x4000_0000_0000_0000;

/// What multiplying two fixed-point scalars means: the scaled product,
/// rounded toward negative infinity.
pub open spec fn mul_scaled(a: int, b: int) -> int {
    (a * b) / (SCALE as int)
}

/// What dividing one fixed-point scalar by another (positive) one means:
/// the scaled quotient, rounded toward negative infinity.
pub open spec fn div_scaled(a: int, b: int) -> int {
    (a * (SCALE as int)) / b
}

/// The product of `a` and `b` is small enough for `fmul`.
pub open spec fn ms_fits(a: int, b: int) -> bool {
    -(FIT_LIMIT as int) <= mul_scaled(a, b) <= FIT_LIMIT as int
}

/// The quotient of `a` by `b` is small enough for `fdiv`.
pub open spec fn ds_fits(a: int, b: int) -> bool {
    &&& 0 < b
    &&& -(FIT_LIMIT as int) <= div_scaled(a, b) <= FIT_LIMIT as int
}

/// Largest natural number whose square does not exceed `n`.
pub open spec fn sqrt_floor(n: nat) -> nat
    decreases n,
{
    if n == 0 {
        0
    } else {
        let s = sqrt_floor((n - 1) as nat);
        if (s + 1) * (s + 1) <= n {
            s + 1
        } else {
            s
        }
    }
}

/// What the square root of a (nonnegative) fixed-point scalar means:
/// the largest representation whose square does not exceed `x`.
pub open spec fn sqrt_scaled(x: int) -> int {
    if x >= 0 {
        sqrt_floor((x * (SCALE as int)) as nat) as int
    } else {
        0
    }
}

/// Magnitude of an integer.
pub open spec fn abs_int(x: int) -> int {
    if x < 0 {
        -x
    } else {
        x
    }
}

/// Squaring keeps strict order on nonnegative integers.
pub proof fn lemma_square_lt(a: int, b: int)
    by (nonlinear_arith)
    requires
        0 <= a < b,
    ensures
        a * a < b * b,
{
}

/// `sqrt_floor` really is the floor of the square root.
pub proof fn lemma_sqrt_floor(n: nat)
    ensures
        sqrt_floor(n) * sqrt_floor(n) <= n,
        n < (sqrt_floor(n) + 1) * (sqrt_floor(n) + 1),
    decreases n,
{
    if n == 0 {
        assert(sqrt_floor(n) == 0);
        lemma_square_lt(0int, 1int);
        assert(n < (sqrt_floor(n) + 1) * (sqrt_floor(n) + 1));
    } else {
        let m = (n - 1) as nat;
        lemma_sqrt_floor(m);
        let s = sqrt_floor(m);
        assert(sqrt_floor(n) == if (s + 1) * (s + 1) <= n {
            (s + 1) as nat
        } else {
            s
        });
        if (s + 1) * (s + 1) <= n {
            assert(m < (s + 1) * (s + 1));
            assert(n == (s + 1) * (s + 1));
            lemma_square_lt(s as int + 1, s as int + 2);
            assert(sqrt_floor(n) as int + 1 == s as int + 2);
            assert(n < (sqrt_floor(n) + 1) * (sqrt_floor(n) + 1));
        } else {
            assert(s * s <= m);
            assert(n < (sqrt_floor(n) + 1) * (sqrt_floor(n) + 1));
        }
    }
}

/// Any natural number sandwiched between consecutive squares is the floor
/// of the square root.
pub proof fn lemma_sqrt_floor_unique(n: nat, r: nat)
    requires
        r * r <= n,
        n < (r + 1) * (r + 1),
    ensures
        r == sqrt_floor(n),
{
    lemma_sqrt_floor(n);
    let s = sqrt_floor(n);
    assert(r == s) by (nonlinear_arith)
        requires
            r * r <= n,
            n < (r + 1) * (r + 1),
            s * s <= n,
            n < (s + 1) * (s + 1),
            r >= 0,
            s >= 0;
}

/// The floor of the square root never decreases.
pub proof fn lemma_sqrt_floor_monotone(a: nat, b: nat)
    requires
        a <= b,
    ensures
        sqrt_floor(a) <= sqrt_floor(b),
{
    lemma_sqrt_floor(a);
    lemma_sqrt_floor(b);
    let sa = sqrt_floor(a);
    let sb = sqrt_floor(b);
    assert(sa <= sb) by (nonlinear_arith)
        requires
            sa * sa <= a,
            b < (sb + 1) * (sb + 1),
            a <= b,
            sa >= 0,
            sb >= 0;
}

/// On a perfect square the floor of the square root is exact.
pub proof fn lemma_sqrt_floor_square(r: nat)
    ensures
        sqrt_floor(r * r) == r,
{
    assert(r * r < (r + 1) * (r + 1)) by (nonlinear_arith);
    lemma_sqrt_floor_unique(r * r, r);
}

/// Negating the dividend of a floor division moves the quotient by at most one.
pub proof fn lemma_neg_div(p: int, d: int)
    requires
        0 <= p,
        0 < d,
    ensures
        -(p / d) - 1 <= (-p) / d <= -(p / d),
{
    vstd::arithmetic::div_mod::lemma_fundamental_div_mod(p, d);
    let q = p / d;
    let r = p % d;
    assert((-q) * d == -(q * d) && (-q - 1) * d == -(q * d) - d && q * d == d * q)
        by (nonlinear_arith);
    if r == 0 {
        assert(-p == (-q) * d + 0);
        vstd::arithmetic::div_mod::lemma_fundamental_div_mod_converse(-p, d, -q, 0);
    } else {
        assert(-p == (-q - 1) * d + (d - r));
        vstd::arithmetic::div_mod::lemma_fundamental_div_mod_converse(-p, d, -q - 1, d - r);
    }
}

/// Bound on a fixed-point product from bounds on its factors, and when it
/// is small enough for `fmul`.
pub proof fn lemma_ms_fit(a: int, b: int, aa: int, bb: int)
    requires
        -aa <= a <= aa,
        -bb <= b <= bb,
        0 <= aa,
        0 <= bb,
        aa * bb <= 0x3fff_ffff_ffff_ffff_0000,
    ensures
        ms_fits(a, b),
        -((aa * bb) / (SCALE as int)) - 1 <= mul_scaled(a, b) <= (aa * bb) / (SCALE as int),
{
    let p = a * b;
    let cap = aa * bb;
    assert(-cap <= p <= cap) by (nonlinear_arith)
        requires
            -aa <= a <= aa,
            -bb <= b <= bb,
            0 <= aa,
            0 <= bb,
            p == a * b,
            cap == aa * bb;
    vstd::arithmetic::div_mod::lemma_div_is_ordered(p, cap, 65536);
    vstd::arithmetic::div_mod::lemma_div_is_ordered(-cap, p, 65536);
    lemma_neg_div(cap, 65536);
    vstd::arithmetic::div_mod::lemma_div_is_ordered(cap, 0x3fff_ffff_ffff_ffff_0000, 65536);
    assert(0x3fff_ffff_ffff_ffff_0000 == 65536 * 0x3fff_ffff_ffff_ffff);
    vstd::arithmetic::div_mod::lemma_div_multiples_vanish(0x3fff_ffff_ffff_ffff, 65536);
}

/// Bound on a fixed-point quotient from a bound on the dividend and a lower
/// bound on the (positive) divisor, and when it is small enough for `fdiv`.
pub proof fn lemma_ds_fit(a: int, b: int, m: int, bmin: int)
    requires
        -m <= a <= m,
        0 <= m,
        1 <= bmin <= b,
        (m * (SCALE as int)) / bmin < FIT_LIMIT as int,
    ensures
        ds_fits(a, b),
        -((m * (SCALE as int)) / bmin) - 1 <= div_scaled(a, b) <= (m * (SCALE as int)) / bmin,
{
    let s = SCALE as int;
    let num = a * s;
    let cap = m * s;
    assert(-cap <= num <= cap && 0 <= cap) by (nonlinear_arith)
        requires
            -m <= a <= m,
            0 <= m,
            num == a * 65536,
            cap == m * 65536,
            s == 65536;
    if a >= 0 {
        vstd::arithmetic::div_mod::lemma_div_is_ordered_by_denominator(num, bmin, b);
        vstd::arithmetic::div_mod::lemma_div_is_ordered(num, cap, bmin);
        vstd::arithmetic::div_mod::lemma_div_pos_is_pos(num, b);
    } else {
        let u = -num;
        vstd::arithmetic::div_mod::lemma_div_is_ordered_by_denominator(u, bmin, b);
        vstd::arithmetic::div_mod::lemma_div_is_ordered(u, cap, bmin);
        lemma_neg_div(u, b);
        vstd::arithmetic::div_mod::lemma_div_pos_is_pos(u, b);
    }
}

/// If the dividend is at most `q` times the divisor, the quotient is at
/// most `q`.
pub proof fn lemma_bounded_div(p: int, d: int, q: int)
    requires
        0 <= p,
        1 <= d,
        0 <= q,
        p <= q * d,
    ensures
        0 <= p / d <= q,
{
    vstd::arithmetic::div_mod::lemma_div_pos_is_pos(p, d);
    vstd::arithmetic::div_mod::lemma_div_is_ordered(p, q * d, d);
    vstd::arithmetic::mul::lemma_mul_is_commutative(q, d);
    vstd::arithmetic::div_mod::lemma_div_multiples_vanish(q, d);
}

/// Weighting by a factor of at most one can only shrink a nonnegative
/// scalar.
pub proof fn lemma_ms_scale_le(a: int, b: int)
    requires
        0 <= a <= SCALE as int,
        0 <= b,
    ensures
        0 <= mul_scaled(a, b) <= b,
{
    assert(0 <= a * b <= 65536 * b) by (nonlinear_arith)
        requires
            0 <= a <= 65536,
            0 <= b;
    vstd::arithmetic::div_mod::lemma_div_pos_is_pos(a * b, 65536);
    vstd::arithmetic::div_mod::lemma_div_is_ordered(a * b, 65536 * b, 65536);
    vstd::arithmetic::div_mod::lemma_div_multiples_vanish(b, 65536);
}

/// A scaled square is never negative.
pub proof fn lemma_ms_sq_nonneg(a: int)
    ensures
        mul_scaled(a, a) >= 0,
{
    assert(a * a >= 0) by (nonlinear_arith);
    vstd::arithmetic::div_mod::lemma_div_pos_is_pos(a * a, 65536);
}

/// A scaled quotient whose dividend is within the divisor stays within one
/// unit.
pub proof fn lemma_ds_unit(a: int, b: int)
    requires
        0 < b,
        -b <= a <= b,
    ensures
        -(SCALE as int) - 1 <= div_scaled(a, b) <= SCALE as int,
{
    let s = SCALE as int;
    assert(b * s == s * b) by (nonlinear_arith);
    vstd::arithmetic::div_mod::lemma_div_multiples_vanish(s, b);
    if a >= 0 {
        assert(a * s <= b * s) by (nonlinear_arith)
            requires
                a <= b,
                s > 0;
        vstd::arithmetic::div_mod::lemma_div_is_ordered(a * s, b * s, b);
        vstd::arithmetic::div_mod::lemma_div_pos_is_pos(a * s, b);
    } else {
        let u = -(a * s);
        assert(0 <= u <= b * s) by (nonlinear_arith)
            requires
                -b <= a < 0,
                s > 0,
                u == -(a * s);
        vstd::arithmetic::div_mod::lemma_div_is_ordered(u, b * s, b);
        lemma_neg_div(u, b);
        vstd::arithmetic::div_mod::lemma_div_pos_is_pos(u, b);
    }
}

/// A fixed-point product of factors within `0x8000_0000` always fits,
/// and stays within `0x4000_0000_0000` plus one step.
pub proof fn lemma_ms31(a: int, b: int)
    requires
        -0x8000_0000 <= a <= 0x8000_0000,
        -0x8000_0000 <= b <= 0x8000_0000,
    ensures
        ms_fits(a, b),
        -0x4000_0000_0001 <= mul_scaled(a, b) <= 0x4000_0000_0000,
{
    lemma_ms_fit(a, b, 0x8000_0000, 0x8000_0000);
    assert(0x8000_0000 * 0x8000_0000 == 0x4000_0000_0000_0000int) by (nonlinear_arith);
    assert(0x4000_0000_0000_0000 == 65536 * 0x4000_0000_0000);
    vstd::arithmetic::div_mod::lemma_div_multiples_vanish(0x4000_0000_0000, 65536);
}

/// Floor of the square root of a wide unsigned integer, by bisection.
pub fn isqrt(n: u128) -> (r: u64)
    ensures
        r as nat == sqrt_floor(n as nat),
        (r as int) * (r as int) <= n as int,
        n < (r as int + 1) * (r as int + 1),
{
    let mut lo: u128 = 0;
    let mut hi: u128 = 0x1_0000_0000_0000_0000;
    proof {
        assert((n as int) < 0x1_0000_0000_0000_0000 * 0x1_0000_0000_0000_0000);
    }
    while hi - lo > 1
        invariant
            0 <= lo < hi <= 0x1_0000_0000_0000_0000,
            (lo as int) * (lo as int) <= n as int,
            (n as int) < (hi as int) * (hi as int),
        decreases hi - lo,
    {
        let mid = lo + (hi - lo) / 2;
        proof {
            assert(lo < mid < hi);
            assert(mid * mid < 0x1_0000_0000_0000_0000_0000_0000_0000_0000) by (nonlinear_arith)
                requires
                    0 <= mid < 0x1_0000_0000_0000_0000;
        }
        if mid * mid <= n {
            lo = mid;
        } else {
            hi = mid;
        }
    }
    proof {
        assert(hi == lo + 1);
        lemma_sqrt_floor_unique(n as nat, lo as nat);
    }
    lo as u64
}

/// Quotient of a wide signed integer by a positive divisor, rounded toward
/// negative infinity.
pub fn div_floor_wide(a: i128, d: i128) -> (q: i128)
    requires
        0 < d <= 0x1_0000_0000_0000_0000,
        -0x4000_0000_0000_0000_0000_0000_0000_0000 <= a
            <= 0x4000_0000_0000_0000_0000_0000_0000_0000,
    ensures
        q == (a as int) / (d as int),
{
    if a >= 0 {
        let q = (a as u128) / (d as u128);
        proof {
            assert(q == (a as int) / (d as int));
        }
        q as i128
    } else {
        let m = (-a) as u128;
        let du = d as u128;
        let q0 = m / du;
        let r0 = m % du;
        proof {
            vstd::arithmetic::div_mod::lemma_fundamental_div_mod(m as int, du as int);
        }
        proof {
            assert(m == (du as int) * (q0 as int) + r0 as int);
            assert((-(q0 as int)) * (d as int) == -((q0 as int) * (d as int))
                && (-(q0 as int) - 1) * (d as int) == -((q0 as int) * (d as int)) - (d as int)
                && (q0 as int) * (d as int) == (d as int) * (q0 as int)) by (nonlinear_arith);
        }
        if r0 == 0 {
            proof {
                assert(a as int == (-(q0 as int)) * (d as int) + 0);
                vstd::arithmetic::div_mod::lemma_fundamental_div_mod_converse(
                    a as int,
                    d as int,
                    -(q0 as int),
                    0,
                );
            }
            -(q0 as i128)
        } else {
            proof {
                assert(a as int == (-(q0 as int) - 1) * (d as int) + (du - r0));
                vstd::arithmetic::div_mod::lemma_fundamental_div_mod_converse(
                    a as int,
                    d as int,
                    -(q0 as int) - 1,
                    (du - r0) as int,
                );
            }
            -(q0 as i128) - 1
        }
    }
}

/// Fixed-point product: `fmul(a, b)` represents the product of the numbers
/// `a` and `b` stand for, rounded toward negative infinity.
pub fn fmul(a: i64, b: i64) -> (r: i64)
    requires
        ms_fits(a as int, b as int),
    ensures
        r == mul_scaled(a as int, b as int),
{
    let p = (a as i128) * (b as i128);
    proof {
        assert(-0x4000_0000_0000_0000_0000_0000_0000_0000 <= (a as int) * (b as int)
            <= 0x4000_0000_0000_0000_0000_0000_0000_0000) by (nonlinear_arith)
            requires
                -0x8000_0000_0000_0000 <= a as int <= 0x7fff_ffff_ffff_ffff,
                -0x8000_0000_0000_0000 <= b as int <= 0x7fff_ffff_ffff_ffff;
    }
    let q = div_floor_wide(p, 65536);
    q as i64
}

/// Fixed-point quotient: `fdiv(a, b)` represents the quotient of the numbers
/// `a` and `b` stand for, rounded toward negative infinity.
pub fn fdiv(a: i64, b: i64) -> (r: i64)
    requires
        ds_fits(a as int, b as int),
    ensures
        r == div_scaled(a as int, b as int),
{
    let p = (a as i128) * 65536;
    let q = div_floor_wide(p, b as i128);
    q as i64
}

/// Fixed-point square root of a nonnegative scalar.
pub fn fsqrt(x: i64) -> (r: i64)
    requires
        x >= 0,
    ensures
        r == sqrt_scaled(x as int),
        0 <= r < 0x100_0000_0000,
        r * r <= (x as int) * (SCALE as int),
        (x as int) * (SCALE as int) < (r + 1) * (r + 1),
{
    let m = (x as u128) * 65536;
    let r = isqrt(m);
    proof {
        assert((r as int) * (r as int) <= m as int);
        assert(m as int <= 0x7fff_ffff_ffff_ffff * 65536);
        assert(r < 0x100_0000_0000) by (nonlinear_arith)
            requires
                (r as int) * (r as int) <= 0x7fff_ffff_ffff_ffff * 65536,
                r >= 0;
    }
    r as i64
}

} // verus!
