//! Deterministic pseudo-random sampling.
//!
//! The renderer threads an explicit generator through every function that
//! draws, so a fixed seed reproduces a whole render exactly. The generator
//! is a plain linear congruential step on a 64-bit state; a draw takes the
//! top sixteen bits of the new state as a fixed-point fraction in `[0, 1)`.

use vstd::prelude::*;
use crate::fixed::{SCALE, mul_scaled, fmul, lemma_ms_fit};

verus! {

/// The multiplier of the congruential step.
pub const STEP_MUL: u64 = 6364136223846793005;

/// The increment of the congruential step.
pub const STEP_ADD: u64 = 1442695040888963407;

/// The state that follows `s`.
pub open spec fn next_state(s: u64) -> u64 {
    (((s as int) * (STEP_MUL as int) + (STEP_ADD as int)) % 0x1_0000_0000_0000_0000) as u64
}

/// The fixed-point fraction in `[0, SCALE)` that a state yields: its top
/// sixteen bits.
pub open spec fn frac_of(s: u64) -> int {
    (s >> 48) as int
}

/// A draw in `[min, max)` from the state `s`: `min` plus the drawn fraction
/// of the width.
pub open spec fn rand_spec(s: u64, min: int, max: int) -> int {
    min + mul_scaled(max - min, frac_of(next_state(s)))
}

/// A seedable pseudo-random generator with a 64-bit state.
pub struct Rng {
    state: u64,
}

impl View for Rng {
    type V = u64;

    closed spec fn view(&self) -> u64 {
        self.state
    }
}

impl Rng {
    /// A generator starting from the given seed.
    pub fn new(seed: u64) -> (r: Rng)
        ensures
            r@ == seed,
    {
        Rng { state: seed }
    }

    /// Advances the state by one congruential step and returns it.
    pub fn next_raw(&mut self) -> (r: u64)
        ensures
            final(self)@ == next_state(old(self)@),
            r == final(self)@,
    {
        proof {
            let st = self.state as int;
            assert(st * (STEP_MUL as int) + (STEP_ADD as int)
                < 0x1_0000_0000_0000_0000_0000_0000_0000_0000) by (nonlinear_arith)
                requires
                    0 <= st <= 0xffff_ffff_ffff_ffff,
                    STEP_MUL as int == 6364136223846793005,
                    STEP_ADD as int == 1442695040888963407;
        }
        let p: u128 = (self.state as u128) * (STEP_MUL as u128) + (STEP_ADD as u128);
        let s = (p % 0x1_0000_0000_0000_0000u128) as u64;
        self.state = s;
        s
    }

    /// Draws a fixed-point fraction in `[0, SCALE)`.
    pub fn next_frac(&mut self) -> (f: i64)
        ensures
            final(self)@ == next_state(old(self)@),
            f == frac_of(final(self)@),
            0 <= f < SCALE,
    {
        let s = self.next_raw();
        let h = s >> 48;
        proof {
            assert(h < 65536) by (bit_vector)
                requires
                    h == s >> 48;
        }
        h as i64
    }
}

/// Uniform fixed-point draw in `[min, max)` (or exactly `min` when the range
/// is empty).
pub fn rand(rng: &mut Rng, min: i64, max: i64) -> (r: i64)
    requires
        min <= max,
        -0x4000_0000 <= min,
        max <= 0x4000_0000,
    ensures
        final(rng)@ == next_state(old(rng)@),
        r == rand_spec(old(rng)@, min as int, max as int),
        min <= r,
        min < max ==> r < max,
        min == max ==> r == min,
{
    let f = rng.next_frac();
    let d = max - min;
    proof {
        lemma_ms_fit(d as int, f as int, 0x8000_0000, 65536);
        vstd::arithmetic::div_mod::lemma_div_pos_is_pos(d as int * f as int, 65536);
        vstd::arithmetic::mul::lemma_mul_nonnegative(d as int, f as int);
        if d > 0 {
            assert((d as int) * (f as int) < 65536 * (d as int)) by (nonlinear_arith)
                requires
                    0 <= f < 65536,
                    0 < d;
            vstd::arithmetic::div_mod::lemma_multiply_divide_lt(
                d as int * f as int,
                65536,
                d as int,
            );
        } else {
            assert((d as int) * (f as int) == 0) by (nonlinear_arith)
                requires
                    d == 0;
        }
    }
    let step = fmul(d, f);
    min + step
}

} // verus!
