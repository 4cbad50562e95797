//! Stochastic utilities: a Bernoulli trial and probabilistic (stochastic)
//! rounding. Probabilities and real-valued counts are exact rationals, so
//! the floor/ceiling behaviour of rounding is stated and proved exactly.

use vstd::prelude::*;
use crate::random::RandomSource;

verus! {

/// Holds when `r` is the probabilistic rounding of the rational `num / den`:
/// either its floor, or — only when the value is not an integer — its
/// ceiling.
pub open spec fn rounds_to(num: int, den: int, r: int) -> bool {
    r == num / den || (num % den != 0 && r == num / den + 1)
}

/// A Bernoulli trial: returns true with probability `num / den` (true always
/// when `num >= den`, never when `num == 0`).
pub fn is_probable(num: u32, den: u32, rng: &mut RandomSource) -> (r: bool)
    requires
        den > 0,
    ensures
        num >= den ==> r,
        num == 0 ==> !r,
{
    if num < den {
        let v: u32 = rng.below_u64(den as u64) as u32;
        v < num
    } else {
        true
    }
}

/// Rounds the non-negative rational `num / den` to its floor or its ceiling,
/// taking the fractional part as the probability of rounding up, so that the
/// expectation over independent draws equals the rational itself.
pub fn probabilistic_round(num: u64, den: u64, rng: &mut RandomSource) -> (r: u64)
    requires
        den > 0,
    ensures
        rounds_to(num as int, den as int, r as int),
{
    let q: u64 = num / den;
    let rem: u64 = num % den;
    let draw: u64 = rng.below_u64(den);
    if draw < rem {
        proof {
            assert(q < num) by (nonlinear_arith)
                requires
                    den > 0,
                    q == num as int / den as int,
                    rem == num as int % den as int,
                    rem > 0,
            ;
        }
        q + 1
    } else {
        q
    }
}

/// The wide variant of `probabilistic_round`, for rationals whose parts
/// arise as products of population targets, fitness means, and fractions.
pub fn probabilistic_round_wide(num: u128, den: u128, rng: &mut RandomSource) -> (r: u128)
    requires
        den > 0,
    ensures
        rounds_to(num as int, den as int, r as int),
{
    let q: u128 = num / den;
    let rem: u128 = num % den;
    let draw: u128 = rng.below_u128(den);
    if draw < rem {
        proof {
            assert(q < num) by (nonlinear_arith)
                requires
                    den > 0,
                    q == num as int / den as int,
                    rem == num as int % den as int,
                    rem > 0,
            ;
        }
        q + 1
    } else {
        q
    }
}

} // verus!
