//! Fixed-point coordinate arithmetic.
//!
//! A coordinate unit (one world unit, or one pixel) is represented by
//! `SCALE` integer subunits.  All geometric computation happens on these
//! integers, so that the engine's behaviour is exactly the mathematical
//! functions stated in its contracts.

use vstd::arithmetic::div_mod::{
    lemma_div_nonincreasing, lemma_div_pos_is_pos, lemma_fundamental_div_mod, lemma_mod_bound,
};
use vstd::prelude::*;

verus! {

/// Number of fixed-point subunits per coordinate unit.
pub const SCALE: i64 = 1_000_000;

/// Magnitude bound that transformed coordinates are clamped to.  The clamp
/// keeps every later product inside `i128` range; it only moves vertices
/// that lie more than a million million pixels outside any representable
/// grid, far beyond the region where shapes can touch pixels.
pub const COORD_LIMIT: i64 = 0x1000_0000_0000_0000;

/// The clamp applied to a transformed coordinate value.
pub open spec fn clamp_fixed(v: int) -> int {
    if v < -(COORD_LIMIT as int) {
        -(COORD_LIMIT as int)
    } else if v > COORD_LIMIT as int {
        COORD_LIMIT as int
    } else {
        v
    }
}

proof fn lemma_euclid_div_in_range(a: int, b: int)
    requires
        1 <= b,
    ensures
        a >= 0 ==> 0 <= a / b <= a,
        a < 0 ==> a <= a / b <= 0,
{
    if a >= 0 {
        lemma_div_pos_is_pos(a, b);
        lemma_div_nonincreasing(a, b);
    } else {
        lemma_fundamental_div_mod(a, b);
        lemma_mod_bound(a, b);
        let q = a / b;
        let r = a % b;
        assert(a <= q <= 0) by (nonlinear_arith)
            requires
                a < 0,
                1 <= b,
                a == b * q + r,
                0 <= r < b,
        ;
    }
}

/// A dividend bounded by `m` multiples of the divisor has its Euclidean
/// quotient bounded by `m` (one more below, for negative dividends).
pub proof fn lemma_quotient_bounded(a: int, b: int, m: int)
    requires
        1 <= b,
        0 <= m,
        -(m * b) <= a <= m * b,
    ensures
        -(m + 1) <= a / b <= m,
{
    lemma_fundamental_div_mod(a, b);
    lemma_mod_bound(a, b);
    let q = a / b;
    let r = a % b;
    assert(-(m + 1) <= q <= m) by (nonlinear_arith)
        requires
            1 <= b,
            0 <= m,
            -(m * b) <= a <= m * b,
            a == b * q + r,
            0 <= r < b,
    ;
}

/// Euclidean quotient (floor division, since the divisor is positive).
pub fn floor_div(a: i128, b: i128) -> (r: i128)
    requires
        1 <= b,
    ensures
        r == a as int / b as int,
{
    proof {
        lemma_euclid_div_in_range(a as int, b as int);
    }
    match a.checked_div_euclid(b) {
        Some(v) => v,
        None => 0,
    }
}

/// Clamp a transformed coordinate into the working range.
pub fn clamp_coord(v: i128) -> (r: i64)
    ensures
        r == clamp_fixed(v as int),
{
    if v < -(COORD_LIMIT as i128) {
        -COORD_LIMIT
    } else if v > COORD_LIMIT as i128 {
        COORD_LIMIT
    } else {
        v as i64
    }
}

} // verus!
