//! Fixed-point arithmetic helpers: rounding to exchange step sizes and
//! overflow-safe multiply-divide, the primitives every order computation
//! rests on.

use vstd::prelude::*;

verus! {

/// Denominator of all fixed-point fractions (percentages, ratios, fees,
/// contract multipliers): a stored value `v` stands for the fraction
/// `v / FRAC_DENOM`.
pub const FRAC_DENOM: u64 = 1_000_000;

/// Largest supported price, quantity or step value, in base units.
pub const UNIT_CAP: u64 = 1_000_000_000_000;

/// Largest supported account balance, in cost units.
pub const BALANCE_CAP: u64 = 1_000_000_000_000_000;

/// Largest supported contract multiplier (a fraction scaled by `FRAC_DENOM`).
pub const CMULT_CAP: u64 = 100_000_000;

/// Largest supported exposure limit (a fraction scaled by `FRAC_DENOM`).
pub const WEL_CAP: u64 = 100_000_000;

/// `x` rounded down to a multiple of `step`.
pub open spec fn spec_round_dn(x: int, step: int) -> int {
    (x / step) * step
}

/// `x` rounded up to a multiple of `step`.
pub open spec fn spec_round_up(x: int, step: int) -> int {
    ((x + step - 1) / step) * step
}

/// Rounds `x` down to the nearest multiple of `step`.
pub fn round_dn(x: u64, step: u64) -> (r: u64)
    requires
        1 <= step,
    ensures
        r == spec_round_dn(x as int, step as int),
        r % step == 0,
        r <= x,
        x - r < step,
{
    let m = x % step;
    assert((x - m) == (x as int / step as int) * step as int) by (nonlinear_arith)
        requires m == x as int % step as int, step >= 1;
    assert((x as int - m) % step as int == 0) by (nonlinear_arith)
        requires m == x as int % step as int, step >= 1;
    x - m
}

/// Rounds `x` up to the nearest multiple of `step`.
pub fn round_up(x: u64, step: u64) -> (r: u64)
    requires
        1 <= step,
        x + step <= u64::MAX,
    ensures
        r == spec_round_up(x as int, step as int),
        r % step == 0,
        x <= r,
        r - x < step,
{
    let m = x % step;
    if m == 0 {
        assert(x == ((x + step - 1) / step as int) * step as int) by (nonlinear_arith)
            requires x as int % step as int == 0, step >= 1;
        x
    } else {
        assert(m <= x) by (nonlinear_arith)
            requires m == x as int % step as int, step >= 1;
        let r = x - m + step;
        assert(x - m + step == ((x + step - 1) / step as int) * step as int) by (nonlinear_arith)
            requires m == x as int % step as int, m != 0, step >= 1;
        assert((x as int - m + step) % step as int == 0) by (nonlinear_arith)
            requires m == x as int % step as int, step >= 1;
        r
    }
}

/// The smaller of two values.
pub fn min_u64(a: u64, b: u64) -> (r: u64)
    ensures
        r == if a <= b { a as int } else { b as int },
{
    if a <= b { a } else { b }
}

/// The larger of two values.
pub fn max_u64(a: u64, b: u64) -> (r: u64)
    ensures
        r == if a >= b { a as int } else { b as int },
{
    if a >= b { a } else { b }
}

/// A quantity bounded by a budget-derived quotient costs no more than the
/// budget: from `qty <= (rem * d) / (p * c)` follows `(qty * p * c) / d <=
/// rem`.
pub proof fn lemma_cropped_qty_cost_bound(qty: int, p: int, c: int, rem: int, d: int)
    requires
        0 <= qty,
        1 <= p,
        1 <= c,
        0 <= rem,
        1 <= d,
        qty <= (rem * d) / (p * c),
    ensures
        (qty * p * c) / d <= rem,
{
    let pc = p * c;
    assert(1 <= pc) by (nonlinear_arith)
        requires 1 <= p, 1 <= c, pc == p * c;
    assert(qty * pc <= ((rem * d) / pc) * pc) by (nonlinear_arith)
        requires 0 <= qty, 1 <= pc, qty <= (rem * d) / pc;
    assert(((rem * d) / pc) * pc <= rem * d) by (nonlinear_arith)
        requires 1 <= pc, 0 <= rem * d;
    assert(0 <= rem * d) by (nonlinear_arith)
        requires 0 <= rem, 1 <= d;
    assert((qty * pc) / d <= (rem * d) / d) by (nonlinear_arith)
        requires 1 <= d, qty * pc <= rem * d;
    assert((rem * d) / d == rem) by (nonlinear_arith)
        requires 1 <= d;
    assert(qty * p * c == qty * pc) by (nonlinear_arith)
        requires pc == p * c;
}

} // verus!
