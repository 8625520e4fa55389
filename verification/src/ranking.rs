//! Coin-ranking statistics: rolling-window traded volume and a
//! range-to-close noisiness proxy, per symbol per step.
//!
//! Warm-up policy: for step indices below `window`, the statistic is
//! computed over the partial window that is available (steps `0..=t`),
//! never zero-padded or undefined.

use vstd::prelude::*;

use crate::maths::{FRAC_DENOM, UNIT_CAP};
use crate::types::Candle;

verus! {

/// Largest supported rolling-window length.
pub const WINDOW_CAP: usize = 1_000_000;

/// Sum of traded volume over candle indices `[a, b)`.
pub open spec fn spec_vol_sum(cs: Seq<Candle>, a: int, b: int) -> int
    decreases b - a,
{
    if a >= b {
        0
    } else {
        spec_vol_sum(cs, a, b - 1) + cs[b - 1].volume
    }
}

/// The noisiness of one candle: its range relative to its close, in
/// `FRAC_DENOM` fixed point, floored.
pub open spec fn spec_noise(c: Candle) -> int {
    ((c.high - c.low) * FRAC_DENOM) / (c.close as int)
}

/// Sum of per-candle noisiness over candle indices `[a, b)`.
pub open spec fn spec_noise_sum(cs: Seq<Candle>, a: int, b: int) -> int
    decreases b - a,
{
    if a >= b {
        0
    } else {
        spec_noise_sum(cs, a, b - 1) + spec_noise(cs[b - 1])
    }
}

/// First index of the window ending at step `t`: `t + 1 - window`, floored
/// at zero during warm-up.
pub open spec fn spec_window_start(t: int, window: int) -> int {
    if t + 1 >= window {
        t + 1 - window
    } else {
        0
    }
}

/// A volume sum can also be peeled at the front.
proof fn lemma_vol_sum_peel_front(cs: Seq<Candle>, a: int, b: int)
    requires
        a < b,
    ensures
        spec_vol_sum(cs, a, b) == cs[a].volume + spec_vol_sum(cs, a + 1, b),
    decreases b - a,
{
    if a + 1 < b {
        lemma_vol_sum_peel_front(cs, a, b - 1);
    } else {
        assert(b == a + 1);
        assert(spec_vol_sum(cs, a + 1, b) == 0);
        assert(spec_vol_sum(cs, a, a) == 0);
    }
}

/// A noisiness sum can also be peeled at the front.
proof fn lemma_noise_sum_peel_front(cs: Seq<Candle>, a: int, b: int)
    requires
        a < b,
    ensures
        spec_noise_sum(cs, a, b) == spec_noise(cs[a]) + spec_noise_sum(cs, a + 1, b),
    decreases b - a,
{
    if a + 1 < b {
        lemma_noise_sum_peel_front(cs, a, b - 1);
    } else {
        assert(b == a + 1);
        assert(spec_noise_sum(cs, a + 1, b) == 0);
        assert(spec_noise_sum(cs, a, a) == 0);
    }
}

/// A volume sum over well-formed candles is bounded by its width times the
/// largest volume.
proof fn lemma_vol_sum_bound(cs: Seq<Candle>, a: int, b: int)
    requires
        0 <= a <= b <= cs.len(),
        forall|i: int| 0 <= i < cs.len() ==> (#[trigger] cs[i]).wf(),
    ensures
        0 <= spec_vol_sum(cs, a, b) <= (b - a) * UNIT_CAP,
    decreases b - a,
{
    if a < b {
        lemma_vol_sum_bound(cs, a, b - 1);
        assert((b - 1 - a) * UNIT_CAP + UNIT_CAP == (b - a) * UNIT_CAP) by (nonlinear_arith);
    } else {
        assert((b - a) * UNIT_CAP == 0) by (nonlinear_arith)
            requires a == b;
    }
}

/// Per-candle noisiness is non-negative and at most `UNIT_CAP * FRAC_DENOM`.
proof fn lemma_noise_elem_bound(c: Candle)
    requires
        c.wf(),
    ensures
        0 <= spec_noise(c) <= UNIT_CAP as int * FRAC_DENOM as int,
{
    assert(0 <= ((c.high - c.low) * FRAC_DENOM as int) / (c.close as int)
        <= UNIT_CAP as int * FRAC_DENOM as int) by (nonlinear_arith)
        requires
            0 <= c.high - c.low <= UNIT_CAP,
            1 <= c.close,
            FRAC_DENOM == 1_000_000u64,
            UNIT_CAP == 1_000_000_000_000u64;
}

/// A noisiness sum over well-formed candles is bounded by its width times
/// the largest per-candle value.
proof fn lemma_noise_sum_bound(cs: Seq<Candle>, a: int, b: int)
    requires
        0 <= a <= b <= cs.len(),
        forall|i: int| 0 <= i < cs.len() ==> (#[trigger] cs[i]).wf(),
    ensures
        0 <= spec_noise_sum(cs, a, b) <= (b - a) * (UNIT_CAP as int * FRAC_DENOM as int),
    decreases b - a,
{
    if a < b {
        lemma_noise_sum_bound(cs, a, b - 1);
        lemma_noise_elem_bound(cs[b - 1]);
        assert((b - 1 - a) * (UNIT_CAP as int * FRAC_DENOM as int)
            + UNIT_CAP as int * FRAC_DENOM as int
            == (b - a) * (UNIT_CAP as int * FRAC_DENOM as int)) by (nonlinear_arith);
    } else {
        assert((b - a) * (UNIT_CAP as int * FRAC_DENOM as int) == 0) by (nonlinear_arith)
            requires a == b;
    }
}

/// Trailing-window volume sums: one row per symbol, one value per step,
/// each the sum of traded volume over the window ending at that step
/// (partial during warm-up).
pub fn calc_volumes(hlcvs: &Vec<Vec<Candle>>, window: usize) -> (r: Vec<Vec<u64>>)
    requires
        1 <= window <= WINDOW_CAP,
        forall|s: int| 0 <= s < hlcvs@.len()
            ==> (#[trigger] hlcvs@[s])@.len() == hlcvs@[0]@.len(),
        forall|s: int, t: int| 0 <= s < hlcvs@.len() && 0 <= t < hlcvs@[0]@.len()
            ==> (#[trigger] hlcvs@[s]@[t]).wf(),
    ensures
        r@.len() == hlcvs@.len(),
        forall|s: int| 0 <= s < r@.len() ==> (#[trigger] r@[s])@.len() == hlcvs@[0]@.len(),
        forall|s: int, t: int| 0 <= s < r@.len() && 0 <= t < hlcvs@[0]@.len()
            ==> (#[trigger] r@[s]@[t]) == spec_vol_sum(
                hlcvs@[s]@, spec_window_start(t, window as int), t + 1,
            ),
{
    let n = hlcvs.len();
    let n_steps = if n > 0 { hlcvs[0].len() } else { 0 };
    let mut r: Vec<Vec<u64>> = Vec::new();
    let mut s: usize = 0;
    while s < n
        invariant
            n == hlcvs@.len(),
            n > 0 ==> n_steps == hlcvs@[0]@.len(),
            1 <= window <= WINDOW_CAP,
            forall|i: int| 0 <= i < n ==> (#[trigger] hlcvs@[i])@.len() == hlcvs@[0]@.len(),
            forall|i: int, t: int| 0 <= i < n && 0 <= t < hlcvs@[0]@.len()
                ==> (#[trigger] hlcvs@[i]@[t]).wf(),
            r@.len() == s,
            forall|i: int| 0 <= i < s ==> (#[trigger] r@[i])@.len() == hlcvs@[0]@.len(),
            forall|i: int, t: int| 0 <= i < s && 0 <= t < hlcvs@[0]@.len()
                ==> (#[trigger] r@[i]@[t]) == spec_vol_sum(
                    hlcvs@[i]@, spec_window_start(t, window as int), t + 1,
                ),
            s <= n,
        decreases n - s,
    {
        let mut row: Vec<u64> = Vec::new();
        let mut acc: u64 = 0;
        let mut t: usize = 0;
        while t < n_steps
            invariant
                n == hlcvs@.len(),
                s < n,
                n_steps == hlcvs@[0]@.len(),
                n_steps == hlcvs@[s as int]@.len(),
                1 <= window <= WINDOW_CAP,
                forall|u: int| 0 <= u < hlcvs@[0]@.len() ==> (#[trigger] hlcvs@[s as int]@[u]).wf(),
                row@.len() == t,
                forall|u: int| 0 <= u < t ==> (#[trigger] row@[u]) == spec_vol_sum(
                    hlcvs@[s as int]@, spec_window_start(u, window as int), u + 1,
                ),
                acc == spec_vol_sum(
                    hlcvs@[s as int]@, spec_window_start(t - 1, window as int), t as int,
                ),
                acc <= (window as int) * UNIT_CAP,
                t <= n_steps,
            decreases n_steps - t,
        {
            let cs = &hlcvs[s];
            proof {
                lemma_vol_sum_bound(
                    cs@, spec_window_start(t as int, window as int), t + 1,
                );
                assert((window as int) * UNIT_CAP <= 1_000_000_000_000_000_000int)
                    by (nonlinear_arith)
                    requires
                        window <= WINDOW_CAP,
                        WINDOW_CAP == 1_000_000usize,
                        UNIT_CAP == 1_000_000_000_000u64;
            }
            acc = acc + cs[t].volume;
            if t >= window {
                proof {
                    lemma_vol_sum_peel_front(cs@, t as int - window as int, t + 1);
                }
                acc = acc - cs[t - window].volume;
            }
            row.push(acc);
            t += 1;
        }
        r.push(row);
        s += 1;
    }
    r
}

/// Trailing-window noisiness: one row per symbol, one value per step, each
/// the floored mean of `(high - low) / close` (in `FRAC_DENOM` fixed
/// point) over the window ending at that step (partial during warm-up).
pub fn calc_noisiness(hlcvs: &Vec<Vec<Candle>>, window: usize) -> (r: Vec<Vec<u64>>)
    requires
        1 <= window <= WINDOW_CAP,
        forall|s: int| 0 <= s < hlcvs@.len()
            ==> (#[trigger] hlcvs@[s])@.len() == hlcvs@[0]@.len(),
        forall|s: int, t: int| 0 <= s < hlcvs@.len() && 0 <= t < hlcvs@[0]@.len()
            ==> (#[trigger] hlcvs@[s]@[t]).wf(),
    ensures
        r@.len() == hlcvs@.len(),
        forall|s: int| 0 <= s < r@.len() ==> (#[trigger] r@[s])@.len() == hlcvs@[0]@.len(),
        forall|s: int, t: int| 0 <= s < r@.len() && 0 <= t < hlcvs@[0]@.len()
            ==> (#[trigger] r@[s]@[t]) == spec_noise_sum(
                hlcvs@[s]@, spec_window_start(t, window as int), t + 1,
            ) / (t + 1 - spec_window_start(t, window as int)),
{
    let n = hlcvs.len();
    let n_steps = if n > 0 { hlcvs[0].len() } else { 0 };
    let mut r: Vec<Vec<u64>> = Vec::new();
    let mut s: usize = 0;
    while s < n
        invariant
            n == hlcvs@.len(),
            n > 0 ==> n_steps == hlcvs@[0]@.len(),
            1 <= window <= WINDOW_CAP,
            forall|i: int| 0 <= i < n ==> (#[trigger] hlcvs@[i])@.len() == hlcvs@[0]@.len(),
            forall|i: int, t: int| 0 <= i < n && 0 <= t < hlcvs@[0]@.len()
                ==> (#[trigger] hlcvs@[i]@[t]).wf(),
            r@.len() == s,
            forall|i: int| 0 <= i < s ==> (#[trigger] r@[i])@.len() == hlcvs@[0]@.len(),
            forall|i: int, t: int| 0 <= i < s && 0 <= t < hlcvs@[0]@.len()
                ==> (#[trigger] r@[i]@[t]) == spec_noise_sum(
                    hlcvs@[i]@, spec_window_start(t, window as int), t + 1,
                ) / (t + 1 - spec_window_start(t, window as int)),
            s <= n,
        decreases n - s,
    {
        let mut row: Vec<u64> = Vec::new();
        let mut acc: u128 = 0;
        let mut t: usize = 0;
        while t < n_steps
            invariant
                n == hlcvs@.len(),
                s < n,
                n_steps == hlcvs@[0]@.len(),
                n_steps == hlcvs@[s as int]@.len(),
                1 <= window <= WINDOW_CAP,
                forall|u: int| 0 <= u < hlcvs@[0]@.len() ==> (#[trigger] hlcvs@[s as int]@[u]).wf(),
                row@.len() == t,
                forall|u: int| 0 <= u < t ==> (#[trigger] row@[u]) == spec_noise_sum(
                    hlcvs@[s as int]@, spec_window_start(u, window as int), u + 1,
                ) / (u + 1 - spec_window_start(u, window as int)),
                acc == spec_noise_sum(
                    hlcvs@[s as int]@, spec_window_start(t - 1, window as int), t as int,
                ),
                acc <= (window as int) * (UNIT_CAP as int * FRAC_DENOM as int),
                t <= n_steps,
            decreases n_steps - t,
        {
            let cs = &hlcvs[s];
            let c = cs[t];
            assert((c.high - c.low) as int * FRAC_DENOM as int <= u128::MAX) by (nonlinear_arith)
                requires c.low <= c.high, c.high <= UNIT_CAP, FRAC_DENOM == 1_000_000u64;
            let e128: u128 = ((c.high - c.low) as u128) * (FRAC_DENOM as u128) / (c.close as u128);
            proof {
                lemma_noise_elem_bound(c);
                lemma_noise_sum_bound(
                    cs@, spec_window_start(t as int, window as int), t + 1,
                );
                assert((window as int) * (UNIT_CAP as int * FRAC_DENOM as int)
                    <= 1_000_000_000_000_000_000_000_000int) by (nonlinear_arith)
                    requires
                        window <= WINDOW_CAP,
                        WINDOW_CAP == 1_000_000usize,
                        UNIT_CAP == 1_000_000_000_000u64,
                        FRAC_DENOM == 1_000_000u64;
            }
            acc = acc + e128;
            if t >= window {
                let cold = cs[t - window];
                assert((cold.high - cold.low) as int * FRAC_DENOM as int <= u128::MAX)
                    by (nonlinear_arith)
                    requires cold.low <= cold.high, cold.high <= UNIT_CAP, FRAC_DENOM == 1_000_000u64;
                let eold: u128 = ((cold.high - cold.low) as u128) * (FRAC_DENOM as u128)
                    / (cold.close as u128);
                proof {
                    lemma_noise_sum_peel_front(cs@, t as int - window as int, t + 1);
                    lemma_noise_sum_bound(cs@, t as int - window as int + 1, t + 1);
                }
                acc = acc - eold;
            }
            let len: u64 = if t + 1 >= window { window as u64 } else { (t + 1) as u64 };
            let avg128: u128 = acc / (len as u128);
            proof {
                let a = spec_window_start(t as int, window as int);
                lemma_noise_sum_bound(cs@, a, t + 1);
                assert(spec_noise_sum(cs@, a, t + 1) / (t + 1 - a)
                    <= UNIT_CAP as int * FRAC_DENOM as int) by (nonlinear_arith)
                    requires
                        0 <= spec_noise_sum(cs@, a, t + 1)
                            <= (t + 1 - a) * (UNIT_CAP as int * FRAC_DENOM as int),
                        1 <= t + 1 - a;
            }
            proof {
                let a2 = spec_window_start(t as int, window as int);
                lemma_noise_sum_bound(cs@, a2, t + 1);
                assert((t + 1 - a2) * (UNIT_CAP as int * FRAC_DENOM as int)
                    <= (window as int) * (UNIT_CAP as int * FRAC_DENOM as int))
                    by (nonlinear_arith)
                    requires
                        t + 1 - a2 <= window as int,
                        UNIT_CAP == 1_000_000_000_000u64,
                        FRAC_DENOM == 1_000_000u64;
            }
            row.push(avg128 as u64);
            t += 1;
        }
        r.push(row);
        s += 1;
    }
    r
}

} // verus!
