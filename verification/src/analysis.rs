//! Aggregation of a completed backtest's fill and equity history into
//! scalar performance metrics.
//!
//! Steps are grouped into days of `STEPS_PER_DAY` steps. A day's return is
//! the relative change of equity from the day's first step to its last, in
//! `FRAC_DENOM` fixed point, truncated toward zero and clamped to
//! `±RET_CAP`; a day starting at non-positive equity contributes zero.
//! The Sharpe ratio divides the mean day return by the integer square root
//! of the population variance, and is zero when the variance is zero. The
//! loss/profit ratio divides total absolute losing pnl by total winning
//! pnl, with `u64::MAX` standing for losses against zero profit.

use vstd::prelude::*;

use crate::maths::FRAC_DENOM;
use crate::types::{Analysis, Fill};

verus! {

/// Steps per calendar day (minute candles).
pub const STEPS_PER_DAY: usize = 1440;

/// Largest day-return magnitude kept, on the `FRAC_DENOM` scale.
pub const RET_CAP: i64 = 1_000_000_000_000;

/// `v` clamped into `[-RET_CAP, RET_CAP]`.
pub open spec fn spec_clamp_ret(v: int) -> int {
    if v > RET_CAP {
        RET_CAP as int
    } else if v < -(RET_CAP as int) {
        -(RET_CAP as int)
    } else {
        v
    }
}

/// `num * FRAC_DENOM / den`, truncated toward zero and clamped.
pub open spec fn spec_ratio_trunc(num: int, den: int) -> int {
    if num >= 0 {
        spec_clamp_ret((num * FRAC_DENOM) / den)
    } else {
        spec_clamp_ret(-((-num * FRAC_DENOM) / den))
    }
}

/// Number of day buckets covering `len` steps.
pub open spec fn spec_n_days(len: int) -> int {
    (len + STEPS_PER_DAY - 1) / (STEPS_PER_DAY as int)
}

/// The return of day `i`: relative equity change from the day's first step
/// to its last.
pub open spec fn spec_day_return(eq: Seq<i64>, i: int) -> int {
    let start = i * STEPS_PER_DAY;
    let last = if start + (STEPS_PER_DAY - 1) < eq.len() - 1 {
        start + (STEPS_PER_DAY - 1)
    } else {
        eq.len() - 1
    };
    let s_val = eq[start] as int;
    let e_val = eq[last] as int;
    if s_val < 1 {
        0
    } else {
        spec_ratio_trunc(e_val - s_val, s_val)
    }
}

/// Sum of the first `n` day returns.
pub open spec fn spec_ret_sum(eq: Seq<i64>, n: int) -> int
    decreases n,
{
    if n <= 0 {
        0
    } else {
        spec_ret_sum(eq, n - 1) + spec_day_return(eq, n - 1)
    }
}

/// Signed division truncated toward zero.
pub open spec fn spec_div_trunc(num: int, den: int) -> int {
    if num >= 0 {
        num / den
    } else {
        -((-num) / den)
    }
}

/// Computes one day's return exactly.
fn day_return(eq: &Vec<i64>, i: usize) -> (r: i64)
    requires
        1 <= eq@.len() <= 100_000_000,
        (i as int) * STEPS_PER_DAY < eq@.len(),
    ensures
        r as int == spec_day_return(eq@, i as int),
        -RET_CAP <= r <= RET_CAP,
{
    let start: usize = i * STEPS_PER_DAY;
    let last: usize = if start + (STEPS_PER_DAY - 1) < eq.len() - 1 {
        start + (STEPS_PER_DAY - 1)
    } else {
        eq.len() - 1
    };
    let s_val = eq[start];
    let e_val = eq[last];
    if s_val < 1 {
        return 0;
    }
    let neg = e_val < s_val;
    let mag: u128 = if neg {
        (s_val as i128 - e_val as i128) as u128
    } else {
        (e_val as i128 - s_val as i128) as u128
    };
    assert(mag as int <= 2 * (i64::MAX as int) + 2);
    assert(mag as int * (FRAC_DENOM as int) <= u128::MAX) by (nonlinear_arith)
        requires mag as int <= 2 * (i64::MAX as int) + 2, FRAC_DENOM == 1_000_000u64;
    let scaled: u128 = mag * (FRAC_DENOM as u128) / (s_val as u128);
    let clamped: i64 = if scaled > RET_CAP as u128 {
        RET_CAP
    } else {
        scaled as i64
    };
    if neg { -clamped } else { clamped }
}

/// The day-return sequence of an equity series.
pub fn calc_day_returns(eq: &Vec<i64>) -> (r: Vec<i64>)
    requires
        1 <= eq@.len(),
        eq@.len() <= 100_000_000,
    ensures
        r@.len() == spec_n_days(eq@.len() as int),
        forall|i: int| 0 <= i < r@.len() ==> (#[trigger] r@[i]) as int == spec_day_return(eq@, i)
            && -RET_CAP <= r@[i] <= RET_CAP,
{
    let len = eq.len();
    let nd: usize = (len + (STEPS_PER_DAY - 1)) / STEPS_PER_DAY;
    let mut r: Vec<i64> = Vec::new();
    let mut i: usize = 0;
    while i < nd
        invariant
            1 <= len <= 100_000_000,
            len == eq@.len(),
            nd == spec_n_days(len as int),
            (nd as int) * STEPS_PER_DAY < len + STEPS_PER_DAY,
            r@.len() == i,
            forall|j: int| 0 <= j < i ==> (#[trigger] r@[j]) as int == spec_day_return(eq@, j)
                && -RET_CAP <= r@[j] <= RET_CAP,
            i <= nd,
        decreases nd - i,
    {
        proof {
            assert((i as int) * STEPS_PER_DAY < len) by (nonlinear_arith)
                requires
                    i < nd,
                    nd == (len + STEPS_PER_DAY as int - 1) / (STEPS_PER_DAY as int),
                    1 <= len,
                    STEPS_PER_DAY == 1440usize;
        }
        let v = day_return(eq, i);
        r.push(v);
        i += 1;
    }
    proof {
        assert((nd as int) * STEPS_PER_DAY < len + STEPS_PER_DAY) by (nonlinear_arith)
            requires
                nd == (len + STEPS_PER_DAY as int - 1) / (STEPS_PER_DAY as int),
                1 <= len,
                STEPS_PER_DAY == 1440usize;
    }
    r
}

/// Mean of the day returns, truncated toward zero; zero for an empty
/// sequence.
pub fn calc_mean_return(rets: &Vec<i64>) -> (r: i64)
    requires
        rets@.len() <= 100_000_000,
        forall|i: int| 0 <= i < rets@.len() ==> -RET_CAP <= #[trigger] rets@[i] <= RET_CAP,
    ensures
        rets@.len() == 0 ==> r == 0,
        rets@.len() > 0 ==> r as int == spec_div_trunc(
            spec_ret_sum_v(rets@, rets@.len() as int), rets@.len() as int,
        ),
        -RET_CAP <= r <= RET_CAP,
{
    let n = rets.len();
    if n == 0 {
        return 0;
    }
    let mut acc: i128 = 0;
    let mut i: usize = 0;
    while i < n
        invariant
            n == rets@.len(),
            n <= 100_000_000,
            forall|j: int| 0 <= j < n ==> -RET_CAP <= #[trigger] rets@[j] <= RET_CAP,
            acc == spec_ret_sum_v(rets@, i as int),
            -((i as int) * RET_CAP) <= acc <= (i as int) * RET_CAP,
            i <= n,
        decreases n - i,
    {
        proof {
            assert((i as int) * RET_CAP + RET_CAP == (i as int + 1) * RET_CAP)
                by (nonlinear_arith);
            assert((i as int + 1) * RET_CAP <= 100_000_000 * RET_CAP) by (nonlinear_arith)
                requires i as int + 1 <= 100_000_000;
        }
        acc = acc + rets[i] as i128;
        i += 1;
    }
    let neg = acc < 0;
    let mag: u128 = if neg { (-acc) as u128 } else { acc as u128 };
    let q: u128 = mag / (n as u128);
    proof {
        assert(mag as int / (n as int) <= RET_CAP) by (nonlinear_arith)
            requires
                mag as int <= (n as int) * RET_CAP,
                1 <= n as int;
    }
    if neg { -(q as i64) } else { q as i64 }
}

/// Sum of the first `n` values of a sequence.
pub open spec fn spec_ret_sum_v(s: Seq<i64>, n: int) -> int
    decreases n,
{
    if n <= 0 {
        0
    } else {
        spec_ret_sum_v(s, n - 1) + s[n - 1]
    }
}

/// Sorts a sequence of day returns ascending; the result is a permutation
/// of the input.
pub fn sort_returns(rets: &Vec<i64>) -> (r: Vec<i64>)
    requires
        forall|i: int| 0 <= i < rets@.len() ==> -RET_CAP <= #[trigger] rets@[i] <= RET_CAP,
    ensures
        r@.len() == rets@.len(),
        r@.to_multiset() == rets@.to_multiset(),
        forall|i: int, j: int| 0 <= i <= j < r@.len() ==> (#[trigger] r@[i]) <= (#[trigger] r@[j]),
        forall|i: int| 0 <= i < r@.len() ==> -RET_CAP <= #[trigger] r@[i] <= RET_CAP,
{
    let mut r: Vec<i64> = Vec::new();
    let mut i: usize = 0;
    proof {
        assert(rets@.subrange(0, 0) =~= Seq::<i64>::empty());
        assert(r@.to_multiset() =~= rets@.subrange(0, 0).to_multiset()) by {
            rets@.subrange(0, 0).to_multiset_ensures();
            r@.to_multiset_ensures();
        }
    }
    while i < rets.len()
        invariant
            i <= rets@.len(),
            r@.len() == i,
            forall|j: int| 0 <= j < rets@.len() ==> -RET_CAP <= #[trigger] rets@[j] <= RET_CAP,
            r@.to_multiset() == rets@.subrange(0, i as int).to_multiset(),
            forall|a: int, b: int| 0 <= a <= b < r@.len() ==> (#[trigger] r@[a]) <= (#[trigger] r@[b]),
            forall|a: int| 0 <= a < r@.len() ==> -RET_CAP <= #[trigger] r@[a] <= RET_CAP,
        decreases rets@.len() - i,
    {
        let v = rets[i];
        let mut k: usize = 0;
        while k < r.len() && r[k] <= v
            invariant
                k <= r@.len(),
                forall|a: int| 0 <= a < k ==> (#[trigger] r@[a]) <= v,
            decreases r@.len() - k,
        {
            k += 1;
        }
        let ghost old_r = r@;
        r.insert(k, v);
        proof {
            assert(r@ == old_r.insert(k as int, v));
            lemma_insert_multiset(old_r, k as int, v);
            assert(rets@.subrange(0, i + 1) =~= rets@.subrange(0, i as int).push(v));
            rets@.subrange(0, i as int).to_multiset_ensures();
            assert(rets@.subrange(0, i as int).push(v).to_multiset()
                == rets@.subrange(0, i as int).to_multiset().insert(v));
        }
        i += 1;
    }
    proof {
        assert(rets@.subrange(0, rets@.len() as int) =~= rets@);
    }
    r
}

/// Inserting into a sequence adds exactly that element to its multiset.
proof fn lemma_insert_multiset(s: Seq<i64>, k: int, v: i64)
    requires
        0 <= k <= s.len(),
    ensures
        s.insert(k, v).to_multiset() == s.to_multiset().insert(v),
{
    let left = s.subrange(0, k);
    let right = s.subrange(k, s.len() as int);
    assert(s.insert(k, v) =~= left + seq![v] + right);
    assert(s =~= left + right);
    vstd::seq_lib::lemma_multiset_commutative(left + seq![v], right);
    vstd::seq_lib::lemma_multiset_commutative(left, seq![v]);
    vstd::seq_lib::lemma_multiset_commutative(left, right);
    assert(seq![v].to_multiset() =~= vstd::multiset::Multiset::singleton(v)) by {
        seq![v].to_multiset_ensures();
        assert(seq![v] =~= Seq::<i64>::empty().push(v));
        Seq::<i64>::empty().to_multiset_ensures();
    }
    assert(s.insert(k, v).to_multiset() =~= s.to_multiset().insert(v));
}

/// Integer square root, defined recursively: the largest `r` with
/// `r * r <= x`.
pub open spec fn spec_isqrt(x: int) -> int
    decreases x,
{
    if x < 1 {
        0
    } else {
        let r = spec_isqrt(x - 1);
        if (r + 1) * (r + 1) <= x { r + 1 } else { r }
    }
}

/// `spec_isqrt(x)` brackets `x` between consecutive squares.
pub proof fn lemma_isqrt_brackets(x: int)
    requires
        0 <= x,
    ensures
        0 <= spec_isqrt(x),
        spec_isqrt(x) * spec_isqrt(x) <= x,
        x < (spec_isqrt(x) + 1) * (spec_isqrt(x) + 1),
    decreases x,
{
    if x >= 1 {
        lemma_isqrt_brackets(x - 1);
        let p = spec_isqrt(x - 1);
        if (p + 1) * (p + 1) <= x {
            assert(x - 1 < (p + 1) * (p + 1));
            assert(x < (p + 2) * (p + 2)) by (nonlinear_arith)
                requires 0 <= p, x <= (p + 1) * (p + 1);
        }
    }
}

/// Two non-negative values bracketing `x` between consecutive squares are
/// equal.
pub proof fn lemma_isqrt_unique(x: int, a: int, b: int)
    requires
        0 <= a,
        0 <= b,
        a * a <= x < (a + 1) * (a + 1),
        b * b <= x < (b + 1) * (b + 1),
    ensures
        a == b,
{
    assert(a == b) by (nonlinear_arith)
        requires
            0 <= a,
            0 <= b,
            a * a <= x < (a + 1) * (a + 1),
            b * b <= x < (b + 1) * (b + 1);
}

/// Integer square root: the largest `r` with `r * r <= x`.
pub fn isqrt(x: u128) -> (r: u64)
    requires
        x < 9_000_000_000_000_000_000_000_000,
    ensures
        (r as int) * (r as int) <= x,
        x < (r as int + 1) * (r as int + 1),
        r as int == spec_isqrt(x as int),
{
    let mut lo: u64 = 0;
    let mut hi: u64 = 3_000_000_000_000;
    proof {
        assert((hi as int) * (hi as int) == 9_000_000_000_000_000_000_000_000int)
            by (nonlinear_arith)
            requires hi == 3_000_000_000_000u64;
    }
    while lo + 1 < hi
        invariant
            lo < hi,
            hi <= 3_000_000_000_000,
            (lo as int) * (lo as int) <= x,
            x < (hi as int) * (hi as int),
        decreases hi - lo,
    {
        let mid: u64 = lo + (hi - lo) / 2;
        proof {
            assert(mid as int * mid as int <= u128::MAX) by (nonlinear_arith)
                requires mid <= 3_000_000_000_000u64;
        }
        let sq: u128 = (mid as u128) * (mid as u128);
        if sq <= x {
            lo = mid;
        } else {
            hi = mid;
        }
    }
    proof {
        lemma_isqrt_brackets(x as int);
        lemma_isqrt_unique(x as int, lo as int, spec_isqrt(x as int));
    }
    lo
}

/// Reconstructed account balance at step `t`: the balance reported by the
/// last fill at or before `t`, or the starting balance when no fill has
/// happened yet.
pub open spec fn spec_balance_at(fills: Seq<Fill>, sb: int, t: int) -> int
    decreases fills.len(),
{
    if fills.len() == 0 {
        sb
    } else if fills.last().index <= t {
        fills.last().balance as int
    } else {
        spec_balance_at(fills.drop_last(), sb, t)
    }
}

/// Computes `spec_balance_at` exactly.
fn balance_at(fills: &Vec<Fill>, sb: u64, t: usize) -> (r: u64)
    ensures
        r as int == spec_balance_at(fills@, sb as int, t as int),
{
    let mut k: usize = fills.len();
    proof {
        assert(fills@.subrange(0, fills@.len() as int) =~= fills@);
    }
    while k > 0
        invariant
            k <= fills@.len(),
            spec_balance_at(fills@, sb as int, t as int) == spec_balance_at(
                fills@.subrange(0, k as int), sb as int, t as int,
            ),
        decreases k,
    {
        let f = fills[k - 1];
        proof {
            assert(fills@.subrange(0, k as int).last() == fills@[k - 1]);
            assert(fills@.subrange(0, k as int).drop_last() =~= fills@.subrange(0, k - 1));
        }
        if f.index <= t {
            return f.balance;
        }
        k -= 1;
    }
    proof {
        assert(fills@.subrange(0, 0) =~= Seq::<Fill>::empty());
    }
    sb
}

/// The day-return sequence of an equity series, at spec level.
pub open spec fn spec_day_returns_seq(eq: Seq<i64>) -> Seq<i64> {
    Seq::new(spec_n_days(eq.len() as int) as nat, |i: int| spec_day_return(eq, i) as i64)
}

/// Median of a sorted sequence: the middle value, or the truncated mean of
/// the two middle values; zero for an empty sequence.
pub open spec fn spec_median(s: Seq<i64>) -> int {
    let n = s.len() as int;
    if n == 0 {
        0
    } else if n % 2 == 1 {
        s[n / 2] as int
    } else {
        spec_div_trunc(s[n / 2 - 1] + s[n / 2], 2)
    }
}

/// Aggregates a completed run's fills and equity series into summary
/// metrics. `starting_balance` seeds the reconstructed balance series for
/// the equity/balance gap metrics. The median is stated over a witness:
/// the ascending permutation of the day returns, which the sortedness and
/// multiset clauses pin uniquely.
pub fn analyze_backtest(fills: &Vec<Fill>, equities: &Vec<i64>, starting_balance: u64) -> (r:
    Analysis)
    requires
        1 <= equities@.len() <= 100_000_000,
        fills@.len() <= 100_000_000,
    ensures
        r.loss_profit_ratio as int == spec_loss_profit_ratio(fills@, fills@.len() as int),
        r.adg as int == spec_div_trunc(
            spec_ret_sum_days(equities@), spec_n_days(equities@.len() as int),
        ),
        r.drawdown_worst as int == spec_worst_drawdown(equities@, equities@.len() as int),
        r.equity_balance_diff_mean as int == spec_gap_sum(
            fills@, starting_balance as int, equities@, equities@.len() as int,
        ) / (equities@.len() as int),
        r.equity_balance_diff_max as int == spec_gap_max(
            fills@, starting_balance as int, equities@, equities@.len() as int,
        ),
        exists|s: Seq<i64>| {
            &&& #[trigger] s.to_multiset() == spec_day_returns_seq(equities@).to_multiset()
            &&& forall|i: int, j: int| 0 <= i <= j < s.len() ==> s[i] <= s[j]
            &&& r.mdg as int == spec_median(s)
        },
        r.sharpe_ratio as int == spec_sharpe(spec_day_returns_seq(equities@), r.adg as int),
{
    let rets = calc_day_returns(equities);
    let adg = calc_mean_return(&rets);
    proof {
        lemma_ret_sums_agree(equities@, rets@, rets@.len() as int);
        assert(rets@ =~= spec_day_returns_seq(equities@));
    }
    let sorted = sort_returns(&rets);
    let nd = sorted.len();
    let mdg: i64 = if nd == 0 {
        0
    } else if nd % 2 == 1 {
        sorted[nd / 2]
    } else {
        let a = sorted[nd / 2 - 1];
        let b = sorted[nd / 2];
        assert(-RET_CAP <= a <= RET_CAP && -RET_CAP <= b <= RET_CAP);
        let sum: i128 = a as i128 + b as i128;
        let neg = sum < 0;
        let mag: u128 = if neg { (-sum) as u128 } else { sum as u128 };
        let half = mag / 2;
        if neg { -(half as i64) } else { half as i64 }
    };
    let sharpe = calc_sharpe(&rets, adg);
    proof {
        assert(spec_n_days(equities@.len() as int) >= 1) by (nonlinear_arith)
            requires
                1 <= equities@.len(),
                STEPS_PER_DAY == 1440usize;
        assert(rets@.len() > 0);
    }
    let (dd_worst, gap_mean, gap_max) = calc_drawdown_and_gaps(fills, equities, starting_balance);
    let lpr = calc_loss_profit_ratio(fills);
    Analysis {
        adg,
        mdg,
        sharpe_ratio: sharpe,
        drawdown_worst: dd_worst,
        equity_balance_diff_mean: gap_mean,
        equity_balance_diff_max: gap_max,
        loss_profit_ratio: lpr,
    }
}

/// Sum of all day returns of an equity series.
pub open spec fn spec_ret_sum_days(eq: Seq<i64>) -> int {
    spec_ret_sum(eq, spec_n_days(eq.len() as int))
}

/// The running sums over the equity series and over its materialized
/// day-return vector agree.
proof fn lemma_ret_sums_agree(eq: Seq<i64>, rets: Seq<i64>, n: int)
    requires
        0 <= n <= rets.len(),
        forall|i: int| 0 <= i < rets.len() ==> (#[trigger] rets[i]) as int == spec_day_return(eq, i),
    ensures
        spec_ret_sum_v(rets, n) == spec_ret_sum(eq, n),
    decreases n,
{
    if n > 0 {
        lemma_ret_sums_agree(eq, rets, n - 1);
    }
}

/// Total absolute pnl of losing fills among the first `n`.
pub open spec fn spec_loss_sum(fills: Seq<Fill>, n: int) -> int
    decreases n,
{
    if n <= 0 {
        0
    } else {
        spec_loss_sum(fills, n - 1) + if fills[n - 1].pnl < 0 {
            -(fills[n - 1].pnl as int)
        } else {
            0
        }
    }
}

/// Total pnl of winning fills among the first `n`.
pub open spec fn spec_profit_sum(fills: Seq<Fill>, n: int) -> int
    decreases n,
{
    if n <= 0 {
        0
    } else {
        spec_profit_sum(fills, n - 1) + if fills[n - 1].pnl > 0 {
            fills[n - 1].pnl as int
        } else {
            0
        }
    }
}

/// Ratio of losing to winning pnl, scaled by `FRAC_DENOM` and capped at
/// `u64::MAX`; zero with no losses, `u64::MAX` for losses against zero
/// profit.
pub open spec fn spec_loss_profit_ratio(fills: Seq<Fill>, n: int) -> int {
    let l = spec_loss_sum(fills, n);
    let p = spec_profit_sum(fills, n);
    if p == 0 {
        if l == 0 {
            0
        } else {
            u64::MAX as int
        }
    } else {
        let v = (l * FRAC_DENOM) / p;
        if v > u64::MAX {
            u64::MAX as int
        } else {
            v
        }
    }
}

/// Computes `spec_loss_profit_ratio` exactly.
fn calc_loss_profit_ratio(fills: &Vec<Fill>) -> (r: u64)
    requires
        fills@.len() <= 100_000_000,
    ensures
        r as int == spec_loss_profit_ratio(fills@, fills@.len() as int),
{
    let n = fills.len();
    let mut losses: u128 = 0;
    let mut profits: u128 = 0;
    let mut i: usize = 0;
    while i < n
        invariant
            n == fills@.len(),
            n <= 100_000_000,
            losses == spec_loss_sum(fills@, i as int),
            profits == spec_profit_sum(fills@, i as int),
            losses <= (i as int) * (i64::MAX as int + 1),
            profits <= (i as int) * (i64::MAX as int + 1),
            i <= n,
        decreases n - i,
    {
        let p = fills[i].pnl;
        proof {
            assert((i as int) * (i64::MAX as int + 1) + (i64::MAX as int + 1)
                == (i as int + 1) * (i64::MAX as int + 1)) by (nonlinear_arith);
            assert((i as int + 1) * (i64::MAX as int + 1)
                <= 100_000_000 * (i64::MAX as int + 1)) by (nonlinear_arith)
                requires i as int + 1 <= 100_000_000;
        }
        if p < 0 {
            losses = losses + ((-(p as i128)) as u128);
        } else if p > 0 {
            profits = profits + (p as u128);
        }
        i += 1;
    }
    if profits == 0 {
        if losses == 0 {
            0
        } else {
            u64::MAX
        }
    } else {
        assert(losses as int * FRAC_DENOM as int <= u128::MAX) by (nonlinear_arith)
            requires losses as int <= 100_000_000 * (i64::MAX as int + 1), FRAC_DENOM == 1_000_000u64;
        let v: u128 = losses * (FRAC_DENOM as u128) / profits;
        if v > u64::MAX as u128 {
            u64::MAX
        } else {
            v as u64
        }
    }
}

/// Sum of squared deviations of the first `n` values from `mean`.
pub open spec fn spec_var_sum(rets: Seq<i64>, mean: int, n: int) -> int
    decreases n,
{
    if n <= 0 {
        0
    } else {
        spec_var_sum(rets, mean, n - 1) + (rets[n - 1] - mean) * (rets[n - 1] - mean)
    }
}

/// Largest Sharpe magnitude kept, on the `FRAC_DENOM` scale.
pub const SHARPE_CAP: i64 = 1_000_000_000_000_000_000;

/// The Sharpe ratio of `rets` around `mean`: the mean over the integer
/// square root of the population variance.
pub open spec fn spec_sharpe(rets: Seq<i64>, mean: int) -> int {
    let var = spec_var_sum(rets, mean, rets.len() as int) / (rets.len() as int);
    spec_sharpe_from(mean, spec_isqrt(var))
}

/// `mean / std` in `FRAC_DENOM` fixed point, truncated toward zero and
/// clamped to `±SHARPE_CAP`; zero when `std` is zero.
pub open spec fn spec_sharpe_from(mean: int, std: int) -> int {
    if std == 0 {
        0
    } else if mean >= 0 {
        let v = (mean * FRAC_DENOM) / std;
        if v > SHARPE_CAP { SHARPE_CAP as int } else { v }
    } else {
        let v = ((-mean) * FRAC_DENOM) / std;
        if v > SHARPE_CAP { -(SHARPE_CAP as int) } else { -v }
    }
}

/// The Sharpe ratio: mean day return over the integer square root of the
/// population variance of day returns, zero when the variance (or the day
/// count) is zero. The existential pins the result: `std` is the unique
/// integer square root of the variance.
pub fn calc_sharpe(rets: &Vec<i64>, mean: i64) -> (r: i64)
    requires
        rets@.len() <= 100_000_000,
        forall|i: int| 0 <= i < rets@.len() ==> -RET_CAP <= #[trigger] rets@[i] <= RET_CAP,
        -RET_CAP <= mean <= RET_CAP,
    ensures
        -SHARPE_CAP <= r <= SHARPE_CAP,
        rets@.len() == 0 ==> r == 0,
        rets@.len() > 0 ==> r as int == spec_sharpe(rets@, mean as int),
{
    let n = rets.len();
    if n == 0 {
        return 0;
    }
    let mut acc: u128 = 0;
    let mut i: usize = 0;
    while i < n
        invariant
            n == rets@.len(),
            n <= 100_000_000,
            forall|j: int| 0 <= j < n ==> -RET_CAP <= #[trigger] rets@[j] <= RET_CAP,
            -RET_CAP <= mean <= RET_CAP,
            acc == spec_var_sum(rets@, mean as int, i as int),
            acc <= (i as int) * (4_000_000_000_000_000_000_000_000int),
            i <= n,
        decreases n - i,
    {
        let d: i128 = rets[i] as i128 - mean as i128;
        let mag: u128 = if d < 0 { (-d) as u128 } else { d as u128 };
        assert(mag as int * mag as int <= 4_000_000_000_000_000_000_000_000int)
            by (nonlinear_arith)
            requires mag as int <= 2 * RET_CAP as int, RET_CAP == 1_000_000_000_000i64;
        assert((rets@[i as int] - mean) * (rets@[i as int] - mean) == mag as int * mag as int)
            by (nonlinear_arith)
            requires
                d == rets@[i as int] - mean,
                d < 0 ==> mag as int == -(d as int),
                d >= 0 ==> mag as int == d as int;
        let sq: u128 = mag * mag;
        proof {
            assert((i as int) * 4_000_000_000_000_000_000_000_000int
                + 4_000_000_000_000_000_000_000_000int
                == (i as int + 1) * 4_000_000_000_000_000_000_000_000int) by (nonlinear_arith);
            assert((i as int + 1) * 4_000_000_000_000_000_000_000_000int
                <= 100_000_000 * 4_000_000_000_000_000_000_000_000int) by (nonlinear_arith)
                requires i as int + 1 <= 100_000_000;
        }
        acc = acc + sq;
        i += 1;
    }
    let variance: u128 = acc / (n as u128);
    proof {
        assert(acc as int / (n as int) <= 4_000_000_000_000_000_000_000_000int)
            by (nonlinear_arith)
            requires
                acc as int <= (n as int) * 4_000_000_000_000_000_000_000_000int,
                1 <= n as int;
    }
    let std = isqrt(variance);
    let r: i64 = if std == 0 {
        0
    } else {
        let neg = mean < 0;
        let mmag: u128 = if neg { (-(mean as i128)) as u128 } else { mean as u128 };
        assert(mmag as int <= RET_CAP as int);
        assert(mmag as int * (FRAC_DENOM as int) <= u128::MAX) by (nonlinear_arith)
            requires
                mmag as int <= RET_CAP as int,
                RET_CAP == 1_000_000_000_000i64,
                FRAC_DENOM == 1_000_000u64;
        let v: u128 = mmag * (FRAC_DENOM as u128) / (std as u128);
        let capped: i64 = if v > SHARPE_CAP as u128 { SHARPE_CAP } else { v as i64 };
        if neg { -capped } else { capped }
    };
    proof {
        let w = std as int;
        assert(r as int == spec_sharpe_from(mean as int, w));
    }
    r
}

/// `v` capped at `u64::MAX`.
pub open spec fn spec_cap_u64(v: int) -> int {
    if v > u64::MAX { u64::MAX as int } else { v }
}

/// Running equity peak over the first `n` steps (the first step's equity
/// when `n` is zero).
pub open spec fn spec_peak(eq: Seq<i64>, n: int) -> int
    decreases n,
{
    if n <= 1 {
        eq[0] as int
    } else {
        let p = spec_peak(eq, n - 1);
        if eq[n - 1] > p { eq[n - 1] as int } else { p }
    }
}

/// Relative drawdown at step `n - 1` against the peak so far, in
/// `FRAC_DENOM` fixed point; zero while equity sits at the peak or the
/// peak is non-positive.
pub open spec fn spec_dd_at(eq: Seq<i64>, n: int) -> int {
    let peak = spec_peak(eq, n);
    let e = eq[n - 1] as int;
    if peak >= 1 && e < peak {
        spec_cap_u64(((peak - e) * FRAC_DENOM) / peak)
    } else {
        0
    }
}

/// Worst relative drawdown over the first `n` steps.
pub open spec fn spec_worst_drawdown(eq: Seq<i64>, n: int) -> int
    decreases n,
{
    if n <= 0 {
        0
    } else {
        let w = spec_worst_drawdown(eq, n - 1);
        let d = spec_dd_at(eq, n);
        if d > w { d } else { w }
    }
}

/// Relative gap between equity and reconstructed balance at step `t`, in
/// `FRAC_DENOM` fixed point; a full unit when the balance is zero.
pub open spec fn spec_gap_at(fills: Seq<Fill>, sb: int, eq: Seq<i64>, t: int) -> int {
    let bal = spec_balance_at(fills, sb, t);
    let e = eq[t] as int;
    if bal == 0 {
        FRAC_DENOM as int
    } else {
        let diff = if e >= bal { e - bal } else { bal - e };
        spec_cap_u64((diff * FRAC_DENOM) / bal)
    }
}

/// Sum of the equity/balance gaps over the first `n` steps.
pub open spec fn spec_gap_sum(fills: Seq<Fill>, sb: int, eq: Seq<i64>, n: int) -> int
    decreases n,
{
    if n <= 0 {
        0
    } else {
        spec_gap_sum(fills, sb, eq, n - 1) + spec_gap_at(fills, sb, eq, n - 1)
    }
}

/// Largest equity/balance gap over the first `n` steps.
pub open spec fn spec_gap_max(fills: Seq<Fill>, sb: int, eq: Seq<i64>, n: int) -> int
    decreases n,
{
    if n <= 0 {
        0
    } else {
        let m = spec_gap_max(fills, sb, eq, n - 1);
        let g = spec_gap_at(fills, sb, eq, n - 1);
        if g > m { g } else { m }
    }
}

/// Worst peak-to-trough relative drawdown of the equity series, and the
/// mean and maximum relative gap between equity and reconstructed balance.
/// All three on the `FRAC_DENOM` scale, capped at `u64::MAX`.
pub fn calc_drawdown_and_gaps(fills: &Vec<Fill>, equities: &Vec<i64>, starting_balance: u64)
    -> (r: (u64, u64, u64))
    requires
        1 <= equities@.len() <= 100_000_000,
    ensures
        r.0 as int == spec_worst_drawdown(equities@, equities@.len() as int),
        r.1 as int == spec_gap_sum(fills@, starting_balance as int, equities@, equities@.len() as int)
            / (equities@.len() as int),
        r.2 as int == spec_gap_max(fills@, starting_balance as int, equities@, equities@.len() as int),
{
    let n = equities.len();
    let mut peak: i64 = equities[0];
    let mut worst: u64 = 0;
    let mut gap_sum: u128 = 0;
    let mut gap_max: u64 = 0;
    let mut t: usize = 0;
    while t < n
        invariant
            1 <= n == equities@.len(),
            n <= 100_000_000,
            peak as int == spec_peak(equities@, t as int),
            worst as int == spec_worst_drawdown(equities@, t as int),
            gap_sum as int == spec_gap_sum(fills@, starting_balance as int, equities@, t as int),
            gap_max as int == spec_gap_max(fills@, starting_balance as int, equities@, t as int),
            gap_sum <= (t as int) * (u64::MAX as int),
            t <= n,
        decreases n - t,
    {
        let eq = equities[t];
        if eq > peak {
            peak = eq;
        }
        if peak >= 1 && eq < peak {
            let drop: u128 = (peak as i128 - eq as i128) as u128;
            let dd: u128 = drop * (FRAC_DENOM as u128) / (peak as u128);
            let dd64: u64 = if dd > u64::MAX as u128 { u64::MAX } else { dd as u64 };
            if dd64 > worst {
                worst = dd64;
            }
        }
        let bal = balance_at(fills, starting_balance, t);
        let gap: u64 = if bal == 0 {
            FRAC_DENOM
        } else {
            let diff: u128 = if eq >= 0 && (eq as u128) >= (bal as u128) {
                (eq as u128) - (bal as u128)
            } else {
                ((bal as i128) - (eq as i128)) as u128
            };
            assert(diff as int <= u64::MAX as int + i64::MAX as int + 1);
            assert(diff as int * (FRAC_DENOM as int) <= u128::MAX) by (nonlinear_arith)
                requires
                    diff as int <= u64::MAX as int + i64::MAX as int + 1,
                    FRAC_DENOM == 1_000_000u64;
            let g: u128 = diff * (FRAC_DENOM as u128) / (bal as u128);
            if g > u64::MAX as u128 { u64::MAX } else { g as u64 }
        };
        if gap > gap_max {
            gap_max = gap;
        }
        proof {
            assert((t as int) * (u64::MAX as int) + (u64::MAX as int)
                == (t as int + 1) * (u64::MAX as int)) by (nonlinear_arith);
            assert((t as int + 1) * (u64::MAX as int) <= 100_000_000 * (u64::MAX as int))
                by (nonlinear_arith)
                requires t as int + 1 <= 100_000_000;
        }
        gap_sum = gap_sum + gap as u128;
        t += 1;
    }
    let gap_mean128: u128 = gap_sum / (n as u128);
    proof {
        assert(gap_sum as int / (n as int) <= u64::MAX as int) by (nonlinear_arith)
            requires
                gap_sum as int <= (n as int) * (u64::MAX as int),
                1 <= n as int;
    }
    (worst, gap_mean128 as u64, gap_max)
}

} // verus!
