//! The backtest engine: a discrete-event simulation that advances one time
//! step at a time across all symbols in lockstep, consuming the order
//! generators and ladder builders to decide fills against each step's
//! candle, and maintaining balance, positions, trailing extrema and the
//! fill/equity history.
//!
//! Determinism: the engine is a pure function of its inputs — symbols are
//! processed in fixed index order, and each decision function's result is
//! pinned to a spec-level mirror.
//!
//! Exposure: the engine admits an entry fill only when the total notional
//! exposure across all open positions, after the fill, stays within the
//! combined total exposure limit computed from the starting balance; close
//! fills only shrink exposure. The invariant `exposure_ok` therefore holds
//! at every step of a run.

use vstd::prelude::*;

use crate::closes::{
    calc_closes_long, calc_closes_short, calc_unstuck_close_long, calc_unstuck_close_short,
};
use crate::entries::{
    calc_entries_long, calc_entries_short, pos_after_long_entry, pos_after_short_entry,
    spec_pos_exposure, LADDER_MAX_RUNGS,
};
use crate::maths::{max_u64, min_u64, BALANCE_CAP, FRAC_DENOM, UNIT_CAP};
use crate::entries::lemma_weighted_avg_bounds;
use crate::types::{
    abs_i64, calc_cost, calc_limit_cost, spec_cost, spec_limit_cost, BacktestParams, BotParamsPair,
    Candle, EMABands, ExchangeParams, Fill, OrderBook, OrderType, Position, StateParams,
    TrailingPriceBundle,
};

verus! {

/// Most symbols a backtest may carry.
pub const MAX_SYMBOLS: usize = 4096;

/// Most steps a backtest may carry.
pub const MAX_STEPS: usize = 100_000_000;

/// Upper bound on a single position's notional exposure:
/// `UNIT_CAP * UNIT_CAP * CMULT_CAP / FRAC_DENOM`.
pub const POS_EXPOSURE_CAP: u128 = 100_000_000_000_000_000_000_000_000;

/// A configuration defect, detected at construction, before any simulation
/// work begins.
#[derive(Clone, Copy, PartialEq, Eq, Structural, Debug)]
pub enum ConfigError {
    NoSymbols,
    TooManySymbols,
    NoSteps,
    TooManySteps,
    MismatchedSeries,
    InvalidCandle,
    InvalidPreferred,
    InvalidExchangeParams,
    InvalidBotParams,
    InvalidBacktestParams,
}

/// The kind of a fatal run-time defect. A ladder that fills its whole rung
/// budget signals a logic defect (a non-terminating grid), never a market
/// condition, and aborts the run.
#[derive(Clone, Copy, PartialEq, Eq, Structural, Debug)]
pub enum RunErrorKind {
    NegativeBalance,
    ValueOutOfRange,
    LadderOverflow,
}

/// A fatal run-time defect, with the symbol and step where it arose.
#[derive(Clone, Copy, PartialEq, Eq, Structural, Debug)]
pub struct BacktestError {
    pub kind: RunErrorKind,
    pub symbol_idx: usize,
    pub step: usize,
}

/// What holds of every fill record the engine appends, at any step: the
/// symbol index is in range, and an unstuck close that realizes a loss
/// stays within the loss allowance measured against the balance at the
/// time of the close (recoverable from the record itself as
/// `balance - pnl + fee_paid`).
pub open spec fn spec_fill_sound(f: Fill, n: int, bpp: BotParamsPair) -> bool {
    &&& (f.symbol_idx as int) < n
    &&& f.order_type == OrderType::CloseUnstuckLong && f.pnl < 0 ==> -(f.pnl as int)
        <= spec_limit_cost(
            f.balance - f.pnl + f.fee_paid,
            bpp.long.unstuck_loss_allowance_pct as int,
        )
    &&& f.order_type == OrderType::CloseUnstuckShort && f.pnl < 0 ==> -(f.pnl as int)
        <= spec_limit_cost(
            f.balance - f.pnl + f.fee_paid,
            bpp.short.unstuck_loss_allowance_pct as int,
        )
}

/// What the engine guarantees of every fill it appends during step `t`.
pub open spec fn spec_fill_ok(f: Fill, t: int, n: int, bpp: BotParamsPair) -> bool {
    &&& f.index == t
    &&& spec_fill_sound(f, n, bpp)
}

/// Appending at most one well-formed fill preserves `spec_fill_ok` over the
/// whole appended range.
proof fn lemma_appended_fills_ok(
    prev: Seq<Fill>,
    cur: Seq<Fill>,
    t: int,
    n: int,
    bpp: BotParamsPair,
    base: int,
)
    requires
        prev.is_prefix_of(cur),
        cur.len() <= prev.len() + 1,
        0 <= base <= prev.len(),
        forall|k: int| base <= k < prev.len() ==> spec_fill_ok(#[trigger] prev[k], t, n, bpp),
        cur.len() == prev.len() + 1 ==> spec_fill_ok(cur.last(), t, n, bpp),
    ensures
        forall|k: int| base <= k < cur.len() ==> spec_fill_ok(#[trigger] cur[k], t, n, bpp),
{
    assert forall|k: int| base <= k < cur.len() implies spec_fill_ok(
        #[trigger] cur[k], t, n, bpp,
    ) by {
        if k < prev.len() {
            assert(cur.subrange(0, prev.len() as int)[k] == cur[k]);
            assert(prev[k] == cur[k]);
        } else {
            assert(k == cur.len() - 1);
            assert(cur[k] == cur.last());
        }
    }
}

/// Appending any number of well-formed fills preserves `spec_fill_ok` over
/// the whole appended range.
proof fn lemma_appended_fills_ok_range(
    prev: Seq<Fill>,
    cur: Seq<Fill>,
    t: int,
    n: int,
    bpp: BotParamsPair,
    base: int,
)
    requires
        prev.is_prefix_of(cur),
        0 <= base <= prev.len(),
        forall|k: int| base <= k < prev.len() ==> spec_fill_ok(#[trigger] prev[k], t, n, bpp),
        forall|k: int| prev.len() <= k < cur.len() ==> spec_fill_ok(#[trigger] cur[k], t, n, bpp),
    ensures
        forall|k: int| base <= k < cur.len() ==> spec_fill_ok(#[trigger] cur[k], t, n, bpp),
{
    assert forall|k: int| base <= k < cur.len() implies spec_fill_ok(
        #[trigger] cur[k], t, n, bpp,
    ) by {
        if k < prev.len() {
            assert(cur.subrange(0, prev.len() as int)[k] == cur[k]);
            assert(prev[k] == cur[k]);
        }
    }
}

/// Number of `true` flags among the first `n` entries.
pub open spec fn count_true(s: Seq<bool>, n: int) -> int
    decreases n,
{
    if n <= 0 {
        0
    } else {
        count_true(s, n - 1) + if s[n - 1] { 1int } else { 0int }
    }
}

/// Number of open positions among the first `n`.
pub open spec fn count_open(poss: Seq<Position>, n: int) -> int
    decreases n,
{
    if n <= 0 {
        0
    } else {
        count_open(poss, n - 1) + if poss[n - 1].size != 0 { 1int } else { 0int }
    }
}

/// Whether a preferred row names symbol `s`.
pub open spec fn spec_in_preferred(row: Seq<usize>, s: int) -> bool {
    exists|k: int| 0 <= k < row.len() && (#[trigger] row[k]) as int == s
}

/// Two flag sequences that agree on the first `n` entries count alike.
proof fn lemma_count_true_agree(a: Seq<bool>, b: Seq<bool>, n: int)
    requires
        0 <= n <= a.len(),
        n <= b.len(),
        forall|i: int| 0 <= i < n ==> a[i] == b[i],
    ensures
        count_true(a, n) == count_true(b, n),
    decreases n,
{
    if n > 0 {
        lemma_count_true_agree(a, b, n - 1);
    }
}

/// Flipping one flag changes the count by exactly that flag's difference.
proof fn lemma_count_true_update(s: Seq<bool>, n: int, i: int, v: bool)
    requires
        0 <= i < n <= s.len(),
    ensures
        count_true(s.update(i, v), n) == count_true(s, n) - (if s[i] { 1int } else { 0int })
            + (if v { 1int } else { 0int }),
    decreases n,
{
    let updated = s.update(i, v);
    if i == n - 1 {
        lemma_count_true_agree(s, updated, n - 1);
    } else {
        lemma_count_true_update(s, n - 1, i, v);
        assert(updated[n - 1] == s[n - 1]);
    }
}

/// A sequence of flat positions has no open position to count.
proof fn lemma_count_open_flat(poss: Seq<Position>, n: int)
    requires
        0 <= n <= poss.len(),
        forall|i: int| 0 <= i < n ==> (#[trigger] poss[i]).size == 0,
    ensures
        count_open(poss, n) == 0,
    decreases n,
{
    if n > 0 {
        lemma_count_open_flat(poss, n - 1);
    }
}

/// A flag count of at most zero means every flag is down.
proof fn lemma_count_true_all_false(s: Seq<bool>, n: int)
    requires
        0 <= n <= s.len(),
        count_true(s, n) <= 0,
    ensures
        forall|i: int| 0 <= i < n ==> !(#[trigger] s[i]),
    decreases n,
{
    if n > 0 {
        assert(count_true(s, n - 1) >= 0) by {
            lemma_count_true_nonneg(s, n - 1);
        }
        lemma_count_true_all_false(s, n - 1);
    }
}

/// A flag count is never negative.
proof fn lemma_count_true_nonneg(s: Seq<bool>, n: int)
    requires
        0 <= n <= s.len(),
    ensures
        count_true(s, n) >= 0,
    decreases n,
{
    if n > 0 {
        lemma_count_true_nonneg(s, n - 1);
    }
}

/// Total notional exposure of the first `n` positions.
pub open spec fn sum_exposure(poss: Seq<Position>, eps: Seq<ExchangeParams>, n: int) -> int
    decreases n,
{
    if n <= 0 {
        0
    } else {
        sum_exposure(poss, eps, n - 1) + spec_pos_exposure(poss[n - 1], eps[n - 1])
    }
}

/// Replacing one position changes the exposure sum by exactly the
/// difference of that position's exposure.
pub proof fn lemma_sum_exposure_update(
    poss: Seq<Position>,
    eps: Seq<ExchangeParams>,
    n: int,
    i: int,
    newp: Position,
)
    requires
        0 <= i < n <= poss.len(),
        n <= eps.len(),
    ensures
        sum_exposure(poss.update(i, newp), eps, n) == sum_exposure(poss, eps, n)
            - spec_pos_exposure(poss[i], eps[i]) + spec_pos_exposure(newp, eps[i]),
    decreases n,
{
    let updated = poss.update(i, newp);
    if i == n - 1 {
        assert(sum_exposure(updated, eps, n - 1) == sum_exposure(poss, eps, n - 1)) by {
            lemma_sum_exposure_agree(poss, updated, eps, n - 1);
        }
    } else {
        lemma_sum_exposure_update(poss, eps, n - 1, i, newp);
        assert(updated[n - 1] == poss[n - 1]);
    }
}

/// Two position sequences that agree on the first `n` indices have the same
/// partial exposure sum.
pub proof fn lemma_sum_exposure_agree(
    a: Seq<Position>,
    b: Seq<Position>,
    eps: Seq<ExchangeParams>,
    n: int,
)
    requires
        0 <= n <= a.len(),
        n <= b.len(),
        n <= eps.len(),
        forall|i: int| 0 <= i < n ==> a[i] == b[i],
    ensures
        sum_exposure(a, eps, n) == sum_exposure(b, eps, n),
    decreases n,
{
    if n > 0 {
        lemma_sum_exposure_agree(a, b, eps, n - 1);
    }
}

/// A position that shrinks in size (same price) has no larger exposure.
pub proof fn lemma_exposure_shrinks(oldp: Position, newp: Position, ep: ExchangeParams)
    requires
        newp.price == oldp.price || newp.size == 0,
        abs_i64(newp.size) <= abs_i64(oldp.size),
        newp.size == 0 ==> newp.price == 0,
    ensures
        0 <= abs_i64(oldp.size) && 0 <= oldp.price ==> spec_pos_exposure(newp, ep)
            <= spec_pos_exposure(oldp, ep),
{
    if 0 <= abs_i64(oldp.size) && 0 <= oldp.price {
        assert((abs_i64(newp.size) * (newp.price as int) * (ep.c_mult as int))
            / (FRAC_DENOM as int) <= (abs_i64(oldp.size) * (oldp.price as int)
            * (ep.c_mult as int)) / (FRAC_DENOM as int)) by (nonlinear_arith)
            requires
                0 <= abs_i64(newp.size) <= abs_i64(oldp.size),
                0 <= newp.price as int,
                newp.price == oldp.price || (newp.size == 0 && newp.price == 0),
                newp.size == 0 ==> abs_i64(newp.size) == 0,
                0 <= ep.c_mult as int,
                FRAC_DENOM == 1_000_000u64;
    }
}

/// The engine's owned state for one run.
pub struct Backtest {
    pub hlcvs: Vec<Vec<Candle>>,
    pub preferred: Vec<Vec<usize>>,
    pub bot_params: BotParamsPair,
    pub exchange_params: Vec<ExchangeParams>,
    pub backtest_params: BacktestParams,
    pub balance: u64,
    pub poss_long: Vec<Position>,
    pub poss_short: Vec<Position>,
    pub tpb_long: Vec<TrailingPriceBundle>,
    pub tpb_short: Vec<TrailingPriceBundle>,
    pub ema_long_0: Vec<u64>,
    pub ema_long_1: Vec<u64>,
    pub ema_short_0: Vec<u64>,
    pub ema_short_1: Vec<u64>,
    pub unstuck_used: u64,
    pub fills: Vec<Fill>,
    pub equities: Vec<i64>,
}

impl Backtest {
    /// Number of traded symbols.
    pub open spec fn n_symbols(&self) -> int {
        self.hlcvs@.len() as int
    }

    /// Number of time steps.
    pub open spec fn n_steps(&self) -> int {
        self.hlcvs@[0]@.len() as int
    }

    /// The structural invariant of the engine state.
    pub open spec fn wf(&self) -> bool {
        let n = self.n_symbols();
        &&& 1 <= n <= MAX_SYMBOLS
        &&& 1 <= self.n_steps() <= MAX_STEPS
        &&& forall|s: int| 0 <= s < n ==> (#[trigger] self.hlcvs@[s])@.len() == self.n_steps()
        &&& forall|s: int, t: int| 0 <= s < n && 0 <= t < self.n_steps()
            ==> (#[trigger] self.hlcvs@[s]@[t]).wf()
        &&& self.preferred@.len() == self.n_steps()
        &&& forall|t: int, k: int| 0 <= t < self.n_steps() && 0 <= k < self.preferred@[t]@.len()
            ==> (#[trigger] self.preferred@[t]@[k] as int) < n
        &&& self.exchange_params@.len() == n
        &&& forall|s: int| 0 <= s < n ==> (#[trigger] self.exchange_params@[s]).wf()
        &&& self.bot_params.wf()
        &&& self.backtest_params.wf()
        &&& self.balance <= BALANCE_CAP
        &&& self.poss_long@.len() == n
        &&& self.poss_short@.len() == n
        &&& self.tpb_long@.len() == n
        &&& self.tpb_short@.len() == n
        &&& self.ema_long_0@.len() == n
        &&& self.ema_long_1@.len() == n
        &&& self.ema_short_0@.len() == n
        &&& self.ema_short_1@.len() == n
        &&& forall|s: int| 0 <= s < n ==> (#[trigger] self.poss_long@[s]).wf(self.exchange_params@[s])
            && self.poss_long@[s].size >= 0
        &&& forall|s: int| 0 <= s < n ==> (#[trigger] self.poss_short@[s]).wf(self.exchange_params@[s])
            && self.poss_short@[s].size <= 0
        &&& forall|s: int| 0 <= s < n ==> 1 <= #[trigger] self.ema_long_0@[s] <= UNIT_CAP
        &&& forall|s: int| 0 <= s < n ==> 1 <= #[trigger] self.ema_long_1@[s] <= UNIT_CAP
        &&& forall|s: int| 0 <= s < n ==> 1 <= #[trigger] self.ema_short_0@[s] <= UNIT_CAP
        &&& forall|s: int| 0 <= s < n ==> 1 <= #[trigger] self.ema_short_1@[s] <= UNIT_CAP
    }

    /// Total notional exposure across both sides' open positions.
    pub open spec fn total_exposure(&self) -> int {
        sum_exposure(self.poss_long@, self.exchange_params@, self.n_symbols())
            + sum_exposure(self.poss_short@, self.exchange_params@, self.n_symbols())
    }

    /// The combined exposure budget: both sides' total limits applied to
    /// the starting balance.
    pub open spec fn total_limit(&self) -> int {
        spec_limit_cost(
            self.backtest_params.starting_balance as int,
            self.bot_params.long.total_wallet_exposure_limit as int,
        ) + spec_limit_cost(
            self.backtest_params.starting_balance as int,
            self.bot_params.short.total_wallet_exposure_limit as int,
        )
    }

    /// The exposure invariant: total exposure never exceeds the budget
    /// derived from the starting balance.
    pub open spec fn exposure_ok(&self) -> bool {
        self.total_exposure() <= self.total_limit()
    }

    /// An idle engine: every position flat and no concurrent-position slot
    /// configured on either side. In this state no order can fill and no
    /// fatal condition can arise, so a step is guaranteed to succeed.
    pub open spec fn spec_idle(&self) -> bool {
        &&& self.bot_params.long.n_positions == 0
        &&& self.bot_params.short.n_positions == 0
        &&& forall|i: int| 0 <= i < self.n_symbols()
            ==> (#[trigger] self.poss_long@[i]).size == 0
        &&& forall|i: int| 0 <= i < self.n_symbols()
            ==> (#[trigger] self.poss_short@[i]).size == 0
    }

    /// The fields fixed for the whole run are unchanged.
    pub open spec fn same_config(a: Backtest, b: Backtest) -> bool {
        &&& a.hlcvs == b.hlcvs
        &&& a.preferred == b.preferred
        &&& a.bot_params == b.bot_params
        &&& a.exchange_params == b.exchange_params
        &&& a.backtest_params == b.backtest_params
    }
}

/// A sequence of flat positions has zero total exposure.
proof fn lemma_sum_exposure_flat(poss: Seq<Position>, eps: Seq<ExchangeParams>, n: int)
    requires
        0 <= n <= poss.len(),
        n <= eps.len(),
        forall|i: int| 0 <= i < n ==> (#[trigger] poss[i]).size == 0 && poss[i].price == 0,
    ensures
        sum_exposure(poss, eps, n) == 0,
    decreases n,
{
    if n > 0 {
        lemma_sum_exposure_flat(poss, eps, n - 1);
        assert(abs_i64(poss[n - 1].size) == 0);
        assert(abs_i64(poss[n - 1].size) * (poss[n - 1].price as int) * (eps[n - 1].c_mult as int)
            == 0) by (nonlinear_arith)
            requires abs_i64(poss[n - 1].size) == 0;
        assert(0int / (FRAC_DENOM as int) == 0) by (nonlinear_arith)
            requires FRAC_DENOM == 1_000_000u64;
    }
}

/// Validity of the engine's construction inputs.
pub open spec fn spec_valid_config(
    hlcvs: Seq<Vec<Candle>>,
    preferred: Seq<Vec<usize>>,
    bpp: BotParamsPair,
    eps: Seq<ExchangeParams>,
    btp: BacktestParams,
) -> bool {
    let n = hlcvs.len() as int;
    &&& 1 <= n <= MAX_SYMBOLS
    &&& 1 <= hlcvs[0]@.len() <= MAX_STEPS
    &&& forall|s: int| 0 <= s < n ==> (#[trigger] hlcvs[s])@.len() == hlcvs[0]@.len()
    &&& forall|s: int, t: int| 0 <= s < n && 0 <= t < hlcvs[0]@.len()
        ==> (#[trigger] hlcvs[s]@[t]).wf()
    &&& preferred.len() == hlcvs[0]@.len()
    &&& forall|t: int, k: int| 0 <= t < preferred.len() && 0 <= k < preferred[t]@.len()
        ==> (#[trigger] preferred[t]@[k] as int) < n
    &&& eps.len() == n
    &&& forall|s: int| 0 <= s < n ==> (#[trigger] eps[s]).wf()
    &&& bpp.wf()
    &&& btp.wf()
}

impl Backtest {
    /// Validates the inputs and builds the initial engine state: starting
    /// balance, flat positions, reset trailing bundles, EMAs seeded with
    /// each symbol's first close. Succeeds exactly on valid inputs.
    pub fn new(
        hlcvs: Vec<Vec<Candle>>,
        preferred: Vec<Vec<usize>>,
        bot_params: BotParamsPair,
        exchange_params: Vec<ExchangeParams>,
        backtest_params: BacktestParams,
    ) -> (r: Result<Backtest, ConfigError>)
        ensures
            r is Ok <==> spec_valid_config(
                hlcvs@, preferred@, bot_params, exchange_params@, backtest_params,
            ),
            r matches Ok(b) ==> b.wf() && b.exposure_ok() && b.hlcvs == hlcvs
                && b.preferred == preferred && b.bot_params == bot_params
                && b.exchange_params == exchange_params && b.backtest_params == backtest_params
                && b.balance == backtest_params.starting_balance && b.fills@.len() == 0
                && b.equities@.len() == 0 && b.unstuck_used == 0,
    {
        let n = hlcvs.len();
        if n < 1 {
            return Err(ConfigError::NoSymbols);
        }
        if n > MAX_SYMBOLS {
            return Err(ConfigError::TooManySymbols);
        }
        let n_steps = hlcvs[0].len();
        if n_steps < 1 {
            return Err(ConfigError::NoSteps);
        }
        if n_steps > MAX_STEPS {
            return Err(ConfigError::TooManySteps);
        }
        let mut s: usize = 0;
        while s < n
            invariant
                n == hlcvs@.len(),
                n_steps == hlcvs@[0]@.len(),
                forall|i: int| 0 <= i < s ==> (#[trigger] hlcvs@[i])@.len() == n_steps,
                s <= n,
            decreases n - s,
        {
            if hlcvs[s].len() != n_steps {
                return Err(ConfigError::MismatchedSeries);
            }
            s += 1;
        }
        let mut s: usize = 0;
        while s < n
            invariant
                n == hlcvs@.len(),
                n_steps == hlcvs@[0]@.len(),
                forall|i: int| 0 <= i < n ==> (#[trigger] hlcvs@[i])@.len() == n_steps,
                forall|i: int, t: int| 0 <= i < s && 0 <= t < n_steps
                    ==> (#[trigger] hlcvs@[i]@[t]).wf(),
                s <= n,
            decreases n - s,
        {
            let mut t: usize = 0;
            while t < n_steps
                invariant
                    n == hlcvs@.len(),
                    n_steps == hlcvs@[0]@.len(),
                    forall|i: int| 0 <= i < n ==> (#[trigger] hlcvs@[i])@.len() == n_steps,
                    s < n,
                    forall|u: int| 0 <= u < t ==> (#[trigger] hlcvs@[s as int]@[u]).wf(),
                    t <= n_steps,
                decreases n_steps - t,
            {
                if !hlcvs[s][t].validate() {
                    return Err(ConfigError::InvalidCandle);
                }
                t += 1;
            }
            s += 1;
        }
        if preferred.len() != n_steps {
            return Err(ConfigError::InvalidPreferred);
        }
        let mut t: usize = 0;
        while t < n_steps
            invariant
                n == hlcvs@.len(),
                n_steps == hlcvs@[0]@.len(),
                n_steps == preferred@.len(),
                forall|u: int, k: int| 0 <= u < t && 0 <= k < preferred@[u]@.len()
                    ==> (#[trigger] preferred@[u]@[k] as int) < n,
                t <= n_steps,
            decreases n_steps - t,
        {
            let row_len = preferred[t].len();
            let mut k: usize = 0;
            while k < row_len
                invariant
                    n == hlcvs@.len(),
                    n_steps == hlcvs@[0]@.len(),
                    n_steps == preferred@.len(),
                    t < n_steps,
                    row_len == preferred@[t as int]@.len(),
                    forall|j: int| 0 <= j < k ==> (#[trigger] preferred@[t as int]@[j] as int) < n,
                    k <= row_len,
                decreases row_len - k,
            {
                if preferred[t][k] >= n {
                    proof {
                        assert((preferred@[t as int]@[k as int] as int) >= n as int);
                    }
                    return Err(ConfigError::InvalidPreferred);
                }
                k += 1;
            }
            t += 1;
        }
        if exchange_params.len() != n {
            return Err(ConfigError::InvalidExchangeParams);
        }
        let mut s: usize = 0;
        while s < n
            invariant
                n == exchange_params@.len(),
                forall|i: int| 0 <= i < s ==> (#[trigger] exchange_params@[i]).wf(),
                s <= n,
            decreases n - s,
        {
            if !exchange_params[s].validate() {
                return Err(ConfigError::InvalidExchangeParams);
            }
            s += 1;
        }
        if !bot_params.validate() {
            return Err(ConfigError::InvalidBotParams);
        }
        if !backtest_params.validate() {
            return Err(ConfigError::InvalidBacktestParams);
        }
        let mut poss_long: Vec<Position> = Vec::new();
        let mut poss_short: Vec<Position> = Vec::new();
        let mut tpb_long: Vec<TrailingPriceBundle> = Vec::new();
        let mut tpb_short: Vec<TrailingPriceBundle> = Vec::new();
        let mut ema_long_0: Vec<u64> = Vec::new();
        let mut ema_long_1: Vec<u64> = Vec::new();
        let mut ema_short_0: Vec<u64> = Vec::new();
        let mut ema_short_1: Vec<u64> = Vec::new();
        let mut s: usize = 0;
        while s < n
            invariant
                n == hlcvs@.len(),
                n_steps == hlcvs@[0]@.len(),
                1 <= n_steps,
                forall|i: int| 0 <= i < n ==> (#[trigger] hlcvs@[i])@.len() == n_steps,
                forall|i: int, t: int| 0 <= i < n && 0 <= t < n_steps
                    ==> (#[trigger] hlcvs@[i]@[t]).wf(),
                poss_long@.len() == s,
                poss_short@.len() == s,
                tpb_long@.len() == s,
                tpb_short@.len() == s,
                ema_long_0@.len() == s,
                ema_long_1@.len() == s,
                ema_short_0@.len() == s,
                ema_short_1@.len() == s,
                forall|i: int| 0 <= i < s ==> (#[trigger] poss_long@[i]).size == 0
                    && poss_long@[i].price == 0,
                forall|i: int| 0 <= i < s ==> (#[trigger] poss_short@[i]).size == 0
                    && poss_short@[i].price == 0,
                forall|i: int| 0 <= i < s ==> 1 <= #[trigger] ema_long_0@[i] <= UNIT_CAP,
                forall|i: int| 0 <= i < s ==> 1 <= #[trigger] ema_long_1@[i] <= UNIT_CAP,
                forall|i: int| 0 <= i < s ==> 1 <= #[trigger] ema_short_0@[i] <= UNIT_CAP,
                forall|i: int| 0 <= i < s ==> 1 <= #[trigger] ema_short_1@[i] <= UNIT_CAP,
                s <= n,
            decreases n - s,
        {
            let c0 = hlcvs[s][0].close;
            poss_long.push(Position { size: 0, price: 0 });
            poss_short.push(Position { size: 0, price: 0 });
            tpb_long.push(TrailingPriceBundle::default());
            tpb_short.push(TrailingPriceBundle::default());
            ema_long_0.push(c0);
            ema_long_1.push(c0);
            ema_short_0.push(c0);
            ema_short_1.push(c0);
            s += 1;
        }
        let starting_balance = backtest_params.starting_balance;
        let b = Backtest {
            hlcvs,
            preferred,
            bot_params,
            exchange_params,
            backtest_params,
            balance: starting_balance,
            poss_long,
            poss_short,
            tpb_long,
            tpb_short,
            ema_long_0,
            ema_long_1,
            ema_short_0,
            ema_short_1,
            unstuck_used: 0,
            fills: Vec::new(),
            equities: Vec::new(),
        };
        proof {
            assert forall|i: int| 0 <= i < b.n_symbols() implies
                (#[trigger] b.poss_long@[i]).wf(b.exchange_params@[i]) && b.poss_long@[i].size >= 0
            by {
                assert(abs_i64(b.poss_long@[i].size) == 0);
                vstd::arithmetic::div_mod::lemma_small_mod(
                    0nat, b.exchange_params@[i].qty_step as nat,
                );
            }
            assert forall|i: int| 0 <= i < b.n_symbols() implies
                (#[trigger] b.poss_short@[i]).wf(b.exchange_params@[i]) && b.poss_short@[i].size <= 0
            by {
                assert(abs_i64(b.poss_short@[i].size) == 0);
                vstd::arithmetic::div_mod::lemma_small_mod(
                    0nat, b.exchange_params@[i].qty_step as nat,
                );
            }
            lemma_sum_exposure_flat(b.poss_long@, b.exchange_params@, b.n_symbols());
            lemma_sum_exposure_flat(b.poss_short@, b.exchange_params@, b.n_symbols());
            assert(spec_limit_cost(
                b.backtest_params.starting_balance as int,
                b.bot_params.long.total_wallet_exposure_limit as int,
            ) >= 0) by (nonlinear_arith)
                requires
                    b.backtest_params.starting_balance >= 1,
                    b.bot_params.long.total_wallet_exposure_limit >= 0,
                    FRAC_DENOM == 1_000_000u64;
            assert(spec_limit_cost(
                b.backtest_params.starting_balance as int,
                b.bot_params.short.total_wallet_exposure_limit as int,
            ) >= 0) by (nonlinear_arith)
                requires
                    b.backtest_params.starting_balance >= 1,
                    b.bot_params.short.total_wallet_exposure_limit >= 0,
                    FRAC_DENOM == 1_000_000u64;
        }
        Ok(b)
    }

    /// Recomputes the total notional exposure across both sides exactly.
    fn current_total_exposure(&self) -> (r: u128)
        requires
            self.wf(),
        ensures
            r == self.total_exposure(),
            r <= (MAX_SYMBOLS as int) * 2 * POS_EXPOSURE_CAP,
    {
        let n = self.poss_long.len();
        let mut acc: u128 = 0;
        let mut s: usize = 0;
        while s < n
            invariant
                self.wf(),
                n == self.n_symbols(),
                s <= n,
                acc == sum_exposure(self.poss_long@, self.exchange_params@, s as int),
                acc <= (s as int) * POS_EXPOSURE_CAP,
            decreases n - s,
        {
            let pos = self.poss_long[s];
            let ep = self.exchange_params[s];
            let mag: u64 = if pos.size >= 0 { pos.size as u64 } else { (-pos.size) as u64 };
            let e = calc_cost(mag, pos.price, ep.c_mult);
            assert(e as int <= POS_EXPOSURE_CAP) by (nonlinear_arith)
                requires
                    e as int == (mag as int * pos.price as int * ep.c_mult as int)
                        / (FRAC_DENOM as int),
                    0 <= mag as int <= UNIT_CAP,
                    pos.price <= UNIT_CAP,
                    ep.c_mult <= 100_000_000u64,
                    FRAC_DENOM == 1_000_000u64,
                    POS_EXPOSURE_CAP == 100_000_000_000_000_000_000_000_000u128;
            assert((s as int) * POS_EXPOSURE_CAP + POS_EXPOSURE_CAP
                == (s as int + 1) * POS_EXPOSURE_CAP) by (nonlinear_arith);
            assert((s as int + 1) * POS_EXPOSURE_CAP <= (MAX_SYMBOLS as int) * POS_EXPOSURE_CAP)
                by (nonlinear_arith)
                requires s as int + 1 <= MAX_SYMBOLS as int;
            assert(mag as int == abs_i64(pos.size));
            acc = acc + e;
            s += 1;
        }
        let mut s: usize = 0;
        let ghost first = acc as int;
        while s < n
            invariant
                self.wf(),
                n == self.n_symbols(),
                s <= n,
                first == sum_exposure(self.poss_long@, self.exchange_params@, n as int),
                first <= (MAX_SYMBOLS as int) * POS_EXPOSURE_CAP,
                acc == first + sum_exposure(self.poss_short@, self.exchange_params@, s as int),
                acc <= first + (s as int) * POS_EXPOSURE_CAP,
            decreases n - s,
        {
            let pos = self.poss_short[s];
            let ep = self.exchange_params[s];
            let mag: u64 = if pos.size >= 0 { pos.size as u64 } else { (-pos.size) as u64 };
            let e = calc_cost(mag, pos.price, ep.c_mult);
            assert(e as int <= POS_EXPOSURE_CAP) by (nonlinear_arith)
                requires
                    e as int == (mag as int * pos.price as int * ep.c_mult as int)
                        / (FRAC_DENOM as int),
                    0 <= mag as int <= UNIT_CAP,
                    pos.price <= UNIT_CAP,
                    ep.c_mult <= 100_000_000u64,
                    FRAC_DENOM == 1_000_000u64,
                    POS_EXPOSURE_CAP == 100_000_000_000_000_000_000_000_000u128;
            assert((s as int) * POS_EXPOSURE_CAP + POS_EXPOSURE_CAP
                == (s as int + 1) * POS_EXPOSURE_CAP) by (nonlinear_arith);
            assert((s as int + 1) * POS_EXPOSURE_CAP <= (MAX_SYMBOLS as int) * POS_EXPOSURE_CAP)
                by (nonlinear_arith)
                requires s as int + 1 <= MAX_SYMBOLS as int;
            assert(mag as int == abs_i64(pos.size));
            acc = acc + e;
            s += 1;
        }
        proof {
            assert((MAX_SYMBOLS as int) * POS_EXPOSURE_CAP + (MAX_SYMBOLS as int) * POS_EXPOSURE_CAP
                == (MAX_SYMBOLS as int) * 2 * POS_EXPOSURE_CAP) by (nonlinear_arith);
        }
        acc
    }

    /// Applies one long close fill: realizes pnl, charges the maker fee,
    /// shrinks the position (resetting price and trailing extrema when it
    /// goes flat), tracks unstuck losses, and appends the `Fill`. Exposure
    /// can only shrink. On error the state is unchanged.
    fn apply_long_close_fill(&mut self, s: usize, t: usize, o: crate::types::Order) -> (r: Result<
        (),
        BacktestError,
    >)
        requires
            old(self).wf(),
            old(self).exposure_ok(),
            (s as int) < old(self).n_symbols(),
            t < MAX_STEPS,
            crate::types::valid_order(o, old(self).exchange_params@[s as int]),
            o.qty < 0,
            abs_i64(o.qty) <= old(self).poss_long@[s as int].size,
            o.order_type == OrderType::CloseGridLong || o.order_type
                == OrderType::CloseTrailingLong || o.order_type == OrderType::CloseUnstuckLong,
            o.order_type == OrderType::CloseUnstuckLong && o.price < old(
                self,
            ).poss_long@[s as int].price ==> ({
                let loss = spec_cost(
                    abs_i64(o.qty),
                    old(self).poss_long@[s as int].price - o.price,
                    old(self).exchange_params@[s as int].c_mult as int,
                );
                loss == 0 || old(self).unstuck_used + loss <= spec_limit_cost(
                    old(self).balance as int,
                    old(self).bot_params.long.unstuck_loss_allowance_pct as int,
                )
            }),
        ensures
            Backtest::same_config(*old(self), *final(self)),
            final(self).equities == old(self).equities,
            final(self).wf(),
            final(self).exposure_ok(),
            final(self).total_exposure() <= old(self).total_exposure(),
            old(self).fills@.is_prefix_of(final(self).fills@),
            abs_i64(final(self).poss_long@[s as int].size) <= abs_i64(
                old(self).poss_long@[s as int].size,
            ),
            final(self).poss_short == old(self).poss_short,
            forall|j: int| 0 <= j < old(self).n_symbols() && j != s ==> final(self).poss_long@[j]
                == old(self).poss_long@[j],
            r is Ok ==> final(self).fills@.len() == old(self).fills@.len() + 1
                && spec_fill_ok(
                final(self).fills@.last(), t as int, old(self).n_symbols(), old(self).bot_params,
            ),
            r is Err ==> *final(self) == *old(self),
            r matches Err(e) ==> e.step == t && e.symbol_idx == s,
    {
        let ep = self.exchange_params[s];
        let pos = self.poss_long[s];
        let q: u64 = (-o.qty) as u64;
        let gain: bool = o.price >= pos.price;
        let diff: u64 = if gain { o.price - pos.price } else { pos.price - o.price };
        let pnl128: u128 = calc_cost(q, diff, ep.c_mult);
        if pnl128 > i64::MAX as u128 {
            return Err(BacktestError { kind: RunErrorKind::ValueOutOfRange, symbol_idx: s, step: t });
        }
        let cost128: u128 = calc_cost(q, o.price, ep.c_mult);
        assert(cost128 as int <= POS_EXPOSURE_CAP as int) by (nonlinear_arith)
            requires
                cost128 as int == (q as int * o.price as int * ep.c_mult as int)
                    / (FRAC_DENOM as int),
                0 <= q as int <= UNIT_CAP,
                o.price <= UNIT_CAP,
                ep.c_mult <= 100_000_000u64,
                FRAC_DENOM == 1_000_000u64,
                POS_EXPOSURE_CAP == 100_000_000_000_000_000_000_000_000u128;
        assert(cost128 as int * self.backtest_params.maker_fee as int <= u128::MAX)
            by (nonlinear_arith)
            requires
                cost128 as int <= POS_EXPOSURE_CAP as int,
                self.backtest_params.maker_fee <= 1_000_000u64,
                POS_EXPOSURE_CAP == 100_000_000_000_000_000_000_000_000u128;
        let fee128: u128 = cost128 * (self.backtest_params.maker_fee as u128)
            / (FRAC_DENOM as u128);
        if fee128 > i64::MAX as u128 {
            return Err(BacktestError { kind: RunErrorKind::ValueOutOfRange, symbol_idx: s, step: t });
        }
        let pnl_signed: i128 = if gain { pnl128 as i128 } else { -(pnl128 as i128) };
        let nb: i128 = self.balance as i128 + pnl_signed - fee128 as i128;
        if nb < 0 {
            return Err(BacktestError { kind: RunErrorKind::NegativeBalance, symbol_idx: s, step: t });
        }
        if nb > BALANCE_CAP as i128 {
            return Err(BacktestError { kind: RunErrorKind::ValueOutOfRange, symbol_idx: s, step: t });
        }
        let ns: i64 = pos.size + o.qty;
        let newp = if ns == 0 {
            Position { size: 0, price: 0 }
        } else {
            Position { size: ns, price: pos.price }
        };
        proof {
            vstd::arithmetic::div_mod::lemma_sub_mod_noop(
                pos.size as int, q as int, ep.qty_step as int,
            );
            vstd::arithmetic::div_mod::lemma_small_mod(0nat, ep.qty_step as nat);
            assert(abs_i64(newp.size) == pos.size as int - q as int || abs_i64(newp.size) == 0);
            assert(abs_i64(newp.size) % (ep.qty_step as int) == 0);
            assert(newp.wf(ep));
            lemma_exposure_shrinks(pos, newp, ep);
            lemma_sum_exposure_update(
                self.poss_long@, self.exchange_params@, self.n_symbols(), s as int, newp,
            );
        }
        self.poss_long[s] = newp;
        if ns == 0 {
            self.tpb_long[s] = TrailingPriceBundle::default();
        }
        self.balance = nb as u64;
        if o.order_type == OrderType::CloseUnstuckLong && !gain {
            let a: u64 = pnl128 as u64;
            if u64::MAX - self.unstuck_used < a {
                self.unstuck_used = u64::MAX;
            } else {
                self.unstuck_used = self.unstuck_used + a;
            }
        }
        let fill = Fill {
            index: t,
            symbol_idx: s,
            pnl: if gain { pnl128 as i64 } else { -(pnl128 as i64) },
            fee_paid: fee128 as i64,
            balance: nb as u64,
            fill_qty: o.qty,
            fill_price: o.price,
            position_size: newp.size,
            position_price: newp.price,
            order_type: o.order_type,
        };
        proof {
            if o.order_type == OrderType::CloseUnstuckLong && !gain {
                assert(pnl128 as int == spec_cost(
                    abs_i64(o.qty), pos.price - o.price, ep.c_mult as int,
                ));
                if pnl128 > 0 {
                    assert(pnl128 as int <= spec_limit_cost(
                        old(self).balance as int,
                        old(self).bot_params.long.unstuck_loss_allowance_pct as int,
                    ));
                }
                assert(fill.balance - fill.pnl + fill.fee_paid == old(self).balance as int);
                assert(-(fill.pnl as int) == pnl128 as int);
            }
        }
        self.fills.push(fill);
        Ok(())
    }

    /// Applies one short close fill: the mirror of the long case (a short
    /// gains when it buys back below its average entry price).
    fn apply_short_close_fill(&mut self, s: usize, t: usize, o: crate::types::Order) -> (r: Result<
        (),
        BacktestError,
    >)
        requires
            old(self).wf(),
            old(self).exposure_ok(),
            (s as int) < old(self).n_symbols(),
            t < MAX_STEPS,
            crate::types::valid_order(o, old(self).exchange_params@[s as int]),
            o.qty > 0,
            o.qty <= abs_i64(old(self).poss_short@[s as int].size),
            o.order_type == OrderType::CloseGridShort || o.order_type
                == OrderType::CloseTrailingShort || o.order_type == OrderType::CloseUnstuckShort,
            o.order_type == OrderType::CloseUnstuckShort && o.price > old(
                self,
            ).poss_short@[s as int].price ==> ({
                let loss = spec_cost(
                    o.qty as int,
                    o.price - old(self).poss_short@[s as int].price,
                    old(self).exchange_params@[s as int].c_mult as int,
                );
                loss == 0 || old(self).unstuck_used + loss <= spec_limit_cost(
                    old(self).balance as int,
                    old(self).bot_params.short.unstuck_loss_allowance_pct as int,
                )
            }),
        ensures
            Backtest::same_config(*old(self), *final(self)),
            final(self).equities == old(self).equities,
            final(self).wf(),
            final(self).exposure_ok(),
            final(self).total_exposure() <= old(self).total_exposure(),
            old(self).fills@.is_prefix_of(final(self).fills@),
            abs_i64(final(self).poss_short@[s as int].size) <= abs_i64(
                old(self).poss_short@[s as int].size,
            ),
            final(self).poss_long == old(self).poss_long,
            forall|j: int| 0 <= j < old(self).n_symbols() && j != s ==> final(self).poss_short@[j]
                == old(self).poss_short@[j],
            r is Ok ==> final(self).fills@.len() == old(self).fills@.len() + 1
                && spec_fill_ok(
                final(self).fills@.last(), t as int, old(self).n_symbols(), old(self).bot_params,
            ),
            r is Err ==> *final(self) == *old(self),
            r matches Err(e) ==> e.step == t && e.symbol_idx == s,
    {
        let ep = self.exchange_params[s];
        let pos = self.poss_short[s];
        let q: u64 = o.qty as u64;
        let gain: bool = o.price <= pos.price;
        let diff: u64 = if gain { pos.price - o.price } else { o.price - pos.price };
        let pnl128: u128 = calc_cost(q, diff, ep.c_mult);
        if pnl128 > i64::MAX as u128 {
            return Err(BacktestError { kind: RunErrorKind::ValueOutOfRange, symbol_idx: s, step: t });
        }
        let cost128: u128 = calc_cost(q, o.price, ep.c_mult);
        assert(cost128 as int <= POS_EXPOSURE_CAP as int) by (nonlinear_arith)
            requires
                cost128 as int == (q as int * o.price as int * ep.c_mult as int)
                    / (FRAC_DENOM as int),
                0 <= q as int <= UNIT_CAP,
                o.price <= UNIT_CAP,
                ep.c_mult <= 100_000_000u64,
                FRAC_DENOM == 1_000_000u64,
                POS_EXPOSURE_CAP == 100_000_000_000_000_000_000_000_000u128;
        assert(cost128 as int * self.backtest_params.maker_fee as int <= u128::MAX)
            by (nonlinear_arith)
            requires
                cost128 as int <= POS_EXPOSURE_CAP as int,
                self.backtest_params.maker_fee <= 1_000_000u64,
                POS_EXPOSURE_CAP == 100_000_000_000_000_000_000_000_000u128;
        let fee128: u128 = cost128 * (self.backtest_params.maker_fee as u128)
            / (FRAC_DENOM as u128);
        if fee128 > i64::MAX as u128 {
            return Err(BacktestError { kind: RunErrorKind::ValueOutOfRange, symbol_idx: s, step: t });
        }
        let pnl_signed: i128 = if gain { pnl128 as i128 } else { -(pnl128 as i128) };
        let nb: i128 = self.balance as i128 + pnl_signed - fee128 as i128;
        if nb < 0 {
            return Err(BacktestError { kind: RunErrorKind::NegativeBalance, symbol_idx: s, step: t });
        }
        if nb > BALANCE_CAP as i128 {
            return Err(BacktestError { kind: RunErrorKind::ValueOutOfRange, symbol_idx: s, step: t });
        }
        let ns: i64 = pos.size + o.qty;
        let newp = if ns == 0 {
            Position { size: 0, price: 0 }
        } else {
            Position { size: ns, price: pos.price }
        };
        proof {
            let mag = abs_i64(pos.size);
            vstd::arithmetic::div_mod::lemma_sub_mod_noop(mag, q as int, ep.qty_step as int);
            vstd::arithmetic::div_mod::lemma_small_mod(0nat, ep.qty_step as nat);
            assert(abs_i64(newp.size) == mag - q as int || abs_i64(newp.size) == 0);
            assert(abs_i64(newp.size) % (ep.qty_step as int) == 0);
            assert(newp.wf(ep));
            lemma_exposure_shrinks(pos, newp, ep);
            lemma_sum_exposure_update(
                self.poss_short@, self.exchange_params@, self.n_symbols(), s as int, newp,
            );
        }
        self.poss_short[s] = newp;
        if ns == 0 {
            self.tpb_short[s] = TrailingPriceBundle::default();
        }
        self.balance = nb as u64;
        if o.order_type == OrderType::CloseUnstuckShort && !gain {
            let a: u64 = pnl128 as u64;
            if u64::MAX - self.unstuck_used < a {
                self.unstuck_used = u64::MAX;
            } else {
                self.unstuck_used = self.unstuck_used + a;
            }
        }
        let fill = Fill {
            index: t,
            symbol_idx: s,
            pnl: if gain { pnl128 as i64 } else { -(pnl128 as i64) },
            fee_paid: fee128 as i64,
            balance: nb as u64,
            fill_qty: o.qty,
            fill_price: o.price,
            position_size: newp.size,
            position_price: newp.price,
            order_type: o.order_type,
        };
        proof {
            if o.order_type == OrderType::CloseUnstuckShort && !gain {
                assert(pnl128 as int == spec_cost(
                    o.qty as int, o.price - pos.price, ep.c_mult as int,
                ));
                if pnl128 > 0 {
                    assert(pnl128 as int <= spec_limit_cost(
                        old(self).balance as int,
                        old(self).bot_params.short.unstuck_loss_allowance_pct as int,
                    ));
                }
                assert(fill.balance - fill.pnl + fill.fee_paid == old(self).balance as int);
                assert(-(fill.pnl as int) == pnl128 as int);
            }
        }
        self.fills.push(fill);
        Ok(())
    }

    /// Applies one long entry fill if the total exposure budget admits it:
    /// grows the position at the volume-weighted price, charges the maker
    /// fee, and appends the `Fill`. Returns `Ok(false)`, with the state
    /// unchanged, when the budget refuses the fill.
    fn apply_long_entry_fill(&mut self, s: usize, t: usize, o: crate::types::Order) -> (r: Result<
        bool,
        BacktestError,
    >)
        requires
            old(self).wf(),
            old(self).exposure_ok(),
            (s as int) < old(self).n_symbols(),
            t < MAX_STEPS,
            crate::types::valid_order(o, old(self).exchange_params@[s as int]),
            o.qty > 0,
            old(self).poss_long@[s as int].size + o.qty <= UNIT_CAP,
        ensures
            Backtest::same_config(*old(self), *final(self)),
            final(self).equities == old(self).equities,
            final(self).wf(),
            final(self).exposure_ok(),
            old(self).fills@.is_prefix_of(final(self).fills@),
            final(self).poss_short == old(self).poss_short,
            forall|j: int| 0 <= j < old(self).n_symbols() && j != s ==> final(self).poss_long@[j]
                == old(self).poss_long@[j],
            r matches Ok(applied) ==> (applied ==> final(self).fills@.len()
                == old(self).fills@.len() + 1 && spec_fill_ok(
                final(self).fills@.last(), t as int, old(self).n_symbols(), old(self).bot_params,
            )) && (!applied ==> *final(self) == *old(self)),
            r is Err ==> *final(self) == *old(self),
            r matches Err(e) ==> e.step == t && e.symbol_idx == s,
    {
        let ep = self.exchange_params[s];
        let pos = self.poss_long[s];
        let newp = pos_after_long_entry(&ep, &pos, &o);
        let e_old = calc_cost(pos.size as u64, pos.price, ep.c_mult);
        let e_new = calc_cost(newp.size as u64, newp.price, ep.c_mult);
        let cur = self.current_total_exposure();
        let limit_l = calc_limit_cost(
            self.backtest_params.starting_balance,
            self.bot_params.long.total_wallet_exposure_limit,
        );
        let limit_s = calc_limit_cost(
            self.backtest_params.starting_balance,
            self.bot_params.short.total_wallet_exposure_limit,
        );
        assert(e_new as int <= POS_EXPOSURE_CAP as int) by (nonlinear_arith)
            requires
                e_new as int == (newp.size as int * newp.price as int * ep.c_mult as int)
                    / (FRAC_DENOM as int),
                0 <= newp.size as int <= UNIT_CAP,
                newp.price <= UNIT_CAP,
                ep.c_mult <= 100_000_000u64,
                FRAC_DENOM == 1_000_000u64,
                POS_EXPOSURE_CAP == 100_000_000_000_000_000_000_000_000u128;
        assert(e_old as int <= POS_EXPOSURE_CAP as int) by (nonlinear_arith)
            requires
                e_old as int == (pos.size as int * pos.price as int * ep.c_mult as int)
                    / (FRAC_DENOM as int),
                0 <= pos.size as int <= UNIT_CAP,
                pos.price <= UNIT_CAP,
                ep.c_mult <= 100_000_000u64,
                FRAC_DENOM == 1_000_000u64,
                POS_EXPOSURE_CAP == 100_000_000_000_000_000_000_000_000u128;
        if cur + e_new > limit_l + limit_s + e_old {
            return Ok(false);
        }
        let cost128: u128 = calc_cost(o.qty as u64, o.price, ep.c_mult);
        assert(cost128 as int <= POS_EXPOSURE_CAP as int) by (nonlinear_arith)
            requires
                cost128 as int == (o.qty as int * o.price as int * ep.c_mult as int)
                    / (FRAC_DENOM as int),
                0 <= o.qty as int <= UNIT_CAP,
                o.price <= UNIT_CAP,
                ep.c_mult <= 100_000_000u64,
                FRAC_DENOM == 1_000_000u64,
                POS_EXPOSURE_CAP == 100_000_000_000_000_000_000_000_000u128;
        assert(cost128 as int * self.backtest_params.maker_fee as int <= u128::MAX)
            by (nonlinear_arith)
            requires
                cost128 as int <= POS_EXPOSURE_CAP as int,
                self.backtest_params.maker_fee <= 1_000_000u64,
                POS_EXPOSURE_CAP == 100_000_000_000_000_000_000_000_000u128;
        let fee128: u128 = cost128 * (self.backtest_params.maker_fee as u128)
            / (FRAC_DENOM as u128);
        if fee128 > i64::MAX as u128 {
            return Err(BacktestError { kind: RunErrorKind::ValueOutOfRange, symbol_idx: s, step: t });
        }
        if fee128 > self.balance as u128 {
            return Err(BacktestError { kind: RunErrorKind::NegativeBalance, symbol_idx: s, step: t });
        }
        proof {
            lemma_sum_exposure_update(
                self.poss_long@, self.exchange_params@, self.n_symbols(), s as int, newp,
            );
        }
        self.poss_long[s] = newp;
        self.balance = self.balance - fee128 as u64;
        self.fills.push(Fill {
            index: t,
            symbol_idx: s,
            pnl: 0,
            fee_paid: fee128 as i64,
            balance: self.balance,
            fill_qty: o.qty,
            fill_price: o.price,
            position_size: newp.size,
            position_price: newp.price,
            order_type: o.order_type,
        });
        Ok(true)
    }

    /// Applies one short entry fill under the same exposure budget rule as
    /// the long case.
    fn apply_short_entry_fill(&mut self, s: usize, t: usize, o: crate::types::Order) -> (r: Result<
        bool,
        BacktestError,
    >)
        requires
            old(self).wf(),
            old(self).exposure_ok(),
            (s as int) < old(self).n_symbols(),
            t < MAX_STEPS,
            crate::types::valid_order(o, old(self).exchange_params@[s as int]),
            o.qty < 0,
            abs_i64(old(self).poss_short@[s as int].size) + abs_i64(o.qty) <= UNIT_CAP,
        ensures
            Backtest::same_config(*old(self), *final(self)),
            final(self).equities == old(self).equities,
            final(self).wf(),
            final(self).exposure_ok(),
            old(self).fills@.is_prefix_of(final(self).fills@),
            final(self).poss_long == old(self).poss_long,
            forall|j: int| 0 <= j < old(self).n_symbols() && j != s ==> final(self).poss_short@[j]
                == old(self).poss_short@[j],
            r matches Ok(applied) ==> (applied ==> final(self).fills@.len()
                == old(self).fills@.len() + 1 && spec_fill_ok(
                final(self).fills@.last(), t as int, old(self).n_symbols(), old(self).bot_params,
            )) && (!applied ==> *final(self) == *old(self)),
            r is Err ==> *final(self) == *old(self),
            r matches Err(e) ==> e.step == t && e.symbol_idx == s,
    {
        let ep = self.exchange_params[s];
        let pos = self.poss_short[s];
        let newp = pos_after_short_entry(&ep, &pos, &o);
        let mag_old: u64 = if pos.size >= 0 { pos.size as u64 } else { (-pos.size) as u64 };
        let mag_new: u64 = (-newp.size) as u64;
        let e_old = calc_cost(mag_old, pos.price, ep.c_mult);
        let e_new = calc_cost(mag_new, newp.price, ep.c_mult);
        let cur = self.current_total_exposure();
        let limit_l = calc_limit_cost(
            self.backtest_params.starting_balance,
            self.bot_params.long.total_wallet_exposure_limit,
        );
        let limit_s = calc_limit_cost(
            self.backtest_params.starting_balance,
            self.bot_params.short.total_wallet_exposure_limit,
        );
        assert(e_new as int <= POS_EXPOSURE_CAP as int) by (nonlinear_arith)
            requires
                e_new as int == (mag_new as int * newp.price as int * ep.c_mult as int)
                    / (FRAC_DENOM as int),
                0 <= mag_new as int <= UNIT_CAP,
                newp.price <= UNIT_CAP,
                ep.c_mult <= 100_000_000u64,
                FRAC_DENOM == 1_000_000u64,
                POS_EXPOSURE_CAP == 100_000_000_000_000_000_000_000_000u128;
        assert(e_old as int <= POS_EXPOSURE_CAP as int) by (nonlinear_arith)
            requires
                e_old as int == (mag_old as int * pos.price as int * ep.c_mult as int)
                    / (FRAC_DENOM as int),
                0 <= mag_old as int <= UNIT_CAP,
                pos.price <= UNIT_CAP,
                ep.c_mult <= 100_000_000u64,
                FRAC_DENOM == 1_000_000u64,
                POS_EXPOSURE_CAP == 100_000_000_000_000_000_000_000_000u128;
        if cur + e_new > limit_l + limit_s + e_old {
            return Ok(false);
        }
        let q: u64 = (-o.qty) as u64;
        let cost128: u128 = calc_cost(q, o.price, ep.c_mult);
        assert(cost128 as int <= POS_EXPOSURE_CAP as int) by (nonlinear_arith)
            requires
                cost128 as int == (q as int * o.price as int * ep.c_mult as int)
                    / (FRAC_DENOM as int),
                0 <= q as int <= UNIT_CAP,
                o.price <= UNIT_CAP,
                ep.c_mult <= 100_000_000u64,
                FRAC_DENOM == 1_000_000u64,
                POS_EXPOSURE_CAP == 100_000_000_000_000_000_000_000_000u128;
        assert(cost128 as int * self.backtest_params.maker_fee as int <= u128::MAX)
            by (nonlinear_arith)
            requires
                cost128 as int <= POS_EXPOSURE_CAP as int,
                self.backtest_params.maker_fee <= 1_000_000u64,
                POS_EXPOSURE_CAP == 100_000_000_000_000_000_000_000_000u128;
        let fee128: u128 = cost128 * (self.backtest_params.maker_fee as u128)
            / (FRAC_DENOM as u128);
        if fee128 > i64::MAX as u128 {
            return Err(BacktestError { kind: RunErrorKind::ValueOutOfRange, symbol_idx: s, step: t });
        }
        if fee128 > self.balance as u128 {
            return Err(BacktestError { kind: RunErrorKind::NegativeBalance, symbol_idx: s, step: t });
        }
        proof {
            lemma_sum_exposure_update(
                self.poss_short@, self.exchange_params@, self.n_symbols(), s as int, newp,
            );
        }
        self.poss_short[s] = newp;
        self.balance = self.balance - fee128 as u64;
        self.fills.push(Fill {
            index: t,
            symbol_idx: s,
            pnl: 0,
            fee_paid: fee128 as i64,
            balance: self.balance,
            fill_qty: o.qty,
            fill_price: o.price,
            position_size: newp.size,
            position_price: newp.price,
            order_type: o.order_type,
        });
        Ok(true)
    }
}

/// Unrealized pnl of a long position marked at `close`, truncated toward
/// zero.
pub open spec fn spec_upnl_long(pos: Position, ep: ExchangeParams, close: int) -> int {
    if pos.size <= 0 {
        0
    } else if close >= pos.price {
        spec_cost(pos.size as int, close - pos.price, ep.c_mult as int)
    } else {
        -spec_cost(pos.size as int, pos.price - close, ep.c_mult as int)
    }
}

/// Unrealized pnl of a short position marked at `close`, truncated toward
/// zero.
pub open spec fn spec_upnl_short(pos: Position, ep: ExchangeParams, close: int) -> int {
    if pos.size >= 0 {
        0
    } else if close <= pos.price {
        spec_cost(abs_i64(pos.size), pos.price - close, ep.c_mult as int)
    } else {
        -spec_cost(abs_i64(pos.size), close - pos.price, ep.c_mult as int)
    }
}

/// One step of the trailing-extrema update: a new low re-anchors
/// `min_since_open` and restarts `max_since_min` at the close; otherwise the
/// high can only raise `max_since_min`. Symmetrically for the maxima.
pub open spec fn spec_update_tpb(tpb: TrailingPriceBundle, c: Candle) -> TrailingPriceBundle {
    let a = if c.low < tpb.min_since_open {
        TrailingPriceBundle { min_since_open: c.low, max_since_min: c.close, ..tpb }
    } else if c.high > tpb.max_since_min {
        TrailingPriceBundle { max_since_min: c.high, ..tpb }
    } else {
        tpb
    };
    if c.high > a.max_since_open {
        TrailingPriceBundle { max_since_open: c.high, min_since_max: c.close, ..a }
    } else if c.low < a.min_since_max {
        TrailingPriceBundle { min_since_max: c.low, ..a }
    } else {
        a
    }
}

/// Computes `spec_update_tpb` exactly.
fn update_tpb(tpb: TrailingPriceBundle, c: &Candle) -> (r: TrailingPriceBundle)
    ensures
        r == spec_update_tpb(tpb, *c),
{
    let mut nt = tpb;
    if c.low < nt.min_since_open {
        nt.min_since_open = c.low;
        nt.max_since_min = c.close;
    } else if c.high > nt.max_since_min {
        nt.max_since_min = c.high;
    }
    if c.high > nt.max_since_open {
        nt.max_since_open = c.high;
        nt.min_since_max = c.close;
    } else if c.low < nt.min_since_max {
        nt.min_since_max = c.low;
    }
    nt
}

impl Backtest {
    /// Unrealized pnl across all open positions, marked at step `t`'s
    /// closes, over the first `n` symbols.
    pub open spec fn sum_upnl(&self, t: int, n: int) -> int
        decreases n,
    {
        if n <= 0 {
            0
        } else {
            self.sum_upnl(t, n - 1) + spec_upnl_long(
                self.poss_long@[n - 1],
                self.exchange_params@[n - 1],
                self.hlcvs@[n - 1]@[t].close as int,
            ) + spec_upnl_short(
                self.poss_short@[n - 1],
                self.exchange_params@[n - 1],
                self.hlcvs@[n - 1]@[t].close as int,
            )
        }
    }

    /// Mark-to-market equity at step `t`: balance plus unrealized pnl
    /// across all open positions.
    pub open spec fn spec_equity(&self, t: int) -> int {
        self.balance + self.sum_upnl(t, self.n_symbols())
    }

    /// Computes the mark-to-market equity exactly, or reports that it falls
    /// outside the representable range.
    fn compute_equity(&self, t: usize) -> (r: Result<i64, BacktestError>)
        requires
            self.wf(),
            (t as int) < self.n_steps(),
        ensures
            r matches Ok(eq) ==> eq as int == self.spec_equity(t as int),
            r is Ok <==> i64::MIN <= self.spec_equity(t as int) <= i64::MAX,
            r matches Err(e) ==> e.step == t && e.symbol_idx == 0,
    {
        let n = self.poss_long.len();
        let mut acc: i128 = 0;
        let mut s: usize = 0;
        while s < n
            invariant
                self.wf(),
                n == self.n_symbols(),
                (t as int) < self.n_steps(),
                s <= n,
                acc == self.sum_upnl(t as int, s as int),
                -((s as int) * 2 * POS_EXPOSURE_CAP) <= acc <= (s as int) * 2 * POS_EXPOSURE_CAP,
            decreases n - s,
        {
            let ep = self.exchange_params[s];
            let close = self.hlcvs[s][t].close;
            let pl = self.poss_long[s];
            let ul: i128 = if pl.size <= 0 {
                0
            } else {
                let diff: u64 = if close >= pl.price { close - pl.price } else { pl.price - close };
                let c128 = calc_cost(pl.size as u64, diff, ep.c_mult);
                assert(c128 as int <= POS_EXPOSURE_CAP as int) by (nonlinear_arith)
                    requires
                        c128 as int == (pl.size as int * diff as int * ep.c_mult as int)
                            / (FRAC_DENOM as int),
                        0 <= pl.size as int <= UNIT_CAP,
                        diff <= UNIT_CAP,
                        ep.c_mult <= 100_000_000u64,
                        FRAC_DENOM == 1_000_000u64,
                        POS_EXPOSURE_CAP == 100_000_000_000_000_000_000_000_000u128;
                if close >= pl.price { c128 as i128 } else { -(c128 as i128) }
            };
            let ps = self.poss_short[s];
            let us: i128 = if ps.size >= 0 {
                0
            } else {
                let mag: u64 = (-ps.size) as u64;
                let diff: u64 = if close <= ps.price { ps.price - close } else { close - ps.price };
                let c128 = calc_cost(mag, diff, ep.c_mult);
                assert(c128 as int <= POS_EXPOSURE_CAP as int) by (nonlinear_arith)
                    requires
                        c128 as int == (mag as int * diff as int * ep.c_mult as int)
                            / (FRAC_DENOM as int),
                        0 <= mag as int <= UNIT_CAP,
                        diff <= UNIT_CAP,
                        ep.c_mult <= 100_000_000u64,
                        FRAC_DENOM == 1_000_000u64,
                        POS_EXPOSURE_CAP == 100_000_000_000_000_000_000_000_000u128;
                if close <= ps.price { c128 as i128 } else { -(c128 as i128) }
            };
            proof {
                lemma_upnl_bound(pl, ep, close as int);
                lemma_upnl_bound(ps, ep, close as int);
                assert((s as int) * 2 * POS_EXPOSURE_CAP + 2 * POS_EXPOSURE_CAP
                    == (s as int + 1) * 2 * POS_EXPOSURE_CAP) by (nonlinear_arith);
                assert((s as int + 1) * 2 * POS_EXPOSURE_CAP
                    <= (MAX_SYMBOLS as int) * 2 * POS_EXPOSURE_CAP) by (nonlinear_arith)
                    requires s as int + 1 <= MAX_SYMBOLS as int;
            }
            acc = acc + ul + us;
            s += 1;
        }
        let eq: i128 = self.balance as i128 + acc;
        if eq < i64::MIN as i128 || eq > i64::MAX as i128 {
            return Err(BacktestError { kind: RunErrorKind::ValueOutOfRange, symbol_idx: 0, step: t });
        }
        Ok(eq as i64)
    }
}

/// One EMA update: the close weighted by `alpha = 2/(span+1)` against the
/// old value, in `FRAC_DENOM` fixed point, floored.
pub open spec fn spec_ema_step(e_old: int, close: int, span: int) -> int {
    let d = FRAC_DENOM as int;
    let alpha = (2 * d) / (span + 1);
    (close * alpha + e_old * (d - alpha)) / d
}

/// Computes `spec_ema_step` exactly; the result stays within `[1, UNIT_CAP]`.
fn ema_step(e_old: u64, close: u64, span: u64) -> (r: u64)
    requires
        1 <= span <= 1_000_000,
        1 <= e_old <= UNIT_CAP,
        1 <= close <= UNIT_CAP,
    ensures
        r == spec_ema_step(e_old as int, close as int, span as int),
        1 <= r <= UNIT_CAP,
{
    let alpha: u64 = (2 * FRAC_DENOM) / (span + 1);
    assert(1 <= alpha <= FRAC_DENOM) by (nonlinear_arith)
        requires
            alpha as int == (2 * FRAC_DENOM as int) / (span as int + 1),
            1 <= span <= 1_000_000u64,
            FRAC_DENOM == 1_000_000u64;
    assert(close as int * alpha as int + e_old as int * (FRAC_DENOM as int - alpha as int)
        <= u128::MAX) by (nonlinear_arith)
        requires
            close <= UNIT_CAP,
            e_old <= UNIT_CAP,
            1 <= alpha <= FRAC_DENOM,
            FRAC_DENOM == 1_000_000u64,
            UNIT_CAP == 1_000_000_000_000u64;
    let num: u128 = (close as u128) * (alpha as u128)
        + (e_old as u128) * ((FRAC_DENOM - alpha) as u128);
    let r128: u128 = num / (FRAC_DENOM as u128);
    proof {
        lemma_weighted_avg_bounds(
            FRAC_DENOM as int - alpha as int,
            e_old as int,
            alpha as int,
            close as int,
            UNIT_CAP as int,
        );
        assert((FRAC_DENOM as int - alpha as int) + alpha as int == FRAC_DENOM as int);
        assert(num as int == (FRAC_DENOM as int - alpha as int) * e_old as int
            + alpha as int * close as int) by (nonlinear_arith)
            requires num as int == close as int * alpha as int
                + e_old as int * (FRAC_DENOM as int - alpha as int);
    }
    r128 as u64
}

impl Backtest {
    /// Updates all four EMAs of one symbol with the step's close.
    fn update_emas_for(&mut self, s: usize, t: usize)
        requires
            old(self).wf(),
            old(self).exposure_ok(),
            (s as int) < old(self).n_symbols(),
            (t as int) < old(self).n_steps(),
        ensures
            Backtest::same_config(*old(self), *final(self)),
            final(self).wf(),
            final(self).exposure_ok(),
            final(self).poss_long == old(self).poss_long,
            final(self).poss_short == old(self).poss_short,
            final(self).tpb_long == old(self).tpb_long,
            final(self).tpb_short == old(self).tpb_short,
            final(self).balance == old(self).balance,
            final(self).unstuck_used == old(self).unstuck_used,
            final(self).fills == old(self).fills,
            final(self).equities == old(self).equities,
            final(self).ema_long_0@ == old(self).ema_long_0@.update(
                s as int,
                final(self).ema_long_0@[s as int],
            ),
            final(self).ema_long_1@ == old(self).ema_long_1@.update(
                s as int,
                final(self).ema_long_1@[s as int],
            ),
            final(self).ema_short_0@ == old(self).ema_short_0@.update(
                s as int,
                final(self).ema_short_0@[s as int],
            ),
            final(self).ema_short_1@ == old(self).ema_short_1@.update(
                s as int,
                final(self).ema_short_1@[s as int],
            ),
            final(self).ema_long_0@[s as int] as int == spec_ema_step(
                old(self).ema_long_0@[s as int] as int,
                old(self).hlcvs@[s as int]@[t as int].close as int,
                old(self).bot_params.long.ema_span_0 as int,
            ),
            final(self).ema_long_1@[s as int] as int == spec_ema_step(
                old(self).ema_long_1@[s as int] as int,
                old(self).hlcvs@[s as int]@[t as int].close as int,
                old(self).bot_params.long.ema_span_1 as int,
            ),
            final(self).ema_short_0@[s as int] as int == spec_ema_step(
                old(self).ema_short_0@[s as int] as int,
                old(self).hlcvs@[s as int]@[t as int].close as int,
                old(self).bot_params.short.ema_span_0 as int,
            ),
            final(self).ema_short_1@[s as int] as int == spec_ema_step(
                old(self).ema_short_1@[s as int] as int,
                old(self).hlcvs@[s as int]@[t as int].close as int,
                old(self).bot_params.short.ema_span_1 as int,
            ),
    {
        let close = self.hlcvs[s][t].close;
        let bp = self.bot_params;
        let v = ema_step(self.ema_long_0[s], close, bp.long.ema_span_0);
        self.ema_long_0[s] = v;
        let v = ema_step(self.ema_long_1[s], close, bp.long.ema_span_1);
        self.ema_long_1[s] = v;
        let v = ema_step(self.ema_short_0[s], close, bp.short.ema_span_0);
        self.ema_short_0[s] = v;
        let v = ema_step(self.ema_short_1[s], close, bp.short.ema_span_1);
        self.ema_short_1[s] = v;
    }

    /// Per-step admission control: a symbol may receive new entries when it
    /// already holds a position on that side, or when the step's preferred
    /// list grants it one of the at most `n_positions` concurrent slots, in
    /// ranked order.
    fn compute_eligibility(&self, t: usize) -> (r: (Vec<bool>, Vec<bool>))
        requires
            self.wf(),
            (t as int) < self.n_steps(),
        ensures
            r.0@.len() == self.n_symbols(),
            r.1@.len() == self.n_symbols(),
            forall|i: int| 0 <= i < self.n_symbols() ==> ((#[trigger] r.0@[i])
                ==> self.poss_long@[i].size != 0 || spec_in_preferred(
                self.preferred@[t as int]@, i,
            )),
            forall|i: int| 0 <= i < self.n_symbols() ==> ((#[trigger] r.1@[i])
                ==> self.poss_short@[i].size != 0 || spec_in_preferred(
                self.preferred@[t as int]@, i,
            )),
            count_true(r.0@, self.n_symbols()) <= crate::entries::spec_max(
                count_open(self.poss_long@, self.n_symbols()),
                self.bot_params.long.n_positions as int,
            ),
            count_true(r.1@, self.n_symbols()) <= crate::entries::spec_max(
                count_open(self.poss_short@, self.n_symbols()),
                self.bot_params.short.n_positions as int,
            ),
    {
        let n = self.poss_long.len();
        let mut allow_long: Vec<bool> = Vec::new();
        let mut allow_short: Vec<bool> = Vec::new();
        let mut count_long: usize = 0;
        let mut count_short: usize = 0;
        let mut s: usize = 0;
        while s < n
            invariant
                self.wf(),
                n == self.n_symbols(),
                s <= n,
                allow_long@.len() == s,
                allow_short@.len() == s,
                forall|i: int| 0 <= i < s ==> (#[trigger] allow_long@[i])
                    == (self.poss_long@[i].size != 0),
                forall|i: int| 0 <= i < s ==> (#[trigger] allow_short@[i])
                    == (self.poss_short@[i].size != 0),
                count_long == count_true(allow_long@, s as int),
                count_short == count_true(allow_short@, s as int),
                count_long == count_open(self.poss_long@, s as int),
                count_short == count_open(self.poss_short@, s as int),
                count_long <= s,
                count_short <= s,
            decreases n - s,
        {
            let open_l = self.poss_long[s].size != 0;
            let open_s = self.poss_short[s].size != 0;
            let ghost prev_long = allow_long@;
            let ghost prev_short = allow_short@;
            allow_long.push(open_l);
            allow_short.push(open_s);
            proof {
                lemma_count_true_agree(prev_long, allow_long@, s as int);
                lemma_count_true_agree(prev_short, allow_short@, s as int);
            }
            if open_l {
                count_long += 1;
            }
            if open_s {
                count_short += 1;
            }
            s += 1;
        }
        let row_len = self.preferred[t].len();
        let mut k: usize = 0;
        while k < row_len
            invariant
                self.wf(),
                n == self.n_symbols(),
                (t as int) < self.n_steps(),
                row_len == self.preferred@[t as int]@.len(),
                allow_long@.len() == n,
                allow_short@.len() == n,
                forall|i: int| 0 <= i < n ==> ((#[trigger] allow_long@[i])
                    ==> self.poss_long@[i].size != 0 || spec_in_preferred(
                    self.preferred@[t as int]@, i,
                )),
                forall|i: int| 0 <= i < n ==> ((#[trigger] allow_short@[i])
                    ==> self.poss_short@[i].size != 0 || spec_in_preferred(
                    self.preferred@[t as int]@, i,
                )),
                count_long == count_true(allow_long@, n as int),
                count_short == count_true(allow_short@, n as int),
                count_true(allow_long@, n as int) <= crate::entries::spec_max(
                    count_open(self.poss_long@, n as int),
                    self.bot_params.long.n_positions as int,
                ),
                count_true(allow_short@, n as int) <= crate::entries::spec_max(
                    count_open(self.poss_short@, n as int),
                    self.bot_params.short.n_positions as int,
                ),
                k <= row_len,
            decreases row_len - k,
        {
            let sym = self.preferred[t][k];
            proof {
                assert((self.preferred@[t as int]@[k as int] as int) < self.n_symbols());
            }
            if !allow_long[sym] && count_long < self.bot_params.long.n_positions {
                let ghost old_allow = allow_long@;
                allow_long[sym] = true;
                proof {
                    lemma_count_true_update(old_allow, n as int, sym as int, true);
                    assert((self.preferred@[t as int]@[k as int] as int) == sym as int);
                    assert(spec_in_preferred(self.preferred@[t as int]@, sym as int));
                }
                count_long += 1;
            }
            if !allow_short[sym] && count_short < self.bot_params.short.n_positions {
                let ghost old_allow = allow_short@;
                allow_short[sym] = true;
                proof {
                    lemma_count_true_update(old_allow, n as int, sym as int, true);
                    assert((self.preferred@[t as int]@[k as int] as int) == sym as int);
                    assert(spec_in_preferred(self.preferred@[t as int]@, sym as int));
                }
                count_short += 1;
            }
            k += 1;
        }
        (allow_long, allow_short)
    }

    /// Processes one symbol's long side for one step: an unstuck close
    /// replaces the regular close ladder when it triggers; close fills land
    /// where the step's high reaches the rung, entry fills (when the symbol
    /// is eligible) where the step's low reaches the rung; the trailing
    /// extrema are then re-anchored or advanced with the step's candle.
    fn process_symbol_long(&mut self, s: usize, t: usize, allowed: bool) -> (r: Result<
        (),
        BacktestError,
    >)
        requires
            old(self).wf(),
            old(self).exposure_ok(),
            (s as int) < old(self).n_symbols(),
            (t as int) < old(self).n_steps(),
            t < MAX_STEPS,
        ensures
            Backtest::same_config(*old(self), *final(self)),
            final(self).wf(),
            final(self).exposure_ok(),
            final(self).equities == old(self).equities,
            old(self).fills@.is_prefix_of(final(self).fills@),
            forall|i: int| old(self).fills@.len() <= i < final(self).fills@.len()
                ==> spec_fill_ok(
                #[trigger] final(self).fills@[i], t as int, old(self).n_symbols(),
                old(self).bot_params,
            ),
            !allowed ==> abs_i64(final(self).poss_long@[s as int].size) <= abs_i64(
                old(self).poss_long@[s as int].size,
            ),
            !allowed && old(self).poss_long@[s as int].size == 0 ==> r is Ok,
            final(self).poss_short == old(self).poss_short,
            forall|j: int| 0 <= j < old(self).n_symbols() && j != s ==> final(self).poss_long@[j]
                == old(self).poss_long@[j],
            r matches Err(e) ==> e.step == t && (e.symbol_idx as int) < old(self).n_symbols(),
    {
        let ghost orig = *self;
        let ep = self.exchange_params[s];
        let candle = self.hlcvs[s][t];
        let e0 = self.ema_long_0[s];
        let e1 = self.ema_long_1[s];
        let sp = StateParams {
            balance: self.balance,
            order_book: OrderBook { bid: candle.close, ask: candle.close },
            ema_bands: EMABands { lower: min_u64(e0, e1), upper: max_u64(e0, e1) },
        };
        let bp = self.bot_params.long;
        let pos = self.poss_long[s];
        let was_flat = pos.size == 0;
        assert(self.balance as int * bp.unstuck_loss_allowance_pct as int <= u128::MAX)
            by (nonlinear_arith)
            requires
                self.balance <= BALANCE_CAP,
                bp.unstuck_loss_allowance_pct <= FRAC_DENOM,
                FRAC_DENOM == 1_000_000u64;
        let allowed_total128: u128 = (self.balance as u128)
            * (bp.unstuck_loss_allowance_pct as u128) / (FRAC_DENOM as u128);
        assert(allowed_total128 as int <= BALANCE_CAP as int) by (nonlinear_arith)
            requires
                allowed_total128 as int == (self.balance as int
                    * bp.unstuck_loss_allowance_pct as int) / (FRAC_DENOM as int),
                self.balance <= BALANCE_CAP,
                bp.unstuck_loss_allowance_pct <= FRAC_DENOM,
                FRAC_DENOM == 1_000_000u64;
        let allowed_total: u64 = allowed_total128 as u64;
        let left: u64 = if self.unstuck_used >= allowed_total {
            0
        } else {
            allowed_total - self.unstuck_used
        };
        let unstuck = calc_unstuck_close_long(&ep, &sp, &bp, &pos, left);
        if unstuck.qty != 0 {
            if unstuck.price <= candle.high {
                proof {
                    assert(allowed_total as int == spec_limit_cost(
                        self.balance as int, bp.unstuck_loss_allowance_pct as int,
                    ));
                    if unstuck.price < pos.price {
                        let loss = spec_cost(
                            abs_i64(unstuck.qty), pos.price - unstuck.price, ep.c_mult as int,
                        );
                        assert(loss <= left);
                        assert(loss >= 0) by (nonlinear_arith)
                            requires
                                loss == (abs_i64(unstuck.qty) * (pos.price - unstuck.price)
                                    * (ep.c_mult as int)) / (FRAC_DENOM as int),
                                0 <= abs_i64(unstuck.qty),
                                0 <= pos.price - unstuck.price,
                                0 <= ep.c_mult as int,
                                FRAC_DENOM == 1_000_000u64;
                        if self.unstuck_used >= allowed_total {
                            assert(loss == 0);
                        } else {
                            assert(self.unstuck_used + loss <= allowed_total as int);
                        }
                    }
                }
                let res = self.apply_long_close_fill(s, t, unstuck);
                if let Err(e) = res {
                    return Err(e);
                }
            }
        } else {
            let closes = calc_closes_long(&ep, &sp, &bp, &pos, &self.tpb_long[s]);
            proof {
                if pos.size == 0 {
                    crate::laws::lemma_flat_close_is_empty(ep, sp, bp, pos, self.tpb_long@[s as int], 0);
                    assert(crate::closes::spec_next_close_long(
                        ep, sp, bp, pos, self.tpb_long@[s as int],
                    ).qty == 0);
                    assert(closes@.len() == 0);
                }
            }
            if closes.len() >= LADDER_MAX_RUNGS as usize {
                return Err(BacktestError {
                    kind: RunErrorKind::LadderOverflow,
                    symbol_idx: s,
                    step: t,
                });
            }
            let mut i: usize = 0;
            while i < closes.len()
                invariant
                    orig == *old(self),
                    Backtest::same_config(orig, *self),
                    self.wf(),
                    self.exposure_ok(),
                    self.equities == orig.equities,
                    orig.fills@.is_prefix_of(self.fills@),
                    forall|k: int| orig.fills@.len() <= k < self.fills@.len()
                        ==> spec_fill_ok(
                        #[trigger] self.fills@[k], t as int, orig.n_symbols(), orig.bot_params,
                    ),
                    abs_i64(self.poss_long@[s as int].size) <= abs_i64(
                        orig.poss_long@[s as int].size,
                    ),
                    self.poss_short == orig.poss_short,
                    forall|j: int| 0 <= j < self.n_symbols() && j != s ==> self.poss_long@[j]
                        == orig.poss_long@[j],
                    (s as int) < self.n_symbols(),
                    t < MAX_STEPS,
                    ep == self.exchange_params@[s as int],
                    forall|j: int| 0 <= j < closes@.len()
                        ==> crate::types::valid_order(#[trigger] closes@[j], ep),
                    forall|j: int| 0 <= j < closes@.len() ==> (#[trigger] closes@[j]).order_type
                        == OrderType::CloseGridLong || closes@[j].order_type
                        == OrderType::CloseTrailingLong,
                    old(self).poss_long@[s as int].size == 0 ==> closes@.len() == 0,
                    i <= closes@.len(),
                decreases closes@.len() - i,
            {
                let o = closes[i];
                if o.qty >= 0 {
                    break;
                }
                if o.price > candle.high {
                    break;
                }
                let cur = self.poss_long[s];
                if -o.qty > cur.size {
                    break;
                }
                let ghost prev_fills = self.fills@;
                let res = self.apply_long_close_fill(s, t, o);
                proof {
                    lemma_appended_fills_ok(
                        prev_fills, self.fills@, t as int, orig.n_symbols(), orig.bot_params,
                        orig.fills@.len() as int,
                    );
                }
                if let Err(e) = res {
                    return Err(e);
                }
                i += 1;
            }
        }
        if allowed {
            let pos2 = self.poss_long[s];
            let entries = calc_entries_long(&ep, &sp, &bp, &pos2, &self.tpb_long[s]);
            if entries.len() >= LADDER_MAX_RUNGS as usize {
                return Err(BacktestError {
                    kind: RunErrorKind::LadderOverflow,
                    symbol_idx: s,
                    step: t,
                });
            }
            let mut i: usize = 0;
            while i < entries.len()
                invariant
                    orig == *old(self),
                    Backtest::same_config(orig, *self),
                    self.wf(),
                    self.exposure_ok(),
                    self.equities == orig.equities,
                    orig.fills@.is_prefix_of(self.fills@),
                    forall|k: int| orig.fills@.len() <= k < self.fills@.len()
                        ==> spec_fill_ok(
                        #[trigger] self.fills@[k], t as int, orig.n_symbols(), orig.bot_params,
                    ),
                    allowed,
                    self.poss_short == orig.poss_short,
                    forall|j: int| 0 <= j < self.n_symbols() && j != s ==> self.poss_long@[j]
                        == orig.poss_long@[j],
                    (s as int) < self.n_symbols(),
                    t < MAX_STEPS,
                    ep == self.exchange_params@[s as int],
                    forall|j: int| 0 <= j < entries@.len()
                        ==> crate::types::valid_order(#[trigger] entries@[j], ep),
                    i <= entries@.len(),
                decreases entries@.len() - i,
            {
                let o = entries[i];
                if o.qty <= 0 {
                    break;
                }
                if o.price < candle.low {
                    break;
                }
                let cur = self.poss_long[s];
                if cur.size > UNIT_CAP as i64 - o.qty {
                    break;
                }
                let ghost prev_fills = self.fills@;
                let res = self.apply_long_entry_fill(s, t, o);
                proof {
                    lemma_appended_fills_ok(
                        prev_fills, self.fills@, t as int, orig.n_symbols(), orig.bot_params,
                        orig.fills@.len() as int,
                    );
                }
                match res {
                    Err(e) => {
                        return Err(e);
                    },
                    Ok(false) => {
                        break;
                    },
                    Ok(true) => {},
                }
                i += 1;
            }
        }
        let pos3 = self.poss_long[s];
        if pos3.size == 0 {
            self.tpb_long[s] = TrailingPriceBundle::default();
        } else if was_flat {
            self.tpb_long[s] = update_tpb(TrailingPriceBundle::default(), &candle);
        } else {
            let nt = update_tpb(self.tpb_long[s], &candle);
            self.tpb_long[s] = nt;
        }
        Ok(())
    }

    /// Processes one symbol's short side for one step, mirroring the long
    /// side: close fills land where the step's low reaches the rung, entry
    /// fills where the step's high reaches the rung.
    fn process_symbol_short(&mut self, s: usize, t: usize, allowed: bool) -> (r: Result<
        (),
        BacktestError,
    >)
        requires
            old(self).wf(),
            old(self).exposure_ok(),
            (s as int) < old(self).n_symbols(),
            (t as int) < old(self).n_steps(),
            t < MAX_STEPS,
        ensures
            Backtest::same_config(*old(self), *final(self)),
            final(self).wf(),
            final(self).exposure_ok(),
            final(self).equities == old(self).equities,
            old(self).fills@.is_prefix_of(final(self).fills@),
            forall|i: int| old(self).fills@.len() <= i < final(self).fills@.len()
                ==> spec_fill_ok(
                #[trigger] final(self).fills@[i], t as int, old(self).n_symbols(),
                old(self).bot_params,
            ),
            !allowed ==> abs_i64(final(self).poss_short@[s as int].size) <= abs_i64(
                old(self).poss_short@[s as int].size,
            ),
            !allowed && old(self).poss_short@[s as int].size == 0 ==> r is Ok,
            final(self).poss_long == old(self).poss_long,
            forall|j: int| 0 <= j < old(self).n_symbols() && j != s ==> final(self).poss_short@[j]
                == old(self).poss_short@[j],
            r matches Err(e) ==> e.step == t && (e.symbol_idx as int) < old(self).n_symbols(),
    {
        let ghost orig = *self;
        let ep = self.exchange_params[s];
        let candle = self.hlcvs[s][t];
        let e0 = self.ema_short_0[s];
        let e1 = self.ema_short_1[s];
        let sp = StateParams {
            balance: self.balance,
            order_book: OrderBook { bid: candle.close, ask: candle.close },
            ema_bands: EMABands { lower: min_u64(e0, e1), upper: max_u64(e0, e1) },
        };
        let bp = self.bot_params.short;
        let pos = self.poss_short[s];
        let was_flat = pos.size == 0;
        assert(self.balance as int * bp.unstuck_loss_allowance_pct as int <= u128::MAX)
            by (nonlinear_arith)
            requires
                self.balance <= BALANCE_CAP,
                bp.unstuck_loss_allowance_pct <= FRAC_DENOM,
                FRAC_DENOM == 1_000_000u64;
        let allowed_total128: u128 = (self.balance as u128)
            * (bp.unstuck_loss_allowance_pct as u128) / (FRAC_DENOM as u128);
        assert(allowed_total128 as int <= BALANCE_CAP as int) by (nonlinear_arith)
            requires
                allowed_total128 as int == (self.balance as int
                    * bp.unstuck_loss_allowance_pct as int) / (FRAC_DENOM as int),
                self.balance <= BALANCE_CAP,
                bp.unstuck_loss_allowance_pct <= FRAC_DENOM,
                FRAC_DENOM == 1_000_000u64;
        let allowed_total: u64 = allowed_total128 as u64;
        let left: u64 = if self.unstuck_used >= allowed_total {
            0
        } else {
            allowed_total - self.unstuck_used
        };
        let unstuck = calc_unstuck_close_short(&ep, &sp, &bp, &pos, left);
        if unstuck.qty != 0 {
            if unstuck.price >= candle.low {
                proof {
                    assert(allowed_total as int == spec_limit_cost(
                        self.balance as int, bp.unstuck_loss_allowance_pct as int,
                    ));
                    if unstuck.price > pos.price {
                        let loss = spec_cost(
                            abs_i64(unstuck.qty), unstuck.price - pos.price, ep.c_mult as int,
                        );
                        assert(loss <= left);
                        assert(loss >= 0) by (nonlinear_arith)
                            requires
                                loss == (abs_i64(unstuck.qty) * (unstuck.price - pos.price)
                                    * (ep.c_mult as int)) / (FRAC_DENOM as int),
                                0 <= abs_i64(unstuck.qty),
                                0 <= unstuck.price - pos.price,
                                0 <= ep.c_mult as int,
                                FRAC_DENOM == 1_000_000u64;
                        assert(abs_i64(unstuck.qty) == unstuck.qty as int);
                        if self.unstuck_used >= allowed_total {
                            assert(loss == 0);
                        } else {
                            assert(self.unstuck_used + loss <= allowed_total as int);
                        }
                    }
                }
                let res = self.apply_short_close_fill(s, t, unstuck);
                if let Err(e) = res {
                    return Err(e);
                }
            }
        } else {
            let closes = calc_closes_short(&ep, &sp, &bp, &pos, &self.tpb_short[s]);
            proof {
                if pos.size == 0 {
                    crate::laws::lemma_flat_close_is_empty(ep, sp, bp, pos, self.tpb_short@[s as int], 0);
                    assert(crate::closes::spec_next_close_short(
                        ep, sp, bp, pos, self.tpb_short@[s as int],
                    ).qty == 0);
                    assert(closes@.len() == 0);
                }
            }
            if closes.len() >= LADDER_MAX_RUNGS as usize {
                return Err(BacktestError {
                    kind: RunErrorKind::LadderOverflow,
                    symbol_idx: s,
                    step: t,
                });
            }
            let mut i: usize = 0;
            while i < closes.len()
                invariant
                    orig == *old(self),
                    Backtest::same_config(orig, *self),
                    self.wf(),
                    self.exposure_ok(),
                    self.equities == orig.equities,
                    orig.fills@.is_prefix_of(self.fills@),
                    forall|k: int| orig.fills@.len() <= k < self.fills@.len()
                        ==> spec_fill_ok(
                        #[trigger] self.fills@[k], t as int, orig.n_symbols(), orig.bot_params,
                    ),
                    abs_i64(self.poss_short@[s as int].size) <= abs_i64(
                        orig.poss_short@[s as int].size,
                    ),
                    self.poss_long == orig.poss_long,
                    forall|j: int| 0 <= j < self.n_symbols() && j != s ==> self.poss_short@[j]
                        == orig.poss_short@[j],
                    (s as int) < self.n_symbols(),
                    t < MAX_STEPS,
                    ep == self.exchange_params@[s as int],
                    forall|j: int| 0 <= j < closes@.len()
                        ==> crate::types::valid_order(#[trigger] closes@[j], ep),
                    forall|j: int| 0 <= j < closes@.len() ==> (#[trigger] closes@[j]).order_type
                        == OrderType::CloseGridShort || closes@[j].order_type
                        == OrderType::CloseTrailingShort,
                    old(self).poss_short@[s as int].size == 0 ==> closes@.len() == 0,
                    i <= closes@.len(),
                decreases closes@.len() - i,
            {
                let o = closes[i];
                if o.qty <= 0 {
                    break;
                }
                if o.price < candle.low {
                    break;
                }
                let cur = self.poss_short[s];
                if o.qty > -cur.size {
                    break;
                }
                let ghost prev_fills = self.fills@;
                let res = self.apply_short_close_fill(s, t, o);
                proof {
                    lemma_appended_fills_ok(
                        prev_fills, self.fills@, t as int, orig.n_symbols(), orig.bot_params,
                        orig.fills@.len() as int,
                    );
                }
                if let Err(e) = res {
                    return Err(e);
                }
                i += 1;
            }
        }
        if allowed {
            let pos2 = self.poss_short[s];
            let entries = calc_entries_short(&ep, &sp, &bp, &pos2, &self.tpb_short[s]);
            if entries.len() >= LADDER_MAX_RUNGS as usize {
                return Err(BacktestError {
                    kind: RunErrorKind::LadderOverflow,
                    symbol_idx: s,
                    step: t,
                });
            }
            let mut i: usize = 0;
            while i < entries.len()
                invariant
                    orig == *old(self),
                    Backtest::same_config(orig, *self),
                    self.wf(),
                    self.exposure_ok(),
                    self.equities == orig.equities,
                    orig.fills@.is_prefix_of(self.fills@),
                    forall|k: int| orig.fills@.len() <= k < self.fills@.len()
                        ==> spec_fill_ok(
                        #[trigger] self.fills@[k], t as int, orig.n_symbols(), orig.bot_params,
                    ),
                    allowed,
                    self.poss_long == orig.poss_long,
                    forall|j: int| 0 <= j < self.n_symbols() && j != s ==> self.poss_short@[j]
                        == orig.poss_short@[j],
                    (s as int) < self.n_symbols(),
                    t < MAX_STEPS,
                    ep == self.exchange_params@[s as int],
                    forall|j: int| 0 <= j < entries@.len()
                        ==> crate::types::valid_order(#[trigger] entries@[j], ep),
                    i <= entries@.len(),
                decreases entries@.len() - i,
            {
                let o = entries[i];
                if o.qty >= 0 {
                    break;
                }
                if o.price > candle.high {
                    break;
                }
                let cur = self.poss_short[s];
                if -cur.size > UNIT_CAP as i64 + o.qty {
                    break;
                }
                let ghost prev_fills = self.fills@;
                let res = self.apply_short_entry_fill(s, t, o);
                proof {
                    lemma_appended_fills_ok(
                        prev_fills, self.fills@, t as int, orig.n_symbols(), orig.bot_params,
                        orig.fills@.len() as int,
                    );
                }
                match res {
                    Err(e) => {
                        return Err(e);
                    },
                    Ok(false) => {
                        break;
                    },
                    Ok(true) => {},
                }
                i += 1;
            }
        }
        let pos3 = self.poss_short[s];
        if pos3.size == 0 {
            self.tpb_short[s] = TrailingPriceBundle::default();
        } else if was_flat {
            self.tpb_short[s] = update_tpb(TrailingPriceBundle::default(), &candle);
        } else {
            let nt = update_tpb(self.tpb_short[s], &candle);
            self.tpb_short[s] = nt;
        }
        Ok(())
    }

    /// Advances the simulation one step: refreshes EMAs, resolves admission
    /// control, processes every symbol's long then short side in fixed
    /// index order, and records the step's mark-to-market equity. The
    /// exposure invariant holds after every step.
    pub fn step(&mut self, t: usize) -> (r: Result<(), BacktestError>)
        requires
            old(self).wf(),
            old(self).exposure_ok(),
            (t as int) < old(self).n_steps(),
            t < MAX_STEPS,
        ensures
            Backtest::same_config(*old(self), *final(self)),
            final(self).wf(),
            final(self).exposure_ok(),
            old(self).fills@.is_prefix_of(final(self).fills@),
            forall|i: int| old(self).fills@.len() <= i < final(self).fills@.len()
                ==> spec_fill_ok(
                #[trigger] final(self).fills@[i], t as int, old(self).n_symbols(),
                old(self).bot_params,
            ),
            r is Ok ==> final(self).equities@.len() == old(self).equities@.len() + 1
                && final(self).equities@.drop_last() == old(self).equities@
                && final(self).equities@.last() as int == final(self).spec_equity(t as int),
            r matches Err(e) ==> e.step == t && (e.symbol_idx as int) < old(self).n_symbols(),
            old(self).spec_idle() ==> r is Ok && final(self).spec_idle(),
    {
        let ghost orig = *self;
        let (allow_long, allow_short) = self.compute_eligibility(t);
        let n = self.poss_long.len();
        proof {
            if orig.spec_idle() {
                lemma_count_open_flat(orig.poss_long@, n as int);
                lemma_count_open_flat(orig.poss_short@, n as int);
                lemma_count_true_all_false(allow_long@, n as int);
                lemma_count_true_all_false(allow_short@, n as int);
            }
        }
        let mut s: usize = 0;
        while s < n
            invariant
                orig == *old(self),
                Backtest::same_config(orig, *self),
                self.wf(),
                self.exposure_ok(),
                self.equities == orig.equities,
                orig.fills@.is_prefix_of(self.fills@),
                forall|k: int| orig.fills@.len() <= k < self.fills@.len()
                    ==> spec_fill_ok(
                    #[trigger] self.fills@[k], t as int, orig.n_symbols(), orig.bot_params,
                ),
                n == self.n_symbols(),
                (t as int) < self.n_steps(),
                t < MAX_STEPS,
                allow_long@.len() == n,
                allow_short@.len() == n,
                orig.spec_idle() ==> forall|i: int| 0 <= i < n
                    ==> (#[trigger] self.poss_long@[i]).size == 0,
                orig.spec_idle() ==> forall|i: int| 0 <= i < n
                    ==> (#[trigger] self.poss_short@[i]).size == 0,
                orig.spec_idle() ==> forall|i: int| 0 <= i < n
                    ==> !(#[trigger] allow_long@[i]),
                orig.spec_idle() ==> forall|i: int| 0 <= i < n
                    ==> !(#[trigger] allow_short@[i]),
                s <= n,
            decreases n - s,
        {
            self.update_emas_for(s, t);
            let ghost prev_fills = self.fills@;
            let res = self.process_symbol_long(s, t, allow_long[s]);
            proof {
                lemma_appended_fills_ok_range(
                    prev_fills, self.fills@, t as int, orig.n_symbols(), orig.bot_params,
                    orig.fills@.len() as int,
                );
            }
            if let Err(e) = res {
                return Err(e);
            }
            let ghost prev_fills = self.fills@;
            let res = self.process_symbol_short(s, t, allow_short[s]);
            proof {
                lemma_appended_fills_ok_range(
                    prev_fills, self.fills@, t as int, orig.n_symbols(), orig.bot_params,
                    orig.fills@.len() as int,
                );
            }
            if let Err(e) = res {
                return Err(e);
            }
            s += 1;
        }
        proof {
            if orig.spec_idle() {
                lemma_sum_upnl_flat(*self, t as int, self.n_symbols());
                assert(self.spec_equity(t as int) == self.balance as int);
            }
        }
        let eq = match self.compute_equity(t) {
            Ok(v) => v,
            Err(e) => {
                return Err(e);
            },
        };
        let ghost pre = *self;
        self.equities.push(eq);
        proof {
            assert(self.equities@.drop_last() =~= pre.equities@);
            lemma_sum_upnl_agree(pre, *self, t as int, pre.n_symbols());
            assert(self.spec_equity(t as int) == pre.spec_equity(t as int));
        }
        Ok(())
    }

    /// Replays the whole series: one `step` per time index, in order. On
    /// success the equity sequence holds exactly one entry per step, and
    /// the exposure invariant holds of the final state (having held after
    /// every step). A fatal condition aborts the run with its symbol and
    /// step.
    pub fn run(&mut self) -> (r: Result<(), BacktestError>)
        requires
            old(self).wf(),
            old(self).exposure_ok(),
            old(self).equities@.len() == 0,
            old(self).fills@.len() == 0,
        ensures
            Backtest::same_config(*old(self), *final(self)),
            final(self).wf(),
            final(self).exposure_ok(),
            old(self).fills@.is_prefix_of(final(self).fills@),
            forall|i: int| 0 <= i < final(self).fills@.len() ==> spec_fill_sound(
                #[trigger] final(self).fills@[i], old(self).n_symbols(), old(self).bot_params,
            ) && (final(self).fills@[i].index as int) < old(self).n_steps(),
            forall|i: int, j: int| 0 <= i <= j < final(self).fills@.len()
                ==> (#[trigger] final(self).fills@[i]).index
                <= (#[trigger] final(self).fills@[j]).index,
            r is Ok ==> final(self).equities@.len() == old(self).n_steps(),
            r matches Err(e) ==> (e.step as int) < old(self).n_steps() && (e.symbol_idx as int)
                < old(self).n_symbols(),
            old(self).spec_idle() ==> r is Ok,
    {
        let ghost orig = *self;
        let n_steps = self.hlcvs[0].len();
        let mut t: usize = 0;
        while t < n_steps
            invariant
                orig == *old(self),
                Backtest::same_config(orig, *self),
                self.wf(),
                self.exposure_ok(),
                n_steps == self.n_steps(),
                n_steps == orig.n_steps(),
                orig.fills@.is_prefix_of(self.fills@),
                forall|i: int| 0 <= i < self.fills@.len() ==> spec_fill_sound(
                    #[trigger] self.fills@[i], orig.n_symbols(), orig.bot_params,
                ) && (self.fills@[i].index as int) < t,
                forall|i: int, j: int| 0 <= i <= j < self.fills@.len()
                    ==> (#[trigger] self.fills@[i]).index <= (#[trigger] self.fills@[j]).index,
                self.equities@.len() == t,
                orig.spec_idle() ==> self.spec_idle(),
                t <= n_steps,
            decreases n_steps - t,
        {
            let ghost prev_fills = self.fills@;
            let res = self.step(t);
            proof {
                assert forall|i: int| 0 <= i < self.fills@.len() implies spec_fill_sound(
                    #[trigger] self.fills@[i], orig.n_symbols(), orig.bot_params,
                ) && (self.fills@[i].index as int) < t + 1 by {
                    if i < prev_fills.len() {
                        assert(self.fills@.subrange(0, prev_fills.len() as int)[i]
                            == self.fills@[i]);
                        assert(prev_fills[i] == self.fills@[i]);
                    } else {
                        assert(spec_fill_ok(
                            self.fills@[i], t as int, orig.n_symbols(), orig.bot_params,
                        ));
                    }
                }
                assert forall|i: int, j: int| 0 <= i <= j < self.fills@.len() implies
                    (#[trigger] self.fills@[i]).index <= (#[trigger] self.fills@[j]).index by {
                    if j < prev_fills.len() {
                        assert(self.fills@.subrange(0, prev_fills.len() as int)[i]
                            == self.fills@[i]);
                        assert(self.fills@.subrange(0, prev_fills.len() as int)[j]
                            == self.fills@[j]);
                        assert(prev_fills[i] == self.fills@[i]);
                        assert(prev_fills[j] == self.fills@[j]);
                    } else if i < prev_fills.len() {
                        assert(self.fills@.subrange(0, prev_fills.len() as int)[i]
                            == self.fills@[i]);
                        assert(prev_fills[i] == self.fills@[i]);
                        assert((self.fills@[i].index as int) < t);
                        assert(spec_fill_ok(
                            self.fills@[j], t as int, orig.n_symbols(), orig.bot_params,
                        ));
                    } else {
                        assert(spec_fill_ok(
                            self.fills@[i], t as int, orig.n_symbols(), orig.bot_params,
                        ));
                        assert(spec_fill_ok(
                            self.fills@[j], t as int, orig.n_symbols(), orig.bot_params,
                        ));
                    }
                }
            }
            if let Err(e) = res {
                return Err(e);
            }
            t += 1;
        }
        Ok(())
    }
}

/// With every position flat there is no unrealized pnl.
proof fn lemma_sum_upnl_flat(b: Backtest, t: int, n: int)
    requires
        0 <= n <= b.poss_long@.len(),
        n <= b.poss_short@.len(),
        forall|i: int| 0 <= i < n ==> (#[trigger] b.poss_long@[i]).size == 0,
        forall|i: int| 0 <= i < n ==> (#[trigger] b.poss_short@[i]).size == 0,
    ensures
        b.sum_upnl(t, n) == 0,
    decreases n,
{
    if n > 0 {
        lemma_sum_upnl_flat(b, t, n - 1);
    }
}

/// Two states that agree on positions, exchange constraints and price data
/// have the same unrealized pnl, whatever their histories hold.
proof fn lemma_sum_upnl_agree(a: Backtest, b: Backtest, t: int, n: int)
    requires
        a.poss_long == b.poss_long,
        a.poss_short == b.poss_short,
        a.exchange_params == b.exchange_params,
        a.hlcvs == b.hlcvs,
    ensures
        a.sum_upnl(t, n) == b.sum_upnl(t, n),
    decreases n,
{
    if n > 0 {
        lemma_sum_upnl_agree(a, b, t, n - 1);
    }
}

/// The magnitude of a position's unrealized pnl is bounded by the largest
/// representable single-position exposure.
proof fn lemma_upnl_bound(pos: Position, ep: ExchangeParams, close: int)
    requires
        abs_i64(pos.size) <= UNIT_CAP,
        pos.price <= UNIT_CAP,
        ep.c_mult <= 100_000_000,
        0 <= close <= UNIT_CAP,
    ensures
        -POS_EXPOSURE_CAP <= spec_upnl_long(pos, ep, close) <= POS_EXPOSURE_CAP,
        -POS_EXPOSURE_CAP <= spec_upnl_short(pos, ep, close) <= POS_EXPOSURE_CAP,
{
    let diff_up = if close >= pos.price { close - pos.price } else { pos.price - close };
    assert(0 <= (abs_i64(pos.size) * diff_up * (ep.c_mult as int)) / (FRAC_DENOM as int)
        <= POS_EXPOSURE_CAP) by (nonlinear_arith)
        requires
            0 <= abs_i64(pos.size) <= UNIT_CAP,
            0 <= diff_up <= UNIT_CAP,
            0 <= ep.c_mult as int <= 100_000_000,
            FRAC_DENOM == 1_000_000u64,
            POS_EXPOSURE_CAP == 100_000_000_000_000_000_000_000_000u128,
            UNIT_CAP == 1_000_000_000_000u64;
    assert(pos.size > 0 ==> pos.size as int == abs_i64(pos.size));
}

} // verus!
