//! Parameter and state value types: exchange constraints, market/account
//! snapshots, strategy configuration, positions, trailing extrema, orders and
//! fills, together with their well-formedness conditions.

use vstd::prelude::*;

use crate::maths::{BALANCE_CAP, CMULT_CAP, FRAC_DENOM, UNIT_CAP, WEL_CAP};

verus! {

/// Exchange constraints: rounding granularity and minimum order size.
/// `c_mult` is the contract value multiplier, a fraction scaled by
/// `FRAC_DENOM`.
#[derive(Clone, Copy, PartialEq, Eq, Structural, Debug)]
pub struct ExchangeParams {
    pub qty_step: u64,
    pub price_step: u64,
    pub min_qty: u64,
    pub min_cost: u64,
    pub c_mult: u64,
}

impl ExchangeParams {
    /// All exchange constraints are positive and within the supported range.
    pub open spec fn wf(&self) -> bool {
        &&& 1 <= self.qty_step <= UNIT_CAP
        &&& 1 <= self.price_step <= UNIT_CAP
        &&& 1 <= self.min_qty <= UNIT_CAP
        &&& 1 <= self.min_cost <= BALANCE_CAP
        &&& 1 <= self.c_mult <= CMULT_CAP
    }

    /// Runtime check of `wf`, for callers that receive unvalidated input.
    pub fn validate(&self) -> (r: bool)
        ensures
            r == self.wf(),
    {
        1 <= self.qty_step && self.qty_step <= UNIT_CAP
            && 1 <= self.price_step && self.price_step <= UNIT_CAP
            && 1 <= self.min_qty && self.min_qty <= UNIT_CAP
            && 1 <= self.min_cost && self.min_cost <= BALANCE_CAP
            && 1 <= self.c_mult && self.c_mult <= CMULT_CAP
    }
}

/// Best bid and ask of the synthesized order book.
#[derive(Clone, Copy, PartialEq, Eq, Structural, Debug)]
pub struct OrderBook {
    pub bid: u64,
    pub ask: u64,
}

/// Lower and upper EMA bands of the market snapshot.
#[derive(Clone, Copy, PartialEq, Eq, Structural, Debug)]
pub struct EMABands {
    pub lower: u64,
    pub upper: u64,
}

/// One instant's observable market/account snapshot; immutable per decision.
#[derive(Clone, Copy, PartialEq, Eq, Structural, Debug)]
pub struct StateParams {
    pub balance: u64,
    pub order_book: OrderBook,
    pub ema_bands: EMABands,
}

impl StateParams {
    /// Balance and all snapshot prices are positive and within range.
    pub open spec fn wf(&self) -> bool {
        &&& self.balance <= BALANCE_CAP
        &&& 1 <= self.order_book.bid <= UNIT_CAP
        &&& 1 <= self.order_book.ask <= UNIT_CAP
        &&& 1 <= self.ema_bands.lower <= UNIT_CAP
        &&& 1 <= self.ema_bands.upper <= UNIT_CAP
    }

    /// Runtime check of `wf`, for callers that receive unvalidated input.
    pub fn validate(&self) -> (r: bool)
        ensures
            r == self.wf(),
    {
        self.balance <= BALANCE_CAP
            && 1 <= self.order_book.bid && self.order_book.bid <= UNIT_CAP
            && 1 <= self.order_book.ask && self.order_book.ask <= UNIT_CAP
            && 1 <= self.ema_bands.lower && self.ema_bands.lower <= UNIT_CAP
            && 1 <= self.ema_bands.upper && self.ema_bands.upper <= UNIT_CAP
    }
}

/// Strategy configuration for one side (long or short). All `*_pct`,
/// `*_markup*`, `*_ratio` and `*_dist` fields are fractions scaled by
/// `FRAC_DENOM`; `entry_grid_double_down_factor` and
/// `entry_grid_spacing_weight` are multipliers on the same scale.
#[derive(Clone, Copy, PartialEq, Eq, Structural, Debug)]
pub struct BotParams {
    pub close_grid_markup_range: u64,
    pub close_grid_min_markup: u64,
    pub close_grid_qty_pct: u64,
    pub close_trailing_grid_ratio: i64,
    pub close_trailing_qty_pct: u64,
    pub close_trailing_retracement_pct: u64,
    pub close_trailing_threshold_pct: u64,
    pub entry_grid_double_down_factor: u64,
    pub entry_grid_spacing_weight: u64,
    pub entry_grid_spacing_pct: u64,
    pub entry_initial_ema_dist: i64,
    pub entry_initial_qty_pct: u64,
    pub entry_trailing_grid_ratio: i64,
    pub entry_trailing_retracement_pct: u64,
    pub entry_trailing_threshold_pct: u64,
    pub ema_span_0: u64,
    pub ema_span_1: u64,
    pub n_positions: usize,
    pub total_wallet_exposure_limit: u64,
    pub wallet_exposure_limit: u64,
    pub unstuck_close_pct: u64,
    pub unstuck_ema_dist: i64,
    pub unstuck_loss_allowance_pct: u64,
    pub unstuck_threshold: u64,
}

/// Largest supported multiplier (double-down factor, spacing weight):
/// one hundred, on the `FRAC_DENOM` scale.
pub const MULT_CAP: u64 = 100_000_000;

impl BotParams {
    /// Percentages are fractions in `[0, 1]`, signed distances and blend
    /// ratios lie in `[-1, 1]`, multipliers and exposure limits are within
    /// their supported caps, and EMA spans are positive.
    pub open spec fn wf(&self) -> bool {
        &&& self.close_grid_markup_range <= FRAC_DENOM
        &&& self.close_grid_min_markup <= FRAC_DENOM
        &&& self.close_grid_qty_pct <= FRAC_DENOM
        &&& -(FRAC_DENOM as int) <= self.close_trailing_grid_ratio <= FRAC_DENOM
        &&& self.close_trailing_qty_pct <= FRAC_DENOM
        &&& self.close_trailing_retracement_pct <= FRAC_DENOM
        &&& self.close_trailing_threshold_pct <= FRAC_DENOM
        &&& self.entry_grid_double_down_factor <= MULT_CAP
        &&& self.entry_grid_spacing_weight <= MULT_CAP
        &&& self.entry_grid_spacing_pct <= FRAC_DENOM
        &&& -(FRAC_DENOM as int) <= self.entry_initial_ema_dist <= FRAC_DENOM
        &&& self.entry_initial_qty_pct <= FRAC_DENOM
        &&& -(FRAC_DENOM as int) <= self.entry_trailing_grid_ratio <= FRAC_DENOM
        &&& self.entry_trailing_retracement_pct <= FRAC_DENOM
        &&& self.entry_trailing_threshold_pct <= FRAC_DENOM
        &&& 1 <= self.ema_span_0 <= 1_000_000
        &&& 1 <= self.ema_span_1 <= 1_000_000
        &&& self.n_positions <= 4096
        &&& self.total_wallet_exposure_limit <= WEL_CAP
        &&& self.wallet_exposure_limit <= WEL_CAP
        &&& self.unstuck_close_pct <= FRAC_DENOM
        &&& -(FRAC_DENOM as int) <= self.unstuck_ema_dist <= FRAC_DENOM
        &&& self.unstuck_loss_allowance_pct <= FRAC_DENOM
        &&& self.unstuck_threshold <= FRAC_DENOM
    }

    /// Runtime check of `wf`: configuration is range-checked once at the
    /// boundary, never re-validated inside the decision functions.
    pub fn validate(&self) -> (r: bool)
        ensures
            r == self.wf(),
    {
        self.close_grid_markup_range <= FRAC_DENOM
            && self.close_grid_min_markup <= FRAC_DENOM
            && self.close_grid_qty_pct <= FRAC_DENOM
            && -(FRAC_DENOM as i64) <= self.close_trailing_grid_ratio
            && self.close_trailing_grid_ratio <= FRAC_DENOM as i64
            && self.close_trailing_qty_pct <= FRAC_DENOM
            && self.close_trailing_retracement_pct <= FRAC_DENOM
            && self.close_trailing_threshold_pct <= FRAC_DENOM
            && self.entry_grid_double_down_factor <= MULT_CAP
            && self.entry_grid_spacing_weight <= MULT_CAP
            && self.entry_grid_spacing_pct <= FRAC_DENOM
            && -(FRAC_DENOM as i64) <= self.entry_initial_ema_dist
            && self.entry_initial_ema_dist <= FRAC_DENOM as i64
            && self.entry_initial_qty_pct <= FRAC_DENOM
            && -(FRAC_DENOM as i64) <= self.entry_trailing_grid_ratio
            && self.entry_trailing_grid_ratio <= FRAC_DENOM as i64
            && self.entry_trailing_retracement_pct <= FRAC_DENOM
            && self.entry_trailing_threshold_pct <= FRAC_DENOM
            && 1 <= self.ema_span_0 && self.ema_span_0 <= 1_000_000
            && 1 <= self.ema_span_1 && self.ema_span_1 <= 1_000_000
            && self.n_positions <= 4096
            && self.total_wallet_exposure_limit <= WEL_CAP
            && self.wallet_exposure_limit <= WEL_CAP
            && self.unstuck_close_pct <= FRAC_DENOM
            && -(FRAC_DENOM as i64) <= self.unstuck_ema_dist
            && self.unstuck_ema_dist <= FRAC_DENOM as i64
            && self.unstuck_loss_allowance_pct <= FRAC_DENOM
            && self.unstuck_threshold <= FRAC_DENOM
    }
}

/// Strategy configuration for both sides.
#[derive(Clone, Copy, PartialEq, Eq, Structural, Debug)]
pub struct BotParamsPair {
    pub long: BotParams,
    pub short: BotParams,
}

impl BotParamsPair {
    pub open spec fn wf(&self) -> bool {
        self.long.wf() && self.short.wf()
    }

    pub fn validate(&self) -> (r: bool)
        ensures
            r == self.wf(),
    {
        self.long.validate() && self.short.validate()
    }
}

/// An open position: `size` is signed (positive long exposure, negative
/// short), `price` is the volume-weighted average entry price. A flat
/// position has `size == 0`, and its `price` is meaningless.
#[derive(Clone, Copy, PartialEq, Eq, Structural, Debug)]
pub struct Position {
    pub size: i64,
    pub price: u64,
}

/// Magnitude of a signed quantity, as an `int`.
pub open spec fn abs_i64(x: i64) -> int {
    if x >= 0 { x as int } else { -(x as int) }
}

impl Position {
    /// Size magnitude and price are within range; an open position has a
    /// positive price and a size aligned to the exchange's quantity step.
    pub open spec fn wf(&self, ep: ExchangeParams) -> bool {
        &&& abs_i64(self.size) <= UNIT_CAP
        &&& self.price <= UNIT_CAP
        &&& self.size != 0 ==> 1 <= self.price
        &&& abs_i64(self.size) % (ep.qty_step as int) == 0
    }

    /// Runtime check of `wf`, for callers that receive unvalidated input.
    pub fn validate(&self, ep: &ExchangeParams) -> (r: bool)
        requires
            ep.wf(),
        ensures
            r == self.wf(*ep),
    {
        let mag: u64 = if self.size >= 0 {
            self.size as u64
        } else if self.size == i64::MIN {
            return false;
        } else {
            (-self.size) as u64
        };
        mag <= UNIT_CAP && self.price <= UNIT_CAP && (self.size == 0 || 1 <= self.price)
            && mag % ep.qty_step == 0
    }
}

/// Price extrema carried across steps by the caller: `min_since_open` /
/// `max_since_open` since the position segment opened, `max_since_min` /
/// `min_since_max` since the most recent opposing extreme. The sentinel
/// defaults (`u64::MAX` for minima, `0` for maxima) mean "no extreme seen
/// yet".
#[derive(Clone, Copy, PartialEq, Eq, Structural, Debug)]
pub struct TrailingPriceBundle {
    pub min_since_open: u64,
    pub max_since_open: u64,
    pub min_since_max: u64,
    pub max_since_min: u64,
}

impl Default for TrailingPriceBundle {
    /// The reset state: no extremes seen yet.
    fn default() -> (r: Self)
        ensures
            r.min_since_open == u64::MAX,
            r.max_since_open == 0,
            r.min_since_max == u64::MAX,
            r.max_since_min == 0,
    {
        TrailingPriceBundle {
            min_since_open: u64::MAX,
            max_since_open: 0,
            min_since_max: u64::MAX,
            max_since_min: 0,
        }
    }
}

/// The tagged kind of an emitted order.
#[derive(Clone, Copy, PartialEq, Eq, Structural, Debug)]
pub enum OrderType {
    Empty,
    EntryInitialLong,
    EntryGridLong,
    EntryTrailingLong,
    CloseGridLong,
    CloseTrailingLong,
    CloseUnstuckLong,
    EntryInitialShort,
    EntryGridShort,
    EntryTrailingShort,
    CloseGridShort,
    CloseTrailingShort,
    CloseUnstuckShort,
}

impl OrderType {
    /// Canonical name of the order kind.
    pub fn name(&self) -> (r: String)
        ensures
            self is Empty ==> r@ == "empty"@,
            self is EntryInitialLong ==> r@ == "entry_initial_long"@,
            self is EntryGridLong ==> r@ == "entry_grid_long"@,
            self is EntryTrailingLong ==> r@ == "entry_trailing_long"@,
            self is CloseGridLong ==> r@ == "close_grid_long"@,
            self is CloseTrailingLong ==> r@ == "close_trailing_long"@,
            self is CloseUnstuckLong ==> r@ == "close_unstuck_long"@,
            self is EntryInitialShort ==> r@ == "entry_initial_short"@,
            self is EntryGridShort ==> r@ == "entry_grid_short"@,
            self is EntryTrailingShort ==> r@ == "entry_trailing_short"@,
            self is CloseGridShort ==> r@ == "close_grid_short"@,
            self is CloseTrailingShort ==> r@ == "close_trailing_short"@,
            self is CloseUnstuckShort ==> r@ == "close_unstuck_short"@,
    {
        match self {
            OrderType::Empty => "empty".to_string(),
            OrderType::EntryInitialLong => "entry_initial_long".to_string(),
            OrderType::EntryGridLong => "entry_grid_long".to_string(),
            OrderType::EntryTrailingLong => "entry_trailing_long".to_string(),
            OrderType::CloseGridLong => "close_grid_long".to_string(),
            OrderType::CloseTrailingLong => "close_trailing_long".to_string(),
            OrderType::CloseUnstuckLong => "close_unstuck_long".to_string(),
            OrderType::EntryInitialShort => "entry_initial_short".to_string(),
            OrderType::EntryGridShort => "entry_grid_short".to_string(),
            OrderType::EntryTrailingShort => "entry_trailing_short".to_string(),
            OrderType::CloseGridShort => "close_grid_short".to_string(),
            OrderType::CloseTrailingShort => "close_trailing_short".to_string(),
            OrderType::CloseUnstuckShort => "close_unstuck_short".to_string(),
        }
    }
}

/// A candidate order: signed quantity (positive buys, negative sells),
/// rounded to `qty_step`, and a price rounded to `price_step`. A quantity of
/// zero signals "no order".
#[derive(Clone, Copy, PartialEq, Eq, Structural, Debug)]
pub struct Order {
    pub qty: i64,
    pub price: u64,
    pub order_type: OrderType,
}

impl Order {
    /// The empty order: no action.
    pub fn empty() -> (r: Order)
        ensures
            r == (Order { qty: 0, price: 0, order_type: OrderType::Empty }),
            r.qty == 0,
            r.price == 0,
            r.order_type == OrderType::Empty,
    {
        Order { qty: 0, price: 0, order_type: OrderType::Empty }
    }
}

/// Notional cost of `qty` base units at `price`, under contract multiplier
/// `c_mult`: `qty * price * c_mult / FRAC_DENOM`, floored.
pub open spec fn spec_cost(qty: int, price: int, c_mult: int) -> int {
    (qty * price * c_mult) / (FRAC_DENOM as int)
}

/// Notional exposure allowed by `balance` under the fractional limit `wel`:
/// `balance * wel / FRAC_DENOM`, floored.
pub open spec fn spec_limit_cost(balance: int, wel: int) -> int {
    (balance * wel) / (FRAC_DENOM as int)
}

/// Computes `spec_cost(qty, price, c_mult)` exactly; the 128-bit result never
/// overflows for in-range arguments.
pub fn calc_cost(qty: u64, price: u64, c_mult: u64) -> (r: u128)
    requires
        qty <= UNIT_CAP,
        price <= UNIT_CAP,
        1 <= c_mult <= CMULT_CAP,
    ensures
        r == spec_cost(qty as int, price as int, c_mult as int),
{
    assert(qty as int * price as int <= u128::MAX) by (nonlinear_arith)
        requires
            qty <= UNIT_CAP,
            price <= UNIT_CAP;
    assert(qty as int * price as int * c_mult as int <= u128::MAX) by (nonlinear_arith)
        requires
            qty <= UNIT_CAP,
            price <= UNIT_CAP,
            c_mult <= CMULT_CAP;
    let p: u128 = (qty as u128) * (price as u128) * (c_mult as u128);
    p / (FRAC_DENOM as u128)
}

/// Computes `spec_limit_cost(balance, wel)` exactly.
pub fn calc_limit_cost(balance: u64, wel: u64) -> (r: u128)
    requires
        balance <= BALANCE_CAP,
        wel <= WEL_CAP,
    ensures
        r == spec_limit_cost(balance as int, wel as int),
        r <= EXPOSURE_CAP,
{
    assert(balance as int * wel as int <= u128::MAX) by (nonlinear_arith)
        requires
            balance <= BALANCE_CAP,
            wel <= WEL_CAP;
    let p: u128 = (balance as u128) * (wel as u128);
    let r = p / (FRAC_DENOM as u128);
    assert(p as int / (FRAC_DENOM as int) <= EXPOSURE_CAP as int) by (nonlinear_arith)
        requires
            p as int == balance as int * wel as int,
            balance <= BALANCE_CAP,
            wel <= WEL_CAP;
    r
}

/// Largest notional exposure a well-formed balance and limit can allow:
/// `BALANCE_CAP * WEL_CAP / FRAC_DENOM`.
pub const EXPOSURE_CAP: u128 = 100_000_000_000_000_000;

/// The rounding invariant every emitted order satisfies: quantity aligned to
/// `qty_step`, price aligned to `price_step`, and any non-empty order at
/// least `min_qty` in size and `min_cost` in notional, with both within the
/// supported range.
pub open spec fn valid_order(o: Order, ep: ExchangeParams) -> bool {
    &&& abs_i64(o.qty) % (ep.qty_step as int) == 0
    &&& o.price % ep.price_step == 0
    &&& o.qty != 0 ==> {
        &&& abs_i64(o.qty) >= ep.min_qty
        &&& abs_i64(o.qty) <= UNIT_CAP
        &&& 1 <= o.price <= UNIT_CAP
        &&& spec_cost(abs_i64(o.qty), o.price as int, ep.c_mult as int) >= ep.min_cost
    }
    &&& o.qty == 0 ==> o.price == 0 && o.order_type == OrderType::Empty
}

/// One simulated execution: step index, symbol index, realized pnl and fee,
/// resulting balance, the filled quantity and price, and the post-fill
/// position. Append-only; never mutated after creation.
#[derive(Clone, Copy, PartialEq, Eq, Structural, Debug)]
pub struct Fill {
    pub index: usize,
    pub symbol_idx: usize,
    pub pnl: i64,
    pub fee_paid: i64,
    pub balance: u64,
    pub fill_qty: i64,
    pub fill_price: u64,
    pub position_size: i64,
    pub position_price: u64,
    pub order_type: OrderType,
}

/// Backtest-wide configuration. `maker_fee` is a fraction scaled by
/// `FRAC_DENOM`; `symbols` names the traded symbols, in the fixed order the
/// engine iterates them.
#[derive(Clone, PartialEq, Eq, Debug)]
pub struct BacktestParams {
    pub starting_balance: u64,
    pub maker_fee: u64,
    pub symbols: Vec<String>,
}

impl BacktestParams {
    pub open spec fn wf(&self) -> bool {
        &&& 1 <= self.starting_balance <= BALANCE_CAP
        &&& self.maker_fee <= FRAC_DENOM
    }

    pub fn validate(&self) -> (r: bool)
        ensures
            r == self.wf(),
    {
        1 <= self.starting_balance && self.starting_balance <= BALANCE_CAP
            && self.maker_fee <= FRAC_DENOM
    }
}

/// One step of one symbol's OHLCV series, in base price units.
#[derive(Clone, Copy, PartialEq, Eq, Structural, Debug)]
pub struct Candle {
    pub high: u64,
    pub low: u64,
    pub close: u64,
    pub volume: u64,
}

impl Candle {
    /// Prices are positive, ordered (`low <= close <= high`) and in range;
    /// volume is in range.
    pub open spec fn wf(&self) -> bool {
        &&& 1 <= self.low <= UNIT_CAP
        &&& self.low <= self.close <= self.high
        &&& self.high <= UNIT_CAP
        &&& self.volume <= UNIT_CAP
    }

    pub fn validate(&self) -> (r: bool)
        ensures
            r == self.wf(),
    {
        1 <= self.low && self.low <= UNIT_CAP && self.low <= self.close
            && self.close <= self.high && self.high <= UNIT_CAP && self.volume <= UNIT_CAP
    }
}

/// Summary performance metrics over a completed backtest. All values are
/// fractions scaled by `FRAC_DENOM`; signed metrics are truncated toward
/// zero.
#[derive(Clone, Copy, PartialEq, Eq, Structural, Debug)]
pub struct Analysis {
    pub adg: i64,
    pub mdg: i64,
    pub sharpe_ratio: i64,
    pub drawdown_worst: u64,
    pub equity_balance_diff_mean: u64,
    pub equity_balance_diff_max: u64,
    pub loss_profit_ratio: u64,
}

} // verus!
