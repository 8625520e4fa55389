//! Close order generators: grid take-profit rungs, trailing closes, the
//! risk-capped unstuck close, the next-close selector, and the close ladder
//! builder, for both sides.
//!
//! Close quantities are negative for long positions (sells) and positive for
//! short positions (buys). A flat position always yields the empty order,
//! and no close ever exceeds the open position size.

use vstd::prelude::*;

use crate::entries::{
    empty_order, spec_empty_order, spec_max, spec_min, spec_pos_exposure,
};
use crate::maths::{
    lemma_cropped_qty_cost_bound, max_u64, min_u64, round_dn, round_up, spec_round_dn,
    spec_round_up, FRAC_DENOM, UNIT_CAP,
};
use crate::maths::BALANCE_CAP;
use crate::types::{
    abs_i64, calc_cost, calc_limit_cost, spec_cost, spec_limit_cost, valid_order, BotParams,
    ExchangeParams, Order, OrderType, Position, StateParams, TrailingPriceBundle, EXPOSURE_CAP,
};

verus! {

/// Quantity of one close rung: `pct` of the position size, rounded up to the
/// quantity step and clamped to the position; if that rung is infeasible
/// (below `min_qty` or `min_cost`), the whole position is closed instead.
pub open spec fn spec_close_volume(ep: ExchangeParams, size: int, pct: int, price: int) -> int {
    let d = FRAC_DENOM as int;
    let q0 = spec_round_up((size * pct) / d, ep.qty_step as int);
    let q1 = spec_min(q0, size);
    if q1 >= ep.min_qty && spec_cost(q1, price, ep.c_mult as int) >= ep.min_cost {
        q1
    } else {
        size
    }
}

fn close_volume(ep: &ExchangeParams, size: u64, pct: u64, price: u64) -> (r: u64)
    requires
        ep.wf(),
        1 <= size <= UNIT_CAP,
        size % ep.qty_step == 0,
        pct <= FRAC_DENOM,
        1 <= price <= UNIT_CAP,
    ensures
        r == spec_close_volume(*ep, size as int, pct as int, price as int),
        1 <= r <= size,
        r % ep.qty_step == 0,
{
    assert(size as int * pct as int <= u128::MAX) by (nonlinear_arith)
        requires size <= UNIT_CAP, pct <= FRAC_DENOM;
    let raw128: u128 = (size as u128) * (pct as u128) / (FRAC_DENOM as u128);
    assert(raw128 as int <= UNIT_CAP as int) by (nonlinear_arith)
        requires
            raw128 as int == (size as int * pct as int) / (FRAC_DENOM as int),
            size <= UNIT_CAP,
            pct <= FRAC_DENOM,
            FRAC_DENOM == 1_000_000u64;
    let q0 = round_up(raw128 as u64, ep.qty_step);
    let q1 = min_u64(q0, size);
    if q1 >= ep.min_qty {
        let cost = calc_cost(q1, price, ep.c_mult);
        if cost >= ep.min_cost as u128 {
            return q1;
        }
    }
    size
}

/// Grid long close: the nearest take-profit rung. The markup starts at
/// `close_grid_min_markup` plus the share of `close_grid_markup_range` not
/// yet used by the current exposure, the price never falls below the ask,
/// and the rung is `close_grid_qty_pct` of the position.
pub open spec fn spec_grid_close_long(
    ep: ExchangeParams,
    sp: StateParams,
    bp: BotParams,
    pos: Position,
) -> Order {
    let d = FRAC_DENOM as int;
    if pos.size <= 0 {
        spec_empty_order()
    } else {
        let exposure = spec_pos_exposure(pos, ep);
        let limit = spec_limit_cost(sp.balance as int, bp.wallet_exposure_limit as int);
        let ratio = if limit <= 0 { d } else { spec_min(d, (exposure * d) / limit) };
        let markup = bp.close_grid_min_markup + (bp.close_grid_markup_range * (d - ratio)) / d;
        let target = spec_round_up((pos.price * (d + markup)) / d, ep.price_step as int);
        let price = spec_max(target, spec_round_up(sp.order_book.ask as int, ep.price_step as int));
        if price > UNIT_CAP {
            spec_empty_order()
        } else {
            let q = spec_close_volume(ep, pos.size as int, bp.close_grid_qty_pct as int, price);
            if q >= ep.min_qty && spec_cost(q, price, ep.c_mult as int) >= ep.min_cost {
                Order { qty: -q as i64, price: price as u64, order_type: OrderType::CloseGridLong }
            } else {
                spec_empty_order()
            }
        }
    }
}

pub fn calc_grid_close_long(
    ep: &ExchangeParams,
    sp: &StateParams,
    bp: &BotParams,
    pos: &Position,
) -> (r: Order)
    requires
        ep.wf(),
        sp.wf(),
        bp.wf(),
        pos.wf(*ep),
        pos.size >= 0,
    ensures
        r == spec_grid_close_long(*ep, *sp, *bp, *pos),
        valid_order(r, *ep),
        r.qty <= 0,
        r.qty != 0 ==> r.order_type == OrderType::CloseGridLong,
        abs_i64(r.qty) <= abs_i64(pos.size),
        pos.size == 0 ==> r.qty == 0,
{
    let d128: u128 = FRAC_DENOM as u128;
    if pos.size <= 0 {
        return empty_order(ep);
    }
    let exposure = calc_cost(pos.size as u64, pos.price, ep.c_mult);
    let limit = calc_limit_cost(sp.balance, bp.wallet_exposure_limit);
    let ratio: u128 = if limit == 0 {
        d128
    } else {
        assert(exposure as int <= UNIT_CAP as int * UNIT_CAP as int * 100) by (nonlinear_arith)
            requires
                exposure as int == (pos.size as int * pos.price as int * ep.c_mult as int)
                    / (FRAC_DENOM as int),
                0 <= pos.size as int <= UNIT_CAP,
                pos.price <= UNIT_CAP,
                ep.c_mult <= 100_000_000u64,
                FRAC_DENOM == 1_000_000u64;
        assert(exposure as int * FRAC_DENOM as int <= u128::MAX) by (nonlinear_arith)
            requires exposure as int <= UNIT_CAP as int * UNIT_CAP as int * 100;
        let rr: u128 = exposure * d128 / limit;
        if rr <= d128 { rr } else { d128 }
    };
    assert(ratio as int <= FRAC_DENOM as int);
    assert(bp.close_grid_markup_range as int * (FRAC_DENOM as int - ratio as int) <= u128::MAX)
        by (nonlinear_arith)
        requires
            bp.close_grid_markup_range <= FRAC_DENOM,
            0 <= ratio as int <= FRAC_DENOM as int,
            FRAC_DENOM == 1_000_000u64;
    let markup: u128 = (bp.close_grid_min_markup as u128)
        + (bp.close_grid_markup_range as u128) * (d128 - ratio) / d128;
    assert(markup as int <= 2 * FRAC_DENOM as int) by (nonlinear_arith)
        requires
            markup as int == bp.close_grid_min_markup as int
                + (bp.close_grid_markup_range as int * (FRAC_DENOM as int - ratio as int))
                    / (FRAC_DENOM as int),
            bp.close_grid_min_markup <= FRAC_DENOM,
            bp.close_grid_markup_range <= FRAC_DENOM,
            0 <= ratio as int <= FRAC_DENOM as int,
            FRAC_DENOM == 1_000_000u64;
    assert(pos.price as int * (FRAC_DENOM as int + markup as int) <= u128::MAX) by (nonlinear_arith)
        requires pos.price <= UNIT_CAP, markup as int <= 2 * FRAC_DENOM as int;
    let tp128: u128 = (pos.price as u128) * (d128 + markup) / d128;
    assert(tp128 as int <= 3 * UNIT_CAP) by (nonlinear_arith)
        requires
            tp128 as int == (pos.price as int * (FRAC_DENOM as int + markup as int))
                / (FRAC_DENOM as int),
            pos.price <= UNIT_CAP,
            markup as int <= 2 * FRAC_DENOM as int,
            FRAC_DENOM == 1_000_000u64;
    let target = round_up(tp128 as u64, ep.price_step);
    let price = max_u64(target, round_up(sp.order_book.ask, ep.price_step));
    if price > UNIT_CAP {
        return empty_order(ep);
    }
    let q = close_volume(ep, pos.size as u64, bp.close_grid_qty_pct, price);
    if q >= ep.min_qty {
        let cost = calc_cost(q, price, ep.c_mult);
        if cost >= ep.min_cost as u128 {
            return Order { qty: -(q as i64), price, order_type: OrderType::CloseGridLong };
        }
    }
    empty_order(ep)
}

/// Trailing long close: fires once price has risen past
/// `close_trailing_threshold_pct` above the average entry price (armed) and
/// then retraced downward by `close_trailing_retracement_pct` from the
/// maximum reached (fired); sells at the ask.
pub open spec fn spec_trailing_close_long(
    ep: ExchangeParams,
    sp: StateParams,
    bp: BotParams,
    pos: Position,
    tpb: TrailingPriceBundle,
) -> Order {
    let d = FRAC_DENOM as int;
    if pos.size <= 0 {
        spec_empty_order()
    } else {
        let armed = tpb.max_since_open * d >= pos.price * (d + bp.close_trailing_threshold_pct);
        let fired = tpb.min_since_max * d <= tpb.max_since_open * (d - bp.close_trailing_retracement_pct);
        if !(armed && fired) {
            spec_empty_order()
        } else {
            let price = spec_round_up(sp.order_book.ask as int, ep.price_step as int);
            if price > UNIT_CAP {
                spec_empty_order()
            } else {
                let q = spec_close_volume(ep, pos.size as int, bp.close_trailing_qty_pct as int, price);
                if q >= ep.min_qty && spec_cost(q, price, ep.c_mult as int) >= ep.min_cost {
                    Order {
                        qty: -q as i64,
                        price: price as u64,
                        order_type: OrderType::CloseTrailingLong,
                    }
                } else {
                    spec_empty_order()
                }
            }
        }
    }
}

pub fn calc_trailing_close_long(
    ep: &ExchangeParams,
    sp: &StateParams,
    bp: &BotParams,
    pos: &Position,
    tpb: &TrailingPriceBundle,
) -> (r: Order)
    requires
        ep.wf(),
        sp.wf(),
        bp.wf(),
        pos.wf(*ep),
        pos.size >= 0,
    ensures
        r == spec_trailing_close_long(*ep, *sp, *bp, *pos, *tpb),
        valid_order(r, *ep),
        r.qty <= 0,
        r.qty != 0 ==> r.order_type == OrderType::CloseTrailingLong,
        abs_i64(r.qty) <= abs_i64(pos.size),
        pos.size == 0 ==> r.qty == 0,
{
    let d128: u128 = FRAC_DENOM as u128;
    if pos.size <= 0 {
        return empty_order(ep);
    }
    assert(tpb.max_since_open as int * FRAC_DENOM as int <= u128::MAX) by (nonlinear_arith)
        requires tpb.max_since_open <= u64::MAX;
    assert(pos.price as int * (FRAC_DENOM as int + bp.close_trailing_threshold_pct as int)
        <= u128::MAX) by (nonlinear_arith)
        requires pos.price <= UNIT_CAP, bp.close_trailing_threshold_pct <= FRAC_DENOM;
    let thr: u64 = FRAC_DENOM + bp.close_trailing_threshold_pct;
    let armed = (tpb.max_since_open as u128) * d128 >= (pos.price as u128) * (thr as u128);
    assert(tpb.min_since_max as int * FRAC_DENOM as int <= u128::MAX) by (nonlinear_arith)
        requires tpb.min_since_max <= u64::MAX;
    assert(tpb.max_since_open as int * (FRAC_DENOM as int - bp.close_trailing_retracement_pct as int)
        <= u128::MAX) by (nonlinear_arith)
        requires tpb.max_since_open <= u64::MAX, bp.close_trailing_retracement_pct <= FRAC_DENOM;
    let ret: u64 = FRAC_DENOM - bp.close_trailing_retracement_pct;
    let fired = (tpb.min_since_max as u128) * d128 <= (tpb.max_since_open as u128) * (ret as u128);
    if !(armed && fired) {
        return empty_order(ep);
    }
    let price = round_up(sp.order_book.ask, ep.price_step);
    if price > UNIT_CAP {
        return empty_order(ep);
    }
    let q = close_volume(ep, pos.size as u64, bp.close_trailing_qty_pct, price);
    if q >= ep.min_qty {
        let cost = calc_cost(q, price, ep.c_mult);
        if cost >= ep.min_cost as u128 {
            return Order { qty: -(q as i64), price, order_type: OrderType::CloseTrailingLong };
        }
    }
    empty_order(ep)
}

/// Unstuck long close: a forced reduction once the average entry price sits
/// above the upper EMA band by more than `unstuck_threshold`. Priced at the
/// band shifted by `unstuck_ema_dist` (never below the ask), sized by
/// `unstuck_close_pct`, and capped so that the realized loss at this order's
/// price never exceeds `allowance_left`.
pub open spec fn spec_unstuck_close_long(
    ep: ExchangeParams,
    sp: StateParams,
    bp: BotParams,
    pos: Position,
    allowance_left: u64,
) -> Order {
    let d = FRAC_DENOM as int;
    if pos.size <= 0 {
        spec_empty_order()
    } else if pos.price * d <= sp.ema_bands.upper * (d + bp.unstuck_threshold) {
        spec_empty_order()
    } else {
        let target = spec_round_up(
            (sp.ema_bands.upper * (d + bp.unstuck_ema_dist)) / d,
            ep.price_step as int,
        );
        let price = spec_max(target, spec_round_up(sp.order_book.ask as int, ep.price_step as int));
        if price > UNIT_CAP {
            spec_empty_order()
        } else {
            let q0 = spec_close_volume(ep, pos.size as int, bp.unstuck_close_pct as int, price);
            let q = if price < pos.price {
                let lcap = (allowance_left * d) / ((pos.price - price) * ep.c_mult);
                if q0 <= lcap {
                    q0
                } else {
                    spec_round_dn(lcap, ep.qty_step as int)
                }
            } else {
                q0
            };
            if q >= ep.min_qty && spec_cost(q, price, ep.c_mult as int) >= ep.min_cost {
                Order { qty: -q as i64, price: price as u64, order_type: OrderType::CloseUnstuckLong }
            } else {
                spec_empty_order()
            }
        }
    }
}

pub fn calc_unstuck_close_long(
    ep: &ExchangeParams,
    sp: &StateParams,
    bp: &BotParams,
    pos: &Position,
    allowance_left: u64,
) -> (r: Order)
    requires
        ep.wf(),
        sp.wf(),
        bp.wf(),
        pos.wf(*ep),
        pos.size >= 0,
        allowance_left <= BALANCE_CAP,
    ensures
        r == spec_unstuck_close_long(*ep, *sp, *bp, *pos, allowance_left),
        valid_order(r, *ep),
        r.qty <= 0,
        r.qty != 0 ==> r.order_type == OrderType::CloseUnstuckLong,
        abs_i64(r.qty) <= abs_i64(pos.size),
        pos.size == 0 ==> r.qty == 0,
        r.qty != 0 && r.price < pos.price ==> spec_cost(
            abs_i64(r.qty), pos.price - r.price, ep.c_mult as int,
        ) <= allowance_left,
{
    let d128: u128 = FRAC_DENOM as u128;
    if pos.size <= 0 {
        return empty_order(ep);
    }
    assert(pos.price as int * FRAC_DENOM as int <= u128::MAX) by (nonlinear_arith)
        requires pos.price <= UNIT_CAP;
    assert(sp.ema_bands.upper as int * (FRAC_DENOM as int + bp.unstuck_threshold as int)
        <= u128::MAX) by (nonlinear_arith)
        requires sp.ema_bands.upper <= UNIT_CAP, bp.unstuck_threshold <= FRAC_DENOM;
    let thr: u64 = FRAC_DENOM + bp.unstuck_threshold;
    if (pos.price as u128) * d128 <= (sp.ema_bands.upper as u128) * (thr as u128) {
        return empty_order(ep);
    }
    let factor: u64 = (FRAC_DENOM as i64 + bp.unstuck_ema_dist) as u64;
    assert(sp.ema_bands.upper as int * factor as int <= u128::MAX) by (nonlinear_arith)
        requires sp.ema_bands.upper <= UNIT_CAP, factor <= 2 * FRAC_DENOM;
    let band_adj128: u128 = (sp.ema_bands.upper as u128) * (factor as u128) / d128;
    assert(band_adj128 as int <= 2 * UNIT_CAP) by (nonlinear_arith)
        requires
            band_adj128 as int == (sp.ema_bands.upper as int * factor as int) / (FRAC_DENOM as int),
            sp.ema_bands.upper <= UNIT_CAP,
            factor <= 2 * FRAC_DENOM,
            FRAC_DENOM == 1_000_000u64;
    let target = round_up(band_adj128 as u64, ep.price_step);
    let price = max_u64(target, round_up(sp.order_book.ask, ep.price_step));
    if price > UNIT_CAP {
        return empty_order(ep);
    }
    let q0 = close_volume(ep, pos.size as u64, bp.unstuck_close_pct, price);
    let q: u64 = if price < pos.price {
        let unit_loss: u64 = pos.price - price;
        assert(allowance_left as int * FRAC_DENOM as int <= u128::MAX) by (nonlinear_arith)
            requires allowance_left <= BALANCE_CAP;
        assert(1 <= unit_loss as int * ep.c_mult as int <= u128::MAX) by (nonlinear_arith)
            requires 1 <= unit_loss <= UNIT_CAP, 1 <= ep.c_mult <= 100_000_000u64;
        let lcap: u128 = (allowance_left as u128) * d128 / ((unit_loss as u128) * (ep.c_mult as u128));
        if (q0 as u128) <= lcap {
            q0
        } else {
            round_dn(lcap as u64, ep.qty_step)
        }
    } else {
        q0
    };
    if q >= ep.min_qty {
        let cost = calc_cost(q, price, ep.c_mult);
        if cost >= ep.min_cost as u128 {
            proof {
                if price < pos.price {
                    let ul = pos.price - price;
                    let lcap = (allowance_left as int * FRAC_DENOM as int)
                        / (ul * ep.c_mult as int);
                    assert(q as int <= lcap);
                    lemma_cropped_qty_cost_bound(
                        q as int, ul, ep.c_mult as int, allowance_left as int, FRAC_DENOM as int,
                    );
                }
            }
            return Order { qty: -(q as i64), price, order_type: OrderType::CloseUnstuckLong };
        }
    }
    empty_order(ep)
}

/// Next long close: blends the grid and trailing candidates with
/// `close_trailing_grid_ratio`, as the entry selector does; for long closes
/// the candidate nearer the touch price is the lower-priced one.
pub open spec fn spec_next_close_long(
    ep: ExchangeParams,
    sp: StateParams,
    bp: BotParams,
    pos: Position,
    tpb: TrailingPriceBundle,
) -> Order {
    if pos.size <= 0 {
        spec_empty_order()
    } else if bp.close_trailing_grid_ratio <= 0 {
        let t = spec_trailing_close_long(ep, sp, bp, pos, tpb);
        if t.qty != 0 {
            t
        } else {
            spec_grid_close_long(ep, sp, bp, pos)
        }
    } else if bp.close_trailing_grid_ratio >= FRAC_DENOM {
        spec_grid_close_long(ep, sp, bp, pos)
    } else {
        let g = spec_grid_close_long(ep, sp, bp, pos);
        let t = spec_trailing_close_long(ep, sp, bp, pos, tpb);
        if t.qty == 0 {
            g
        } else if g.qty == 0 {
            t
        } else if t.price < g.price {
            t
        } else if g.price < t.price {
            g
        } else if 2 * bp.close_trailing_grid_ratio >= FRAC_DENOM {
            g
        } else {
            t
        }
    }
}

pub fn calc_next_close_long(
    ep: &ExchangeParams,
    sp: &StateParams,
    bp: &BotParams,
    pos: &Position,
    tpb: &TrailingPriceBundle,
) -> (r: Order)
    requires
        ep.wf(),
        sp.wf(),
        bp.wf(),
        pos.wf(*ep),
        pos.size >= 0,
    ensures
        r == spec_next_close_long(*ep, *sp, *bp, *pos, *tpb),
        valid_order(r, *ep),
        r.qty <= 0,
        r.qty != 0 ==> r.order_type == OrderType::CloseGridLong || r.order_type
            == OrderType::CloseTrailingLong,
        abs_i64(r.qty) <= abs_i64(pos.size),
        pos.size == 0 ==> r.qty == 0,
{
    if pos.size <= 0 {
        return empty_order(ep);
    }
    if bp.close_trailing_grid_ratio <= 0 {
        let t = calc_trailing_close_long(ep, sp, bp, pos, tpb);
        if t.qty != 0 {
            return t;
        }
        return calc_grid_close_long(ep, sp, bp, pos);
    }
    if bp.close_trailing_grid_ratio >= FRAC_DENOM as i64 {
        return calc_grid_close_long(ep, sp, bp, pos);
    }
    let g = calc_grid_close_long(ep, sp, bp, pos);
    let t = calc_trailing_close_long(ep, sp, bp, pos, tpb);
    if t.qty == 0 {
        g
    } else if g.qty == 0 {
        t
    } else if t.price < g.price {
        t
    } else if g.price < t.price {
        g
    } else if 2 * bp.close_trailing_grid_ratio >= FRAC_DENOM as i64 {
        g
    } else {
        t
    }
}

/// The full long-close ladder, simulated against a hypothetical shrinking
/// copy of the position: successive rungs carry strictly increasing prices
/// (each further into profit), and building stops when the selector returns
/// the empty order, the hypothetical position is flat, a rung fails to move
/// strictly above the previous one, or the rung bound is hit.
pub open spec fn spec_closes_long(
    ep: ExchangeParams,
    sp: StateParams,
    bp: BotParams,
    pos: Position,
    tpb: TrailingPriceBundle,
    last_price: int,
    fuel: nat,
) -> Seq<Order>
    decreases fuel,
{
    if fuel == 0 {
        Seq::empty()
    } else {
        let o = spec_next_close_long(ep, sp, bp, pos, tpb);
        if o.qty >= 0 {
            Seq::empty()
        } else if o.price <= last_price {
            Seq::empty()
        } else {
            let ns = pos.size - abs_i64(o.qty);
            if ns == 0 {
                seq![o]
            } else {
                let np = Position { size: ns as i64, price: pos.price };
                seq![o] + spec_closes_long(ep, sp, bp, np, tpb, o.price as int, (fuel - 1) as nat)
            }
        }
    }
}

fn closes_long_rec(
    ep: &ExchangeParams,
    sp: &StateParams,
    bp: &BotParams,
    pos: &Position,
    tpb: &TrailingPriceBundle,
    last_price: u64,
    fuel: u64,
) -> (r: Vec<Order>)
    requires
        ep.wf(),
        sp.wf(),
        bp.wf(),
        pos.wf(*ep),
        pos.size >= 0,
    ensures
        r@ == spec_closes_long(*ep, *sp, *bp, *pos, *tpb, last_price as int, fuel as nat),
        r@.len() <= fuel,
        forall|i: int| 0 <= i < r@.len() ==> valid_order(#[trigger] r@[i], *ep) && r@[i].qty < 0,
        forall|i: int| 0 <= i < r@.len() ==> (#[trigger] r@[i]).order_type
            == OrderType::CloseGridLong || r@[i].order_type == OrderType::CloseTrailingLong,
        forall|i: int| 0 <= i < r@.len() ==> (#[trigger] r@[i]).price > last_price,
        forall|i: int, j: int| 0 <= i < j < r@.len() ==> (#[trigger] r@[j]).price > (#[trigger] r@[i]).price,
    decreases fuel,
{
    if fuel == 0 {
        return Vec::new();
    }
    let o = calc_next_close_long(ep, sp, bp, pos, tpb);
    if o.qty >= 0 {
        return Vec::new();
    }
    if o.price <= last_price {
        return Vec::new();
    }
    let mut out: Vec<Order> = Vec::new();
    out.push(o);
    let q: i64 = -o.qty;
    let ns: i64 = pos.size - q;
    if ns == 0 {
        assert(out@ == seq![o]);
        return out;
    }
    let np = Position { size: ns, price: pos.price };
    proof {
        vstd::arithmetic::div_mod::lemma_sub_mod_noop(pos.size as int, q as int, ep.qty_step as int);
        vstd::arithmetic::div_mod::lemma_small_mod(0nat, ep.qty_step as nat);
        assert(abs_i64(np.size) == pos.size as int - q as int);
        assert((pos.size as int % (ep.qty_step as int)) - (q as int % (ep.qty_step as int))
            == 0int);
        assert(abs_i64(np.size) % (ep.qty_step as int) == 0);
        assert(np.wf(*ep));
    }
    let mut rest = closes_long_rec(ep, sp, bp, &np, tpb, o.price, fuel - 1);
    out.append(&mut rest);
    assert(out@ == seq![o] + spec_closes_long(*ep, *sp, *bp, np, *tpb, o.price as int, (fuel - 1) as nat));
    out
}

/// Builds the complete long-close ladder, nearest rung first, with strictly
/// increasing prices.
pub fn calc_closes_long(
    ep: &ExchangeParams,
    sp: &StateParams,
    bp: &BotParams,
    pos: &Position,
    tpb: &TrailingPriceBundle,
) -> (r: Vec<Order>)
    requires
        ep.wf(),
        sp.wf(),
        bp.wf(),
        pos.wf(*ep),
        pos.size >= 0,
    ensures
        r@ == spec_closes_long(*ep, *sp, *bp, *pos, *tpb, 0, crate::entries::LADDER_MAX_RUNGS as nat),
        r@.len() <= crate::entries::LADDER_MAX_RUNGS,
        forall|i: int| 0 <= i < r@.len() ==> valid_order(#[trigger] r@[i], *ep) && r@[i].qty < 0,
        forall|i: int| 0 <= i < r@.len() ==> (#[trigger] r@[i]).order_type
            == OrderType::CloseGridLong || r@[i].order_type == OrderType::CloseTrailingLong,
        forall|i: int, j: int| 0 <= i < j < r@.len() ==> (#[trigger] r@[j]).price > (#[trigger] r@[i]).price,
{
    closes_long_rec(ep, sp, bp, pos, tpb, 0, crate::entries::LADDER_MAX_RUNGS)
}

/// Grid short close: the mirror of the long rule — the nearest take-profit
/// rung buys back below the average entry price, never above the bid.
pub open spec fn spec_grid_close_short(
    ep: ExchangeParams,
    sp: StateParams,
    bp: BotParams,
    pos: Position,
) -> Order {
    let d = FRAC_DENOM as int;
    if pos.size >= 0 {
        spec_empty_order()
    } else {
        let exposure = spec_pos_exposure(pos, ep);
        let limit = spec_limit_cost(sp.balance as int, bp.wallet_exposure_limit as int);
        let ratio = if limit <= 0 { d } else { spec_min(d, (exposure * d) / limit) };
        let markup = bp.close_grid_min_markup + (bp.close_grid_markup_range * (d - ratio)) / d;
        let target = spec_round_dn((pos.price * (d - markup)) / d, ep.price_step as int);
        let price = spec_min(target, spec_round_dn(sp.order_book.bid as int, ep.price_step as int));
        if price < 1 {
            spec_empty_order()
        } else {
            let q = spec_close_volume(ep, abs_i64(pos.size), bp.close_grid_qty_pct as int, price);
            if q >= ep.min_qty && spec_cost(q, price, ep.c_mult as int) >= ep.min_cost {
                Order { qty: q as i64, price: price as u64, order_type: OrderType::CloseGridShort }
            } else {
                spec_empty_order()
            }
        }
    }
}

pub fn calc_grid_close_short(
    ep: &ExchangeParams,
    sp: &StateParams,
    bp: &BotParams,
    pos: &Position,
) -> (r: Order)
    requires
        ep.wf(),
        sp.wf(),
        bp.wf(),
        pos.wf(*ep),
        pos.size <= 0,
    ensures
        r == spec_grid_close_short(*ep, *sp, *bp, *pos),
        valid_order(r, *ep),
        r.qty >= 0,
        r.qty != 0 ==> r.order_type == OrderType::CloseGridShort,
        abs_i64(r.qty) <= abs_i64(pos.size),
        pos.size == 0 ==> r.qty == 0,
{
    let d128: u128 = FRAC_DENOM as u128;
    if pos.size >= 0 {
        return empty_order(ep);
    }
    let mag: u64 = (-pos.size) as u64;
    let exposure = calc_cost(mag, pos.price, ep.c_mult);
    let limit = calc_limit_cost(sp.balance, bp.wallet_exposure_limit);
    let ratio: u128 = if limit == 0 {
        d128
    } else {
        assert(exposure as int <= UNIT_CAP as int * UNIT_CAP as int * 100) by (nonlinear_arith)
            requires
                exposure as int == (mag as int * pos.price as int * ep.c_mult as int)
                    / (FRAC_DENOM as int),
                0 <= mag as int <= UNIT_CAP,
                pos.price <= UNIT_CAP,
                ep.c_mult <= 100_000_000u64,
                FRAC_DENOM == 1_000_000u64;
        assert(exposure as int * FRAC_DENOM as int <= u128::MAX) by (nonlinear_arith)
            requires exposure as int <= UNIT_CAP as int * UNIT_CAP as int * 100;
        let rr: u128 = exposure * d128 / limit;
        if rr <= d128 { rr } else { d128 }
    };
    assert(ratio as int <= FRAC_DENOM as int);
    assert(bp.close_grid_markup_range as int * (FRAC_DENOM as int - ratio as int) <= u128::MAX)
        by (nonlinear_arith)
        requires
            bp.close_grid_markup_range <= FRAC_DENOM,
            0 <= ratio as int <= FRAC_DENOM as int,
            FRAC_DENOM == 1_000_000u64;
    let markup: u128 = (bp.close_grid_min_markup as u128)
        + (bp.close_grid_markup_range as u128) * (d128 - ratio) / d128;
    assert(markup as int <= 2 * FRAC_DENOM as int) by (nonlinear_arith)
        requires
            markup as int == bp.close_grid_min_markup as int
                + (bp.close_grid_markup_range as int * (FRAC_DENOM as int - ratio as int))
                    / (FRAC_DENOM as int),
            bp.close_grid_min_markup <= FRAC_DENOM,
            bp.close_grid_markup_range <= FRAC_DENOM,
            0 <= ratio as int <= FRAC_DENOM as int,
            FRAC_DENOM == 1_000_000u64;
    let tp128: u128 = if markup >= d128 {
        0
    } else {
        assert(pos.price as int * (FRAC_DENOM as int - markup as int) <= u128::MAX)
            by (nonlinear_arith)
            requires pos.price <= UNIT_CAP, 0 <= markup as int, (markup as int) < (FRAC_DENOM as int);
        (pos.price as u128) * (d128 - markup) / d128
    };
    assert(tp128 as int <= UNIT_CAP as int) by (nonlinear_arith)
        requires
            tp128 as int == if markup as int >= FRAC_DENOM as int { 0int } else {
                (pos.price as int * (FRAC_DENOM as int - markup as int)) / (FRAC_DENOM as int)
            },
            pos.price <= UNIT_CAP,
            0 <= markup as int,
            FRAC_DENOM == 1_000_000u64;
    let target = round_dn(tp128 as u64, ep.price_step);
    let price = min_u64(target, round_dn(sp.order_book.bid, ep.price_step));
    proof {
        if markup as int >= FRAC_DENOM as int {
            let x = (pos.price as int * (FRAC_DENOM as int - markup as int)) / (FRAC_DENOM as int);
            assert(x <= 0) by (nonlinear_arith)
                requires
                    x == (pos.price as int * (FRAC_DENOM as int - markup as int))
                        / (FRAC_DENOM as int),
                    0 <= pos.price as int,
                    markup as int >= FRAC_DENOM as int,
                    FRAC_DENOM == 1_000_000u64;
            assert(spec_round_dn(x, ep.price_step as int) <= 0) by (nonlinear_arith)
                requires x <= 0, 1 <= ep.price_step;
        }
    }
    if price == 0 {
        return empty_order(ep);
    }
    let q = close_volume(ep, mag, bp.close_grid_qty_pct, price);
    if q >= ep.min_qty {
        let cost = calc_cost(q, price, ep.c_mult);
        if cost >= ep.min_cost as u128 {
            return Order { qty: q as i64, price, order_type: OrderType::CloseGridShort };
        }
    }
    empty_order(ep)
}

/// Trailing short close: the mirror of the long rule. Armed once price has
/// dropped past the threshold below the average entry price, fired once it
/// has retraced upward by the retracement fraction from the minimum
/// reached; buys back at the bid.
pub open spec fn spec_trailing_close_short(
    ep: ExchangeParams,
    sp: StateParams,
    bp: BotParams,
    pos: Position,
    tpb: TrailingPriceBundle,
) -> Order {
    let d = FRAC_DENOM as int;
    if pos.size >= 0 {
        spec_empty_order()
    } else {
        let armed = tpb.min_since_open * d <= pos.price * (d - bp.close_trailing_threshold_pct);
        let fired = tpb.max_since_min * d >= tpb.min_since_open * (d + bp.close_trailing_retracement_pct);
        if !(armed && fired) {
            spec_empty_order()
        } else {
            let price = spec_round_dn(sp.order_book.bid as int, ep.price_step as int);
            if price < 1 {
                spec_empty_order()
            } else {
                let q = spec_close_volume(ep, abs_i64(pos.size), bp.close_trailing_qty_pct as int, price);
                if q >= ep.min_qty && spec_cost(q, price, ep.c_mult as int) >= ep.min_cost {
                    Order {
                        qty: q as i64,
                        price: price as u64,
                        order_type: OrderType::CloseTrailingShort,
                    }
                } else {
                    spec_empty_order()
                }
            }
        }
    }
}

pub fn calc_trailing_close_short(
    ep: &ExchangeParams,
    sp: &StateParams,
    bp: &BotParams,
    pos: &Position,
    tpb: &TrailingPriceBundle,
) -> (r: Order)
    requires
        ep.wf(),
        sp.wf(),
        bp.wf(),
        pos.wf(*ep),
        pos.size <= 0,
    ensures
        r == spec_trailing_close_short(*ep, *sp, *bp, *pos, *tpb),
        valid_order(r, *ep),
        r.qty >= 0,
        r.qty != 0 ==> r.order_type == OrderType::CloseTrailingShort,
        abs_i64(r.qty) <= abs_i64(pos.size),
        pos.size == 0 ==> r.qty == 0,
{
    let d128: u128 = FRAC_DENOM as u128;
    if pos.size >= 0 {
        return empty_order(ep);
    }
    assert(tpb.min_since_open as int * FRAC_DENOM as int <= u128::MAX) by (nonlinear_arith)
        requires tpb.min_since_open <= u64::MAX;
    assert(pos.price as int * (FRAC_DENOM as int - bp.close_trailing_threshold_pct as int)
        <= u128::MAX) by (nonlinear_arith)
        requires pos.price <= UNIT_CAP, bp.close_trailing_threshold_pct <= FRAC_DENOM;
    let thr: u64 = FRAC_DENOM - bp.close_trailing_threshold_pct;
    let armed = (tpb.min_since_open as u128) * d128 <= (pos.price as u128) * (thr as u128);
    assert(tpb.max_since_min as int * FRAC_DENOM as int <= u128::MAX) by (nonlinear_arith)
        requires tpb.max_since_min <= u64::MAX;
    assert(tpb.min_since_open as int * (FRAC_DENOM as int + bp.close_trailing_retracement_pct as int)
        <= u128::MAX) by (nonlinear_arith)
        requires tpb.min_since_open <= u64::MAX, bp.close_trailing_retracement_pct <= FRAC_DENOM;
    let ret: u64 = FRAC_DENOM + bp.close_trailing_retracement_pct;
    let fired = (tpb.max_since_min as u128) * d128 >= (tpb.min_since_open as u128) * (ret as u128);
    if !(armed && fired) {
        return empty_order(ep);
    }
    let price = round_dn(sp.order_book.bid, ep.price_step);
    if price == 0 {
        return empty_order(ep);
    }
    let mag: u64 = (-pos.size) as u64;
    let q = close_volume(ep, mag, bp.close_trailing_qty_pct, price);
    if q >= ep.min_qty {
        let cost = calc_cost(q, price, ep.c_mult);
        if cost >= ep.min_cost as u128 {
            return Order { qty: q as i64, price, order_type: OrderType::CloseTrailingShort };
        }
    }
    empty_order(ep)
}

/// Unstuck short close: the mirror of the long rule — a forced reduction
/// once the average entry price sits below the lower EMA band by more than
/// `unstuck_threshold`, priced at the band shifted by `unstuck_ema_dist`
/// (never above the bid), loss-capped by `allowance_left`.
pub open spec fn spec_unstuck_close_short(
    ep: ExchangeParams,
    sp: StateParams,
    bp: BotParams,
    pos: Position,
    allowance_left: u64,
) -> Order {
    let d = FRAC_DENOM as int;
    if pos.size >= 0 {
        spec_empty_order()
    } else if pos.price * (d + bp.unstuck_threshold) >= sp.ema_bands.lower * d {
        spec_empty_order()
    } else {
        let target = spec_round_dn(
            (sp.ema_bands.lower * (d - bp.unstuck_ema_dist)) / d,
            ep.price_step as int,
        );
        let price = spec_min(target, spec_round_dn(sp.order_book.bid as int, ep.price_step as int));
        if price < 1 {
            spec_empty_order()
        } else {
            let q0 = spec_close_volume(ep, abs_i64(pos.size), bp.unstuck_close_pct as int, price);
            let q = if price > pos.price {
                let lcap = (allowance_left * d) / ((price - pos.price) * ep.c_mult);
                if q0 <= lcap {
                    q0
                } else {
                    spec_round_dn(lcap, ep.qty_step as int)
                }
            } else {
                q0
            };
            if q >= ep.min_qty && spec_cost(q, price, ep.c_mult as int) >= ep.min_cost {
                Order { qty: q as i64, price: price as u64, order_type: OrderType::CloseUnstuckShort }
            } else {
                spec_empty_order()
            }
        }
    }
}

pub fn calc_unstuck_close_short(
    ep: &ExchangeParams,
    sp: &StateParams,
    bp: &BotParams,
    pos: &Position,
    allowance_left: u64,
) -> (r: Order)
    requires
        ep.wf(),
        sp.wf(),
        bp.wf(),
        pos.wf(*ep),
        pos.size <= 0,
        allowance_left <= BALANCE_CAP,
    ensures
        r == spec_unstuck_close_short(*ep, *sp, *bp, *pos, allowance_left),
        valid_order(r, *ep),
        r.qty >= 0,
        r.qty != 0 ==> r.order_type == OrderType::CloseUnstuckShort,
        abs_i64(r.qty) <= abs_i64(pos.size),
        pos.size == 0 ==> r.qty == 0,
        r.qty != 0 && r.price > pos.price ==> spec_cost(
            abs_i64(r.qty), r.price - pos.price, ep.c_mult as int,
        ) <= allowance_left,
{
    let d128: u128 = FRAC_DENOM as u128;
    if pos.size >= 0 {
        return empty_order(ep);
    }
    assert(pos.price as int * (FRAC_DENOM as int + bp.unstuck_threshold as int) <= u128::MAX)
        by (nonlinear_arith)
        requires pos.price <= UNIT_CAP, bp.unstuck_threshold <= FRAC_DENOM;
    assert(sp.ema_bands.lower as int * FRAC_DENOM as int <= u128::MAX) by (nonlinear_arith)
        requires sp.ema_bands.lower <= UNIT_CAP;
    let thr: u64 = FRAC_DENOM + bp.unstuck_threshold;
    if (pos.price as u128) * (thr as u128) >= (sp.ema_bands.lower as u128) * d128 {
        return empty_order(ep);
    }
    let factor: u64 = (FRAC_DENOM as i64 - bp.unstuck_ema_dist) as u64;
    assert(sp.ema_bands.lower as int * factor as int <= u128::MAX) by (nonlinear_arith)
        requires sp.ema_bands.lower <= UNIT_CAP, factor <= 2 * FRAC_DENOM;
    let band_adj128: u128 = (sp.ema_bands.lower as u128) * (factor as u128) / d128;
    assert(band_adj128 as int <= 2 * UNIT_CAP) by (nonlinear_arith)
        requires
            band_adj128 as int == (sp.ema_bands.lower as int * factor as int) / (FRAC_DENOM as int),
            sp.ema_bands.lower <= UNIT_CAP,
            factor <= 2 * FRAC_DENOM,
            FRAC_DENOM == 1_000_000u64;
    let target = round_dn(band_adj128 as u64, ep.price_step);
    let price = min_u64(target, round_dn(sp.order_book.bid, ep.price_step));
    if price == 0 {
        return empty_order(ep);
    }
    let mag: u64 = (-pos.size) as u64;
    let q0 = close_volume(ep, mag, bp.unstuck_close_pct, price);
    let q: u64 = if price > pos.price {
        let unit_loss: u64 = price - pos.price;
        assert(allowance_left as int * FRAC_DENOM as int <= u128::MAX) by (nonlinear_arith)
            requires allowance_left <= BALANCE_CAP;
        assert(1 <= unit_loss as int * ep.c_mult as int <= u128::MAX) by (nonlinear_arith)
            requires 1 <= unit_loss <= UNIT_CAP, 1 <= ep.c_mult <= 100_000_000u64;
        let lcap: u128 = (allowance_left as u128) * d128 / ((unit_loss as u128) * (ep.c_mult as u128));
        if (q0 as u128) <= lcap {
            q0
        } else {
            round_dn(lcap as u64, ep.qty_step)
        }
    } else {
        q0
    };
    if q >= ep.min_qty {
        let cost = calc_cost(q, price, ep.c_mult);
        if cost >= ep.min_cost as u128 {
            proof {
                if price > pos.price {
                    let ul = price - pos.price;
                    let lcap = (allowance_left as int * FRAC_DENOM as int)
                        / (ul * ep.c_mult as int);
                    assert(q as int <= lcap);
                    lemma_cropped_qty_cost_bound(
                        q as int, ul, ep.c_mult as int, allowance_left as int, FRAC_DENOM as int,
                    );
                }
            }
            return Order { qty: q as i64, price, order_type: OrderType::CloseUnstuckShort };
        }
    }
    empty_order(ep)
}

/// Next short close, blending grid and trailing as the long selector does;
/// for short closes the candidate nearer the touch price is the
/// higher-priced one.
pub open spec fn spec_next_close_short(
    ep: ExchangeParams,
    sp: StateParams,
    bp: BotParams,
    pos: Position,
    tpb: TrailingPriceBundle,
) -> Order {
    if pos.size >= 0 {
        spec_empty_order()
    } else if bp.close_trailing_grid_ratio <= 0 {
        let t = spec_trailing_close_short(ep, sp, bp, pos, tpb);
        if t.qty != 0 {
            t
        } else {
            spec_grid_close_short(ep, sp, bp, pos)
        }
    } else if bp.close_trailing_grid_ratio >= FRAC_DENOM {
        spec_grid_close_short(ep, sp, bp, pos)
    } else {
        let g = spec_grid_close_short(ep, sp, bp, pos);
        let t = spec_trailing_close_short(ep, sp, bp, pos, tpb);
        if t.qty == 0 {
            g
        } else if g.qty == 0 {
            t
        } else if t.price > g.price {
            t
        } else if g.price > t.price {
            g
        } else if 2 * bp.close_trailing_grid_ratio >= FRAC_DENOM {
            g
        } else {
            t
        }
    }
}

pub fn calc_next_close_short(
    ep: &ExchangeParams,
    sp: &StateParams,
    bp: &BotParams,
    pos: &Position,
    tpb: &TrailingPriceBundle,
) -> (r: Order)
    requires
        ep.wf(),
        sp.wf(),
        bp.wf(),
        pos.wf(*ep),
        pos.size <= 0,
    ensures
        r == spec_next_close_short(*ep, *sp, *bp, *pos, *tpb),
        valid_order(r, *ep),
        r.qty >= 0,
        r.qty != 0 ==> r.order_type == OrderType::CloseGridShort || r.order_type
            == OrderType::CloseTrailingShort,
        abs_i64(r.qty) <= abs_i64(pos.size),
        pos.size == 0 ==> r.qty == 0,
{
    if pos.size >= 0 {
        return empty_order(ep);
    }
    if bp.close_trailing_grid_ratio <= 0 {
        let t = calc_trailing_close_short(ep, sp, bp, pos, tpb);
        if t.qty != 0 {
            return t;
        }
        return calc_grid_close_short(ep, sp, bp, pos);
    }
    if bp.close_trailing_grid_ratio >= FRAC_DENOM as i64 {
        return calc_grid_close_short(ep, sp, bp, pos);
    }
    let g = calc_grid_close_short(ep, sp, bp, pos);
    let t = calc_trailing_close_short(ep, sp, bp, pos, tpb);
    if t.qty == 0 {
        g
    } else if g.qty == 0 {
        t
    } else if t.price > g.price {
        t
    } else if g.price > t.price {
        g
    } else if 2 * bp.close_trailing_grid_ratio >= FRAC_DENOM as i64 {
        g
    } else {
        t
    }
}

/// The full short-close ladder: successive rungs carry strictly decreasing
/// prices (each further into profit for a short).
pub open spec fn spec_closes_short(
    ep: ExchangeParams,
    sp: StateParams,
    bp: BotParams,
    pos: Position,
    tpb: TrailingPriceBundle,
    last_price: int,
    fuel: nat,
) -> Seq<Order>
    decreases fuel,
{
    if fuel == 0 {
        Seq::empty()
    } else {
        let o = spec_next_close_short(ep, sp, bp, pos, tpb);
        if o.qty <= 0 {
            Seq::empty()
        } else if o.price >= last_price {
            Seq::empty()
        } else {
            let ns = abs_i64(pos.size) - o.qty;
            if ns == 0 {
                seq![o]
            } else {
                let np = Position { size: -ns as i64, price: pos.price };
                seq![o] + spec_closes_short(ep, sp, bp, np, tpb, o.price as int, (fuel - 1) as nat)
            }
        }
    }
}

fn closes_short_rec(
    ep: &ExchangeParams,
    sp: &StateParams,
    bp: &BotParams,
    pos: &Position,
    tpb: &TrailingPriceBundle,
    last_price: u64,
    fuel: u64,
) -> (r: Vec<Order>)
    requires
        ep.wf(),
        sp.wf(),
        bp.wf(),
        pos.wf(*ep),
        pos.size <= 0,
    ensures
        r@ == spec_closes_short(*ep, *sp, *bp, *pos, *tpb, last_price as int, fuel as nat),
        r@.len() <= fuel,
        forall|i: int| 0 <= i < r@.len() ==> valid_order(#[trigger] r@[i], *ep) && r@[i].qty > 0,
        forall|i: int| 0 <= i < r@.len() ==> (#[trigger] r@[i]).order_type
            == OrderType::CloseGridShort || r@[i].order_type == OrderType::CloseTrailingShort,
        forall|i: int| 0 <= i < r@.len() ==> (#[trigger] r@[i]).price < last_price,
        forall|i: int, j: int| 0 <= i < j < r@.len() ==> (#[trigger] r@[j]).price < (#[trigger] r@[i]).price,
    decreases fuel,
{
    if fuel == 0 {
        return Vec::new();
    }
    let o = calc_next_close_short(ep, sp, bp, pos, tpb);
    if o.qty <= 0 {
        return Vec::new();
    }
    if o.price >= last_price {
        return Vec::new();
    }
    let mut out: Vec<Order> = Vec::new();
    out.push(o);
    let mag: i64 = -pos.size;
    let ns: i64 = mag - o.qty;
    if ns == 0 {
        assert(out@ == seq![o]);
        return out;
    }
    let np = Position { size: -ns, price: pos.price };
    proof {
        vstd::arithmetic::div_mod::lemma_sub_mod_noop(mag as int, o.qty as int, ep.qty_step as int);
        vstd::arithmetic::div_mod::lemma_small_mod(0nat, ep.qty_step as nat);
        assert(abs_i64(np.size) == mag as int - o.qty as int);
        assert(abs_i64(np.size) % (ep.qty_step as int) == 0);
        assert(np.wf(*ep));
    }
    let mut rest = closes_short_rec(ep, sp, bp, &np, tpb, o.price, fuel - 1);
    out.append(&mut rest);
    assert(out@ == seq![o] + spec_closes_short(*ep, *sp, *bp, np, *tpb, o.price as int, (fuel - 1) as nat));
    out
}

/// Builds the complete short-close ladder, nearest rung first, with
/// strictly decreasing prices.
pub fn calc_closes_short(
    ep: &ExchangeParams,
    sp: &StateParams,
    bp: &BotParams,
    pos: &Position,
    tpb: &TrailingPriceBundle,
) -> (r: Vec<Order>)
    requires
        ep.wf(),
        sp.wf(),
        bp.wf(),
        pos.wf(*ep),
        pos.size <= 0,
    ensures
        r@ == spec_closes_short(*ep, *sp, *bp, *pos, *tpb, u64::MAX as int, crate::entries::LADDER_MAX_RUNGS as nat),
        r@.len() <= crate::entries::LADDER_MAX_RUNGS,
        forall|i: int| 0 <= i < r@.len() ==> valid_order(#[trigger] r@[i], *ep) && r@[i].qty > 0,
        forall|i: int| 0 <= i < r@.len() ==> (#[trigger] r@[i]).order_type
            == OrderType::CloseGridShort || r@[i].order_type == OrderType::CloseTrailingShort,
        forall|i: int, j: int| 0 <= i < j < r@.len() ==> (#[trigger] r@[j]).price < (#[trigger] r@[i]).price,
{
    closes_short_rec(ep, sp, bp, pos, tpb, u64::MAX, crate::entries::LADDER_MAX_RUNGS)
}

} // verus!
