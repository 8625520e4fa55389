//! Entry order generators: grid and trailing entries, the next-entry
//! selector, and the entry ladder builder, for both sides.
//!
//! Every generator returns a single candidate `Order`; a quantity of zero
//! means "no action". Each function's result equals a spec-level mirror of
//! its closed-form rule, and every non-empty order satisfies the rounding
//! invariant `valid_order` and fits the exposure still allowed.

use vstd::prelude::*;

use crate::maths::{
    lemma_cropped_qty_cost_bound, max_u64, min_u64, round_dn, round_up, spec_round_dn,
    spec_round_up, FRAC_DENOM, UNIT_CAP,
};
use crate::types::{
    abs_i64, calc_cost, calc_limit_cost, spec_cost, spec_limit_cost, valid_order, BotParams,
    ExchangeParams, Order, OrderType, Position, StateParams, TrailingPriceBundle, EXPOSURE_CAP,
};

verus! {

/// The empty order: no action.
pub open spec fn spec_empty_order() -> Order {
    Order { qty: 0, price: 0, order_type: OrderType::Empty }
}

/// The empty order, with its rounding invariant established.
pub fn empty_order(ep: &ExchangeParams) -> (r: Order)
    requires
        ep.wf(),
    ensures
        r == spec_empty_order(),
        valid_order(r, *ep),
        r.qty == 0,
{
    proof {
        vstd::arithmetic::div_mod::lemma_small_mod(0nat, ep.qty_step as nat);
        vstd::arithmetic::div_mod::lemma_small_mod(0nat, ep.price_step as nat);
    }
    Order::empty()
}

/// The smaller of two integers.
pub open spec fn spec_min(a: int, b: int) -> int {
    if a <= b { a } else { b }
}

/// The larger of two integers.
pub open spec fn spec_max(a: int, b: int) -> int {
    if a >= b { a } else { b }
}

/// A fraction `x/d` scaled into `(x * i) / (d * d)` is at most `x / d` when
/// `i <= d`.
proof fn lemma_scaled_budget_le_limit(x: int, i: int, d: int)
    requires
        0 <= x,
        0 <= i <= d,
        1 <= d,
    ensures
        (x * i) / (d * d) <= x / d,
{
    assert(x * i <= x * d) by (nonlinear_arith)
        requires 0 <= x, i <= d;
    assert((x * i) / (d * d) <= (x * d) / (d * d)) by (nonlinear_arith)
        requires x * i <= x * d, 1 <= d;
    assert((x * d) / (d * d) == x / d) by (nonlinear_arith)
        requires 1 <= d;
}

/// Initial long entry: sized by `entry_initial_qty_pct` of the
/// wallet-exposure-limited notional, priced at the lower EMA band shifted by
/// `entry_initial_ema_dist`, never above the bid. Infeasible results (price
/// rounds to zero, quantity below `min_qty` or beyond `UNIT_CAP`, notional
/// below `min_cost`) give the empty order.
pub open spec fn spec_initial_entry_long(ep: ExchangeParams, sp: StateParams, bp: BotParams) -> Order {
    let d = FRAC_DENOM as int;
    let factor = d - bp.entry_initial_ema_dist;
    let ema_adj = (sp.ema_bands.lower * factor) / d;
    let price = spec_min(
        spec_round_dn(ema_adj, ep.price_step as int),
        spec_round_dn(sp.order_book.bid as int, ep.price_step as int),
    );
    if price < 1 {
        spec_empty_order()
    } else {
        let budget = (sp.balance * bp.wallet_exposure_limit * bp.entry_initial_qty_pct) / (d * d);
        let raw = (budget * d) / (price * ep.c_mult);
        if raw > UNIT_CAP {
            spec_empty_order()
        } else {
            let qty = spec_round_dn(raw, ep.qty_step as int);
            if qty >= ep.min_qty && spec_cost(qty, price, ep.c_mult as int) >= ep.min_cost {
                Order { qty: qty as i64, price: price as u64, order_type: OrderType::EntryInitialLong }
            } else {
                spec_empty_order()
            }
        }
    }
}

pub fn calc_initial_entry_long(ep: &ExchangeParams, sp: &StateParams, bp: &BotParams) -> (r: Order)
    requires
        ep.wf(),
        sp.wf(),
        bp.wf(),
    ensures
        r == spec_initial_entry_long(*ep, *sp, *bp),
        valid_order(r, *ep),
        r.qty >= 0,
        r.qty != 0 ==> spec_cost(r.qty as int, r.price as int, ep.c_mult as int)
            <= spec_limit_cost(sp.balance as int, bp.wallet_exposure_limit as int),
{
    let d128: u128 = FRAC_DENOM as u128;
    let factor: u64 = (FRAC_DENOM as i64 - bp.entry_initial_ema_dist) as u64;
    assert(sp.ema_bands.lower as int * factor as int <= u128::MAX) by (nonlinear_arith)
        requires sp.ema_bands.lower <= UNIT_CAP, factor <= 2 * FRAC_DENOM;
    let ema_adj128: u128 = (sp.ema_bands.lower as u128) * (factor as u128) / d128;
    assert(ema_adj128 as int <= 2 * UNIT_CAP) by (nonlinear_arith)
        requires
            ema_adj128 as int == (sp.ema_bands.lower as int * factor as int) / (FRAC_DENOM as int),
            sp.ema_bands.lower <= UNIT_CAP,
            factor <= 2 * FRAC_DENOM,
            FRAC_DENOM == 1_000_000u64;
    let ema_adj: u64 = ema_adj128 as u64;
    let ema_price = round_dn(ema_adj, ep.price_step);
    let bid_price = round_dn(sp.order_book.bid, ep.price_step);
    let price = min_u64(ema_price, bid_price);
    if price == 0 {
        return empty_order(ep);
    }
    assert(sp.balance as int * bp.wallet_exposure_limit as int <= u128::MAX) by (nonlinear_arith)
        requires sp.balance <= 0x38d7ea4c68000u64, bp.wallet_exposure_limit <= 100_000_000u64;
    let b0: u128 = (sp.balance as u128) * (bp.wallet_exposure_limit as u128);
    assert(b0 as int * bp.entry_initial_qty_pct as int <= u128::MAX) by (nonlinear_arith)
        requires
            b0 as int == sp.balance as int * bp.wallet_exposure_limit as int,
            sp.balance <= 0x38d7ea4c68000u64,
            bp.wallet_exposure_limit <= 100_000_000u64,
            bp.entry_initial_qty_pct <= 1_000_000u64;
    let budget: u128 = b0 * (bp.entry_initial_qty_pct as u128) / (d128 * d128);
    assert(budget as int <= EXPOSURE_CAP) by (nonlinear_arith)
        requires
            budget as int == (sp.balance as int * bp.wallet_exposure_limit as int
                * bp.entry_initial_qty_pct as int) / (1_000_000_000_000 as int),
            sp.balance <= 0x38d7ea4c68000u64,
            bp.wallet_exposure_limit <= 100_000_000u64,
            bp.entry_initial_qty_pct <= 1_000_000u64;
    assert(budget as int * FRAC_DENOM as int <= u128::MAX) by (nonlinear_arith)
        requires budget as int <= EXPOSURE_CAP as int;
    assert(price as int * ep.c_mult as int <= u128::MAX && 1 <= price as int * ep.c_mult as int)
        by (nonlinear_arith)
        requires 1 <= price <= UNIT_CAP, 1 <= ep.c_mult <= 100_000_000u64;
    let raw: u128 = budget * d128 / ((price as u128) * (ep.c_mult as u128));
    if raw > UNIT_CAP as u128 {
        return empty_order(ep);
    }
    let qty = round_dn(raw as u64, ep.qty_step);
    if qty >= ep.min_qty {
        let cost = calc_cost(qty, price, ep.c_mult);
        if cost >= ep.min_cost as u128 {
            proof {
                lemma_cropped_qty_cost_bound(
                    qty as int, price as int, ep.c_mult as int, budget as int, FRAC_DENOM as int,
                );
                lemma_scaled_budget_le_limit(
                    sp.balance as int * bp.wallet_exposure_limit as int,
                    bp.entry_initial_qty_pct as int,
                    FRAC_DENOM as int,
                );
            }
            return Order { qty: qty as i64, price, order_type: OrderType::EntryInitialLong };
        }
    }
    empty_order(ep)
}

/// Notional exposure of a position: the cost of its size magnitude at its
/// average entry price.
pub open spec fn spec_pos_exposure(pos: Position, ep: ExchangeParams) -> int {
    spec_cost(abs_i64(pos.size), pos.price as int, ep.c_mult as int)
}

/// Re-entry volume: the position size scaled by the double-down factor,
/// cropped so the order's notional cost fits within `limit - exposure`.
/// Quantities beyond `UNIT_CAP` are infeasible and give zero.
pub open spec fn spec_entry_volume(
    ep: ExchangeParams,
    bp: BotParams,
    size: int,
    price: int,
    exposure: int,
    limit: int,
) -> int {
    let d = FRAC_DENOM as int;
    let raw = (size * bp.entry_grid_double_down_factor) / d;
    let qty0 = spec_round_dn(raw, ep.qty_step as int);
    let rem = limit - exposure;
    if qty0 <= UNIT_CAP && spec_cost(qty0, price, ep.c_mult as int) <= rem {
        qty0
    } else {
        let rawc = (rem * d) / (price * ep.c_mult);
        if rawc > UNIT_CAP {
            0
        } else {
            spec_round_dn(rawc, ep.qty_step as int)
        }
    }
}

/// Computes `spec_entry_volume` exactly; the result is step-aligned, within
/// `UNIT_CAP`, and its cost never exceeds the exposure still allowed.
fn entry_volume(
    ep: &ExchangeParams,
    bp: &BotParams,
    size: u64,
    price: u64,
    exposure: u128,
    limit: u128,
) -> (r: u64)
    requires
        ep.wf(),
        bp.wf(),
        size <= UNIT_CAP,
        1 <= price <= UNIT_CAP,
        exposure < limit,
        limit <= EXPOSURE_CAP,
    ensures
        r == spec_entry_volume(*ep, *bp, size as int, price as int, exposure as int, limit as int),
        r % ep.qty_step == 0,
        r <= UNIT_CAP,
        spec_cost(r as int, price as int, ep.c_mult as int) <= limit - exposure,
{
    let d128: u128 = FRAC_DENOM as u128;
    assert(size as int * bp.entry_grid_double_down_factor as int <= u128::MAX) by (nonlinear_arith)
        requires size <= UNIT_CAP, bp.entry_grid_double_down_factor <= 100_000_000u64;
    let raw128: u128 = (size as u128) * (bp.entry_grid_double_down_factor as u128) / d128;
    assert(raw128 as int <= UNIT_CAP as int * 100) by (nonlinear_arith)
        requires
            raw128 as int == (size as int * bp.entry_grid_double_down_factor as int)
                / (FRAC_DENOM as int),
            size <= UNIT_CAP,
            bp.entry_grid_double_down_factor <= 100_000_000u64,
            FRAC_DENOM == 1_000_000u64;
    let qty0 = round_dn(raw128 as u64, ep.qty_step);
    let rem: u128 = limit - exposure;
    if qty0 <= UNIT_CAP {
        let cost0 = calc_cost(qty0, price, ep.c_mult);
        if cost0 <= rem {
            return qty0;
        }
    }
    assert(rem as int * FRAC_DENOM as int <= u128::MAX) by (nonlinear_arith)
        requires rem as int <= EXPOSURE_CAP as int;
    assert(1 <= price as int * ep.c_mult as int <= u128::MAX) by (nonlinear_arith)
        requires 1 <= price <= UNIT_CAP, 1 <= ep.c_mult <= 100_000_000u64;
    let rawc: u128 = rem * d128 / ((price as u128) * (ep.c_mult as u128));
    if rawc > UNIT_CAP as u128 {
        assert(spec_cost(0, price as int, ep.c_mult as int) == 0) by (nonlinear_arith);
        return 0;
    }
    let q = round_dn(rawc as u64, ep.qty_step);
    proof {
        lemma_cropped_qty_cost_bound(
            q as int, price as int, ep.c_mult as int, rem as int, FRAC_DENOM as int,
        );
    }
    q
}

/// Grid long entry. A flat position gets the initial entry; an open one
/// gets the next grid rung: priced below the average entry price by a
/// spacing that widens with the exposure already used, sized by the
/// double-down factor and cropped to the exposure still allowed.
pub open spec fn spec_grid_entry_long(
    ep: ExchangeParams,
    sp: StateParams,
    bp: BotParams,
    pos: Position,
) -> Order {
    let d = FRAC_DENOM as int;
    if pos.size == 0 {
        spec_initial_entry_long(ep, sp, bp)
    } else {
        let exposure = spec_pos_exposure(pos, ep);
        let limit = spec_limit_cost(sp.balance as int, bp.wallet_exposure_limit as int);
        if exposure >= limit {
            spec_empty_order()
        } else {
            let ratio = (exposure * d) / limit;
            let mult = d + (bp.entry_grid_spacing_weight * ratio) / d;
            let spacing = (bp.entry_grid_spacing_pct * mult) / d;
            if spacing >= d {
                spec_empty_order()
            } else {
                let gp = spec_round_dn((pos.price * (d - spacing)) / d, ep.price_step as int);
                let price = spec_min(gp, spec_round_dn(sp.order_book.bid as int, ep.price_step as int));
                if price < 1 {
                    spec_empty_order()
                } else {
                    let qty = spec_entry_volume(ep, bp, pos.size as int, price, exposure, limit);
                    if qty >= ep.min_qty && spec_cost(qty, price, ep.c_mult as int) >= ep.min_cost {
                        Order { qty: qty as i64, price: price as u64, order_type: OrderType::EntryGridLong }
                    } else {
                        spec_empty_order()
                    }
                }
            }
        }
    }
}

pub fn calc_grid_entry_long(
    ep: &ExchangeParams,
    sp: &StateParams,
    bp: &BotParams,
    pos: &Position,
) -> (r: Order)
    requires
        ep.wf(),
        sp.wf(),
        bp.wf(),
        pos.wf(*ep),
        pos.size >= 0,
    ensures
        r == spec_grid_entry_long(*ep, *sp, *bp, *pos),
        valid_order(r, *ep),
        r.qty >= 0,
        r.qty != 0 ==> spec_pos_exposure(*pos, *ep) + spec_cost(
            r.qty as int, r.price as int, ep.c_mult as int,
        ) <= spec_limit_cost(sp.balance as int, bp.wallet_exposure_limit as int),
{
    let d128: u128 = FRAC_DENOM as u128;
    if pos.size == 0 {
        let r = calc_initial_entry_long(ep, sp, bp);
        assert(spec_pos_exposure(*pos, *ep) == 0) by (nonlinear_arith)
            requires pos.size == 0i64;
        return r;
    }
    let exposure = calc_cost(pos.size as u64, pos.price, ep.c_mult);
    let limit = calc_limit_cost(sp.balance, bp.wallet_exposure_limit);
    if exposure >= limit {
        return empty_order(ep);
    }
    assert(exposure as int * FRAC_DENOM as int <= u128::MAX) by (nonlinear_arith)
        requires exposure as int <= EXPOSURE_CAP as int;
    let ratio: u128 = exposure * d128 / limit;
    assert(ratio as int <= FRAC_DENOM as int) by (nonlinear_arith)
        requires
            ratio as int == (exposure as int * FRAC_DENOM as int) / (limit as int),
            0 <= exposure as int,
            exposure < limit;
    assert(bp.entry_grid_spacing_weight as int * ratio as int <= u128::MAX) by (nonlinear_arith)
        requires bp.entry_grid_spacing_weight <= 100_000_000u64, ratio as int <= FRAC_DENOM as int;
    let mult: u128 = d128 + (bp.entry_grid_spacing_weight as u128) * ratio / d128;
    assert(mult as int <= FRAC_DENOM as int + 100_000_000) by (nonlinear_arith)
        requires
            mult as int == FRAC_DENOM as int
                + (bp.entry_grid_spacing_weight as int * ratio as int) / (FRAC_DENOM as int),
            bp.entry_grid_spacing_weight <= 100_000_000u64,
            ratio as int <= FRAC_DENOM as int,
            FRAC_DENOM == 1_000_000u64;
    assert(bp.entry_grid_spacing_pct as int * mult as int <= u128::MAX) by (nonlinear_arith)
        requires
            bp.entry_grid_spacing_pct <= 1_000_000u64,
            mult as int <= FRAC_DENOM as int + 100_000_000;
    let spacing: u128 = (bp.entry_grid_spacing_pct as u128) * mult / d128;
    if spacing >= d128 {
        return empty_order(ep);
    }
    assert(pos.price as int * (FRAC_DENOM as int - spacing as int) <= u128::MAX) by (nonlinear_arith)
        requires pos.price <= UNIT_CAP, (spacing as int) < (FRAC_DENOM as int);
    let gp128: u128 = (pos.price as u128) * (d128 - spacing) / d128;
    assert(gp128 as int <= UNIT_CAP as int) by (nonlinear_arith)
        requires
            gp128 as int == (pos.price as int * (FRAC_DENOM as int - spacing as int))
                / (FRAC_DENOM as int),
            pos.price <= UNIT_CAP,
            (spacing as int) < (FRAC_DENOM as int),
            FRAC_DENOM == 1_000_000u64;
    let gp = round_dn(gp128 as u64, ep.price_step);
    let price = min_u64(gp, round_dn(sp.order_book.bid, ep.price_step));
    if price == 0 {
        return empty_order(ep);
    }
    let qty = entry_volume(ep, bp, pos.size as u64, price, exposure, limit);
    if qty >= ep.min_qty {
        let cost = calc_cost(qty, price, ep.c_mult);
        if cost >= ep.min_cost as u128 {
            return Order { qty: qty as i64, price, order_type: OrderType::EntryGridLong };
        }
    }
    empty_order(ep)
}

/// Trailing long entry: fires only once price has dropped past
/// `entry_trailing_threshold_pct` below the average entry price (armed) and
/// then retraced upward by `entry_trailing_retracement_pct` from the minimum
/// reached (fired). Before that, and on a flat position, the empty order.
pub open spec fn spec_trailing_entry_long(
    ep: ExchangeParams,
    sp: StateParams,
    bp: BotParams,
    pos: Position,
    tpb: TrailingPriceBundle,
) -> Order {
    let d = FRAC_DENOM as int;
    if pos.size == 0 {
        spec_empty_order()
    } else {
        let armed = tpb.min_since_open * d <= pos.price * (d - bp.entry_trailing_threshold_pct);
        let fired = tpb.max_since_min * d >= tpb.min_since_open * (d + bp.entry_trailing_retracement_pct);
        if !(armed && fired) {
            spec_empty_order()
        } else {
            let exposure = spec_pos_exposure(pos, ep);
            let limit = spec_limit_cost(sp.balance as int, bp.wallet_exposure_limit as int);
            if exposure >= limit {
                spec_empty_order()
            } else {
                let price = spec_round_dn(sp.order_book.bid as int, ep.price_step as int);
                if price < 1 {
                    spec_empty_order()
                } else {
                    let qty = spec_entry_volume(ep, bp, pos.size as int, price, exposure, limit);
                    if qty >= ep.min_qty && spec_cost(qty, price, ep.c_mult as int) >= ep.min_cost {
                        Order {
                            qty: qty as i64,
                            price: price as u64,
                            order_type: OrderType::EntryTrailingLong,
                        }
                    } else {
                        spec_empty_order()
                    }
                }
            }
        }
    }
}

pub fn calc_trailing_entry_long(
    ep: &ExchangeParams,
    sp: &StateParams,
    bp: &BotParams,
    pos: &Position,
    tpb: &TrailingPriceBundle,
) -> (r: Order)
    requires
        ep.wf(),
        sp.wf(),
        bp.wf(),
        pos.wf(*ep),
        pos.size >= 0,
    ensures
        r == spec_trailing_entry_long(*ep, *sp, *bp, *pos, *tpb),
        valid_order(r, *ep),
        r.qty >= 0,
        r.qty != 0 ==> spec_pos_exposure(*pos, *ep) + spec_cost(
            r.qty as int, r.price as int, ep.c_mult as int,
        ) <= spec_limit_cost(sp.balance as int, bp.wallet_exposure_limit as int),
{
    let d128: u128 = FRAC_DENOM as u128;
    if pos.size == 0 {
        return empty_order(ep);
    }
    assert(tpb.min_since_open as int * FRAC_DENOM as int <= u128::MAX) by (nonlinear_arith)
        requires tpb.min_since_open <= u64::MAX;
    assert(pos.price as int * (FRAC_DENOM as int - bp.entry_trailing_threshold_pct as int)
        <= u128::MAX) by (nonlinear_arith)
        requires pos.price <= UNIT_CAP, bp.entry_trailing_threshold_pct <= FRAC_DENOM;
    let thr: u64 = FRAC_DENOM - bp.entry_trailing_threshold_pct;
    let armed = (tpb.min_since_open as u128) * d128 <= (pos.price as u128) * (thr as u128);
    assert(tpb.max_since_min as int * FRAC_DENOM as int <= u128::MAX) by (nonlinear_arith)
        requires tpb.max_since_min <= u64::MAX;
    assert(tpb.min_since_open as int * (FRAC_DENOM as int + bp.entry_trailing_retracement_pct as int)
        <= u128::MAX) by (nonlinear_arith)
        requires tpb.min_since_open <= u64::MAX, bp.entry_trailing_retracement_pct <= FRAC_DENOM;
    let ret: u64 = FRAC_DENOM + bp.entry_trailing_retracement_pct;
    let fired = (tpb.max_since_min as u128) * d128 >= (tpb.min_since_open as u128) * (ret as u128);
    if !(armed && fired) {
        return empty_order(ep);
    }
    let exposure = calc_cost(pos.size as u64, pos.price, ep.c_mult);
    let limit = calc_limit_cost(sp.balance, bp.wallet_exposure_limit);
    if exposure >= limit {
        return empty_order(ep);
    }
    let price = round_dn(sp.order_book.bid, ep.price_step);
    if price == 0 {
        return empty_order(ep);
    }
    let qty = entry_volume(ep, bp, pos.size as u64, price, exposure, limit);
    if qty >= ep.min_qty {
        let cost = calc_cost(qty, price, ep.c_mult);
        if cost >= ep.min_cost as u128 {
            return Order { qty: qty as i64, price, order_type: OrderType::EntryTrailingLong };
        }
    }
    empty_order(ep)
}

/// Next long entry: the single order the strategy would place. A flat
/// position always gets the initial entry. Otherwise
/// `entry_trailing_grid_ratio` blends the two generators: at or below zero
/// the trailing candidate is preferred whenever it has fired, at or above
/// one the grid candidate wins outright, and in between the candidate
/// nearer the touch price (the one that would fill first — for long
/// entries, the higher-priced one) wins, with the ratio deciding ties: a
/// ratio of one half or more favours the grid.
pub open spec fn spec_next_entry_long(
    ep: ExchangeParams,
    sp: StateParams,
    bp: BotParams,
    pos: Position,
    tpb: TrailingPriceBundle,
) -> Order {
    if pos.size == 0 {
        spec_initial_entry_long(ep, sp, bp)
    } else if bp.entry_trailing_grid_ratio <= 0 {
        let t = spec_trailing_entry_long(ep, sp, bp, pos, tpb);
        if t.qty != 0 {
            t
        } else {
            spec_grid_entry_long(ep, sp, bp, pos)
        }
    } else if bp.entry_trailing_grid_ratio >= FRAC_DENOM {
        spec_grid_entry_long(ep, sp, bp, pos)
    } else {
        let g = spec_grid_entry_long(ep, sp, bp, pos);
        let t = spec_trailing_entry_long(ep, sp, bp, pos, tpb);
        if t.qty == 0 {
            g
        } else if g.qty == 0 {
            t
        } else if t.price > g.price {
            t
        } else if g.price > t.price {
            g
        } else if 2 * bp.entry_trailing_grid_ratio >= FRAC_DENOM {
            g
        } else {
            t
        }
    }
}

pub fn calc_next_entry_long(
    ep: &ExchangeParams,
    sp: &StateParams,
    bp: &BotParams,
    pos: &Position,
    tpb: &TrailingPriceBundle,
) -> (r: Order)
    requires
        ep.wf(),
        sp.wf(),
        bp.wf(),
        pos.wf(*ep),
        pos.size >= 0,
    ensures
        r == spec_next_entry_long(*ep, *sp, *bp, *pos, *tpb),
        valid_order(r, *ep),
        r.qty >= 0,
        r.qty != 0 ==> spec_pos_exposure(*pos, *ep) + spec_cost(
            r.qty as int, r.price as int, ep.c_mult as int,
        ) <= spec_limit_cost(sp.balance as int, bp.wallet_exposure_limit as int),
{
    if pos.size == 0 {
        let r = calc_initial_entry_long(ep, sp, bp);
        assert(spec_pos_exposure(*pos, *ep) == 0) by (nonlinear_arith)
            requires pos.size == 0i64;
        return r;
    }
    if bp.entry_trailing_grid_ratio <= 0 {
        let t = calc_trailing_entry_long(ep, sp, bp, pos, tpb);
        if t.qty != 0 {
            return t;
        }
        return calc_grid_entry_long(ep, sp, bp, pos);
    }
    if bp.entry_trailing_grid_ratio >= FRAC_DENOM as i64 {
        return calc_grid_entry_long(ep, sp, bp, pos);
    }
    let g = calc_grid_entry_long(ep, sp, bp, pos);
    let t = calc_trailing_entry_long(ep, sp, bp, pos, tpb);
    if t.qty == 0 {
        g
    } else if g.qty == 0 {
        t
    } else if t.price > g.price {
        t
    } else if g.price > t.price {
        g
    } else if 2 * bp.entry_trailing_grid_ratio >= FRAC_DENOM as i64 {
        g
    } else {
        t
    }
}

/// A weighted average of two prices in `[1, m]` (the first possibly with
/// zero weight) stays in `[1, m]`.
pub proof fn lemma_weighted_avg_bounds(a: int, pa: int, b: int, pb: int, m: int)
    requires
        0 <= a,
        1 <= b,
        0 <= pa <= m,
        1 <= pb <= m,
        a == 0 || 1 <= pa,
    ensures
        1 <= (a * pa + b * pb) / (a + b) <= m,
{
    assert(a * pa >= a) by (nonlinear_arith)
        requires 0 <= a, a == 0 || 1 <= pa;
    assert(b * pb >= b) by (nonlinear_arith)
        requires 1 <= b, 1 <= pb;
    assert(a * pa <= a * m) by (nonlinear_arith)
        requires 0 <= a, pa <= m;
    assert(b * pb <= b * m) by (nonlinear_arith)
        requires 1 <= b, pb <= m;
    assert((a * pa + b * pb) / (a + b) >= 1) by (nonlinear_arith)
        requires a * pa + b * pb >= a + b, 1 <= a + b;
    assert(a * m + b * m == (a + b) * m) by (nonlinear_arith);
    assert((a * pa + b * pb) / (a + b) <= m) by (nonlinear_arith)
        requires a * pa + b * pb <= (a + b) * m, 1 <= a + b;
}

/// The hypothetical position after a long entry fills in full: size grows
/// by the order quantity, the average entry price becomes the floored
/// volume-weighted mean of the old position and the fill.
pub open spec fn spec_pos_after_long_entry(pos: Position, o: Order) -> Position {
    let ns = pos.size + o.qty;
    let np = (pos.size * pos.price + o.qty * o.price) / ns;
    Position { size: ns as i64, price: np as u64 }
}

pub fn pos_after_long_entry(ep: &ExchangeParams, pos: &Position, o: &Order) -> (r: Position)
    requires
        ep.wf(),
        pos.wf(*ep),
        pos.size >= 0,
        valid_order(*o, *ep),
        o.qty > 0,
        pos.size + o.qty <= UNIT_CAP,
    ensures
        r == spec_pos_after_long_entry(*pos, *o),
        r.wf(*ep),
        r.size == pos.size + o.qty,
{
    let ns: i64 = pos.size + o.qty;
    assert(pos.size as int * pos.price as int + o.qty as int * o.price as int <= u128::MAX)
        by (nonlinear_arith)
        requires
            0 <= pos.size as int <= UNIT_CAP,
            pos.price <= UNIT_CAP,
            0 <= o.qty as int <= UNIT_CAP,
            o.price <= UNIT_CAP;
    let num: u128 = (pos.size as u128) * (pos.price as u128) + (o.qty as u128) * (o.price as u128);
    let np128: u128 = num / (ns as u128);
    proof {
        lemma_weighted_avg_bounds(
            pos.size as int,
            pos.price as int,
            o.qty as int,
            o.price as int,
            UNIT_CAP as int,
        );
    }
    let r = Position { size: ns, price: np128 as u64 };
    proof {
        vstd::arithmetic::div_mod::lemma_add_mod_noop(
            pos.size as int, o.qty as int, ep.qty_step as int,
        );
        assert(abs_i64(r.size) == pos.size as int + o.qty as int);
        assert(np128 as int == (pos.size as int * pos.price as int
            + o.qty as int * o.price as int) / (pos.size as int + o.qty as int));
        assert(1 <= np128 as int <= UNIT_CAP as int);
        assert(r.price as int == np128 as int);
        assert(abs_i64(r.size) <= UNIT_CAP);
        assert(r.price <= UNIT_CAP);
        assert(r.size != 0 ==> 1 <= r.price);
        assert((pos.size as int) % (ep.qty_step as int) == 0);
        assert((o.qty as int) % (ep.qty_step as int) == 0);
        assert(((pos.size as int % (ep.qty_step as int)) + (o.qty as int % (ep.qty_step as int)))
            % (ep.qty_step as int) == (pos.size as int + o.qty as int) % (ep.qty_step as int));
        vstd::arithmetic::div_mod::lemma_small_mod(0nat, ep.qty_step as nat);
        assert(abs_i64(r.size) % (ep.qty_step as int) == 0);
        assert(r.wf(*ep));
    }
    r
}

/// Iteration bound for the ladder builders: no resting ladder is ever
/// deeper than this many rungs.
pub const LADDER_MAX_RUNGS: u64 = 64;

/// The full resting long-entry ladder, simulated against a hypothetical
/// incrementally-filled copy of the position. Building stops when the
/// selector returns the empty order, when a rung fails to move strictly
/// below the previous one, when the hypothetical size would leave the
/// supported range, or when the rung bound is hit.
pub open spec fn spec_entries_long(
    ep: ExchangeParams,
    sp: StateParams,
    bp: BotParams,
    pos: Position,
    tpb: TrailingPriceBundle,
    last_price: int,
    fuel: nat,
) -> Seq<Order>
    decreases fuel,
{
    if fuel == 0 {
        Seq::empty()
    } else {
        let o = spec_next_entry_long(ep, sp, bp, pos, tpb);
        if o.qty <= 0 {
            Seq::empty()
        } else if o.price >= last_price {
            Seq::empty()
        } else if pos.size + o.qty > UNIT_CAP {
            seq![o]
        } else {
            let np = spec_pos_after_long_entry(pos, o);
            seq![o] + spec_entries_long(ep, sp, bp, np, tpb, o.price as int, (fuel - 1) as nat)
        }
    }
}

fn entries_long_rec(
    ep: &ExchangeParams,
    sp: &StateParams,
    bp: &BotParams,
    pos: &Position,
    tpb: &TrailingPriceBundle,
    last_price: u64,
    fuel: u64,
) -> (r: Vec<Order>)
    requires
        ep.wf(),
        sp.wf(),
        bp.wf(),
        pos.wf(*ep),
        pos.size >= 0,
    ensures
        r@ == spec_entries_long(*ep, *sp, *bp, *pos, *tpb, last_price as int, fuel as nat),
        r@.len() <= fuel,
        forall|i: int| 0 <= i < r@.len() ==> valid_order(#[trigger] r@[i], *ep) && r@[i].qty > 0,
        forall|i: int| 0 <= i < r@.len() ==> (#[trigger] r@[i]).price < last_price,
        forall|i: int, j: int| 0 <= i < j < r@.len() ==> (#[trigger] r@[j]).price < (#[trigger] r@[i]).price,
    decreases fuel,
{
    if fuel == 0 {
        return Vec::new();
    }
    let o = calc_next_entry_long(ep, sp, bp, pos, tpb);
    if o.qty <= 0 {
        return Vec::new();
    }
    if o.price >= last_price {
        return Vec::new();
    }
    let mut out: Vec<Order> = Vec::new();
    out.push(o);
    if pos.size + o.qty > UNIT_CAP as i64 {
        assert(out@ == seq![o]);
        return out;
    }
    let np = pos_after_long_entry(ep, pos, &o);
    let mut rest = entries_long_rec(ep, sp, bp, &np, tpb, o.price, fuel - 1);
    out.append(&mut rest);
    assert(out@ == seq![o] + spec_entries_long(*ep, *sp, *bp, np, *tpb, o.price as int, (fuel - 1) as nat));
    out
}

/// Builds the complete resting long-entry ladder, nearest rung first.
/// Successive rungs carry strictly decreasing prices — each moves further
/// below the market than the last — and every rung satisfies the rounding
/// invariant.
pub fn calc_entries_long(
    ep: &ExchangeParams,
    sp: &StateParams,
    bp: &BotParams,
    pos: &Position,
    tpb: &TrailingPriceBundle,
) -> (r: Vec<Order>)
    requires
        ep.wf(),
        sp.wf(),
        bp.wf(),
        pos.wf(*ep),
        pos.size >= 0,
    ensures
        r@ == spec_entries_long(*ep, *sp, *bp, *pos, *tpb, u64::MAX as int, LADDER_MAX_RUNGS as nat),
        r@.len() <= LADDER_MAX_RUNGS,
        forall|i: int| 0 <= i < r@.len() ==> valid_order(#[trigger] r@[i], *ep) && r@[i].qty > 0,
        forall|i: int, j: int| 0 <= i < j < r@.len() ==> (#[trigger] r@[j]).price < (#[trigger] r@[i]).price,
{
    entries_long_rec(ep, sp, bp, pos, tpb, u64::MAX, LADDER_MAX_RUNGS)
}

/// Initial short entry: the mirror of the long rule. Priced at the upper
/// EMA band shifted by `entry_initial_ema_dist`, never below the ask; the
/// quantity is negative (a sell).
pub open spec fn spec_initial_entry_short(ep: ExchangeParams, sp: StateParams, bp: BotParams) -> Order {
    let d = FRAC_DENOM as int;
    let factor = d + bp.entry_initial_ema_dist;
    let ema_adj = (sp.ema_bands.upper * factor) / d;
    let price = spec_max(
        spec_round_up(ema_adj, ep.price_step as int),
        spec_round_up(sp.order_book.ask as int, ep.price_step as int),
    );
    if price > UNIT_CAP {
        spec_empty_order()
    } else {
        let budget = (sp.balance * bp.wallet_exposure_limit * bp.entry_initial_qty_pct) / (d * d);
        let raw = (budget * d) / (price * ep.c_mult);
        if raw > UNIT_CAP {
            spec_empty_order()
        } else {
            let qty = spec_round_dn(raw, ep.qty_step as int);
            if qty >= ep.min_qty && spec_cost(qty, price, ep.c_mult as int) >= ep.min_cost {
                Order {
                    qty: -qty as i64,
                    price: price as u64,
                    order_type: OrderType::EntryInitialShort,
                }
            } else {
                spec_empty_order()
            }
        }
    }
}

pub fn calc_initial_entry_short(ep: &ExchangeParams, sp: &StateParams, bp: &BotParams) -> (r: Order)
    requires
        ep.wf(),
        sp.wf(),
        bp.wf(),
    ensures
        r == spec_initial_entry_short(*ep, *sp, *bp),
        valid_order(r, *ep),
        r.qty <= 0,
        r.qty != 0 ==> spec_cost(abs_i64(r.qty), r.price as int, ep.c_mult as int)
            <= spec_limit_cost(sp.balance as int, bp.wallet_exposure_limit as int),
{
    let d128: u128 = FRAC_DENOM as u128;
    let factor: u64 = (FRAC_DENOM as i64 + bp.entry_initial_ema_dist) as u64;
    assert(sp.ema_bands.upper as int * factor as int <= u128::MAX) by (nonlinear_arith)
        requires sp.ema_bands.upper <= UNIT_CAP, factor <= 2 * FRAC_DENOM;
    let ema_adj128: u128 = (sp.ema_bands.upper as u128) * (factor as u128) / d128;
    assert(ema_adj128 as int <= 2 * UNIT_CAP) by (nonlinear_arith)
        requires
            ema_adj128 as int == (sp.ema_bands.upper as int * factor as int) / (FRAC_DENOM as int),
            sp.ema_bands.upper <= UNIT_CAP,
            factor <= 2 * FRAC_DENOM,
            FRAC_DENOM == 1_000_000u64;
    let ema_price = round_up(ema_adj128 as u64, ep.price_step);
    let ask_price = round_up(sp.order_book.ask, ep.price_step);
    let price = max_u64(ema_price, ask_price);
    if price > UNIT_CAP {
        return empty_order(ep);
    }
    assert(sp.balance as int * bp.wallet_exposure_limit as int <= u128::MAX) by (nonlinear_arith)
        requires sp.balance <= 0x38d7ea4c68000u64, bp.wallet_exposure_limit <= 100_000_000u64;
    let b0: u128 = (sp.balance as u128) * (bp.wallet_exposure_limit as u128);
    assert(b0 as int * bp.entry_initial_qty_pct as int <= u128::MAX) by (nonlinear_arith)
        requires
            b0 as int == sp.balance as int * bp.wallet_exposure_limit as int,
            sp.balance <= 0x38d7ea4c68000u64,
            bp.wallet_exposure_limit <= 100_000_000u64,
            bp.entry_initial_qty_pct <= 1_000_000u64;
    let budget: u128 = b0 * (bp.entry_initial_qty_pct as u128) / (d128 * d128);
    assert(budget as int <= EXPOSURE_CAP) by (nonlinear_arith)
        requires
            budget as int == (sp.balance as int * bp.wallet_exposure_limit as int
                * bp.entry_initial_qty_pct as int) / (1_000_000_000_000 as int),
            sp.balance <= 0x38d7ea4c68000u64,
            bp.wallet_exposure_limit <= 100_000_000u64,
            bp.entry_initial_qty_pct <= 1_000_000u64;
    assert(budget as int * FRAC_DENOM as int <= u128::MAX) by (nonlinear_arith)
        requires budget as int <= EXPOSURE_CAP as int;
    assert(price as int * ep.c_mult as int <= u128::MAX && 1 <= price as int * ep.c_mult as int)
        by (nonlinear_arith)
        requires 1 <= price <= UNIT_CAP, 1 <= ep.c_mult <= 100_000_000u64;
    let raw: u128 = budget * d128 / ((price as u128) * (ep.c_mult as u128));
    if raw > UNIT_CAP as u128 {
        return empty_order(ep);
    }
    let qty = round_dn(raw as u64, ep.qty_step);
    if qty >= ep.min_qty {
        let cost = calc_cost(qty, price, ep.c_mult);
        if cost >= ep.min_cost as u128 {
            proof {
                lemma_cropped_qty_cost_bound(
                    qty as int, price as int, ep.c_mult as int, budget as int, FRAC_DENOM as int,
                );
                lemma_scaled_budget_le_limit(
                    sp.balance as int * bp.wallet_exposure_limit as int,
                    bp.entry_initial_qty_pct as int,
                    FRAC_DENOM as int,
                );
            }
            return Order { qty: -(qty as i64), price, order_type: OrderType::EntryInitialShort };
        }
    }
    empty_order(ep)
}

/// Grid short entry: the mirror of the long rule. The next rung is priced
/// above the average entry price by the widening spacing, never below the
/// ask, and the quantity is negative.
pub open spec fn spec_grid_entry_short(
    ep: ExchangeParams,
    sp: StateParams,
    bp: BotParams,
    pos: Position,
) -> Order {
    let d = FRAC_DENOM as int;
    if pos.size == 0 {
        spec_initial_entry_short(ep, sp, bp)
    } else {
        let exposure = spec_pos_exposure(pos, ep);
        let limit = spec_limit_cost(sp.balance as int, bp.wallet_exposure_limit as int);
        if exposure >= limit {
            spec_empty_order()
        } else {
            let ratio = (exposure * d) / limit;
            let mult = d + (bp.entry_grid_spacing_weight * ratio) / d;
            let spacing = (bp.entry_grid_spacing_pct * mult) / d;
            if spacing >= d {
                spec_empty_order()
            } else {
                let gp = spec_round_up((pos.price * (d + spacing)) / d, ep.price_step as int);
                let price = spec_max(gp, spec_round_up(sp.order_book.ask as int, ep.price_step as int));
                if price > UNIT_CAP {
                    spec_empty_order()
                } else {
                    let qty = spec_entry_volume(ep, bp, abs_i64(pos.size), price, exposure, limit);
                    if qty >= ep.min_qty && spec_cost(qty, price, ep.c_mult as int) >= ep.min_cost {
                        Order {
                            qty: -qty as i64,
                            price: price as u64,
                            order_type: OrderType::EntryGridShort,
                        }
                    } else {
                        spec_empty_order()
                    }
                }
            }
        }
    }
}

pub fn calc_grid_entry_short(
    ep: &ExchangeParams,
    sp: &StateParams,
    bp: &BotParams,
    pos: &Position,
) -> (r: Order)
    requires
        ep.wf(),
        sp.wf(),
        bp.wf(),
        pos.wf(*ep),
        pos.size <= 0,
    ensures
        r == spec_grid_entry_short(*ep, *sp, *bp, *pos),
        valid_order(r, *ep),
        r.qty <= 0,
        r.qty != 0 ==> spec_pos_exposure(*pos, *ep) + spec_cost(
            abs_i64(r.qty), r.price as int, ep.c_mult as int,
        ) <= spec_limit_cost(sp.balance as int, bp.wallet_exposure_limit as int),
{
    let d128: u128 = FRAC_DENOM as u128;
    if pos.size == 0 {
        let r = calc_initial_entry_short(ep, sp, bp);
        assert(spec_pos_exposure(*pos, *ep) == 0) by (nonlinear_arith)
            requires pos.size == 0i64;
        return r;
    }
    let mag: u64 = (-pos.size) as u64;
    let exposure = calc_cost(mag, pos.price, ep.c_mult);
    let limit = calc_limit_cost(sp.balance, bp.wallet_exposure_limit);
    if exposure >= limit {
        return empty_order(ep);
    }
    assert(exposure as int * FRAC_DENOM as int <= u128::MAX) by (nonlinear_arith)
        requires exposure as int <= EXPOSURE_CAP as int;
    let ratio: u128 = exposure * d128 / limit;
    assert(ratio as int <= FRAC_DENOM as int) by (nonlinear_arith)
        requires
            ratio as int == (exposure as int * FRAC_DENOM as int) / (limit as int),
            0 <= exposure as int,
            exposure < limit;
    assert(bp.entry_grid_spacing_weight as int * ratio as int <= u128::MAX) by (nonlinear_arith)
        requires bp.entry_grid_spacing_weight <= 100_000_000u64, ratio as int <= FRAC_DENOM as int;
    let mult: u128 = d128 + (bp.entry_grid_spacing_weight as u128) * ratio / d128;
    assert(mult as int <= FRAC_DENOM as int + 100_000_000) by (nonlinear_arith)
        requires
            mult as int == FRAC_DENOM as int
                + (bp.entry_grid_spacing_weight as int * ratio as int) / (FRAC_DENOM as int),
            bp.entry_grid_spacing_weight <= 100_000_000u64,
            ratio as int <= FRAC_DENOM as int,
            FRAC_DENOM == 1_000_000u64;
    assert(bp.entry_grid_spacing_pct as int * mult as int <= u128::MAX) by (nonlinear_arith)
        requires
            bp.entry_grid_spacing_pct <= 1_000_000u64,
            mult as int <= FRAC_DENOM as int + 100_000_000;
    let spacing: u128 = (bp.entry_grid_spacing_pct as u128) * mult / d128;
    if spacing >= d128 {
        return empty_order(ep);
    }
    assert(pos.price as int * (FRAC_DENOM as int + spacing as int) <= u128::MAX) by (nonlinear_arith)
        requires pos.price <= UNIT_CAP, (spacing as int) < (FRAC_DENOM as int);
    let gp128: u128 = (pos.price as u128) * (d128 + spacing) / d128;
    assert(gp128 as int <= 2 * UNIT_CAP) by (nonlinear_arith)
        requires
            gp128 as int == (pos.price as int * (FRAC_DENOM as int + spacing as int))
                / (FRAC_DENOM as int),
            pos.price <= UNIT_CAP,
            (spacing as int) < (FRAC_DENOM as int),
            FRAC_DENOM == 1_000_000u64;
    let gp = round_up(gp128 as u64, ep.price_step);
    let price = max_u64(gp, round_up(sp.order_book.ask, ep.price_step));
    if price > UNIT_CAP {
        return empty_order(ep);
    }
    let qty = entry_volume(ep, bp, mag, price, exposure, limit);
    if qty >= ep.min_qty {
        let cost = calc_cost(qty, price, ep.c_mult);
        if cost >= ep.min_cost as u128 {
            return Order { qty: -(qty as i64), price, order_type: OrderType::EntryGridShort };
        }
    }
    empty_order(ep)
}

/// Trailing short entry: the mirror of the long rule. Armed once price has
/// risen past the threshold above the average entry price, fired once it
/// has retraced downward by the retracement fraction from the maximum
/// reached.
pub open spec fn spec_trailing_entry_short(
    ep: ExchangeParams,
    sp: StateParams,
    bp: BotParams,
    pos: Position,
    tpb: TrailingPriceBundle,
) -> Order {
    let d = FRAC_DENOM as int;
    if pos.size == 0 {
        spec_empty_order()
    } else {
        let armed = tpb.max_since_open * d >= pos.price * (d + bp.entry_trailing_threshold_pct);
        let fired = tpb.min_since_max * d <= tpb.max_since_open * (d - bp.entry_trailing_retracement_pct);
        if !(armed && fired) {
            spec_empty_order()
        } else {
            let exposure = spec_pos_exposure(pos, ep);
            let limit = spec_limit_cost(sp.balance as int, bp.wallet_exposure_limit as int);
            if exposure >= limit {
                spec_empty_order()
            } else {
                let price = spec_round_up(sp.order_book.ask as int, ep.price_step as int);
                if price > UNIT_CAP {
                    spec_empty_order()
                } else {
                    let qty = spec_entry_volume(ep, bp, abs_i64(pos.size), price, exposure, limit);
                    if qty >= ep.min_qty && spec_cost(qty, price, ep.c_mult as int) >= ep.min_cost {
                        Order {
                            qty: -qty as i64,
                            price: price as u64,
                            order_type: OrderType::EntryTrailingShort,
                        }
                    } else {
                        spec_empty_order()
                    }
                }
            }
        }
    }
}

pub fn calc_trailing_entry_short(
    ep: &ExchangeParams,
    sp: &StateParams,
    bp: &BotParams,
    pos: &Position,
    tpb: &TrailingPriceBundle,
) -> (r: Order)
    requires
        ep.wf(),
        sp.wf(),
        bp.wf(),
        pos.wf(*ep),
        pos.size <= 0,
    ensures
        r == spec_trailing_entry_short(*ep, *sp, *bp, *pos, *tpb),
        valid_order(r, *ep),
        r.qty <= 0,
        r.qty != 0 ==> spec_pos_exposure(*pos, *ep) + spec_cost(
            abs_i64(r.qty), r.price as int, ep.c_mult as int,
        ) <= spec_limit_cost(sp.balance as int, bp.wallet_exposure_limit as int),
{
    let d128: u128 = FRAC_DENOM as u128;
    if pos.size == 0 {
        return empty_order(ep);
    }
    assert(tpb.max_since_open as int * FRAC_DENOM as int <= u128::MAX) by (nonlinear_arith)
        requires tpb.max_since_open <= u64::MAX;
    assert(pos.price as int * (FRAC_DENOM as int + bp.entry_trailing_threshold_pct as int)
        <= u128::MAX) by (nonlinear_arith)
        requires pos.price <= UNIT_CAP, bp.entry_trailing_threshold_pct <= FRAC_DENOM;
    let thr: u64 = FRAC_DENOM + bp.entry_trailing_threshold_pct;
    let armed = (tpb.max_since_open as u128) * d128 >= (pos.price as u128) * (thr as u128);
    assert(tpb.min_since_max as int * FRAC_DENOM as int <= u128::MAX) by (nonlinear_arith)
        requires tpb.min_since_max <= u64::MAX;
    assert(tpb.max_since_open as int * (FRAC_DENOM as int - bp.entry_trailing_retracement_pct as int)
        <= u128::MAX) by (nonlinear_arith)
        requires tpb.max_since_open <= u64::MAX, bp.entry_trailing_retracement_pct <= FRAC_DENOM;
    let ret: u64 = FRAC_DENOM - bp.entry_trailing_retracement_pct;
    let fired = (tpb.min_since_max as u128) * d128 <= (tpb.max_since_open as u128) * (ret as u128);
    if !(armed && fired) {
        return empty_order(ep);
    }
    let mag: u64 = (-pos.size) as u64;
    let exposure = calc_cost(mag, pos.price, ep.c_mult);
    let limit = calc_limit_cost(sp.balance, bp.wallet_exposure_limit);
    if exposure >= limit {
        return empty_order(ep);
    }
    let price = round_up(sp.order_book.ask, ep.price_step);
    if price > UNIT_CAP {
        return empty_order(ep);
    }
    let qty = entry_volume(ep, bp, mag, price, exposure, limit);
    if qty >= ep.min_qty {
        let cost = calc_cost(qty, price, ep.c_mult);
        if cost >= ep.min_cost as u128 {
            return Order { qty: -(qty as i64), price, order_type: OrderType::EntryTrailingShort };
        }
    }
    empty_order(ep)
}

/// Next short entry, blending grid and trailing as the long selector does;
/// for short entries the candidate nearer the touch price is the
/// lower-priced one.
pub open spec fn spec_next_entry_short(
    ep: ExchangeParams,
    sp: StateParams,
    bp: BotParams,
    pos: Position,
    tpb: TrailingPriceBundle,
) -> Order {
    if pos.size == 0 {
        spec_initial_entry_short(ep, sp, bp)
    } else if bp.entry_trailing_grid_ratio <= 0 {
        let t = spec_trailing_entry_short(ep, sp, bp, pos, tpb);
        if t.qty != 0 {
            t
        } else {
            spec_grid_entry_short(ep, sp, bp, pos)
        }
    } else if bp.entry_trailing_grid_ratio >= FRAC_DENOM {
        spec_grid_entry_short(ep, sp, bp, pos)
    } else {
        let g = spec_grid_entry_short(ep, sp, bp, pos);
        let t = spec_trailing_entry_short(ep, sp, bp, pos, tpb);
        if t.qty == 0 {
            g
        } else if g.qty == 0 {
            t
        } else if t.price < g.price {
            t
        } else if g.price < t.price {
            g
        } else if 2 * bp.entry_trailing_grid_ratio >= FRAC_DENOM {
            g
        } else {
            t
        }
    }
}

pub fn calc_next_entry_short(
    ep: &ExchangeParams,
    sp: &StateParams,
    bp: &BotParams,
    pos: &Position,
    tpb: &TrailingPriceBundle,
) -> (r: Order)
    requires
        ep.wf(),
        sp.wf(),
        bp.wf(),
        pos.wf(*ep),
        pos.size <= 0,
    ensures
        r == spec_next_entry_short(*ep, *sp, *bp, *pos, *tpb),
        valid_order(r, *ep),
        r.qty <= 0,
        r.qty != 0 ==> spec_pos_exposure(*pos, *ep) + spec_cost(
            abs_i64(r.qty), r.price as int, ep.c_mult as int,
        ) <= spec_limit_cost(sp.balance as int, bp.wallet_exposure_limit as int),
{
    if pos.size == 0 {
        let r = calc_initial_entry_short(ep, sp, bp);
        assert(spec_pos_exposure(*pos, *ep) == 0) by (nonlinear_arith)
            requires pos.size == 0i64;
        return r;
    }
    if bp.entry_trailing_grid_ratio <= 0 {
        let t = calc_trailing_entry_short(ep, sp, bp, pos, tpb);
        if t.qty != 0 {
            return t;
        }
        return calc_grid_entry_short(ep, sp, bp, pos);
    }
    if bp.entry_trailing_grid_ratio >= FRAC_DENOM as i64 {
        return calc_grid_entry_short(ep, sp, bp, pos);
    }
    let g = calc_grid_entry_short(ep, sp, bp, pos);
    let t = calc_trailing_entry_short(ep, sp, bp, pos, tpb);
    if t.qty == 0 {
        g
    } else if g.qty == 0 {
        t
    } else if t.price < g.price {
        t
    } else if g.price < t.price {
        g
    } else if 2 * bp.entry_trailing_grid_ratio >= FRAC_DENOM as i64 {
        g
    } else {
        t
    }
}

/// The hypothetical position after a short entry fills in full: the size
/// magnitude grows by the order quantity, the average entry price is the
/// floored volume-weighted mean.
pub open spec fn spec_pos_after_short_entry(pos: Position, o: Order) -> Position {
    let mag = abs_i64(pos.size);
    let q = abs_i64(o.qty);
    let ns = mag + q;
    let np = (mag * pos.price + q * o.price) / ns;
    Position { size: -ns as i64, price: np as u64 }
}

pub fn pos_after_short_entry(ep: &ExchangeParams, pos: &Position, o: &Order) -> (r: Position)
    requires
        ep.wf(),
        pos.wf(*ep),
        pos.size <= 0,
        valid_order(*o, *ep),
        o.qty < 0,
        abs_i64(pos.size) + abs_i64(o.qty) <= UNIT_CAP,
    ensures
        r == spec_pos_after_short_entry(*pos, *o),
        r.wf(*ep),
        r.size < 0,
        abs_i64(r.size) == abs_i64(pos.size) + abs_i64(o.qty),
    {
    let mag: u64 = (-pos.size) as u64;
    let q: u64 = (-o.qty) as u64;
    let ns: u64 = mag + q;
    assert(mag as int * pos.price as int + q as int * o.price as int <= u128::MAX)
        by (nonlinear_arith)
        requires
            mag <= UNIT_CAP,
            pos.price <= UNIT_CAP,
            q <= UNIT_CAP,
            o.price <= UNIT_CAP;
    let num: u128 = (mag as u128) * (pos.price as u128) + (q as u128) * (o.price as u128);
    let np128: u128 = num / (ns as u128);
    proof {
        lemma_weighted_avg_bounds(
            mag as int, pos.price as int, q as int, o.price as int, UNIT_CAP as int,
        );
    }
    let r = Position { size: -(ns as i64), price: np128 as u64 };
    proof {
        vstd::arithmetic::div_mod::lemma_add_mod_noop(mag as int, q as int, ep.qty_step as int);
        vstd::arithmetic::div_mod::lemma_small_mod(0nat, ep.qty_step as nat);
        assert(abs_i64(r.size) == mag as int + q as int);
        assert(((mag as int % (ep.qty_step as int)) + (q as int % (ep.qty_step as int)))
            % (ep.qty_step as int) == (mag as int + q as int) % (ep.qty_step as int));
        assert(abs_i64(r.size) % (ep.qty_step as int) == 0);
    }
    r
}

/// The full resting short-entry ladder, the mirror of the long builder:
/// successive rungs carry strictly increasing prices.
pub open spec fn spec_entries_short(
    ep: ExchangeParams,
    sp: StateParams,
    bp: BotParams,
    pos: Position,
    tpb: TrailingPriceBundle,
    last_price: int,
    fuel: nat,
) -> Seq<Order>
    decreases fuel,
{
    if fuel == 0 {
        Seq::empty()
    } else {
        let o = spec_next_entry_short(ep, sp, bp, pos, tpb);
        if o.qty >= 0 {
            Seq::empty()
        } else if o.price <= last_price {
            Seq::empty()
        } else if abs_i64(pos.size) + abs_i64(o.qty) > UNIT_CAP {
            seq![o]
        } else {
            let np = spec_pos_after_short_entry(pos, o);
            seq![o] + spec_entries_short(ep, sp, bp, np, tpb, o.price as int, (fuel - 1) as nat)
        }
    }
}

fn entries_short_rec(
    ep: &ExchangeParams,
    sp: &StateParams,
    bp: &BotParams,
    pos: &Position,
    tpb: &TrailingPriceBundle,
    last_price: u64,
    fuel: u64,
) -> (r: Vec<Order>)
    requires
        ep.wf(),
        sp.wf(),
        bp.wf(),
        pos.wf(*ep),
        pos.size <= 0,
    ensures
        r@ == spec_entries_short(*ep, *sp, *bp, *pos, *tpb, last_price as int, fuel as nat),
        r@.len() <= fuel,
        forall|i: int| 0 <= i < r@.len() ==> valid_order(#[trigger] r@[i], *ep) && r@[i].qty < 0,
        forall|i: int| 0 <= i < r@.len() ==> (#[trigger] r@[i]).price > last_price,
        forall|i: int, j: int| 0 <= i < j < r@.len() ==> (#[trigger] r@[j]).price > (#[trigger] r@[i]).price,
    decreases fuel,
{
    if fuel == 0 {
        return Vec::new();
    }
    let o = calc_next_entry_short(ep, sp, bp, pos, tpb);
    if o.qty >= 0 {
        return Vec::new();
    }
    if o.price <= last_price {
        return Vec::new();
    }
    let mut out: Vec<Order> = Vec::new();
    out.push(o);
    let mag: u64 = (-pos.size) as u64;
    let q: u64 = (-o.qty) as u64;
    if mag + q > UNIT_CAP {
        assert(out@ == seq![o]);
        return out;
    }
    let np = pos_after_short_entry(ep, pos, &o);
    let mut rest = entries_short_rec(ep, sp, bp, &np, tpb, o.price, fuel - 1);
    out.append(&mut rest);
    assert(out@ == seq![o] + spec_entries_short(*ep, *sp, *bp, np, *tpb, o.price as int, (fuel - 1) as nat));
    out
}

/// Builds the complete resting short-entry ladder, nearest rung first, with
/// strictly increasing prices.
pub fn calc_entries_short(
    ep: &ExchangeParams,
    sp: &StateParams,
    bp: &BotParams,
    pos: &Position,
    tpb: &TrailingPriceBundle,
) -> (r: Vec<Order>)
    requires
        ep.wf(),
        sp.wf(),
        bp.wf(),
        pos.wf(*ep),
        pos.size <= 0,
    ensures
        r@ == spec_entries_short(*ep, *sp, *bp, *pos, *tpb, 0, LADDER_MAX_RUNGS as nat),
        r@.len() <= LADDER_MAX_RUNGS,
        forall|i: int| 0 <= i < r@.len() ==> valid_order(#[trigger] r@[i], *ep) && r@[i].qty < 0,
        forall|i: int, j: int| 0 <= i < j < r@.len() ==> (#[trigger] r@[j]).price > (#[trigger] r@[i]).price,
{
    entries_short_rec(ep, sp, bp, pos, tpb, 0, LADDER_MAX_RUNGS)
}

} // verus!
