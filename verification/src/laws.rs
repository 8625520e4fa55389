//! Laws of the decision layer, stated and proved over the spec-level
//! mirrors that the executable generators are pinned to.

use vstd::prelude::*;

use crate::closes::{
    spec_grid_close_long, spec_grid_close_short, spec_next_close_long, spec_next_close_short,
    spec_trailing_close_long, spec_trailing_close_short, spec_unstuck_close_long,
    spec_unstuck_close_short,
};
use crate::entries::spec_empty_order;
use crate::types::{BotParams, ExchangeParams, Order, Position, StateParams, TrailingPriceBundle};

verus! {

/// Flat-position idempotence: every close generator, called on a flat
/// position, returns the empty order — grid, trailing, unstuck and the
/// blended selector, on both sides.
pub proof fn lemma_flat_close_is_empty(
    ep: ExchangeParams,
    sp: StateParams,
    bp: BotParams,
    pos: Position,
    tpb: TrailingPriceBundle,
    allowance_left: u64,
)
    requires
        pos.size == 0,
    ensures
        spec_grid_close_long(ep, sp, bp, pos) == spec_empty_order(),
        spec_trailing_close_long(ep, sp, bp, pos, tpb) == spec_empty_order(),
        spec_unstuck_close_long(ep, sp, bp, pos, allowance_left) == spec_empty_order(),
        spec_next_close_long(ep, sp, bp, pos, tpb) == spec_empty_order(),
        spec_grid_close_short(ep, sp, bp, pos) == spec_empty_order(),
        spec_trailing_close_short(ep, sp, bp, pos, tpb) == spec_empty_order(),
        spec_unstuck_close_short(ep, sp, bp, pos, allowance_left) == spec_empty_order(),
        spec_next_close_short(ep, sp, bp, pos, tpb) == spec_empty_order(),
{
}

/// Trailing stability: each trailing generator is a function of its
/// arguments, so once it has fired for a given bundle state, re-invoking
/// it with the unchanged bundle (and unchanged position and snapshot)
/// yields the very same order — no re-firing or drift without new price
/// movement. `r1` and `r2` stand for the results of two invocations of one
/// generator on the same inputs, as the generators' own contracts pin them.
pub proof fn lemma_trailing_refire_stable(
    ep: ExchangeParams,
    sp: StateParams,
    bp: BotParams,
    pos: Position,
    tpb: TrailingPriceBundle,
    r1: Order,
    r2: Order,
)
    ensures
        r1 == spec_trailing_close_long(ep, sp, bp, pos, tpb) && r2 == spec_trailing_close_long(
            ep, sp, bp, pos, tpb,
        ) ==> r1 == r2,
        r1 == spec_trailing_close_short(ep, sp, bp, pos, tpb) && r2 == spec_trailing_close_short(
            ep, sp, bp, pos, tpb,
        ) ==> r1 == r2,
        r1 == crate::entries::spec_trailing_entry_long(ep, sp, bp, pos, tpb) && r2
            == crate::entries::spec_trailing_entry_long(ep, sp, bp, pos, tpb) ==> r1 == r2,
        r1 == crate::entries::spec_trailing_entry_short(ep, sp, bp, pos, tpb) && r2
            == crate::entries::spec_trailing_entry_short(ep, sp, bp, pos, tpb) ==> r1 == r2,
{
}

} // verus!
