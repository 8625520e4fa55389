use passivbot::closes::{
    calc_closes_long, calc_grid_close_long, calc_grid_close_short, calc_next_close_long,
    calc_next_close_short, calc_trailing_close_long, calc_trailing_close_short,
    calc_unstuck_close_long, calc_unstuck_close_short,
};
use passivbot::entries::{
    calc_entries_long, calc_grid_entry_long, calc_grid_entry_short, calc_next_entry_long,
    calc_next_entry_short, calc_trailing_entry_long,
};
use passivbot::maths::FRAC_DENOM;
use passivbot::types::{
    BotParams, EMABands, ExchangeParams, Order, OrderBook, OrderType, Position, StateParams,
    TrailingPriceBundle,
};

fn ep_unit() -> ExchangeParams {
    ExchangeParams { qty_step: 1, price_step: 1, min_qty: 1, min_cost: 1, c_mult: FRAC_DENOM }
}

fn bp_zero() -> BotParams {
    BotParams {
        close_grid_markup_range: 0,
        close_grid_min_markup: 0,
        close_grid_qty_pct: 0,
        close_trailing_grid_ratio: 0,
        close_trailing_qty_pct: 0,
        close_trailing_retracement_pct: 0,
        close_trailing_threshold_pct: 0,
        entry_grid_double_down_factor: 0,
        entry_grid_spacing_weight: 0,
        entry_grid_spacing_pct: 0,
        entry_initial_ema_dist: 0,
        entry_initial_qty_pct: 0,
        entry_trailing_grid_ratio: 0,
        entry_trailing_retracement_pct: 0,
        entry_trailing_threshold_pct: 0,
        ema_span_0: 1,
        ema_span_1: 1,
        n_positions: 1,
        total_wallet_exposure_limit: 0,
        wallet_exposure_limit: 0,
        unstuck_close_pct: 0,
        unstuck_ema_dist: 0,
        unstuck_loss_allowance_pct: 0,
        unstuck_threshold: 0,
    }
}

fn sp_at(balance: u64, bid: u64, ask: u64, lower: u64, upper: u64) -> StateParams {
    StateParams {
        balance,
        order_book: OrderBook { bid, ask },
        ema_bands: EMABands { lower, upper },
    }
}

#[test]
fn initial_entry_long_exact() {
    let ep = ExchangeParams { qty_step: 5, price_step: 7, min_qty: 5, min_cost: 10, c_mult: FRAC_DENOM };
    let sp = sp_at(1_000_000, 1001, 1003, 1001, 1003);
    let mut bp = bp_zero();
    bp.wallet_exposure_limit = FRAC_DENOM;
    bp.entry_initial_qty_pct = 100_000;
    let pos = Position { size: 0, price: 0 };
    let o = calc_grid_entry_long(&ep, &sp, &bp, &pos);
    // budget = 1e6 * 1.0 * 0.1 = 100_000; raw qty = 100_000 / 1001 = 99 -> rounded to 95
    assert_eq!(o.qty, 95);
    assert_eq!(o.price, 1001);
    assert_eq!(o.order_type, OrderType::EntryInitialLong);
    // rounding invariant on a non-trivial step pair
    assert_eq!(o.qty % 5, 0);
    assert_eq!(o.price % 7, 0);
    assert!(o.qty as u64 >= ep.min_qty);
    assert!(o.qty as u64 * o.price >= ep.min_cost);
}

#[test]
fn infeasible_entry_is_empty() {
    let ep = ExchangeParams {
        qty_step: 1,
        price_step: 1,
        min_qty: 1_000,
        min_cost: 1,
        c_mult: FRAC_DENOM,
    };
    let sp = sp_at(1_000, 100, 100, 100, 100);
    let mut bp = bp_zero();
    bp.wallet_exposure_limit = FRAC_DENOM;
    bp.entry_initial_qty_pct = 100_000;
    let pos = Position { size: 0, price: 0 };
    // budget 100 buys one unit at price 100: below min_qty, so no action
    let o = calc_grid_entry_long(&ep, &sp, &bp, &pos);
    assert_eq!(o.qty, 0);
    assert_eq!(o.order_type, OrderType::Empty);
}

#[test]
fn grid_entry_long_second_rung() {
    let ep = ep_unit();
    let sp = sp_at(1_000, 100, 100, 100, 100);
    let mut bp = bp_zero();
    bp.wallet_exposure_limit = FRAC_DENOM;
    bp.entry_initial_qty_pct = 100_000;
    bp.entry_grid_spacing_pct = 100_000;
    bp.entry_grid_double_down_factor = FRAC_DENOM;
    let pos = Position { size: 1, price: 100 };
    let o = calc_grid_entry_long(&ep, &sp, &bp, &pos);
    // spacing 10% below the average entry price
    assert_eq!(o.qty, 1);
    assert_eq!(o.price, 90);
    assert_eq!(o.order_type, OrderType::EntryGridLong);
}

#[test]
fn grid_entry_short_second_rung() {
    let ep = ep_unit();
    let sp = sp_at(1_000, 100, 100, 100, 100);
    let mut bp = bp_zero();
    bp.wallet_exposure_limit = FRAC_DENOM;
    bp.entry_initial_qty_pct = 100_000;
    bp.entry_grid_spacing_pct = 100_000;
    bp.entry_grid_double_down_factor = FRAC_DENOM;
    let pos = Position { size: -1, price: 100 };
    let o = calc_grid_entry_short(&ep, &sp, &bp, &pos);
    assert_eq!(o.qty, -1);
    assert_eq!(o.price, 110);
    assert_eq!(o.order_type, OrderType::EntryGridShort);
}

#[test]
fn flat_close_always_empty() {
    let ep = ep_unit();
    let sp = sp_at(1_000, 100, 100, 100, 100);
    let mut bp = bp_zero();
    bp.wallet_exposure_limit = FRAC_DENOM;
    bp.close_grid_qty_pct = FRAC_DENOM;
    bp.close_trailing_qty_pct = FRAC_DENOM;
    bp.unstuck_close_pct = FRAC_DENOM;
    let flat = Position { size: 0, price: 0 };
    let tpb = TrailingPriceBundle::default();
    assert_eq!(calc_grid_close_long(&ep, &sp, &bp, &flat).qty, 0);
    assert_eq!(calc_trailing_close_long(&ep, &sp, &bp, &flat, &tpb).qty, 0);
    assert_eq!(calc_next_close_long(&ep, &sp, &bp, &flat, &tpb).qty, 0);
    assert_eq!(calc_unstuck_close_long(&ep, &sp, &bp, &flat, 1_000).qty, 0);
    assert_eq!(calc_grid_close_short(&ep, &sp, &bp, &flat).qty, 0);
    assert_eq!(calc_trailing_close_short(&ep, &sp, &bp, &flat, &tpb).qty, 0);
    assert_eq!(calc_next_close_short(&ep, &sp, &bp, &flat, &tpb).qty, 0);
    assert_eq!(calc_unstuck_close_short(&ep, &sp, &bp, &flat, 1_000).qty, 0);
}

#[test]
fn trailing_close_long_fires_and_is_stable() {
    let ep = ep_unit();
    let sp = sp_at(100_000, 103, 104, 100, 100);
    let mut bp = bp_zero();
    bp.wallet_exposure_limit = FRAC_DENOM;
    bp.close_trailing_qty_pct = 500_000;
    bp.close_trailing_threshold_pct = 50_000;
    bp.close_trailing_retracement_pct = 10_000;
    let pos = Position { size: 10, price: 100 };
    // armed: the high reached 110 >= 105; fired: retraced to 108 <= 108.9
    let tpb = TrailingPriceBundle {
        min_since_open: 99,
        max_since_open: 110,
        min_since_max: 108,
        max_since_min: 0,
    };
    let o1 = calc_trailing_close_long(&ep, &sp, &bp, &pos, &tpb);
    assert_eq!(o1.qty, -5);
    assert_eq!(o1.price, 104);
    assert_eq!(o1.order_type, OrderType::CloseTrailingLong);
    // unchanged bundle: re-invoking yields the identical order
    let o2 = calc_trailing_close_long(&ep, &sp, &bp, &pos, &tpb);
    assert_eq!(o1, o2);
}

#[test]
fn trailing_close_long_unarmed_is_empty() {
    let ep = ep_unit();
    let sp = sp_at(100_000, 103, 104, 100, 100);
    let mut bp = bp_zero();
    bp.wallet_exposure_limit = FRAC_DENOM;
    bp.close_trailing_qty_pct = 500_000;
    bp.close_trailing_threshold_pct = 50_000;
    bp.close_trailing_retracement_pct = 10_000;
    let pos = Position { size: 10, price: 100 };
    // the high never reached the 5% threshold
    let tpb = TrailingPriceBundle {
        min_since_open: 99,
        max_since_open: 104,
        min_since_max: 101,
        max_since_min: 0,
    };
    let o = calc_trailing_close_long(&ep, &sp, &bp, &pos, &tpb);
    assert_eq!(o.qty, 0);
}

#[test]
fn trailing_entry_long_fires_at_bid() {
    let ep = ep_unit();
    let sp = sp_at(100_000, 93, 94, 100, 100);
    let mut bp = bp_zero();
    bp.wallet_exposure_limit = FRAC_DENOM;
    bp.entry_grid_double_down_factor = FRAC_DENOM;
    bp.entry_trailing_threshold_pct = 50_000;
    bp.entry_trailing_retracement_pct = 10_000;
    let pos = Position { size: 10, price: 100 };
    // armed: the low reached 90 <= 95; fired: bounced to 92 >= 90.9
    let tpb = TrailingPriceBundle {
        min_since_open: 90,
        max_since_open: 0,
        min_since_max: u64::MAX,
        max_since_min: 92,
    };
    let o = calc_trailing_entry_long(&ep, &sp, &bp, &pos, &tpb);
    assert_eq!(o.qty, 10);
    assert_eq!(o.price, 93);
    assert_eq!(o.order_type, OrderType::EntryTrailingLong);
}

#[test]
fn selector_prefers_trailing_when_ratio_nonpositive() {
    let ep = ep_unit();
    let sp = sp_at(100_000, 93, 94, 100, 100);
    let mut bp = bp_zero();
    bp.wallet_exposure_limit = FRAC_DENOM;
    bp.entry_grid_double_down_factor = FRAC_DENOM;
    bp.entry_grid_spacing_pct = 100_000;
    bp.entry_trailing_threshold_pct = 50_000;
    bp.entry_trailing_retracement_pct = 10_000;
    bp.entry_trailing_grid_ratio = 0;
    let pos = Position { size: 10, price: 100 };
    let tpb = TrailingPriceBundle {
        min_since_open: 90,
        max_since_open: 0,
        min_since_max: u64::MAX,
        max_since_min: 92,
    };
    let o = calc_next_entry_long(&ep, &sp, &bp, &pos, &tpb);
    assert_eq!(o.order_type, OrderType::EntryTrailingLong);
    // with the ratio at one, the grid candidate wins outright
    bp.entry_trailing_grid_ratio = FRAC_DENOM as i64;
    let o = calc_next_entry_long(&ep, &sp, &bp, &pos, &tpb);
    assert_eq!(o.order_type, OrderType::EntryGridLong);
}

#[test]
fn selector_short_flat_gives_initial() {
    let ep = ep_unit();
    let sp = sp_at(100_000, 100, 100, 100, 100);
    let mut bp = bp_zero();
    bp.wallet_exposure_limit = FRAC_DENOM;
    bp.entry_initial_qty_pct = 100_000;
    let pos = Position { size: 0, price: 0 };
    let tpb = TrailingPriceBundle::default();
    let o = calc_next_entry_short(&ep, &sp, &bp, &pos, &tpb);
    assert_eq!(o.order_type, OrderType::EntryInitialShort);
    assert_eq!(o.qty, -100);
    assert_eq!(o.price, 100);
}

#[test]
fn entry_ladder_prices_strictly_decrease() {
    let ep = ep_unit();
    let sp = sp_at(1_000_000, 100, 100, 100, 100);
    let mut bp = bp_zero();
    bp.wallet_exposure_limit = FRAC_DENOM;
    bp.entry_initial_qty_pct = 100_000;
    bp.entry_grid_spacing_pct = 100_000;
    bp.entry_grid_double_down_factor = FRAC_DENOM;
    bp.entry_trailing_grid_ratio = FRAC_DENOM as i64;
    let pos = Position { size: 0, price: 0 };
    let tpb = TrailingPriceBundle::default();
    let ladder = calc_entries_long(&ep, &sp, &bp, &pos, &tpb);
    assert!(ladder.len() >= 2);
    for w in ladder.windows(2) {
        assert!(w[1].price < w[0].price);
    }
    for o in ladder.iter() {
        assert!(o.qty > 0);
        assert_eq!(o.qty % ep.qty_step as i64, 0);
        assert_eq!(o.price % ep.price_step, 0);
    }
}

#[test]
fn close_ladder_prices_strictly_increase() {
    let ep = ep_unit();
    let sp = sp_at(1_000_000, 100, 100, 100, 100);
    let mut bp = bp_zero();
    bp.wallet_exposure_limit = FRAC_DENOM;
    bp.close_grid_min_markup = 20_000;
    bp.close_grid_markup_range = 100_000;
    bp.close_grid_qty_pct = 250_000;
    bp.close_trailing_grid_ratio = FRAC_DENOM as i64;
    let pos = Position { size: 100, price: 10_000 };
    let tpb = TrailingPriceBundle::default();
    let ladder = calc_closes_long(&ep, &sp, &bp, &pos, &tpb);
    // a quarter of the remaining position per rung, each priced further
    // into profit than the last
    assert_eq!(ladder.len(), 15);
    assert_eq!(ladder[0].price, 10_200);
    for w in ladder.windows(2) {
        assert!(w[1].price > w[0].price);
    }
    let total: i64 = ladder.iter().map(|o| -o.qty).sum();
    assert_eq!(total, 100);
}

#[test]
fn unstuck_close_long_caps_loss() {
    let ep = ep_unit();
    let sp = sp_at(100_000, 89, 90, 95, 100);
    let mut bp = bp_zero();
    bp.wallet_exposure_limit = FRAC_DENOM;
    bp.unstuck_close_pct = FRAC_DENOM;
    bp.unstuck_threshold = 500_000;
    bp.unstuck_ema_dist = 0;
    // entry price 200 sits far above the upper band at 100: stuck
    let pos = Position { size: 10, price: 200 };
    let o = calc_unstuck_close_long(&ep, &sp, &bp, &pos, 500);
    // full reduction would lose 10 * (200 - 100) = 1000; the allowance of
    // 500 caps the quantity at 5
    assert_eq!(o.qty, -5);
    assert_eq!(o.price, 100);
    assert_eq!(o.order_type, OrderType::CloseUnstuckLong);
    let loss = (pos.price - o.price) * (-o.qty) as u64;
    assert!(loss <= 500);
    // with no allowance left, nothing can be closed at a loss
    let o = calc_unstuck_close_long(&ep, &sp, &bp, &pos, 0);
    assert_eq!(o.qty, 0);
}

#[test]
fn unstuck_close_short_caps_loss() {
    let ep = ep_unit();
    let sp = sp_at(100_000, 200, 201, 200, 210);
    let mut bp = bp_zero();
    bp.wallet_exposure_limit = FRAC_DENOM;
    bp.unstuck_close_pct = FRAC_DENOM;
    bp.unstuck_threshold = 500_000;
    bp.unstuck_ema_dist = 0;
    // entry price 100 sits far below the lower band at 200: stuck
    let pos = Position { size: -10, price: 100 };
    let o = calc_unstuck_close_short(&ep, &sp, &bp, &pos, 500);
    assert_eq!(o.qty, 5);
    assert_eq!(o.price, 200);
    assert_eq!(o.order_type, OrderType::CloseUnstuckShort);
    let loss = (o.price - pos.price) * o.qty as u64;
    assert!(loss <= 500);
}

#[test]
fn not_stuck_means_no_unstuck_order() {
    let ep = ep_unit();
    let sp = sp_at(100_000, 99, 100, 95, 100);
    let mut bp = bp_zero();
    bp.wallet_exposure_limit = FRAC_DENOM;
    bp.unstuck_close_pct = FRAC_DENOM;
    bp.unstuck_threshold = 500_000;
    // entry price 110 is within 50% of the upper band at 100
    let pos = Position { size: 10, price: 110 };
    let o = calc_unstuck_close_long(&ep, &sp, &bp, &pos, 1_000);
    assert_eq!(o.qty, 0);
}

#[test]
fn empty_order_shape() {
    let o = Order::empty();
    assert_eq!(o.qty, 0);
    assert_eq!(o.price, 0);
    assert_eq!(o.order_type, OrderType::Empty);
    assert_eq!(o.order_type.name(), "empty");
}

#[test]
fn order_type_canonical_names() {
    assert_eq!(OrderType::EntryInitialLong.name(), "entry_initial_long");
    assert_eq!(OrderType::EntryGridLong.name(), "entry_grid_long");
    assert_eq!(OrderType::EntryTrailingLong.name(), "entry_trailing_long");
    assert_eq!(OrderType::CloseGridLong.name(), "close_grid_long");
    assert_eq!(OrderType::CloseTrailingLong.name(), "close_trailing_long");
    assert_eq!(OrderType::CloseUnstuckLong.name(), "close_unstuck_long");
    assert_eq!(OrderType::EntryInitialShort.name(), "entry_initial_short");
    assert_eq!(OrderType::EntryGridShort.name(), "entry_grid_short");
    assert_eq!(OrderType::EntryTrailingShort.name(), "entry_trailing_short");
    assert_eq!(OrderType::CloseGridShort.name(), "close_grid_short");
    assert_eq!(OrderType::CloseTrailingShort.name(), "close_trailing_short");
    assert_eq!(OrderType::CloseUnstuckShort.name(), "close_unstuck_short");
}
