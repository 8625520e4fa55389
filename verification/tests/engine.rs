use passivbot::backtest::{Backtest, ConfigError, RunErrorKind};
use passivbot::maths::FRAC_DENOM;
use passivbot::types::{BacktestParams, BotParams, BotParamsPair, Candle, ExchangeParams, OrderType};

fn ep_unit() -> ExchangeParams {
    ExchangeParams { qty_step: 1, price_step: 1, min_qty: 1, min_cost: 1, c_mult: FRAC_DENOM }
}

fn bp_idle() -> BotParams {
    BotParams {
        close_grid_markup_range: 0,
        close_grid_min_markup: 0,
        close_grid_qty_pct: 0,
        close_trailing_grid_ratio: 0,
        close_trailing_qty_pct: 0,
        close_trailing_retracement_pct: 0,
        close_trailing_threshold_pct: 0,
        entry_grid_double_down_factor: 0,
        entry_grid_spacing_weight: 0,
        entry_grid_spacing_pct: 0,
        entry_initial_ema_dist: 0,
        entry_initial_qty_pct: 0,
        entry_trailing_grid_ratio: 0,
        entry_trailing_retracement_pct: 0,
        entry_trailing_threshold_pct: 0,
        ema_span_0: 1,
        ema_span_1: 1,
        n_positions: 0,
        total_wallet_exposure_limit: 0,
        wallet_exposure_limit: 0,
        unstuck_close_pct: 0,
        unstuck_ema_dist: 0,
        unstuck_loss_allowance_pct: 0,
        unstuck_threshold: 0,
    }
}

fn round_trip_config() -> (
    Vec<Vec<Candle>>,
    Vec<Vec<usize>>,
    BotParamsPair,
    Vec<ExchangeParams>,
    BacktestParams,
) {
    let c = |p: u64| Candle { high: p, low: p, close: p, volume: 10 };
    let hlcvs = vec![vec![c(100), c(110)]];
    let preferred = vec![vec![0], vec![0]];
    let mut long = bp_idle();
    long.wallet_exposure_limit = FRAC_DENOM;
    long.total_wallet_exposure_limit = FRAC_DENOM;
    long.n_positions = 1;
    long.entry_initial_qty_pct = 100_000;
    long.entry_grid_spacing_pct = 100_000;
    long.entry_grid_double_down_factor = FRAC_DENOM;
    long.entry_trailing_grid_ratio = FRAC_DENOM as i64;
    long.close_grid_min_markup = 50_000;
    long.close_grid_qty_pct = FRAC_DENOM;
    long.close_trailing_grid_ratio = FRAC_DENOM as i64;
    let bpp = BotParamsPair { long, short: bp_idle() };
    let eps = vec![ep_unit()];
    let btp = BacktestParams {
        starting_balance: 1_000,
        maker_fee: 10_000,
        symbols: vec!["COIN".to_string()],
    };
    (hlcvs, preferred, bpp, eps, btp)
}

#[test]
fn round_trip_two_fills() {
    let (hlcvs, preferred, bpp, eps, btp) = round_trip_config();
    let mut bt = Backtest::new(hlcvs, preferred, bpp, eps, btp).unwrap();
    bt.run().unwrap();
    // one entry at 100, one full close at 110, each charged a 1% maker fee
    assert_eq!(bt.fills.len(), 2);
    let entry = &bt.fills[0];
    assert_eq!(entry.index, 0);
    assert_eq!(entry.fill_qty, 1);
    assert_eq!(entry.fill_price, 100);
    assert_eq!(entry.pnl, 0);
    assert_eq!(entry.fee_paid, 1);
    assert_eq!(entry.balance, 999);
    assert_eq!(entry.position_size, 1);
    assert_eq!(entry.position_price, 100);
    assert_eq!(entry.order_type, OrderType::EntryInitialLong);
    let close = &bt.fills[1];
    assert_eq!(close.index, 1);
    assert_eq!(close.fill_qty, -1);
    assert_eq!(close.fill_price, 110);
    assert_eq!(close.pnl, 10);
    assert_eq!(close.fee_paid, 1);
    assert_eq!(close.balance, 1_008);
    assert_eq!(close.position_size, 0);
    assert_eq!(close.order_type, OrderType::CloseGridLong);
    // starting balance plus realized pnl minus two maker-fee charges
    assert_eq!(bt.balance, 1_000 + 10 - 2);
    assert_eq!(bt.equities, vec![999, 1_008]);
}

#[test]
fn deterministic_replay() {
    let (hlcvs, preferred, bpp, eps, btp) = round_trip_config();
    let mut a = Backtest::new(
        hlcvs.clone(), preferred.clone(), bpp, eps.clone(), btp.clone(),
    ).unwrap();
    a.run().unwrap();
    let mut b = Backtest::new(hlcvs, preferred, bpp, eps, btp).unwrap();
    b.run().unwrap();
    assert_eq!(a.fills, b.fills);
    assert_eq!(a.equities, b.equities);
    assert_eq!(a.balance, b.balance);
}

#[test]
fn exposure_never_exceeds_budget() {
    // a long falling series keeps inviting re-entries; the engine must keep
    // total notional exposure within the budget at every step
    let mut candles: Vec<Candle> = Vec::new();
    let mut p: u64 = 10_000;
    for _ in 0..50 {
        candles.push(Candle { high: p + 5, low: p - 5, close: p, volume: 10 });
        p = p - 150;
    }
    let n_steps = candles.len();
    let hlcvs = vec![candles];
    let preferred = vec![vec![0usize]; n_steps];
    let mut long = bp_idle();
    long.wallet_exposure_limit = FRAC_DENOM;
    long.total_wallet_exposure_limit = FRAC_DENOM;
    long.n_positions = 1;
    long.entry_initial_qty_pct = 200_000;
    long.entry_grid_spacing_pct = 10_000;
    long.entry_grid_double_down_factor = FRAC_DENOM;
    long.entry_trailing_grid_ratio = FRAC_DENOM as i64;
    long.close_grid_min_markup = 50_000;
    long.close_grid_qty_pct = FRAC_DENOM;
    long.close_trailing_grid_ratio = FRAC_DENOM as i64;
    let bpp = BotParamsPair { long, short: bp_idle() };
    let eps = vec![ep_unit()];
    let btp = BacktestParams {
        starting_balance: 1_000_000,
        maker_fee: 0,
        symbols: vec!["COIN".to_string()],
    };
    let mut bt = Backtest::new(hlcvs, preferred, bpp, eps, btp).unwrap();
    let mut max_exposure: u128 = 0;
    for t in 0..n_steps {
        bt.step(t).unwrap();
        let pos = bt.poss_long[0];
        let expo = pos.size as u128 * pos.price as u128;
        if expo > max_exposure {
            max_exposure = expo;
        }
    }
    assert!(bt.fills.len() > 1);
    // budget: total_wallet_exposure_limit (1.0) times the starting balance
    assert!(max_exposure <= 1_000_000);
}

#[test]
fn new_rejects_bad_config() {
    let (hlcvs, preferred, bpp, eps, btp) = round_trip_config();
    assert!(matches!(
        Backtest::new(Vec::new(), preferred.clone(), bpp, eps.clone(), btp.clone()),
        Err(ConfigError::NoSymbols)
    ));
    let mut bad_eps = eps.clone();
    bad_eps[0].qty_step = 0;
    assert!(matches!(
        Backtest::new(hlcvs.clone(), preferred.clone(), bpp, bad_eps, btp.clone()),
        Err(ConfigError::InvalidExchangeParams)
    ));
    let mut bad_bpp = bpp;
    bad_bpp.long.entry_initial_qty_pct = FRAC_DENOM + 1;
    assert!(matches!(
        Backtest::new(hlcvs.clone(), preferred.clone(), bad_bpp, eps.clone(), btp.clone()),
        Err(ConfigError::InvalidBotParams)
    ));
    let bad_pref = vec![vec![7], vec![0]];
    assert!(matches!(
        Backtest::new(hlcvs.clone(), bad_pref, bpp, eps.clone(), btp.clone()),
        Err(ConfigError::InvalidPreferred)
    ));
    let bad_candles = vec![vec![
        Candle { high: 90, low: 100, close: 95, volume: 1 },
        Candle { high: 90, low: 100, close: 95, volume: 1 },
    ]];
    assert!(matches!(
        Backtest::new(bad_candles, preferred, bpp, eps, btp),
        Err(ConfigError::InvalidCandle)
    ));
}

#[test]
fn ineligible_symbol_gets_no_entry() {
    let (hlcvs, _, bpp, eps, btp) = round_trip_config();
    // the preferred list never names the symbol, so nothing is ever entered
    let preferred: Vec<Vec<usize>> = vec![vec![], vec![]];
    let mut bt = Backtest::new(hlcvs, preferred, bpp, eps, btp).unwrap();
    bt.run().unwrap();
    assert_eq!(bt.fills.len(), 0);
    assert_eq!(bt.balance, 1_000);
    assert_eq!(bt.equities, vec![1_000, 1_000]);
}

#[test]
fn unstuck_losses_capped_by_allowance() {
    // price collapses and stays down: the unstuck close must realize losses
    // only within the loss allowance measured against the balance at the
    // time of each close
    let mut candles = vec![Candle { high: 10_000, low: 10_000, close: 10_000, volume: 1 }];
    for _ in 0..5 {
        candles.push(Candle { high: 4_000, low: 4_000, close: 4_000, volume: 1 });
    }
    let n_steps = candles.len();
    let hlcvs = vec![candles];
    let preferred = vec![vec![0usize]; n_steps];
    let mut long = bp_idle();
    long.wallet_exposure_limit = FRAC_DENOM;
    long.total_wallet_exposure_limit = FRAC_DENOM;
    long.n_positions = 1;
    long.entry_initial_qty_pct = 200_000;
    long.entry_trailing_grid_ratio = FRAC_DENOM as i64;
    long.close_trailing_grid_ratio = FRAC_DENOM as i64;
    long.unstuck_threshold = 100_000;
    long.unstuck_close_pct = 500_000;
    long.unstuck_loss_allowance_pct = 10_000;
    let bpp = BotParamsPair { long, short: bp_idle() };
    let eps = vec![ep_unit()];
    let btp = BacktestParams {
        starting_balance: 1_000_000,
        maker_fee: 0,
        symbols: vec!["COIN".to_string()],
    };
    let mut bt = Backtest::new(hlcvs, preferred, bpp, eps, btp).unwrap();
    bt.run().unwrap();
    // one entry of 20 at 10000, then a single unstuck reduction of 1 unit:
    // a larger reduction would overrun the 1% loss allowance
    assert_eq!(bt.fills.len(), 2);
    let entry = &bt.fills[0];
    assert_eq!(entry.fill_qty, 20);
    assert_eq!(entry.fill_price, 10_000);
    let unstuck = &bt.fills[1];
    assert_eq!(unstuck.order_type, OrderType::CloseUnstuckLong);
    assert_eq!(unstuck.fill_qty, -1);
    assert_eq!(unstuck.fill_price, 4_000);
    assert_eq!(unstuck.pnl, -6_000);
    // the loss stayed within 1% of the balance at the time of the close
    let balance_before = unstuck.balance as i64 - unstuck.pnl + unstuck.fee_paid;
    assert!(-unstuck.pnl <= balance_before / 100);
    assert_eq!(bt.unstuck_used, 6_000);
}

#[test]
fn ladder_overflow_is_fatal() {
    // a mid-run state whose close grid sheds one percent of the position
    // per rung: the ladder hits its rung budget, which the engine treats as
    // a logic defect, never a silent truncation
    let p: u64 = 1_000_000_000;
    let candles = vec![
        Candle { high: p, low: p, close: p, volume: 1 },
        Candle { high: p, low: p, close: p, volume: 1 },
    ];
    let hlcvs = vec![candles];
    let preferred = vec![vec![0usize], vec![0usize]];
    let mut long = bp_idle();
    long.wallet_exposure_limit = FRAC_DENOM;
    long.total_wallet_exposure_limit = FRAC_DENOM;
    long.n_positions = 1;
    long.close_grid_min_markup = 10_000;
    long.close_grid_markup_range = 100_000;
    long.close_grid_qty_pct = 10_000;
    long.close_trailing_grid_ratio = FRAC_DENOM as i64;
    long.entry_trailing_grid_ratio = FRAC_DENOM as i64;
    let bpp = BotParamsPair { long, short: bp_idle() };
    let eps = vec![ep_unit()];
    let btp = BacktestParams {
        starting_balance: 1_000_000_000_000,
        maker_fee: 0,
        symbols: vec!["COIN".to_string()],
    };
    let mut bt = Backtest::new(hlcvs, preferred, bpp, eps, btp).unwrap();
    bt.poss_long[0] = passivbot::types::Position { size: 1_000, price: p };
    let res = bt.step(0);
    match res {
        Err(e) => {
            assert_eq!(e.kind, RunErrorKind::LadderOverflow);
            assert_eq!(e.symbol_idx, 0);
            assert_eq!(e.step, 0);
        },
        Ok(()) => panic!("a full-length ladder must abort the run"),
    }
}

#[test]
fn idle_engine_always_succeeds() {
    // with no position slots configured and every position flat, nothing
    // can fill and no fatal condition can arise: the run must succeed
    let (hlcvs, preferred, mut bpp, eps, btp) = round_trip_config();
    bpp.long.n_positions = 0;
    let mut bt = Backtest::new(hlcvs, preferred, bpp, eps, btp).unwrap();
    bt.run().unwrap();
    assert_eq!(bt.fills.len(), 0);
    assert_eq!(bt.equities, vec![1_000, 1_000]);
}
