use passivbot::analysis::{analyze_backtest, calc_day_returns, isqrt, sort_returns};
use passivbot::maths::{round_dn, round_up, FRAC_DENOM};
use passivbot::ranking::{calc_noisiness, calc_volumes};
use passivbot::types::{Candle, Fill, OrderType};

fn candle(high: u64, low: u64, close: u64, volume: u64) -> Candle {
    Candle { high, low, close, volume }
}

#[test]
fn rounding_helpers_exact() {
    assert_eq!(round_dn(1001, 7), 1001);
    assert_eq!(round_dn(1000, 7), 994);
    assert_eq!(round_up(1000, 7), 1001);
    assert_eq!(round_up(994, 7), 994);
    assert_eq!(round_dn(99, 5), 95);
    assert_eq!(round_up(0, 5), 0);
}

#[test]
fn volumes_partial_window_warmup() {
    let hlcvs = vec![vec![
        candle(100, 100, 100, 5),
        candle(100, 100, 100, 7),
        candle(100, 100, 100, 9),
        candle(100, 100, 100, 11),
    ]];
    let v = calc_volumes(&hlcvs, 3);
    // warm-up sums cover only the steps seen so far, never zero-padded
    assert_eq!(v, vec![vec![5, 12, 21, 27]]);
}

#[test]
fn volumes_two_symbols() {
    let hlcvs = vec![
        vec![candle(10, 10, 10, 1), candle(10, 10, 10, 2)],
        vec![candle(10, 10, 10, 30), candle(10, 10, 10, 40)],
    ];
    let v = calc_volumes(&hlcvs, 2);
    assert_eq!(v, vec![vec![1, 3], vec![30, 70]]);
}

#[test]
fn noisiness_partial_window_warmup() {
    // each candle's range-to-close ratio is 20/100 = 0.2
    let hlcvs = vec![vec![
        candle(110, 90, 100, 1),
        candle(110, 90, 100, 1),
        candle(110, 90, 100, 1),
    ]];
    let n = calc_noisiness(&hlcvs, 2);
    let ratio = 20 * FRAC_DENOM / 100;
    assert_eq!(n, vec![vec![ratio, ratio, ratio]]);
}

#[test]
fn noisiness_mixed_window() {
    // ratios 0.2 then 0.0: the two-step mean is 0.1
    let hlcvs = vec![vec![candle(110, 90, 100, 1), candle(100, 100, 100, 1)]];
    let n = calc_noisiness(&hlcvs, 2);
    assert_eq!(n, vec![vec![200_000, 100_000]]);
}

#[test]
fn isqrt_exact_bounds() {
    assert_eq!(isqrt(0), 0);
    assert_eq!(isqrt(1), 1);
    assert_eq!(isqrt(3), 1);
    assert_eq!(isqrt(4), 2);
    assert_eq!(isqrt(1_000_000), 1_000);
    assert_eq!(isqrt(999_999), 999);
}

#[test]
fn sort_and_day_returns() {
    let rets = vec![5i64, -3, 9, 0, -3];
    let sorted = sort_returns(&rets);
    assert_eq!(sorted, vec![-3, -3, 0, 5, 9]);
    // a short equity series is a single day: one relative change
    let eq = vec![1_000i64, 900, 1_100];
    let r = calc_day_returns(&eq);
    assert_eq!(r, vec![100_000]);
    // a losing day truncates toward zero
    let eq = vec![1_000i64, 999];
    let r = calc_day_returns(&eq);
    assert_eq!(r, vec![-1_000]);
}

fn fill_with_pnl(pnl: i64) -> Fill {
    Fill {
        index: 0,
        symbol_idx: 0,
        pnl,
        fee_paid: 0,
        balance: 1_000,
        fill_qty: 1,
        fill_price: 100,
        position_size: 0,
        position_price: 0,
        order_type: OrderType::CloseGridLong,
    }
}

#[test]
fn analysis_metrics_exact() {
    let fills = vec![fill_with_pnl(10), fill_with_pnl(-5), fill_with_pnl(-5)];
    let equities = vec![1_000i64, 900, 1_100];
    let a = analyze_backtest(&fills, &equities, 1_000);
    // one day bucket: (1100 - 1000) / 1000 = 0.1
    assert_eq!(a.adg, 100_000);
    assert_eq!(a.mdg, 100_000);
    // a single day return has zero variance, so the ratio is defined as zero
    assert_eq!(a.sharpe_ratio, 0);
    // the dip to 900 from the 1000 peak is a 10% drawdown
    assert_eq!(a.drawdown_worst, 100_000);
    // losses of 10 against profits of 10
    assert_eq!(a.loss_profit_ratio, FRAC_DENOM);
    // balance stays at the last fill's 1000: gaps are 0, 0.1 and 0.1
    assert_eq!(a.equity_balance_diff_max, 100_000);
    assert_eq!(a.equity_balance_diff_mean, 66_666);
}

#[test]
fn analysis_no_losses() {
    let fills = vec![fill_with_pnl(10)];
    let equities = vec![1_000i64, 1_010];
    let a = analyze_backtest(&fills, &equities, 1_000);
    assert_eq!(a.loss_profit_ratio, 0);
    assert_eq!(a.drawdown_worst, 0);
}

#[test]
fn analysis_losses_without_profit() {
    let fills = vec![fill_with_pnl(-10)];
    let equities = vec![1_000i64, 990];
    let a = analyze_backtest(&fills, &equities, 1_000);
    assert_eq!(a.loss_profit_ratio, u64::MAX);
}
