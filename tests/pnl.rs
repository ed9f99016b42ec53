use chrono::Utc;
use mtrade::backtest::{run_backtest, BacktestConfig};
use mtrade::fixed::SCALE;
use mtrade::model::{Action, ActionSide, Bar, FeatureBar, FeatureFrame, Symbol, TradeEvent, ValidationError};

fn fx(x: f64) -> u64 {
    (x * SCALE as f64).round() as u64
}

fn frame_of(prices: &[f64]) -> FeatureFrame {
    let base = Utc::now().timestamp_millis();
    let rows = prices
        .iter()
        .enumerate()
        .map(|(i, price)| FeatureBar {
            bar: Bar {
                open_time: base + 60_000 * i as i64,
                close_time: base + 60_000 * (i as i64 + 1),
                open: fx(*price),
                high: fx(*price),
                low: fx(*price),
                close: fx(*price),
                volume: fx(1.0),
                trades: 1,
            },
            ema_fast: None,
            ema_slow: None,
            rsi: None,
            cmf: None,
        })
        .collect();
    FeatureFrame { symbol: Symbol::from("BTCUSDT"), rows }
}

fn bars_and_features() -> FeatureFrame {
    frame_of(&[100.0, 110.0])
}

#[test]
fn pnl_respects_fees_and_slippage() {
    let frame = bars_and_features();
    let actions = vec![
        Action::new(frame.symbol.clone(), ActionSide::Buy, fx(0.5), None),
        Action::new(frame.symbol.clone(), ActionSide::Sell, fx(1.0), None),
    ];
    let cfg = BacktestConfig {
        initial_cash: fx(10_000.0) as i64,
        fee_rate: fx(0.001),
        slippage_bps: 10,
    };
    let result = run_backtest(&actions, &frame, cfg).unwrap();
    let final_cash = result.final_state.cash;
    // buy 5000 + fee 5 at 100 -> 50 units, sell at 110 -> 5500 less fee 5.5
    assert!(final_cash > fx(10_400.0) as i64 && final_cash < fx(10_600.0) as i64);
    assert_eq!(result.trades.len(), 2);
}

#[test]
fn end_to_end_exact_ledger() {
    let frame = bars_and_features();
    let actions = vec![
        Action::new(frame.symbol.clone(), ActionSide::Buy, fx(0.5), None),
        Action::new(frame.symbol.clone(), ActionSide::Sell, fx(1.0), None),
    ];
    let cfg = BacktestConfig { initial_cash: fx(10_000.0) as i64, fee_rate: fx(0.001), slippage_bps: 10 };
    let result = run_backtest(&actions, &frame, cfg).unwrap();
    assert_eq!(result.final_state.cash, fx(10_489.5) as i64);
    let buy = &result.trades[0];
    assert_eq!(buy.action, ActionSide::Buy);
    assert_eq!(buy.qty, fx(50.0));
    assert_eq!(buy.notional, fx(5000.0));
    assert_eq!(buy.fee_paid, fx(5.0));
    assert_eq!(buy.fill_price, fx(100.1) as i64);
    assert_eq!(buy.resulting_state.cash, fx(4995.0) as i64);
    // equity is marked right after the trade: 4995 cash + 50 units at 100
    assert_eq!(buy.resulting_state.equity, fx(9995.0) as i64);
    let sell = &result.trades[1];
    assert_eq!(sell.action, ActionSide::Sell);
    assert_eq!(sell.qty, fx(50.0));
    assert_eq!(sell.notional, fx(5500.0));
    assert_eq!(sell.fee_paid, fx(5.5));
    assert_eq!(sell.fill_price, fx(109.89) as i64);
    assert_eq!(sell.resulting_state.equity, fx(10_489.5) as i64);
    assert_eq!(result.final_state.position_qty, 0);
    assert_eq!(result.final_state.position_avg_price, 0);
    assert_eq!(result.final_state.equity, fx(10_489.5) as i64);
    assert_eq!(result.symbol, "BTCUSDT");
    assert_eq!(result.start, frame.rows[0].bar.open_time);
    assert_eq!(result.end, frame.rows[1].bar.close_time);
}

fn flow(t: &TradeEvent) -> i64 {
    match t.action {
        ActionSide::Buy => -((t.notional + t.fee_paid) as i64),
        ActionSide::Sell => (t.notional - t.fee_paid) as i64,
        ActionSide::Hold => 0,
    }
}

#[test]
fn cash_reconciles_with_ledger() {
    let frame = frame_of(&[100.0, 97.0, 103.0, 99.0, 120.0]);
    let sides = [
        (ActionSide::Buy, 0.3),
        (ActionSide::Buy, 0.5),
        (ActionSide::Sell, 0.25),
        (ActionSide::Hold, 0.0),
        (ActionSide::Sell, 1.0),
    ];
    let actions: Vec<Action> = sides
        .iter()
        .map(|(s, p)| Action::new(frame.symbol.clone(), *s, fx(*p), None))
        .collect();
    let cfg = BacktestConfig { initial_cash: fx(10_000.0) as i64, fee_rate: fx(0.0005), slippage_bps: 5 };
    let result = run_backtest(&actions, &frame, cfg).unwrap();
    assert_eq!(result.trades.len(), 4);
    let total: i64 = result.trades.iter().map(flow).sum();
    assert_eq!(result.final_state.cash, cfg.initial_cash + total);
}

#[test]
fn max_drawdown_never_decreases() {
    let prices = [100.0, 90.0, 80.0, 95.0, 70.0, 120.0];
    let frame = frame_of(&prices);
    let actions = vec![Action::new(frame.symbol.clone(), ActionSide::Buy, fx(1.0), None)];
    let cfg = BacktestConfig { initial_cash: fx(1000.0) as i64, fee_rate: 0, slippage_bps: 0 };
    let mut last = 0u64;
    for n in 1..=prices.len() {
        let prefix = FeatureFrame { symbol: frame.symbol.clone(), rows: frame.rows[..n].to_vec() };
        let r = run_backtest(&actions, &prefix, cfg).unwrap();
        assert!(r.final_state.max_drawdown >= last);
        last = r.final_state.max_drawdown;
    }
    // the deepest point is 70 against 100: a drawdown of 30 %
    assert_eq!(last, fx(0.3));
}

#[test]
fn invalid_action_aborts_run() {
    let frame = bars_and_features();
    let actions = vec![
        Action::new(frame.symbol.clone(), ActionSide::Buy, fx(0.5), None),
        Action::new(frame.symbol.clone(), ActionSide::Sell, fx(1.5), None),
    ];
    let r = run_backtest(&actions, &frame, BacktestConfig::default());
    assert!(matches!(r, Err(ValidationError::SizeOutOfRange(v)) if v == fx(1.5)));
}

#[test]
fn missing_actions_hold_and_defaults() {
    let frame = bars_and_features();
    let cfg = BacktestConfig::default();
    assert_eq!(cfg.initial_cash, fx(10_000.0) as i64);
    assert_eq!(cfg.fee_rate, fx(0.0005));
    assert_eq!(cfg.slippage_bps, 5);
    let r = run_backtest(&[], &frame, cfg).unwrap();
    assert!(r.trades.is_empty());
    assert_eq!(r.final_state.cash, cfg.initial_cash);
    assert_eq!(r.final_state.equity, cfg.initial_cash);
    assert_eq!(r.final_state.max_drawdown, 0);
}

#[test]
fn overflowing_amounts_are_refused() {
    let mut frame = bars_and_features();
    frame.rows[0].bar.close = 1;
    let actions = vec![Action::new(frame.symbol.clone(), ActionSide::Buy, fx(1.0), None)];
    let cfg = BacktestConfig { initial_cash: i64::MAX, fee_rate: 0, slippage_bps: 0 };
    let r = run_backtest(&actions, &frame, cfg);
    assert!(matches!(r, Err(ValidationError::AmountOverflow)));
}

#[test]
fn empty_history_gives_empty_ledger() {
    let frame = FeatureFrame { symbol: Symbol::from("BTCUSDT"), rows: vec![] };
    let before = Utc::now().timestamp_millis();
    let r = run_backtest(&[], &frame, BacktestConfig::default()).unwrap();
    assert!(r.trades.is_empty());
    assert_eq!(r.final_state.cash, r.initial_cash);
    assert!(r.start >= before && r.end >= before);
}

#[test]
fn drawdown_counts_negative_equity() {
    let frame = frame_of(&[100.0, 0.0]);
    let actions = vec![Action::new(frame.symbol.clone(), ActionSide::Buy, fx(1.0), None)];
    let cfg = BacktestConfig { initial_cash: fx(10_000.0) as i64, fee_rate: fx(0.001), slippage_bps: 0 };
    let r = run_backtest(&actions, &frame, cfg).unwrap();
    // cash -10 after the fee, position worth nothing: equity -10
    assert_eq!(r.final_state.equity, -(fx(10.0) as i64));
    assert_eq!(r.final_state.max_drawdown, fx(1.001));
}
