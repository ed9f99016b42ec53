use mtrade::feed::{BacktestSource, LiveSource, MarketFeed, MarketMode};
use mtrade::fixed::SCALE;
use mtrade::model::{ActionSide, Bar, FeatureBar, OrderType, ValidationError};
use mtrade::registry::{SessionError, SessionManager};
use mtrade::session::Session;

fn fx(x: f64) -> u64 {
    (x * SCALE as f64).round() as u64
}

fn candle(low: f64, high: f64, close: f64) -> FeatureBar {
    FeatureBar::plain(Bar {
        open_time: 0,
        close_time: 60_000,
        open: fx(close),
        high: fx(high),
        low: fx(low),
        close: fx(close),
        volume: fx(1.0),
        trades: 1,
    })
}

fn session(cash: f64) -> Session {
    Session::new(7, MarketFeed::Backtest(BacktestSource::new(vec![])), fx(cash) as i64)
}

#[test]
fn limit_buy_fills_only_when_low_reaches_price() {
    let mut s = session(1000.0);
    s.apply_action(ActionSide::Buy, fx(0.5), OrderType::Limit, Some(fx(100.0)), None, None).unwrap();
    assert_eq!(s.wallet.cash, fx(500.0) as i64);
    assert_eq!(s.open_orders.len(), 1);
    assert_eq!(s.open_orders[0].quantity, fx(5.0));
    assert_eq!(s.open_orders[0].reserved, fx(500.0));
    // never crossed: stays open, however many bars pass
    for _ in 0..3 {
        s.check_fills(&candle(100.01, 120.0, 110.0)).unwrap();
        assert_eq!(s.open_orders.len(), 1);
    }
    assert_eq!(s.wallet.cash, fx(500.0) as i64);
    assert_eq!(s.wallet.equity, fx(500.0) as i64);
    // low touches the price: fills, pays only the fee
    s.check_fills(&candle(100.0, 120.0, 110.0)).unwrap();
    assert!(s.open_orders.is_empty());
    assert_eq!(s.wallet.position_qty, fx(5.0));
    assert_eq!(s.wallet.position_avg_price, fx(100.0));
    assert_eq!(s.wallet.cash, fx(499.5) as i64);
    assert_eq!(s.wallet.equity, fx(499.5 + 550.0) as i64);
}

#[test]
fn limit_sell_fills_only_when_high_reaches_price() {
    let mut s = session(1000.0);
    s.apply_action(ActionSide::Buy, fx(1.0), OrderType::Market, None, None, Some(fx(100.0))).unwrap();
    assert_eq!(s.wallet.position_qty, fx(10.0));
    assert_eq!(s.wallet.cash, -(fx(1.0) as i64));
    s.apply_action(ActionSide::Sell, fx(0.5), OrderType::Limit, Some(fx(120.0)), None, None).unwrap();
    assert_eq!(s.wallet.position_qty, fx(5.0));
    s.check_fills(&candle(90.0, 119.99, 100.0)).unwrap();
    assert_eq!(s.open_orders.len(), 1);
    s.check_fills(&candle(90.0, 120.0, 100.0)).unwrap();
    assert!(s.open_orders.is_empty());
    // 600 notional less 0.6 fee
    assert_eq!(s.wallet.cash, (fx(599.4) as i64) - (fx(1.0) as i64));
    assert_eq!(s.wallet.position_qty, fx(5.0));
}

#[test]
fn fill_pass_keeps_uncrossed_orders_in_order() {
    let mut s = session(1000.0);
    s.apply_action(ActionSide::Buy, fx(0.1), OrderType::Limit, Some(fx(90.0)), None, None).unwrap();
    s.apply_action(ActionSide::Buy, fx(0.1), OrderType::Limit, Some(fx(100.0)), None, None).unwrap();
    s.apply_action(ActionSide::Buy, fx(0.1), OrderType::Limit, Some(fx(80.0)), None, None).unwrap();
    let ids: Vec<u128> = s.open_orders.iter().map(|o| o.id).collect();
    s.check_fills(&candle(95.0, 105.0, 100.0)).unwrap();
    let left: Vec<u128> = s.open_orders.iter().map(|o| o.id).collect();
    assert_eq!(left, vec![ids[0], ids[2]]);
}

#[test]
fn cancel_refunds_escrow_without_fee() {
    let mut s = session(1000.0);
    s.apply_action(ActionSide::Buy, fx(0.3), OrderType::Limit, Some(fx(33.0)), None, None).unwrap();
    let buy_id = s.open_orders[0].id;
    s.apply_action(ActionSide::Hold, 0, OrderType::Market, None, Some(buy_id), None).unwrap();
    assert!(s.open_orders.is_empty());
    assert_eq!(s.wallet.cash, fx(1000.0) as i64);

    s.apply_action(ActionSide::Buy, fx(1.0), OrderType::Market, None, None, Some(fx(10.0))).unwrap();
    let units = s.wallet.position_qty;
    let cash = s.wallet.cash;
    s.apply_action(ActionSide::Sell, fx(0.4), OrderType::Limit, Some(fx(50.0)), None, None).unwrap();
    assert_eq!(s.wallet.position_qty, units - units * 4 / 10);
    let sell_id = s.open_orders[0].id;
    s.apply_action(ActionSide::Sell, 0, OrderType::Limit, None, Some(sell_id), None).unwrap();
    assert_eq!(s.wallet.position_qty, units);
    assert_eq!(s.wallet.cash, cash);
    assert!(s.open_orders.is_empty());
    // an unknown id changes nothing
    let before = s.wallet;
    s.apply_action(ActionSide::Buy, fx(1.0), OrderType::Market, None, Some(12345), Some(fx(10.0))).unwrap();
    assert_eq!(s.wallet, before);
}

#[test]
fn rejected_actions_change_nothing() {
    let mut s = session(1000.0);
    let before = s.wallet;
    let r = s.apply_action(ActionSide::Buy, fx(0.5), OrderType::Limit, None, None, None);
    assert_eq!(r, Err(ValidationError::MissingLimitPrice));
    let r = s.apply_action(ActionSide::Buy, fx(1.5), OrderType::Market, None, None, Some(fx(1.0)));
    assert_eq!(r, Err(ValidationError::SizeOutOfRange(fx(1.5))));
    assert_eq!(s.wallet, before);
    assert!(s.open_orders.is_empty());
    // a market order without a reference price is skipped
    s.apply_action(ActionSide::Buy, fx(0.5), OrderType::Market, None, None, None).unwrap();
    assert_eq!(s.wallet, before);
}

#[test]
fn market_orders_trade_at_reference_price() {
    let mut s = session(1000.0);
    s.apply_action(ActionSide::Buy, fx(0.5), OrderType::Market, None, None, Some(fx(50.0))).unwrap();
    assert_eq!(s.wallet.position_qty, fx(10.0));
    assert_eq!(s.wallet.cash, fx(499.5) as i64);
    assert_eq!(s.wallet.equity, fx(999.5) as i64);
    s.apply_action(ActionSide::Sell, fx(1.0), OrderType::Market, None, None, Some(fx(60.0))).unwrap();
    assert_eq!(s.wallet.position_qty, 0);
    assert_eq!(s.wallet.position_avg_price, 0);
    assert_eq!(s.wallet.cash, fx(499.5 + 599.4) as i64);
    assert!(s.recalc_equity(fx(1.0)));
    assert_eq!(s.wallet.equity, s.wallet.cash);
}

#[test]
fn unknown_session_is_not_found() {
    let mut m = SessionManager::new();
    let a = m.create_live(fx(100.0) as i64, "BTCUSDT", None).unwrap();
    let b = m.create_backtest("BTCUSDT", &vec![candle(1.0, 2.0, 1.5).bar], fx(50.0) as i64).unwrap();
    assert_ne!(a, b);
    let unknown = a ^ b ^ 1;
    let r = m.with_session(unknown, |mut s| {
        s.wallet.cash = 0;
        (s, ())
    });
    assert_eq!(r, Err(SessionError::NotFound));
    let cash_a = m.with_session(a, |s| {
        let c = s.wallet.cash;
        (s, c)
    });
    assert_eq!(cash_a, Ok(fx(100.0) as i64));
    let mode_b = m.with_session(b, |mut s| {
        let first = s.source.next_candle();
        let second = s.source.next_candle();
        let mode = s.source.mode();
        (s, (first.is_some(), second.is_none(), mode))
    });
    assert_eq!(mode_b, Ok((true, true, MarketMode::Backtest)));
    assert!(m.contains(a) && m.contains(b) && !m.contains(unknown));
}

#[test]
fn malformed_history_still_registers() {
    let mut m = SessionManager::new();
    let mut bar = candle(1.0, 2.0, 1.5).bar;
    bar.high = fx(1.0);
    let id = m.create_backtest("BTCUSDT", &vec![bar], fx(50.0) as i64).unwrap();
    let first = m.with_session(id, |mut s| {
        let c = s.source.next_candle();
        (s, c.map(|c| c.bar))
    });
    assert_eq!(first, Ok(Some(bar)));
}

#[test]
fn taken_id_is_refused() {
    let mut m = SessionManager::new();
    let feed = || MarketFeed::Backtest(BacktestSource::new(vec![]));
    assert_eq!(m.register_with_id(9, feed(), fx(5.0) as i64), Ok(9));
    assert_eq!(m.register_with_id(9, feed(), fx(7.0) as i64), Err(SessionError::IdCollision));
    let cash = m.with_session(9, |s| {
        let c = s.wallet.cash;
        (s, c)
    });
    assert_eq!(cash, Ok(fx(5.0) as i64));
    let id = m.register(feed(), 0).unwrap();
    let fresh = m.with_session(id, |s| {
        let flat = s.wallet.position_qty == 0 && s.wallet.equity == 0 && s.open_orders.is_empty();
        (s, flat)
    });
    assert_eq!(fresh, Ok(true));
}

#[test]
fn new_orders_get_distinct_ids() {
    let mut s = session(1000.0);
    for _ in 0..20 {
        s.apply_action(ActionSide::Buy, fx(0.01), OrderType::Limit, Some(fx(10.0)), None, None).unwrap();
    }
    let mut ids: Vec<u128> = s.open_orders.iter().map(|o| o.id).collect();
    ids.sort();
    ids.dedup();
    assert_eq!(ids.len(), 20);
}

#[test]
fn live_feed_keeps_last_value() {
    let mut live = LiveSource::new("BTCUSDT", None);
    assert_eq!(live.next_candle(), None);
    live.publish(candle(1.0, 2.0, 1.5));
    live.publish(candle(3.0, 4.0, 3.5));
    assert_eq!(live.next_candle(), Some(candle(3.0, 4.0, 3.5)));
    assert_eq!(live.next_candle(), Some(candle(3.0, 4.0, 3.5)));
    assert_eq!(live.mode(), MarketMode::Live);
    assert_eq!(live.symbol(), "BTCUSDT");
    let mut feed = MarketFeed::Live(LiveSource::new("ETHUSDT", Some(candle(1.0, 2.0, 1.5))));
    assert_eq!(feed.next_candle(), Some(candle(1.0, 2.0, 1.5)));
    assert_eq!(feed.mode(), MarketMode::Live);
}

#[test]
fn backtest_feed_ends_for_good() {
    let mut src = BacktestSource::new(vec![candle(1.0, 2.0, 1.5), candle(2.0, 3.0, 2.5)]);
    assert_eq!(src.next_candle(), Some(candle(1.0, 2.0, 1.5)));
    assert_eq!(src.next_candle(), Some(candle(2.0, 3.0, 2.5)));
    assert_eq!(src.next_candle(), None);
    assert_eq!(src.next_candle(), None);
    assert_eq!(src.mode(), MarketMode::Backtest);
}
