use chrono::Utc;
use mtrade::fixed::SCALE;
use mtrade::indicators::{cmf, compute_features, ema, rsi, IndicatorConfig};
use mtrade::model::{Bar, Symbol};

fn fx(x: f64) -> u64 {
    (x * SCALE as f64).round() as u64
}

fn fixture_bars() -> Vec<Bar> {
    let base = Utc::now().timestamp_millis();
    let closes = vec![1.0, 2.0, 3.0, 2.0];
    closes
        .iter()
        .enumerate()
        .map(|(i, close)| Bar {
            open_time: base + 60_000 * i as i64,
            close_time: base + 60_000 * (i as i64 + 1),
            open: fx(*close),
            high: fx(*close + 0.5),
            low: fx(*close - 0.5),
            close: fx(*close),
            volume: fx(10.0),
            trades: 1,
        })
        .collect()
}

#[test]
fn ema_and_rsi_expected_values() {
    let bars = fixture_bars();
    let cfg = IndicatorConfig { ema_fast: 3, ema_slow: 3, rsi_period: 3, cmf_period: 2 };
    let frame = compute_features(Symbol::from("BTCUSDT"), &bars, cfg);
    let ema_fast = frame.rows[2].ema_fast.unwrap() as f64 / SCALE as f64;
    let ema_next = frame.rows[3].ema_fast.unwrap() as f64 / SCALE as f64;
    assert!((ema_fast - 2.0).abs() < 1e-6);
    assert!((ema_next - 2.0).abs() < 1e-6);

    let rsi = frame.rows[3].rsi.unwrap() as f64 / SCALE as f64;
    assert!((rsi - 66.6666).abs() < 0.1);
}

#[test]
fn ema_seed_is_exact_mean() {
    let closes = vec![fx(1.0), fx(2.0), fx(3.0), fx(2.0)];
    let e = ema(&closes, 3);
    assert_eq!(e, vec![None, None, Some(fx(2.0)), Some(fx(2.0))]);
    let e2 = ema(&closes, 2);
    // seed 1.5, then (1.5 * 1 + 2 * 3) / 3 = 2.5, then (2.5 + 4) / 3
    assert_eq!(e2[1], Some(fx(1.5)));
    assert_eq!(e2[2], Some(fx(2.5)));
    assert_eq!(e2[3], Some((fx(2.5) + 2 * fx(2.0)) / 3));
    assert_eq!(ema(&closes, 0), vec![None; 4]);
    assert_eq!(ema(&closes, 5), vec![None; 4]);
}

#[test]
fn rsi_values_and_edges() {
    let closes = vec![fx(1.0), fx(2.0), fx(3.0), fx(2.0)];
    let r = rsi(&closes, 3);
    assert_eq!(r[0], None);
    assert_eq!(r[2], None);
    // gains 2/3, losses 1/3 in fixed point, rounded down
    assert_eq!(r[3], Some(6_666_666_666));
    assert_eq!(rsi(&closes, 4), vec![None; 4]);
    assert_eq!(rsi(&closes, 0), vec![None; 4]);
    let rising = vec![fx(1.0), fx(2.0), fx(3.0), fx(4.0)];
    assert_eq!(rsi(&rising, 2)[2], Some(100 * SCALE));
    assert_eq!(rsi(&rising, 2)[3], Some(100 * SCALE));
}

#[test]
fn cmf_sliding_window() {
    let bars = fixture_bars();
    // every close sits mid-range: no net flow
    let c = cmf(&bars, 2);
    assert_eq!(c, vec![None, Some(0), Some(0), Some(0)]);
    let mut skew = fixture_bars();
    skew[1].close = skew[1].high;
    skew[2].close = skew[2].low;
    let c = cmf(&skew, 2);
    // bar 1 flows +10, bar 2 flows -10, each with volume 10
    assert_eq!(c[1], Some((SCALE / 2) as i64));
    assert_eq!(c[2], Some(0));
    assert_eq!(c[3], Some(-((SCALE / 2) as i64)));
    assert_eq!(cmf(&bars, 5), vec![None; 4]);
}

#[test]
fn malformed_bars_are_still_computed() {
    let mut bars = fixture_bars();
    // low above close and high below open: the multiplier is no longer in [-1, 1]
    bars[2].low = fx(4.0);
    bars[2].high = fx(2.0);
    let cfg = IndicatorConfig { ema_fast: 3, ema_slow: 3, rsi_period: 3, cmf_period: 1 };
    let frame = compute_features(Symbol::from("BTCUSDT"), &bars, cfg);
    assert_eq!(frame.rows.len(), 4);
    // (2c - l - h) / (h - l) = (6 - 4 - 2) / -2 = 0
    assert_eq!(frame.rows[2].cmf, Some(0));
    bars[2].close = fx(4.0);
    // (8 - 4 - 2) / -2 = -1
    assert_eq!(cmf(&bars, 1)[2], Some(-(SCALE as i64)));
    bars[2].low = u64::MAX;
    bars[2].high = u64::MAX - 1;
    bars[2].close = 0;
    // a flow far beyond u64 leaves the window empty
    assert_eq!(cmf(&bars, 1)[2], None);
    assert_eq!(cmf(&bars, 2)[3], None);
    assert!(cmf(&bars, 1)[3].is_some());
}

#[test]
fn default_indicator_windows() {
    let cfg = IndicatorConfig::default();
    assert_eq!((cfg.ema_fast, cfg.ema_slow, cfg.rsi_period, cfg.cmf_period), (12, 26, 14, 20));
    let frame = compute_features(Symbol::from("ETHUSDT"), &fixture_bars(), cfg);
    assert_eq!(frame.rows.len(), 4);
    assert!(frame.rows.iter().all(|r| r.ema_fast.is_none() && r.rsi.is_none() && r.cmf.is_none()));
    let w = frame.latest_window(2);
    assert_eq!(w.rows.len(), 2);
    assert_eq!(w.rows[0].bar, frame.rows[2].bar);
    assert_eq!(frame.latest_window(10).rows.len(), 4);
}

#[test]
fn flat_bars_have_no_money_flow() {
    let bars: Vec<Bar> = (0..3)
        .map(|i| Bar {
            open_time: 60_000 * i,
            close_time: 60_000 * (i + 1),
            open: fx(5.0),
            high: fx(5.0),
            low: fx(5.0),
            close: fx(5.0),
            volume: fx(2.0),
            trades: 1,
        })
        .collect();
    assert_eq!(cmf(&bars, 2), vec![None, Some(0), Some(0)]);
    let mut quiet = bars.clone();
    for b in quiet.iter_mut() {
        b.volume = 0;
    }
    assert_eq!(cmf(&quiet, 2), vec![None, None, None]);
}
