use mtrade::archive::{coverage_span, detect_gaps, vision_url};
use mtrade::feed::{link_start, link_step, LinkAction, LinkEvent, LinkState, RECONNECT_DELAY_MS};
use mtrade::kline::{
    bar_from_csv_line, bar_from_kline, bar_from_poll, parse_decimal, parse_i64, parse_u64, split_fields, KlineFields,
    PollFields,
};
use mtrade::model::Bar;

fn text(s: &str) -> Option<Vec<u8>> {
    Some(s.as_bytes().to_vec())
}

#[test]
fn decimal_text_reads_into_fixed_point() {
    assert_eq!(parse_decimal(b"42000.01000000"), Some(4_200_001_000_000));
    assert_eq!(parse_decimal(b"0.5"), Some(50_000_000));
    assert_eq!(parse_decimal(b"7"), Some(700_000_000));
    assert_eq!(parse_decimal(b"7."), Some(700_000_000));
    assert_eq!(parse_decimal(b".25"), Some(25_000_000));
    assert_eq!(parse_decimal(b"1.123456789"), Some(112_345_678));
    assert_eq!(parse_decimal(b""), None);
    assert_eq!(parse_decimal(b"."), None);
    assert_eq!(parse_decimal(b"1.2.3"), None);
    assert_eq!(parse_decimal(b"-1"), None);
    assert_eq!(parse_decimal(b"1e5"), None);
    assert_eq!(parse_decimal(b"184467440737.09551615"), Some(u64::MAX));
    assert_eq!(parse_decimal(b"184467440737.09551616"), None);
    assert_eq!(parse_decimal(b"99999999999999999999999"), None);
}

fn kline() -> KlineFields {
    KlineFields {
        open_time: Some(1_700_000_000_000),
        close_time: Some(1_700_000_059_999),
        open: text("100.5"),
        high: text("101"),
        low: text("99.25"),
        close: text("100"),
        volume: text("3.5"),
        trades: Some(42),
    }
}

#[test]
fn streamed_candle_becomes_bar() {
    let b = bar_from_kline(&kline()).unwrap();
    assert_eq!(
        b,
        Bar {
            open_time: 1_700_000_000_000,
            close_time: 1_700_000_059_999,
            open: 10_050_000_000,
            high: 10_100_000_000,
            low: 9_925_000_000,
            close: 10_000_000_000,
            volume: 350_000_000,
            trades: 42,
        }
    );
    let mut k = kline();
    k.trades = None;
    assert_eq!(bar_from_kline(&k).unwrap().trades, 0);
    let mut k = kline();
    k.high = text("n/a");
    assert_eq!(bar_from_kline(&k), None);
    let mut k = kline();
    k.open_time = None;
    assert_eq!(bar_from_kline(&k), None);
}

#[test]
fn polled_candle_falls_back_to_close() {
    let p = PollFields {
        open_time: Some(1_000),
        open: None,
        high: text("bad"),
        low: text("1.5"),
        close: text("2"),
        volume: None,
        close_time: None,
        trades: None,
    };
    let b = bar_from_poll(&p).unwrap();
    assert_eq!(b.open, 200_000_000);
    assert_eq!(b.high, 200_000_000);
    assert_eq!(b.low, 150_000_000);
    assert_eq!(b.close_time, 61_000);
    assert_eq!(b.volume, 0);
    assert_eq!(b.trades, 0);
    let mut q = p.clone();
    q.close = text("x");
    assert_eq!(bar_from_poll(&q).unwrap().close, 0);
    q.close = None;
    assert_eq!(bar_from_poll(&q), None);
}

#[test]
fn link_reconnects_and_stops_keepalive() {
    let (s, a) = link_start();
    assert_eq!((s, a), (LinkState::Connecting, vec![LinkAction::OpenStream]));
    let (s, a) = link_step(s, LinkEvent::Connected);
    assert_eq!(s, LinkState::Streaming);
    assert_eq!(a, vec![LinkAction::StartKeepalive, LinkAction::ReadNext]);
    let bar = bar_from_kline(&kline()).unwrap();
    let (s, a) = link_step(s, LinkEvent::Message(Some(bar)));
    assert_eq!(a, vec![LinkAction::Publish(bar), LinkAction::ReadNext]);
    let (s, a) = link_step(s, LinkEvent::Message(None));
    assert_eq!(a, vec![LinkAction::ReadNext]);
    let (s, a) = link_step(s, LinkEvent::StreamEnded);
    assert_eq!(s, LinkState::Backoff);
    assert_eq!(a, vec![LinkAction::StopKeepalive, LinkAction::Sleep(RECONNECT_DELAY_MS)]);
    let (s, a) = link_step(s, LinkEvent::BackoffElapsed);
    assert_eq!((s, a), (LinkState::Connecting, vec![LinkAction::OpenStream]));
    let (s, a) = link_step(s, LinkEvent::ConnectFailed);
    assert_eq!((s, a), (LinkState::Polling, vec![LinkAction::PollOnce]));
    let (s, a) = link_step(s, LinkEvent::PollFinished(Some(bar)));
    assert_eq!(s, LinkState::Backoff);
    assert_eq!(a, vec![LinkAction::Publish(bar), LinkAction::Sleep(5_000)]);
    let (s2, a2) = link_step(s, LinkEvent::Connected);
    assert_eq!((s2, a2), (LinkState::Backoff, vec![]));
}

#[test]
fn archive_addresses() {
    assert_eq!(
        vision_url("BTCUSDT", 2024, 3, None),
        "https://data.binance.vision/data/spot/monthly/klines/BTCUSDT/1m/BTCUSDT-1m-2024-03.zip"
    );
    assert_eq!(
        vision_url("ETHUSDT", 2023, 11, Some(5)),
        "https://data.binance.vision/data/spot/daily/klines/ETHUSDT/1m/ETHUSDT-1m-2023-11-05.zip"
    );
}

#[test]
fn coverage_of_day_and_month() {
    let (s, e, k) = coverage_span(2024, 1, Some(2)).unwrap();
    assert_eq!(s, 1_704_153_600_000);
    assert_eq!(e - s, 86_400_000);
    assert_eq!(k, "2024-01-02");
    let (s, e, k) = coverage_span(2024, 1, None).unwrap();
    assert_eq!(s, 1_704_067_200_000);
    assert_eq!(e - s, 32 * 86_400_000);
    assert_eq!(k, "2024-01");
    assert!(coverage_span(2023, 2, Some(29)).is_none());
    assert!(coverage_span(2023, 13, None).is_none());
}

#[test]
fn gaps_between_open_times() {
    let ts = vec![0, 60_000, 120_000, 300_000, 360_000, 480_001];
    assert_eq!(detect_gaps(&ts), vec![(120_000, 300_000), (360_000, 480_001)]);
    assert!(detect_gaps(&vec![]).is_empty());
    assert!(detect_gaps(&vec![5]).is_empty());
}

#[test]
fn archive_csv_line_becomes_bar() {
    let line = b"1704067200000,42283.58000000,42298.62000000,42283.57000000,42298.61000000,35.92724000,1704067259999,1519333.59,1327,23.2,981000.1,0";
    let b = bar_from_csv_line(line).unwrap();
    assert_eq!(b.open_time, 1_704_067_200_000);
    assert_eq!(b.close_time, 1_704_067_259_999);
    assert_eq!(b.open, 4_228_358_000_000);
    assert_eq!(b.close, 4_229_861_000_000);
    assert_eq!(b.volume, 3_592_724_000);
    assert_eq!(b.trades, 1327);
    assert_eq!(bar_from_csv_line(b"open_time,open,high,low,close"), None);
    assert_eq!(bar_from_csv_line(b"5"), None);
    let short = bar_from_csv_line(b"5,1,2,0.5,1.5").unwrap();
    assert_eq!((short.close_time, short.volume, short.trades), (60_005, 0, 0));
    assert_eq!(split_fields(b"a,,b"), vec![b"a".to_vec(), vec![], b"b".to_vec()]);
    assert_eq!(split_fields(b""), vec![Vec::<u8>::new()]);
    assert_eq!(parse_i64(b"-42"), Some(-42));
    assert_eq!(parse_i64(b"9223372036854775807"), Some(i64::MAX));
    assert_eq!(parse_i64(b"-9223372036854775808"), Some(i64::MIN));
    assert_eq!(parse_i64(b"9223372036854775808"), None);
    assert_eq!(parse_i64(b"-"), None);
    assert_eq!(parse_i64(b"1x"), None);
    assert_eq!(parse_u64(b"18446744073709551615"), Some(u64::MAX));
    assert_eq!(parse_u64(b"18446744073709551616"), None);
    assert_eq!(parse_u64(b""), None);
}
