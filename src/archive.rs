//! The historical archive: where a day's or a month's candles are
//! published, which span of time a download covers, and where a column of
//! open times has holes.

use vstd::prelude::*;
use vstd::string::*;
use crate::kline::MINUTE_MS;
use crate::text::{padded, push_padded};

verus! {

/// The archive address of the one-minute candles of `symbol` for a day,
/// or for a whole month where `day` is `None`.
pub open spec fn vision_url_of(symbol: Seq<char>, year: u32, month: u32, day: Option<u32>) -> Seq<
    char,
> {
    match day {
        Some(d) => "https://data.binance.vision/data/spot/daily/klines/"@ + symbol + "/1m/"@ + symbol
            + "-1m-"@ + padded(year as nat, 4) + "-"@ + padded(month as nat, 2) + "-"@ + padded(
            d as nat,
            2,
        ) + ".zip"@,
        None => "https://data.binance.vision/data/spot/monthly/klines/"@ + symbol + "/1m/"@ + symbol
            + "-1m-"@ + padded(year as nat, 4) + "-"@ + padded(month as nat, 2) + ".zip"@,
    }
}

pub fn vision_url(symbol: &str, year: u32, month: u32, day: Option<u32>) -> (r: String)
    ensures
        r@ == vision_url_of(symbol@, year, month, day),
{
    proof {
        reveal_strlit("https://data.binance.vision/data/spot/daily/klines/");
        reveal_strlit("https://data.binance.vision/data/spot/monthly/klines/");
        reveal_strlit("/1m/");
        reveal_strlit("-1m-");
        reveal_strlit("-");
        reveal_strlit(".zip");
    }
    let mut s = match day {
        Some(_) => String::from_str("https://data.binance.vision/data/spot/daily/klines/"),
        None => String::from_str("https://data.binance.vision/data/spot/monthly/klines/"),
    };
    s.append(symbol);
    s.append("/1m/");
    s.append(symbol);
    s.append("-1m-");
    push_padded(&mut s, year, 4);
    s.append("-");
    push_padded(&mut s, month, 2);
    if let Some(d) = day {
        s.append("-");
        push_padded(&mut s, d, 2);
    }
    s.append(".zip");
    proof {
        match day {
            Some(d) => {
                assert(s@ =~= vision_url_of(symbol@, year, month, day));
            },
            None => {
                assert(s@ =~= vision_url_of(symbol@, year, month, day));
            },
        }
    }
    s
}

/// Wait between download attempts, in milliseconds.
pub const RETRY_DELAY_MS: u64 = 500;

/// After failed attempt number `attempt` (counting from one) of at most
/// `retries`: the wait before the next attempt, or `None` to give up.
pub fn retry_after_failure(attempt: u8, retries: u8) -> (r: Option<u64>)
    ensures
        attempt < retries ==> r == Some(RETRY_DELAY_MS),
        attempt >= retries ==> r is None,
{
    if attempt >= retries {
        None
    } else {
        Some(RETRY_DELAY_MS)
    }
}

/// Pairs of consecutive open times more than a minute apart, in order.
pub open spec fn gaps_in(ts: Seq<i64>, k: int) -> Seq<(i64, i64)>
    decreases k,
{
    if k <= 0 {
        Seq::empty()
    } else if k < ts.len() && ts[k] - ts[k - 1] > MINUTE_MS {
        gaps_in(ts, k - 1).push((ts[k - 1], ts[k]))
    } else {
        gaps_in(ts, k - 1)
    }
}

/// Each place where an open time follows the previous one by more than a
/// minute, as the pair of the two times.
pub fn detect_gaps(open_times: &Vec<i64>) -> (r: Vec<(i64, i64)>)
    ensures
        r@ == gaps_in(open_times@, open_times@.len() - 1),
{
    let mut gaps: Vec<(i64, i64)> = Vec::new();
    let n = open_times.len();
    if n == 0 {
        return gaps;
    }
    let mut i: usize = 1;
    while i < n
        invariant
            1 <= i <= n,
            n == open_times@.len(),
            gaps@ == gaps_in(open_times@, i - 1),
        decreases n - i,
    {
        let prev = open_times[i - 1];
        let cur = open_times[i];
        if (cur as i128) - (prev as i128) > MINUTE_MS as i128 {
            gaps.push((prev, cur));
        }
        i = i + 1;
    }
    gaps
}

pub open spec fn is_leap_year(y: int) -> bool {
    y % 4 == 0 && (y % 100 != 0 || y % 400 == 0)
}

pub open spec fn days_in_month(y: int, m: int) -> int {
    if m == 2 {
        if is_leap_year(y) { 29 } else { 28 }
    } else if m == 4 || m == 6 || m == 9 || m == 11 {
        30
    } else {
        31
    }
}

/// A date of the proleptic Gregorian calendar within chrono's range of
/// years.
pub open spec fn valid_date(y: int, m: int, d: int) -> bool {
    &&& -262143 <= y <= 262142
    &&& 1 <= m <= 12
    &&& 1 <= d <= days_in_month(y, m)
}

/// Days from 1970-01-01 to a date of the proleptic Gregorian calendar.
pub open spec fn days_from_civil(y: int, m: int, d: int) -> int {
    let yy = if m <= 2 { y - 1 } else { y };
    let era = yy / 400;
    let yoe = yy - era * 400;
    let mp = if m > 2 { m - 3 } else { m + 9 };
    let doy = (153 * mp + 2) / 5 + d - 1;
    let doe = yoe * 365 + yoe / 4 - yoe / 100 + doy;
    era * 146097 + doe - 719468
}

/// A day in milliseconds.
pub const DAY_MS: i64 = 86_400_000;

/// Relies on chrono's `NaiveDate::from_ymd_opt`, `NaiveDate::and_hms_opt`,
/// `NaiveDateTime::and_utc` and `DateTime::timestamp_millis`: midnight UTC
/// of a date in milliseconds since the epoch, or none where chrono has no
/// such date.
#[verifier::external_body]
fn utc_midnight(year: i32, month: u32, day: u32) -> (r: Option<i64>)
    ensures
        match r {
            Some(v) => valid_date(year as int, month as int, day as int) && v == days_from_civil(
                year as int,
                month as int,
                day as int,
            ) * (DAY_MS as int),
            None => !valid_date(year as int, month as int, day as int),
        },
{
    let date = chrono::NaiveDate::from_ymd_opt(year, month, day)?;
    Some(date.and_hms_opt(0, 0, 0)?.and_utc().timestamp_millis())
}

/// What a download covers: from midnight of the day (or of the first of
/// the month) for one day (or 32 days), with the key `YYYY-MM[-DD]`.
pub open spec fn coverage_of(year: u32, month: u32, day: Option<u32>) -> Option<(int, int, Seq<char>)> {
    let d: u32 = match day {
        Some(d) => d,
        None => 1,
    };
    let span: int = if day is Some { DAY_MS as int } else { 32 * DAY_MS };
    let key = match day {
        Some(d) => padded(year as nat, 4) + "-"@ + padded(month as nat, 2) + "-"@ + padded(
            d as nat,
            2,
        ),
        None => padded(year as nat, 4) + "-"@ + padded(month as nat, 2),
    };
    if year > i32::MAX {
        None
    } else {
        if valid_date(year as int, month as int, d as int) {
            let start = days_from_civil(year as int, month as int, d as int) * (DAY_MS as int);
            if start + span <= i64::MAX {
                Some((start, start + span, key))
            } else {
                None
            }
        } else {
            None
        }
    }
}

/// The span a download covers and its key; `None` for a date that does
/// not exist.
pub fn coverage_span(year: u32, month: u32, day: Option<u32>) -> (r: Option<(i64, i64, String)>)
    ensures
        match r {
            Some((s, e, k)) => coverage_of(year, month, day) == Some((s as int, e as int, k@)),
            None => coverage_of(year, month, day) is None,
        },
{
    proof {
        reveal_strlit("-");
    }
    if year > i32::MAX as u32 {
        return None;
    }
    let d = match day {
        Some(d) => d,
        None => 1,
    };
    let start = utc_midnight(year as i32, month, d)?;
    let span: i64 = if day.is_some() { DAY_MS } else { 32 * DAY_MS };
    if start > i64::MAX - span {
        return None;
    }
    let mut key = String::new();
    push_padded(&mut key, year, 4);
    key.append("-");
    push_padded(&mut key, month, 2);
    if let Some(dd) = day {
        key.append("-");
        push_padded(&mut key, dd, 2);
    }
    proof {
        assert(key@ =~= coverage_of(year, month, day)->Some_0.2);
    }
    Some((start, start + span, key))
}

} // verus!
