//! Turning the fields of an exchange candle message into a bar.
//!
//! Prices and volumes arrive as decimal text such as `"42000.01000000"`;
//! they are read into fixed point, keeping eight fraction digits.

use vstd::prelude::*;
use crate::fixed::SCALE;
use crate::model::Bar;

verus! {

pub open spec fn is_digit(c: u8) -> bool {
    48 <= c <= 57
}

pub open spec fn all_digits(s: Seq<u8>) -> bool {
    forall|i: int| 0 <= i < s.len() ==> is_digit(#[trigger] s[i])
}

/// The value of a string of decimal digits; zero for the empty string.
pub open spec fn digits_value(s: Seq<u8>) -> int
    decreases s.len(),
{
    if s.len() == 0 {
        0
    } else {
        digits_value(s.drop_last()) * 10 + (s.last() - 48)
    }
}

pub open spec fn pow10(n: nat) -> int
    decreases n,
{
    if n == 0 { 1 } else { 10 * pow10((n - 1) as nat) }
}

/// The index of the first `.` at or after `i`, or the length.
pub open spec fn first_dot(s: Seq<u8>, i: int) -> int
    decreases s.len() - i,
{
    if i >= s.len() {
        s.len() as int
    } else if s[i] == 46 {
        i
    } else {
        first_dot(s, i + 1)
    }
}

/// Fraction digits as units of `1 / SCALE`: the first eight, the rest
/// dropped.
pub open spec fn frac_units(f: Seq<u8>) -> int {
    let k: nat = if f.len() < 8 { f.len() } else { 8 };
    digits_value(f.take(k as int)) * pow10((8 - k) as nat)
}

/// The fixed-point value of decimal text: digits, optionally a `.` and more
/// digits, with at least one digit in all. `None` for any other text.
pub open spec fn decimal_value(s: Seq<u8>) -> Option<int> {
    let d = first_dot(s, 0);
    let whole = s.take(d);
    let frac = if d < s.len() { s.skip(d + 1) } else { Seq::<u8>::empty() };
    if all_digits(whole) && all_digits(frac) && whole.len() + frac.len() > 0 {
        Some(digits_value(whole) * (SCALE as int) + frac_units(frac))
    } else {
        None
    }
}

proof fn lemma_digits_prefix_le(s: Seq<u8>, i: int)
    requires
        0 <= i <= s.len(),
        all_digits(s),
    ensures
        0 <= digits_value(s.take(i)) <= digits_value(s),
    decreases s.len(),
{
    if i < s.len() {
        assert(all_digits(s.drop_last()));
        lemma_digits_prefix_le(s.drop_last(), i);
        assert(s.drop_last().take(i) == s.take(i));
    } else {
        assert(s.take(i) == s);
        lemma_digits_nonneg(s);
    }
}

proof fn lemma_digits_nonneg(s: Seq<u8>)
    requires
        all_digits(s),
    ensures
        0 <= digits_value(s),
    decreases s.len(),
{
    if s.len() > 0 {
        assert(all_digits(s.drop_last()));
        lemma_digits_nonneg(s.drop_last());
    }
}

proof fn lemma_digits_bound(s: Seq<u8>)
    requires
        all_digits(s),
    ensures
        0 <= digits_value(s) < pow10(s.len()),
    decreases s.len(),
{
    if s.len() > 0 {
        assert(all_digits(s.drop_last()));
        lemma_digits_bound(s.drop_last());
    }
}

proof fn lemma_first_dot_range(s: Seq<u8>, i: int)
    requires
        0 <= i,
    ensures
        i <= first_dot(s, i) <= s.len() || (i > s.len() && first_dot(s, i) == s.len()),
        first_dot(s, i) < s.len() ==> s[first_dot(s, i)] == 46,
        forall|j: int| i <= j < first_dot(s, i) ==> s[j] != 46,
    decreases s.len() - i,
{
    if i < s.len() && s[i] != 46 {
        lemma_first_dot_range(s, i + 1);
    }
}

/// Reads decimal text into fixed point: `None` unless it is digits with at
/// most one `.`, at least one digit, and a value that fits in a `u64`.
pub fn parse_decimal(s: &[u8]) -> (r: Option<u64>)
    ensures
        r == (match decimal_value(s@) {
            Some(v) => if v <= u64::MAX { Some(v as u64) } else { None::<u64> },
            None => None::<u64>,
        }),
{
    let n = s.len();
    let mut whole: u128 = 0;
    let mut i: usize = 0;
    proof {
        lemma_first_dot_range(s@, 0);
    }
    while i < n && s[i] != 46
        invariant
            i <= n,
            n == s@.len(),
            forall|j: int| 0 <= j < i ==> s@[j] != 46,
            first_dot(s@, 0) == first_dot(s@, i as int),
            all_digits(s@.take(i as int)),
            whole == digits_value(s@.take(i as int)),
            whole <= u64::MAX,
        decreases n - i,
    {
        let c = s[i];
        if c < 48 || c > 57 {
            proof {
                lemma_first_dot_range(s@, i as int);
                assert(s@.take(first_dot(s@, 0))[i as int] == c);
            }
            return None;
        }
        proof {
            assert(s@.take(i + 1int).drop_last() == s@.take(i as int));
        }
        whole = whole * 10 + (c - 48) as u128;
        i = i + 1;
        if whole > u64::MAX as u128 {
            proof {
                lemma_first_dot_range(s@, i as int);
                let d = first_dot(s@, 0);
                if decimal_value(s@) is Some {
                    assert(s@.take(d).take(i as int) == s@.take(i as int));
                    lemma_digits_prefix_le(s@.take(d), i as int);
                    lemma_digits_bound(if d < s@.len() { s@.skip(d + 1) } else { Seq::<u8>::empty() }.take(0));
                    let frac = if d < s@.len() { s@.skip(d + 1) } else { Seq::<u8>::empty() };
                    let k: nat = if frac.len() < 8 { frac.len() } else { 8 };
                    assert(all_digits(frac.take(k as int)));
                    lemma_digits_nonneg(frac.take(k as int));
                    lemma_pow10_pos((8 - k) as nat);
                    assert(0 <= digits_value(frac.take(k as int)) * pow10((8 - k) as nat))
                        by (nonlinear_arith)
                        requires
                            0 <= digits_value(frac.take(k as int)),
                            0 < pow10((8 - k) as nat),
                    ;
                    assert(digits_value(s@.take(d)) * (SCALE as int) >= digits_value(s@.take(d)))
                        by (nonlinear_arith)
                        requires
                            digits_value(s@.take(d)) >= 0,
                    ;
                }
            }
            return None;
        }
    }
    proof {
        lemma_first_dot_range(s@, i as int);
    }
    let d = i;
    let whole64: u64 = whole as u64;
    let mut units: u64 = 0;
    let mut count: usize = 0;
    let mut j: usize = if d < n { d + 1 } else { n };
    let ghost frac = if d < n { s@.skip(d + 1) } else { Seq::<u8>::empty() };
    let ghost start: int = j as int;
    while j < n
        invariant
            d <= n,
            n == s@.len(),
            d == first_dot(s@, 0),
            start == (if d < n { d + 1 } else { n as int }),
            frac == (if d < n { s@.skip(d + 1) } else { Seq::<u8>::empty() }),
            start <= j <= n,
            all_digits(frac.take(j - start)),
            count == (if j - start < 8 { j - start } else { 8 }),
            units == digits_value(frac.take(count as int)),
            units < pow10(count as nat),
        decreases n - j,
    {
        let c = s[j];
        if c < 48 || c > 57 {
            proof {
                assert(frac[j - start] == c);
            }
            return None;
        }
        proof {
            assert(frac.take(j - start + 1).drop_last() == frac.take(j - start));
            assert(frac.take(j - start + 1)[j - start] == c);
        }
        if count < 8 {
            proof {
                assert(frac.take(count + 1int).drop_last() == frac.take(count as int));
                lemma_pow10_le8(count as nat);
            }
            units = units * 10 + (c - 48) as u64;
            count = count + 1;
        }
        j = j + 1;
    }
    proof {
        assert(frac.take(j - start) == frac);
        lemma_digits_prefix_le(frac, count as int);
    }
    if i == 0 && (d >= n || d + 1 == n) {
        return None;
    }
    let ghost k = count;
    let mut scale_left: usize = 8 - count;
    let mut frac_val: u64 = units;
    proof {
        assert(pow10(0) == 1);
        assert((8 - count - scale_left) as nat == 0);
        assert(units * pow10(0) == units) by (nonlinear_arith)
            requires
                pow10(0) == 1,
        ;
    }
    while scale_left > 0
        invariant
            k == count,
            count <= 8,
            scale_left <= 8 - count,
            frac_val == units * pow10((8 - count - scale_left) as nat),
            units < pow10(count as nat),
        decreases scale_left,
    {
        proof {
            lemma_pow10_mul(count as nat, (8 - count - scale_left) as nat);
            lemma_pow10_le8((count + 8 - count - scale_left) as nat);
            lemma_pow10_pos((8 - count - scale_left) as nat);
            assert(units * pow10((8 - count - scale_left) as nat) < pow10(count as nat) * pow10(
                (8 - count - scale_left) as nat,
            )) by (nonlinear_arith)
                requires
                    units < pow10(count as nat),
                    pow10((8 - count - scale_left) as nat) > 0,
            ;
        }
        let ghost e = (8 - count - scale_left) as nat;
        frac_val = frac_val * 10;
        scale_left = scale_left - 1;
        proof {
            assert((8 - count - scale_left) as nat == e + 1);
            assert(pow10(e + 1) == 10 * pow10(e));
            assert(units * pow10(e + 1) == units * pow10(e) * 10) by (nonlinear_arith)
                requires
                    pow10(e + 1) == 10 * pow10(e),
            ;
        }
    }
    proof {
        lemma_pow10_mul(count as nat, (8 - count) as nat);
        lemma_pow10_le8(8);
        assert(frac_val == frac_units(frac));
        assert(s@.take(d as int) == s@.take(i as int));
    }
    proof {
        assert(whole64 * SCALE <= (u64::MAX as int) * SCALE) by (nonlinear_arith);
    }
    let total: u128 = (whole64 as u128) * (SCALE as u128) + frac_val as u128;
    if total > u64::MAX as u128 {
        None
    } else {
        Some(total as u64)
    }
}

proof fn lemma_pow10_pos(n: nat)
    ensures
        pow10(n) > 0,
    decreases n,
{
    if n > 0 {
        lemma_pow10_pos((n - 1) as nat);
    }
}

proof fn lemma_pow10_mul(a: nat, b: nat)
    ensures
        pow10(a) * pow10(b) == pow10(a + b),
    decreases a,
{
    if a > 0 {
        lemma_pow10_mul((a - 1) as nat, b);
        assert(pow10(a) * pow10(b) == 10 * (pow10((a - 1) as nat) * pow10(b))) by (nonlinear_arith)
            requires
                pow10(a) == 10 * pow10((a - 1) as nat),
        ;
        assert((a + b - 1) as nat == (a - 1) as nat + b);
    }
}

proof fn lemma_pow10_le8(n: nat)
    requires
        n <= 8,
    ensures
        pow10(n) <= 100_000_000,
        pow10(8) == 100_000_000,
{
    assert(pow10(0) == 1);
    assert(pow10(1) == 10);
    assert(pow10(2) == 100);
    assert(pow10(3) == 1000);
    assert(pow10(4) == 10000);
    assert(pow10(5) == 100000);
    assert(pow10(6) == 1000000);
    assert(pow10(7) == 10000000);
    assert(pow10(8) == 100000000);
}

/// The bytes of an optional text field.
pub open spec fn opt_view(f: Option<Vec<u8>>) -> Option<Seq<u8>> {
    match f {
        Some(v) => Some(v@),
        None => None,
    }
}

/// The fixed-point value of a field, where it is present and reads.
pub open spec fn field_value(f: Option<Seq<u8>>) -> Option<u64> {
    match f {
        Some(v) => match decimal_value(v) {
            Some(x) => if x <= u64::MAX { Some(x as u64) } else { None },
            None => None,
        },
        None => None,
    }
}

fn read_field(f: &Option<Vec<u8>>) -> (r: Option<u64>)
    ensures
        r == field_value(opt_view(*f)),
{
    match f {
        Some(v) => parse_decimal(v.as_slice()),
        None => None,
    }
}

/// The fields of a streamed one-minute candle, as they came: times in
/// milliseconds, prices and volume as decimal text.
#[derive(Clone, Debug)]
pub struct KlineFields {
    pub open_time: Option<i64>,
    pub close_time: Option<i64>,
    pub open: Option<Vec<u8>>,
    pub high: Option<Vec<u8>>,
    pub low: Option<Vec<u8>>,
    pub close: Option<Vec<u8>>,
    pub volume: Option<Vec<u8>>,
    pub trades: Option<u64>,
}

/// The bar a streamed candle describes: every field but the trade count
/// must be present and read; a missing trade count is zero.
pub open spec fn kline_bar(k: KlineFields) -> Option<Bar> {
    match (
        k.open_time,
        k.close_time,
        field_value(opt_view(k.open)),
        field_value(opt_view(k.high)),
        field_value(opt_view(k.low)),
        field_value(opt_view(k.close)),
        field_value(opt_view(k.volume)),
    ) {
        (Some(ot), Some(ct), Some(o), Some(h), Some(l), Some(c), Some(v)) => Some(
            Bar {
                open_time: ot,
                close_time: ct,
                open: o,
                high: h,
                low: l,
                close: c,
                volume: v,
                trades: match k.trades {
                    Some(n) => n,
                    None => 0,
                },
            },
        ),
        _ => None,
    }
}

pub fn bar_from_kline(k: &KlineFields) -> (r: Option<Bar>)
    ensures
        r == kline_bar(*k),
{
    let open_time = k.open_time;
    let close_time = k.close_time;
    let open = read_field(&k.open);
    let high = read_field(&k.high);
    let low = read_field(&k.low);
    let close = read_field(&k.close);
    let volume = read_field(&k.volume);
    match (open_time, close_time, open, high, low, close, volume) {
        (Some(ot), Some(ct), Some(o), Some(h), Some(l), Some(c), Some(v)) => Some(
            Bar {
                open_time: ot,
                close_time: ct,
                open: o,
                high: h,
                low: l,
                close: c,
                volume: v,
                trades: match k.trades {
                    Some(n) => n,
                    None => 0,
                },
            },
        ),
        _ => None,
    }
}

/// Length of a one-minute bar in milliseconds.
pub const MINUTE_MS: i64 = 60_000;

/// The fields of the latest candle fetched over HTTP, as they came.
#[derive(Clone, Debug)]
pub struct PollFields {
    pub open_time: Option<i64>,
    pub open: Option<Vec<u8>>,
    pub high: Option<Vec<u8>>,
    pub low: Option<Vec<u8>>,
    pub close: Option<Vec<u8>>,
    pub volume: Option<Vec<u8>>,
    pub close_time: Option<i64>,
    pub trades: Option<u64>,
}

pub open spec fn or_default<T>(o: Option<T>, d: T) -> T {
    match o {
        Some(x) => x,
        None => d,
    }
}

/// The bar a fetched candle describes: none without a close. A close that
/// does not read counts as zero; open, high and low fall back to the
/// close, the volume and trade count to zero, the open time to zero and
/// the close time to a minute after the open (at most `i64::MAX`).
pub open spec fn poll_bar(p: PollFields) -> Option<Bar> {
    poll_bar_of(
        p.open_time,
        opt_view(p.open),
        opt_view(p.high),
        opt_view(p.low),
        opt_view(p.close),
        opt_view(p.volume),
        p.close_time,
        p.trades,
    )
}

/// [`poll_bar`] over the bytes of each field.
pub open spec fn poll_bar_of(
    open_time: Option<i64>,
    open: Option<Seq<u8>>,
    high: Option<Seq<u8>>,
    low: Option<Seq<u8>>,
    close: Option<Seq<u8>>,
    volume: Option<Seq<u8>>,
    close_time: Option<i64>,
    trades: Option<u64>,
) -> Option<Bar> {
    match close {
        None => None,
        Some(_) => {
            let c = or_default(field_value(close), 0);
            let ot = or_default(open_time, 0);
            let ct_default = if ot <= i64::MAX - MINUTE_MS { (ot + MINUTE_MS) as i64 } else { i64::MAX };
            Some(
                Bar {
                    open_time: ot,
                    close_time: or_default(close_time, ct_default),
                    open: or_default(field_value(open), c),
                    high: or_default(field_value(high), c),
                    low: or_default(field_value(low), c),
                    close: c,
                    volume: or_default(field_value(volume), 0),
                    trades: or_default(trades, 0),
                },
            )
        },
    }
}

fn value_or(o: Option<u64>, d: u64) -> (r: u64)
    ensures
        r == or_default(o, d),
{
    match o {
        Some(x) => x,
        None => d,
    }
}

pub fn bar_from_poll(p: &PollFields) -> (r: Option<Bar>)
    ensures
        r == poll_bar(*p),
{
    if p.close.is_none() {
        return None;
    }
    proof {
        assert(opt_view(p.close) is Some);
    }
    let c = value_or(read_field(&p.close), 0);
    let ot = match p.open_time {
        Some(t) => t,
        None => 0,
    };
    let ct_default = if ot <= i64::MAX - MINUTE_MS { ot + MINUTE_MS } else { i64::MAX };
    let ct = match p.close_time {
        Some(t) => t,
        None => ct_default,
    };
    Some(
        Bar {
            open_time: ot,
            close_time: ct,
            open: value_or(read_field(&p.open), c),
            high: value_or(read_field(&p.high), c),
            low: value_or(read_field(&p.low), c),
            close: c,
            volume: value_or(read_field(&p.volume), 0),
            trades: match p.trades {
                Some(n) => n,
                None => 0,
            },
        },
    )
}

/// The comma-separated fields of a line; a line without commas is one
/// field.
pub open spec fn csv_fields(line: Seq<u8>) -> Seq<Seq<u8>>
    decreases line.len(),
{
    if line.len() == 0 {
        seq![Seq::<u8>::empty()]
    } else {
        let init = csv_fields(line.drop_last());
        if line.last() == 44 {
            init.push(Seq::<u8>::empty())
        } else {
            init.update(init.len() - 1, init.last().push(line.last()))
        }
    }
}

proof fn lemma_csv_fields_nonempty(line: Seq<u8>)
    ensures
        csv_fields(line).len() >= 1,
    decreases line.len(),
{
    if line.len() > 0 {
        lemma_csv_fields_nonempty(line.drop_last());
    }
}

pub open spec fn byte_views(v: Seq<Vec<u8>>) -> Seq<Seq<u8>> {
    v.map_values(|f: Vec<u8>| f@)
}

/// Splits a line at its commas.
pub fn split_fields(line: &[u8]) -> (r: Vec<Vec<u8>>)
    ensures
        byte_views(r@) == csv_fields(line@),
{
    let mut fields: Vec<Vec<u8>> = Vec::new();
    fields.push(Vec::new());
    proof {
        assert(line@.take(0) == Seq::<u8>::empty());
        assert(byte_views(fields@) =~= seq![Seq::<u8>::empty()]);
    }
    let mut i: usize = 0;
    while i < line.len()
        invariant
            i <= line@.len(),
            fields@.len() >= 1,
            byte_views(fields@) == csv_fields(line@.take(i as int)),
        decreases line@.len() - i,
    {
        let c = line[i];
        let ghost before = byte_views(fields@);
        proof {
            assert(line@.take(i + 1int).drop_last() == line@.take(i as int));
            assert(line@.take(i + 1int).last() == c);
            lemma_csv_fields_nonempty(line@.take(i as int));
        }
        if c == 44 {
            fields.push(Vec::new());
            proof {
                assert(byte_views(fields@) =~= before.push(Seq::<u8>::empty()));
            }
        } else {
            let mut last = fields.pop().unwrap();
            last.push(c);
            fields.push(last);
            proof {
                assert(byte_views(fields@) =~= before.update(before.len() - 1, before.last().push(c)));
            }
        }
        i = i + 1;
    }
    proof {
        assert(line@.take(line@.len() as int) == line@);
    }
    fields
}

/// The value of a run of digits starting at `from`: none for an empty run,
/// a byte that is not a digit, or a value above `u64::MAX`.
pub open spec fn digits_at(s: Seq<u8>, from: int) -> Option<int> {
    let t = s.skip(from);
    if t.len() > 0 && all_digits(t) && digits_value(t) <= u64::MAX {
        Some(digits_value(t))
    } else {
        None
    }
}

fn read_digits(s: &[u8], from: usize) -> (r: Option<u64>)
    requires
        from <= s@.len(),
    ensures
        r matches Some(v) ==> digits_at(s@, from as int) == Some(v as int),
        r is None ==> digits_at(s@, from as int) is None,
{
    let n = s.len();
    if from >= n {
        return None;
    }
    let ghost t = s@.skip(from as int);
    let mut v: u64 = 0;
    let mut i: usize = from;
    while i < n
        invariant
            from <= i <= n,
            n == s@.len(),
            t == s@.skip(from as int),
            all_digits(t.take(i - from)),
            v == digits_value(t.take(i - from)),
        decreases n - i,
    {
        let c = s[i];
        proof {
            assert(t[i - from] == c);
            assert(t.take(i - from + 1).drop_last() == t.take(i - from));
        }
        if c < 48 || c > 57 {
            return None;
        }
        let next: u128 = v as u128 * 10 + (c - 48) as u128;
        if next > u64::MAX as u128 {
            proof {
                if all_digits(t) {
                    lemma_digits_prefix_le(t, i - from + 1);
                }
            }
            return None;
        }
        v = next as u64;
        i = i + 1;
    }
    proof {
        assert(t.take(n - from) == t);
    }
    Some(v)
}

/// The value of an integer in decimal text, with an optional leading `-`.
pub open spec fn int_text(s: Seq<u8>) -> Option<int> {
    if s.len() > 0 && s[0] == 45 {
        match digits_at(s, 1) {
            Some(v) => Some(-v),
            None => None,
        }
    } else {
        digits_at(s, 0)
    }
}

/// Reads an integer in decimal text; `None` unless it fits in an `i64`.
pub fn parse_i64(s: &[u8]) -> (r: Option<i64>)
    ensures
        r == (match int_text(s@) {
            Some(v) => if i64::MIN <= v <= i64::MAX { Some(v as i64) } else { None::<i64> },
            None => None::<i64>,
        }),
{
    if s.len() > 0 && s[0] == 45 {
        let v = read_digits(s, 1)?;
        if v > 9_223_372_036_854_775_808 {
            return None;
        }
        Some((0 - (v as i128)) as i64)
    } else {
        let v = read_digits(s, 0)?;
        if v > i64::MAX as u64 {
            return None;
        }
        Some(v as i64)
    }
}

/// Reads an unsigned integer in decimal text; `None` unless it fits in a
/// `u64`.
pub fn parse_u64(s: &[u8]) -> (r: Option<u64>)
    ensures
        r == (match digits_at(s@, 0) {
            Some(v) => Some(v as u64),
            None => None::<u64>,
        }),
{
    read_digits(s, 0)
}

pub open spec fn text_at(f: Seq<Seq<u8>>, i: int) -> Option<Seq<u8>> {
    if 0 <= i < f.len() { Some(f[i]) } else { None }
}

pub open spec fn signed_at(f: Seq<Seq<u8>>, i: int) -> Option<i64> {
    match text_at(f, i) {
        Some(t) => match int_text(t) {
            Some(v) => if i64::MIN <= v <= i64::MAX { Some(v as i64) } else { None },
            None => None,
        },
        None => None,
    }
}

pub open spec fn unsigned_at(f: Seq<Seq<u8>>, i: int) -> Option<u64> {
    match text_at(f, i) {
        Some(t) => match digits_at(t, 0) {
            Some(v) => Some(v as u64),
            None => None,
        },
        None => None,
    }
}

/// The bar of one line of an archive file: open time, open, high, low,
/// close, volume, close time, quote volume, trade count, and more, comma
/// separated. A line whose open time is not an integer (a header) gives
/// none; the other fields fall back as for a fetched candle.
pub open spec fn csv_bar(line: Seq<u8>) -> Option<Bar> {
    let f = csv_fields(line);
    match signed_at(f, 0) {
        None => None,
        Some(ot) => poll_bar_of(
            Some(ot),
            text_at(f, 1),
            text_at(f, 2),
            text_at(f, 3),
            text_at(f, 4),
            text_at(f, 5),
            signed_at(f, 6),
            unsigned_at(f, 8),
        ),
    }
}

fn field_copy(fields: &Vec<Vec<u8>>, i: usize) -> (r: Option<Vec<u8>>)
    ensures
        opt_view(r) == text_at(byte_views(fields@), i as int),
{
    if i >= fields.len() {
        return None;
    }
    let src = &fields[i];
    let mut out: Vec<u8> = Vec::new();
    let mut k: usize = 0;
    while k < src.len()
        invariant
            k <= src@.len(),
            out@ == src@.take(k as int),
        decreases src@.len() - k,
    {
        out.push(src[k]);
        k = k + 1;
        proof {
            assert(out@ =~= src@.take(k as int));
        }
    }
    proof {
        assert(out@ =~= src@);
    }
    Some(out)
}

fn signed_field(fields: &Vec<Vec<u8>>, i: usize) -> (r: Option<i64>)
    ensures
        r == signed_at(byte_views(fields@), i as int),
{
    if i >= fields.len() {
        return None;
    }
    parse_i64(fields[i].as_slice())
}

fn unsigned_field(fields: &Vec<Vec<u8>>, i: usize) -> (r: Option<u64>)
    ensures
        r == unsigned_at(byte_views(fields@), i as int),
{
    if i >= fields.len() {
        return None;
    }
    parse_u64(fields[i].as_slice())
}

/// Reads one line of an archive file into a bar.
pub fn bar_from_csv_line(line: &[u8]) -> (r: Option<Bar>)
    ensures
        r == csv_bar(line@),
{
    let fields = split_fields(line);
    let open_time = signed_field(&fields, 0)?;
    let p = PollFields {
        open_time: Some(open_time),
        open: field_copy(&fields, 1),
        high: field_copy(&fields, 2),
        low: field_copy(&fields, 3),
        close: field_copy(&fields, 4),
        volume: field_copy(&fields, 5),
        close_time: signed_field(&fields, 6),
        trades: unsigned_field(&fields, 8),
    };
    bar_from_poll(&p)
}

} // verus!
