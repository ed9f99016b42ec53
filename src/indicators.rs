//! Indicators over a bar sequence: exponential moving averages, the
//! relative strength index with Wilder smoothing, and Chaikin money flow.
//!
//! Each value is a pure function of the bars up to its index.

use vstd::prelude::*;
use crate::fixed::SCALE;
use crate::model::{Bar, FeatureBar, FeatureFrame, Symbol};

verus! {

/// Window lengths of the four indicators.
#[derive(Clone, Copy, Debug, PartialEq, Eq)]
pub struct IndicatorConfig {
    pub ema_fast: usize,
    pub ema_slow: usize,
    pub rsi_period: usize,
    pub cmf_period: usize,
}

impl Default for IndicatorConfig {
    fn default() -> (r: Self)
        ensures
            r == (IndicatorConfig { ema_fast: 12, ema_slow: 26, rsi_period: 14, cmf_period: 20 }),
    {
        IndicatorConfig { ema_fast: 12, ema_slow: 26, rsi_period: 14, cmf_period: 20 }
    }
}

pub open spec fn seq_sum(s: Seq<u64>) -> int
    decreases s.len(),
{
    if s.len() == 0 {
        0
    } else {
        seq_sum(s.drop_last()) + s.last()
    }
}

/// The average of index `i`: the mean of the first `p` values at
/// `p - 1`, then `v + 2 / (p + 1) × (x - v)`, i.e. `(v × (p - 1) + 2x) / (p + 1)`,
/// rounded down.
pub open spec fn ema_at(values: Seq<u64>, p: nat, i: int) -> int
    decreases i,
{
    if i < p || i <= 0 {
        seq_sum(values.take(p as int)) / (p as int)
    } else {
        (ema_at(values, p, i - 1) * (p - 1) + 2 * values[i]) / (p + 1) as int
    }
}

/// The exponential moving average at index `i`, empty before index
/// `p - 1` and for a period of zero.
pub open spec fn ema_value(values: Seq<u64>, p: nat, i: int) -> Option<u64> {
    if p == 0 || i < p - 1 {
        None
    } else {
        Some(ema_at(values, p, i) as u64)
    }
}

proof fn lemma_seq_sum_bound(s: Seq<u64>)
    ensures
        0 <= seq_sum(s) <= s.len() * (u64::MAX as int),
    decreases s.len(),
{
    if s.len() > 0 {
        lemma_seq_sum_bound(s.drop_last());
    }
}

/// `a / d` is at most `m` where `a <= m × d`.
proof fn lemma_div_at_most(a: int, m: int, d: int)
    requires
        0 <= a <= m * d,
        d > 0,
        m >= 0,
    ensures
        0 <= a / d <= m,
{
    vstd::arithmetic::div_mod::lemma_div_is_ordered(a, m * d, d);
    vstd::arithmetic::div_mod::lemma_div_by_multiple(m, d);
    vstd::arithmetic::div_mod::lemma_div_pos_is_pos(a, d);
}

proof fn lemma_ema_step_bound(v: int, x: int, p: int)
    requires
        0 <= v <= u64::MAX,
        0 <= x <= u64::MAX,
        1 <= p <= u64::MAX,
    ensures
        0 <= v * (p - 1) + 2 * x <= (u64::MAX as int) * (p + 1),
        (u64::MAX as int) * (p + 1) < u128::MAX,
        0 <= (v * (p - 1) + 2 * x) / (p + 1) <= u64::MAX,
{
    let m = u64::MAX as int;
    assert(0 <= v * (p - 1) <= m * (p - 1)) by (nonlinear_arith)
        requires
            0 <= v <= m,
            1 <= p,
    ;
    assert(m * (p + 1) == m * (p - 1) + 2 * m) by (nonlinear_arith);
    assert(m * (p + 1) <= m * (m + 1)) by (nonlinear_arith)
        requires
            p <= m,
            m > 0,
    ;
    lemma_div_at_most(v * (p - 1) + 2 * x, m, p + 1);
}

proof fn lemma_ema_bound(values: Seq<u64>, p: nat, i: int)
    requires
        1 <= p <= values.len(),
        p <= u64::MAX,
    ensures
        0 <= ema_at(values, p, i) <= u64::MAX,
    decreases i,
{
    if i < p || i <= 0 {
        lemma_seq_sum_bound(values.take(p as int));
        lemma_div_at_most(seq_sum(values.take(p as int)), u64::MAX as int, p as int);
    } else {
        lemma_ema_bound(values, p, i - 1);
        if 0 <= i < values.len() {
            lemma_ema_step_bound(ema_at(values, p, i - 1), values[i] as int, p as int);
        } else {
            lemma_ema_step_bound(ema_at(values, p, i - 1), values[i] as int, p as int);
        }
    }
}

/// The exponential moving average of `values` over `period`.
pub fn ema(values: &Vec<u64>, period: usize) -> (r: Vec<Option<u64>>)
    ensures
        r@.len() == values@.len(),
        forall|i: int| 0 <= i < values@.len() ==> r@[i] == ema_value(values@, period as nat, i),
{
    let n = values.len();
    let mut result: Vec<Option<u64>> = Vec::new();
    if period == 0 {
        while result.len() < n
            invariant
                result@.len() <= n,
                n == values@.len(),
                period == 0,
                forall|i: int| 0 <= i < result@.len() ==> result@[i] == ema_value(values@, 0, i),
            decreases n - result@.len(),
        {
            result.push(None);
        }
        return result;
    }
    let mut prev: u64 = 0;
    let mut idx: usize = 0;
    while idx < n
        invariant
            n == values@.len(),
            period > 0,
            idx <= n,
            result@.len() == idx,
            forall|i: int| 0 <= i < idx ==> result@[i] == ema_value(values@, period as nat, i),
            idx >= period ==> prev == ema_at(values@, period as nat, idx - 1),
        decreases n - idx,
    {
        if idx + 1 < period {
            result.push(None);
        } else if idx + 1 == period {
            let mut sum: u128 = 0;
            let mut j: usize = 0;
            while j <= idx
                invariant
                    idx < n,
                    n == values@.len(),
                    j <= idx + 1,
                    sum == seq_sum(values@.take(j as int)),
                decreases idx + 1 - j,
            {
                proof {
                    assert(values@.take(j + 1int).drop_last() == values@.take(j as int));
                    lemma_seq_sum_bound(values@.take(j as int));
                    assert(j * (u64::MAX as int) + u64::MAX <= (u64::MAX as int) * (u64::MAX as int)
                        + u64::MAX) by (nonlinear_arith)
                        requires
                            j <= u64::MAX,
                    ;
                }
                sum = sum + values[j] as u128;
                j = j + 1;
            }
            proof {
                lemma_ema_bound(values@, period as nat, idx as int);
            }
            prev = (sum / (period as u128)) as u64;
            result.push(Some(prev));
        } else {
            proof {
                lemma_ema_bound(values@, period as nat, idx as int - 1);
                lemma_ema_step_bound(prev as int, values[idx as int] as int, period as int);
            }
            let num: u128 = (prev as u128) * ((period - 1) as u128) + 2 * (values[idx] as u128);
            prev = (num / (period as u128 + 1)) as u64;
            result.push(Some(prev));
        }
        idx = idx + 1;
    }
    result
}

/// The rise from index `i - 1` to `i`, or zero.
pub open spec fn gain_at(values: Seq<u64>, i: int) -> int {
    if values[i] >= values[i - 1] { values[i] - values[i - 1] } else { 0 }
}

/// The fall from index `i - 1` to `i`, or zero.
pub open spec fn loss_at(values: Seq<u64>, i: int) -> int {
    if values[i] >= values[i - 1] { 0 } else { values[i - 1] - values[i] }
}

/// The rises over the first `k` steps.
pub open spec fn sum_gains(values: Seq<u64>, k: int) -> int
    decreases k,
{
    if k <= 0 { 0 } else { sum_gains(values, k - 1) + gain_at(values, k) }
}

/// The falls over the first `k` steps.
pub open spec fn sum_losses(values: Seq<u64>, k: int) -> int
    decreases k,
{
    if k <= 0 { 0 } else { sum_losses(values, k - 1) + loss_at(values, k) }
}

/// Wilder's average gain at index `i >= p`: the mean of the first `p`
/// rises, then `(a × (p - 1) + gain) / p`, rounded down.
pub open spec fn avg_gain(values: Seq<u64>, p: nat, i: int) -> int
    decreases i,
{
    if i <= p || i <= 0 {
        sum_gains(values, p as int) / (p as int)
    } else {
        (avg_gain(values, p, i - 1) * (p - 1) + gain_at(values, i)) / (p as int)
    }
}

/// Wilder's average loss, as [`avg_gain`] for the falls.
pub open spec fn avg_loss(values: Seq<u64>, p: nat, i: int) -> int
    decreases i,
{
    if i <= p || i <= 0 {
        sum_losses(values, p as int) / (p as int)
    } else {
        (avg_loss(values, p, i - 1) * (p - 1) + loss_at(values, i)) / (p as int)
    }
}

/// `100 − 100 / (1 + g / l)`, that is `100 × g / (g + l)`, and 100 where
/// there is no loss; in fixed point, rounded down.
pub open spec fn rsi_of(g: int, l: int) -> int {
    if l == 0 { 100 * SCALE } else { 100 * SCALE * g / (g + l) }
}

/// The relative strength index at index `i`: empty before index `p`, and
/// everywhere for a period of zero or fewer than `p + 1` values.
pub open spec fn rsi_value(values: Seq<u64>, p: nat, i: int) -> Option<u64> {
    if p == 0 || values.len() < p + 1 || i < p {
        None
    } else {
        Some(rsi_of(avg_gain(values, p, i), avg_loss(values, p, i)) as u64)
    }
}

proof fn lemma_sums_bound(values: Seq<u64>, k: int)
    requires
        k < values.len(),
    ensures
        0 <= sum_gains(values, k) <= k * (u64::MAX as int) || k <= 0,
        0 <= sum_losses(values, k) <= k * (u64::MAX as int) || k <= 0,
        k <= 0 ==> sum_gains(values, k) == 0 && sum_losses(values, k) == 0,
    decreases k,
{
    if k > 0 {
        lemma_sums_bound(values, k - 1);
    }
}

proof fn lemma_smooth_bound(a: int, x: int, p: int)
    requires
        0 <= a <= u64::MAX,
        0 <= x <= u64::MAX,
        1 <= p <= u64::MAX,
    ensures
        0 <= a * (p - 1) + x <= (u64::MAX as int) * p,
        (u64::MAX as int) * p < u128::MAX,
        0 <= (a * (p - 1) + x) / p <= u64::MAX,
{
    let m = u64::MAX as int;
    assert(0 <= a * (p - 1) <= m * (p - 1)) by (nonlinear_arith)
        requires
            0 <= a <= m,
            1 <= p,
    ;
    assert(m * p == m * (p - 1) + m) by (nonlinear_arith);
    assert(m * p <= m * m) by (nonlinear_arith)
        requires
            p <= m,
            m > 0,
    ;
    lemma_div_at_most(a * (p - 1) + x, m, p);
}

proof fn lemma_avg_bound(values: Seq<u64>, p: nat, i: int)
    requires
        1 <= p < values.len(),
        p <= u64::MAX,
        i < values.len(),
    ensures
        0 <= avg_gain(values, p, i) <= u64::MAX,
        0 <= avg_loss(values, p, i) <= u64::MAX,
    decreases i,
{
    if i <= p || i <= 0 {
        lemma_sums_bound(values, p as int);
        lemma_div_at_most(sum_gains(values, p as int), u64::MAX as int, p as int);
        lemma_div_at_most(sum_losses(values, p as int), u64::MAX as int, p as int);
    } else {
        lemma_avg_bound(values, p, i - 1);
        lemma_smooth_bound(avg_gain(values, p, i - 1), gain_at(values, i), p as int);
        lemma_smooth_bound(avg_loss(values, p, i - 1), loss_at(values, i), p as int);
    }
}

fn rsi_exec(g: u64, l: u64) -> (r: u64)
    ensures
        r == rsi_of(g as int, l as int),
{
    if l == 0 {
        100 * SCALE
    } else {
        proof {
            assert(100 * (SCALE as int) * (g as int) <= 100 * (SCALE as int) * (u64::MAX as int))
                by (nonlinear_arith);
        }
        let top: u128 = 100 * (SCALE as u128) * (g as u128);
        proof {
            assert(100 * (SCALE as int) * g <= 100 * (SCALE as int) * (g + l)) by (nonlinear_arith)
                requires
                    l > 0,
            ;
            assert(100 * (SCALE as int) * (g as int) <= 100 * (SCALE as int) * (u64::MAX as int))
                by (nonlinear_arith);
            lemma_div_at_most(100 * (SCALE as int) * g, 100 * (SCALE as int), g + l);
        }
        (top / ((g as u128) + (l as u128))) as u64
    }
}

/// The relative strength index of `values` over `period`.
pub fn rsi(values: &Vec<u64>, period: usize) -> (r: Vec<Option<u64>>)
    ensures
        r@.len() == values@.len(),
        forall|i: int| 0 <= i < values@.len() ==> r@[i] == rsi_value(values@, period as nat, i),
{
    let n = values.len();
    let mut rsis: Vec<Option<u64>> = Vec::new();
    while rsis.len() < n
        invariant
            rsis@.len() <= n,
            n == values@.len(),
            forall|i: int| 0 <= i < rsis@.len() ==> rsis@[i] is None,
        decreases n - rsis@.len(),
    {
        rsis.push(None);
    }
    if period == 0 || n <= period {
        return rsis;
    }
    let mut gains: u128 = 0;
    let mut losses: u128 = 0;
    let mut i: usize = 1;
    while i <= period
        invariant
            1 <= i <= period + 1,
            period < n,
            n == values@.len(),
            gains == sum_gains(values@, i - 1),
            losses == sum_losses(values@, i - 1),
        decreases period + 1 - i,
    {
        proof {
            lemma_sums_bound(values@, i - 1);
            assert((i - 1) * (u64::MAX as int) + u64::MAX <= (u64::MAX as int) * (u64::MAX as int)
                + u64::MAX) by (nonlinear_arith)
                requires
                    i <= u64::MAX,
            ;
        }
        let cur = values[i];
        let before = values[i - 1];
        if cur >= before {
            gains = gains + (cur - before) as u128;
        } else {
            losses = losses + (before - cur) as u128;
        }
        i = i + 1;
    }
    proof {
        lemma_avg_bound(values@, period as nat, period as int);
    }
    let mut avg_g: u64 = (gains / period as u128) as u64;
    let mut avg_l: u64 = (losses / period as u128) as u64;
    rsis.set(period, Some(rsi_exec(avg_g, avg_l)));
    let mut k: usize = period + 1;
    while k < n
        invariant
            period + 1 <= k <= n,
            1 <= period < n,
            n == values@.len(),
            rsis@.len() == n,
            avg_g == avg_gain(values@, period as nat, k - 1),
            avg_l == avg_loss(values@, period as nat, k - 1),
            forall|j: int| 0 <= j < k ==> rsis@[j] == rsi_value(values@, period as nat, j),
            forall|j: int| k <= j < n ==> rsis@[j] is None,
        decreases n - k,
    {
        proof {
            lemma_avg_bound(values@, period as nat, k - 1);
            lemma_smooth_bound(avg_g as int, gain_at(values@, k as int), period as int);
            lemma_smooth_bound(avg_l as int, loss_at(values@, k as int), period as int);
            lemma_avg_bound(values@, period as nat, k as int);
        }
        let cur = values[k];
        let before = values[k - 1];
        let gain: u64 = if cur >= before { cur - before } else { 0 };
        let loss: u64 = if cur >= before { 0 } else { before - cur };
        avg_g = ((avg_g as u128 * (period - 1) as u128 + gain as u128) / period as u128) as u64;
        avg_l = ((avg_l as u128 * (period - 1) as u128 + loss as u128) / period as u128) as u64;
        rsis.set(k, Some(rsi_exec(avg_g, avg_l)));
        k = k + 1;
    }
    rsis
}

/// The numerator of a bar's money-flow multiplier: `(c − l) − (h − c)`.
pub open spec fn flow_num(b: Bar) -> int {
    2 * b.close - b.low - b.high
}

/// The denominator of a bar's money-flow multiplier: `h − l`.
pub open spec fn flow_den(b: Bar) -> int {
    b.high - b.low
}

pub open spec fn abs(x: int) -> int {
    if x < 0 { -x } else { x }
}

/// The size of a bar's money-flow volume, `|num| × volume / |den|` rounded
/// down; zero where high equals low.
pub open spec fn flow_mag(b: Bar) -> int {
    if flow_den(b) == 0 { 0 } else { abs(flow_num(b)) * b.volume / abs(flow_den(b)) }
}

/// The money-flow volume of a bar where the multiplier is positive.
pub open spec fn flow_in(b: Bar) -> int {
    if flow_den(b) != 0 && flow_num(b) != 0 && (flow_num(b) > 0) == (flow_den(b) > 0) {
        flow_mag(b)
    } else {
        0
    }
}

/// The money-flow volume of a bar where the multiplier is negative, as a
/// positive amount.
pub open spec fn flow_out(b: Bar) -> int {
    if flow_den(b) != 0 && flow_num(b) != 0 && (flow_num(b) > 0) != (flow_den(b) > 0) {
        flow_mag(b)
    } else {
        0
    }
}

/// One for a bar whose money-flow volume does not fit in a `u64`.
pub open spec fn oversized(b: Bar) -> int {
    if flow_mag(b) <= u64::MAX { 0 } else { 1 }
}

pub open spec fn small_in(b: Bar) -> int {
    if flow_mag(b) <= u64::MAX { flow_in(b) } else { 0 }
}

pub open spec fn small_out(b: Bar) -> int {
    if flow_mag(b) <= u64::MAX { flow_out(b) } else { 0 }
}

pub open spec fn bar_volume(b: Bar) -> int {
    b.volume as int
}

/// The sum of `f` over the bars at `lo..hi`.
pub open spec fn range_sum(bars: Seq<Bar>, lo: int, hi: int, f: spec_fn(Bar) -> int) -> int
    decreases hi - lo,
{
    if hi <= lo { 0 } else { range_sum(bars, lo, hi - 1, f) + f(bars[hi - 1]) }
}

/// Chaikin money flow at index `i`: the net money-flow volume of the last
/// `p` bars over their volume, rounded toward zero. Empty before index
/// `p - 1`, everywhere for a period of zero or fewer than `p` bars, and
/// where the window has no volume or a value out of range: a bar whose
/// flow does not fit in a `u64`, a net flow above `i128::MAX / SCALE`, or
/// a ratio above `i64::MAX`.
pub open spec fn cmf_value(bars: Seq<Bar>, p: nat, i: int) -> Option<i64> {
    if p == 0 || bars.len() < p || i + 1 < p {
        None
    } else {
        let lo = i + 1 - p;
        let inflow = range_sum(bars, lo, i + 1, |b: Bar| flow_in(b));
        let outflow = range_sum(bars, lo, i + 1, |b: Bar| flow_out(b));
        let vol = range_sum(bars, lo, i + 1, |b: Bar| bar_volume(b));
        let mag = if inflow >= outflow { inflow - outflow } else { outflow - inflow };
        let q = mag * SCALE / vol;
        if range_sum(bars, lo, i + 1, |b: Bar| oversized(b)) > 0 || vol == 0 || mag > (
        i128::MAX as int) / (SCALE as int) || q > i64::MAX {
            None
        } else if inflow >= outflow {
            Some(q as i64)
        } else {
            Some((-q) as i64)
        }
    }
}

proof fn lemma_range_bound(bars: Seq<Bar>, lo: int, hi: int, f: spec_fn(Bar) -> int)
    requires
        0 <= lo,
        hi <= bars.len(),
        forall|b: Bar| 0 <= #[trigger] f(b) <= u64::MAX,
    ensures
        0 <= range_sum(bars, lo, hi, f) <= (if hi > lo { hi - lo } else { 0 }) * (u64::MAX as int),
    decreases hi - lo,
{
    if hi > lo {
        lemma_range_bound(bars, lo, hi - 1, f);
    }
}

proof fn lemma_range_drop_first(bars: Seq<Bar>, lo: int, hi: int, f: spec_fn(Bar) -> int)
    requires
        lo < hi,
    ensures
        range_sum(bars, lo + 1, hi, f) == range_sum(bars, lo, hi, f) - f(bars[lo]),
    decreases hi - lo,
{
    if hi > lo + 1 {
        lemma_range_drop_first(bars, lo, hi - 1, f);
    } else {
        assert(range_sum(bars, lo, lo, f) == 0);
        assert(range_sum(bars, lo + 1, lo + 1, f) == 0);
    }
}

/// Where no bar of the window is oversized, the capped sums are the sums.
proof fn lemma_no_oversized(bars: Seq<Bar>, lo: int, hi: int)
    requires
        range_sum(bars, lo, hi, |b: Bar| oversized(b)) == 0,
    ensures
        range_sum(bars, lo, hi, |b: Bar| small_in(b)) == range_sum(bars, lo, hi, |b: Bar| flow_in(b)),
        range_sum(bars, lo, hi, |b: Bar| small_out(b)) == range_sum(
            bars,
            lo,
            hi,
            |b: Bar| flow_out(b),
        ),
    decreases hi - lo,
{
    if hi > lo {
        if hi - 1 > lo {
            lemma_oversized_nonneg(bars, lo, hi - 1);
        }
        assert(range_sum(bars, lo, hi - 1, |b: Bar| oversized(b)) >= 0) by {
            lemma_oversized_nonneg(bars, lo, hi - 1);
        }
        lemma_no_oversized(bars, lo, hi - 1);
    }
}

proof fn lemma_oversized_nonneg(bars: Seq<Bar>, lo: int, hi: int)
    ensures
        range_sum(bars, lo, hi, |b: Bar| oversized(b)) >= 0,
    decreases hi - lo,
{
    if hi > lo {
        lemma_oversized_nonneg(bars, lo, hi - 1);
    }
}

proof fn fixed_mul_bound(d: u128, v: int)
    requires
        d <= u64::MAX,
        0 <= v <= u64::MAX,
    ensures
        d * v <= (u64::MAX as int) * (u64::MAX as int) < u128::MAX,
{
    assert(d * v <= (u64::MAX as int) * (u64::MAX as int)) by (nonlinear_arith)
        requires
            d <= u64::MAX,
            0 <= v <= u64::MAX,
    ;
}

/// The capped inflow, the capped outflow, and whether the bar is
/// oversized.
fn bar_flows(b: &Bar) -> (r: (u64, u64, bool))
    ensures
        r.0 == small_in(*b),
        r.1 == small_out(*b),
        r.2 == (oversized(*b) == 1),
{
    let num: i128 = 2 * (b.close as i128) - (b.low as i128) - (b.high as i128);
    let den: i128 = (b.high as i128) - (b.low as i128);
    if den == 0 || b.volume == 0 || num == 0 {
        proof {
            if den != 0 {
                assert(abs(flow_num(*b)) * 0 == 0);
            }
        }
        return (0, 0, false);
    }
    let mn: u128 = if num < 0 { (0 - num) as u128 } else { num as u128 };
    let md: u128 = if den < 0 { (0 - den) as u128 } else { den as u128 };
    let vol: u128 = b.volume as u128;
    let q: u128 = mn / md;
    let rem: u128 = mn % md;
    proof {
        vstd::arithmetic::div_mod::lemma_fundamental_div_mod(mn as int, md as int);
        assert(mn == md * q + rem);
        assert(mn * vol == (q * md + rem) * vol) by (nonlinear_arith)
            requires
                mn == md * q + rem,
        ;
        assert((q * md + rem) * vol == rem * vol + (q * vol) * md) by (nonlinear_arith);
        vstd::arithmetic::div_mod::lemma_hoist_over_denominator(rem * vol, q * vol, md as nat);
    }
    if q > u64::MAX as u128 {
        proof {
            assert(q * vol >= q) by (nonlinear_arith)
                requires
                    vol >= 1,
                    q >= 0,
            ;
            assert(rem * vol >= 0) by (nonlinear_arith)
                requires
                    rem >= 0,
                    vol >= 0,
            ;
            vstd::arithmetic::div_mod::lemma_div_pos_is_pos(rem * vol, md as int);
        }
        return (0, 0, true);
    }
    proof {
        fixed_mul_bound(q, vol as int);
        assert(rem < md);
        assert(md <= u64::MAX);
        fixed_mul_bound(rem, vol as int);
    }
    let big = q * vol;
    proof {
        assert(rem * vol <= md * vol) by (nonlinear_arith)
            requires
                rem < md,
                vol >= 0,
        ;
        assert(md * vol == vol * md) by (nonlinear_arith);
        lemma_div_at_most(rem * vol, vol as int, md as int);
        assert(vol * md == md * vol) by (nonlinear_arith);
    }
    let part: u128 = (rem * vol) / md;
    let mag: u128 = big + part;
    if mag > u64::MAX as u128 {
        return (0, 0, true);
    }
    if (num > 0) == (den > 0) {
        (mag as u64, 0, false)
    } else {
        (0, mag as u64, false)
    }
}

/// Chaikin money flow of `bars` over `period`, kept as sliding sums: each
/// step drops the bar leaving the window and adds the new one.
pub fn cmf(bars: &Vec<Bar>, period: usize) -> (r: Vec<Option<i64>>)
    ensures
        r@.len() == bars@.len(),
        forall|i: int| 0 <= i < bars@.len() ==> r@[i] == cmf_value(bars@, period as nat, i),
{
    let n = bars.len();
    let mut result: Vec<Option<i64>> = Vec::new();
    while result.len() < n
        invariant
            result@.len() <= n,
            n == bars@.len(),
            forall|i: int| 0 <= i < result@.len() ==> result@[i] is None,
        decreases n - result@.len(),
    {
        result.push(None);
    }
    if period == 0 || n < period {
        return result;
    }
    let ghost fin = |b: Bar| small_in(b);
    let ghost fout = |b: Bar| small_out(b);
    let ghost fvol = |b: Bar| bar_volume(b);
    let ghost fbig = |b: Bar| oversized(b);
    let mut acc_in: u128 = 0;
    let mut acc_out: u128 = 0;
    let mut acc_vol: u128 = 0;
    let mut acc_big: u128 = 0;
    let mut i: usize = 0;
    while i < n
        invariant
            1 <= period <= n,
            n == bars@.len(),
            i <= n,
            result@.len() == n,
            fin == (|b: Bar| small_in(b)),
            fout == (|b: Bar| small_out(b)),
            fvol == (|b: Bar| bar_volume(b)),
            fbig == (|b: Bar| oversized(b)),
            forall|b: Bar| 0 <= #[trigger] fin(b) <= u64::MAX,
            forall|b: Bar| 0 <= #[trigger] fout(b) <= u64::MAX,
            forall|b: Bar| 0 <= #[trigger] fvol(b) <= u64::MAX,
            forall|b: Bar| 0 <= #[trigger] fbig(b) <= u64::MAX,
            acc_in == range_sum(bars@, if i >= period { i - period } else { 0 }, i as int, fin),
            acc_out == range_sum(bars@, if i >= period { i - period } else { 0 }, i as int, fout),
            acc_vol == range_sum(bars@, if i >= period { i - period } else { 0 }, i as int, fvol),
            acc_big == range_sum(bars@, if i >= period { i - period } else { 0 }, i as int, fbig),
            forall|j: int| 0 <= j < i ==> result@[j] == cmf_value(bars@, period as nat, j),
            forall|j: int| i <= j < n ==> result@[j] is None,
        decreases n - i,
    {
        if i >= period {
            let (pin, pout, pbig) = bar_flows(&bars[i - period]);
            proof {
                lemma_range_drop_first(bars@, i - period, i as int, fin);
                lemma_range_drop_first(bars@, i - period, i as int, fout);
                lemma_range_drop_first(bars@, i - period, i as int, fvol);
                lemma_range_drop_first(bars@, i - period, i as int, fbig);
                lemma_range_bound(bars@, i - period + 1, i as int, fin);
                lemma_range_bound(bars@, i - period + 1, i as int, fout);
                lemma_range_bound(bars@, i - period + 1, i as int, fvol);
                lemma_range_bound(bars@, i - period + 1, i as int, fbig);
            }
            acc_in = acc_in - pin as u128;
            acc_out = acc_out - pout as u128;
            acc_vol = acc_vol - bars[i - period].volume as u128;
            acc_big = acc_big - if pbig { 1u128 } else { 0u128 };
        }
        let lo: Ghost<int> = Ghost(if i + 1 >= period { i + 1 - period } else { 0 });
        proof {
            lemma_range_bound(bars@, lo@, i as int, fin);
            lemma_range_bound(bars@, lo@, i as int, fout);
            lemma_range_bound(bars@, lo@, i as int, fvol);
            lemma_range_bound(bars@, lo@, i as int, fbig);
            assert(((i - lo@) + 1) * (u64::MAX as int) <= (period as int) * (u64::MAX as int))
                by (nonlinear_arith)
                requires
                    i - lo@ + 1 <= period,
            ;
            assert((period as int) * (u64::MAX as int) <= (u64::MAX as int) * (u64::MAX as int))
                by (nonlinear_arith)
                requires
                    period <= u64::MAX,
            ;
        }
        let (fi, fo, big) = bar_flows(&bars[i]);
        acc_in = acc_in + fi as u128;
        acc_out = acc_out + fo as u128;
        acc_vol = acc_vol + bars[i].volume as u128;
        acc_big = acc_big + if big { 1u128 } else { 0u128 };
        if i + 1 >= period && acc_big == 0 && acc_vol != 0 {
            proof {
                lemma_no_oversized(bars@, lo@, i + 1);
            }
            let pos = acc_in >= acc_out;
            let mag: u128 = if pos { acc_in - acc_out } else { acc_out - acc_in };
            if mag <= (i128::MAX as u128) / (SCALE as u128) {
                proof {
                    assert(mag * SCALE <= i128::MAX) by (nonlinear_arith)
                        requires
                            mag <= (i128::MAX as int) / (SCALE as int),
                    ;
                }
                let q: u128 = mag * (SCALE as u128) / acc_vol;
                if q <= i64::MAX as u128 {
                    let v: i64 = if pos { q as i64 } else { -(q as i64) };
                    result.set(i, Some(v));
                }
            }
        }
        i = i + 1;
    }
    result
}

pub open spec fn closes(bars: Seq<Bar>) -> Seq<u64> {
    bars.map_values(|b: Bar| b.close)
}

/// The indicator bar at index `i` of `bars` under `cfg`.
pub open spec fn feature_at(bars: Seq<Bar>, cfg: IndicatorConfig, i: int) -> FeatureBar {
    FeatureBar {
        bar: bars[i],
        ema_fast: ema_value(closes(bars), cfg.ema_fast as nat, i),
        ema_slow: ema_value(closes(bars), cfg.ema_slow as nat, i),
        rsi: rsi_value(closes(bars), cfg.rsi_period as nat, i),
        cmf: cmf_value(bars, cfg.cmf_period as nat, i),
    }
}

/// One indicator bar per input bar.
pub fn compute_features(symbol: Symbol, bars: &Vec<Bar>, cfg: IndicatorConfig) -> (r: FeatureFrame)
    ensures
        r.symbol == symbol,
        r.rows@.len() == bars@.len(),
        forall|i: int| 0 <= i < bars@.len() ==> r.rows@[i] == feature_at(bars@, cfg, i),
{
    let n = bars.len();
    let mut closes_v: Vec<u64> = Vec::new();
    let mut i: usize = 0;
    while i < n
        invariant
            n == bars@.len(),
            i <= n,
            closes_v@.len() == i,
            forall|j: int| 0 <= j < i ==> closes_v@[j] == bars@[j].close,
        decreases n - i,
    {
        closes_v.push(bars[i].close);
        i = i + 1;
    }
    proof {
        assert(closes_v@ =~= closes(bars@));
    }
    let ema_fast = ema(&closes_v, cfg.ema_fast);
    let ema_slow = ema(&closes_v, cfg.ema_slow);
    let rsi_vals = rsi(&closes_v, cfg.rsi_period);
    let cmf_vals = cmf(bars, cfg.cmf_period);
    let mut rows: Vec<FeatureBar> = Vec::new();
    let mut k: usize = 0;
    while k < n
        invariant
            n == bars@.len(),
            k <= n,
            closes_v@ == closes(bars@),
            ema_fast@.len() == n && ema_slow@.len() == n && rsi_vals@.len() == n && cmf_vals@.len()
                == n,
            forall|j: int| 0 <= j < n ==> ema_fast@[j] == ema_value(closes_v@, cfg.ema_fast as nat, j),
            forall|j: int| 0 <= j < n ==> ema_slow@[j] == ema_value(closes_v@, cfg.ema_slow as nat, j),
            forall|j: int| 0 <= j < n ==> rsi_vals@[j] == rsi_value(closes_v@, cfg.rsi_period as nat, j),
            forall|j: int| 0 <= j < n ==> cmf_vals@[j] == cmf_value(bars@, cfg.cmf_period as nat, j),
            rows@.len() == k,
            forall|j: int| 0 <= j < k ==> rows@[j] == feature_at(bars@, cfg, j),
        decreases n - k,
    {
        rows.push(
            FeatureBar {
                bar: bars[k],
                ema_fast: ema_fast[k],
                ema_slow: ema_slow[k],
                rsi: rsi_vals[k],
                cmf: cmf_vals[k],
            },
        );
        k = k + 1;
    }
    FeatureFrame { symbol, rows }
}

} // verus!
