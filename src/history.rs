//! Range queries over stored bars, as the historical data store answers
//! them.

use vstd::prelude::*;
use crate::model::{Bar, DataSourceError};

verus! {

/// The bars whose open time lies in `[start, end)`, in their order.
pub open spec fn bars_in(bars: Seq<Bar>, start: i64, end: i64) -> Seq<Bar> {
    bars.filter(|b: Bar| start <= b.open_time && b.open_time < end)
}

/// The bars opened in `[start, end)`. An empty range is `InvalidRange`; a
/// range with no bar is a `DataGap` over it.
pub fn select_range(bars: &Vec<Bar>, start: i64, end: i64) -> (r: Result<Vec<Bar>, DataSourceError>)
    ensures
        start >= end ==> r matches Err(DataSourceError::InvalidRange),
        start < end && bars_in(bars@, start, end).len() == 0 ==> (r matches Err(
            DataSourceError::DataGap { start: s, end: e },
        ) && s == start && e == end),
        start < end && bars_in(bars@, start, end).len() > 0 ==> (r matches Ok(v) && v@ == bars_in(
            bars@,
            start,
            end,
        )),
{
    if start >= end {
        return Err(DataSourceError::InvalidRange);
    }
    let ghost pred = |b: Bar| start <= b.open_time && b.open_time < end;
    let mut out: Vec<Bar> = Vec::new();
    let mut i: usize = 0;
    while i < bars.len()
        invariant
            i <= bars@.len(),
            pred == (|b: Bar| start <= b.open_time && b.open_time < end),
            out@ == bars@.take(i as int).filter(pred),
        decreases bars@.len() - i,
    {
        let b = bars[i];
        proof {
            assert(bars@.take(i + 1int).drop_last() == bars@.take(i as int));
            reveal(Seq::filter);
        }
        if start <= b.open_time && b.open_time < end {
            out.push(b);
        }
        i = i + 1;
    }
    proof {
        assert(bars@.take(bars@.len() as int) == bars@);
    }
    if out.len() == 0 {
        return Err(DataSourceError::DataGap { start, end });
    }
    Ok(out)
}

/// The last `n` bars, or all of them where there are fewer.
pub fn tail_window(bars: &Vec<Bar>, n: usize) -> (r: Vec<Bar>)
    ensures
        r@ == bars@.subrange(
            if n >= bars@.len() { 0 } else { bars@.len() - n },
            bars@.len() as int,
        ),
{
    let total = bars.len();
    let start: usize = if n >= total { 0 } else { total - n };
    let mut out: Vec<Bar> = Vec::new();
    let mut i: usize = start;
    while i < total
        invariant
            start <= i <= total,
            total == bars@.len(),
            out@ == bars@.subrange(start as int, i as int),
        decreases total - i,
    {
        out.push(bars[i]);
        i = i + 1;
        proof {
            assert(out@ =~= bars@.subrange(start as int, i as int));
        }
    }
    out
}

} // verus!
