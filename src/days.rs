//! Per-day grouping of one location's records and the continuity filter that
//! drops days with missing minutes.
use crate::time::{Timestamp, MINUTES_PER_DAY};
use crate::unify::MergedRecord;
use vstd::prelude::*;

verus! {

/// The records of one location on one calendar day, in minute order.
#[derive(Clone, Debug)]
pub struct DayRecords<V, W> {
    pub day: i32,
    pub records: Vec<MergedRecord<V, W>>,
}

/// Records with valid timestamps, no two at the same minute.
pub open spec fn distinct_times<V, W>(rs: Seq<MergedRecord<V, W>>) -> bool {
    &&& forall|i: int| 0 <= i < rs.len() ==> (#[trigger] rs[i]).time.wf()
    &&& forall|i: int, j: int| 0 <= i < rs.len() && 0 <= j < rs.len() && i != j ==> rs[i].time != rs[j].time
}

/// Records of day `day`, at strictly increasing minutes.
pub open spec fn sorted_day<V, W>(rs: Seq<MergedRecord<V, W>>, day: i32) -> bool {
    &&& forall|i: int| 0 <= i < rs.len() ==> (#[trigger] rs[i]).time.day == day && rs[i].time.wf()
    &&& forall|i: int, j: int| 0 <= i < j < rs.len() ==> rs[i].time.minute < rs[j].time.minute
}

/// `groups` holds exactly the records of `rs`, one group per day in
/// increasing day order, each group in minute order.
pub open spec fn grouped_by_day<V, W>(rs: Seq<MergedRecord<V, W>>, groups: Seq<DayRecords<V, W>>) -> bool {
    &&& forall|g: int, h: int| #![trigger groups[g], groups[h]] 0 <= g < h < groups.len() ==> groups[g].day < groups[h].day
    &&& forall|g: int| 0 <= g < groups.len() ==> #[trigger] sorted_day(groups[g].records@, groups[g].day)
    &&& forall|g: int| 0 <= g < groups.len() ==> (#[trigger] groups[g]).records@.len() > 0
    &&& forall|i: int| 0 <= i < rs.len() ==> #[trigger] in_groups(groups, rs[i])
    &&& forall|g: int, j: int| 0 <= g < groups.len() && 0 <= j < groups[g].records@.len() ==> rs.contains(
        #[trigger] groups[g].records@[j],
    )
}

/// Whether `rec` is one of the records of `groups`.
pub open spec fn in_groups<V, W>(groups: Seq<DayRecords<V, W>>, rec: MergedRecord<V, W>) -> bool {
    exists|g: int, j: int|
        #![trigger groups[g].records@[j]]
        0 <= g < groups.len() && 0 <= j < groups[g].records@.len() && groups[g].records@[j] == rec
}

/// Each of `days` is the day of one of the first `n` records.
pub open spec fn days_witnessed<V, W>(days: Seq<i32>, rs: Seq<MergedRecord<V, W>>, n: int) -> bool {
    forall|a: int| 0 <= a < days.len() ==> #[trigger] witnessed(days[a], rs, n)
}

/// Day `d` is the day of one of the first `n` records.
pub open spec fn witnessed<V, W>(d: i32, rs: Seq<MergedRecord<V, W>>, n: int) -> bool {
    exists|k: int| 0 <= k < n && (#[trigger] rs[k]).time.day == d
}

/// Each day comes before the next.
pub open spec fn strictly_increasing(days: Seq<i32>) -> bool {
    forall|a: int, b: int| 0 <= a < b < days.len() ==> days[a] < days[b]
}

/// The distinct days of `rs`, in increasing order.
pub(crate) fn sorted_days<V: Copy, W: Copy>(rs: &Vec<MergedRecord<V, W>>) -> (days: Vec<i32>)
    ensures
        strictly_increasing(days@),
        forall|i: int| 0 <= i < rs@.len() ==> days@.contains((#[trigger] rs@[i]).time.day),
        days_witnessed(days@, rs@, rs@.len() as int),
{
    let mut days: Vec<i32> = Vec::new();
    let mut i: usize = 0;
    while i < rs.len()
        invariant
            i <= rs@.len(),
            strictly_increasing(days@),
            forall|k: int| 0 <= k < i ==> days@.contains((#[trigger] rs@[k]).time.day),
            days_witnessed(days@, rs@, i as int),
        decreases rs@.len() - i,
    {
        let d = rs[i].time.day;
        let mut p: usize = 0;
        while p < days.len() && days[p] < d
            invariant
                p <= days@.len(),
                forall|a: int| 0 <= a < p ==> days@[a] < d,
            decreases days@.len() - p,
        {
            p += 1;
        }
        let ghost before = days@;
        proof {
            assert forall|a: int| 0 <= a < before.len() implies #[trigger] witnessed(before[a], rs@, i + 1) by {
                assert(witnessed(before[a], rs@, i as int));
                let k = choose|k: int| 0 <= k < i && (#[trigger] rs@[k]).time.day == before[a];
                assert(0 <= k < i + 1 && rs@[k].time.day == before[a]);
            }
            assert(witnessed(d, rs@, i + 1)) by {
                assert(rs@[i as int].time.day == d);
            }
        }
        if p == days.len() || days[p] != d {
            days.insert(p, d);
            proof {
                assert forall|a: int, b: int| 0 <= a < b < days@.len() implies days@[a] < days@[b] by {
                    if a < p as int && b > p as int {
                        assert(days@[b] == before[b - 1]);
                    } else if a > p as int {
                        assert(days@[a] == before[a - 1]);
                        assert(days@[b] == before[b - 1]);
                    } else if a == p as int {
                        assert(days@[b] == before[b - 1]);
                    }
                }
                assert forall|k: int| 0 <= k <= i implies days@.contains((#[trigger] rs@[k]).time.day) by {
                    if k < i {
                        let a = choose|a: int| 0 <= a < before.len() && before[a] == rs@[k].time.day;
                        if a < p {
                            assert(days@[a] == before[a]);
                        } else {
                            assert(days@[a + 1] == before[a]);
                        }
                    } else {
                        assert(days@[p as int] == d);
                    }
                }
                assert forall|a: int| 0 <= a < days@.len() implies #[trigger] witnessed(days@[a], rs@, i + 1) by {
                    if a < p {
                        assert(days@[a] == before[a]);
                    } else if a > p {
                        assert(days@[a] == before[a - 1]);
                    }
                }
            }
        } else {
            proof {
                assert(days@.contains(rs@[i as int].time.day)) by {
                    assert(days@[p as int] == d);
                }
            }
        }
        i += 1;
    }
    days
}


/// `slots[m]` names the record of day `d` at minute `m`, among the first `n`.
spec fn slots_ok<V, W>(slots: Seq<Option<usize>>, rs: Seq<MergedRecord<V, W>>, d: i32, n: int) -> bool {
    &&& slots.len() == 1440
    &&& forall|m: int| 0 <= m < 1440 ==> (#[trigger] slots[m] matches Some(k) ==> k < n && rs[k as int].time.day == d
        && rs[k as int].time.minute == m)
    &&& forall|k: int| 0 <= k < n && (#[trigger] rs[k]).time.day == d ==> slots[rs[k].time.minute as int] == Some(k as usize)
}

/// The records of `rs` on day `d`, in minute order.
fn records_of_day<V: Copy, W: Copy>(rs: &Vec<MergedRecord<V, W>>, d: i32) -> (r: Vec<MergedRecord<V, W>>)
    requires
        distinct_times(rs@),
    ensures
        sorted_day(r@, d),
        forall|i: int| 0 <= i < rs@.len() && (#[trigger] rs@[i]).time.day == d ==> r@.contains(rs@[i]),
        forall|j: int| 0 <= j < r@.len() ==> rs@.contains(#[trigger] r@[j]),
{
    let mut slots: Vec<Option<usize>> = Vec::new();
    let mut m: u32 = 0;
    while m < MINUTES_PER_DAY
        invariant
            m <= MINUTES_PER_DAY,
            slots@.len() == m,
            forall|x: int| 0 <= x < m ==> (#[trigger] slots@[x]) is None,
        decreases MINUTES_PER_DAY - m,
    {
        slots.push(None);
        m += 1;
    }
    let mut i: usize = 0;
    while i < rs.len()
        invariant
            i <= rs@.len(),
            distinct_times(rs@),
            slots_ok(slots@, rs@, d, i as int),
        decreases rs@.len() - i,
    {
        let rec = rs[i];
        if rec.time.day == d {
            let ghost before = slots@;
            slots.set(rec.time.minute as usize, Some(i));
            proof {
                assert forall|k: int| 0 <= k < i + 1 && (#[trigger] rs@[k]).time.day == d implies slots@[rs@[k].time.minute as int]
                    == Some(k as usize) by {
                    if k < i && rs@[k].time.minute == rec.time.minute {
                        assert(rs@[k].time == rs@[i as int].time);
                    }
                }
            }
        }
        i += 1;
    }
    let mut out: Vec<MergedRecord<V, W>> = Vec::new();
    let mut m: usize = 0;
    while m < 1440
        invariant
            m <= 1440,
            distinct_times(rs@),
            slots_ok(slots@, rs@, d, rs@.len() as int),
            sorted_day(out@, d),
            forall|j: int| 0 <= j < out@.len() ==> (#[trigger] out@[j]).time.minute < m,
            forall|k: int| 0 <= k < rs@.len() && (#[trigger] rs@[k]).time.day == d && rs@[k].time.minute < m ==> out@.contains(rs@[k]),
            forall|j: int| 0 <= j < out@.len() ==> rs@.contains(#[trigger] out@[j]),
        decreases 1440 - m,
    {
        match slots[m] {
            Some(k) => {
                let rec = rs[k];
                let ghost before = out@;
                out.push(rec);
                proof {
                    assert(out@[before.len() as int] == rec);
                    assert forall|j: int| 0 <= j < out@.len() implies rs@.contains(#[trigger] out@[j]) by {
                        if j < before.len() {
                            assert(out@[j] == before[j]);
                        } else {
                            assert(rs@[k as int] == out@[j]);
                        }
                    }
                    assert forall|x: int| 0 <= x < rs@.len() && (#[trigger] rs@[x]).time.day == d && rs@[x].time.minute < m + 1
                        implies out@.contains(rs@[x]) by {
                        if rs@[x].time.minute < m {
                            let j = choose|j: int| 0 <= j < before.len() && before[j] == rs@[x];
                            assert(out@[j] == before[j]);
                        } else {
                            assert(slots@[m as int] == Some(x as usize));
                            assert(out@[before.len() as int] == rs@[x]);
                        }
                    }
                }
            },
            None => {
                proof {
                    assert forall|x: int| 0 <= x < rs@.len() && (#[trigger] rs@[x]).time.day == d && rs@[x].time.minute < m + 1
                        implies out@.contains(rs@[x]) by {
                        if rs@[x].time.minute == m {
                            assert(slots@[m as int] == Some(x as usize));
                        }
                    }
                }
            },
        }
        m += 1;
    }
    proof {
        assert forall|k: int| 0 <= k < rs@.len() && (#[trigger] rs@[k]).time.day == d implies out@.contains(rs@[k]) by {
            assert(rs@[k].time.wf());
        }
    }
    out
}

/// Splits one location's records by calendar day: days in increasing order,
/// each day's records in minute order.
pub fn aggregate_by_date<V: Copy, W: Copy>(rs: &Vec<MergedRecord<V, W>>) -> (r: Vec<DayRecords<V, W>>)
    requires
        distinct_times(rs@),
    ensures
        grouped_by_day(rs@, r@),
{
    let days = sorted_days(rs);
    let mut out: Vec<DayRecords<V, W>> = Vec::new();
    let mut g: usize = 0;
    while g < days.len()
        invariant
            g <= days@.len(),
            distinct_times(rs@),
            strictly_increasing(days@),
            forall|i: int| 0 <= i < rs@.len() ==> days@.contains((#[trigger] rs@[i]).time.day),
            days_witnessed(days@, rs@, rs@.len() as int),
            out@.len() == g,
            forall|h: int| 0 <= h < g ==> (#[trigger] out@[h]).day == days@[h],
            forall|h: int| 0 <= h < g ==> #[trigger] sorted_day(out@[h].records@, out@[h].day),
            forall|h: int| 0 <= h < g ==> (#[trigger] out@[h]).records@.len() > 0,
            forall|i: int| 0 <= i < rs@.len() && days@.subrange(0, g as int).contains((#[trigger] rs@[i]).time.day) ==> in_groups(out@, rs@[i]),
            forall|h: int, j: int| 0 <= h < g && 0 <= j < out@[h].records@.len() ==> rs@.contains(#[trigger] out@[h].records@[j]),
        decreases days@.len() - g,
    {
        let d = days[g];
        let recs = records_of_day(rs, d);
        proof {
            assert(witnessed(d, rs@, rs@.len() as int));
            let k = choose|k: int| 0 <= k < rs@.len() && (#[trigger] rs@[k]).time.day == d;
            assert(recs@.contains(rs@[k]));
        }
        let ghost before = out@;
        out.push(DayRecords { day: d, records: recs });
        proof {
            assert(out@[g as int].records@ == recs@);
            assert forall|i: int| 0 <= i < rs@.len() && days@.subrange(0, g + 1).contains((#[trigger] rs@[i]).time.day) implies in_groups(out@, rs@[i]) by {
                let a = choose|a: int| 0 <= a < g + 1 && #[trigger] days@.subrange(0, g + 1)[a] == rs@[i].time.day;
                if a < g {
                    assert(days@.subrange(0, g as int)[a] == rs@[i].time.day);
                    assert(days@.subrange(0, g as int).contains(rs@[i].time.day));
                    assert(in_groups(before, rs@[i]));
                    let (h, j) = choose|h: int, j: int| #![trigger before[h].records@[j]] 0 <= h < before.len() && 0 <= j < before[h].records@.len() && before[h].records@[j] == rs@[i];
                    assert(out@[h] == before[h]);
                    assert(out@[h].records@[j] == rs@[i]);
                } else {
                    assert(rs@[i].time.day == d);
                    let j = choose|j: int| 0 <= j < recs@.len() && recs@[j] == rs@[i];
                    assert(out@[g as int].records@[j] == rs@[i]);
                }
            }
            assert forall|h: int, j: int| 0 <= h < g + 1 && 0 <= j < out@[h].records@.len() implies rs@.contains(#[trigger] out@[h].records@[j]) by {
                if h < g {
                    assert(out@[h] == before[h]);
                } else {
                    assert(rs@.contains(recs@[j]));
                }
            }
        }
        g += 1;
    }
    proof {
        assert(days@.subrange(0, g as int) == days@);
        assert forall|a: int, b: int| #![trigger out@[a], out@[b]] 0 <= a < b < out@.len() implies out@[a].day < out@[b].day by {
            assert(out@[a].day == days@[a]);
            assert(out@[b].day == days@[b]);
        }
        assert forall|i: int| 0 <= i < rs@.len() implies #[trigger] in_groups(out@, rs@[i]) by {
            assert(days@.contains(rs@[i].time.day));
        }
    }
    out
}


/// The minute of the last record, or `start` when there is none.
pub open spec fn last_minute<V, W>(rs: Seq<MergedRecord<V, W>>, start: u32) -> u32 {
    if rs.len() == 0 {
        start
    } else {
        rs.last().time.minute
    }
}

/// The gaps met walking a day from `start`: each record more than one minute
/// after the one before (or after `start`) gives the interval between them.
pub open spec fn spec_walk_gaps<V, W>(rs: Seq<MergedRecord<V, W>>, start: u32) -> Seq<(u32, u32)>
    decreases rs.len(),
{
    if rs.len() == 0 {
        Seq::empty()
    } else {
        let prev = spec_walk_gaps(rs.drop_last(), start);
        let p = last_minute(rs.drop_last(), start);
        let t = rs.last().time.minute;
        if t > p + 1 {
            prev.push((p, t))
        } else {
            prev
        }
    }
}

/// The gaps of a day: those met on the walk, and the interval from the last
/// record (or `start`) to `end` when that falls before `end`.
pub open spec fn spec_find_gaps<V, W>(rs: Seq<MergedRecord<V, W>>, start: u32, end: u32) -> Seq<(u32, u32)> {
    let last = last_minute(rs, start);
    if last < end {
        spec_walk_gaps(rs, start).push((last, end))
    } else {
        spec_walk_gaps(rs, start)
    }
}

/// A day is kept when none of its gaps is longer than `tolerance` minutes.
pub open spec fn spec_retained<V, W>(rs: Seq<MergedRecord<V, W>>, start: u32, end: u32, tolerance: u32) -> bool {
    forall|g: int| 0 <= g < spec_find_gaps(rs, start, end).len() ==> #[trigger] spec_find_gaps(rs, start, end)[g].1
        - spec_find_gaps(rs, start, end)[g].0 <= tolerance
}

/// The gaps of one day's records (in minute order), as intervals of minutes
/// of day, starting from `day_start` and closing at `day_end`.
pub fn find_gaps<V: Copy, W: Copy>(rs: &Vec<MergedRecord<V, W>>, day_start: u32, day_end: u32) -> (r: Vec<(u32, u32)>)
    requires
        day_start < MINUTES_PER_DAY,
        forall|i: int| 0 <= i < rs@.len() ==> (#[trigger] rs@[i]).time.wf(),
    ensures
        r@ == spec_find_gaps(rs@, day_start, day_end),
{
    let mut gaps: Vec<(u32, u32)> = Vec::new();
    let mut last: u32 = day_start;
    let mut i: usize = 0;
    while i < rs.len()
        invariant
            i <= rs@.len(),
            day_start < MINUTES_PER_DAY,
            forall|k: int| 0 <= k < rs@.len() ==> (#[trigger] rs@[k]).time.wf(),
            last == last_minute(rs@.take(i as int), day_start),
            last < MINUTES_PER_DAY,
            gaps@ == spec_walk_gaps(rs@.take(i as int), day_start),
        decreases rs@.len() - i,
    {
        let t = rs[i].time.minute;
        proof {
            let pre = rs@.take(i + 1);
            assert(pre.drop_last() == rs@.take(i as int));
            assert(pre.last() == rs@[i as int]);
        }
        if t > last + 1 {
            gaps.push((last, t));
        }
        last = t;
        i += 1;
    }
    proof {
        assert(rs@.take(rs@.len() as int) == rs@);
    }
    if last < day_end {
        gaps.push((last, day_end));
    }
    gaps
}

/// Whether a day's records (in minute order) pass the continuity check.
pub fn day_retained<V: Copy, W: Copy>(rs: &Vec<MergedRecord<V, W>>, day_start: u32, day_end: u32, tolerance: u32) -> (r: bool)
    requires
        day_start < MINUTES_PER_DAY,
        forall|i: int| 0 <= i < rs@.len() ==> (#[trigger] rs@[i]).time.wf(),
    ensures
        r == spec_retained(rs@, day_start, day_end, tolerance),
{
    let gaps = find_gaps(rs, day_start, day_end);
    let mut g: usize = 0;
    while g < gaps.len()
        invariant
            g <= gaps@.len(),
            gaps@ == spec_find_gaps(rs@, day_start, day_end),
            forall|k: int| 0 <= k < g ==> #[trigger] gaps@[k].1 - gaps@[k].0 <= tolerance,
        decreases gaps@.len() - g,
    {
        let (a, b) = gaps[g];
        if b >= a && b - a > tolerance {
            return false;
        }
        g += 1;
    }
    true
}

/// The days of `days` that pass the continuity check, in order.
pub open spec fn spec_filter_days<V, W>(days: Seq<DayRecords<V, W>>, start: u32, end: u32, tolerance: u32) -> Seq<DayRecords<V, W>>
    decreases days.len(),
{
    if days.len() == 0 {
        Seq::empty()
    } else {
        let prev = spec_filter_days(days.drop_last(), start, end, tolerance);
        if spec_retained(days.last().records@, start, end, tolerance) {
            prev.push(days.last())
        } else {
            prev
        }
    }
}

/// The continuity filter: keeps the days none of whose gaps inside
/// `[day_start, day_end]` is longer than `tolerance` minutes, and drops the
/// others whole.
pub fn filter_days_by_gaps<V: Copy, W: Copy>(days: Vec<DayRecords<V, W>>, day_start: u32, day_end: u32, tolerance: u32) -> (r: Vec<DayRecords<V, W>>)
    requires
        day_start < MINUTES_PER_DAY,
        forall|g: int| 0 <= g < days@.len() ==> forall|i: int|
            0 <= i < (#[trigger] days@[g]).records@.len() ==> (#[trigger] days@[g].records@[i]).time.wf(),
    ensures
        r@ == spec_filter_days(days@, day_start, day_end, tolerance),
{
    let ghost all = days@;
    let mut days = days;
    let mut out: Vec<DayRecords<V, W>> = Vec::new();
    let n = days.len();
    let mut k: usize = 0;
    while days.len() > 0
        invariant
            all.len() == n,
            k <= all.len(),
            days@ == all.skip(k as int),
            out@ == spec_filter_days(all.take(k as int), day_start, day_end, tolerance),
            day_start < MINUTES_PER_DAY,
            forall|g: int| 0 <= g < all.len() ==> forall|i: int|
                0 <= i < (#[trigger] all[g]).records@.len() ==> (#[trigger] all[g].records@[i]).time.wf(),
        decreases days@.len(),
    {
        let d = days.remove(0);
        proof {
            assert(d == all[k as int]);
            let pre = all.take(k + 1);
            assert(pre.drop_last() == all.take(k as int));
            assert(pre.last() == d);
            assert(days@ == all.skip(k + 1));
            assert forall|i: int| 0 <= i < d.records@.len() implies (#[trigger] d.records@[i]).time.wf() by {
                assert(all[k as int].records@[i] == d.records@[i]);
            }
        }
        if day_retained(&d.records, day_start, day_end, tolerance) {
            out.push(d);
        }
        k += 1;
    }
    proof {
        assert(all.take(k as int) == all);
    }
    out
}


/// The minute before record `i` on the walk: that of record `i - 1`, or
/// `start` for the first record.
pub open spec fn prev_minute<V, W>(rs: Seq<MergedRecord<V, W>>, i: int, start: u32) -> int {
    if i == 0 {
        start as int
    } else {
        rs[i - 1].time.minute as int
    }
}

/// Every record comes at most `tolerance` minutes after the one before it.
pub open spec fn steps_within<V, W>(rs: Seq<MergedRecord<V, W>>, start: u32, tolerance: u32) -> bool {
    forall|i: int| 0 <= i < rs.len() ==> (#[trigger] rs[i]).time.minute - prev_minute(rs, i, start) <= tolerance
}

spec fn walk_within<V, W>(rs: Seq<MergedRecord<V, W>>, start: u32, tolerance: u32) -> bool {
    forall|g: int| 0 <= g < spec_walk_gaps(rs, start).len() ==> #[trigger] spec_walk_gaps(rs, start)[g].1
        - spec_walk_gaps(rs, start)[g].0 <= tolerance
}

proof fn lemma_walk_prefix<V, W>(rs: Seq<MergedRecord<V, W>>, start: u32)
    requires
        rs.len() > 0,
    ensures
        prev_minute(rs, rs.len() - 1, start) == last_minute(rs.drop_last(), start),
        forall|i: int| 0 <= i < rs.len() - 1 ==> #[trigger] prev_minute(rs, i, start) == prev_minute(rs.drop_last(), i, start),
        forall|i: int| 0 <= i < rs.len() - 1 ==> #[trigger] rs.drop_last()[i] == rs[i],
        rs.last() == rs[rs.len() - 1],
{
}

proof fn lemma_walk_sound<V, W>(rs: Seq<MergedRecord<V, W>>, start: u32, tolerance: u32)
    requires
        tolerance >= 1,
        walk_within(rs, start, tolerance),
    ensures
        steps_within(rs, start, tolerance),
    decreases rs.len(),
{
    if rs.len() > 0 {
        let p = rs.drop_last();
        lemma_walk_prefix(rs, start);
        let walk = spec_walk_gaps(rs, start);
        let pw = spec_walk_gaps(p, start);
        let n = rs.len() - 1;
        let t = rs[n].time.minute;
        let lm = last_minute(p, start);
        assert forall|g: int| 0 <= g < pw.len() implies #[trigger] pw[g].1 - pw[g].0 <= tolerance by {
            assert(walk[g] == pw[g]);
        }
        lemma_walk_sound(p, start, tolerance);
        if t > lm + 1 {
            assert(walk == pw.push((lm, t)));
            assert(walk[pw.len() as int] == (lm, t));
            let g = pw.len() as int;
            assert(0 <= g < spec_walk_gaps(rs, start).len());
            assert(spec_walk_gaps(rs, start)[g].1 - spec_walk_gaps(rs, start)[g].0 <= tolerance);
            assert(t - lm <= tolerance);
        }
        assert(t - prev_minute(rs, n, start) <= tolerance);
        assert forall|i: int| 0 <= i < rs.len() implies (#[trigger] rs[i]).time.minute - prev_minute(rs, i, start) <= tolerance by {
            if i < n {
                assert(p[i].time.minute - prev_minute(p, i, start) <= tolerance);
            }
        }
    }
}

proof fn lemma_walk_complete<V, W>(rs: Seq<MergedRecord<V, W>>, start: u32, tolerance: u32)
    requires
        steps_within(rs, start, tolerance),
    ensures
        walk_within(rs, start, tolerance),
    decreases rs.len(),
{
    if rs.len() > 0 {
        let p = rs.drop_last();
        lemma_walk_prefix(rs, start);
        let n = rs.len() - 1;
        assert forall|i: int| 0 <= i < p.len() implies (#[trigger] p[i]).time.minute - prev_minute(p, i, start) <= tolerance by {
            assert(rs[i].time.minute - prev_minute(rs, i, start) <= tolerance);
        }
        lemma_walk_complete(p, start, tolerance);
        let walk = spec_walk_gaps(rs, start);
        let pw = spec_walk_gaps(p, start);
        assert(rs[n].time.minute - prev_minute(rs, n, start) <= tolerance);
        assert forall|g: int| 0 <= g < walk.len() implies #[trigger] walk[g].1 - walk[g].0 <= tolerance by {
            if g < pw.len() {
                assert(walk[g] == pw[g]);
            }
        }
    }
}

/// The continuity rule stated directly: with a tolerance of at least one
/// minute, a day is kept exactly when every record comes at most `tolerance`
/// minutes after the one before it (the first after `start`) and the last
/// record (or `start`, for an empty day) is at most `tolerance` minutes before
/// `end`. So with a tolerance of 2, records two minutes apart (one minute
/// missing) keep the day and records three minutes apart reject it.
pub proof fn lemma_retained_iff<V, W>(rs: Seq<MergedRecord<V, W>>, start: u32, end: u32, tolerance: u32)
    requires
        tolerance >= 1,
    ensures
        spec_retained(rs, start, end, tolerance) <==> (steps_within(rs, start, tolerance) && end - last_minute(rs, start) <= tolerance),
{
    if steps_within(rs, start, tolerance) {
        lemma_walk_complete(rs, start, tolerance);
    }
    if walk_within(rs, start, tolerance) {
        lemma_walk_sound(rs, start, tolerance);
    }
    let walk = spec_walk_gaps(rs, start);
    let gaps = spec_find_gaps(rs, start, end);
    let last = last_minute(rs, start);
    if last < end {
        assert(gaps[walk.len() as int] == (last, end));
        assert forall|g: int| 0 <= g < walk.len() implies #[trigger] gaps[g] == walk[g] by {}
        if spec_retained(rs, start, end, tolerance) {
            assert forall|g: int| 0 <= g < walk.len() implies #[trigger] walk[g].1 - walk[g].0 <= tolerance by {
                assert(gaps[g].1 - gaps[g].0 <= tolerance);
            }
            assert(gaps[walk.len() as int].1 - gaps[walk.len() as int].0 <= tolerance);
        }
        if steps_within(rs, start, tolerance) && end - last <= tolerance {
            assert forall|g: int| 0 <= g < gaps.len() implies #[trigger] gaps[g].1 - gaps[g].0 <= tolerance by {
                if g < walk.len() {
                    assert(walk[g].1 - walk[g].0 <= tolerance);
                }
            }
        }
    } else {
        assert(gaps == walk);
    }
}

/// A rejected day leaves no record behind: every day the filter keeps is one
/// of its input days, whole, and passes the rule.
pub proof fn lemma_filter_keeps_whole_days<V, W>(days: Seq<DayRecords<V, W>>, start: u32, end: u32, tolerance: u32)
    ensures
        forall|k: int| 0 <= k < spec_filter_days(days, start, end, tolerance).len() ==> days.contains(
            #[trigger] spec_filter_days(days, start, end, tolerance)[k],
        ) && spec_retained(spec_filter_days(days, start, end, tolerance)[k].records@, start, end, tolerance),
        forall|k: int| 0 <= k < days.len() && spec_retained((#[trigger] days[k]).records@, start, end, tolerance)
            ==> spec_filter_days(days, start, end, tolerance).contains(days[k]),
    decreases days.len(),
{
    if days.len() > 0 {
        let p = days.drop_last();
        lemma_filter_keeps_whole_days(p, start, end, tolerance);
        let prev = spec_filter_days(p, start, end, tolerance);
        let cur = spec_filter_days(days, start, end, tolerance);
        assert forall|k: int| 0 <= k < cur.len() implies days.contains(#[trigger] cur[k]) && spec_retained(cur[k].records@, start, end, tolerance) by {
            if k < prev.len() {
                assert(cur[k] == prev[k]);
                let j = choose|j: int| 0 <= j < p.len() && p[j] == prev[k];
                assert(days[j] == p[j]);
            } else {
                assert(days[days.len() - 1] == days.last());
            }
        }
        assert forall|k: int| 0 <= k < days.len() && spec_retained((#[trigger] days[k]).records@, start, end, tolerance)
            implies cur.contains(days[k]) by {
            if k < p.len() {
                assert(days[k] == p[k]);
                let j = choose|j: int| 0 <= j < prev.len() && prev[j] == p[k];
                assert(cur[j] == prev[j]);
            } else {
                assert(cur[prev.len() as int] == days.last());
            }
        }
    }
}

} // verus!
