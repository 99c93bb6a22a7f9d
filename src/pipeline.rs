//! The per-location pipeline: day grouping, the continuity filter and
//! windowing, over every location that is not excluded.
use crate::days::{aggregate_by_date, sorted_days, witnessed, days_witnessed, strictly_increasing, distinct_times, filter_days_by_gaps, grouped_by_day, in_groups, lemma_filter_keeps_whole_days, sorted_day, spec_filter_days, spec_retained, DayRecords};
use crate::decode::{SensorLocation, LOCATION_COUNT};
use crate::time::MINUTES_PER_DAY;
use crate::unify::MergedRecord;
use crate::windows::{generate_windows, window_count, DayWindows};
use std::collections::HashMap;
use vstd::prelude::*;

verus! {

broadcast use vstd::std_specs::hash::group_hash_axioms;

/// Settings of the continuity filter and the windowing.
#[derive(Clone, Copy, Debug, PartialEq, Eq, Structural)]
pub struct Config {
    /// Minute of day at which the continuity walk starts.
    pub day_start: u32,
    /// Minute of day by which the last record must have come.
    pub day_end: u32,
    /// Longest gap, in minutes, that keeps a day.
    pub gap_tolerance: u32,
    /// Records per window.
    pub window_size: usize,
}

impl Config {
    /// Days walked from 04:00 to 16:00, gaps of up to 2 minutes tolerated,
    /// windows of 180 records.
    pub fn standard() -> (r: Config)
        ensures
            r == (Config { day_start: 240, day_end: 960, gap_tolerance: 2, window_size: 180 }),
    {
        Config { day_start: 240, day_end: 960, gap_tolerance: 2, window_size: 180 }
    }
}

/// Whether every timestamp of `rs` is valid and no two are equal.
pub fn has_distinct_times<V: Copy, W: Copy>(rs: &Vec<MergedRecord<V, W>>) -> (r: bool)
    ensures
        r == distinct_times(rs@),
{
    let mut seen: HashMap<i64, usize> = HashMap::new();
    let mut i: usize = 0;
    while i < rs.len()
        invariant
            i <= rs@.len(),
            distinct_times(rs@.take(i as int)),
            forall|k: i64| #[trigger] seen@.contains_key(k) ==> seen@[k] < i && rs@[seen@[k] as int].time.abs() == k,
            forall|j: int| 0 <= j < i ==> seen@.contains_key((#[trigger] rs@[j]).time.abs() as i64),
        decreases rs@.len() - i,
    {
        let t = rs[i].time;
        if t.minute >= MINUTES_PER_DAY {
            assert(!rs@[i as int].time.wf());
            return false;
        }
        let k = t.total_minutes();
        if seen.contains_key(&k) {
            proof {
                let j = seen@[k] as int;
                let (d1, d2, m1, m2) = (rs@[j].time.day as int, t.day as int, rs@[j].time.minute as int, t.minute as int);
                assert(rs@.take(i as int)[j] == rs@[j]);
                assert(d1 == d2 && m1 == m2) by (nonlinear_arith)
                    requires
                        d1 * 1440 + m1 == d2 * 1440 + m2,
                        0 <= m1 < 1440,
                        0 <= m2 < 1440,
                ;
                assert(rs@[j].time == rs@[i as int].time);
            }
            return false;
        }
        let ghost before = seen@;
        seen.insert(k, i);
        proof {
            let pre = rs@.take(i + 1);
            assert forall|a: int, b: int| 0 <= a < pre.len() && 0 <= b < pre.len() && a != b implies pre[a].time != pre[b].time by {
                if a < i && b < i {
                    assert(rs@.take(i as int)[a] == pre[a]);
                    assert(rs@.take(i as int)[b] == pre[b]);
                } else if a == i {
                    assert(before.contains_key(rs@[b].time.abs() as i64));
                } else {
                    assert(before.contains_key(rs@[a].time.abs() as i64));
                }
            }
            assert forall|a: int| 0 <= a < pre.len() implies (#[trigger] pre[a]).time.wf() by {
                if a < i {
                    assert(rs@.take(i as int)[a] == pre[a]);
                }
            }
        }
        i += 1;
    }
    assert(rs@.take(rs@.len() as int) == rs@);
    true
}


/// `recs` are exactly the records of `rs` on day `d`, in minute order.
pub open spec fn day_of<V, W>(rs: Seq<MergedRecord<V, W>>, d: i32, recs: Seq<MergedRecord<V, W>>) -> bool {
    &&& sorted_day(recs, d)
    &&& forall|i: int| 0 <= i < rs.len() && (#[trigger] rs[i]).time.day == d ==> recs.contains(rs[i])
    &&& forall|j: int| 0 <= j < recs.len() ==> rs.contains(#[trigger] recs[j])
}

/// The day of `rs` on day `d` fails the continuity rule, in whatever list the
/// day's records are put.
pub open spec fn day_rejected<V, W>(rs: Seq<MergedRecord<V, W>>, d: i32, cfg: Config) -> bool {
    forall|recs: Seq<MergedRecord<V, W>>| #[trigger] day_of(rs, d, recs) ==> !spec_retained(
        recs,
        cfg.day_start,
        cfg.day_end,
        cfg.gap_tolerance,
    )
}

/// `dw` is a retained day of location `l`, built from `rs`: its records are
/// those of its day, they pass the continuity rule, and its windows are the
/// sliding windows over them.
pub open spec fn windowed_day<V, W>(dw: DayWindows<V, W>, rs: Seq<MergedRecord<V, W>>, l: SensorLocation, cfg: Config) -> bool {
    &&& dw.location == l
    &&& day_of(rs, dw.day, dw.records@)
    &&& dw.records@.len() > 0
    &&& spec_retained(dw.records@, cfg.day_start, cfg.day_end, cfg.gap_tolerance)
    &&& dw.windows@.len() == window_count(dw.records@.len() as int, cfg.window_size as int)
    &&& forall|i: int| 0 <= i < dw.windows@.len() ==> (#[trigger] dw.windows@[i])@ == dw.records@.subrange(i, i + cfg.window_size)
}

proof fn lemma_sorted_unique<V, W>(a: Seq<MergedRecord<V, W>>, b: Seq<MergedRecord<V, W>>, d: i32)
    requires
        sorted_day(a, d),
        sorted_day(b, d),
        forall|x: MergedRecord<V, W>| a.contains(x) <==> b.contains(x),
    ensures
        a == b,
    decreases a.len() + b.len(),
{
    if a.len() == 0 {
        if b.len() > 0 {
            assert(b.contains(b[0]));
        }
        assert(b =~= a);
    } else if b.len() == 0 {
        assert(a.contains(a[0]));
    } else {
        assert(a.contains(a[0]));
        assert(b.contains(b[0]));
        let j = choose|j: int| 0 <= j < b.len() && b[j] == a[0];
        let k = choose|k: int| 0 <= k < a.len() && a[k] == b[0];
        if j > 0 {
            assert(b[0].time.minute < b[j].time.minute);
            if k > 0 {
                assert(a[0].time.minute < a[k].time.minute);
            }
        }
        assert(j == 0);
        let a1 = a.skip(1);
        let b1 = b.skip(1);
        assert forall|x: MergedRecord<V, W>| a1.contains(x) <==> b1.contains(x) by {
            if a1.contains(x) {
                let p = choose|p: int| 0 <= p < a1.len() && a1[p] == x;
                assert(a[p + 1] == x);
                assert(a.contains(x));
                let q = choose|q: int| 0 <= q < b.len() && b[q] == x;
                if q == 0 {
                    assert(a[0].time.minute < a[p + 1].time.minute);
                }
                assert(b1[q - 1] == x);
            }
            if b1.contains(x) {
                let p = choose|p: int| 0 <= p < b1.len() && b1[p] == x;
                assert(b[p + 1] == x);
                assert(b.contains(x));
                let q = choose|q: int| 0 <= q < a.len() && a[q] == x;
                if q == 0 {
                    assert(b[0].time.minute < b[p + 1].time.minute);
                }
                assert(a1[q - 1] == x);
            }
        }
        assert(sorted_day(a1, d));
        assert(sorted_day(b1, d));
        lemma_sorted_unique(a1, b1, d);
        assert(a =~= seq![a[0]] + a1);
        assert(b =~= seq![b[0]] + b1);
    }
}

/// Each group of a day grouping holds exactly the records of its day.
proof fn lemma_group_day_of<V, W>(rs: Seq<MergedRecord<V, W>>, groups: Seq<DayRecords<V, W>>, g: int)
    requires
        grouped_by_day(rs, groups),
        0 <= g < groups.len(),
    ensures
        day_of(rs, groups[g].day, groups[g].records@),
{
    let d = groups[g].day;
    assert(sorted_day(groups[g].records@, d));
    assert forall|i: int| 0 <= i < rs.len() && (#[trigger] rs[i]).time.day == d implies groups[g].records@.contains(rs[i]) by {
        assert(in_groups(groups, rs[i]));
        let (h, j) = choose|h: int, j: int|
            #![trigger groups[h].records@[j]]
            0 <= h < groups.len() && 0 <= j < groups[h].records@.len() && groups[h].records@[j] == rs[i];
        assert(sorted_day(groups[h].records@, groups[h].day));
        if h < g {
            assert(groups[h].day < groups[g].day);
        } else if h > g {
            assert(groups[g].day < groups[h].day);
        }
    }
    assert forall|j: int| 0 <= j < groups[g].records@.len() implies rs.contains(#[trigger] groups[g].records@[j]) by {}
}


proof fn lemma_filter_order<V, W>(days: Seq<DayRecords<V, W>>, cfg: Config)
    requires
        forall|g: int, h: int| #![trigger days[g], days[h]] 0 <= g < h < days.len() ==> days[g].day < days[h].day,
    ensures
        ({
            let kept = spec_filter_days(days, cfg.day_start, cfg.day_end, cfg.gap_tolerance);
            forall|a: int, b: int| #![trigger kept[a], kept[b]] 0 <= a < b < kept.len() ==> kept[a].day < kept[b].day
        }),
    decreases days.len(),
{
    if days.len() > 0 {
        let p = days.drop_last();
        assert forall|g: int, h: int| #![trigger p[g], p[h]] 0 <= g < h < p.len() implies p[g].day < p[h].day by {
            assert(p[g] == days[g] && p[h] == days[h]);
        }
        lemma_filter_order(p, cfg);
        lemma_filter_keeps_whole_days(p, cfg.day_start, cfg.day_end, cfg.gap_tolerance);
        let prev = spec_filter_days(p, cfg.day_start, cfg.day_end, cfg.gap_tolerance);
        let kept = spec_filter_days(days, cfg.day_start, cfg.day_end, cfg.gap_tolerance);
        assert forall|a: int, b: int| #![trigger kept[a], kept[b]] 0 <= a < b < kept.len() implies kept[a].day < kept[b].day by {
            assert(kept[a] == prev[a]);
            if b < prev.len() {
                assert(kept[b] == prev[b]);
            } else {
                assert(p.contains(prev[a]));
                let g = choose|g: int| 0 <= g < p.len() && p[g] == prev[a];
                assert(days[g] == p[g]);
                assert(kept[b] == days[days.len() - 1]);
            }
        }
    }
}

/// Some day of `out` is day `d`.
pub open spec fn has_day<V, W>(out: Seq<DayWindows<V, W>>, d: i32) -> bool {
    exists|k: int| 0 <= k < out.len() && (#[trigger] out[k]).day == d
}

/// The retained days of one location, windowed, in increasing day order,
/// and the days that the continuity rule rejected, in increasing order.
/// Every day of `rs` is in exactly one of the two.
pub fn location_windows<V: Copy, W: Copy>(rs: &Vec<MergedRecord<V, W>>, l: SensorLocation, cfg: Config) -> (r: (
    Vec<DayWindows<V, W>>,
    Vec<i32>,
))
    requires
        distinct_times(rs@),
        cfg.day_start < MINUTES_PER_DAY,
    ensures
        forall|k: int| 0 <= k < r.0@.len() ==> #[trigger] windowed_day(r.0@[k], rs@, l, cfg),
        forall|a: int, b: int| #![trigger r.0@[a], r.0@[b]] 0 <= a < b < r.0@.len() ==> r.0@[a].day < r.0@[b].day,
        forall|i: int| 0 <= i < rs@.len() ==> has_day(r.0@, (#[trigger] rs@[i]).time.day) || r.1@.contains(rs@[i].time.day),
        forall|a: int| 0 <= a < r.1@.len() ==> #[trigger] witnessed(r.1@[a], rs@, rs@.len() as int) && !has_day(r.0@, r.1@[a])
            && day_rejected(rs@, r.1@[a], cfg),
        strictly_increasing(r.1@),
{
    let groups = aggregate_by_date(rs);
    proof {
        assert forall|g: int| 0 <= g < groups@.len() implies forall|i: int|
            0 <= i < (#[trigger] groups@[g]).records@.len() ==> (#[trigger] groups@[g].records@[i]).time.wf() by {
            assert(sorted_day(groups@[g].records@, groups@[g].day));
        }
    }
    let ghost gs = groups@;
    let kept = filter_days_by_gaps(groups, cfg.day_start, cfg.day_end, cfg.gap_tolerance);
    proof {
        lemma_filter_keeps_whole_days(gs, cfg.day_start, cfg.day_end, cfg.gap_tolerance);
        lemma_filter_order(gs, cfg);
    }
    let ghost ks = kept@;
    let mut kept = kept;
    let n = kept.len();
    let mut out: Vec<DayWindows<V, W>> = Vec::new();
    let mut k: usize = 0;
    while kept.len() > 0
        invariant
            ks.len() == n,
            k <= n,
            kept@ == ks.skip(k as int),
            out@.len() == k,
            grouped_by_day(rs@, gs),
            ks == spec_filter_days(gs, cfg.day_start, cfg.day_end, cfg.gap_tolerance),
            forall|a: int| 0 <= a < ks.len() ==> gs.contains(#[trigger] ks[a]) && spec_retained(ks[a].records@, cfg.day_start, cfg.day_end, cfg.gap_tolerance),
            forall|a: int| 0 <= a < k ==> #[trigger] windowed_day(out@[a], rs@, l, cfg),
            forall|a: int| 0 <= a < k ==> (#[trigger] out@[a]).day == ks[a].day,
        decreases kept@.len(),
    {
        let d = kept.remove(0);
        proof {
            assert(d == ks[k as int]);
            assert(kept@ == ks.skip(k + 1));
            assert(gs.contains(d));
            let g = choose|g: int| 0 <= g < gs.len() && gs[g] == d;
            lemma_group_day_of(rs@, gs, g);
        }
        let windows = generate_windows(&d.records, cfg.window_size);
        let dw = DayWindows { location: l, day: d.day, records: d.records, windows };
        out.push(dw);
        proof {
            assert(out@[k as int] == dw);
        }
        k += 1;
    }
    proof {
        assert(k == n);
        assert forall|a: int, b: int| #![trigger out@[a], out@[b]] 0 <= a < b < out@.len() implies out@[a].day < out@[b].day by {
            assert(ks[a].day < ks[b].day);
        }
        assert forall|i: int| 0 <= i < rs@.len() implies (exists|k: int| 0 <= k < out@.len() && out@[k].day == (#[trigger] rs@[i]).time.day)
            || day_rejected(rs@, rs@[i].time.day, cfg) by {
            assert(in_groups(gs, rs@[i]));
            let (g, j) = choose|g: int, j: int|
                #![trigger gs[g].records@[j]]
                0 <= g < gs.len() && 0 <= j < gs[g].records@.len() && gs[g].records@[j] == rs@[i];
            lemma_group_day_of(rs@, gs, g);
            let dd = gs[g].day;
            assert(sorted_day(gs[g].records@, dd));
            assert(rs@[i].time.day == dd);
            if spec_retained(gs[g].records@, cfg.day_start, cfg.day_end, cfg.gap_tolerance) {
                assert(ks.contains(gs[g]));
                let a = choose|a: int| 0 <= a < ks.len() && ks[a] == gs[g];
                assert(out@[a].day == dd);
            } else {
                assert forall|recs: Seq<MergedRecord<V, W>>| #[trigger] day_of(rs@, dd, recs) implies !spec_retained(
                    recs,
                    cfg.day_start,
                    cfg.day_end,
                    cfg.gap_tolerance,
                ) by {
                    let grp = gs[g].records@;
                    assert forall|x: MergedRecord<V, W>| recs.contains(x) <==> grp.contains(x) by {
                        if recs.contains(x) {
                            let p = choose|p: int| 0 <= p < recs.len() && recs[p] == x;
                            assert(rs@.contains(recs[p]));
                            let q = choose|q: int| 0 <= q < rs@.len() && rs@[q] == x;
                            assert(rs@[q].time.day == dd);
                        }
                        if grp.contains(x) {
                            let p = choose|p: int| 0 <= p < grp.len() && grp[p] == x;
                            assert(rs@.contains(grp[p]));
                            let q = choose|q: int| 0 <= q < rs@.len() && rs@[q] == x;
                            assert(rs@[q].time.day == dd);
                        }
                    }
                    lemma_sorted_unique(recs, grp, dd);
                }
            }
        }
    }
    let days = sorted_days(rs);
    let mut rejected: Vec<i32> = Vec::new();
    let mut g: usize = 0;
    while g < days.len()
        invariant
            g <= days@.len(),
            strictly_increasing(days@),
            forall|i: int| 0 <= i < rs@.len() ==> days@.contains((#[trigger] rs@[i]).time.day),
            days_witnessed(days@, rs@, rs@.len() as int),
            forall|i: int| 0 <= i < rs@.len() ==> (exists|k: int| 0 <= k < out@.len() && out@[k].day == (#[trigger] rs@[i]).time.day)
                || day_rejected(rs@, rs@[i].time.day, cfg),
            forall|a: int| 0 <= a < rejected@.len() ==> #[trigger] witnessed(rejected@[a], rs@, rs@.len() as int)
                && !has_day(out@, rejected@[a]) && day_rejected(rs@, rejected@[a], cfg),
            strictly_increasing(rejected@),
            forall|a: int| 0 <= a < rejected@.len() ==> exists|h: int| 0 <= h < g && days@[h] == #[trigger] rejected@[a],
            forall|h: int| 0 <= h < g && !has_day(out@, #[trigger] days@[h]) ==> rejected@.contains(days@[h]),
        decreases days@.len() - g,
    {
        let d = days[g];
        let mut found = false;
        let mut k: usize = 0;
        while k < out.len()
            invariant
                k <= out@.len(),
                found <==> exists|x: int| 0 <= x < k && (#[trigger] out@[x]).day == d,
            decreases out@.len() - k,
        {
            if out[k].day == d {
                found = true;
            }
            k += 1;
        }
        if !found {
            proof {
                assert(witnessed(days@[g as int], rs@, rs@.len() as int));
                let i = choose|i: int| 0 <= i < rs@.len() && (#[trigger] rs@[i]).time.day == d;
                assert(rs@[i].time.day == d);
                assert forall|a: int| 0 <= a < rejected@.len() implies rejected@[a] < d by {
                    let h = choose|h: int| 0 <= h < g && days@[h] == #[trigger] rejected@[a];
                }
            }
            let ghost before = rejected@;
            rejected.push(d);
            proof {
                assert forall|a: int| 0 <= a < rejected@.len() implies exists|h: int| 0 <= h < g + 1 && days@[h] == #[trigger] rejected@[a] by {
                    if a < before.len() {
                        assert(rejected@[a] == before[a]);
                        let h = choose|h: int| 0 <= h < g && days@[h] == #[trigger] before[a];
                    } else {
                        assert(days@[g as int] == rejected@[a]);
                    }
                }
                assert forall|h: int| 0 <= h < g + 1 && !has_day(out@, #[trigger] days@[h]) implies rejected@.contains(days@[h]) by {
                    if h < g {
                        let a = choose|a: int| 0 <= a < before.len() && before[a] == days@[h];
                        assert(rejected@[a] == before[a]);
                    } else {
                        assert(rejected@[before.len() as int] == d);
                    }
                }
            }
        } else {
            proof {
                assert forall|h: int| 0 <= h < g + 1 && !has_day(out@, #[trigger] days@[h]) implies rejected@.contains(days@[h]) by {
                    if h == g {
                        let x = choose|x: int| 0 <= x < k && (#[trigger] out@[x]).day == d;
                        assert(has_day(out@, d));
                    }
                }
            }
        }
        g += 1;
    }
    proof {
        assert forall|i: int| 0 <= i < rs@.len() implies has_day(out@, (#[trigger] rs@[i]).time.day) || rejected@.contains(rs@[i].time.day) by {
            let h = choose|h: int| 0 <= h < days@.len() && days@[h] == rs@[i].time.day;
            if !has_day(out@, rs@[i].time.day) {
                assert(!has_day(out@, days@[h]));
            }
        }
    }
    (out, rejected)
}


/// Whether `l` is one of `excluded`.
pub fn is_excluded(excluded: &Vec<SensorLocation>, l: SensorLocation) -> (r: bool)
    ensures
        r == excluded@.contains(l),
{
    let mut i: usize = 0;
    while i < excluded.len()
        invariant
            i <= excluded@.len(),
            forall|k: int| 0 <= k < i ==> excluded@[k] != l,
        decreases excluded@.len() - i,
    {
        if excluded[i] == l {
            return true;
        }
        i += 1;
    }
    false
}

/// The locations whose records go on to windowing all have distinct minutes.
pub open spec fn included_distinct<V, W>(merged: Seq<Vec<MergedRecord<V, W>>>, excluded: Seq<SensorLocation>) -> bool {
    forall|li: int| 0 <= li < LOCATION_COUNT && !excluded.contains(SensorLocation::spec_from_index(li as nat))
        ==> distinct_times((#[trigger] merged[li])@)
}

/// Output position `a` comes before `b`: by location, then by day.
pub open spec fn comes_before<V, W>(a: DayWindows<V, W>, b: DayWindows<V, W>) -> bool {
    a.location.spec_index() < b.location.spec_index() || (a.location == b.location && a.day < b.day)
}

/// The retained days of the included locations, by location then by day,
/// and the (location, day) pairs that the continuity rule rejected.
pub struct Structured<V, W> {
    pub days: Vec<DayWindows<V, W>>,
    pub rejected: Vec<(SensorLocation, i32)>,
}

/// Some retained day is day `d` of location `l`.
pub open spec fn has_site_day<V, W>(out: Seq<DayWindows<V, W>>, l: SensorLocation, d: i32) -> bool {
    exists|k: int| 0 <= k < out.len() && (#[trigger] out[k]).location == l && out[k].day == d
}

/// Groups, windows and filters the records of every location that is not
/// excluded (`merged` is indexed by `SensorLocation::index`). The retained
/// days come by location, then by day; every day of an included location is
/// either retained or listed as rejected, and a rejected day fails the
/// continuity rule. `None` when some included location has two records at one
/// minute.
pub fn structure_data<V: Copy, W: Copy>(merged: &Vec<Vec<MergedRecord<V, W>>>, excluded: &Vec<SensorLocation>, cfg: Config) -> (r: Option<Structured<V, W>>)
    requires
        merged@.len() == LOCATION_COUNT,
        cfg.day_start < MINUTES_PER_DAY,
    ensures
        r is Some <==> included_distinct(merged@, excluded@),
        r matches Some(st) ==> {
            &&& forall|k: int| 0 <= k < st.days@.len() ==> !excluded@.contains((#[trigger] st.days@[k]).location)
                && windowed_day(st.days@[k], merged@[st.days@[k].location.spec_index() as int]@, st.days@[k].location, cfg)
            &&& forall|a: int, b: int| #![trigger st.days@[a], st.days@[b]] 0 <= a < b < st.days@.len() ==> comes_before(st.days@[a], st.days@[b])
            &&& forall|a: int| 0 <= a < st.rejected@.len() ==> !excluded@.contains((#[trigger] st.rejected@[a]).0)
                && witnessed(st.rejected@[a].1, merged@[st.rejected@[a].0.spec_index() as int]@, merged@[st.rejected@[a].0.spec_index() as int]@.len() as int)
                && day_rejected(merged@[st.rejected@[a].0.spec_index() as int]@, st.rejected@[a].1, cfg)
            &&& forall|li: int, i: int| 0 <= li < LOCATION_COUNT && !excluded@.contains(SensorLocation::spec_from_index(li as nat))
                && 0 <= i < merged@[li]@.len() ==> has_site_day(st.days@, SensorLocation::spec_from_index(li as nat), (#[trigger] merged@[li]@[i]).time.day)
                    || st.rejected@.contains((SensorLocation::spec_from_index(li as nat), merged@[li]@[i].time.day))
        },
{
    let mut out: Vec<DayWindows<V, W>> = Vec::new();
    let mut rejected: Vec<(SensorLocation, i32)> = Vec::new();
    let mut li: usize = 0;
    while li < LOCATION_COUNT
        invariant
            li <= LOCATION_COUNT,
            merged@.len() == LOCATION_COUNT,
            cfg.day_start < MINUTES_PER_DAY,
            forall|m: int| 0 <= m < li && !excluded@.contains(SensorLocation::spec_from_index(m as nat)) ==> distinct_times((#[trigger] merged@[m])@),
            forall|k: int| 0 <= k < out@.len() ==> !excluded@.contains((#[trigger] out@[k]).location)
                && out@[k].location.spec_index() < li
                && windowed_day(out@[k], merged@[out@[k].location.spec_index() as int]@, out@[k].location, cfg),
            forall|a: int, b: int| #![trigger out@[a], out@[b]] 0 <= a < b < out@.len() ==> comes_before(out@[a], out@[b]),
            forall|a: int| 0 <= a < rejected@.len() ==> !excluded@.contains((#[trigger] rejected@[a]).0)
                && rejected@[a].0.spec_index() < li
                && witnessed(rejected@[a].1, merged@[rejected@[a].0.spec_index() as int]@, merged@[rejected@[a].0.spec_index() as int]@.len() as int)
                && day_rejected(merged@[rejected@[a].0.spec_index() as int]@, rejected@[a].1, cfg),
            forall|m: int, i: int| 0 <= m < li && !excluded@.contains(SensorLocation::spec_from_index(m as nat))
                && 0 <= i < merged@[m]@.len() ==> has_site_day(out@, SensorLocation::spec_from_index(m as nat), (#[trigger] merged@[m]@[i]).time.day)
                    || rejected@.contains((SensorLocation::spec_from_index(m as nat), merged@[m]@[i].time.day)),
        decreases LOCATION_COUNT - li,
    {
        let l = SensorLocation::from_index(li);
        if !is_excluded(excluded, l) {
            if !has_distinct_times(&merged[li]) {
                proof {
                    assert(!distinct_times(merged@[li as int]@));
                }
                return None;
            }
            let (mut lw, dropped) = location_windows(&merged[li], l, cfg);
            let ghost before = out@;
            let ghost added = lw@;
            out.append(&mut lw);
            let ghost rbefore = rejected@;
            let mut j: usize = 0;
            while j < dropped.len()
                invariant
                    j <= dropped@.len(),
                    rejected@.len() == rbefore.len() + j,
                    forall|a: int| 0 <= a < rbefore.len() ==> #[trigger] rejected@[a] == rbefore[a],
                    forall|a: int| 0 <= a < j ==> #[trigger] rejected@[rbefore.len() + a] == (l, dropped@[a]),
                decreases dropped@.len() - j,
            {
                rejected.push((l, dropped[j]));
                j += 1;
            }
            proof {
                assert(out@ == before + added);
                assert forall|k: int| 0 <= k < out@.len() implies !excluded@.contains((#[trigger] out@[k]).location)
                    && out@[k].location.spec_index() < li + 1
                    && windowed_day(out@[k], merged@[out@[k].location.spec_index() as int]@, out@[k].location, cfg) by {
                    if k >= before.len() {
                        assert(out@[k] == added[k - before.len()]);
                        assert(windowed_day(added[k - before.len()], merged@[li as int]@, l, cfg));
                    } else {
                        assert(out@[k] == before[k]);
                    }
                }
                assert forall|a: int, b: int| #![trigger out@[a], out@[b]] 0 <= a < b < out@.len() implies comes_before(out@[a], out@[b]) by {
                    if b < before.len() {
                        assert(out@[a] == before[a] && out@[b] == before[b]);
                    } else if a < before.len() {
                        assert(out@[a] == before[a]);
                        assert(out@[b] == added[b - before.len()]);
                        assert(windowed_day(added[b - before.len()], merged@[li as int]@, l, cfg));
                    } else {
                        assert(out@[a] == added[a - before.len()]);
                        assert(out@[b] == added[b - before.len()]);
                        assert(windowed_day(added[a - before.len()], merged@[li as int]@, l, cfg));
                        assert(windowed_day(added[b - before.len()], merged@[li as int]@, l, cfg));
                        assert(added[a - before.len()].day < added[b - before.len()].day);
                    }
                }
                assert forall|a: int| 0 <= a < rejected@.len() implies !excluded@.contains((#[trigger] rejected@[a]).0)
                    && rejected@[a].0.spec_index() < li + 1
                    && witnessed(rejected@[a].1, merged@[rejected@[a].0.spec_index() as int]@, merged@[rejected@[a].0.spec_index() as int]@.len() as int)
                    && day_rejected(merged@[rejected@[a].0.spec_index() as int]@, rejected@[a].1, cfg) by {
                    if a < rbefore.len() {
                        assert(rejected@[a] == rbefore[a]);
                    } else {
                        let x = a - rbefore.len();
                        assert(rejected@[rbefore.len() + x] == (l, dropped@[x]));
                        assert(witnessed(dropped@[x], merged@[li as int]@, merged@[li as int]@.len() as int));
                    }
                }
                assert forall|m: int, i: int| 0 <= m < li + 1 && !excluded@.contains(SensorLocation::spec_from_index(m as nat))
                    && 0 <= i < merged@[m]@.len() implies has_site_day(out@, SensorLocation::spec_from_index(m as nat), (#[trigger] merged@[m]@[i]).time.day)
                        || rejected@.contains((SensorLocation::spec_from_index(m as nat), merged@[m]@[i].time.day)) by {
                    let lm = SensorLocation::spec_from_index(m as nat);
                    let d = merged@[m]@[i].time.day;
                    if m < li {
                        if has_site_day(before, lm, d) {
                            let k = choose|k: int| 0 <= k < before.len() && (#[trigger] before[k]).location == lm && before[k].day == d;
                            assert(out@[k] == before[k]);
                        } else {
                            let a = choose|a: int| 0 <= a < rbefore.len() && rbefore[a] == (lm, d);
                            assert(rejected@[a] == rbefore[a]);
                        }
                    } else {
                        if has_day(added, d) {
                            let k = choose|k: int| 0 <= k < added.len() && (#[trigger] added[k]).day == d;
                            assert(out@[before.len() + k] == added[k]);
                            assert(windowed_day(added[k], merged@[li as int]@, l, cfg));
                        } else {
                            assert(dropped@.contains(d));
                            let x = choose|x: int| 0 <= x < dropped@.len() && dropped@[x] == d;
                            assert(rejected@[rbefore.len() + x] == (l, dropped@[x]));
                        }
                    }
                }
            }
        }
        li += 1;
    }
    Some(Structured { days: out, rejected })
}

} // verus!
