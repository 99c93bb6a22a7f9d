//! The unification engine: joins sensor snapshots, person counts and the
//! weather series into one record per (location, minute).
use crate::decode::{SensedPeople, SensorLocation, LOCATION_COUNT};
use crate::readings::{lemma_accumulate_unique, lemma_site_key_injective, site_key, site_key_of, spec_accumulate, unique_sites, Sensor, SensorData};
use crate::time::Timestamp;
use crate::index::{entries, new_table, table_get, table_insert};
use dashmap::DashMap;
use vstd::prelude::*;

verus! {

/// One minute of one location: its sensor snapshot, person count and weather.
#[derive(Clone, Copy, Debug)]
pub struct MergedRecord<V, W> {
    pub time: Timestamp,
    pub sensor: Sensor<V>,
    pub people: SensedPeople,
    pub weather: W,
}

/// The weather of minute `t`: the last entry of the series for it.
pub open spec fn weather_at<W>(ws: Seq<(Timestamp, W)>, t: Timestamp) -> Option<W>
    decreases ws.len(),
{
    if ws.len() == 0 {
        None
    } else if ws.last().0 == t {
        Some(ws.last().1)
    } else {
        weather_at(ws.drop_last(), t)
    }
}

/// The first person count recorded for location `l` at minute `t`.
pub open spec fn people_at(ps: Seq<(Timestamp, SensedPeople)>, t: Timestamp, l: SensorLocation) -> Option<SensedPeople>
    decreases ps.len(),
{
    if ps.len() == 0 {
        None
    } else {
        match people_at(ps.drop_last(), t, l) {
            Some(p) => Some(p),
            None => if ps.last().0 == t && ps.last().1.sensor_location == l {
                Some(ps.last().1)
            } else {
                None
            },
        }
    }
}

/// The person count of location `l` at minute `t`: zero when none is
/// recorded.
pub open spec fn occupancy(ps: Seq<(Timestamp, SensedPeople)>, t: Timestamp, l: SensorLocation) -> SensedPeople {
    match people_at(ps, t, l) {
        Some(p) => p,
        None => SensedPeople { sensor_location: l, people: 0 },
    }
}

/// Whether minute `t` lies in the operating hours `[start_hour, end_hour)`.
pub open spec fn in_hours(t: Timestamp, start_hour: u32, end_hour: u32) -> bool {
    start_hour <= t.spec_hour() < end_hour
}

/// The unified records of location `l`, in the order of the snapshots: one
/// for each snapshot of `l` inside the operating hours whose minute has
/// weather.
pub open spec fn spec_merge<V, W>(
    ps: Seq<(Timestamp, SensedPeople)>,
    ss: Seq<(Timestamp, Sensor<V>)>,
    ws: Seq<(Timestamp, W)>,
    start_hour: u32,
    end_hour: u32,
    l: SensorLocation,
) -> Seq<MergedRecord<V, W>>
    decreases ss.len(),
{
    if ss.len() == 0 {
        Seq::empty()
    } else {
        let prev = spec_merge(ps, ss.drop_last(), ws, start_hour, end_hour, l);
        let (t, s) = ss.last();
        if s.location == l && in_hours(t, start_hour, end_hour) && weather_at(ws, t) is Some {
            prev.push(MergedRecord { time: t, sensor: s, people: occupancy(ps, t, l), weather: weather_at(ws, t)->Some_0 })
        } else {
            prev
        }
    }
}

pub open spec fn all_wf<T>(s: Seq<(Timestamp, T)>) -> bool {
    forall|i: int| 0 <= i < s.len() ==> (#[trigger] s[i]).0.wf()
}

/// `idx` maps each minute of the first `n` series entries to the last of
/// them with that minute.
spec fn weather_index<W>(idx: Map<i64, usize>, ws: Seq<(Timestamp, W)>, n: int) -> bool {
    &&& forall|k: i64| #[trigger] idx.contains_key(k) ==> idx[k] < n && ws[idx[k] as int].0.abs() == k
        && forall|j: int| idx[k] < j < n ==> (#[trigger] ws[j]).0.abs() != k
    &&& forall|j: int| 0 <= j < n ==> idx.contains_key((#[trigger] ws[j]).0.abs() as i64)
}

/// `idx` maps each (minute, location) key of the first `n` counts to the
/// first of them with that key.
spec fn people_index(idx: Map<i64, usize>, ps: Seq<(Timestamp, SensedPeople)>, n: int) -> bool {
    &&& forall|k: i64| #[trigger] idx.contains_key(k) ==> idx[k] < n
        && site_key(ps[idx[k] as int].0, ps[idx[k] as int].1.sensor_location) == k
        && forall|j: int| 0 <= j < idx[k] ==> site_key((#[trigger] ps[j]).0, ps[j].1.sensor_location) != k
    &&& forall|j: int| 0 <= j < n ==> idx.contains_key(site_key((#[trigger] ps[j]).0, ps[j].1.sensor_location) as i64)
}

proof fn lemma_abs_injective(a: Timestamp, b: Timestamp)
    requires
        a.wf(),
        b.wf(),
        a.abs() == b.abs(),
    ensures
        a == b,
{
    let (d1, d2, m1, m2) = (a.day as int, b.day as int, a.minute as int, b.minute as int);
    assert(d1 == d2 && m1 == m2) by (nonlinear_arith)
        requires
            d1 * 1440 + m1 == d2 * 1440 + m2,
            0 <= m1 < 1440,
            0 <= m2 < 1440,
    ;
}

proof fn lemma_weather_last<W>(ws: Seq<(Timestamp, W)>, t: Timestamp, j: int)
    requires
        all_wf(ws),
        t.wf(),
        0 <= j < ws.len(),
        ws[j].0 == t,
        forall|i: int| j < i < ws.len() ==> (#[trigger] ws[i]).0.abs() != t.abs(),
    ensures
        weather_at(ws, t) == Some(ws[j].1),
    decreases ws.len(),
{
    if j < ws.len() - 1 {
        let p = ws.drop_last();
        assert(ws.last() == ws[ws.len() - 1]);
        assert forall|i: int| j < i < p.len() implies (#[trigger] p[i]).0.abs() != t.abs() by {
            assert(p[i] == ws[i]);
        }
        lemma_weather_last(p, t, j);
    }
}

proof fn lemma_weather_none<W>(ws: Seq<(Timestamp, W)>, t: Timestamp)
    requires
        forall|i: int| 0 <= i < ws.len() ==> (#[trigger] ws[i]).0 != t,
    ensures
        weather_at(ws, t) is None,
    decreases ws.len(),
{
    if ws.len() > 0 {
        let p = ws.drop_last();
        assert(ws.last() == ws[ws.len() - 1]);
        assert forall|i: int| 0 <= i < p.len() implies (#[trigger] p[i]).0 != t by {
            assert(p[i] == ws[i]);
        }
        lemma_weather_none(p, t);
    }
}

proof fn lemma_people_first(ps: Seq<(Timestamp, SensedPeople)>, t: Timestamp, l: SensorLocation, j: int)
    requires
        all_wf(ps),
        t.wf(),
        0 <= j < ps.len(),
        ps[j].0 == t,
        ps[j].1.sensor_location == l,
        forall|i: int| 0 <= i < j ==> site_key((#[trigger] ps[i]).0, ps[i].1.sensor_location) != site_key(t, l),
    ensures
        people_at(ps, t, l) == Some(ps[j].1),
    decreases ps.len(),
{
    let p = ps.drop_last();
    if j < ps.len() - 1 {
        assert forall|i: int| 0 <= i < j implies site_key((#[trigger] p[i]).0, p[i].1.sensor_location) != site_key(t, l) by {
            assert(p[i] == ps[i]);
        }
        assert(p[j] == ps[j]);
        lemma_people_first(p, t, l, j);
    } else {
        assert forall|i: int| 0 <= i < p.len() implies !((#[trigger] p[i]).0 == t && p[i].1.sensor_location == l) by {
            assert(p[i] == ps[i]);
        }
        lemma_people_none(p, t, l);
    }
}

proof fn lemma_people_none(ps: Seq<(Timestamp, SensedPeople)>, t: Timestamp, l: SensorLocation)
    requires
        forall|i: int| 0 <= i < ps.len() ==> !((#[trigger] ps[i]).0 == t && ps[i].1.sensor_location == l),
    ensures
        people_at(ps, t, l) is None,
    decreases ps.len(),
{
    if ps.len() > 0 {
        let p = ps.drop_last();
        assert(ps.last() == ps[ps.len() - 1]);
        assert forall|i: int| 0 <= i < p.len() implies !((#[trigger] p[i]).0 == t && p[i].1.sensor_location == l) by {
            assert(p[i] == ps[i]);
        }
        lemma_people_none(p, t, l);
    }
}

fn build_weather_index<W: Copy>(ws: &Vec<(Timestamp, W)>) -> (idx: DashMap<i64, usize>)
    requires
        all_wf(ws@),
    ensures
        weather_index(entries(idx), ws@, ws@.len() as int),
{
    let mut idx = new_table();
    let mut j: usize = 0;
    while j < ws.len()
        invariant
            j <= ws@.len(),
            all_wf(ws@),
            weather_index(entries(idx), ws@, j as int),
        decreases ws@.len() - j,
    {
        let t = ws[j].0;
        let k = t.total_minutes();
        table_insert(&mut idx, k, j);
        j += 1;
    }
    idx
}

fn build_people_index(ps: &Vec<(Timestamp, SensedPeople)>) -> (idx: DashMap<i64, usize>)
    requires
        all_wf(ps@),
    ensures
        people_index(entries(idx), ps@, ps@.len() as int),
{
    let mut idx = new_table();
    let mut j: usize = 0;
    while j < ps.len()
        invariant
            j <= ps@.len(),
            all_wf(ps@),
            people_index(entries(idx), ps@, j as int),
        decreases ps@.len() - j,
    {
        let p = ps[j];
        let k = site_key_of(&p.0, &p.1.sensor_location);
        if table_get(&idx, k).is_none() {
            table_insert(&mut idx, k, j);
        }
        j += 1;
    }
    idx
}


fn merge_location<V: Copy, W: Copy>(
    people: &Vec<(Timestamp, SensedPeople)>,
    sensors: &Vec<(Timestamp, Sensor<V>)>,
    weather: &Vec<(Timestamp, W)>,
    people_idx: &DashMap<i64, usize>,
    weather_idx: &DashMap<i64, usize>,
    start_hour: u32,
    end_hour: u32,
    l: SensorLocation,
) -> (r: Vec<MergedRecord<V, W>>)
    requires
        all_wf(people@),
        all_wf(sensors@),
        all_wf(weather@),
        people_index(entries(*people_idx), people@, people@.len() as int),
        weather_index(entries(*weather_idx), weather@, weather@.len() as int),
    ensures
        r@ == spec_merge(people@, sensors@, weather@, start_hour, end_hour, l),
{
    let mut out: Vec<MergedRecord<V, W>> = Vec::new();
    let mut i: usize = 0;
    while i < sensors.len()
        invariant
            i <= sensors@.len(),
            all_wf(people@),
            all_wf(sensors@),
            all_wf(weather@),
            people_index(entries(*people_idx), people@, people@.len() as int),
            weather_index(entries(*weather_idx), weather@, weather@.len() as int),
            out@ == spec_merge(people@, sensors@.take(i as int), weather@, start_hour, end_hour, l),
        decreases sensors@.len() - i,
    {
        let (t, s) = sensors[i];
        proof {
            let pre = sensors@.take(i + 1);
            assert(pre.drop_last() == sensors@.take(i as int));
            assert(pre.last() == sensors@[i as int]);
        }
        if s.location == l {
            let hour = t.hour();
            if start_hour <= hour && hour < end_hour {
                let wk = t.total_minutes();
                match table_get(weather_idx, wk) {
                    Some(wj) => {
                        let w = weather[wj].1;
                        proof {
                            let j = wj as int;
                            lemma_abs_injective(weather@[j].0, t);
                            lemma_weather_last(weather@, t, j);
                        }
                        let pk = site_key_of(&t, &l);
                        let count = match table_get(people_idx, pk) {
                            Some(pj) => {
                                proof {
                                    let j = pj as int;
                                    lemma_site_key_injective(people@[j].0, people@[j].1.sensor_location, t, l);
                                    lemma_people_first(people@, t, l, j);
                                }
                                people[pj].1
                            },
                            None => {
                                proof {
                                    assert forall|j: int| 0 <= j < people@.len() implies !((#[trigger] people@[j]).0 == t
                                        && people@[j].1.sensor_location == l) by {
                                        if people@[j].0 == t && people@[j].1.sensor_location == l {
                                            assert(entries(*people_idx).contains_key(site_key(people@[j].0, people@[j].1.sensor_location) as i64));
                                        }
                                    }
                                    lemma_people_none(people@, t, l);
                                }
                                SensedPeople { sensor_location: l, people: 0 }
                            },
                        };
                        out.push(MergedRecord { time: t, sensor: s, people: count, weather: w });
                    },
                    None => {
                        proof {
                            assert forall|j: int| 0 <= j < weather@.len() implies (#[trigger] weather@[j]).0 != t by {
                                if weather@[j].0 == t {
                                    assert(entries(*weather_idx).contains_key(weather@[j].0.abs() as i64));
                                }
                            }
                            lemma_weather_none(weather@, t);
                        }
                    },
                }
            }
        }
        i += 1;
    }
    proof {
        assert(sensors@.take(sensors@.len() as int) == sensors@);
    }
    out
}

/// The unification engine. Joins snapshots, person counts and the weather
/// series into one list of records per location (indexed by
/// `SensorLocation::index`). A snapshot yields a record when its minute lies
/// in the operating hours `[start_hour, end_hour)` and has weather; its count
/// is the first recorded for its location and minute, zero when there is
/// none.
pub fn merge_maps_updated<V: Copy, W: Copy>(
    people: &Vec<(Timestamp, SensedPeople)>,
    sensors: &Vec<(Timestamp, Sensor<V>)>,
    weather: &Vec<(Timestamp, W)>,
    start_hour: u32,
    end_hour: u32,
) -> (r: Vec<Vec<MergedRecord<V, W>>>)
    requires
        all_wf(people@),
        all_wf(sensors@),
        all_wf(weather@),
    ensures
        r@.len() == LOCATION_COUNT,
        forall|i: int| 0 <= i < LOCATION_COUNT ==> (#[trigger] r@[i])@ == spec_merge(
            people@,
            sensors@,
            weather@,
            start_hour,
            end_hour,
            SensorLocation::spec_from_index(i as nat),
        ),
{
    let people_idx = build_people_index(people);
    let weather_idx = build_weather_index(weather);
    let mut out: Vec<Vec<MergedRecord<V, W>>> = Vec::new();
    let mut i: usize = 0;
    while i < LOCATION_COUNT
        invariant
            i <= LOCATION_COUNT,
            all_wf(people@),
            all_wf(sensors@),
            all_wf(weather@),
            people_index(entries(people_idx), people@, people@.len() as int),
            weather_index(entries(weather_idx), weather@, weather@.len() as int),
            out@.len() == i,
            forall|k: int| 0 <= k < i ==> (#[trigger] out@[k])@ == spec_merge(
                people@,
                sensors@,
                weather@,
                start_hour,
                end_hour,
                SensorLocation::spec_from_index(k as nat),
            ),
        decreases LOCATION_COUNT - i,
    {
        let l = SensorLocation::from_index(i);
        let records = merge_location(people, sensors, weather, &people_idx, &weather_idx, start_hour, end_hour, l);
        out.push(records);
        i += 1;
    }
    out
}


proof fn lemma_people_at_location(ps: Seq<(Timestamp, SensedPeople)>, t: Timestamp, l: SensorLocation)
    ensures
        people_at(ps, t, l) matches Some(p) ==> p.sensor_location == l,
    decreases ps.len(),
{
    if ps.len() > 0 {
        lemma_people_at_location(ps.drop_last(), t, l);
    }
}

/// Each unified record of `l` comes from a snapshot of `l` at its minute, and
/// carries a count of `l`.
proof fn lemma_merge_origin<V, W>(
    ps: Seq<(Timestamp, SensedPeople)>,
    ss: Seq<(Timestamp, Sensor<V>)>,
    ws: Seq<(Timestamp, W)>,
    start_hour: u32,
    end_hour: u32,
    l: SensorLocation,
)
    ensures
        forall|i: int| 0 <= i < spec_merge(ps, ss, ws, start_hour, end_hour, l).len() ==> exists|k: int|
            0 <= k < ss.len() && ss[k].0 == (#[trigger] spec_merge(ps, ss, ws, start_hour, end_hour, l)[i]).time
                && ss[k].1 == spec_merge(ps, ss, ws, start_hour, end_hour, l)[i].sensor,
        forall|i: int| 0 <= i < spec_merge(ps, ss, ws, start_hour, end_hour, l).len() ==>
            (#[trigger] spec_merge(ps, ss, ws, start_hour, end_hour, l)[i]).sensor.location == l
            && spec_merge(ps, ss, ws, start_hour, end_hour, l)[i].people.sensor_location == l,
    decreases ss.len(),
{
    if ss.len() > 0 {
        let p = ss.drop_last();
        lemma_merge_origin(ps, p, ws, start_hour, end_hour, l);
        let prev = spec_merge(ps, p, ws, start_hour, end_hour, l);
        let cur = spec_merge(ps, ss, ws, start_hour, end_hour, l);
        let (t, s) = ss.last();
        lemma_people_at_location(ps, t, l);
        assert forall|i: int| 0 <= i < cur.len() implies exists|k: int|
            0 <= k < ss.len() && ss[k].0 == (#[trigger] cur[i]).time && ss[k].1 == cur[i].sensor by {
            if i < prev.len() {
                assert(cur[i] == prev[i]);
                let k = choose|k: int| 0 <= k < p.len() && p[k].0 == (#[trigger] prev[i]).time && p[k].1 == prev[i].sensor;
                assert(ss[k] == p[k]);
            } else {
                assert(ss[ss.len() - 1] == ss.last());
            }
        }
    }
}

/// Unification never produces two records with the same location and minute:
/// whatever readings, counts and weather it is given, the records of each
/// location (built from the readings' snapshots) have pairwise distinct
/// minutes, and every record of location `l` is about `l`.
pub proof fn lemma_unified_unique<V, W>(
    people: Seq<(Timestamp, SensedPeople)>,
    readings: Seq<(Timestamp, SensorData<V>)>,
    weather: Seq<(Timestamp, W)>,
    start_hour: u32,
    end_hour: u32,
    l: SensorLocation,
)
    ensures
        ({
            let merged = spec_merge(people, spec_accumulate(readings), weather, start_hour, end_hour, l);
            &&& forall|i: int, j: int| 0 <= i < j < merged.len() ==> merged[i].time != merged[j].time
            &&& forall|i: int| 0 <= i < merged.len() ==> (#[trigger] merged[i]).sensor.location == l
                && merged[i].people.sensor_location == l
        }),
{
    let ss = spec_accumulate(readings);
    lemma_accumulate_unique(readings);
    lemma_merge_distinct(people, ss, weather, start_hour, end_hour, l);
    lemma_merge_origin(people, ss, weather, start_hour, end_hour, l);
}

/// Over snapshots with distinct (minute, location) pairs, the records of one
/// location have distinct minutes.
pub proof fn lemma_merge_distinct<V, W>(
    ps: Seq<(Timestamp, SensedPeople)>,
    ss: Seq<(Timestamp, Sensor<V>)>,
    ws: Seq<(Timestamp, W)>,
    start_hour: u32,
    end_hour: u32,
    l: SensorLocation,
)
    requires
        unique_sites(ss),
    ensures
        forall|i: int, j: int| 0 <= i < j < spec_merge(ps, ss, ws, start_hour, end_hour, l).len() ==>
            spec_merge(ps, ss, ws, start_hour, end_hour, l)[i].time != spec_merge(ps, ss, ws, start_hour, end_hour, l)[j].time,
    decreases ss.len(),
{
    if ss.len() > 0 {
        let p = ss.drop_last();
        assert(unique_sites(p));
        lemma_merge_distinct(ps, p, ws, start_hour, end_hour, l);
        lemma_merge_origin(ps, p, ws, start_hour, end_hour, l);
        let prev = spec_merge(ps, p, ws, start_hour, end_hour, l);
        let cur = spec_merge(ps, ss, ws, start_hour, end_hour, l);
        let (t, s) = ss.last();
        if cur.len() > prev.len() {
            assert forall|i: int| 0 <= i < prev.len() implies (#[trigger] prev[i]).time != t by {
                let k = choose|k: int| 0 <= k < p.len() && p[k].0 == (#[trigger] prev[i]).time && p[k].1 == prev[i].sensor;
                assert(ss[k] == p[k]);
                assert(ss[ss.len() - 1] == ss.last());
            }
            assert forall|i: int, j: int| 0 <= i < j < cur.len() implies cur[i].time != cur[j].time by {
                assert(cur[i] == prev[i]);
                if j < prev.len() {
                    assert(cur[j] == prev[j]);
                }
            }
        }
    }
}

} // verus!
