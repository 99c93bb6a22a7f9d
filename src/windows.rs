//! Sliding windows over a day's records and their flattening into labelled
//! feature rows.
use crate::decode::SensorLocation;
use crate::time::{month_day_of, read_month_day};
use crate::unify::MergedRecord;
use vstd::prelude::*;

verus! {

/// Default number of records in a window.
pub const WINDOW_SIZE: usize = 180;

/// Number of windows over `n` records: one per start position `i` with
/// `i + window_size < n`, so none unless `n` exceeds the window size.
pub open spec fn window_count(n: int, window_size: int) -> int {
    if n > window_size {
        n - window_size
    } else {
        0
    }
}

/// The sliding windows (stride one) over one day's records: window `i` holds
/// records `i` to `i + window_size - 1`.
pub fn generate_windows<V: Copy, W: Copy>(records: &Vec<MergedRecord<V, W>>, window_size: usize) -> (r: Vec<Vec<MergedRecord<V, W>>>)
    ensures
        r@.len() == window_count(records@.len() as int, window_size as int),
        forall|i: int| 0 <= i < r@.len() ==> (#[trigger] r@[i])@ == records@.subrange(i, i + window_size),
{
    let mut out: Vec<Vec<MergedRecord<V, W>>> = Vec::new();
    let n = records.len();
    if n <= window_size {
        return out;
    }
    let count = n - window_size;
    let mut i: usize = 0;
    while i < count
        invariant
            i <= count,
            count == n - window_size,
            n == records@.len(),
            n > window_size,
            out@.len() == i,
            forall|k: int| 0 <= k < i ==> (#[trigger] out@[k])@ == records@.subrange(k, k + window_size),
        decreases count - i,
    {
        let mut w: Vec<MergedRecord<V, W>> = Vec::new();
        let mut j: usize = 0;
        while j < window_size
            invariant
                j <= window_size,
                i < count,
                count == n - window_size,
                n == records@.len(),
                w@ == records@.subrange(i as int, i + j),
            decreases window_size - j,
        {
            w.push(records[i + j]);
            j += 1;
            assert(w@ == records@.subrange(i as int, i + j));
        }
        out.push(w);
        i += 1;
    }
    out
}

/// One minute of one window, ready for learning: the window it belongs to,
/// the month as twelve flags, day of month, minute of day, the eight sensor
/// quantities (`zero` where not observed), the weather and the person count.
#[derive(Clone, Copy, Debug)]
pub struct FeatureRow<V, W> {
    pub window_id: u64,
    pub months: [bool; 12],
    pub day: u32,
    pub time: u32,
    pub dew_point: V,
    pub luminance: V,
    pub voc_index: V,
    pub co2: V,
    pub abs_humidity: V,
    pub rh: V,
    pub temperature: V,
    pub vec_eq_co2: V,
    pub weather: W,
    pub people: i32,
}

/// The windows of one location on one retained day.
#[derive(Clone, Debug)]
pub struct DayWindows<V, W> {
    pub location: SensorLocation,
    pub day: i32,
    pub records: Vec<MergedRecord<V, W>>,
    pub windows: Vec<Vec<MergedRecord<V, W>>>,
}

pub open spec fn or_zero<V>(o: Option<V>, zero: V) -> V {
    match o {
        Some(v) => v,
        None => zero,
    }
}

/// The feature row of record `rec` in window `id` of a day in `month`, on day
/// of month `dom`.
pub open spec fn spec_row<V, W>(rec: MergedRecord<V, W>, id: u64, month: u32, dom: u32, zero: V) -> FeatureRow<V, W> {
    FeatureRow {
        window_id: id,
        months: [month == 1, month == 2, month == 3, month == 4, month == 5, month == 6, month == 7, month == 8,
            month == 9, month == 10, month == 11, month == 12],
        day: dom,
        time: rec.time.minute,
        dew_point: or_zero(rec.sensor.dew_point, zero),
        luminance: or_zero(rec.sensor.luminance, zero),
        voc_index: or_zero(rec.sensor.voc_index, zero),
        co2: or_zero(rec.sensor.co2, zero),
        abs_humidity: or_zero(rec.sensor.abs_humidity, zero),
        rh: or_zero(rec.sensor.rh, zero),
        temperature: or_zero(rec.sensor.temperature, zero),
        vec_eq_co2: or_zero(rec.sensor.vec_eq_co2, zero),
        weather: rec.weather,
        people: rec.people.people,
    }
}

fn value_or<V: Copy>(o: Option<V>, zero: V) -> (r: V)
    ensures
        r == or_zero(o, zero),
{
    match o {
        Some(v) => v,
        None => zero,
    }
}

/// The feature row of one record.
pub fn feature_row<V: Copy, W: Copy>(rec: &MergedRecord<V, W>, id: u64, month: u32, dom: u32, zero: V) -> (r: FeatureRow<V, W>)
    ensures
        r == spec_row(*rec, id, month, dom, zero),
{
    FeatureRow {
        window_id: id,
        months: [month == 1, month == 2, month == 3, month == 4, month == 5, month == 6, month == 7, month == 8,
            month == 9, month == 10, month == 11, month == 12],
        day: dom,
        time: rec.time.minute,
        dew_point: value_or(rec.sensor.dew_point, zero),
        luminance: value_or(rec.sensor.luminance, zero),
        voc_index: value_or(rec.sensor.voc_index, zero),
        co2: value_or(rec.sensor.co2, zero),
        abs_humidity: value_or(rec.sensor.abs_humidity, zero),
        rh: value_or(rec.sensor.rh, zero),
        temperature: value_or(rec.sensor.temperature, zero),
        vec_eq_co2: value_or(rec.sensor.vec_eq_co2, zero),
        weather: rec.weather,
        people: rec.people.people,
    }
}


/// The rows of one window, all with window id `id`.
pub open spec fn spec_window_rows<V, W>(w: Seq<MergedRecord<V, W>>, id: int, month: u32, dom: u32, zero: V) -> Seq<FeatureRow<V, W>> {
    Seq::new(w.len(), |j: int| spec_row(w[j], id as u64, month, dom, zero))
}

/// The rows of a day's windows in order, the windows numbered from
/// `first_id` up.
pub open spec fn spec_day_rows<V, W>(ws: Seq<Vec<MergedRecord<V, W>>>, first_id: int, month: u32, dom: u32, zero: V) -> Seq<FeatureRow<V, W>>
    decreases ws.len(),
{
    if ws.len() == 0 {
        Seq::empty()
    } else {
        spec_day_rows(ws.drop_last(), first_id, month, dom, zero) + spec_window_rows(ws.last()@, first_id + ws.len() - 1, month, dom, zero)
    }
}

/// Number of windows in the first `g` days.
pub open spec fn windows_before<V, W>(days: Seq<DayWindows<V, W>>, g: int) -> int
    decreases g,
{
    if g <= 0 {
        0
    } else {
        windows_before(days, g - 1) + days[g - 1].windows@.len()
    }
}

/// Every day has a calendar month and day of month.
pub open spec fn calendar_days<V, W>(days: Seq<DayWindows<V, W>>) -> bool {
    forall|g: int| 0 <= g < days.len() ==> (#[trigger] month_day_of(days[g].day)) is Some
}

/// The rows of day group `g`: its windows numbered on from those of the
/// groups before it, the first window of all being number 1.
pub open spec fn spec_group_rows<V, W>(days: Seq<DayWindows<V, W>>, g: int, zero: V) -> Seq<FeatureRow<V, W>> {
    let (month, dom) = month_day_of(days[g].day)->Some_0;
    spec_day_rows(days[g].windows@, 1 + windows_before(days, g), month, dom, zero)
}

proof fn lemma_windows_before_mono<V, W>(days: Seq<DayWindows<V, W>>, a: int, b: int)
    requires
        0 <= a <= b <= days.len(),
    ensures
        windows_before(days, a) <= windows_before(days, b),
    decreases b - a,
{
    if a < b {
        lemma_windows_before_mono(days, a, b - 1);
    }
}

/// Flattens the windows of every retained day into feature rows, one group
/// of rows per day. Window ids run from 1 in the order the windows come; the
/// month flags and day of month come from the day. `None` when some day lies
/// outside the calendar range.
pub fn restructure_data_to_output<V: Copy, W: Copy>(days: &Vec<DayWindows<V, W>>, zero: V) -> (r: Option<Vec<Vec<FeatureRow<V, W>>>>)
    requires
        windows_before(days@, days@.len() as int) < u64::MAX,
    ensures
        r is Some <==> calendar_days(days@),
        r matches Some(rows) ==> rows@.len() == days@.len() && forall|g: int| 0 <= g < days@.len() ==> (#[trigger] rows@[g])@
            == spec_group_rows(days@, g, zero),
{
    let mut out: Vec<Vec<FeatureRow<V, W>>> = Vec::new();
    let mut next_id: u64 = 1;
    let mut g: usize = 0;
    while g < days.len()
        invariant
            g <= days@.len(),
            windows_before(days@, days@.len() as int) < u64::MAX,
            next_id == 1 + windows_before(days@, g as int),
            out@.len() == g,
            forall|h: int| 0 <= h < g ==> (#[trigger] month_day_of(days@[h].day)) is Some,
            forall|h: int| 0 <= h < g ==> (#[trigger] out@[h])@ == spec_group_rows(days@, h, zero),
        decreases days@.len() - g,
    {
        let day = &days[g];
        let (month, dom) = match read_month_day(day.day) {
            Some(p) => p,
            None => {
                assert(!calendar_days(days@)) by {
                    assert(month_day_of(days@[g as int].day) is None);
                }
                return None;
            },
        };
        proof {
            lemma_windows_before_mono(days@, g + 1, days@.len() as int);
        }
        let ghost first = next_id as int;
        let mut rows: Vec<FeatureRow<V, W>> = Vec::new();
        let mut i: usize = 0;
        while i < day.windows.len()
            invariant
                i <= day.windows@.len(),
                first == 1 + windows_before(days@, g as int),
                first + day.windows@.len() <= u64::MAX,
                next_id == first + i,
                rows@ == spec_day_rows(day.windows@.take(i as int), first, month, dom, zero),
            decreases day.windows@.len() - i,
        {
            let w = &day.windows[i];
            let ghost base = rows@;
            let mut j: usize = 0;
            while j < w.len()
                invariant
                    j <= w@.len(),
                    rows@ == base + spec_window_rows(w@, next_id as int, month, dom, zero).take(j as int),
                decreases w@.len() - j,
            {
                let row = feature_row(&w[j], next_id, month, dom, zero);
                rows.push(row);
                proof {
                    assert(spec_window_rows(w@, next_id as int, month, dom, zero).take(j + 1)
                        == spec_window_rows(w@, next_id as int, month, dom, zero).take(j as int).push(row));
                }
                j += 1;
            }
            proof {
                let pre = day.windows@.take(i + 1);
                assert(pre.drop_last() == day.windows@.take(i as int));
                assert(pre.last() == *w);
                assert(spec_window_rows(w@, next_id as int, month, dom, zero).take(j as int) == spec_window_rows(w@, next_id as int, month, dom, zero));
            }
            next_id = next_id + 1;
            i += 1;
        }
        proof {
            assert(day.windows@.take(i as int) == day.windows@);
        }
        out.push(rows);
        g += 1;
    }
    Some(out)
}

} // verus!
