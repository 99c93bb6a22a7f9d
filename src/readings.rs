//! Sensor readings and their accumulation into one snapshot per location and
//! minute.
use crate::decode::{opt_view, quantity_of, sensor_location, spec_quantity, spec_sensor_location, DecodeError, Quantity, SensorLocation};
use crate::time::{parse_timestamp, spec_parse_timestamp, Timestamp};
use crate::index::{entries, new_table, table_get, table_insert};
use vstd::prelude::*;

verus! {

/// One measured value, tagged with its quantity.
#[derive(Clone, Copy, Debug)]
pub enum SensorValue<V> {
    DewPoint(V),
    Luminance(V),
    VocIndex(V),
    Co2(V),
    AbsHumidity(V),
    Rh(V),
    Temperature(V),
    VecEqCo2(V),
}

/// One decoded reading: where it was taken and what it measured.
#[derive(Clone, Copy, Debug)]
pub struct SensorData<V> {
    pub sensor_location: SensorLocation,
    pub value: SensorValue<V>,
}

/// Everything observed at one location during one minute; a quantity that no
/// reading reported stays `None`.
#[derive(Clone, Copy, Debug)]
pub struct Sensor<V> {
    pub location: SensorLocation,
    pub dew_point: Option<V>,
    pub luminance: Option<V>,
    pub voc_index: Option<V>,
    pub co2: Option<V>,
    pub abs_humidity: Option<V>,
    pub rh: Option<V>,
    pub temperature: Option<V>,
    pub vec_eq_co2: Option<V>,
}

/// The tagged value for a quantity.
pub open spec fn spec_sensor_value<V>(q: Quantity, v: V) -> SensorValue<V> {
    match q {
        Quantity::DewPoint => SensorValue::DewPoint(v),
        Quantity::Luminance => SensorValue::Luminance(v),
        Quantity::VocIndex => SensorValue::VocIndex(v),
        Quantity::Co2 => SensorValue::Co2(v),
        Quantity::AbsHumidity => SensorValue::AbsHumidity(v),
        Quantity::Rh => SensorValue::Rh(v),
        Quantity::Temperature => SensorValue::Temperature(v),
        Quantity::VecEqCo2 => SensorValue::VecEqCo2(v),
    }
}

/// Tags `value` with the quantity that `field` names.
pub fn map_sensor_value<V: Copy>(field: &str, value: V) -> (r: Result<SensorValue<V>, DecodeError>)
    ensures
        match spec_quantity(field@) {
            Some(q) => r == Ok::<SensorValue<V>, DecodeError>(spec_sensor_value(q, value)),
            None => r == Err::<SensorValue<V>, DecodeError>(DecodeError::UnknownQuantity),
        },
{
    match quantity_of(field) {
        Some(Quantity::DewPoint) => Ok(SensorValue::DewPoint(value)),
        Some(Quantity::Luminance) => Ok(SensorValue::Luminance(value)),
        Some(Quantity::VocIndex) => Ok(SensorValue::VocIndex(value)),
        Some(Quantity::Co2) => Ok(SensorValue::Co2(value)),
        Some(Quantity::AbsHumidity) => Ok(SensorValue::AbsHumidity(value)),
        Some(Quantity::Rh) => Ok(SensorValue::Rh(value)),
        Some(Quantity::Temperature) => Ok(SensorValue::Temperature(value)),
        Some(Quantity::VecEqCo2) => Ok(SensorValue::VecEqCo2(value)),
        None => Err(DecodeError::UnknownQuantity),
    }
}

/// The reading that a row of the sensor export stands for, or why it is
/// refused; checks run in the order time, field, sensor id, value.
pub open spec fn spec_sensor_data<V>(
    time: Option<Seq<char>>,
    field: Option<Seq<char>>,
    sensor_id: Option<Seq<char>>,
    value: Option<V>,
) -> Result<(Timestamp, SensorData<V>), DecodeError> {
    match time {
        None => Err(DecodeError::Missing),
        Some(t) => match spec_parse_timestamp(t, "%Y-%m-%dT%H:%M:%S%Z"@) {
            None => Err(DecodeError::BadTime),
            Some(ts) => match field {
                None => Err(DecodeError::Missing),
                Some(f) => match sensor_id {
                    None => Err(DecodeError::Missing),
                    Some(id) => match spec_sensor_location(id) {
                        None => Err(DecodeError::UnknownLocation),
                        Some(loc) => match value {
                            None => Err(DecodeError::Missing),
                            Some(v) => match spec_quantity(f) {
                                None => Err(DecodeError::UnknownQuantity),
                                Some(q) => Ok((ts, SensorData { sensor_location: loc, value: spec_sensor_value(q, v) })),
                            },
                        },
                    },
                },
            },
        },
    }
}

impl<V: Copy> SensorData<V> {
    /// Decodes one row of the sensor export: its time stamp, quantity name,
    /// sensor id and measured value.
    pub fn from(time: Option<&str>, field: Option<&str>, sensor_id: Option<&str>, value: Option<V>) -> (r: Result<(Timestamp, SensorData<V>), DecodeError>)
        ensures
            r == spec_sensor_data(opt_view(time), opt_view(field), opt_view(sensor_id), value),
            r matches Ok(p) ==> p.0.wf(),
    {
        let t = match time {
            None => return Err(DecodeError::Missing),
            Some(t) => t,
        };
        let ts = match parse_timestamp(t, "%Y-%m-%dT%H:%M:%S%Z") {
            None => return Err(DecodeError::BadTime),
            Some(ts) => ts,
        };
        let f = match field {
            None => return Err(DecodeError::Missing),
            Some(f) => f,
        };
        let id = match sensor_id {
            None => return Err(DecodeError::Missing),
            Some(id) => id,
        };
        let loc = match sensor_location(id) {
            None => return Err(DecodeError::UnknownLocation),
            Some(loc) => loc,
        };
        let v = match value {
            None => return Err(DecodeError::Missing),
            Some(v) => v,
        };
        let value = map_sensor_value(f, v)?;
        Ok((ts, SensorData { sensor_location: loc, value }))
    }
}

/// A snapshot of `location` with nothing observed yet.
pub open spec fn spec_empty_sensor<V>(location: SensorLocation) -> Sensor<V> {
    Sensor {
        location,
        dew_point: None,
        luminance: None,
        voc_index: None,
        co2: None,
        abs_humidity: None,
        rh: None,
        temperature: None,
        vec_eq_co2: None,
    }
}

/// The snapshot `s` once `value` is recorded in it: the field of the value's
/// quantity takes the value, the others stay.
pub open spec fn spec_record<V>(s: Sensor<V>, value: SensorValue<V>) -> Sensor<V> {
    match value {
        SensorValue::DewPoint(v) => Sensor { dew_point: Some(v), ..s },
        SensorValue::Luminance(v) => Sensor { luminance: Some(v), ..s },
        SensorValue::VocIndex(v) => Sensor { voc_index: Some(v), ..s },
        SensorValue::Co2(v) => Sensor { co2: Some(v), ..s },
        SensorValue::AbsHumidity(v) => Sensor { abs_humidity: Some(v), ..s },
        SensorValue::Rh(v) => Sensor { rh: Some(v), ..s },
        SensorValue::Temperature(v) => Sensor { temperature: Some(v), ..s },
        SensorValue::VecEqCo2(v) => Sensor { vec_eq_co2: Some(v), ..s },
    }
}

impl<V: Copy> Sensor<V> {
    pub fn empty(location: SensorLocation) -> (r: Sensor<V>)
        ensures
            r == spec_empty_sensor::<V>(location),
    {
        Sensor {
            location,
            dew_point: None,
            luminance: None,
            voc_index: None,
            co2: None,
            abs_humidity: None,
            rh: None,
            temperature: None,
            vec_eq_co2: None,
        }
    }

    /// Records one value in the snapshot.
    pub fn record(&mut self, value: SensorValue<V>)
        ensures
            *final(self) == spec_record(*old(self), value),
    {
        match value {
            SensorValue::DewPoint(v) => self.dew_point = Some(v),
            SensorValue::Luminance(v) => self.luminance = Some(v),
            SensorValue::VocIndex(v) => self.voc_index = Some(v),
            SensorValue::Co2(v) => self.co2 = Some(v),
            SensorValue::AbsHumidity(v) => self.abs_humidity = Some(v),
            SensorValue::Rh(v) => self.rh = Some(v),
            SensorValue::Temperature(v) => self.temperature = Some(v),
            SensorValue::VecEqCo2(v) => self.vec_eq_co2 = Some(v),
        }
    }
}

/// A key that tells (minute, location) pairs apart.
pub open spec fn site_key(t: Timestamp, l: SensorLocation) -> int {
    t.abs() * 8 + l.spec_index()
}

pub proof fn lemma_site_key_injective(t1: Timestamp, l1: SensorLocation, t2: Timestamp, l2: SensorLocation)
    requires
        t1.wf(),
        t2.wf(),
        site_key(t1, l1) == site_key(t2, l2),
    ensures
        t1 == t2,
        l1 == l2,
{
    let a1 = t1.abs();
    let a2 = t2.abs();
    let i1 = l1.spec_index() as int;
    let i2 = l2.spec_index() as int;
    assert(a1 == a2 && i1 == i2) by (nonlinear_arith)
        requires
            a1 * 8 + i1 == a2 * 8 + i2,
            0 <= i1 < 8,
            0 <= i2 < 8,
    ;
    let d1 = t1.day as int;
    let d2 = t2.day as int;
    let m1 = t1.minute as int;
    let m2 = t2.minute as int;
    assert(d1 == d2 && m1 == m2) by (nonlinear_arith)
        requires
            d1 * 1440 + m1 == d2 * 1440 + m2,
            0 <= m1 < 1440,
            0 <= m2 < 1440,
    ;
}

/// The key of a (minute, location) pair as a machine integer.
pub fn site_key_of(t: &Timestamp, l: &SensorLocation) -> (r: i64)
    requires
        t.wf(),
    ensures
        r == site_key(*t, *l),
{
    t.total_minutes() * 8 + l.index() as i64
}

/// Position of the snapshot of (t, l) in `snaps`, or -1.
pub open spec fn spec_position<V>(snaps: Seq<(Timestamp, Sensor<V>)>, t: Timestamp, l: SensorLocation) -> int
    decreases snaps.len(),
{
    if snaps.len() == 0 {
        -1
    } else if snaps.last().0 == t && snaps.last().1.location == l {
        snaps.len() - 1
    } else {
        spec_position(snaps.drop_last(), t, l)
    }
}

/// The snapshots that a list of readings adds up to: one per (minute,
/// location), in order of first appearance, each quantity holding the last
/// value read for it.
pub open spec fn spec_accumulate<V>(rows: Seq<(Timestamp, SensorData<V>)>) -> Seq<(Timestamp, Sensor<V>)>
    decreases rows.len(),
{
    if rows.len() == 0 {
        Seq::empty()
    } else {
        let prev = spec_accumulate(rows.drop_last());
        let (t, d) = rows.last();
        let j = spec_position(prev, t, d.sensor_location);
        if j >= 0 {
            prev.update(j, (t, spec_record(prev[j].1, d.value)))
        } else {
            prev.push((t, spec_record(spec_empty_sensor(d.sensor_location), d.value)))
        }
    }
}

/// No two snapshots share a minute and a location.
pub open spec fn unique_sites<V>(snaps: Seq<(Timestamp, Sensor<V>)>) -> bool {
    forall|i: int, j: int|
        0 <= i < snaps.len() && 0 <= j < snaps.len() && i != j ==> !(snaps[i].0 == snaps[j].0
            && snaps[i].1.location == snaps[j].1.location)
}

pub proof fn lemma_position<V>(snaps: Seq<(Timestamp, Sensor<V>)>, t: Timestamp, l: SensorLocation)
    requires
        unique_sites(snaps),
    ensures
        -1 <= spec_position(snaps, t, l) < snaps.len(),
        spec_position(snaps, t, l) >= 0 ==> snaps[spec_position(snaps, t, l)].0 == t
            && snaps[spec_position(snaps, t, l)].1.location == l,
        spec_position(snaps, t, l) < 0 ==> forall|i: int|
            0 <= i < snaps.len() ==> !(#[trigger] snaps[i].0 == t && snaps[i].1.location == l),
    decreases snaps.len(),
{
    if snaps.len() > 0 {
        let p = snaps.drop_last();
        assert(unique_sites(p));
        lemma_position(p, t, l);
        assert forall|i: int| 0 <= i < p.len() implies #[trigger] snaps[i] == p[i] by {}
    }
}

pub proof fn lemma_accumulate_unique<V>(rows: Seq<(Timestamp, SensorData<V>)>)
    ensures
        unique_sites(spec_accumulate(rows)),
        spec_accumulate(rows).len() <= rows.len(),
        forall|i: int| 0 <= i < spec_accumulate(rows).len() ==> exists|k: int|
            0 <= k < rows.len() && #[trigger] spec_accumulate(rows)[i].0 == rows[k].0,
    decreases rows.len(),
{
    if rows.len() > 0 {
        let r = rows.drop_last();
        lemma_accumulate_unique(r);
        let prev = spec_accumulate(r);
        let (t, d) = rows.last();
        lemma_position(prev, t, d.sensor_location);
        let cur = spec_accumulate(rows);
        assert forall|i: int| 0 <= i < cur.len() implies exists|k: int|
            0 <= k < rows.len() && #[trigger] cur[i].0 == rows[k].0 by {
            if i < prev.len() && cur[i].0 == prev[i].0 {
                let k = choose|k: int| 0 <= k < r.len() && prev[i].0 == r[k].0;
                assert(rows[k] == r[k]);
            } else {
                assert(cur[i].0 == rows[rows.len() - 1].0);
            }
        }
    }
}


/// Adds up decoded readings into snapshots: one per (minute, location), in
/// order of first appearance, each quantity holding the last value read for
/// it.
pub fn accumulate_readings<V: Copy>(rows: &Vec<(Timestamp, SensorData<V>)>) -> (r: Vec<(Timestamp, Sensor<V>)>)
    requires
        forall|i: int| 0 <= i < rows@.len() ==> (#[trigger] rows@[i]).0.wf(),
    ensures
        r@ == spec_accumulate(rows@),
        unique_sites(r@),
        forall|i: int| 0 <= i < r@.len() ==> (#[trigger] r@[i]).0.wf(),
{
    let mut out: Vec<(Timestamp, Sensor<V>)> = Vec::new();
    let mut index = new_table();
    let mut i: usize = 0;
    while i < rows.len()
        invariant
            i <= rows@.len(),
            forall|k: int| 0 <= k < rows@.len() ==> (#[trigger] rows@[k]).0.wf(),
            out@ == spec_accumulate(rows@.take(i as int)),
            unique_sites(out@),
            forall|j: int| 0 <= j < out@.len() ==> (#[trigger] out@[j]).0.wf(),
            forall|k: i64| #[trigger] entries(index).contains_key(k) ==> entries(index)[k] < out@.len()
                && site_key(out@[entries(index)[k] as int].0, out@[entries(index)[k] as int].1.location) == k,
            forall|j: int| 0 <= j < out@.len() ==> entries(index).contains_key(
                site_key((#[trigger] out@[j]).0, out@[j].1.location) as i64),
        decreases rows@.len() - i,
    {
        let row = rows[i];
        let t = row.0;
        let d = row.1;
        let key = site_key_of(&t, &d.sensor_location);
        let ghost prev = out@;
        proof {
            assert(rows@.take(i + 1).drop_last() == rows@.take(i as int));
            assert(rows@.take(i + 1).last() == rows@[i as int]);
            lemma_position(prev, t, d.sensor_location);
        }
        match table_get(&index, key) {
            Some(j) => {
                let ghost pos = spec_position(prev, t, d.sensor_location);
                proof {
                    lemma_site_key_injective(prev[j as int].0, prev[j as int].1.location, t, d.sensor_location);
                    if pos < 0 {
                        assert(!(prev[j as int].0 == t && prev[j as int].1.location == d.sensor_location));
                    }
                    if pos != j {
                        assert(prev[pos].0 == t && prev[pos].1.location == d.sensor_location);
                    }
                }
                let mut snap = out[j].1;
                snap.record(d.value);
                out.set(j, (t, snap));
                proof {
                    assert forall|k: int| 0 <= k < out@.len() implies (#[trigger] out@[k]).0 == prev[k].0
                        && out@[k].1.location == prev[k].1.location by {}
                }
            },
            None => {
                let ghost pos = spec_position(prev, t, d.sensor_location);
                proof {
                    if pos >= 0 {
                        assert(entries(index).contains_key(site_key(prev[pos].0, prev[pos].1.location) as i64));
                    }
                }
                let mut snap: Sensor<V> = Sensor::empty(d.sensor_location);
                snap.record(d.value);
                out.push((t, snap));
                let last = out.len() - 1;
                table_insert(&mut index, key, last);
                proof {
                    assert forall|a: int, b: int|
                        0 <= a < out@.len() && 0 <= b < out@.len() && a != b implies !(out@[a].0 == out@[b].0
                            && out@[a].1.location == out@[b].1.location) by {
                        if a < prev.len() && b < prev.len() {
                        } else if a == prev.len() {
                            assert(out@[b] == prev[b]);
                        } else {
                            assert(out@[a] == prev[a]);
                        }
                    }
                    assert forall|j: int| 0 <= j < prev.len() implies #[trigger] out@[j] == prev[j] by {}
                }
            },
        }
        i += 1;
    }
    proof {
        assert(rows@.take(rows@.len() as int) == rows@);
    }
    out
}

} // verus!
