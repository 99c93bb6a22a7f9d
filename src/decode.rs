//! Typed records from the raw text fields of the three sources: location and
//! quantity codes, the lesson-slot timetable and its per-minute expansion.
use crate::time::{parse_timestamp, spec_parse_timestamp, Timestamp, MINUTES_PER_DAY};
use vstd::prelude::*;
use vstd::string::*;

verus! {

/// The physical sites that carry a sensor.
#[derive(Clone, Copy, Debug, PartialEq, Eq, Hash, Structural)]
pub enum SensorLocation {
    U4c,
    Jedilnica,
    U4b,
    Hodnik,
    Soba18,
    U11,
    U3a,
    Zbornica,
}

/// Number of known locations.
pub const LOCATION_COUNT: usize = 8;

impl SensorLocation {
    pub open spec fn spec_index(self) -> nat {
        match self {
            SensorLocation::U4c => 0,
            SensorLocation::Jedilnica => 1,
            SensorLocation::U4b => 2,
            SensorLocation::Hodnik => 3,
            SensorLocation::Soba18 => 4,
            SensorLocation::U11 => 5,
            SensorLocation::U3a => 6,
            SensorLocation::Zbornica => 7,
        }
    }

    /// Position of the location in declaration order (0 to 7).
    pub fn index(&self) -> (r: usize)
        ensures
            r == self.spec_index(),
            r < LOCATION_COUNT,
    {
        match self {
            SensorLocation::U4c => 0,
            SensorLocation::Jedilnica => 1,
            SensorLocation::U4b => 2,
            SensorLocation::Hodnik => 3,
            SensorLocation::Soba18 => 4,
            SensorLocation::U11 => 5,
            SensorLocation::U3a => 6,
            SensorLocation::Zbornica => 7,
        }
    }

    pub open spec fn spec_from_index(i: nat) -> SensorLocation {
        if i == 0 {
            SensorLocation::U4c
        } else if i == 1 {
            SensorLocation::Jedilnica
        } else if i == 2 {
            SensorLocation::U4b
        } else if i == 3 {
            SensorLocation::Hodnik
        } else if i == 4 {
            SensorLocation::Soba18
        } else if i == 5 {
            SensorLocation::U11
        } else if i == 6 {
            SensorLocation::U3a
        } else {
            SensorLocation::Zbornica
        }
    }

    /// The location at position `i` of declaration order.
    pub fn from_index(i: usize) -> (r: SensorLocation)
        requires
            i < LOCATION_COUNT,
        ensures
            r == Self::spec_from_index(i as nat),
            r.spec_index() == i,
    {
        if i == 0 {
            SensorLocation::U4c
        } else if i == 1 {
            SensorLocation::Jedilnica
        } else if i == 2 {
            SensorLocation::U4b
        } else if i == 3 {
            SensorLocation::Hodnik
        } else if i == 4 {
            SensorLocation::Soba18
        } else if i == 5 {
            SensorLocation::U11
        } else if i == 6 {
            SensorLocation::U3a
        } else {
            SensorLocation::Zbornica
        }
    }

    /// Administrative and common areas, left out of the training data.
    pub open spec fn spec_is_common_area(self) -> bool {
        self == SensorLocation::Jedilnica || self == SensorLocation::Hodnik
            || self == SensorLocation::Zbornica
    }

    pub fn is_common_area(&self) -> (r: bool)
        ensures
            r == self.spec_is_common_area(),
    {
        match self {
            SensorLocation::Jedilnica | SensorLocation::Hodnik | SensorLocation::Zbornica => true,
            _ => false,
        }
    }
}

/// The physical quantity that one sensor reading measures.
#[derive(Clone, Copy, Debug, PartialEq, Eq, Structural)]
pub enum Quantity {
    DewPoint,
    Luminance,
    VocIndex,
    Co2,
    AbsHumidity,
    Rh,
    Temperature,
    VecEqCo2,
}

/// Why a raw row could not be decoded.
#[derive(Clone, Copy, Debug, PartialEq, Eq, Structural)]
pub enum DecodeError {
    /// A required field is absent.
    Missing,
    /// The date or date-time text does not parse, or is not on a whole minute.
    BadTime,
    /// The sensor id or room code is unknown.
    UnknownLocation,
    /// The quantity name is unknown.
    UnknownQuantity,
    /// A count or slot number is not an integer.
    BadNumber,
    /// The slot number is not in the timetable.
    UnknownSlot,
}

/// Whether two texts are equal, character by character.
pub fn text_is(s: &str, lit: &str) -> (r: bool)
    ensures
        r == (s@ == lit@),
{
    let n = s.unicode_len();
    let m = lit.unicode_len();
    if n != m {
        return false;
    }
    let mut i: usize = 0;
    while i < n
        invariant
            n == s@.len(),
            m == lit@.len(),
            n == m,
            i <= n,
            s@.subrange(0, i as int) == lit@.subrange(0, i as int),
        decreases n - i,
    {
        if s.get_char(i) != lit.get_char(i) {
            return false;
        }
        assert(s@.subrange(0, i + 1) == s@.subrange(0, i as int).push(s@[i as int]));
        assert(lit@.subrange(0, i + 1) == lit@.subrange(0, i as int).push(lit@[i as int]));
        i += 1;
    }
    assert(s@ == s@.subrange(0, n as int));
    assert(lit@ == lit@.subrange(0, n as int));
    true
}

/// The location that a sensor id names.
pub open spec fn spec_sensor_location(id: Seq<char>) -> Option<SensorLocation> {
    if id == "aj-00"@ {
        Some(SensorLocation::U4c)
    } else if id == "aj-01"@ {
        Some(SensorLocation::Jedilnica)
    } else if id == "aj-02"@ {
        Some(SensorLocation::U4b)
    } else if id == "aj-03"@ {
        Some(SensorLocation::Hodnik)
    } else if id == "aj-04"@ {
        Some(SensorLocation::Soba18)
    } else if id == "aj-05"@ {
        Some(SensorLocation::U11)
    } else if id == "aj-06"@ {
        Some(SensorLocation::U3a)
    } else if id == "aj-07"@ {
        Some(SensorLocation::Zbornica)
    } else {
        None
    }
}

pub fn sensor_location(id: &str) -> (r: Option<SensorLocation>)
    ensures
        r == spec_sensor_location(id@),
{
    if text_is(id, "aj-00") {
        Some(SensorLocation::U4c)
    } else if text_is(id, "aj-01") {
        Some(SensorLocation::Jedilnica)
    } else if text_is(id, "aj-02") {
        Some(SensorLocation::U4b)
    } else if text_is(id, "aj-03") {
        Some(SensorLocation::Hodnik)
    } else if text_is(id, "aj-04") {
        Some(SensorLocation::Soba18)
    } else if text_is(id, "aj-05") {
        Some(SensorLocation::U11)
    } else if text_is(id, "aj-06") {
        Some(SensorLocation::U3a)
    } else if text_is(id, "aj-07") {
        Some(SensorLocation::Zbornica)
    } else {
        None
    }
}

/// The location that a room code of the timetable names.
pub open spec fn spec_room_location(room: Seq<char>) -> Option<SensorLocation> {
    if room == "U11"@ {
        Some(SensorLocation::U11)
    } else if room == "U18"@ {
        Some(SensorLocation::Soba18)
    } else if room == "U3A"@ {
        Some(SensorLocation::U3a)
    } else if room == "U4B"@ {
        Some(SensorLocation::U4b)
    } else if room == "U4C"@ {
        Some(SensorLocation::U4c)
    } else {
        None
    }
}

pub fn parse_location_sensor(room: Option<&str>) -> (r: Result<SensorLocation, DecodeError>)
    ensures
        match room {
            None => r == Err::<SensorLocation, DecodeError>(DecodeError::Missing),
            Some(s) => match spec_room_location(s@) {
                Some(l) => r == Ok::<SensorLocation, DecodeError>(l),
                None => r == Err::<SensorLocation, DecodeError>(DecodeError::UnknownLocation),
            },
        },
{
    match room {
        None => Err(DecodeError::Missing),
        Some(s) => if text_is(s, "U11") {
            Ok(SensorLocation::U11)
        } else if text_is(s, "U18") {
            Ok(SensorLocation::Soba18)
        } else if text_is(s, "U3A") {
            Ok(SensorLocation::U3a)
        } else if text_is(s, "U4B") {
            Ok(SensorLocation::U4b)
        } else if text_is(s, "U4C") {
            Ok(SensorLocation::U4c)
        } else {
            Err(DecodeError::UnknownLocation)
        },
    }
}

/// The quantity that a field name of the sensor export names.
pub open spec fn spec_quantity(field: Seq<char>) -> Option<Quantity> {
    if field == "dew_point"@ {
        Some(Quantity::DewPoint)
    } else if field == "luminance"@ {
        Some(Quantity::Luminance)
    } else if field == "voc_index"@ {
        Some(Quantity::VocIndex)
    } else if field == "co2"@ {
        Some(Quantity::Co2)
    } else if field == "abs_humidity"@ {
        Some(Quantity::AbsHumidity)
    } else if field == "RH"@ {
        Some(Quantity::Rh)
    } else if field == "temperature"@ {
        Some(Quantity::Temperature)
    } else if field == "voc_eq_co2"@ {
        Some(Quantity::VecEqCo2)
    } else {
        None
    }
}

pub fn quantity_of(field: &str) -> (r: Option<Quantity>)
    ensures
        r == spec_quantity(field@),
{
    if text_is(field, "dew_point") {
        Some(Quantity::DewPoint)
    } else if text_is(field, "luminance") {
        Some(Quantity::Luminance)
    } else if text_is(field, "voc_index") {
        Some(Quantity::VocIndex)
    } else if text_is(field, "co2") {
        Some(Quantity::Co2)
    } else if text_is(field, "abs_humidity") {
        Some(Quantity::AbsHumidity)
    } else if text_is(field, "RH") {
        Some(Quantity::Rh)
    } else if text_is(field, "temperature") {
        Some(Quantity::Temperature)
    } else if text_is(field, "voc_eq_co2") {
        Some(Quantity::VecEqCo2)
    } else {
        None
    }
}


/// A person count for one location during one minute.
#[derive(Clone, Copy, Debug, PartialEq, Eq, Structural)]
pub struct SensedPeople {
    pub sensor_location: SensorLocation,
    pub people: i32,
}

/// Whether `c` is a decimal digit.
pub open spec fn is_digit(c: char) -> bool {
    '0' <= c <= '9'
}

/// The value of a string of decimal digits.
pub open spec fn digits_value(s: Seq<char>) -> int
    decreases s.len(),
{
    if s.len() == 0 {
        0
    } else {
        digits_value(s.drop_last()) * 10 + (s.last() as int - '0' as int)
    }
}

/// Every character of `s` is a decimal digit.
pub open spec fn all_digits(s: Seq<char>) -> bool {
    forall|i: int| 0 <= i < s.len() ==> is_digit(#[trigger] s[i])
}

/// The integer that a text stands for as `str::parse::<i32>` reads it: an
/// optional `+` or `-`, then one or more decimal digits, within `i32`.
pub open spec fn i32_of(text: Seq<char>) -> Option<i32> {
    let neg = text.len() > 0 && text[0] == '-';
    let body = if text.len() > 0 && (text[0] == '-' || text[0] == '+') {
        text.skip(1)
    } else {
        text
    };
    let magnitude = digits_value(body);
    let value = if neg {
        -magnitude
    } else {
        magnitude
    };
    if body.len() > 0 && all_digits(body) && i32::MIN <= value <= i32::MAX {
        Some(value as i32)
    } else {
        None
    }
}

proof fn lemma_digits_grow(s: Seq<char>, n: int)
    requires
        0 <= n <= s.len(),
        forall|i: int| 0 <= i < s.len() ==> is_digit(#[trigger] s[i]),
    ensures
        digits_value(s) >= digits_value(s.take(n)) >= 0,
    decreases s.len(),
{
    if s.len() > 0 {
        if n == s.len() {
            assert(s.take(n) == s);
            lemma_digits_grow(s.drop_last(), s.len() - 1);
            assert(s.drop_last().take(s.len() - 1) == s.drop_last());
        } else {
            lemma_digits_grow(s.drop_last(), n);
            assert(s.drop_last().take(n) == s.take(n));
            lemma_digits_grow(s.drop_last(), s.drop_last().len() as int);
            assert(s.drop_last().take(s.drop_last().len() as int) == s.drop_last());
        }
    }
}

/// Reads a decimal integer: an optional sign and at least one digit, within
/// `i32`.
pub fn parse_i32(text: &str) -> (r: Option<i32>)
    ensures
        r == i32_of(text@),
{
    let n = text.unicode_len();
    let mut i: usize = 0;
    let mut neg = false;
    if n > 0 {
        let c = text.get_char(0);
        if c == '-' {
            neg = true;
            i = 1;
        } else if c == '+' {
            i = 1;
        }
    }
    let ghost body = text@.skip(i as int);
    proof {
        assert(neg == (text@.len() > 0 && text@[0] == '-'));
        assert(body == if text@.len() > 0 && (text@[0] == '-' || text@[0] == '+') {
            text@.skip(1)
        } else {
            text@
        });
    }
    if i >= n {
        return None;
    }
    let start = i;
    let mut magnitude: i64 = 0;
    while i < n
        invariant
            n == text@.len(),
            start <= i <= n,
            body == text@.skip(start as int),
            body == if text@.len() > 0 && (text@[0] == '-' || text@[0] == '+') {
                text@.skip(1)
            } else {
                text@
            },
            neg == (text@.len() > 0 && text@[0] == '-'),
            forall|k: int| 0 <= k < i - start ==> is_digit(#[trigger] body[k]),
            magnitude == digits_value(body.take(i - start)),
            0 <= magnitude <= 0x8000_0000,
        decreases n - i,
    {
        let c = text.get_char(i);
        if c < '0' || c > '9' {
            proof {
                assert(body[i - start] == c);
                assert(!is_digit(body[i - start]));
                assert(!all_digits(body));
            }
            return None;
        }
        proof {
            assert(body.take(i - start + 1).drop_last() == body.take(i - start));
            assert(body.take(i - start + 1).last() == c);
        }
        magnitude = magnitude * 10 + (c as i64 - '0' as i64);
        i += 1;
        if magnitude > 0x8000_0000 {
            proof {
                let j = i - start;
                assert(magnitude == digits_value(body.take(j)));
                if all_digits(body) {
                    lemma_digits_grow(body, j);
                    assert(digits_value(body) > 0x8000_0000);
                }
            }
            return None;
        }
    }
    proof {
        assert(body.take(i - start) == body);
        assert(all_digits(body));
    }
    if neg {
        Some((0 - magnitude) as i32)
    } else if magnitude > 0x7fff_ffff {
        None
    } else {
        Some(magnitude as i32)
    }
}

/// The lesson timetable: for a slot number, the minute of day at which it
/// starts and its length in minutes.
pub open spec fn spec_slot_schedule(slot: int) -> Option<(u32, u32)> {
    if slot == 0 {
        Some((450u32, 30u32))
    } else if slot == 1 {
        Some((480u32, 50u32))
    } else if slot == 2 {
        Some((530u32, 50u32))
    } else if slot == 3 {
        Some((580u32, 70u32))
    } else if slot == 4 {
        Some((650u32, 50u32))
    } else if slot == 5 {
        Some((700u32, 50u32))
    } else if slot == 6 {
        Some((750u32, 50u32))
    } else if slot == 7 {
        Some((800u32, 50u32))
    } else if slot == 8 {
        Some((850u32, 45u32))
    } else {
        None
    }
}

pub fn slot_schedule(slot: i32) -> (r: Option<(u32, u32)>)
    ensures
        r == spec_slot_schedule(slot as int),
        r matches Some(p) ==> p.0 + p.1 <= MINUTES_PER_DAY,
{
    match slot {
        0 => Some((450, 30)),
        1 => Some((480, 50)),
        2 => Some((530, 50)),
        3 => Some((580, 70)),
        4 => Some((650, 50)),
        5 => Some((700, 50)),
        6 => Some((750, 50)),
        7 => Some((800, 50)),
        8 => Some((850, 45)),
        _ => None,
    }
}

/// The day number of a timetable date, as chrono reads it once the date is
/// completed with a time of day.
pub open spec fn spec_slot_day(date: Seq<char>) -> Option<i32> {
    match spec_parse_timestamp(date + "T00:00:00Z"@, "%Y-%m-%dT%H:%M:%S%Z"@) {
        Some(t) => Some(t.day),
        None => None,
    }
}

/// Start and length of a timetable slot on a date, or why there is none.
pub open spec fn spec_slot_time(date: Option<Seq<char>>, time: Option<Seq<char>>) -> Result<(Timestamp, u32), DecodeError> {
    match time {
        None => Err(DecodeError::Missing),
        Some(t) => match date {
            None => Err(DecodeError::Missing),
            Some(d) => match i32_of(t) {
                None => Err(DecodeError::UnknownSlot),
                Some(n) => match spec_slot_schedule(n as int) {
                    None => Err(DecodeError::UnknownSlot),
                    Some((start, len)) => match spec_slot_day(d) {
                        None => Err(DecodeError::BadTime),
                        Some(day) => Ok((Timestamp { day, minute: start }, len)),
                    },
                },
            },
        },
    }
}

pub open spec fn opt_view(s: Option<&str>) -> Option<Seq<char>> {
    match s {
        Some(x) => Some(x@),
        None => None,
    }
}

/// Start time and length in minutes of lesson slot `time` on `date`.
pub fn get_slot_time(date: Option<&str>, time: Option<&str>) -> (r: Result<(Timestamp, u32), DecodeError>)
    ensures
        r == spec_slot_time(opt_view(date), opt_view(time)),
        r matches Ok(p) ==> p.0.wf() && p.0.minute + p.1 <= MINUTES_PER_DAY,
{
    let t = match time {
        None => return Err(DecodeError::Missing),
        Some(t) => t,
    };
    let d = match date {
        None => return Err(DecodeError::Missing),
        Some(d) => d,
    };
    let n = match parse_i32(t) {
        None => return Err(DecodeError::UnknownSlot),
        Some(n) => n,
    };
    let (start, len) = match slot_schedule(n) {
        None => return Err(DecodeError::UnknownSlot),
        Some(p) => p,
    };
    let text = String::from_str(d).concat("T00:00:00Z");
    match parse_timestamp(text.as_str(), "%Y-%m-%dT%H:%M:%S%Z") {
        None => Err(DecodeError::BadTime),
        Some(ts) => Ok((Timestamp { day: ts.day, minute: start }, len)),
    }
}

/// The minutes of a slot that starts at `start` and lasts `len` minutes.
pub open spec fn spec_slot_minutes(start: Timestamp, len: nat) -> Seq<Timestamp> {
    Seq::new(len, |i: int| Timestamp { day: start.day, minute: (start.minute + i) as u32 })
}

/// Every minute of a slot that starts at `start` and lasts `len` minutes.
pub fn slot_minutes(start: Timestamp, len: u32) -> (r: Vec<Timestamp>)
    requires
        start.minute + len <= MINUTES_PER_DAY,
    ensures
        r@ == spec_slot_minutes(start, len as nat),
        forall|i: int| 0 <= i < r@.len() ==> (#[trigger] r@[i]).wf(),
{
    let mut out: Vec<Timestamp> = Vec::new();
    let mut i: u32 = 0;
    while i < len
        invariant
            i <= len,
            start.minute + len <= MINUTES_PER_DAY,
            out@ == spec_slot_minutes(start, i as nat),
        decreases len - i,
    {
        out.push(Timestamp { day: start.day, minute: start.minute + i });
        i += 1;
        assert(out@ =~= spec_slot_minutes(start, i as nat));
    }
    out
}

/// The minutes of lesson slot `time` on `date`.
pub fn parse_location_times(date: Option<&str>, time: Option<&str>) -> (r: Result<Vec<Timestamp>, DecodeError>)
    ensures
        match spec_slot_time(opt_view(date), opt_view(time)) {
            Ok((start, len)) => r matches Ok(v) && v@ == spec_slot_minutes(start, len as nat),
            Err(e) => r == Err::<Vec<Timestamp>, DecodeError>(e),
        },
{
    let (start, len) = get_slot_time(date, time)?;
    Ok(slot_minutes(start, len))
}

/// The per-minute person counts of one timetable row: each minute of the
/// slot, with the room and the count of the row.
pub open spec fn spec_expansion(start: Timestamp, len: nat, room: SensorLocation, people: i32) -> Seq<(Timestamp, SensedPeople)> {
    Seq::new(len, |i: int| (
        Timestamp { day: start.day, minute: (start.minute + i) as u32 },
        SensedPeople { sensor_location: room, people },
    ))
}

/// The row decoded from a timetable row, or why it is refused.
pub open spec fn spec_sensed_people(
    date: Option<Seq<char>>,
    time: Option<Seq<char>>,
    room: Option<Seq<char>>,
    people: Option<Seq<char>>,
) -> Result<(Timestamp, u32, SensorLocation, i32), DecodeError> {
    match spec_slot_time(date, time) {
        Err(e) => Err(e),
        Ok((start, len)) => match room {
            None => Err(DecodeError::Missing),
            Some(r) => match spec_room_location(r) {
                None => Err(DecodeError::UnknownLocation),
                Some(loc) => match people {
                    None => Err(DecodeError::Missing),
                    Some(p) => match i32_of(p) {
                        None => Err(DecodeError::BadNumber),
                        Some(n) => Ok((start, len, loc, n)),
                    },
                },
            },
        },
    }
}

impl SensedPeople {
    /// Expands one timetable row (date, slot number, room code, count) into a
    /// count for every minute of the slot.
    pub fn from(date: Option<&str>, time: Option<&str>, room: Option<&str>, people: Option<&str>) -> (r: Result<Vec<(Timestamp, SensedPeople)>, DecodeError>)
        ensures
            match spec_sensed_people(opt_view(date), opt_view(time), opt_view(room), opt_view(people)) {
                Ok((start, len, loc, n)) => r matches Ok(v) && v@ == spec_expansion(start, len as nat, loc, n),
                Err(e) => r == Err::<Vec<(Timestamp, SensedPeople)>, DecodeError>(e),
            },
    {
        let times = parse_location_times(date, time)?;
        let loc = parse_location_sensor(room)?;
        let n = match people {
            None => return Err(DecodeError::Missing),
            Some(p) => match parse_i32(p) {
                None => return Err(DecodeError::BadNumber),
                Some(n) => n,
            },
        };
        let ghost slot = spec_slot_time(opt_view(date), opt_view(time));
        let mut out: Vec<(Timestamp, SensedPeople)> = Vec::new();
        let mut i: usize = 0;
        while i < times.len()
            invariant
                slot matches Ok((start, len)) && times@ == spec_slot_minutes(start, len as nat)
                    && out@ == spec_expansion(start, i as nat, loc, n),
                i <= times@.len(),
            decreases times@.len() - i,
        {
            out.push((times[i], SensedPeople { sensor_location: loc, people: n }));
            i += 1;
            proof {
                let (start, len) = slot->Ok_0;
                assert(out@ =~= spec_expansion(start, i as nat, loc, n));
            }
        }
        Ok(out)
    }
}


/// Occupancy expansion: for a timetable slot on any day, the expansion of a
/// row holds exactly the slot's length in minutes of facts, one per
/// consecutive minute from the slot's start, all inside the day, each with
/// the row's room and count.
pub proof fn lemma_slot_expansion(day: i32, slot: int, room: SensorLocation, people: i32)
    requires
        spec_slot_schedule(slot) is Some,
    ensures
        ({
            let (start, len) = spec_slot_schedule(slot)->Some_0;
            let facts = spec_expansion(Timestamp { day, minute: start }, len as nat, room, people);
            &&& facts.len() == len
            &&& forall|i: int| 0 <= i < facts.len() ==> (#[trigger] facts[i]).1 == SensedPeople { sensor_location: room, people }
                && facts[i].0.day == day && facts[i].0.minute == start + i && facts[i].0.wf()
        }),
{
}

} // verus!
