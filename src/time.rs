//! Minute-granular civil timestamps and the calendar facts the engine needs.
use chrono::{Datelike, NaiveDate, NaiveDateTime, Timelike};
use vstd::prelude::*;

verus! {

/// Minutes in one civil day.
pub const MINUTES_PER_DAY: u32 = 1440;

/// A civil date-time at minute granularity: a day number in the proleptic
/// Gregorian calendar (1 is January 1 of year 1) and the minute of that day.
#[derive(Clone, Copy, Debug, PartialEq, Eq, Structural)]
pub struct Timestamp {
    pub day: i32,
    pub minute: u32,
}

impl Timestamp {
    /// A timestamp is valid when its minute lies inside its day.
    pub open spec fn wf(self) -> bool {
        self.minute < MINUTES_PER_DAY
    }

    /// Minutes elapsed since the start of day 0: the total order of timestamps.
    pub open spec fn abs(self) -> int {
        self.day * 1440 + self.minute
    }

    /// The hour of day.
    pub open spec fn spec_hour(self) -> int {
        self.minute as int / 60
    }

    pub fn hour(&self) -> (r: u32)
        ensures
            r == self.spec_hour(),
    {
        self.minute / 60
    }

    /// Minutes elapsed since the start of day 0, as a machine integer.
    pub fn total_minutes(&self) -> (r: i64)
        requires
            self.wf(),
        ensures
            r == self.abs(),
    {
        self.day as i64 * 1440 + self.minute as i64
    }

    /// The timestamp `k` minutes later.
    pub open spec fn spec_plus(self, k: nat) -> Timestamp {
        Timestamp {
            day: (self.day + (self.minute + k) / 1440) as i32,
            minute: ((self.minute + k) % 1440) as u32,
        }
    }

    /// The timestamp `k` minutes later, when `k` is short of the gap to `bound`.
    pub fn plus_minutes(&self, k: u64, bound: &Timestamp) -> (r: Timestamp)
        requires
            self.wf(),
            bound.wf(),
            self.abs() + k < bound.abs(),
        ensures
            r == self.spec_plus(k as nat),
            r.wf(),
            r.abs() == self.abs() + k,
    {
        let total: u64 = self.minute as u64 + k;
        let carry: u64 = total / 1440;
        let minute: u64 = total % 1440;
        proof {
            assert(total == carry * 1440 + minute) by (nonlinear_arith)
                requires
                    carry == total / 1440,
                    minute == total % 1440,
            ;
            assert(self.day + carry <= bound.day) by (nonlinear_arith)
                requires
                    total == carry * 1440 + minute,
                    total == self.minute + k,
                    self.day * 1440 + self.minute + k < bound.day * 1440 + bound.minute,
                    bound.minute < 1440,
                    0 <= minute,
            ;
        }
        Timestamp { day: (self.day as i64 + carry as i64) as i32, minute: minute as u32 }
    }
}

/// What chrono reads from `text` under `format`, as a day number (counted as
/// `Datelike::num_days_from_ce` counts) and the seconds since midnight.
pub uninterp spec fn date_time_of(text: Seq<char>, format: Seq<char>) -> Option<(i32, u32)>;

/// The (month, day of month) that chrono gives for a day number, if in range.
pub uninterp spec fn month_day_of(day: i32) -> Option<(u32, u32)>;

/// Relies on `chrono::NaiveDateTime::parse_from_str` to read a date-time, then
/// on `num_days_from_ce` and `num_seconds_from_midnight` (below 86400) to
/// report it.
#[verifier::external_body]
fn read_date_time(text: &str, format: &str) -> (r: Option<(i32, u32)>)
    ensures
        r == date_time_of(text@, format@),
        r matches Some(p) ==> p.1 < 86400,
{
    match NaiveDateTime::parse_from_str(text, format) {
        Ok(t) => Some((t.date().num_days_from_ce(), t.time().num_seconds_from_midnight())),
        Err(_) => None,
    }
}

/// Relies on `chrono::NaiveDate::from_num_days_from_ce_opt`, then on
/// `Datelike::month` (1 to 12) and `Datelike::day` (1 to 31).
#[verifier::external_body]
pub(crate) fn read_month_day(day: i32) -> (r: Option<(u32, u32)>)
    ensures
        r == month_day_of(day),
        r matches Some(p) ==> 1 <= p.0 <= 12 && 1 <= p.1 <= 31,
{
    NaiveDate::from_num_days_from_ce_opt(day).map(|d| (d.month(), d.day()))
}

/// The timestamp that a parse of `text` under `format` stands for: present
/// when chrono reads it and it falls on a whole minute.
pub open spec fn spec_parse_timestamp(text: Seq<char>, format: Seq<char>) -> Option<Timestamp> {
    match date_time_of(text, format) {
        Some((day, secs)) => if secs % 60 == 0 && secs < 86400 {
            Some(Timestamp { day, minute: (secs / 60) as u32 })
        } else {
            None
        },
        None => None,
    }
}

/// Reads a timestamp from `text` under a chrono `format`; `None` when chrono
/// refuses the text or the time has a seconds part.
pub fn parse_timestamp(text: &str, format: &str) -> (r: Option<Timestamp>)
    ensures
        r == spec_parse_timestamp(text@, format@),
        r matches Some(t) ==> t.wf(),
{
    match read_date_time(text, format) {
        Some((day, secs)) => if secs % 60 == 0 {
            Some(Timestamp { day, minute: secs / 60 })
        } else {
            None
        },
        None => None,
    }
}

} // verus!
