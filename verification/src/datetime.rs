//! Dates, times of day and lengths of time, and the serial numbers that stand for them in
//! a document.
//!
//! A document stores a point in time as a serial: its distance from the epoch of the
//! document's date system. Here a serial counts milliseconds. Resolving a serial against a
//! date system gives a calendar timestamp, and a timestamp gives its serial back.

use crate::binary64::Binary64;
use crate::calendar::{
    date_in_range, day_number, day_number_of, div_floor, lemma_date_exists,
    lemma_day_number_injective, lemma_days_before_month, lemma_within_year, lemma_years_apart,
    mod_floor, valid_date,
};
use vstd::prelude::*;

verus! {

/// The number of milliseconds of a day.
pub const MILLIS_PER_DAY: i64 = 86_400_000;

/// The day from which a document counts its serials.
#[derive(Clone, Copy, Debug, PartialEq, Eq, Structural)]
pub enum DateSystem {
    /// Serials count from 30 December 1899, so that 1 March 1900 and every day after it
    /// has the serial that spreadsheets give it.
    Epoch1900,
    /// Serials count from 1 January 1904.
    Epoch1904,
}

impl DateSystem {
    /// The day number of the epoch.
    pub open spec fn epoch(self) -> int {
        match self {
            DateSystem::Epoch1900 => day_number(1899, 12, 30),
            DateSystem::Epoch1904 => day_number(1904, 1, 1),
        }
    }

    /// The day number of the epoch.
    pub fn epoch_day(self) -> (r: i64)
        ensures
            r == self.epoch(),
            r == 693593 || r == 695055,
    {
        proof {
            lemma_days_before_month(1899);
            lemma_days_before_month(1904);
        }
        match self {
            DateSystem::Epoch1900 => 693593,
            DateSystem::Epoch1904 => 695055,
        }
    }
}

/// A point in time or a length of time as a document stores it: a count of milliseconds,
/// for a point in time from the epoch of the document's date system.
#[derive(Clone, Copy, Debug, PartialEq, Eq, Structural)]
pub struct Serial {
    /// The milliseconds: after the epoch, or before it where they are negative.
    pub millis: i64,
}

/// A time of day, to the millisecond.
#[derive(Clone, Copy, Debug, PartialEq, Eq, Structural)]
pub struct TimeOfDay {
    pub hour: u8,
    pub minute: u8,
    pub second: u8,
    pub millisecond: u16,
}

/// A calendar timestamp: a date, and a time of day unless the timestamp is a date only.
#[derive(Clone, Copy, Debug, PartialEq, Eq)]
pub struct DateTime {
    pub year: i32,
    pub month: u8,
    pub day: u8,
    /// `None` for a date only, which stands for the start of its day; otherwise a time
    /// after midnight.
    pub time: Option<TimeOfDay>,
}

/// A length of time, split into whole days and the rest of a day. The days may be
/// negative; the rest never is.
#[derive(Clone, Copy, Debug, PartialEq, Eq, Structural)]
pub struct TimeSpan {
    /// The whole days, rounded down.
    pub days: i64,
    /// What is left of the length of time behind the whole days.
    pub rest: TimeOfDay,
}

impl TimeOfDay {
    /// Each field is in its range.
    pub open spec fn wf(self) -> bool {
        self.hour < 24 && self.minute < 60 && self.second < 60 && self.millisecond < 1000
    }

    /// The milliseconds since midnight.
    pub open spec fn millis(self) -> int {
        ((self.hour * 60 + self.minute) * 60 + self.second) * 1000 + self.millisecond
    }

    /// The time of day with the given fields: `Some` exactly when each is in its range.
    pub fn new(hour: u8, minute: u8, second: u8, millisecond: u16) -> (r: Option<TimeOfDay>)
        ensures
            r == if (TimeOfDay { hour, minute, second, millisecond }).wf() {
                Some(TimeOfDay { hour, minute, second, millisecond })
            } else {
                None
            },
    {
        let time = TimeOfDay { hour, minute, second, millisecond };
        if time.is_valid() {
            Some(time)
        } else {
            None
        }
    }

    /// The time of day that many milliseconds after midnight: `Some` exactly when that is
    /// less than a day.
    pub fn from_millis(millis: u32) -> (r: Option<TimeOfDay>)
        ensures
            r is Some <==> millis < MILLIS_PER_DAY,
            r matches Some(t) ==> t.wf() && t.millis() == millis,
    {
        if millis >= 86_400_000 {
            None
        } else {
            Some(TimeOfDay::within_day(millis))
        }
    }

    /// The time of day that many milliseconds after midnight.
    pub(crate) fn within_day(millis: u32) -> (r: TimeOfDay)
        requires
            millis < MILLIS_PER_DAY,
        ensures
            r.wf(),
            r.millis() == millis,
    {
        let hour: u32 = millis / 3_600_000;
        let minute: u32 = (millis / 60_000) % 60;
        let second: u32 = (millis / 1000) % 60;
        let millisecond: u32 = millis % 1000;
        TimeOfDay {
            hour: hour as u8,
            minute: minute as u8,
            second: second as u8,
            millisecond: millisecond as u16,
        }
    }

    /// Whether each field is in its range.
    pub fn is_valid(self) -> (r: bool)
        ensures
            r == self.wf(),
    {
        self.hour < 24 && self.minute < 60 && self.second < 60 && self.millisecond < 1000
    }

    /// The milliseconds since midnight, which are less than a day where each field is in
    /// its range.
    pub fn to_millis(self) -> (r: u32)
        ensures
            r == self.millis(),
            self.wf() ==> r < MILLIS_PER_DAY,
    {
        ((self.hour as u32 * 60 + self.minute as u32) * 60 + self.second as u32) * 1000
            + self.millisecond as u32
    }

    /// Whether the time is midnight.
    pub fn is_midnight(self) -> (r: bool)
        ensures
            r == (self.hour == 0 && self.minute == 0 && self.second == 0 && self.millisecond
                == 0),
            self.wf() ==> r == (self.millis() == 0),
    {
        self.hour == 0 && self.minute == 0 && self.second == 0 && self.millisecond == 0
    }
}

/// Two times of day with the same milliseconds since midnight are the same.
pub proof fn lemma_time_of_day_injective(a: TimeOfDay, b: TimeOfDay)
    requires
        a.wf(),
        b.wf(),
        a.millis() == b.millis(),
    ensures
        a == b,
{
}

impl DateTime {
    /// The date is a day of the calendar, and the time of day, where there is one, has
    /// its fields in range.
    pub open spec fn valid(self) -> bool {
        &&& valid_date(self.year as int, self.month as int, self.day as int)
        &&& self.time matches Some(t) ==> t.wf()
    }

    /// The timestamp is valid, and its time of day, where there is one, is not midnight:
    /// the start of a day is written as a date only. No two such timestamps stand for one
    /// point in time.
    pub open spec fn wf(self) -> bool {
        &&& self.valid()
        &&& self.time matches Some(t) ==> t.millis() > 0
    }

    /// The day number of the date.
    pub open spec fn day(self) -> int {
        day_number(self.year as int, self.month as int, self.day as int)
    }

    /// The milliseconds since midnight.
    pub open spec fn millis_of_day(self) -> int {
        match self.time {
            Some(t) => t.millis(),
            None => 0,
        }
    }

    /// The milliseconds from the epoch of `system` to the timestamp.
    pub open spec fn offset_millis(self, system: DateSystem) -> int {
        (self.day() - system.epoch()) * MILLIS_PER_DAY + self.millis_of_day()
    }

    /// The serial of a valid timestamp in `system`, where an `i64` can hold it.
    pub open spec fn serial(self, system: DateSystem) -> Option<Serial> {
        if self.valid() && i64::MIN <= self.offset_millis(system) <= i64::MAX {
            Some(Serial { millis: self.offset_millis(system) as i64 })
        } else {
            None
        }
    }

    /// The timestamp with the given date and time of day: `Some` exactly when the date is
    /// a day of the calendar and the fields of the time are in range. Midnight makes a
    /// date only.
    pub fn new(year: i32, month: u8, day: u8, time: Option<TimeOfDay>) -> (r: Option<DateTime>)
        ensures
            r is Some <==> valid_date(year as int, month as int, day as int) && (time matches Some(
                t,
            ) ==> t.wf()),
            r matches Some(dt) ==> {
                &&& dt.wf()
                &&& dt.year == year
                &&& dt.month == month
                &&& dt.day == day
                &&& dt.millis_of_day() == (DateTime { year, month, day, time }).millis_of_day()
            },
    {
        if day_number_of(year, month, day).is_none() {
            return None;
        }
        match time {
            None => Some(DateTime { year, month, day, time: None }),
            Some(t) => {
                if !t.is_valid() {
                    None
                } else if t.is_midnight() {
                    Some(DateTime { year, month, day, time: None })
                } else {
                    Some(DateTime { year, month, day, time })
                }
            },
        }
    }

    /// Whether the timestamp is a date without a time of day.
    pub fn is_date_only(&self) -> (r: bool)
        ensures
            r == (self.time is None),
    {
        self.time.is_none()
    }

    /// The serial of the timestamp in `system`: `Some` exactly when the timestamp is
    /// valid and an `i64` can hold the milliseconds from the epoch to it.
    pub fn to_serial(&self, system: DateSystem) -> (r: Option<Serial>)
        ensures
            r == self.serial(system),
    {
        let day: i64 = match day_number_of(self.year, self.month, self.day) {
            Some(n) => n,
            None => {
                return None;
            },
        };
        let of_day: i64 = match self.time {
            Some(t) => {
                if !t.is_valid() {
                    return None;
                }
                t.to_millis() as i64
            },
            None => 0,
        };
        let offset: i128 = (day as i128 - system.epoch_day() as i128) * 86_400_000 + of_day as i128;
        if offset < i64::MIN as i128 || offset > i64::MAX as i128 {
            None
        } else {
            Some(Serial { millis: offset as i64 })
        }
    }
}

/// Two timestamps with the same distance from the epoch are the same.
pub proof fn lemma_offset_injective(a: DateTime, b: DateTime, system: DateSystem)
    requires
        a.wf(),
        b.wf(),
        a.offset_millis(system) == b.offset_millis(system),
    ensures
        a == b,
{
    assert(0 <= a.millis_of_day() < MILLIS_PER_DAY);
    assert(0 <= b.millis_of_day() < MILLIS_PER_DAY);
    assert(a.day() == b.day());
    lemma_day_number_injective(
        a.year as int,
        a.month as int,
        a.day as int,
        b.year as int,
        b.month as int,
        b.day as int,
    );
    if a.time is Some && b.time is Some {
        lemma_time_of_day_injective(a.time->0, b.time->0);
    }
}

impl Serial {
    /// The timestamp that lies `self.millis` milliseconds from the epoch of `system`.
    pub open spec fn datetime(self, system: DateSystem) -> DateTime {
        choose|dt: DateTime| dt.wf() && dt.offset_millis(system) == self.millis
    }

    /// The length of time of `self.millis` milliseconds.
    pub open spec fn time_span(self) -> TimeSpan {
        choose|span: TimeSpan| span.wf() && span.millis() == self.millis
    }

    /// The serial that stands for a number of days: the days times the milliseconds of a
    /// day, rounded to the nearest millisecond.
    pub open spec fn of_days(days: Binary64) -> Option<Serial> {
        match days.rounded_product(86_400_000) {
            Some(millis) => Some(Serial { millis }),
            None => None,
        }
    }

    /// The serial that stands for a number of days, as documents store points in time
    /// and lengths of time: `Some` exactly when the number is finite and its milliseconds,
    /// rounded to the nearest with a half away from zero, lie in the range of `i64`.
    pub fn from_days(days: Binary64) -> (r: Option<Serial>)
        ensures
            r == Serial::of_days(days),
    {
        match days.times_rounded(86_400_000) {
            Some(millis) => Some(Serial { millis }),
            None => None,
        }
    }

    /// Resolves the serial against a date system. Every serial is the serial of exactly
    /// one timestamp.
    pub fn to_datetime(self, system: DateSystem) -> (r: DateTime)
        ensures
            r.wf(),
            r.offset_millis(system) == self.millis,
            r == self.datetime(system),
    {
        let days: i64 = div_floor(self.millis, MILLIS_PER_DAY);
        let of_day: i64 = mod_floor(self.millis, MILLIS_PER_DAY);
        let (year, month, day) = date_in_range(system.epoch_day() + days);
        let time: Option<TimeOfDay> = if of_day == 0 {
            None
        } else {
            Some(TimeOfDay::within_day(of_day as u32))
        };
        let r = DateTime { year, month, day, time };
        proof {
            assert(r.wf() && r.offset_millis(system) == self.millis);
            lemma_offset_injective(r, self.datetime(system), system);
        }
        r
    }

    /// Splits the serial of a length of time into whole days and the rest of a day.
    pub fn to_time_span(self) -> (r: TimeSpan)
        ensures
            r.wf(),
            r.millis() == self.millis,
            r == self.time_span(),
    {
        let days: i64 = div_floor(self.millis, MILLIS_PER_DAY);
        let of_day: i64 = mod_floor(self.millis, MILLIS_PER_DAY);
        let r = TimeSpan { days, rest: TimeOfDay::within_day(of_day as u32) };
        proof {
            assert(r.wf() && r.millis() == self.millis);
            lemma_span_injective(r, self.time_span());
        }
        r
    }
}

impl TimeSpan {
    /// The rest of a day has its fields in range.
    pub open spec fn wf(self) -> bool {
        self.rest.wf()
    }

    /// The length in milliseconds.
    pub open spec fn millis(self) -> int {
        self.days * MILLIS_PER_DAY + self.rest.millis()
    }

    /// The serial of the length of time, where the rest of a day has its fields in range
    /// and an `i64` can hold the milliseconds.
    pub open spec fn serial(self) -> Option<Serial> {
        if self.wf() && i64::MIN <= self.millis() <= i64::MAX {
            Some(Serial { millis: self.millis() as i64 })
        } else {
            None
        }
    }

    /// The serial of the length of time: `Some` exactly when the rest of a day has its
    /// fields in range and an `i64` can hold the milliseconds.
    pub fn to_serial(&self) -> (r: Option<Serial>)
        ensures
            r == self.serial(),
    {
        if !self.rest.is_valid() {
            return None;
        }
        let total: i128 = self.days as i128 * 86_400_000 + self.rest.to_millis() as i128;
        if total < i64::MIN as i128 || total > i64::MAX as i128 {
            None
        } else {
            Some(Serial { millis: total as i64 })
        }
    }
}

/// Two lengths of time with the same milliseconds are the same.
pub proof fn lemma_span_injective(a: TimeSpan, b: TimeSpan)
    requires
        a.wf(),
        b.wf(),
        a.millis() == b.millis(),
    ensures
        a == b,
{
    assert(0 <= a.rest.millis() < MILLIS_PER_DAY);
    assert(0 <= b.rest.millis() < MILLIS_PER_DAY);
    assert(a.days == b.days);
    lemma_time_of_day_injective(a.rest, b.rest);
}

/// Resolving a serial against a date system and taking the serial of the timestamp gives
/// the serial back, whatever the serial and the date system.
pub proof fn lemma_serial_round_trip(serial: Serial, system: DateSystem)
    ensures
        serial.datetime(system).wf(),
        serial.datetime(system).serial(system) == Some(serial),
{
    lemma_timestamp_exists(serial, system);
}

/// Taking the serial of a timestamp and resolving it gives the timestamp back, where the
/// timestamp has a serial.
pub proof fn lemma_datetime_round_trip(dt: DateTime, system: DateSystem)
    requires
        dt.wf(),
        dt.serial(system) is Some,
    ensures
        dt.serial(system)->0.datetime(system) == dt,
{
    let serial = dt.serial(system)->0;
    lemma_offset_injective(dt, serial.datetime(system), system);
}

/// Splitting the serial of a length of time and putting it together again gives the
/// serial back.
pub proof fn lemma_span_round_trip(serial: Serial)
    ensures
        serial.time_span().wf(),
        serial.time_span().serial() == Some(serial),
{
    let days = serial.millis as int / MILLIS_PER_DAY as int;
    let of_day = serial.millis as int % MILLIS_PER_DAY as int;
    let rest = TimeOfDay {
        hour: (of_day / 3_600_000) as u8,
        minute: ((of_day / 60_000) % 60) as u8,
        second: ((of_day / 1000) % 60) as u8,
        millisecond: (of_day % 1000) as u16,
    };
    let span = TimeSpan { days: days as i64, rest };
    assert(span.wf() && span.millis() == serial.millis);
}

/// Some timestamp lies at each serial.
proof fn lemma_timestamp_exists(serial: Serial, system: DateSystem)
    ensures
        exists|dt: DateTime| dt.wf() && dt.offset_millis(system) == serial.millis,
{
    let days = serial.millis as int / MILLIS_PER_DAY as int;
    let of_day = serial.millis as int % MILLIS_PER_DAY as int;
    let n = system.epoch() + days;
    lemma_days_before_month(1899);
    lemma_days_before_month(1904);
    lemma_date_exists(n);
    let (y, m, d) = choose|year: int, month: int, day: int|
        valid_date(year, month, day) && day_number(year, month, day) == n;
    lemma_within_year(y, m, d);
    if y < i32::MIN {
        lemma_years_apart(y + 1, i32::MIN as int);
    }
    if y > i32::MAX {
        lemma_years_apart(i32::MAX as int + 1, y);
    }
    let time = if of_day == 0 {
        None
    } else {
        Some(
            TimeOfDay {
                hour: (of_day / 3_600_000) as u8,
                minute: ((of_day / 60_000) % 60) as u8,
                second: ((of_day / 1000) % 60) as u8,
                millisecond: (of_day % 1000) as u16,
            },
        )
    };
    let dt = DateTime { year: y as i32, month: m as u8, day: d as u8, time };
    assert(dt.wf() && dt.offset_millis(system) == serial.millis);
}

} // verus!
