use vstd::prelude::*;

verus! {

/// Seconds in one day.
pub const SECONDS_PER_DAY: i64 = 86400;

/// A bound on the size of every moment's instant (two to the power 48).
pub const INSTANT_BOUND: i64 = 281474976710656;

/// A calendar date in the proleptic Gregorian calendar, with a four-digit year.
#[derive(Clone, Copy, Debug, PartialEq, Eq, Structural)]
pub struct CivilDate {
    pub year: u16,
    pub month: u8,
    pub day: u8,
}

/// A time of day, to the second.
#[derive(Clone, Copy, Debug, PartialEq, Eq, Structural)]
pub struct TimeOfDay {
    pub hour: u8,
    pub minute: u8,
    pub second: u8,
}

/// A moment in UTC: the date and the time of day.
#[derive(Clone, Copy, Debug, PartialEq, Eq, Structural)]
pub struct UtcStamp {
    pub date: CivilDate,
    pub time: TimeOfDay,
}

pub open spec fn is_leap_year(year: int) -> bool {
    year % 4 == 0 && (year % 100 != 0 || year % 400 == 0)
}

pub open spec fn days_in_month(year: int, month: int) -> int {
    if month == 2 {
        if is_leap_year(year) { 29 } else { 28 }
    } else if month == 4 || month == 6 || month == 9 || month == 11 {
        30
    } else {
        31
    }
}

/// A day that exists in the calendar.
pub open spec fn is_calendar_date(year: int, month: int, day: int) -> bool {
    1 <= month <= 12 && 1 <= day <= days_in_month(year, month)
}

impl CivilDate {
    pub open spec fn wf(self) -> bool {
        self.year <= 9999 && is_calendar_date(self.year as int, self.month as int, self.day as int)
    }
}

impl TimeOfDay {
    pub open spec fn wf(self) -> bool {
        self.hour < 24 && self.minute < 60 && self.second < 60
    }

    pub open spec fn seconds(self) -> int {
        self.hour * 3600 + self.minute * 60 + self.second
    }

    /// Seconds since midnight.
    pub fn seconds_of_day(&self) -> (r: i64)
        ensures
            r == self.seconds(),
    {
        self.hour as i64 * 3600 + self.minute as i64 * 60 + self.second as i64
    }
}

impl UtcStamp {
    pub open spec fn wf(self) -> bool {
        self.date.wf() && self.time.wf()
    }

    /// The moment as a count of seconds on one continuous scale.
    pub open spec fn instant(self) -> int {
        days_from_ce(self.date.year as int, self.date.month as int, self.date.day as int)
            * SECONDS_PER_DAY + self.time.seconds()
    }
}

/// Days in the years before `year`.
pub open spec fn days_before_year(year: int) -> int {
    365 * (year - 1) + (year - 1) / 4 - (year - 1) / 100 + (year - 1) / 400
}

/// Days in the months of `year` before `month`.
pub open spec fn days_before_month(year: int, month: int) -> int {
    let common = if month <= 1 {
        0int
    } else if month == 2 {
        31
    } else if month == 3 {
        59
    } else if month == 4 {
        90
    } else if month == 5 {
        120
    } else if month == 6 {
        151
    } else if month == 7 {
        181
    } else if month == 8 {
        212
    } else if month == 9 {
        243
    } else if month == 10 {
        273
    } else if month == 11 {
        304
    } else {
        334
    };
    common + if month > 2 && is_leap_year(year) {
        1int
    } else {
        0
    }
}

/// The number of the day in the proleptic Gregorian calendar, counted so
/// that January 1 of the year 1 is day 1.
pub open spec fn days_from_ce(year: int, month: int, day: int) -> int {
    days_before_year(year) + days_before_month(year, month) + day
}

/// Relies on chrono's `NaiveDate::from_ymd_opt`, which gives a date exactly
/// when the month and day exist in that year (every four-digit year is in its
/// range), and on `Datelike::num_days_from_ce`, which counts the days from
/// January 1 of the year 1, that day being day 1.
#[verifier::external_body]
fn day_number(year: u16, month: u8, day: u8) -> (r: Option<i32>)
    requires
        year <= 9999,
    ensures
        r is Some <==> is_calendar_date(year as int, month as int, day as int),
        r matches Some(n) ==> n == days_from_ce(year as int, month as int, day as int),
{
    match chrono::NaiveDate::from_ymd_opt(year as i32, month as u32, day as u32) {
        Some(d) => Some(chrono::Datelike::num_days_from_ce(&d)),
        None => None,
    }
}

/// Whether the date exists in the calendar, as chrono judges it.
pub fn is_valid_date(year: u16, month: u8, day: u8) -> (r: bool)
    requires
        year <= 9999,
    ensures
        r == is_calendar_date(year as int, month as int, day as int),
{
    day_number(year, month, day).is_some()
}

/// The moment as seconds on one continuous scale, so that the difference of
/// two stamps is the time that passed between them.
pub fn instant_of(stamp: &UtcStamp) -> (r: i64)
    requires
        stamp.wf(),
    ensures
        r == stamp.instant(),
        -INSTANT_BOUND < r < INSTANT_BOUND,
{
    let n = day_number(stamp.date.year, stamp.date.month, stamp.date.day);
    match n {
        Some(d) => d as i64 * SECONDS_PER_DAY + stamp.time.seconds_of_day(),
        None => {
            proof {
                assert(false);
            }
            0
        },
    }
}

} // verus!
