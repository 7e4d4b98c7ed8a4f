//! Civil date-times and zoned instants, held as plain fields.
use vstd::prelude::*;

verus! {

/// Seconds east of UTC of the widest offset that a zoned time may carry (25:59:59).
pub const MAX_OFFSET_SECONDS: i32 = 93599;

/// The earliest instant that a zoned time may stand for, in seconds since the Unix epoch.
pub const MIN_INSTANT: i64 = -377705023201;

/// The latest instant that a zoned time may stand for, in seconds since the Unix epoch.
pub const MAX_INSTANT: i64 = 253402207200;

/// Leap years of the proleptic Gregorian calendar.
pub open spec fn is_leap_year(y: int) -> bool {
    (y % 4 == 0 && y % 100 != 0) || y % 400 == 0
}

pub open spec fn days_in_month(y: int, m: int) -> int {
    if m == 2 {
        if is_leap_year(y) { 29 } else { 28 }
    } else if m == 4 || m == 6 || m == 9 || m == 11 {
        30
    } else {
        31
    }
}

/// Days from 1970-01-01 to the given proleptic Gregorian date.
pub open spec fn days_from_civil(y: int, m: int, d: int) -> int {
    let yp = (if m <= 2 { y - 1 } else { y }) + 10000;
    let era = yp / 400;
    let yoe = yp % 400;
    let mp = if m > 2 { m - 3 } else { m + 9 };
    let doy = (153 * mp + 2) / 5 + d - 1;
    let doe = yoe * 365 + yoe / 4 - yoe / 100 + doy;
    (era - 25) * 146097 + doe - 719468
}

/// A date and a time of day with no time zone attached.
#[derive(Clone, Copy, Debug, PartialEq, Eq, Structural)]
pub struct CivilDateTime {
    pub year: i16,
    pub month: i8,
    pub day: i8,
    pub hour: i8,
    pub minute: i8,
    pub second: i8,
}

impl CivilDateTime {
    pub open spec fn wf(&self) -> bool {
        &&& -9999 <= self.year <= 9999
        &&& 1 <= self.month <= 12
        &&& 1 <= self.day <= days_in_month(self.year as int, self.month as int)
        &&& 0 <= self.hour <= 23
        &&& 0 <= self.minute <= 59
        &&& 0 <= self.second <= 59
    }

    /// Seconds from 1970-01-01T00:00:00 to this reading, counting every day as 86400 seconds.
    pub open spec fn seconds(&self) -> int {
        days_from_civil(self.year as int, self.month as int, self.day as int) * 86400
            + self.hour as int * 3600 + self.minute as int * 60 + self.second as int
    }

    /// A valid reading lies within the span of years -9999 to 9999.
    pub proof fn lemma_seconds_bounds(&self)
        requires
            self.wf(),
        ensures
            -377705116800 <= self.seconds() <= 253402300799,
    {
    }

    /// The reading as seconds from 1970-01-01T00:00:00, days counted as 86400 seconds.
    pub fn civil_seconds(&self) -> (r: i64)
        requires
            self.wf(),
        ensures
            r == self.seconds(),
    {
        let m = self.month as i64;
        let yp: i64 = (if m <= 2 { self.year as i64 - 1 } else { self.year as i64 }) + 10000;
        let era: i64 = yp / 400;
        let yoe: i64 = yp % 400;
        let mp: i64 = if m > 2 { m - 3 } else { m + 9 };
        let doy: i64 = (153 * mp + 2) / 5 + self.day as i64 - 1;
        let doe: i64 = yoe * 365 + yoe / 4 - yoe / 100 + doy;
        let days: i64 = (era - 25) * 146097 + doe - 719468;
        days * 86400 + self.hour as i64 * 3600 + self.minute as i64 * 60 + self.second as i64
    }
}

/// A civil reading together with the UTC offset it was taken at.
#[derive(Clone, Copy, Debug, PartialEq, Eq, Structural)]
pub struct ZonedTime {
    pub datetime: CivilDateTime,
    /// Seconds east of UTC.
    pub offset: i32,
}

impl ZonedTime {
    /// Seconds since the Unix epoch of the instant this reading stands for.
    pub open spec fn instant(&self) -> int {
        self.datetime.seconds() - self.offset as int
    }

    pub open spec fn wf(&self) -> bool {
        &&& self.datetime.wf()
        &&& -MAX_OFFSET_SECONDS <= self.offset <= MAX_OFFSET_SECONDS
        &&& MIN_INSTANT <= self.instant() <= MAX_INSTANT
    }

    /// Seconds since the Unix epoch of the instant this reading stands for.
    pub fn instant_seconds(&self) -> (r: i64)
        requires
            self.wf(),
        ensures
            r == self.instant(),
    {
        self.datetime.civil_seconds() - self.offset as i64
    }
}

} // verus!
