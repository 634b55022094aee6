use vstd::prelude::*;

verus! {

/// A length of time in milliseconds; negative lengths point backwards.
#[derive(Clone, Copy, Debug, PartialEq, Eq, Hash, Structural)]
pub struct Duration {
    pub millis: i64,
}

/// An instant in UTC, in milliseconds since 1970-01-01T00:00:00Z.
#[derive(Clone, Copy, Debug, PartialEq, Eq, Hash, Structural)]
pub struct Time {
    pub millis: i64,
}

/// The milliseconds since the epoch at which, by `chrono`, a date and a
/// time of day in UTC begin; `None` where there is no such date or time.
pub uninterp spec fn utc_calendar_millis(
    year: int,
    month: int,
    day: int,
    hour: int,
    min: int,
    sec: int,
) -> Option<int>;

pub const MILLIS_PER_SECOND: i64 = 1000;

pub const MILLIS_PER_MINUTE: i64 = 60000;

pub const MILLIS_PER_HOUR: i64 = 3600000;

pub const MILLIS_PER_DAY: i64 = 86400000;

impl Duration {
    pub fn zero() -> (r: Duration)
        ensures
            r.millis == 0,
    {
        Duration { millis: 0 }
    }

    pub fn milliseconds(n: i64) -> (r: Duration)
        ensures
            r.millis == n,
    {
        Duration { millis: n }
    }

    /// `n` seconds, unless that many milliseconds do not fit.
    pub fn seconds(n: i64) -> (r: Option<Duration>)
        ensures
            r == Duration::of(n * MILLIS_PER_SECOND),
    {
        Duration::scaled(n, MILLIS_PER_SECOND)
    }

    /// `n` minutes, unless that many milliseconds do not fit.
    pub fn minutes(n: i64) -> (r: Option<Duration>)
        ensures
            r == Duration::of(n * MILLIS_PER_MINUTE),
    {
        Duration::scaled(n, MILLIS_PER_MINUTE)
    }

    /// `n` hours, unless that many milliseconds do not fit.
    pub fn hours(n: i64) -> (r: Option<Duration>)
        ensures
            r == Duration::of(n * MILLIS_PER_HOUR),
    {
        Duration::scaled(n, MILLIS_PER_HOUR)
    }

    /// `n` days, unless that many milliseconds do not fit.
    pub fn days(n: i64) -> (r: Option<Duration>)
        ensures
            r == Duration::of(n * MILLIS_PER_DAY),
    {
        Duration::scaled(n, MILLIS_PER_DAY)
    }

    /// The duration of `millis` milliseconds where that fits in 64 bits.
    pub open spec fn of(millis: int) -> Option<Duration> {
        if i64::MIN <= millis <= i64::MAX {
            Some(Duration { millis: millis as i64 })
        } else {
            None
        }
    }

    fn scaled(n: i64, unit: i64) -> (r: Option<Duration>)
        ensures
            r == Duration::of(n * unit),
    {
        match n.checked_mul(unit) {
            Some(millis) => Some(Duration { millis }),
            None => None,
        }
    }

    /// Whole seconds of the duration, rounded towards zero.
    pub open spec fn spec_num_seconds(&self) -> int {
        if self.millis >= 0 {
            self.millis as int / MILLIS_PER_SECOND as int
        } else {
            -((-self.millis) as int / MILLIS_PER_SECOND as int)
        }
    }

    /// Whole seconds of the duration, rounded towards zero.
    pub fn num_seconds(&self) -> (r: i64)
        ensures
            r == self.spec_num_seconds(),
    {
        self.millis / MILLIS_PER_SECOND
    }

    pub fn checked_add(&self, other: Duration) -> (r: Option<Duration>)
        ensures
            r == Duration::of(self.millis + other.millis),
    {
        match self.millis.checked_add(other.millis) {
            Some(millis) => Some(Duration { millis }),
            None => None,
        }
    }

    /// The duration taken `n` times.
    pub fn checked_mul(&self, n: i64) -> (r: Option<Duration>)
        ensures
            r == Duration::of(self.millis * n),
    {
        Duration::scaled(self.millis, n)
    }

    pub fn checked_neg(&self) -> (r: Option<Duration>)
        ensures
            r == Duration::of(-self.millis),
    {
        if self.millis == i64::MIN {
            None
        } else {
            Some(Duration { millis: -self.millis })
        }
    }
}

impl Time {
    /// The instant `millis` milliseconds after the epoch where that fits in 64 bits.
    pub open spec fn of(millis: int) -> Option<Time> {
        if i64::MIN <= millis <= i64::MAX {
            Some(Time { millis: millis as i64 })
        } else {
            None
        }
    }

    pub fn from_millis(millis: i64) -> (r: Time)
        ensures
            r.millis == millis,
    {
        Time { millis }
    }

    /// The instant at which a date and a time of day in UTC begin, if there is such a date and time.
    pub open spec fn calendar(year: i32, month: u32, day: u32, hour: u32, min: u32, sec: u32) -> Option<
        Time,
    > {
        match utc_calendar_millis(
            year as int,
            month as int,
            day as int,
            hour as int,
            min as int,
            sec as int,
        ) {
            Some(millis) => Time::of(millis),
            None => None,
        }
    }

    /// The instant at which a date and a time of day in UTC begin, if there is such a date and time.
    pub fn from_ymd_hms(year: i32, month: u32, day: u32, hour: u32, min: u32, sec: u32) -> (r:
        Option<Time>)
        ensures
            r == Time::calendar(year, month, day, hour, min, sec),
    {
        utc_instant(year, month, day, hour, min, sec)
    }

    /// The instant `secs` seconds after the epoch.
    pub fn from_timestamp(secs: i64) -> (r: Option<Time>)
        ensures
            r == Time::of(secs * MILLIS_PER_SECOND),
    {
        match secs.checked_mul(MILLIS_PER_SECOND) {
            Some(millis) => Some(Time { millis }),
            None => None,
        }
    }

    /// Whole seconds since the epoch, rounded down.
    pub open spec fn spec_timestamp(&self) -> int {
        self.millis as int / MILLIS_PER_SECOND as int
    }

    /// Whole seconds since the epoch, rounded down.
    pub fn timestamp(&self) -> (r: i64)
        ensures
            r == self.spec_timestamp(),
    {
        let q: i64 = self.millis / MILLIS_PER_SECOND;
        let rem: i64 = self.millis % MILLIS_PER_SECOND;
        if rem < 0 {
            q - 1
        } else {
            q
        }
    }

    /// The minute within the hour, 0 to 59.
    pub open spec fn spec_minute(&self) -> int {
        (self.millis as int / MILLIS_PER_MINUTE as int) % 60
    }

    /// The minute within the hour, 0 to 59.
    pub fn minute(&self) -> (r: u32)
        ensures
            r == self.spec_minute(),
    {
        let q: i64 = self.millis / MILLIS_PER_MINUTE;
        let rem: i64 = self.millis % MILLIS_PER_MINUTE;
        let minutes: i64 = if rem < 0 {
            q - 1
        } else {
            q
        };
        let m: i64 = minutes % 60;
        if m < 0 {
            (m + 60) as u32
        } else {
            m as u32
        }
    }

    pub fn checked_add(&self, d: Duration) -> (r: Option<Time>)
        ensures
            r == Time::of(self.millis + d.millis),
    {
        match self.millis.checked_add(d.millis) {
            Some(millis) => Some(Time { millis }),
            None => None,
        }
    }

    pub fn checked_sub(&self, d: Duration) -> (r: Option<Time>)
        ensures
            r == Time::of(self.millis - d.millis),
    {
        match self.millis.checked_sub(d.millis) {
            Some(millis) => Some(Time { millis }),
            None => None,
        }
    }

    /// How long after `earlier` this instant lies.
    pub fn signed_duration_since(&self, earlier: Time) -> (r: Option<Duration>)
        ensures
            r == Duration::of(self.millis - earlier.millis),
    {
        match self.millis.checked_sub(earlier.millis) {
            Some(millis) => Some(Duration { millis }),
            None => None,
        }
    }
}

/// `chrono::TimeZone::with_ymd_and_hms` on `Utc`, and of the single
/// instant it finds `timestamp_millis`, which is within 64 bits for every
/// date `chrono` can write: the milliseconds are named by
/// `utc_calendar_millis`; no instant is returned where the date or the time does not exist.
#[verifier::external_body]
fn utc_instant(year: i32, month: u32, day: u32, hour: u32, min: u32, sec: u32) -> (r: Option<Time>)
    ensures
        match r {
            Some(t) => utc_calendar_millis(
                year as int,
                month as int,
                day as int,
                hour as int,
                min as int,
                sec as int,
            ) == Some(t.millis as int),
            None => utc_calendar_millis(
                year as int,
                month as int,
                day as int,
                hour as int,
                min as int,
                sec as int,
            ).is_none(),
        },
{
    match chrono::TimeZone::with_ymd_and_hms(&chrono::Utc, year, month, day, hour, min, sec).single() {
        Some(t) => Some(Time { millis: t.timestamp_millis() }),
        None => None,
    }
}

} // verus!
