//! Calendar time without a time zone, counted in whole seconds.

use vstd::prelude::*;

verus! {

/// Seconds in one calendar day.
pub const SECONDS_PER_DAY: i64 = 86_400;

/// Seconds in one minute.
pub const SECONDS_PER_MINUTE: i64 = 60;

/// Bound, exclusive on both sides, on every count of seconds that the
/// calendar arithmetic behind `parse` and `now` can produce.
pub const CALENDAR_SECONDS_BOUND: i64 = 0x1_0000_0000_0000;

/// The textual form of a timestamp: `YYYY-MM-DDTHH:MM:SS`.
pub const TIMESTAMP_FORMAT: &'static str = "%Y-%m-%dT%H:%M:%S";

/// A calendar day, counted in days since 1970-01-01.
#[derive(Clone, Copy, Debug, PartialEq, Eq, Structural, PartialOrd, Ord, Hash)]
pub struct Date {
    pub days: i64,
}

/// A wall-clock instant without a time zone, counted in seconds since
/// 1970-01-01T00:00:00 of the same calendar.
#[derive(Clone, Copy, Debug, PartialEq, Eq, Structural, PartialOrd, Ord, Hash)]
pub struct Timestamp {
    pub seconds: i64,
}

/// A day of the week.
#[derive(Clone, Copy, Debug, PartialEq, Eq, Structural, Hash)]
pub enum Weekday {
    Mon,
    Tue,
    Wed,
    Thu,
    Fri,
    Sat,
    Sun,
}

impl View for Date {
    type V = int;

    open spec fn view(&self) -> int {
        self.days as int
    }
}

impl DeepView for Date {
    type V = int;

    open spec fn deep_view(&self) -> int {
        self@
    }
}

impl View for Timestamp {
    type V = int;

    open spec fn view(&self) -> int {
        self.seconds as int
    }
}

impl DeepView for Timestamp {
    type V = int;

    open spec fn deep_view(&self) -> int {
        self@
    }
}

/// The day that holds the instant `seconds`: the quotient rounded towards
/// negative infinity, so that instants before 1970 fall on negative days.
pub open spec fn day_of(seconds: int) -> int {
    seconds / (SECONDS_PER_DAY as int)
}

/// The first instant of day `days`.
pub open spec fn midnight_of(days: int) -> int {
    days * (SECONDS_PER_DAY as int)
}

/// The place of day `days` in its week, Monday being 0. Day 0 was a Thursday.
pub open spec fn weekday_index(days: int) -> int {
    (days + 3) % 7
}

/// The weekday at place `index` of the week, Monday being 0.
pub open spec fn weekday_at(index: int) -> Weekday {
    if index == 0 {
        Weekday::Mon
    } else if index == 1 {
        Weekday::Tue
    } else if index == 2 {
        Weekday::Wed
    } else if index == 3 {
        Weekday::Thu
    } else if index == 4 {
        Weekday::Fri
    } else if index == 5 {
        Weekday::Sat
    } else {
        Weekday::Sun
    }
}

/// What the calendar reads in `text` under the format `format`: the seconds
/// of the instant written there, or nothing where `text` does not follow the
/// format or names no instant.
pub uninterp spec fn naive_seconds(text: Seq<char>, format: Seq<char>) -> Option<i64>;

/// The timestamp written in `text` in the form `YYYY-MM-DDTHH:MM:SS`.
pub open spec fn timestamp_of_text(text: Seq<char>) -> Option<Timestamp> {
    match naive_seconds(text, TIMESTAMP_FORMAT@) {
        Some(seconds) => Some(Timestamp { seconds }),
        None => None,
    }
}

/// Reads `text` with `chrono::NaiveDateTime::parse_from_str` under `format`
/// and counts the seconds of the result as `chrono::DateTime::timestamp` does.
///
/// Trusted: the answer is a function of the two texts alone, and a count of
/// seconds that comes back lies within `CALENDAR_SECONDS_BOUND`, because
/// chrono computes it from a 32-bit day number and a second of the day.
#[verifier::external_body]
fn parse_naive_seconds(text: &str, format: &str) -> (seconds: Option<i64>)
    ensures
        seconds == naive_seconds(text@, format@),
        match seconds {
            Some(s) => -CALENDAR_SECONDS_BOUND < s < CALENDAR_SECONDS_BOUND,
            None => true,
        },
{
    match chrono::NaiveDateTime::parse_from_str(text, format) {
        Ok(instant) => Some(instant.and_utc().timestamp()),
        Err(_) => None,
    }
}

/// What the calendar writes for the instant `seconds` under the format
/// `format`, or nothing where the calendar does not reach the instant or the
/// format is not one it knows.
pub uninterp spec fn formatted_seconds(seconds: i64, format: Seq<char>) -> Option<Seq<char>>;

/// Makes the instant with `chrono::DateTime::from_timestamp` and writes it
/// with `chrono::NaiveDateTime::format` under `format`.
///
/// Trusted: the answer is a function of the count and the format alone.
#[verifier::external_body]
fn format_naive_seconds(seconds: i64, format: &str) -> (text: Option<String>)
    ensures
        match text {
            Some(written) => formatted_seconds(seconds, format@) == Some(written@),
            None => formatted_seconds(seconds, format@).is_none(),
        },
{
    let instant = chrono::DateTime::from_timestamp(seconds, 0)?;
    let mut text = String::new();
    match instant.naive_utc().format(format).write_to(&mut text) {
        Ok(()) => Some(text),
        Err(_) => None,
    }
}

/// Reads the machine's clock with `chrono::Local::now` and counts the seconds
/// of the local wall-clock reading as `chrono::DateTime::timestamp` does.
///
/// Trusted: whatever the clock says, the count lies within
/// `CALENDAR_SECONDS_BOUND`, for the same reason as in `parse_naive_seconds`.
#[verifier::external_body]
fn local_now_seconds() -> (seconds: i64)
    ensures
        -CALENDAR_SECONDS_BOUND < seconds < CALENDAR_SECONDS_BOUND,
{
    chrono::Local::now().naive_local().and_utc().timestamp()
}

impl Date {
    /// The first instant of this day.
    pub fn midnight(&self) -> (instant: Timestamp)
        requires
            i64::MIN <= midnight_of(self@) <= i64::MAX,
        ensures
            instant@ == midnight_of(self@),
            day_of(instant@) == self@,
    {
        Timestamp { seconds: self.days * SECONDS_PER_DAY }
    }

    /// The day of the week on which this day falls.
    pub fn weekday(&self) -> (weekday: Weekday)
        ensures
            weekday == weekday_at(weekday_index(self@)),
    {
        // Shifting by whole weeks keeps the remainder and makes it positive.
        let place: i64 = ((self.days % 7) + 10) % 7;
        if place == 0 {
            Weekday::Mon
        } else if place == 1 {
            Weekday::Tue
        } else if place == 2 {
            Weekday::Wed
        } else if place == 3 {
            Weekday::Thu
        } else if place == 4 {
            Weekday::Fri
        } else if place == 5 {
            Weekday::Sat
        } else {
            Weekday::Sun
        }
    }
}

impl Timestamp {
    /// The calendar day on which this instant falls.
    pub fn date(&self) -> (date: Date)
        ensures
            date@ == day_of(self@),
    {
        let quotient: i64 = self.seconds / SECONDS_PER_DAY;
        let remainder: i64 = self.seconds % SECONDS_PER_DAY;
        if remainder < 0 {
            Date { days: quotient - 1 }
        } else {
            Date { days: quotient }
        }
    }

    /// The first instant of the day on which this instant falls.
    pub fn start_of_day(&self) -> (instant: Timestamp)
        requires
            self@ - (SECONDS_PER_DAY - 1) >= i64::MIN,
        ensures
            instant@ == midnight_of(day_of(self@)),
            instant@ <= self@ < instant@ + SECONDS_PER_DAY,
            instant@ % (SECONDS_PER_DAY as int) == 0,
    {
        let remainder: i64 = self.seconds % SECONDS_PER_DAY;
        let into_day: i64 = if remainder < 0 {
            remainder + SECONDS_PER_DAY
        } else {
            remainder
        };
        Timestamp { seconds: self.seconds - into_day }
    }

    /// The instant `minutes` minutes after this one.
    pub fn plus_minutes(&self, minutes: u32) -> (instant: Timestamp)
        requires
            self@ + SECONDS_PER_MINUTE * minutes <= i64::MAX,
        ensures
            instant@ == self@ + SECONDS_PER_MINUTE * minutes,
    {
        let span: i64 = SECONDS_PER_MINUTE * (minutes as i64);
        Timestamp { seconds: self.seconds + span }
    }

    /// Reads a timestamp written as `YYYY-MM-DDTHH:MM:SS`.
    pub fn parse(text: &str) -> (instant: Option<Timestamp>)
        ensures
            instant == timestamp_of_text(text@),
            match instant {
                Some(t) => -CALENDAR_SECONDS_BOUND < t@ < CALENDAR_SECONDS_BOUND,
                None => true,
            },
    {
        match parse_naive_seconds(text, TIMESTAMP_FORMAT) {
            Some(seconds) => Some(Timestamp { seconds }),
            None => None,
        }
    }

    /// The instant written under `format`, in the calendar's notation for
    /// formats.
    pub fn format(&self, format: &str) -> (text: Option<String>)
        ensures
            match text {
                Some(written) => formatted_seconds(self.seconds, format@) == Some(written@),
                None => formatted_seconds(self.seconds, format@).is_none(),
            },
    {
        format_naive_seconds(self.seconds, format)
    }

    /// The local wall-clock time of this moment.
    pub fn now() -> (instant: Timestamp)
        ensures
            -CALENDAR_SECONDS_BOUND < instant@ < CALENDAR_SECONDS_BOUND,
    {
        Timestamp { seconds: local_now_seconds() }
    }
}

} // verus!
