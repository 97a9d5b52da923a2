//! The texts that the pages of the site show for days, times and places.

use crate::id::Id;
use crate::id_map::{lemma_deep_rows, lookup};
use crate::model::Location;
use crate::store::Store;
use crate::time::{formatted_seconds, Date, Timestamp, Weekday, SECONDS_PER_DAY};
use vstd::prelude::*;
use vstd::string::*;

verus! {

/// What stands for the place of an occurrence whose location is not stored.
pub const UNKNOWN_LOCATION: &'static str = "Steht noch nicht fest.";

/// How many occurrences of an event its overview shows.
pub const PREVIEW_LENGTH: usize = 5;

/// The format of the day and month of a date.
pub const DAY_MONTH_FORMAT: &'static str = "%d.%m.";

/// The format of the time of day.
pub const TIME_FORMAT: &'static str = "%H:%M";

/// The pages that the navigation names.
#[derive(Clone, Copy, Debug, PartialEq, Eq, Structural)]
pub enum Page {
    OccurrenceOverview,
    EventsOverview,
}

/// The title of `page`.
pub open spec fn title_of(page: Page) -> Seq<char> {
    match page {
        Page::OccurrenceOverview => "Termine"@,
        Page::EventsOverview => "Angebote"@,
    }
}

/// The two letters that stand for `day`.
pub open spec fn weekday_text(day: Weekday) -> Seq<char> {
    match day {
        Weekday::Mon => "Mo"@,
        Weekday::Tue => "Di"@,
        Weekday::Wed => "Mi"@,
        Weekday::Thu => "Do"@,
        Weekday::Fri => "Fr"@,
        Weekday::Sat => "Sa"@,
        Weekday::Sun => "So"@,
    }
}

/// The day and month of day `days` as the calendar writes them, or nothing
/// where the calendar does not reach the day.
pub open spec fn day_month_text(days: int) -> Option<Seq<char>> {
    if i64::MIN <= days * SECONDS_PER_DAY <= i64::MAX {
        formatted_seconds((days * SECONDS_PER_DAY) as i64, DAY_MONTH_FORMAT@)
    } else {
        None
    }
}

/// The text for a date: the weekday, a comma, and the day and month.
pub open spec fn date_text(days: int) -> Option<Seq<char>> {
    match day_month_text(days) {
        Some(day_month) => Some(
            weekday_text(crate::time::weekday_at(crate::time::weekday_index(days))) + ", "@
                + day_month,
        ),
        None => None,
    }
}

impl Page {
    /// The title of the page.
    pub fn title(&self) -> (title: &'static str)
        ensures
            title@ == title_of(*self),
    {
        match self {
            Page::OccurrenceOverview => "Termine",
            Page::EventsOverview => "Angebote",
        }
    }

    /// Whether the page is the one that is shown.
    pub fn is_current(&self, current: Option<Page>) -> (shown: bool)
        ensures
            shown == (current == Some(*self)),
    {
        match current {
            Some(page) => page == *self,
            None => false,
        }
    }
}

/// The two letters that stand for `day`.
pub fn format_weekday(day: Weekday) -> (text: &'static str)
    ensures
        text@ == weekday_text(day),
{
    match day {
        Weekday::Mon => "Mo",
        Weekday::Tue => "Di",
        Weekday::Wed => "Mi",
        Weekday::Thu => "Do",
        Weekday::Fri => "Fr",
        Weekday::Sat => "Sa",
        Weekday::Sun => "So",
    }
}

/// The text for a date: the weekday, a comma, and the day and month. Nothing
/// where the calendar does not reach the day.
pub fn format_date(date: Date) -> (text: Option<String>)
    ensures
        match text {
            Some(written) => date_text(date@) == Some(written@),
            None => date_text(date@).is_none(),
        },
{
    let midnight = match date.days.checked_mul(SECONDS_PER_DAY) {
        Some(seconds) => Timestamp { seconds },
        None => {
            return None;
        },
    };
    match midnight.format(DAY_MONTH_FORMAT) {
        Some(day_month) => {
            let text = String::from_str(format_weekday(date.weekday()));
            let text = text.concat(", ");
            Some(text.concat(day_month.as_str()))
        },
        None => None,
    }
}

/// The time of day of `start`, in hours and minutes.
pub fn format_time(start: Timestamp) -> (text: Option<String>)
    ensures
        match text {
            Some(written) => formatted_seconds(start.seconds, TIME_FORMAT@) == Some(written@),
            None => formatted_seconds(start.seconds, TIME_FORMAT@).is_none(),
        },
{
    start.format(TIME_FORMAT)
}

/// The short line on an occurrence: when, a dash, and where.
pub fn quick_info(when: &str, place: &str) -> (text: String)
    ensures
        text@ == when@ + " - "@ + place@,
{
    let text = String::from_str(when);
    let text = text.concat(" - ");
    text.concat(place)
}

/// The date and the time of day as one text, with a blank between them.
pub fn date_and_time(date: &str, time: &str) -> (text: String)
    ensures
        text@ == date@ + " "@ + time@,
{
    let text = String::from_str(date);
    let text = text.concat(" ");
    text.concat(time)
}

/// How many of `count` occurrences the overview of an event shows, and how
/// many it leaves out.
pub fn preview(count: usize) -> (split: (usize, usize))
    ensures
        split.0 == if count <= PREVIEW_LENGTH {
            count
        } else {
            PREVIEW_LENGTH
        },
        split.0 + split.1 == count,
{
    if count <= PREVIEW_LENGTH {
        (count, 0)
    } else {
        (PREVIEW_LENGTH, count - PREVIEW_LENGTH)
    }
}

/// The name that `locations` holds for `id`, or nothing.
pub open spec fn name_of(locations: Seq<(u128, crate::model::LocationView)>, id: u128) -> Seq<
    char,
> {
    match lookup(locations, id) {
        Some(location) => location.name,
        None => UNKNOWN_LOCATION@,
    }
}

impl Store {
    /// The name of the location under `id`. A location that is not stored
    /// does not fail the page: a fixed text stands in its place.
    pub fn location_name(&self, id: Id<Location>) -> (name: String)
        requires
            self.wf(),
        ensures
            name@ == name_of(self@.locations, id@),
    {
        let table = self.location_table();
        proof {
            lemma_deep_rows(table@, id@);
        }
        match table.get(id) {
            Some(location) => location.name.clone(),
            None => String::from_str(UNKNOWN_LOCATION),
        }
    }
}

} // verus!
