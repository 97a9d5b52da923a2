//! The date range by which occurrences are selected.

use crate::error::Error;
use crate::model::Occurrence;
use crate::time::{midnight_of, day_of, timestamp_of_text, Timestamp, SECONDS_PER_DAY};
use vstd::prelude::*;

verus! {

/// A range of start times, open at both ends. A bound that is absent does
/// not restrict.
#[derive(Clone, Copy, Debug, PartialEq, Eq, Hash)]
pub struct OccurrenceFilter {
    after: Option<Timestamp>,
    before: Option<Timestamp>,
}

/// The bounds of a filter, in seconds.
pub struct Bounds {
    pub before: Option<int>,
    pub after: Option<int>,
}

impl Bounds {
    /// Whether an occurrence that starts at `start` lies within the bounds.
    /// Both bounds are exclusive.
    pub open spec fn admits(self, start: int) -> bool {
        (self.before is None || start < self.before->0) && (self.after is None || start
            > self.after->0)
    }

    /// The lower bound, where both are present, lies before the upper one.
    pub open spec fn ordered(self) -> bool {
        self.before is Some && self.after is Some ==> self.after->0 < self.before->0
    }
}

/// The bounds given by two optional timestamps.
pub open spec fn bounds_of(before: Option<Timestamp>, after: Option<Timestamp>) -> Bounds {
    Bounds {
        before: match before {
            Some(t) => Some(t@),
            None => None,
        },
        after: match after {
            Some(t) => Some(t@),
            None => None,
        },
    }
}

/// The filter that selects what starts after the midnight that began the day
/// of `now`.
pub open spec fn upcoming_bounds(now: int) -> Bounds {
    Bounds { before: None, after: Some(midnight_of(day_of(now))) }
}

impl View for OccurrenceFilter {
    type V = Bounds;

    closed spec fn view(&self) -> Bounds {
        bounds_of(self.before, self.after)
    }
}

impl DeepView for OccurrenceFilter {
    type V = Bounds;

    open spec fn deep_view(&self) -> Bounds {
        self@
    }
}

impl Default for OccurrenceFilter {
    /// The filter without bounds, which selects every occurrence.
    fn default() -> (filter: Self)
        ensures
            filter@ == (Bounds { before: None, after: None }),
    {
        OccurrenceFilter { after: None, before: None }
    }
}

impl OccurrenceFilter {
    /// Every filter has its bounds in order.
    #[verifier::type_invariant]
    spec fn in_order(&self) -> bool {
        bounds_of(self.before, self.after).ordered()
    }

    /// The upper bound.
    pub fn before(&self) -> (bound: Option<Timestamp>)
        ensures
            self@.ordered(),
            match bound {
                Some(instant) => self@.before == Some(instant@),
                None => self@.before is None,
            },
    {
        proof {
            use_type_invariant(self);
        }
        self.before
    }

    /// The lower bound.
    pub fn after(&self) -> (bound: Option<Timestamp>)
        ensures
            self@.ordered(),
            match bound {
                Some(instant) => self@.after == Some(instant@),
                None => self@.after is None,
            },
    {
        proof {
            use_type_invariant(self);
        }
        self.after
    }

    /// The filter with the given bounds. Where both are present the lower
    /// one must lie before the upper one.
    pub fn from_bounds(before: Option<Timestamp>, after: Option<Timestamp>) -> (filter: Result<
        Self,
        Error,
    >)
        ensures
            match filter {
                Ok(f) => bounds_of(before, after).ordered() && f@ == bounds_of(before, after),
                Err(error) => !bounds_of(before, after).ordered() && error == Error::InvalidRange,
            },
    {
        match (before, after) {
            (Some(upper), Some(lower)) => {
                if lower.seconds < upper.seconds {
                    Ok(OccurrenceFilter { after, before })
                } else {
                    Err(Error::InvalidRange)
                }
            },
            _ => Ok(OccurrenceFilter { after, before }),
        }
    }

    /// The filter for "from today on": what starts after the midnight that
    /// began the day of `now`.
    pub fn upcoming_at(now: Timestamp) -> (filter: Self)
        requires
            now@ - (SECONDS_PER_DAY - 1) >= i64::MIN,
        ensures
            filter@ == upcoming_bounds(now@),
            filter@.ordered(),
    {
        OccurrenceFilter { after: Some(now.start_of_day()), before: None }
    }

    /// The filter for "from today on" by the machine's local clock. Its lower
    /// bound is a midnight; it has no upper bound.
    pub fn upcoming() -> (filter: Self)
        ensures
            exists|now: int| filter@ == #[trigger] upcoming_bounds(now),
            filter@.before is None,
            filter@.after is Some,
            filter@.after->0 % (SECONDS_PER_DAY as int) == 0,
    {
        let now = Timestamp::now();
        Self::upcoming_at(now)
    }

    /// Whether `occurrence` lies within the filter: it starts before the
    /// upper bound, if there is one, and after the lower bound, if there is
    /// one.
    pub fn applies(&self, occurrence: &Occurrence) -> (selected: bool)
        ensures
            selected == ((self@.before is None || occurrence.start@ < self@.before->0) && (
            self@.after is None || occurrence.start@ > self@.after->0)),
            selected == self@.admits(occurrence.start@),
    {
        let below = match self.before {
            Some(bound) => occurrence.start.seconds < bound.seconds,
            None => true,
        };
        let above = match self.after {
            Some(bound) => occurrence.start.seconds > bound.seconds,
            None => true,
        };
        below && above
    }
}

/// What the two texts of a query stand for: each absent text leaves its
/// bound open, each present one must be a timestamp, and the bounds must be
/// in order. The upper bound is looked at first.
pub open spec fn parsed_bounds(before: Option<Seq<char>>, after: Option<Seq<char>>) -> Result<
    Bounds,
    Error,
> {
    if before is Some && timestamp_of_text(before->0) is None {
        Err(Error::InvalidBeforeDate)
    } else if after is Some && timestamp_of_text(after->0) is None {
        Err(Error::InvalidAfterDate)
    } else {
        let bounds = Bounds {
            before: if before is Some {
                Some(timestamp_of_text(before->0)->0@)
            } else {
                None
            },
            after: if after is Some {
                Some(timestamp_of_text(after->0)->0@)
            } else {
                None
            },
        };
        if bounds.ordered() {
            Ok(bounds)
        } else {
            Err(Error::InvalidRange)
        }
    }
}

/// The texts of two optional strings.
pub open spec fn text_of(text: Option<&str>) -> Option<Seq<char>> {
    match text {
        Some(t) => Some(t@),
        None => None,
    }
}

impl OccurrenceFilter {
    /// Reads a filter from the values of the query keys `before` and
    /// `after`, each of which may be absent.
    pub fn parse(before: Option<&str>, after: Option<&str>) -> (filter: Result<Self, Error>)
        ensures
            match filter {
                Ok(f) => parsed_bounds(text_of(before), text_of(after)) == Ok::<Bounds, Error>(f@),
                Err(error) => parsed_bounds(text_of(before), text_of(after)) == Err::<
                    Bounds,
                    Error,
                >(error),
            },
    {
        let upper = match before {
            Some(text) => match Timestamp::parse(text) {
                Some(instant) => Some(instant),
                None => {
                    return Err(Error::InvalidBeforeDate);
                },
            },
            None => None,
        };
        let lower = match after {
            Some(text) => match Timestamp::parse(text) {
                Some(instant) => Some(instant),
                None => {
                    return Err(Error::InvalidAfterDate);
                },
            },
            None => None,
        };
        Self::from_bounds(upper, lower)
    }

    /// The filter that a listing uses where the query names no bound: "from
    /// today on" in place of a filter without bounds, any other filter as it
    /// is.
    pub fn or_upcoming_at(self, now: Timestamp) -> (filter: Self)
        requires
            now@ - (SECONDS_PER_DAY - 1) >= i64::MIN,
        ensures
            self@.before is None && self@.after is None ==> filter@ == upcoming_bounds(now@),
            !(self@.before is None && self@.after is None) ==> filter@ == self@,
    {
        if self.before.is_none() && self.after.is_none() {
            Self::upcoming_at(now)
        } else {
            self
        }
    }
}

} // verus!
