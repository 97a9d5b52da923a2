//! The entities of the schedule and the composite values built from them.

use crate::id::Id;
use crate::time::{Timestamp, SECONDS_PER_MINUTE};
use vstd::prelude::*;

verus! {

/// How long an occurrence lasts, in minutes.
pub type Duration = u32;

/// A place where occurrences are held.
#[derive(Debug, PartialEq, Eq, Hash)]
pub struct Location {
    pub name: String,
    pub address: String,
}

/// What a `Location` holds.
pub struct LocationView {
    pub name: Seq<char>,
    pub address: Seq<char>,
}

/// Something that is offered, with any number of occurrences.
#[derive(Debug, PartialEq, Eq, Hash)]
pub struct Event {
    pub title: String,
    pub teaser: String,
    pub description: String,
}

/// What an `Event` holds.
pub struct EventView {
    pub title: Seq<char>,
    pub teaser: Seq<char>,
    pub description: Seq<char>,
}

/// One dated instance of an event.
#[derive(Clone, Copy, Debug, PartialEq, Eq, Structural, Hash)]
pub struct Occurrence {
    pub start: Timestamp,
    pub duration: Duration,
}

/// An occurrence together with the location it is held at. The location
/// need not exist.
#[derive(Debug, Hash)]
pub struct OccurrenceWithLocation {
    pub occurrence: Occurrence,
    pub location_id: Id<Location>,
}

/// An occurrence as the store keeps it: with the event that owns it.
#[derive(Debug, Hash)]
pub struct StoredOccurrence {
    pub event_id: Id<Event>,
    pub occurrence: OccurrenceWithLocation,
}

/// An occurrence paired with the event that owns it.
#[derive(Debug, PartialEq, Eq)]
pub struct OccurrenceWithEvent {
    pub occurrence: OccurrenceWithLocation,
    pub event_id: Id<Event>,
    pub event: Event,
}

/// What an `OccurrenceWithEvent` holds.
pub struct OccurrenceWithEventView {
    pub occurrence: OccurrenceWithLocation,
    pub event_id: u128,
    pub event: EventView,
}

/// An event with its occurrences.
#[derive(Debug, PartialEq, Eq)]
pub struct EventWithOccurrences {
    pub event: Event,
    pub occurrences: Vec<OccurrenceWithLocation>,
}

/// What an `EventWithOccurrences` holds.
pub struct EventWithOccurrencesView {
    pub event: EventView,
    pub occurrences: Seq<OccurrenceWithLocation>,
}

/// A location with the occurrences held at it, each under its identifier.
#[derive(Debug, PartialEq, Eq)]
pub struct LocationWithOccurrences {
    pub location: Location,
    pub occurrences: Vec<(Id<Occurrence>, Occurrence)>,
}

/// What a `LocationWithOccurrences` holds.
pub struct LocationWithOccurrencesView {
    pub location: LocationView,
    pub occurrences: Seq<(u128, Occurrence)>,
}

/// Every location and every event with its occurrences, each under its
/// identifier.
#[derive(Debug, PartialEq, Eq)]
pub struct Overview {
    pub locations: Vec<(Id<Location>, Location)>,
    pub events: Vec<(Id<Event>, EventWithOccurrences)>,
}

/// What an `Overview` holds.
pub struct OverviewView {
    pub locations: Seq<(u128, LocationView)>,
    pub events: Seq<(u128, EventWithOccurrencesView)>,
}

impl View for Location {
    type V = LocationView;

    open spec fn view(&self) -> LocationView {
        LocationView { name: self.name@, address: self.address@ }
    }
}

impl DeepView for Location {
    type V = LocationView;

    open spec fn deep_view(&self) -> LocationView {
        self@
    }
}

impl Clone for Location {
    fn clone(&self) -> (copy: Self)
        ensures
            copy@ == self@,
    {
        Location { name: self.name.clone(), address: self.address.clone() }
    }
}

impl View for Event {
    type V = EventView;

    open spec fn view(&self) -> EventView {
        EventView { title: self.title@, teaser: self.teaser@, description: self.description@ }
    }
}

impl DeepView for Event {
    type V = EventView;

    open spec fn deep_view(&self) -> EventView {
        self@
    }
}

impl Clone for Event {
    fn clone(&self) -> (copy: Self)
        ensures
            copy@ == self@,
    {
        Event {
            title: self.title.clone(),
            teaser: self.teaser.clone(),
            description: self.description.clone(),
        }
    }
}

impl DeepView for Occurrence {
    type V = Occurrence;

    open spec fn deep_view(&self) -> Occurrence {
        *self
    }
}

impl Occurrence {
    /// The instant at which the occurrence is over: its start plus its
    /// duration.
    pub fn end(&self) -> (instant: Timestamp)
        requires
            self.start@ + SECONDS_PER_MINUTE * self.duration <= i64::MAX,
        ensures
            instant@ == self.start@ + SECONDS_PER_MINUTE * self.duration,
    {
        self.start.plus_minutes(self.duration)
    }
}

impl DeepView for OccurrenceWithLocation {
    type V = OccurrenceWithLocation;

    open spec fn deep_view(&self) -> OccurrenceWithLocation {
        *self
    }
}

impl Clone for OccurrenceWithLocation {
    fn clone(&self) -> (copy: Self)
        ensures
            copy == *self,
    {
        OccurrenceWithLocation { occurrence: self.occurrence, location_id: self.location_id }
    }
}

impl Copy for OccurrenceWithLocation {

}

impl PartialEq for OccurrenceWithLocation {
    fn eq(&self, other: &Self) -> (equal: bool) {
        self.occurrence == other.occurrence && self.location_id == other.location_id
    }
}

impl Eq for OccurrenceWithLocation {

}

impl vstd::std_specs::cmp::PartialEqSpecImpl for OccurrenceWithLocation {
    open spec fn obeys_eq_spec() -> bool {
        true
    }

    open spec fn eq_spec(&self, other: &Self) -> bool {
        self.occurrence == other.occurrence && self.location_id@ == other.location_id@
    }
}

impl DeepView for StoredOccurrence {
    type V = StoredOccurrence;

    open spec fn deep_view(&self) -> StoredOccurrence {
        *self
    }
}

impl Clone for StoredOccurrence {
    fn clone(&self) -> (copy: Self)
        ensures
            copy == *self,
    {
        StoredOccurrence { event_id: self.event_id, occurrence: self.occurrence }
    }
}

impl Copy for StoredOccurrence {

}

impl PartialEq for StoredOccurrence {
    fn eq(&self, other: &Self) -> (equal: bool) {
        self.event_id == other.event_id && self.occurrence == other.occurrence
    }
}

impl Eq for StoredOccurrence {

}

impl vstd::std_specs::cmp::PartialEqSpecImpl for StoredOccurrence {
    open spec fn obeys_eq_spec() -> bool {
        true
    }

    open spec fn eq_spec(&self, other: &Self) -> bool {
        self.event_id@ == other.event_id@ && self.occurrence.occurrence
            == other.occurrence.occurrence && self.occurrence.location_id@
            == other.occurrence.location_id@
    }
}

impl View for OccurrenceWithEvent {
    type V = OccurrenceWithEventView;

    open spec fn view(&self) -> OccurrenceWithEventView {
        OccurrenceWithEventView {
            occurrence: self.occurrence,
            event_id: self.event_id@,
            event: self.event@,
        }
    }
}

impl DeepView for OccurrenceWithEvent {
    type V = OccurrenceWithEventView;

    open spec fn deep_view(&self) -> OccurrenceWithEventView {
        self@
    }
}

impl Clone for OccurrenceWithEvent {
    fn clone(&self) -> (copy: Self)
        ensures
            copy@ == self@,
    {
        OccurrenceWithEvent {
            occurrence: self.occurrence,
            event_id: self.event_id,
            event: self.event.clone(),
        }
    }
}

impl View for EventWithOccurrences {
    type V = EventWithOccurrencesView;

    open spec fn view(&self) -> EventWithOccurrencesView {
        EventWithOccurrencesView { event: self.event@, occurrences: self.occurrences@ }
    }
}

impl DeepView for EventWithOccurrences {
    type V = EventWithOccurrencesView;

    open spec fn deep_view(&self) -> EventWithOccurrencesView {
        self@
    }
}

impl View for LocationWithOccurrences {
    type V = LocationWithOccurrencesView;

    open spec fn view(&self) -> LocationWithOccurrencesView {
        LocationWithOccurrencesView {
            location: self.location@,
            occurrences: self.occurrences.deep_view(),
        }
    }
}

impl DeepView for LocationWithOccurrences {
    type V = LocationWithOccurrencesView;

    open spec fn deep_view(&self) -> LocationWithOccurrencesView {
        self@
    }
}

impl View for Overview {
    type V = OverviewView;

    open spec fn view(&self) -> OverviewView {
        OverviewView {
            locations: self.locations.deep_view(),
            events: self.events.deep_view(),
        }
    }
}

impl DeepView for Overview {
    type V = OverviewView;

    open spec fn deep_view(&self) -> OverviewView {
        self@
    }
}

} // verus!
