//! What a caller hands in to add an entity or to change some of its fields.

use crate::error::Error;
use crate::id::{is_random_form, Id};
use crate::id_map::{has_id, lookup};
use crate::store::Store;
use crate::model::{
    Duration, Event, EventView, Location, LocationView, Occurrence, OccurrenceWithLocation,
    StoredOccurrence,
};
use crate::time::Timestamp;
use vstd::prelude::*;

verus! {

/// The text that a change leaves in a field: the new text where the change
/// names one, the current text where it does not.
pub open spec fn changed_text(change: Option<String>, current: Seq<char>) -> Seq<char> {
    match change {
        Some(text) => text@,
        None => current,
    }
}

/// The value that a change leaves in a field: the new value where the
/// change names one, the current value where it does not.
pub open spec fn changed_value<T>(change: Option<T>, current: T) -> T {
    match change {
        Some(value) => value,
        None => current,
    }
}

fn change_text(change: Option<String>, current: &String) -> (text: String)
    ensures
        text@ == changed_text(change, current@),
{
    match change {
        Some(text) => text,
        None => current.clone(),
    }
}

/// An event to be added.
#[derive(Debug, PartialEq, Eq, Hash)]
pub struct NewEvent {
    pub title: String,
    pub teaser: String,
    pub description: String,
}

/// The fields of an event that are to change. A field that is absent stays
/// as it is.
#[derive(Debug, PartialEq, Eq, Hash)]
pub struct UpdateEvent {
    pub title: Option<String>,
    pub teaser: Option<String>,
    pub description: Option<String>,
}

/// A location to be added.
#[derive(Debug, PartialEq, Eq, Hash)]
pub struct NewLocation {
    pub name: String,
    pub address: String,
}

/// The fields of a location that are to change. A field that is absent
/// stays as it is.
#[derive(Debug, PartialEq, Eq, Hash)]
pub struct UpdateLocation {
    pub name: Option<String>,
    pub address: Option<String>,
}

/// An occurrence to be added.
#[derive(Debug, Hash)]
pub struct NewOccurrence {
    pub event_id: Id<Event>,
    pub start: Timestamp,
    pub duration: Duration,
    pub location_id: Id<Location>,
}

/// The fields of an occurrence that are to change. A field that is absent
/// stays as it is.
#[derive(Debug, Hash)]
pub struct UpdateOccurrence {
    pub event_id: Option<Id<Event>>,
    pub start: Option<Timestamp>,
    pub duration: Option<Duration>,
    pub location_id: Option<Id<Location>>,
}

impl View for NewEvent {
    type V = EventView;

    open spec fn view(&self) -> EventView {
        EventView { title: self.title@, teaser: self.teaser@, description: self.description@ }
    }
}

impl NewEvent {
    /// The event that is added.
    pub fn into_event(self) -> (event: Event)
        ensures
            event@ == self@,
    {
        Event { title: self.title, teaser: self.teaser, description: self.description }
    }
}

impl UpdateEvent {
    /// What `current` becomes under the change.
    pub open spec fn applied_to(&self, current: EventView) -> EventView {
        EventView {
            title: changed_text(self.title, current.title),
            teaser: changed_text(self.teaser, current.teaser),
            description: changed_text(self.description, current.description),
        }
    }

    /// Whether the change names no field.
    pub fn is_empty(&self) -> (empty: bool)
        ensures
            empty == (self.title is None && self.teaser is None && self.description is None),
            empty ==> forall|current: EventView| self.applied_to(current) == current,
    {
        self.title.is_none() && self.teaser.is_none() && self.description.is_none()
    }

    /// The event that `current` becomes under the change.
    pub fn apply(self, current: &Event) -> (event: Event)
        ensures
            event@ == self.applied_to(current@),
    {
        Event {
            title: change_text(self.title, &current.title),
            teaser: change_text(self.teaser, &current.teaser),
            description: change_text(self.description, &current.description),
        }
    }
}

impl View for NewLocation {
    type V = LocationView;

    open spec fn view(&self) -> LocationView {
        LocationView { name: self.name@, address: self.address@ }
    }
}

impl NewLocation {
    /// The location that is added.
    pub fn into_location(self) -> (location: Location)
        ensures
            location@ == self@,
    {
        Location { name: self.name, address: self.address }
    }
}

impl UpdateLocation {
    /// What `current` becomes under the change.
    pub open spec fn applied_to(&self, current: LocationView) -> LocationView {
        LocationView {
            name: changed_text(self.name, current.name),
            address: changed_text(self.address, current.address),
        }
    }

    /// Whether the change names no field.
    pub fn is_empty(&self) -> (empty: bool)
        ensures
            empty == (self.name is None && self.address is None),
            empty ==> forall|current: LocationView| self.applied_to(current) == current,
    {
        self.name.is_none() && self.address.is_none()
    }

    /// The location that `current` becomes under the change.
    pub fn apply(self, current: &Location) -> (location: Location)
        ensures
            location@ == self.applied_to(current@),
    {
        Location {
            name: change_text(self.name, &current.name),
            address: change_text(self.address, &current.address),
        }
    }
}

impl NewOccurrence {
    /// The occurrence that is added, as the store keeps it.
    pub fn into_stored(self) -> (row: StoredOccurrence)
        ensures
            row.event_id@ == self.event_id@,
            row.occurrence.location_id@ == self.location_id@,
            row.occurrence.occurrence == (Occurrence {
                start: self.start,
                duration: self.duration,
            }),
    {
        StoredOccurrence {
            event_id: self.event_id,
            occurrence: OccurrenceWithLocation {
                occurrence: Occurrence { start: self.start, duration: self.duration },
                location_id: self.location_id,
            },
        }
    }
}

impl UpdateOccurrence {
    /// What `current` becomes under the change.
    pub open spec fn applied_to(&self, current: StoredOccurrence) -> StoredOccurrence {
        StoredOccurrence {
            event_id: changed_value(self.event_id, current.event_id),
            occurrence: OccurrenceWithLocation {
                occurrence: Occurrence {
                    start: changed_value(self.start, current.occurrence.occurrence.start),
                    duration: changed_value(
                        self.duration,
                        current.occurrence.occurrence.duration,
                    ),
                },
                location_id: changed_value(self.location_id, current.occurrence.location_id),
            },
        }
    }

    /// The occurrence that `current` becomes under the change.
    pub fn apply(self, current: &StoredOccurrence) -> (row: StoredOccurrence)
        ensures
            row == self.applied_to(*current),
    {
        StoredOccurrence {
            event_id: match self.event_id {
                Some(event) => event,
                None => current.event_id,
            },
            occurrence: OccurrenceWithLocation {
                occurrence: Occurrence {
                    start: match self.start {
                        Some(start) => start,
                        None => current.occurrence.occurrence.start,
                    },
                    duration: match self.duration {
                        Some(duration) => duration,
                        None => current.occurrence.occurrence.duration,
                    },
                },
                location_id: match self.location_id {
                    Some(location) => location,
                    None => current.occurrence.location_id,
                },
            },
        }
    }
}

impl Store {
    /// Changes the fields of the location under `id` that `change` names.
    /// Gives back the location as it was and as it is now.
    pub fn change_location(&mut self, id: Id<Location>, change: UpdateLocation) -> (outcome:
        Result<(Location, Location), Error>)
        requires
            old(self).wf(),
        ensures
            final(self).wf(),
            match outcome {
                Ok(pair) => lookup(old(self)@.locations, id@) == Some(pair.0@) && pair.1@
                    == change.applied_to(pair.0@) && final(self)@ == old(self)@.with_location_set(
                    id@,
                    pair.1@,
                ),
                Err(error) => !has_id(old(self)@.locations, id@) && error == Error::NotFound
                    && final(self)@ == old(self)@,
            },
    {
        let current = match self.read_location(id) {
            Ok(current) => current,
            Err(error) => {
                return Err(error);
            },
        };
        let changed = change.apply(&current);
        match self.update_location(id, changed.clone()) {
            Ok(previous) => Ok((previous, changed)),
            Err(error) => Err(error),
        }
    }

    /// Changes the fields of the event under `id` that `change` names. Gives
    /// back the event as it was and as it is now.
    pub fn change_event(&mut self, id: Id<Event>, change: UpdateEvent) -> (outcome: Result<
        (Event, Event),
        Error,
    >)
        requires
            old(self).wf(),
        ensures
            final(self).wf(),
            match outcome {
                Ok(pair) => lookup(old(self)@.events, id@) == Some(pair.0@) && pair.1@
                    == change.applied_to(pair.0@) && final(self)@ == old(self)@.with_event_set(
                    id@,
                    pair.1@,
                ),
                Err(error) => !has_id(old(self)@.events, id@) && error == Error::NotFound
                    && final(self)@ == old(self)@,
            },
    {
        let current = match self.read_event(id) {
            Ok(current) => current,
            Err(error) => {
                return Err(error);
            },
        };
        let changed = change.apply(&current);
        match self.update_event(id, changed.clone()) {
            Ok(previous) => Ok((previous, changed)),
            Err(error) => Err(error),
        }
    }

    /// Changes the fields of the occurrence under `id` that `change` names.
    /// Gives back the row as it was and as it is now. The change is refused,
    /// and the store left as it is, where it names an event that is not
    /// stored.
    pub fn change_occurrence(&mut self, id: Id<Occurrence>, change: UpdateOccurrence) -> (outcome:
        Result<(StoredOccurrence, StoredOccurrence), Error>)
        requires
            old(self).wf(),
        ensures
            final(self).wf(),
            match outcome {
                Ok(pair) => lookup(old(self)@.occurrences, id@) == Some(pair.0) && pair.1
                    == change.applied_to(pair.0) && has_id(old(self)@.events, pair.1.event_id@)
                    && final(self)@ == old(self)@.with_occurrence_set(id@, pair.1),
                Err(Error::NotFound) => !has_id(old(self)@.occurrences, id@) && final(self)@
                    == old(self)@,
                Err(Error::StorageError) => has_id(old(self)@.occurrences, id@) && !has_id(
                    old(self)@.events,
                    change.applied_to(lookup(old(self)@.occurrences, id@).unwrap()).event_id@,
                ) && final(self)@ == old(self)@,
                Err(_) => false,
            },
    {
        let current = match self.read_occurrence_row(id) {
            Ok(current) => current,
            Err(error) => {
                return Err(error);
            },
        };
        let changed = change.apply(&current);
        match self.set_occurrence(id, changed) {
            Ok(previous) => Ok((previous, changed)),
            Err(error) => Err(error),
        }
    }

    /// Stores `new` under an identifier drawn at random and gives back the
    /// identifier. Fails, and leaves the store as it is, only where the event
    /// of `new` is not stored or the identifier drawn is in use.
    pub fn add_occurrence(&mut self, new: NewOccurrence) -> (outcome: Result<
        Id<Occurrence>,
        Error,
    >)
        requires
            old(self).wf(),
        ensures
            final(self).wf(),
            match outcome {
                Ok(id) => is_random_form(id@) && !has_id(old(self)@.occurrences, id@) && has_id(
                    old(self)@.events,
                    new.event_id@,
                ) && exists|row: StoredOccurrence|
                    row.event_id@ == new.event_id@ && row.occurrence.location_id@
                        == new.location_id@ && row.occurrence.occurrence == (Occurrence {
                        start: new.start,
                        duration: new.duration,
                    }) && final(self)@ == #[trigger] old(self)@.with_occurrence(id@, row),
                Err(error) => error == Error::StorageError && final(self)@ == old(self)@ && (
                !has_id(old(self)@.events, new.event_id@) || exists|drawn: u128|
                    is_random_form(drawn) && #[trigger] has_id(old(self)@.occurrences, drawn)),
            },
    {
        let row = new.into_stored();
        let drawn: Id<Occurrence> = Id::random();
        let outcome = self.insert_occurrence(drawn, row.event_id, row.occurrence);
        proof {
            if let Ok(id) = outcome {
                let stored = StoredOccurrence {
                    event_id: row.event_id,
                    occurrence: row.occurrence,
                };
                assert(self@ == old(self)@.with_occurrence(id@, stored));
            } else if has_id(old(self)@.events, new.event_id@) {
                assert(is_random_form(drawn@) && has_id(old(self)@.occurrences, drawn@));
            }
        }
        outcome
    }
}

} // verus!
