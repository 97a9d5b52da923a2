//! The operations that every kind of entity offers: list, create, read,
//! update and delete.

use crate::error::Error;
use crate::filter::{Bounds, OccurrenceFilter};
use crate::id::{all_random_form, is_random_form, Id};
use crate::id_map::{has_id, index_of, lookup};
use crate::model::{Event, EventWithOccurrences, Location, Occurrence};
use crate::store::{new_rows, owned_by, placed, usable_ids, Store, StoreView};
use vstd::prelude::*;

verus! {

/// The five operations on the entities of kind `T` that a store holds. What
/// each of them does is stated by the predicate that stands beside it, which
/// every store defines for itself.
pub trait Actions<T>: Sized {
    /// What names an entity.
    type Id;

    /// How a deletion fails.
    type DeleteError;

    /// The invariant that every operation expects and keeps.
    spec fn valid(&self) -> bool;

    /// Whether `items` is what `all` gives of this store.
    spec fn listed(&self, items: Vec<(Self::Id, T)>) -> bool;

    /// Whether `create` with `item` may lead from `before` to `after` with
    /// `outcome`.
    spec fn created(before: Self, after: Self, item: T, outcome: Result<Self::Id, Error>) -> bool;

    /// Whether `outcome` is what `read` gives for `id` of this store.
    spec fn found(&self, id: Self::Id, outcome: Result<T, Error>) -> bool;

    /// Whether `update` of `id` with `new_item` leads from `before` to
    /// `after` with `outcome`.
    spec fn updated(
        before: Self,
        after: Self,
        id: Self::Id,
        new_item: T,
        outcome: Result<T, Error>,
    ) -> bool;

    /// Whether `delete` of `id` leads from `before` to `after` with
    /// `outcome`.
    spec fn deleted(
        before: Self,
        after: Self,
        id: Self::Id,
        outcome: Result<T, Self::DeleteError>,
    ) -> bool;

    /// Every entity under its identifier.
    fn all(&self) -> (items: Vec<(Self::Id, T)>)
        requires
            self.valid(),
        ensures
            self.listed(items),
    ;

    /// Stores `item` under an identifier drawn for it and gives back the
    /// identifier.
    fn create(&mut self, item: T) -> (outcome: Result<Self::Id, Error>)
        requires
            old(self).valid(),
        ensures
            final(self).valid(),
            Self::created(*old(self), *final(self), item, outcome),
    ;

    /// The entity under `id`.
    fn read(&self, id: Self::Id) -> (outcome: Result<T, Error>)
        requires
            self.valid(),
        ensures
            self.found(id, outcome),
    ;

    /// Puts `new_item` in the place of the entity under `id` and gives back
    /// the entity that was there.
    fn update(&mut self, id: Self::Id, new_item: T) -> (outcome: Result<T, Error>)
        requires
            old(self).valid(),
        ensures
            final(self).valid(),
            Self::updated(*old(self), *final(self), id, new_item, outcome),
    ;

    /// Takes the entity under `id` out and gives it back.
    fn delete(&mut self, id: Self::Id) -> (outcome: Result<T, Self::DeleteError>)
        requires
            old(self).valid(),
        ensures
            final(self).valid(),
            Self::deleted(*old(self), *final(self), id, outcome),
    ;
}

/// The bounds that restrict nothing.
pub open spec fn unbounded() -> Bounds {
    Bounds { before: None, after: None }
}

/// Whether the identifiers `ids`, drawn for `count` occurrences, cannot all
/// be used in `store`: one is taken or two are the same.
pub open spec fn unusable_ids(store: StoreView, ids: Seq<u128>, count: nat) -> bool {
    &&& all_random_form(ids)
    &&& ids.len() == count
    &&& !usable_ids(store.occurrences, ids, count)
}

/// Whether the identifiers `event` and `ids`, drawn for an event and its
/// `count` occurrences, cannot all be used in `store`: the one for the event
/// is taken, or of those for the occurrences one is taken or two are the
/// same.
pub open spec fn unusable_draw(store: StoreView, event: u128, ids: Seq<u128>, count: nat) -> bool {
    &&& is_random_form(event)
    &&& all_random_form(ids)
    &&& ids.len() == count
    &&& (has_id(store.events, event) || !usable_ids(store.occurrences, ids, count))
}

/// As many freshly drawn identifiers as asked for.
pub fn random_ids(count: usize) -> (ids: Vec<Id<Occurrence>>)
    ensures
        ids@.len() == count,
        all_random_form(ids.deep_view()),
{
    let mut ids: Vec<Id<Occurrence>> = Vec::new();
    while ids.len() < count
        invariant
            ids@.len() <= count,
            all_random_form(ids.deep_view()),
        decreases count - ids@.len(),
    {
        let ghost drawn = ids.deep_view();
        let id: Id<Occurrence> = Id::random();
        ids.push(id);
        proof {
            assert(ids.deep_view() =~= drawn.push(id@));
        }
    }
    ids
}

impl Actions<Location> for Store {
    type Id = Id<Location>;

    type DeleteError = Error;

    open spec fn valid(&self) -> bool {
        self.wf()
    }

    open spec fn listed(&self, items: Vec<(Id<Location>, Location)>) -> bool {
        items.deep_view() == self@.locations
    }

    /// The location is stored under an identifier drawn at random.
    /// Creation fails, leaving the store as it is, only where the identifier
    /// drawn is already in use.
    open spec fn created(
        before: Self,
        after: Self,
        item: Location,
        outcome: Result<Id<Location>, Error>,
    ) -> bool {
        match outcome {
            Ok(id) => is_random_form(id@) && !has_id(before@.locations, id@) && after@
                == before@.with_location(id@, item@),
            Err(error) => error == Error::StorageError && after@ == before@ && exists|
                drawn: u128,
            |
                is_random_form(drawn) && #[trigger] has_id(before@.locations, drawn),
        }
    }

    open spec fn found(&self, id: Id<Location>, outcome: Result<Location, Error>) -> bool {
        match outcome {
            Ok(item) => lookup(self@.locations, id@) == Some(item@),
            Err(error) => lookup(self@.locations, id@).is_none() && error == Error::NotFound,
        }
    }

    open spec fn updated(
        before: Self,
        after: Self,
        id: Id<Location>,
        new_item: Location,
        outcome: Result<Location, Error>,
    ) -> bool {
        match outcome {
            Ok(previous) => lookup(before@.locations, id@) == Some(previous@) && after@
                == before@.with_location_set(id@, new_item@),
            Err(error) => !has_id(before@.locations, id@) && error == Error::NotFound && after@
                == before@,
        }
    }

    /// A location at which an occurrence is held is not deleted.
    open spec fn deleted(
        before: Self,
        after: Self,
        id: Id<Location>,
        outcome: Result<Location, Error>,
    ) -> bool {
        match outcome {
            Ok(removed) => !before@.in_use(id@) && lookup(before@.locations, id@) == Some(
                removed@,
            ) && after@ == before@.without_location(id@),
            Err(Error::Dependency(blockers)) => before@.in_use(id@) && blockers.deep_view()
                == before@.blocking_events(id@) && blockers@.len() > 0 && after@ == before@,
            Err(Error::NotFound) => !before@.in_use(id@) && !has_id(before@.locations, id@)
                && after@ == before@,
            Err(_) => false,
        }
    }

    fn all(&self) -> (items: Vec<(Id<Location>, Location)>) {
        self.all_locations()
    }

    fn create(&mut self, item: Location) -> (outcome: Result<Id<Location>, Error>) {
        let id: Id<Location> = Id::random();
        let outcome = self.insert_location(id, item);
        proof {
            if outcome is Err {
                assert(is_random_form(id@) && has_id(old(self)@.locations, id@));
            }
        }
        outcome
    }

    fn read(&self, id: Id<Location>) -> (outcome: Result<Location, Error>) {
        self.read_location(id)
    }

    fn update(&mut self, id: Id<Location>, new_item: Location) -> (outcome: Result<
        Location,
        Error,
    >) {
        self.update_location(id, new_item)
    }

    fn delete(&mut self, id: Id<Location>) -> (outcome: Result<Location, Error>) {
        self.delete_location(id)
    }
}

impl Actions<Event> for Store {
    type Id = Id<Event>;

    type DeleteError = Error;

    open spec fn valid(&self) -> bool {
        self.wf()
    }

    open spec fn listed(&self, items: Vec<(Id<Event>, Event)>) -> bool {
        items.deep_view() == self@.events
    }

    /// The event is stored under an identifier drawn at random. Creation
    /// fails, leaving the store as it is, only where the identifier drawn is
    /// already in use.
    open spec fn created(
        before: Self,
        after: Self,
        item: Event,
        outcome: Result<Id<Event>, Error>,
    ) -> bool {
        match outcome {
            Ok(id) => is_random_form(id@) && !has_id(before@.events, id@) && after@
                == before@.with_event(id@, item@),
            Err(error) => error == Error::StorageError && after@ == before@ && exists|
                drawn: u128,
            |
                is_random_form(drawn) && #[trigger] has_id(before@.events, drawn),
        }
    }

    open spec fn found(&self, id: Id<Event>, outcome: Result<Event, Error>) -> bool {
        match outcome {
            Ok(item) => lookup(self@.events, id@) == Some(item@),
            Err(error) => lookup(self@.events, id@).is_none() && error == Error::NotFound,
        }
    }

    open spec fn updated(
        before: Self,
        after: Self,
        id: Id<Event>,
        new_item: Event,
        outcome: Result<Event, Error>,
    ) -> bool {
        match outcome {
            Ok(previous) => lookup(before@.events, id@) == Some(previous@) && after@
                == before@.with_event_set(id@, new_item@),
            Err(error) => !has_id(before@.events, id@) && error == Error::NotFound && after@
                == before@,
        }
    }

    /// The occurrences of the event leave the store with it.
    open spec fn deleted(
        before: Self,
        after: Self,
        id: Id<Event>,
        outcome: Result<Event, Error>,
    ) -> bool {
        match outcome {
            Ok(removed) => lookup(before@.events, id@) == Some(removed@) && after@
                == before@.without_event(id@),
            Err(error) => !has_id(before@.events, id@) && error == Error::NotFound && after@
                == before@,
        }
    }

    fn all(&self) -> (items: Vec<(Id<Event>, Event)>) {
        self.all_events()
    }

    fn create(&mut self, item: Event) -> (outcome: Result<Id<Event>, Error>) {
        let id: Id<Event> = Id::random();
        let outcome = self.insert_event(id, item);
        proof {
            if outcome is Err {
                assert(is_random_form(id@) && has_id(old(self)@.events, id@));
            }
        }
        outcome
    }

    fn read(&self, id: Id<Event>) -> (outcome: Result<Event, Error>) {
        self.read_event(id)
    }

    fn update(&mut self, id: Id<Event>, new_item: Event) -> (outcome: Result<Event, Error>) {
        self.update_event(id, new_item)
    }

    fn delete(&mut self, id: Id<Event>) -> (outcome: Result<Event, Error>) {
        self.delete_event(id)
    }
}

impl Actions<EventWithOccurrences> for Store {
    type Id = Id<Event>;

    type DeleteError = Error;

    open spec fn valid(&self) -> bool {
        self.wf()
    }

    open spec fn listed(&self, items: Vec<(Id<Event>, EventWithOccurrences)>) -> bool {
        items.deep_view() == self@.events_with_occurrences(unbounded())
    }

    /// The event is stored, and its occurrences behind those already there,
    /// under identifiers drawn at random. Creation fails, leaving the store
    /// as it is, only where an identifier drawn cannot be used: so never for
    /// an event without occurrences while no event is stored.
    open spec fn created(
        before: Self,
        after: Self,
        item: EventWithOccurrences,
        outcome: Result<Id<Event>, Error>,
    ) -> bool {
        match outcome {
            Ok(id) => is_random_form(id@) && !has_id(before@.events, id@) && exists|
                ids: Seq<u128>,
            |
                all_random_form(ids) && usable_ids(
                    before@.occurrences,
                    ids,
                    item@.occurrences.len(),
                ) && after@ == before@.with_event(id@, item@.event).with_occurrences(
                    #[trigger] new_rows(id, ids, item@.occurrences),
                ),
            Err(error) => error == Error::StorageError && after@ == before@ && exists|
                event: u128,
                ids: Seq<u128>,
            | #[trigger] unusable_draw(before@, event, ids, item@.occurrences.len()),
        }
    }

    open spec fn found(
        &self,
        id: Id<Event>,
        outcome: Result<EventWithOccurrences, Error>,
    ) -> bool {
        match outcome {
            Ok(item) => has_id(self@.events, id@) && item@ == self@.event_entry(
                index_of(self@.events, id@),
                unbounded(),
            ).1,
            Err(error) => !has_id(self@.events, id@) && error == Error::NotFound,
        }
    }

    /// The occurrences of the event are replaced by those of `new_item`,
    /// which come in under identifiers drawn at random. The update fails with
    /// a storage error, leaving the store as it is, only where an identifier
    /// drawn cannot be used: so never where `new_item` has no occurrences.
    open spec fn updated(
        before: Self,
        after: Self,
        id: Id<Event>,
        new_item: EventWithOccurrences,
        outcome: Result<EventWithOccurrences, Error>,
    ) -> bool {
        match outcome {
            Ok(previous) => lookup(before@.events, id@) == Some(previous@.event)
                && previous@.occurrences == before@.occurrences.filter(owned_by(id@)).map_values(
                placed(),
            ) && exists|ids: Seq<u128>|
                all_random_form(ids) && usable_ids(
                    before@.occurrences,
                    ids,
                    new_item@.occurrences.len(),
                ) && after@ == before@.with_event_set(
                    id@,
                    new_item@.event,
                ).without_occurrences_of(id@).with_occurrences(
                    #[trigger] new_rows(id, ids, new_item@.occurrences),
                ),
            Err(Error::NotFound) => !has_id(before@.events, id@) && after@ == before@,
            Err(Error::StorageError) => has_id(before@.events, id@) && after@ == before@
                && exists|ids: Seq<u128>| #[trigger]
                unusable_ids(before@, ids, new_item@.occurrences.len()),
            Err(_) => false,
        }
    }

    /// The occurrences of the event leave the store with it.
    open spec fn deleted(
        before: Self,
        after: Self,
        id: Id<Event>,
        outcome: Result<EventWithOccurrences, Error>,
    ) -> bool {
        match outcome {
            Ok(removed) => lookup(before@.events, id@) == Some(removed@.event)
                && removed@.occurrences == before@.occurrences.filter(owned_by(id@)).map_values(
                placed(),
            ) && after@ == before@.without_event(id@),
            Err(error) => !has_id(before@.events, id@) && error == Error::NotFound && after@
                == before@,
        }
    }

    fn all(&self) -> (items: Vec<(Id<Event>, EventWithOccurrences)>) {
        self.all_events_with_occurrences(&OccurrenceFilter::default())
    }

    fn create(&mut self, item: EventWithOccurrences) -> (outcome: Result<Id<Event>, Error>) {
        let ids = random_ids(item.occurrences.len());
        let event: Id<Event> = Id::random();
        let outcome = self.insert_event_with_occurrences(event, &ids, item);
        proof {
            if let Ok(id) = outcome {
                crate::id::lemma_id_by_value(id, event);
                let rows = new_rows(id, ids.deep_view(), item@.occurrences);
                assert(self@ == old(self)@.with_event(id@, item@.event).with_occurrences(rows));
            } else {
                assert(unusable_draw(
                    old(self)@,
                    event@,
                    ids.deep_view(),
                    item@.occurrences.len(),
                ));
            }
        }
        outcome
    }

    fn read(&self, id: Id<Event>) -> (outcome: Result<EventWithOccurrences, Error>) {
        self.read_event_with_occurrences(id, &OccurrenceFilter::default())
    }

    fn update(&mut self, id: Id<Event>, new_item: EventWithOccurrences) -> (outcome: Result<
        EventWithOccurrences,
        Error,
    >) {
        let ids = random_ids(new_item.occurrences.len());
        let outcome = self.replace_event_with_occurrences(id, &ids, new_item);
        proof {
            if outcome is Ok {
                let rows = new_rows(id, ids.deep_view(), new_item@.occurrences);
                assert(self@ == old(self)@.with_event_set(
                    id@,
                    new_item@.event,
                ).without_occurrences_of(id@).with_occurrences(rows));
            } else if outcome matches Err(Error::StorageError) {
                assert(unusable_ids(
                    old(self)@,
                    ids.deep_view(),
                    new_item@.occurrences.len(),
                ));
            }
        }
        outcome
    }

    fn delete(&mut self, id: Id<Event>) -> (outcome: Result<EventWithOccurrences, Error>) {
        match self.delete_event_with_occurrences(id) {
            Ok(removed) => Ok(EventWithOccurrences { event: removed.0, occurrences: removed.1 }),
            Err(error) => Err(error),
        }
    }
}

} // verus!
