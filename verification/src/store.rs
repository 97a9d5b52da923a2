//! The store: three tables held in memory, and the writes that keep them
//! consistent.

use crate::error::Error;
use crate::filter::{Bounds, OccurrenceFilter};
use crate::id::Id;
use crate::id_map::{
    deep_rows, has_id, index_of, lemma_deep_rows, lemma_filter_rows, lemma_index_of_unique,
    lemma_push_unique, lemma_remove_unique, lemma_update_unique, lookup, unique_ids, IdMap,
};
use crate::model::{
    Event, EventView, EventWithOccurrences, Location, LocationView, Occurrence,
    OccurrenceWithLocation, StoredOccurrence,
};
use vstd::prelude::*;

verus! {

/// A row of the table of occurrences.
pub type Row = (u128, StoredOccurrence);

/// The instant at which the occurrence of `row` starts.
pub open spec fn start_of(row: Row) -> int {
    row.1.occurrence.occurrence.start@
}

/// Selects the occurrences of `event` within `bounds`.
pub open spec fn of_event(event: u128, bounds: Bounds) -> spec_fn(Row) -> bool {
    |row: Row| row.1.event_id@ == event && bounds.admits(start_of(row))
}

/// Selects the occurrences that are not occurrences of `event` within
/// `bounds`.
pub open spec fn not_selected(event: u128, bounds: Bounds) -> spec_fn(Row) -> bool {
    |row: Row| !(row.1.event_id@ == event && bounds.admits(start_of(row)))
}

/// What a `Store` holds: the rows of its three tables, in insertion order.
pub struct StoreView {
    pub locations: Seq<(u128, LocationView)>,
    pub events: Seq<(u128, EventView)>,
    pub occurrences: Seq<(u128, StoredOccurrence)>,
}

impl StoreView {
    /// The constraints of the store: within a table no identifier is held
    /// twice, and every occurrence belongs to an event that is stored.
    pub open spec fn wf(self) -> bool {
        &&& unique_ids(self.locations)
        &&& unique_ids(self.events)
        &&& unique_ids(self.occurrences)
        &&& forall|i: int|
            0 <= i < self.occurrences.len() ==> has_id(
                self.events,
                (#[trigger] self.occurrences[i]).1.event_id@,
            )
    }

    /// The store with one more location.
    pub open spec fn with_location(self, id: u128, item: LocationView) -> StoreView {
        StoreView { locations: self.locations.push((id, item)), ..self }
    }

    /// The store with the location under `id` replaced.
    pub open spec fn with_location_set(self, id: u128, item: LocationView) -> StoreView {
        StoreView {
            locations: self.locations.update(index_of(self.locations, id), (id, item)),
            ..self
        }
    }

    /// The store without the location under `id`.
    pub open spec fn without_location(self, id: u128) -> StoreView {
        StoreView { locations: self.locations.remove(index_of(self.locations, id)), ..self }
    }

    /// The store with one more event.
    pub open spec fn with_event(self, id: u128, item: EventView) -> StoreView {
        StoreView { events: self.events.push((id, item)), ..self }
    }

    /// The store with the event under `id` replaced. Its occurrences stay.
    pub open spec fn with_event_set(self, id: u128, item: EventView) -> StoreView {
        StoreView { events: self.events.update(index_of(self.events, id), (id, item)), ..self }
    }

    /// The store without the occurrences of `event`.
    pub open spec fn without_occurrences_of(self, event: u128) -> StoreView {
        StoreView { occurrences: self.occurrences.filter(not_of_event(event)), ..self }
    }

    /// The store without the occurrences of `event` within `bounds`.
    pub open spec fn without_selected(self, event: u128, bounds: Bounds) -> StoreView {
        StoreView { occurrences: self.occurrences.filter(not_selected(event, bounds)), ..self }
    }

    /// The store without the event under `id` and without its occurrences.
    pub open spec fn without_event(self, id: u128) -> StoreView {
        StoreView {
            events: self.events.remove(index_of(self.events, id)),
            occurrences: self.occurrences.filter(not_of_event(id)),
            ..self
        }
    }

    /// The store with one more occurrence.
    pub open spec fn with_occurrence(self, id: u128, row: StoredOccurrence) -> StoreView {
        StoreView { occurrences: self.occurrences.push((id, row)), ..self }
    }

    /// The store with the occurrence under `id` replaced.
    pub open spec fn with_occurrence_set(self, id: u128, row: StoredOccurrence) -> StoreView {
        StoreView {
            occurrences: self.occurrences.update(index_of(self.occurrences, id), (id, row)),
            ..self
        }
    }

    /// The store without the occurrence under `id`.
    pub open spec fn without_occurrence(self, id: u128) -> StoreView {
        StoreView {
            occurrences: self.occurrences.remove(index_of(self.occurrences, id)),
            ..self
        }
    }

    /// The store with `rows` behind its occurrences.
    pub open spec fn with_occurrences(self, rows: Seq<(u128, StoredOccurrence)>) -> StoreView {
        StoreView { occurrences: self.occurrences + rows, ..self }
    }

    /// Whether some occurrence is held at `location`.
    pub open spec fn in_use(self, location: u128) -> bool {
        exists|i: int|
            0 <= i < self.occurrences.len() && (
            #[trigger] self.occurrences[i]).1.occurrence.location_id@ == location
    }

    /// Whether some occurrence of `event` is held at `location`.
    pub open spec fn holds_at(self, event: u128, location: u128) -> bool {
        exists|i: int|
            0 <= i < self.occurrences.len() && (#[trigger] self.occurrences[i]).1.event_id@
                == event && self.occurrences[i].1.occurrence.location_id@ == location
    }

    /// Selects the events of which some occurrence is held at `location`.
    pub open spec fn blocking(self, location: u128) -> spec_fn((u128, EventView)) -> bool {
        |row: (u128, EventView)| self.holds_at(row.0, location)
    }

    /// The events that stand in the way of deleting `location`: those with
    /// an occurrence held there, in table order, each once.
    pub open spec fn blocking_events(self, location: u128) -> Seq<u128> {
        self.events.filter(self.blocking(location)).map_values(row_id())
    }
}

/// The rows that hold `items` as occurrences of `event`, each under the
/// identifier at its place in `ids`.
pub open spec fn new_rows(
    event: Id<Event>,
    ids: Seq<u128>,
    items: Seq<OccurrenceWithLocation>,
) -> Seq<(u128, StoredOccurrence)> {
    Seq::new(
        ids.len(),
        |k: int| (ids[k], StoredOccurrence { event_id: event, occurrence: items[k] }),
    )
}

/// Whether `ids` can name `count` new rows of `rows`: there are `count` of
/// them, no two are the same, and none is held in `rows`.
pub open spec fn usable_ids<T>(rows: Seq<(u128, T)>, ids: Seq<u128>, count: nat) -> bool {
    &&& ids.len() == count
    &&& forall|i: int, j: int| 0 <= i < j < ids.len() ==> ids[i] != ids[j]
    &&& forall|k: int| 0 <= k < ids.len() ==> !has_id(rows, #[trigger] ids[k])
}

/// The identifier of a row.
pub open spec fn row_id<T>() -> spec_fn((u128, T)) -> u128 {
    |row: (u128, T)| row.0
}

/// A location is in use exactly where some event stands in the way of
/// deleting it.
pub proof fn lemma_in_use_blocks(store: StoreView, location: u128)
    requires
        store.wf(),
    ensures
        store.in_use(location) <==> store.blocking_events(location).len() > 0,
{
    let blocking = store.blocking(location);
    let kept = store.events.filter(blocking);
    if store.in_use(location) {
        let i = choose|i: int|
            0 <= i < store.occurrences.len() && (
            #[trigger] store.occurrences[i]).1.occurrence.location_id@ == location;
        let event = store.occurrences[i].1.event_id@;
        assert(has_id(store.events, event));
        let j = index_of(store.events, event);
        assert(store.holds_at(store.events[j].0, location));
        assert(blocking(store.events[j]));
        store.events.lemma_filter_contains(blocking, j);
        assert(kept.len() > 0);
    }
    if kept.len() > 0 {
        store.events.lemma_filter_pred(blocking, 0);
        assert(store.holds_at(kept[0].0, location));
    }
}

/// Selects the occurrences that do not belong to `event`.
pub open spec fn not_of_event(event: u128) -> spec_fn((u128, StoredOccurrence)) -> bool {
    |row: (u128, StoredOccurrence)| row.1.event_id@ != event
}

/// Selects the occurrences that belong to `event`.
pub open spec fn owned_by(event: u128) -> spec_fn((u128, StoredOccurrence)) -> bool {
    |row: (u128, StoredOccurrence)| row.1.event_id@ == event
}

/// The occurrence of a row with its location.
pub open spec fn placed() -> spec_fn((u128, StoredOccurrence)) -> OccurrenceWithLocation {
    |row: (u128, StoredOccurrence)| row.1.occurrence
}

/// One more row under selection: the selected and mapped rows grow by the
/// row's image where the row is selected, and stay as they are where it is
/// not.
pub proof fn lemma_select_step<A, B>(
    rows: Seq<A>,
    index: int,
    selected: spec_fn(A) -> bool,
    image: spec_fn(A) -> B,
)
    requires
        0 <= index < rows.len(),
    ensures
        rows.take(index + 1).filter(selected) == if selected(rows[index]) {
            rows.take(index).filter(selected).push(rows[index])
        } else {
            rows.take(index).filter(selected)
        },
        rows.take(index + 1).filter(selected).map_values(image) == if selected(rows[index]) {
            rows.take(index).filter(selected).map_values(image).push(image(rows[index]))
        } else {
            rows.take(index).filter(selected).map_values(image)
        },
{
    let shorter = rows.take(index);
    assert(rows.take(index + 1) =~= shorter.push(rows[index]));
    shorter.lemma_filter_push(rows[index], selected);
    if selected(rows[index]) {
        assert(shorter.filter(selected).push(rows[index]).map_values(image) =~= shorter.filter(
            selected,
        ).map_values(image).push(image(rows[index])));
    }
}

/// A selected row is one of the rows it was selected from, and meets the
/// selection.
pub proof fn lemma_filter_member<T>(
    rows: Seq<(u128, T)>,
    selected: spec_fn((u128, T)) -> bool,
    index: int,
)
    requires
        unique_ids(rows),
        0 <= index < rows.filter(selected).len(),
    ensures
        selected(rows.filter(selected)[index]),
        has_id(rows, rows.filter(selected)[index].0),
        rows.filter(selected)[index] == rows[index_of(rows, rows.filter(selected)[index].0)],
{
    let kept = rows.filter(selected);
    let row = kept[index];
    lemma_filter_rows(rows, selected);
    lemma_index_of_unique(kept, index);
    assert(has_id(kept, row.0));
    assert(lookup(kept, row.0) == lookup(rows, row.0));
    let place = index_of(rows, row.0);
    assert(rows[place].0 == row.0);
    assert(rows[place].1 == row.1);
    assert((rows[place].0, rows[place].1) == rows[place]);
    assert((row.0, row.1) == row);
}

/// Locations, events and occurrences, each table keyed by identifier.
pub struct Store {
    locations: IdMap<Location, Location>,
    events: IdMap<Event, Event>,
    occurrences: IdMap<Occurrence, StoredOccurrence>,
}

impl View for Store {
    type V = StoreView;

    closed spec fn view(&self) -> StoreView {
        StoreView {
            locations: deep_rows(self.locations@),
            events: deep_rows(self.events@),
            occurrences: self.occurrences@,
        }
    }
}

impl DeepView for Store {
    type V = StoreView;

    open spec fn deep_view(&self) -> StoreView {
        self@
    }
}

impl Store {
    /// The invariant of the store: the constraints hold of what it holds.
    pub open spec fn wf(&self) -> bool {
        self@.wf()
    }

    proof fn lemma_tables_wf(&self)
        requires
            self.wf(),
        ensures
            self.locations.wf(),
            self.events.wf(),
            self.occurrences.wf(),
    {
        let locations = self.locations@;
        let events = self.events@;
        assert forall|i: int, j: int| 0 <= i < j < locations.len() implies (
        #[trigger] locations[i]).0 != (#[trigger] locations[j]).0 by {
            assert(deep_rows(locations)[i].0 != deep_rows(locations)[j].0);
        }
        assert forall|i: int, j: int| 0 <= i < j < events.len() implies (#[trigger] events[i]).0
            != (#[trigger] events[j]).0 by {
            assert(deep_rows(events)[i].0 != deep_rows(events)[j].0);
        }
    }

    /// An empty store.
    pub fn new() -> (store: Self)
        ensures
            store.wf(),
            store@.locations.len() == 0,
            store@.events.len() == 0,
            store@.occurrences.len() == 0,
    {
        Store { locations: IdMap::new(), events: IdMap::new(), occurrences: IdMap::new() }
    }

    /// The store that holds the given locations and events, and no
    /// occurrences.
    pub fn from(locations: IdMap<Location, Location>, events: IdMap<Event, Event>) -> (store:
        Self)
        requires
            locations.wf(),
            events.wf(),
        ensures
            store.wf(),
            store@.locations == locations.deep_view(),
            store@.events == events.deep_view(),
            store@.occurrences.len() == 0,
    {
        proof {
            lemma_deep_rows(locations@, 0);
            lemma_deep_rows(events@, 0);
        }
        Store { locations, events, occurrences: IdMap::new() }
    }

    /// The table of locations.
    pub fn location_table(&self) -> (table: &IdMap<Location, Location>)
        requires
            self.wf(),
        ensures
            table.wf(),
            table.deep_view() == self@.locations,
    {
        proof {
            self.lemma_tables_wf();
        }
        &self.locations
    }

    /// The table of events.
    pub fn event_table(&self) -> (table: &IdMap<Event, Event>)
        requires
            self.wf(),
        ensures
            table.wf(),
            table.deep_view() == self@.events,
    {
        proof {
            self.lemma_tables_wf();
        }
        &self.events
    }

    /// The table of occurrences.
    pub fn occurrence_table(&self) -> (table: &IdMap<Occurrence, StoredOccurrence>)
        requires
            self.wf(),
        ensures
            table.wf(),
            table@ == self@.occurrences,
    {
        proof {
            self.lemma_tables_wf();
        }
        &self.occurrences
    }

    /// Stores `item` under `id`. A second location under one identifier is
    /// refused and leaves the store as it is.
    pub fn insert_location(&mut self, id: Id<Location>, item: Location) -> (outcome: Result<
        Id<Location>,
        Error,
    >)
        requires
            old(self).wf(),
        ensures
            final(self).wf(),
            match outcome {
                Ok(stored) => !has_id(old(self)@.locations, id@) && stored@ == id@ && final(self)@
                    == old(self)@.with_location(id@, item@),
                Err(error) => has_id(old(self)@.locations, id@) && error == Error::StorageError
                    && final(self)@ == old(self)@,
            },
    {
        proof {
            self.lemma_tables_wf();
            lemma_deep_rows(self.locations@, id@);
        }
        let ghost before = self.locations@;
        let ghost model = item@;
        if self.locations.insert(id, item) {
            proof {
                assert(deep_rows(self.locations@) =~= deep_rows(before).push((id@, model)));
                lemma_push_unique(deep_rows(before), id@, model);
            }
            Ok(id)
        } else {
            Err(Error::StorageError)
        }
    }

    /// The location under `id`.
    pub fn read_location(&self, id: Id<Location>) -> (found: Result<Location, Error>)
        requires
            self.wf(),
        ensures
            match found {
                Ok(item) => lookup(self@.locations, id@) == Some(item@),
                Err(error) => lookup(self@.locations, id@).is_none() && error == Error::NotFound,
            },
    {
        proof {
            self.lemma_tables_wf();
            lemma_deep_rows(self.locations@, id@);
        }
        match self.locations.get(id) {
            Some(item) => Ok(item.clone()),
            None => Err(Error::NotFound),
        }
    }

    /// Puts `item` in the place of the location under `id` and gives back
    /// the location that was there.
    pub fn update_location(&mut self, id: Id<Location>, item: Location) -> (outcome: Result<
        Location,
        Error,
    >)
        requires
            old(self).wf(),
        ensures
            final(self).wf(),
            match outcome {
                Ok(previous) => lookup(old(self)@.locations, id@) == Some(previous@) && final(self)@ == old(self)@.with_location_set(id@, item@),
                Err(error) => !has_id(old(self)@.locations, id@) && error == Error::NotFound
                    && final(self)@ == old(self)@,
            },
    {
        proof {
            self.lemma_tables_wf();
            lemma_deep_rows(self.locations@, id@);
        }
        let ghost before = self.locations@;
        let ghost model = item@;
        match self.locations.set(id, item) {
            Some(previous) => {
                proof {
                    assert(deep_rows(self.locations@) =~= deep_rows(before).update(
                        index_of(before, id@),
                        (id@, model),
                    ));
                    lemma_update_unique(deep_rows(before), id@, model);
                }
                Ok(previous)
            },
            None => Err(Error::NotFound),
        }
    }

    /// Stores `item` under `id`. A second event under one identifier is
    /// refused and leaves the store as it is.
    pub fn insert_event(&mut self, id: Id<Event>, item: Event) -> (outcome: Result<
        Id<Event>,
        Error,
    >)
        requires
            old(self).wf(),
        ensures
            final(self).wf(),
            match outcome {
                Ok(stored) => !has_id(old(self)@.events, id@) && stored@ == id@ && final(self)@
                    == old(self)@.with_event(id@, item@),
                Err(error) => has_id(old(self)@.events, id@) && error == Error::StorageError
                    && final(self)@ == old(self)@,
            },
    {
        proof {
            self.lemma_tables_wf();
            lemma_deep_rows(self.events@, id@);
        }
        let ghost before = self.events@;
        let ghost model = item@;
        if self.events.insert(id, item) {
            proof {
                assert(deep_rows(self.events@) =~= deep_rows(before).push((id@, model)));
                lemma_push_unique(deep_rows(before), id@, model);
            }
            Ok(id)
        } else {
            Err(Error::StorageError)
        }
    }

    /// The event under `id`.
    pub fn read_event(&self, id: Id<Event>) -> (found: Result<Event, Error>)
        requires
            self.wf(),
        ensures
            match found {
                Ok(item) => lookup(self@.events, id@) == Some(item@),
                Err(error) => lookup(self@.events, id@).is_none() && error == Error::NotFound,
            },
    {
        proof {
            self.lemma_tables_wf();
            lemma_deep_rows(self.events@, id@);
        }
        match self.events.get(id) {
            Some(item) => Ok(item.clone()),
            None => Err(Error::NotFound),
        }
    }

    /// Puts `item` in the place of the event under `id` and gives back the
    /// event that was there. The occurrences of the event stay.
    pub fn update_event(&mut self, id: Id<Event>, item: Event) -> (outcome: Result<Event, Error>)
        requires
            old(self).wf(),
        ensures
            final(self).wf(),
            match outcome {
                Ok(previous) => lookup(old(self)@.events, id@) == Some(previous@) && final(self)@
                    == old(self)@.with_event_set(id@, item@),
                Err(error) => !has_id(old(self)@.events, id@) && error == Error::NotFound
                    && final(self)@ == old(self)@,
            },
    {
        proof {
            self.lemma_tables_wf();
            lemma_deep_rows(self.events@, id@);
        }
        let ghost before = self.events@;
        let ghost model = item@;
        match self.events.set(id, item) {
            Some(previous) => {
                proof {
                    assert(deep_rows(self.events@) =~= deep_rows(before).update(
                        index_of(before, id@),
                        (id@, model),
                    ));
                    lemma_update_unique(deep_rows(before), id@, model);
                }
                Ok(previous)
            },
            None => Err(Error::NotFound),
        }
    }

    /// Stores `item` under `id` as an occurrence of the event `event`. The
    /// write is refused, and the store left as it is, where `id` is taken or
    /// no event is stored under `event`.
    pub fn insert_occurrence(
        &mut self,
        id: Id<Occurrence>,
        event: Id<Event>,
        item: OccurrenceWithLocation,
    ) -> (outcome: Result<Id<Occurrence>, Error>)
        requires
            old(self).wf(),
        ensures
            final(self).wf(),
            match outcome {
                Ok(stored) => !has_id(old(self)@.occurrences, id@) && has_id(
                    old(self)@.events,
                    event@,
                ) && stored@ == id@ && final(self)@ == old(self)@.with_occurrence(
                    id@,
                    StoredOccurrence { event_id: event, occurrence: item },
                ),
                Err(error) => (has_id(old(self)@.occurrences, id@) || !has_id(
                    old(self)@.events,
                    event@,
                )) && error == Error::StorageError && final(self)@ == old(self)@,
            },
    {
        proof {
            self.lemma_tables_wf();
            lemma_deep_rows(self.events@, event@);
        }
        if !self.events.contains(event) {
            return Err(Error::StorageError);
        }
        let ghost before = self.occurrences@;
        let row = StoredOccurrence { event_id: event, occurrence: item };
        if self.occurrences.insert(id, row) {
            proof {
                lemma_push_unique(before, id@, row);
            }
            Ok(id)
        } else {
            Err(Error::StorageError)
        }
    }

    /// The occurrence under `id`.
    pub fn read_occurrence(&self, id: Id<Occurrence>) -> (found: Result<
        OccurrenceWithLocation,
        Error,
    >)
        requires
            self.wf(),
        ensures
            match found {
                Ok(item) => has_id(self@.occurrences, id@) && item == self@.occurrences[index_of(
                    self@.occurrences,
                    id@,
                )].1.occurrence,
                Err(error) => !has_id(self@.occurrences, id@) && error == Error::NotFound,
            },
    {
        proof {
            self.lemma_tables_wf();
        }
        match self.occurrences.get(id) {
            Some(row) => Ok(row.occurrence),
            None => Err(Error::NotFound),
        }
    }

    /// Puts `item` in the place of the occurrence under `id`, which stays
    /// with its event, and gives back the occurrence that was there.
    pub fn update_occurrence(&mut self, id: Id<Occurrence>, item: OccurrenceWithLocation) -> (outcome:
        Result<OccurrenceWithLocation, Error>)
        requires
            old(self).wf(),
        ensures
            final(self).wf(),
            match outcome {
                Ok(previous) => has_id(old(self)@.occurrences, id@) && previous == old(self)@.occurrences[index_of(old(self)@.occurrences, id@)].1.occurrence && final(self)@
                    == old(self)@.with_occurrence_set(
                    id@,
                    StoredOccurrence {
                        event_id: old(self)@.occurrences[index_of(
                            old(self)@.occurrences,
                            id@,
                        )].1.event_id,
                        occurrence: item,
                    },
                ),
                Err(error) => !has_id(old(self)@.occurrences, id@) && error == Error::NotFound
                    && final(self)@ == old(self)@,
            },
    {
        proof {
            self.lemma_tables_wf();
        }
        let ghost before = self.occurrences@;
        let event = match self.occurrences.get(id) {
            Some(row) => row.event_id,
            None => {
                return Err(Error::NotFound);
            },
        };
        let row = StoredOccurrence { event_id: event, occurrence: item };
        match self.occurrences.set(id, row) {
            Some(previous) => {
                proof {
                    lemma_update_unique(before, id@, row);
                    let place = index_of(before, id@);
                    assert forall|i: int| 0 <= i < self.occurrences@.len() implies has_id(
                        self@.events,
                        (#[trigger] self.occurrences@[i]).1.event_id@,
                    ) by {
                        if i != place {
                            assert(self.occurrences@[i] == before[i]);
                        } else {
                            assert(before[place].1.event_id == event);
                        }
                    }
                }
                Ok(previous.occurrence)
            },
            None => Err(Error::NotFound),
        }
    }

    /// Puts `row` in the place of the occurrence under `id`, which may move
    /// to another event with it, and gives back the row that was there. The
    /// write is refused, and the store left as it is, where the event of `row`
    /// is not stored.
    pub fn set_occurrence(&mut self, id: Id<Occurrence>, row: StoredOccurrence) -> (outcome: Result<
        StoredOccurrence,
        Error,
    >)
        requires
            old(self).wf(),
        ensures
            final(self).wf(),
            match outcome {
                Ok(previous) => lookup(old(self)@.occurrences, id@) == Some(previous) && has_id(
                    old(self)@.events,
                    row.event_id@,
                ) && final(self)@ == old(self)@.with_occurrence_set(id@, row),
                Err(Error::NotFound) => !has_id(old(self)@.occurrences, id@) && final(self)@
                    == old(self)@,
                Err(Error::StorageError) => has_id(old(self)@.occurrences, id@) && !has_id(
                    old(self)@.events,
                    row.event_id@,
                ) && final(self)@ == old(self)@,
                Err(_) => false,
            },
    {
        proof {
            self.lemma_tables_wf();
            lemma_deep_rows(self.events@, row.event_id@);
        }
        if !self.occurrences.contains(id) {
            return Err(Error::NotFound);
        }
        if !self.events.contains(row.event_id) {
            return Err(Error::StorageError);
        }
        let ghost before = self.occurrences@;
        match self.occurrences.set(id, row) {
            Some(previous) => {
                proof {
                    lemma_update_unique(before, id@, row);
                    let place = index_of(before, id@);
                    assert forall|i: int| 0 <= i < self.occurrences@.len() implies has_id(
                        self@.events,
                        (#[trigger] self.occurrences@[i]).1.event_id@,
                    ) by {
                        if i != place {
                            assert(self.occurrences@[i] == before[i]);
                        }
                    }
                }
                Ok(previous)
            },
            None => Err(Error::NotFound),
        }
    }

    /// The row of the occurrence under `id`: the occurrence with the event
    /// that owns it.
    pub fn read_occurrence_row(&self, id: Id<Occurrence>) -> (found: Result<
        StoredOccurrence,
        Error,
    >)
        requires
            self.wf(),
        ensures
            match found {
                Ok(row) => lookup(self@.occurrences, id@) == Some(row),
                Err(error) => lookup(self@.occurrences, id@).is_none() && error
                    == Error::NotFound,
            },
    {
        proof {
            self.lemma_tables_wf();
        }
        match self.occurrences.get(id) {
            Some(row) => Ok(*row),
            None => Err(Error::NotFound),
        }
    }

    /// Takes the occurrence under `id` out of the store and gives it back.
    pub fn delete_occurrence(&mut self, id: Id<Occurrence>) -> (outcome: Result<
        OccurrenceWithLocation,
        Error,
    >)
        requires
            old(self).wf(),
        ensures
            final(self).wf(),
            match outcome {
                Ok(removed) => has_id(old(self)@.occurrences, id@) && removed == old(self)@.occurrences[index_of(old(self)@.occurrences, id@)].1.occurrence && final(self)@
                    == old(self)@.without_occurrence(id@),
                Err(error) => !has_id(old(self)@.occurrences, id@) && error == Error::NotFound
                    && final(self)@ == old(self)@,
            },
    {
        proof {
            self.lemma_tables_wf();
        }
        let ghost before = self.occurrences@;
        match self.occurrences.remove(id) {
            Some(removed) => {
                proof {
                    lemma_remove_unique(before, id@);
                    let place = index_of(before, id@);
                    assert forall|i: int| 0 <= i < self.occurrences@.len() implies has_id(
                        self@.events,
                        (#[trigger] self.occurrences@[i]).1.event_id@,
                    ) by {
                        if i < place {
                            assert(self.occurrences@[i] == before[i]);
                        } else {
                            assert(self.occurrences@[i] == before[i + 1]);
                        }
                    }
                }
                Ok(removed.occurrence)
            },
            None => Err(Error::NotFound),
        }
    }

    /// Takes the occurrences of `event` that `filter` selects out of the
    /// store and gives them back in table order.
    pub fn remove_selected_occurrences(&mut self, event: Id<Event>, filter: &OccurrenceFilter) -> (removed:
        Vec<OccurrenceWithLocation>)
        requires
            old(self).wf(),
        ensures
            final(self).wf(),
            final(self)@ == old(self)@.without_selected(event@, filter@),
            removed@ == old(self)@.occurrences.filter(of_event(event@, filter@)).map_values(
                placed(),
            ),
    {
        proof {
            self.lemma_tables_wf();
        }
        let ghost rows = self.occurrences@;
        let ghost leaving = of_event(event@, filter@);
        let ghost staying = not_selected(event@, filter@);
        let mut kept: IdMap<Occurrence, StoredOccurrence> = IdMap::new();
        let mut removed: Vec<OccurrenceWithLocation> = Vec::new();
        let count = self.occurrences.len();
        let mut index: usize = 0;
        proof {
            reveal(Seq::filter);
            assert(rows.take(0).filter(staying) =~= kept@);
            assert(rows.take(0).filter(leaving).map_values(placed()) =~= removed@);
        }
        while index < count
            invariant
                rows == self.occurrences@,
                leaving == of_event(event@, filter@),
                staying == not_selected(event@, filter@),
                unique_ids(rows),
                kept.wf(),
                count == rows.len(),
                index <= count,
                kept@ == rows.take(index as int).filter(staying),
                removed@ == rows.take(index as int).filter(leaving).map_values(placed()),
            decreases count - index,
        {
            let row = *self.occurrences.item_at(index);
            let id = self.occurrences.id_at(index);
            proof {
                lemma_select_step(rows, index as int, staying, placed());
                lemma_select_step(rows, index as int, leaving, placed());
                let seen = rows.take(index as int);
                assert(unique_ids(seen));
                lemma_filter_rows(seen, staying);
                if has_id(seen, id@) {
                    let place = index_of(seen, id@);
                    assert(rows[place].0 != rows[index as int].0);
                }
                assert((rows[index as int].0, rows[index as int].1) == rows[index as int]);
            }
            if row.event_id == event && filter.applies(&row.occurrence.occurrence) {
                removed.push(row.occurrence);
            } else {
                let inserted = kept.insert(id, row);
                assert(inserted);
            }
            index += 1;
        }
        self.occurrences = kept;
        proof {
            assert(rows.take(count as int) =~= rows);
            let left = rows.filter(staying);
            assert forall|i: int| 0 <= i < left.len() implies has_id(
                self@.events,
                (#[trigger] left[i]).1.event_id@,
            ) by {
                lemma_filter_member(rows, staying, i);
            }
        }
        removed
    }

    /// Takes every occurrence of `event` out of the store and gives them
    /// back in table order.
    pub fn remove_occurrences_of(&mut self, event: Id<Event>) -> (removed: Vec<
        OccurrenceWithLocation,
    >)
        requires
            old(self).wf(),
        ensures
            final(self).wf(),
            final(self)@ == old(self)@.without_occurrences_of(event@),
            removed@ == old(self)@.occurrences.filter(owned_by(event@)).map_values(placed()),
    {
        let everything = OccurrenceFilter::default();
        proof {
            assert(not_selected(event@, everything@) =~= not_of_event(event@));
            assert(of_event(event@, everything@) =~= owned_by(event@));
        }
        self.remove_selected_occurrences(event, &everything)
    }

    /// Puts `items` in the place of the occurrences of `event` that `filter`
    /// selects: these are taken out, and `items` are stored under `ids`, one
    /// identifier for each in their order. Gives back the event. Either all of
    /// it happens or none of it.
    pub fn replace_occurrences(
        &mut self,
        event: Id<Event>,
        filter: &OccurrenceFilter,
        ids: &Vec<Id<Occurrence>>,
        items: &Vec<OccurrenceWithLocation>,
    ) -> (outcome: Result<Event, Error>)
        requires
            old(self).wf(),
        ensures
            final(self).wf(),
            match outcome {
                Ok(owner) => lookup(old(self)@.events, event@) == Some(owner@) && usable_ids(
                    old(self)@.occurrences,
                    ids.deep_view(),
                    items@.len(),
                ) && final(self)@ == old(self)@.without_selected(
                    event@,
                    filter@,
                ).with_occurrences(new_rows(event, ids.deep_view(), items@)),
                Err(Error::NotFound) => !has_id(old(self)@.events, event@) && final(self)@
                    == old(self)@,
                Err(Error::StorageError) => has_id(old(self)@.events, event@) && !usable_ids(
                    old(self)@.occurrences,
                    ids.deep_view(),
                    items@.len(),
                ) && final(self)@ == old(self)@,
                Err(_) => false,
            },
    {
        let owner = match self.read_event(event) {
            Ok(owner) => owner,
            Err(error) => {
                return Err(error);
            },
        };
        if !self.ids_usable(ids, items.len()) {
            return Err(Error::StorageError);
        }
        let _ = self.remove_selected_occurrences(event, filter);
        proof {
            lemma_filter_rows(old(self)@.occurrences, not_selected(event@, filter@));
        }
        self.add_occurrences(event, ids, items);
        Ok(owner)
    }

    /// Takes the event under `id` out of the store, and all of its
    /// occurrences with it. Gives back the event and the occurrences, these in
    /// table order.
    pub fn delete_event_with_occurrences(&mut self, id: Id<Event>) -> (outcome: Result<
        (Event, Vec<OccurrenceWithLocation>),
        Error,
    >)
        requires
            old(self).wf(),
        ensures
            final(self).wf(),
            match outcome {
                Ok(removed) => lookup(old(self)@.events, id@) == Some(removed.0@) && removed.1@
                    == old(self)@.occurrences.filter(owned_by(id@)).map_values(placed())
                    && final(self)@ == old(self)@.without_event(id@),
                Err(error) => !has_id(old(self)@.events, id@) && error == Error::NotFound
                    && final(self)@ == old(self)@,
            },
    {
        proof {
            self.lemma_tables_wf();
            lemma_deep_rows(self.events@, id@);
        }
        if !self.events.contains(id) {
            return Err(Error::NotFound);
        }
        let occurrences = self.remove_occurrences_of(id);
        proof {
            self.lemma_tables_wf();
            lemma_deep_rows(self.events@, id@);
        }
        let ghost before = self.events@;
        let ghost left = self.occurrences@;
        match self.events.remove(id) {
            Some(event) => {
                proof {
                    assert(deep_rows(self.events@) =~= deep_rows(before).remove(
                        index_of(before, id@),
                    ));
                    lemma_remove_unique(deep_rows(before), id@);
                    assert forall|i: int| 0 <= i < left.len() implies has_id(
                        self@.events,
                        (#[trigger] left[i]).1.event_id@,
                    ) by {
                        lemma_filter_member(old(self)@.occurrences, not_of_event(id@), i);
                    }
                }
                Ok((event, occurrences))
            },
            None => Err(Error::NotFound),
        }
    }

    /// Takes the event under `id` out of the store, and all of its
    /// occurrences with it. Gives back the event.
    pub fn delete_event(&mut self, id: Id<Event>) -> (outcome: Result<Event, Error>)
        requires
            old(self).wf(),
        ensures
            final(self).wf(),
            match outcome {
                Ok(removed) => lookup(old(self)@.events, id@) == Some(removed@) && final(self)@
                    == old(self)@.without_event(id@),
                Err(error) => !has_id(old(self)@.events, id@) && error == Error::NotFound
                    && final(self)@ == old(self)@,
            },
    {
        match self.delete_event_with_occurrences(id) {
            Ok(removed) => Ok(removed.0),
            Err(error) => Err(error),
        }
    }

    /// Whether some occurrence of `event` is held at `location`.
    pub fn event_holds_at(&self, event: Id<Event>, location: Id<Location>) -> (found: bool)
        requires
            self.wf(),
        ensures
            found == self@.holds_at(event@, location@),
    {
        proof {
            self.lemma_tables_wf();
        }
        let mut index: usize = 0;
        while index < self.occurrences.len()
            invariant
                index <= self.occurrences@.len(),
                forall|i: int|
                    0 <= i < index ==> !((#[trigger] self.occurrences@[i]).1.event_id@ == event@
                        && self.occurrences@[i].1.occurrence.location_id@ == location@),
            decreases self.occurrences@.len() - index,
        {
            let row = self.occurrences.item_at(index);
            if row.event_id == event && row.occurrence.location_id == location {
                proof {
                    let witness = self@.occurrences[index as int];
                    assert(witness.1.event_id@ == event@ && witness.1.occurrence.location_id@
                        == location@);
                }
                return true;
            }
            index += 1;
        }
        false
    }

    /// The events that stand in the way of deleting `location`.
    pub fn blocking_events(&self, location: Id<Location>) -> (list: Vec<Id<Event>>)
        requires
            self.wf(),
        ensures
            list.deep_view() == self@.blocking_events(location@),
            list@.len() > 0 <==> self@.in_use(location@),
    {
        proof {
            self.lemma_tables_wf();
            lemma_in_use_blocks(self@, location@);
        }
        let ghost rows = self@.events;
        let ghost blocking = self@.blocking(location@);
        let mut list: Vec<Id<Event>> = Vec::new();
        let mut index: usize = 0;
        proof {
            reveal(Seq::filter);
            assert(rows.take(0).filter(blocking).map_values(row_id()) =~= list.deep_view());
        }
        while index < self.events.len()
            invariant
                self.wf(),
                rows == self@.events,
                blocking == self@.blocking(location@),
                index <= rows.len(),
                list.deep_view() == rows.take(index as int).filter(blocking).map_values(row_id()),
            decreases rows.len() - index,
        {
            let event = self.events.id_at(index);
            let ghost before = list.deep_view();
            proof {
                lemma_select_step(rows, index as int, blocking, row_id());
            }
            if self.event_holds_at(event, location) {
                list.push(event);
                proof {
                    assert(list.deep_view() =~= before.push(rows[index as int].0));
                }
            }
            index += 1;
        }
        proof {
            assert(rows.take(index as int) =~= rows);
        }
        list
    }

    /// Takes the location under `id` out of the store and gives it back,
    /// unless an occurrence is held there: then the store stays as it is and
    /// the failure names the events that own such occurrences.
    pub fn delete_location(&mut self, id: Id<Location>) -> (outcome: Result<Location, Error>)
        requires
            old(self).wf(),
        ensures
            final(self).wf(),
            match outcome {
                Ok(removed) => !old(self)@.in_use(id@) && lookup(old(self)@.locations, id@)
                    == Some(removed@) && final(self)@ == old(self)@.without_location(id@),
                Err(Error::Dependency(blockers)) => old(self)@.in_use(id@) && blockers.deep_view()
                    == old(self)@.blocking_events(id@) && blockers@.len() > 0 && final(self)@
                    == old(self)@,
                Err(Error::NotFound) => !old(self)@.in_use(id@) && !has_id(
                    old(self)@.locations,
                    id@,
                ) && final(self)@ == old(self)@,
                Err(_) => false,
            },
    {
        let blockers = self.blocking_events(id);
        if blockers.len() > 0 {
            return Err(Error::Dependency(blockers));
        }
        proof {
            self.lemma_tables_wf();
            lemma_deep_rows(self.locations@, id@);
        }
        let ghost before = self.locations@;
        match self.locations.remove(id) {
            Some(removed) => {
                proof {
                    assert(deep_rows(self.locations@) =~= deep_rows(before).remove(
                        index_of(before, id@),
                    ));
                    lemma_remove_unique(deep_rows(before), id@);
                }
                Ok(removed)
            },
            None => Err(Error::NotFound),
        }
    }

    /// Whether `ids` can name `count` new occurrences.
    pub fn ids_usable(&self, ids: &Vec<Id<Occurrence>>, count: usize) -> (usable: bool)
        requires
            self.wf(),
        ensures
            usable == usable_ids(self@.occurrences, ids.deep_view(), count as nat),
    {
        proof {
            self.lemma_tables_wf();
        }
        if ids.len() != count {
            return false;
        }
        let ghost named = ids.deep_view();
        let mut index: usize = 0;
        while index < ids.len()
            invariant
                self.occurrences.wf(),
                named == ids.deep_view(),
                index <= ids@.len(),
                forall|i: int, j: int| 0 <= i < j < index ==> named[i] != named[j],
                forall|k: int| 0 <= k < index ==> !has_id(self.occurrences@, #[trigger] named[k]),
            decreases ids@.len() - index,
        {
            let id = ids[index];
            if self.occurrences.contains(id) {
                proof {
                    assert(has_id(self.occurrences@, named[index as int]));
                }
                return false;
            }
            let mut earlier: usize = 0;
            while earlier < index
                invariant
                    named == ids.deep_view(),
                    earlier <= index < ids@.len(),
                    id@ == named[index as int],
                    forall|i: int| 0 <= i < earlier ==> named[i] != named[index as int],
                decreases index - earlier,
            {
                if ids[earlier] == id {
                    proof {
                        assert(named[earlier as int] == named[index as int]);
                    }
                    return false;
                }
                earlier += 1;
            }
            index += 1;
        }
        true
    }

    fn add_occurrences(
        &mut self,
        event: Id<Event>,
        ids: &Vec<Id<Occurrence>>,
        items: &Vec<OccurrenceWithLocation>,
    )
        requires
            old(self).wf(),
            has_id(old(self)@.events, event@),
            usable_ids(old(self)@.occurrences, ids.deep_view(), items@.len()),
        ensures
            final(self).wf(),
            final(self)@ == old(self)@.with_occurrences(new_rows(event, ids.deep_view(), items@)),
    {
        proof {
            self.lemma_tables_wf();
        }
        let ghost before = self@;
        let ghost named = ids.deep_view();
        let ghost added = new_rows(event, named, items@);
        let mut index: usize = 0;
        proof {
            assert(before.occurrences + added.take(0) =~= before.occurrences);
        }
        while index < ids.len()
            invariant
                before.wf(),
                has_id(before.events, event@),
                usable_ids(before.occurrences, named, items@.len()),
                named == ids.deep_view(),
                added == new_rows(event, named, items@),
                index <= ids@.len(),
                self.occurrences.wf(),
                self@.locations == before.locations,
                self@.events == before.events,
                self.occurrences@ == before.occurrences + added.take(index as int),
            decreases ids@.len() - index,
        {
            let id = ids[index];
            let row = StoredOccurrence { event_id: event, occurrence: items[index] };
            proof {
                let held = self.occurrences@;
                if has_id(held, id@) {
                    let place = index_of(held, id@);
                    if place < before.occurrences.len() {
                        assert(before.occurrences[place].0 == id@);
                        assert(has_id(before.occurrences, named[index as int]));
                    } else {
                        let earlier = place - before.occurrences.len();
                        assert(added[earlier].0 == named[earlier]);
                        assert(named[earlier] != named[index as int]);
                    }
                }
                assert(added[index as int] == (id@, row));
                assert(before.occurrences + added.take(index + 1) =~= held.push((id@, row)));
            }
            let inserted = self.occurrences.insert(id, row);
            assert(inserted);
            index += 1;
        }
        proof {
            assert(added.take(index as int) =~= added);
            let held = self@.occurrences;
            assert forall|i: int| 0 <= i < held.len() implies has_id(
                self@.events,
                (#[trigger] held[i]).1.event_id@,
            ) by {
                if i < before.occurrences.len() {
                    assert(held[i] == before.occurrences[i]);
                } else {
                    assert(held[i] == added[i - before.occurrences.len()]);
                }
            }
        }
    }

    /// Stores an event under `event` and its occurrences under `ids`, one
    /// identifier for each occurrence in their order. Either all of it is
    /// stored or, where an identifier cannot be used, none of it.
    pub fn insert_event_with_occurrences(
        &mut self,
        event: Id<Event>,
        ids: &Vec<Id<Occurrence>>,
        item: EventWithOccurrences,
    ) -> (outcome: Result<Id<Event>, Error>)
        requires
            old(self).wf(),
        ensures
            final(self).wf(),
            match outcome {
                Ok(stored) => !has_id(old(self)@.events, event@) && usable_ids(
                    old(self)@.occurrences,
                    ids.deep_view(),
                    item@.occurrences.len(),
                ) && stored@ == event@ && final(self)@ == old(self)@.with_event(
                    event@,
                    item@.event,
                ).with_occurrences(new_rows(event, ids.deep_view(), item@.occurrences)),
                Err(error) => (has_id(old(self)@.events, event@) || !usable_ids(
                    old(self)@.occurrences,
                    ids.deep_view(),
                    item@.occurrences.len(),
                )) && error == Error::StorageError && final(self)@ == old(self)@,
            },
    {
        if !self.ids_usable(ids, item.occurrences.len()) {
            return Err(Error::StorageError);
        }
        let EventWithOccurrences { event: head, occurrences } = item;
        match self.insert_event(event, head) {
            Ok(stored) => {
                proof {
                    lemma_push_unique(old(self)@.events, event@, head@);
                }
                self.add_occurrences(event, ids, &occurrences);
                Ok(stored)
            },
            Err(error) => Err(error),
        }
    }

    /// Puts `item` in the place of the event under `event`: the event is
    /// replaced, its occurrences are taken out, and those of `item` are stored
    /// under `ids`. Gives back the event and the occurrences that were there.
    /// Either all of it happens or none of it.
    pub fn replace_event_with_occurrences(
        &mut self,
        event: Id<Event>,
        ids: &Vec<Id<Occurrence>>,
        item: EventWithOccurrences,
    ) -> (outcome: Result<EventWithOccurrences, Error>)
        requires
            old(self).wf(),
        ensures
            final(self).wf(),
            match outcome {
                Ok(previous) => lookup(old(self)@.events, event@) == Some(previous@.event)
                    && previous@.occurrences == old(self)@.occurrences.filter(
                    owned_by(event@),
                ).map_values(placed()) && usable_ids(
                    old(self)@.occurrences,
                    ids.deep_view(),
                    item@.occurrences.len(),
                ) && final(self)@ == old(self)@.with_event_set(
                    event@,
                    item@.event,
                ).without_occurrences_of(event@).with_occurrences(
                    new_rows(event, ids.deep_view(), item@.occurrences),
                ),
                Err(Error::NotFound) => !has_id(old(self)@.events, event@) && final(self)@
                    == old(self)@,
                Err(Error::StorageError) => has_id(old(self)@.events, event@) && !usable_ids(
                    old(self)@.occurrences,
                    ids.deep_view(),
                    item@.occurrences.len(),
                ) && final(self)@ == old(self)@,
                Err(_) => false,
            },
    {
        proof {
            self.lemma_tables_wf();
            lemma_deep_rows(self.events@, event@);
        }
        if !self.events.contains(event) {
            return Err(Error::NotFound);
        }
        if !self.ids_usable(ids, item.occurrences.len()) {
            return Err(Error::StorageError);
        }
        let EventWithOccurrences { event: head, occurrences } = item;
        let removed = self.remove_occurrences_of(event);
        proof {
            lemma_filter_rows(old(self)@.occurrences, not_of_event(event@));
        }
        match self.update_event(event, head) {
            Ok(previous) => {
                proof {
                    lemma_update_unique(old(self)@.events, event@, head@);
                }
                self.add_occurrences(event, ids, &occurrences);
                Ok(EventWithOccurrences { event: previous, occurrences: removed })
            },
            Err(error) => Err(error),
        }
    }
}

} // verus!
