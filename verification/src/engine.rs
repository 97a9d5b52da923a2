//! The composite views over the store: events with their occurrences,
//! locations with theirs, and the overview of both, each under a filter.

use crate::error::Error;
use crate::filter::{Bounds, OccurrenceFilter};
use crate::id::Id;
use crate::id_map::{deep_rows, has_id, index_of, lemma_deep_rows, lookup};
use crate::model::{
    Event, EventView, EventWithOccurrences, EventWithOccurrencesView, Location,
    LocationWithOccurrences, LocationWithOccurrencesView, Occurrence, OccurrenceWithEvent,
    OccurrenceWithEventView, OccurrenceWithLocation, Overview, OverviewView, StoredOccurrence,
};
use crate::schedule::{
    ascending, ascending_days, entry_day, entry_start, group_by_date, grouping_of, has_day,
    on_day, sort_by_start, stable_sort_of, starts_at, Day, Entry,
};
use crate::store::{lemma_select_step, of_event, placed, start_of, Row, Store, StoreView};
use crate::time::Date;
use vstd::prelude::*;

verus! {

/// Selects the occurrences within `bounds`.
pub open spec fn within(bounds: Bounds) -> spec_fn(Row) -> bool {
    |row: Row| bounds.admits(start_of(row))
}

/// Selects the occurrences held at `location` within `bounds`.
pub open spec fn at_location(location: u128, bounds: Bounds) -> spec_fn(Row) -> bool {
    |row: Row| row.1.occurrence.location_id@ == location && bounds.admits(start_of(row))
}

/// The occurrence of a row under its own identifier.
pub open spec fn keyed() -> spec_fn(Row) -> (u128, Occurrence) {
    |row: Row| (row.0, row.1.occurrence.occurrence)
}

/// The occurrence of a row paired with the event that owns it, looked up in
/// `events`.
pub open spec fn joined(events: Seq<(u128, EventView)>) -> spec_fn(Row) -> Entry {
    |row: Row|
        OccurrenceWithEventView {
            occurrence: row.1.occurrence,
            event_id: row.1.event_id@,
            event: lookup(events, row.1.event_id@).unwrap(),
        }
}

/// `days` is the schedule of `entries`: the days ascend, each day holds
/// exactly the entries that start on it, in ascending order of start and, at
/// one instant, in the order they have in `entries`; no day is empty, and no
/// entry is left out.
pub open spec fn schedule_of(days: Seq<Day>, entries: Seq<Entry>) -> bool {
    &&& ascending_days(days)
    &&& forall|i: int|
        0 <= i < days.len() ==> stable_sort_of(
            (#[trigger] days[i]).1,
            entries.filter(on_day(days[i].0)),
        ) && days[i].1.len() > 0
    &&& forall|k: int| 0 <= k < entries.len() ==> has_day(days, entry_day(#[trigger] entries[k]))
}

/// Selecting twice gives the same whichever selection comes first.
pub proof fn lemma_filter_commute<A>(
    list: Seq<A>,
    first: spec_fn(A) -> bool,
    second: spec_fn(A) -> bool,
)
    ensures
        list.filter(first).filter(second) == list.filter(second).filter(first),
    decreases list.len(),
{
    reveal(Seq::filter);
    if list.len() > 0 {
        let shorter = list.drop_last();
        let last = list.last();
        lemma_filter_commute(shorter, first, second);
        shorter.filter(first).lemma_filter_push(last, second);
        shorter.filter(second).lemma_filter_push(last, first);
    } else {
        assert(list.filter(first) =~= list);
        assert(list.filter(second) =~= list);
    }
}

/// What is selected from an ascending list ascends.
pub proof fn lemma_filter_ascending(list: Seq<Entry>, selected: spec_fn(Entry) -> bool)
    requires
        ascending(list),
    ensures
        ascending(list.filter(selected)),
    decreases list.len(),
{
    reveal(Seq::filter);
    if list.len() > 0 {
        let shorter = list.drop_last();
        let last = list.last();
        assert forall|i: int, j: int| 0 <= i < j < shorter.len() implies entry_start(
            #[trigger] shorter[i],
        ) <= entry_start(#[trigger] shorter[j]) by {
            assert(entry_start(list[i]) <= entry_start(list[j]));
        }
        lemma_filter_ascending(shorter, selected);
        let kept = shorter.filter(selected);
        if selected(last) {
            let longer = kept.push(last);
            assert forall|i: int, j: int| 0 <= i < j < longer.len() implies entry_start(
                #[trigger] longer[i],
            ) <= entry_start(#[trigger] longer[j]) by {
                if j == kept.len() {
                    assert(kept.contains(kept[i]));
                    shorter.lemma_filter_contains_rev(selected, kept[i]);
                    let place = choose|place: int|
                        0 <= place < shorter.len() && shorter[place] == kept[i];
                    assert(entry_start(list[place]) <= entry_start(list[list.len() - 1]));
                } else {
                    assert(entry_start(kept[i]) <= entry_start(kept[j]));
                }
            }
        }
    }
}

/// A sorted list collected by day is the schedule of the list it was sorted
/// from.
pub proof fn lemma_schedule(days: Seq<Day>, sorted: Seq<Entry>, entries: Seq<Entry>)
    requires
        grouping_of(days, sorted),
        stable_sort_of(sorted, entries),
    ensures
        schedule_of(days, entries),
{
    assert forall|i: int| 0 <= i < days.len() implies stable_sort_of(
        (#[trigger] days[i]).1,
        entries.filter(on_day(days[i].0)),
    ) && days[i].1.len() > 0 by {
        let day = on_day(days[i].0);
        lemma_filter_ascending(sorted, day);
        assert forall|start: int| #[trigger]
            days[i].1.filter(starts_at(start)) == entries.filter(day).filter(
                starts_at(start),
            ) by {
            lemma_filter_commute(sorted, day, starts_at(start));
            lemma_filter_commute(entries, day, starts_at(start));
            assert(sorted.filter(starts_at(start)) == entries.filter(starts_at(start)));
        }
    }
    assert forall|k: int| 0 <= k < entries.len() implies has_day(
        days,
        entry_day(#[trigger] entries[k]),
    ) by {
        let at = starts_at(entry_start(entries[k]));
        entries.lemma_filter_contains(at, k);
        assert(sorted.filter(at) == entries.filter(at));
        sorted.lemma_filter_contains_rev(at, entries[k]);
        let place = choose|place: int| 0 <= place < sorted.len() && sorted[place] == entries[k];
        assert(has_day(days, entry_day(sorted[place])));
    }
}

impl StoreView {
    /// The occurrences within `bounds`, each with its event, in table order.
    pub open spec fn entries(self, bounds: Bounds) -> Seq<Entry> {
        self.occurrences.filter(within(bounds)).map_values(joined(self.events))
    }

    /// The occurrences of `event` within `bounds`, in table order.
    pub open spec fn event_occurrences(self, event: u128, bounds: Bounds) -> Seq<
        OccurrenceWithLocation,
    > {
        self.occurrences.filter(of_event(event, bounds)).map_values(placed())
    }

    /// The event at place `index` of its table with its occurrences within
    /// `bounds`.
    pub open spec fn event_entry(self, index: int, bounds: Bounds) -> (
        u128,
        EventWithOccurrencesView,
    ) {
        (
            self.events[index].0,
            EventWithOccurrencesView {
                event: self.events[index].1,
                occurrences: self.event_occurrences(self.events[index].0, bounds),
            },
        )
    }

    /// Every event, in table order, each with its occurrences within
    /// `bounds`. An event without such occurrences stands with an empty list.
    pub open spec fn events_with_occurrences(self, bounds: Bounds) -> Seq<
        (u128, EventWithOccurrencesView),
    > {
        Seq::new(self.events.len(), |index: int| self.event_entry(index, bounds))
    }

    /// The occurrences held at `location` within `bounds`, in table order,
    /// each under its identifier.
    pub open spec fn location_occurrences(self, location: u128, bounds: Bounds) -> Seq<
        (u128, Occurrence),
    > {
        self.occurrences.filter(at_location(location, bounds)).map_values(keyed())
    }

    /// The location at place `index` of its table with the occurrences held
    /// at it within `bounds`.
    pub open spec fn location_entry(self, index: int, bounds: Bounds) -> (
        u128,
        LocationWithOccurrencesView,
    ) {
        (
            self.locations[index].0,
            LocationWithOccurrencesView {
                location: self.locations[index].1,
                occurrences: self.location_occurrences(self.locations[index].0, bounds),
            },
        )
    }

    /// Every location, in table order, each with the occurrences held at it
    /// within `bounds`.
    pub open spec fn locations_with_occurrences(self, bounds: Bounds) -> Seq<
        (u128, LocationWithOccurrencesView),
    > {
        Seq::new(self.locations.len(), |index: int| self.location_entry(index, bounds))
    }

    /// Every location, and every event with its occurrences within `bounds`.
    pub open spec fn overview(self, bounds: Bounds) -> OverviewView {
        OverviewView { locations: self.locations, events: self.events_with_occurrences(bounds) }
    }
}

impl Store {
    /// The occurrences of `event` that `filter` selects, in table order.
    pub fn occurrences_of_event(&self, event: Id<Event>, filter: &OccurrenceFilter) -> (list: Vec<
        OccurrenceWithLocation,
    >)
        requires
            self.wf(),
        ensures
            list@ == self@.event_occurrences(event@, filter@),
    {
        let table = self.occurrence_table();
        let mut list: Vec<OccurrenceWithLocation> = Vec::new();
        let mut index: usize = 0;
        proof {
            reveal(Seq::filter);
            assert(table@.take(0).filter(of_event(event@, filter@)).map_values(placed()) =~= list@);
        }
        while index < table.len()
            invariant
                index <= table@.len(),
                list@ == table@.take(index as int).filter(of_event(event@, filter@)).map_values(
                    placed(),
                ),
            decreases table@.len() - index,
        {
            let row = table.item_at(index);
            proof {
                lemma_select_step(table@, index as int, of_event(event@, filter@), placed());
            }
            if row.event_id == event && filter.applies(&row.occurrence.occurrence) {
                list.push(row.occurrence);
            }
            index += 1;
        }
        proof {
            assert(table@.take(index as int) =~= table@);
        }
        list
    }

    /// The rows of the occurrences of `event` that `filter` selects, in table
    /// order.
    pub fn rows_of_event(&self, event: Id<Event>, filter: &OccurrenceFilter) -> (list: Vec<
        (Id<Occurrence>, StoredOccurrence),
    >)
        requires
            self.wf(),
        ensures
            list.deep_view() == self@.occurrences.filter(of_event(event@, filter@)),
    {
        let table = self.occurrence_table();
        let mut list: Vec<(Id<Occurrence>, StoredOccurrence)> = Vec::new();
        let mut index: usize = 0;
        proof {
            reveal(Seq::filter);
            assert(table@.take(0).filter(of_event(event@, filter@)) =~= list.deep_view());
        }
        while index < table.len()
            invariant
                index <= table@.len(),
                list.deep_view() == table@.take(index as int).filter(of_event(event@, filter@)),
            decreases table@.len() - index,
        {
            let row = table.item_at(index);
            let ghost before = list.deep_view();
            proof {
                lemma_select_step(table@, index as int, of_event(event@, filter@), placed());
            }
            if row.event_id == event && filter.applies(&row.occurrence.occurrence) {
                list.push((table.id_at(index), *row));
                proof {
                    assert(list.deep_view() =~= before.push(table@[index as int]));
                }
            }
            index += 1;
        }
        proof {
            assert(table@.take(index as int) =~= table@);
        }
        list
    }

    /// The rows of the occurrences held at `location` that `filter` selects,
    /// in table order.
    pub fn rows_at_location(&self, location: Id<Location>, filter: &OccurrenceFilter) -> (list:
        Vec<(Id<Occurrence>, StoredOccurrence)>)
        requires
            self.wf(),
        ensures
            list.deep_view() == self@.occurrences.filter(at_location(location@, filter@)),
    {
        let table = self.occurrence_table();
        let mut list: Vec<(Id<Occurrence>, StoredOccurrence)> = Vec::new();
        let mut index: usize = 0;
        proof {
            reveal(Seq::filter);
            assert(table@.take(0).filter(at_location(location@, filter@)) =~= list.deep_view());
        }
        while index < table.len()
            invariant
                index <= table@.len(),
                list.deep_view() == table@.take(index as int).filter(
                    at_location(location@, filter@),
                ),
            decreases table@.len() - index,
        {
            let row = table.item_at(index);
            let ghost before = list.deep_view();
            proof {
                lemma_select_step(table@, index as int, at_location(location@, filter@), placed());
            }
            if row.occurrence.location_id == location && filter.applies(
                &row.occurrence.occurrence,
            ) {
                list.push((table.id_at(index), *row));
                proof {
                    assert(list.deep_view() =~= before.push(table@[index as int]));
                }
            }
            index += 1;
        }
        proof {
            assert(table@.take(index as int) =~= table@);
        }
        list
    }

    /// The occurrences held at `location` that `filter` selects, in table
    /// order, each under its identifier.
    pub fn occurrences_at_location(
        &self,
        location: Id<Location>,
        filter: &OccurrenceFilter,
    ) -> (list: Vec<(Id<Occurrence>, Occurrence)>)
        requires
            self.wf(),
        ensures
            list.deep_view() == self@.location_occurrences(location@, filter@),
    {
        let table = self.occurrence_table();
        let mut list: Vec<(Id<Occurrence>, Occurrence)> = Vec::new();
        let mut index: usize = 0;
        proof {
            reveal(Seq::filter);
            assert(table@.take(0).filter(at_location(location@, filter@)).map_values(keyed())
                =~= list.deep_view());
        }
        while index < table.len()
            invariant
                index <= table@.len(),
                list.deep_view() == table@.take(index as int).filter(
                    at_location(location@, filter@),
                ).map_values(keyed()),
            decreases table@.len() - index,
        {
            let row = table.item_at(index);
            let ghost before = list.deep_view();
            proof {
                lemma_select_step(table@, index as int, at_location(location@, filter@), keyed());
            }
            if row.occurrence.location_id == location && filter.applies(
                &row.occurrence.occurrence,
            ) {
                list.push((table.id_at(index), row.occurrence.occurrence));
                proof {
                    assert(list.deep_view() =~= before.push(keyed()(table@[index as int])));
                }
            }
            index += 1;
        }
        proof {
            assert(table@.take(index as int) =~= table@);
        }
        list
    }

    /// Every event with the occurrences of it that `filter` selects. An event
    /// of which the filter selects nothing is listed with no occurrences.
    pub fn all_events_with_occurrences(&self, filter: &OccurrenceFilter) -> (list: Vec<
        (Id<Event>, EventWithOccurrences),
    >)
        requires
            self.wf(),
        ensures
            list.deep_view() == self@.events_with_occurrences(filter@),
    {
        let table = self.event_table();
        let mut list: Vec<(Id<Event>, EventWithOccurrences)> = Vec::new();
        let mut index: usize = 0;
        while index < table.len()
            invariant
                self.wf(),
                index <= table@.len(),
                table.deep_view() == self@.events,
                list@.len() == index,
                forall|k: int|
                    0 <= k < index ==> (#[trigger] list@[k]).deep_view() == self@.event_entry(
                        k,
                        filter@,
                    ),
            decreases table@.len() - index,
        {
            let id = table.id_at(index);
            let event = table.item_at(index).clone();
            let occurrences = self.occurrences_of_event(id, filter);
            list.push((id, EventWithOccurrences { event, occurrences }));
            index += 1;
        }
        proof {
            assert(list.deep_view() =~= self@.events_with_occurrences(filter@));
        }
        list
    }

    /// The event under `id` with the occurrences of it that `filter`
    /// selects.
    pub fn read_event_with_occurrences(&self, id: Id<Event>, filter: &OccurrenceFilter) -> (found:
        Result<EventWithOccurrences, Error>)
        requires
            self.wf(),
        ensures
            match found {
                Ok(item) => has_id(self@.events, id@) && item@ == self@.event_entry(
                    index_of(self@.events, id@),
                    filter@,
                ).1,
                Err(error) => !has_id(self@.events, id@) && error == Error::NotFound,
            },
    {
        let table = self.event_table();
        proof {
            lemma_deep_rows(table@, id@);
        }
        match table.get(id) {
            Some(event) => {
                let occurrences = self.occurrences_of_event(id, filter);
                Ok(EventWithOccurrences { event: event.clone(), occurrences })
            },
            None => Err(Error::NotFound),
        }
    }

    /// Every location with the occurrences held at it that `filter` selects.
    pub fn locations_with_occurrences(&self, filter: &OccurrenceFilter) -> (list: Vec<
        (Id<Location>, LocationWithOccurrences),
    >)
        requires
            self.wf(),
        ensures
            list.deep_view() == self@.locations_with_occurrences(filter@),
    {
        let table = self.location_table();
        let mut list: Vec<(Id<Location>, LocationWithOccurrences)> = Vec::new();
        let mut index: usize = 0;
        while index < table.len()
            invariant
                self.wf(),
                index <= table@.len(),
                table.deep_view() == self@.locations,
                list@.len() == index,
                forall|k: int|
                    0 <= k < index ==> (#[trigger] list@[k]).deep_view() == self@.location_entry(
                        k,
                        filter@,
                    ),
            decreases table@.len() - index,
        {
            let id = table.id_at(index);
            let location = table.item_at(index).clone();
            let occurrences = self.occurrences_at_location(id, filter);
            list.push((id, LocationWithOccurrences { location, occurrences }));
            index += 1;
        }
        proof {
            assert(list.deep_view() =~= self@.locations_with_occurrences(filter@));
        }
        list
    }

    /// Every location, whatever the filter.
    pub fn all_locations(&self) -> (list: Vec<(Id<Location>, Location)>)
        requires
            self.wf(),
        ensures
            list.deep_view() == self@.locations,
    {
        let table = self.location_table();
        let mut list: Vec<(Id<Location>, Location)> = Vec::new();
        let mut index: usize = 0;
        while index < table.len()
            invariant
                index <= table@.len(),
                list@.len() == index,
                forall|k: int|
                    0 <= k < index ==> (#[trigger] list@[k]).deep_view() == deep_rows(table@)[k],
            decreases table@.len() - index,
        {
            list.push((table.id_at(index), table.item_at(index).clone()));
            index += 1;
        }
        proof {
            assert(list.deep_view() =~= deep_rows(table@));
        }
        list
    }

    /// Every event, without its occurrences.
    pub fn all_events(&self) -> (list: Vec<(Id<Event>, Event)>)
        requires
            self.wf(),
        ensures
            list.deep_view() == self@.events,
    {
        let table = self.event_table();
        let mut list: Vec<(Id<Event>, Event)> = Vec::new();
        let mut index: usize = 0;
        while index < table.len()
            invariant
                index <= table@.len(),
                list@.len() == index,
                forall|k: int|
                    0 <= k < index ==> (#[trigger] list@[k]).deep_view() == deep_rows(table@)[k],
            decreases table@.len() - index,
        {
            list.push((table.id_at(index), table.item_at(index).clone()));
            index += 1;
        }
        proof {
            assert(list.deep_view() =~= deep_rows(table@));
        }
        list
    }

    /// The whole of the store as one value: every location, and every event
    /// with the occurrences of it that `filter` selects.
    pub fn read_all(&self, filter: &OccurrenceFilter) -> (overview: Overview)
        requires
            self.wf(),
        ensures
            overview@ == self@.overview(filter@),
    {
        let locations = self.all_locations();
        let events = self.all_events_with_occurrences(filter);
        Overview { locations, events }
    }

    /// The occurrences that `filter` selects, each with the event that owns
    /// it, in table order.
    pub fn entries(&self, filter: &OccurrenceFilter) -> (list: Vec<OccurrenceWithEvent>)
        requires
            self.wf(),
        ensures
            list.deep_view() == self@.entries(filter@),
    {
        let table = self.occurrence_table();
        let events = self.event_table();
        let mut list: Vec<OccurrenceWithEvent> = Vec::new();
        let mut index: usize = 0;
        proof {
            reveal(Seq::filter);
            assert(table@.take(0).filter(within(filter@)).map_values(joined(self@.events))
                =~= list.deep_view());
        }
        while index < table.len()
            invariant
                self.wf(),
                table@ == self@.occurrences,
                events.wf(),
                events.deep_view() == self@.events,
                index <= table@.len(),
                list.deep_view() == table@.take(index as int).filter(within(filter@)).map_values(
                    joined(self@.events),
                ),
            decreases table@.len() - index,
        {
            let row = table.item_at(index);
            let ghost before = list.deep_view();
            proof {
                lemma_select_step(table@, index as int, within(filter@), joined(self@.events));
                assert(has_id(self@.events, table@[index as int].1.event_id@));
                lemma_deep_rows(events@, row.event_id@);
            }
            if filter.applies(&row.occurrence.occurrence) {
                match events.get(row.event_id) {
                    Some(event) => {
                        list.push(
                            OccurrenceWithEvent {
                                occurrence: row.occurrence,
                                event_id: row.event_id,
                                event: event.clone(),
                            },
                        );
                        proof {
                            assert(list.deep_view() =~= before.push(
                                joined(self@.events)(table@[index as int]),
                            ));
                        }
                    },
                    None => {
                        proof {
                            assert(false);
                        }
                    },
                }
            }
            index += 1;
        }
        proof {
            assert(table@.take(index as int) =~= table@);
        }
        list
    }

    /// The occurrences that `filter` selects, each with the event that owns
    /// it, in ascending order of start. Occurrences that start at one instant
    /// stand in table order.
    pub fn occurrences(&self, filter: &OccurrenceFilter) -> (list: Vec<OccurrenceWithEvent>)
        requires
            self.wf(),
        ensures
            stable_sort_of(list.deep_view(), self@.entries(filter@)),
            list@.len() == self@.entries(filter@).len(),
    {
        sort_by_start(self.entries(filter))
    }

    /// The schedule: the occurrences that `filter` selects, each with the
    /// event that owns it, collected by the day on which they start. Days come
    /// in ascending order, and so do the starts within a day.
    pub fn occurrences_by_date(&self, filter: &OccurrenceFilter) -> (days: Vec<
        (Date, Vec<OccurrenceWithEvent>),
    >)
        requires
            self.wf(),
        ensures
            schedule_of(days.deep_view(), self@.entries(filter@)),
    {
        let sorted = self.occurrences(filter);
        let ghost listed = sorted.deep_view();
        let days = group_by_date(sorted);
        proof {
            lemma_schedule(days.deep_view(), listed, self@.entries(filter@));
        }
        days
    }
}

} // verus!
