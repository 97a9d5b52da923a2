//! What holds of the store's operations taken together.

use crate::action::unbounded;
use crate::filter::{upcoming_bounds, Bounds};
use crate::id::Id;
use crate::id_map::{
    has_id, index_of, lemma_filter_rows, lemma_index_of_unique, lemma_push_unique,
    lemma_remove_unique, lemma_update_unique, lookup, unique_ids,
};
use crate::model::{Event, EventView, LocationView, OccurrenceWithLocation, StoredOccurrence};
use crate::schedule::lemma_filter_none;
use crate::store::{
    lemma_in_use_blocks, new_rows, not_of_event, of_event, placed, start_of, usable_ids, StoreView,
};
use crate::time::{day_of, midnight_of};
use vstd::prelude::*;

verus! {

/// A filter with a lower bound leaves out what starts exactly at the bound,
/// and so does the filter for "from today on" with what starts at the
/// midnight that began the day.
pub proof fn law_lower_bound_is_exclusive(bounds: Bounds, now: int)
    ensures
        bounds.after is Some ==> !bounds.admits(bounds.after->0),
        bounds.before is Some ==> !bounds.admits(bounds.before->0),
        !upcoming_bounds(now).admits(midnight_of(day_of(now))),
        forall|start: int| start > midnight_of(day_of(now)) ==> upcoming_bounds(now).admits(start),
{
}

/// A location that was stored is read back as it was stored, and what was
/// stored before it is read back as before.
pub proof fn law_location_round_trip(store: StoreView, id: u128, item: LocationView)
    requires
        store.wf(),
        !has_id(store.locations, id),
    ensures
        store.with_location(id, item).wf(),
        lookup(store.with_location(id, item).locations, id) == Some(item),
        forall|other: u128|
            other != id ==> lookup(store.with_location(id, item).locations, other) == lookup(
                store.locations,
                other,
            ),
{
    lemma_push_unique(store.locations, id, item);
}

/// An event that was stored is read back as it was stored, and what was
/// stored before it is read back as before.
pub proof fn law_event_round_trip(store: StoreView, id: u128, item: EventView)
    requires
        store.wf(),
        !has_id(store.events, id),
    ensures
        store.with_event(id, item).wf(),
        lookup(store.with_event(id, item).events, id) == Some(item),
        forall|other: u128|
            other != id ==> lookup(store.with_event(id, item).events, other) == lookup(
                store.events,
                other,
            ),
{
    lemma_push_unique(store.events, id, item);
    let after = store.with_event(id, item);
    assert forall|i: int| 0 <= i < after.occurrences.len() implies has_id(
        after.events,
        (#[trigger] after.occurrences[i]).1.event_id@,
    ) by {
        assert(has_id(store.events, store.occurrences[i].1.event_id@));
    }
}

/// An occurrence that was stored for an event that exists is read back as it
/// was stored.
pub proof fn law_occurrence_round_trip(store: StoreView, id: u128, row: StoredOccurrence)
    requires
        store.wf(),
        !has_id(store.occurrences, id),
        has_id(store.events, row.event_id@),
    ensures
        store.with_occurrence(id, row).wf(),
        lookup(store.with_occurrence(id, row).occurrences, id) == Some(row),
        forall|other: u128|
            other != id ==> lookup(store.with_occurrence(id, row).occurrences, other) == lookup(
                store.occurrences,
                other,
            ),
{
    lemma_push_unique(store.occurrences, id, row);
    let after = store.with_occurrence(id, row);
    assert forall|i: int| 0 <= i < after.occurrences.len() implies has_id(
        after.events,
        (#[trigger] after.occurrences[i]).1.event_id@,
    ) by {
        if i < store.occurrences.len() {
            assert(after.occurrences[i] == store.occurrences[i]);
        }
    }
}

/// After an update the new location is read, and every other location is
/// read as before.
pub proof fn law_location_update_then_read(store: StoreView, id: u128, item: LocationView)
    requires
        store.wf(),
        has_id(store.locations, id),
    ensures
        store.with_location_set(id, item).wf(),
        lookup(store.with_location_set(id, item).locations, id) == Some(item),
        forall|other: u128|
            other != id ==> lookup(store.with_location_set(id, item).locations, other) == lookup(
                store.locations,
                other,
            ),
{
    lemma_update_unique(store.locations, id, item);
}

/// After an update the new event is read, every other event is read as
/// before, and the occurrences are as before.
pub proof fn law_event_update_then_read(store: StoreView, id: u128, item: EventView)
    requires
        store.wf(),
        has_id(store.events, id),
    ensures
        store.with_event_set(id, item).wf(),
        lookup(store.with_event_set(id, item).events, id) == Some(item),
        forall|other: u128|
            other != id ==> lookup(store.with_event_set(id, item).events, other) == lookup(
                store.events,
                other,
            ),
        store.with_event_set(id, item).occurrences == store.occurrences,
{
    lemma_update_unique(store.events, id, item);
    let after = store.with_event_set(id, item);
    assert forall|i: int| 0 <= i < after.occurrences.len() implies has_id(
        after.events,
        (#[trigger] after.occurrences[i]).1.event_id@,
    ) by {
        assert(has_id(store.events, store.occurrences[i].1.event_id@));
    }
}

/// A location at which an occurrence is held has an event standing in the
/// way of its deletion, and a location at which none is held has not.
pub proof fn law_location_in_use_is_protected(store: StoreView, location: u128)
    requires
        store.wf(),
    ensures
        store.in_use(location) <==> store.blocking_events(location).len() > 0,
{
    lemma_in_use_blocks(store, location);
}

/// A location that was deleted is not found afterwards, and every other
/// location is read as before.
pub proof fn law_location_gone_after_delete(store: StoreView, id: u128)
    requires
        store.wf(),
        has_id(store.locations, id),
    ensures
        store.without_location(id).wf(),
        !has_id(store.without_location(id).locations, id),
        lookup(store.without_location(id).locations, id) == None::<LocationView>,
        forall|other: u128|
            other != id ==> lookup(store.without_location(id).locations, other) == lookup(
                store.locations,
                other,
            ),
{
    lemma_remove_unique(store.locations, id);
}

/// After an event was deleted neither the event nor any of its occurrences
/// is found, and every occurrence of another event is read as before.
pub proof fn law_event_delete_cascades(store: StoreView, id: u128)
    requires
        store.wf(),
        has_id(store.events, id),
    ensures
        store.without_event(id).wf(),
        !has_id(store.without_event(id).events, id),
        forall|i: int|
            0 <= i < store.occurrences.len() && (#[trigger] store.occurrences[i]).1.event_id@
                == id ==> lookup(store.without_event(id).occurrences, store.occurrences[i].0)
                == None::<StoredOccurrence>,
        forall|i: int|
            0 <= i < store.occurrences.len() && (#[trigger] store.occurrences[i]).1.event_id@
                != id ==> lookup(store.without_event(id).occurrences, store.occurrences[i].0)
                == Some(store.occurrences[i].1),
        forall|i: int|
            0 <= i < store.without_event(id).occurrences.len() ==> (
            #[trigger] store.without_event(id).occurrences[i]).1.event_id@ != id,
{
    let after = store.without_event(id);
    let kept = not_of_event(id);
    lemma_remove_unique(store.events, id);
    lemma_filter_rows(store.occurrences, kept);
    assert forall|i: int| 0 <= i < after.occurrences.len() implies (
    #[trigger] after.occurrences[i]).1.event_id@ != id && has_id(
        after.events,
        after.occurrences[i].1.event_id@,
    ) by {
        crate::store::lemma_filter_member(store.occurrences, kept, i);
        let row = after.occurrences[i];
        let place = index_of(store.occurrences, row.0);
        assert(has_id(store.events, store.occurrences[place].1.event_id@));
    }
    assert forall|i: int| 0 <= i < store.occurrences.len() implies (if (
    #[trigger] store.occurrences[i]).1.event_id@ == id {
        lookup(after.occurrences, store.occurrences[i].0) == None::<StoredOccurrence>
    } else {
        lookup(after.occurrences, store.occurrences[i].0) == Some(store.occurrences[i].1)
    }) by {
        lemma_index_of_unique(store.occurrences, i);
        let key = store.occurrences[i].0;
        assert(has_id(after.occurrences, key) <==> has_id(store.occurrences, key) && kept(
            store.occurrences[index_of(store.occurrences, key)],
        ));
    }
}

/// Every event is listed with its occurrences, whatever the filter. Where
/// the filter selects no occurrence, every event is listed with none.
pub proof fn law_no_event_is_left_out(store: StoreView, bounds: Bounds)
    ensures
        store.events_with_occurrences(bounds).len() == store.events.len(),
        forall|i: int|
            0 <= i < store.events.len() ==> (#[trigger] store.events_with_occurrences(
                bounds,
            )[i]).0 == store.events[i].0 && store.events_with_occurrences(bounds)[i].1.event
                == store.events[i].1,
        (forall|k: int|
            0 <= k < store.occurrences.len() ==> !bounds.admits(
                start_of(#[trigger] store.occurrences[k]),
            )) ==> forall|i: int|
            0 <= i < store.events.len() ==> (#[trigger] store.events_with_occurrences(
                bounds,
            )[i]).1.occurrences.len() == 0,
{
    if forall|k: int|
        0 <= k < store.occurrences.len() ==> !bounds.admits(
            start_of(#[trigger] store.occurrences[k]),
        ) {
        assert forall|i: int| 0 <= i < store.events.len() implies (
        #[trigger] store.events_with_occurrences(bounds)[i]).1.occurrences.len() == 0 by {
            let selected = of_event(store.events[i].0, bounds);
            assert forall|k: int| 0 <= k < store.occurrences.len() implies !selected(
                #[trigger] store.occurrences[k],
            ) by {
                assert(!bounds.admits(start_of(store.occurrences[k])));
            }
            lemma_filter_none(store.occurrences, selected);
        }
    }
}

/// Where every element meets the selection, everything is selected.
pub proof fn lemma_filter_all<A>(list: Seq<A>, selected: spec_fn(A) -> bool)
    requires
        forall|i: int| 0 <= i < list.len() ==> selected(#[trigger] list[i]),
    ensures
        list.filter(selected) == list,
    decreases list.len(),
{
    reveal(Seq::filter);
    if list.len() > 0 {
        let shorter = list.drop_last();
        assert forall|i: int| 0 <= i < shorter.len() implies selected(#[trigger] shorter[i]) by {
            assert(shorter[i] == list[i]);
        }
        lemma_filter_all(shorter, selected);
        assert(selected(list[list.len() - 1]));
        assert(shorter.push(list.last()) =~= list);
    }
}

/// Rows that come in behind a table under identifiers that are new to it
/// and differ among themselves keep the identifiers unique; each is found
/// under its identifier, and what the table held is found as before.
pub proof fn lemma_append_unique<T>(rows: Seq<(u128, T)>, added: Seq<(u128, T)>)
    requires
        unique_ids(rows),
        unique_ids(added),
        forall|k: int| 0 <= k < added.len() ==> !has_id(rows, (#[trigger] added[k]).0),
    ensures
        unique_ids(rows + added),
        forall|k: int|
            0 <= k < added.len() ==> lookup(rows + added, (#[trigger] added[k]).0) == Some(
                added[k].1,
            ),
        forall|i: int|
            0 <= i < rows.len() ==> lookup(rows + added, (#[trigger] rows[i]).0) == Some(
                rows[i].1,
            ),
{
    let all = rows + added;
    assert forall|i: int, j: int| 0 <= i < j < all.len() implies (#[trigger] all[i]).0 != (
    #[trigger] all[j]).0 by {
        if j < rows.len() {
            assert(rows[i].0 != rows[j].0);
        } else if i < rows.len() {
            assert(!has_id(rows, added[j - rows.len()].0));
            assert(rows[i].0 != added[j - rows.len()].0);
        } else {
            assert(added[i - rows.len()].0 != added[j - rows.len()].0);
        }
    }
    assert forall|k: int| 0 <= k < added.len() implies lookup(all, (#[trigger] added[k]).0)
        == Some(added[k].1) by {
        assert(all[rows.len() + k] == added[k]);
        lemma_index_of_unique(all, rows.len() + k);
    }
    assert forall|i: int| 0 <= i < rows.len() implies lookup(all, (#[trigger] rows[i]).0) == Some(
        rows[i].1,
    ) by {
        assert(all[i] == rows[i]);
        lemma_index_of_unique(all, i);
    }
}

/// The rows made for new occurrences carry the identifiers given for them,
/// which differ where the identifiers do.
proof fn lemma_new_rows(event: Id<Event>, ids: Seq<u128>, items: Seq<OccurrenceWithLocation>)
    requires
        ids.len() == items.len(),
        forall|i: int, j: int| 0 <= i < j < ids.len() ==> ids[i] != ids[j],
    ensures
        unique_ids(new_rows(event, ids, items)),
        new_rows(event, ids, items).filter(of_event(event@, unbounded())) == new_rows(
            event,
            ids,
            items,
        ),
        new_rows(event, ids, items).map_values(placed()) == items,
{
    let rows = new_rows(event, ids, items);
    assert forall|i: int, j: int| 0 <= i < j < rows.len() implies (#[trigger] rows[i]).0 != (
    #[trigger] rows[j]).0 by {
        assert(ids[i] != ids[j]);
    }
    lemma_filter_all(rows, of_event(event@, unbounded()));
    assert(rows.map_values(placed()) =~= items);
}

/// An event that was stored with its occurrences is read back with exactly
/// these occurrences, in their order, and each of them is found under its
/// identifier.
pub proof fn law_event_with_occurrences_round_trip(
    store: StoreView,
    event: Id<Event>,
    item: EventView,
    ids: Seq<u128>,
    items: Seq<OccurrenceWithLocation>,
)
    requires
        store.wf(),
        !has_id(store.events, event@),
        usable_ids(store.occurrences, ids, items.len()),
    ensures
        ({
            let after = store.with_event(event@, item).with_occurrences(
                new_rows(event, ids, items),
            );
            &&& after.wf()
            &&& lookup(after.events, event@) == Some(item)
            &&& after.event_occurrences(event@, unbounded()) == items
            &&& forall|k: int|
                0 <= k < ids.len() ==> lookup(after.occurrences, #[trigger] ids[k]) == Some(
                    StoredOccurrence { event_id: event, occurrence: items[k] },
                )
        }),
{
    let added = new_rows(event, ids, items);
    let after = store.with_event(event@, item).with_occurrences(added);
    let owned = of_event(event@, unbounded());
    lemma_push_unique(store.events, event@, item);
    lemma_new_rows(event, ids, items);
    assert forall|k: int| 0 <= k < added.len() implies !has_id(
        store.occurrences,
        (#[trigger] added[k]).0,
    ) by {
        assert(!has_id(store.occurrences, ids[k]));
    }
    lemma_append_unique(store.occurrences, added);
    assert forall|i: int| 0 <= i < after.occurrences.len() implies has_id(
        after.events,
        (#[trigger] after.occurrences[i]).1.event_id@,
    ) by {
        if i < store.occurrences.len() {
            assert(after.occurrences[i] == store.occurrences[i]);
            assert(has_id(store.events, store.occurrences[i].1.event_id@));
        } else {
            assert(after.occurrences[i] == added[i - store.occurrences.len()]);
        }
    }
    assert forall|i: int| 0 <= i < store.occurrences.len() implies !owned(
        #[trigger] store.occurrences[i],
    ) by {
        assert(has_id(store.events, store.occurrences[i].1.event_id@));
    }
    lemma_filter_none(store.occurrences, owned);
    Seq::filter_distributes_over_add(store.occurrences, added, owned);
    assert(Seq::<(u128, StoredOccurrence)>::empty() + added =~= added);
    assert forall|k: int| 0 <= k < ids.len() implies lookup(after.occurrences, #[trigger] ids[k])
        == Some(StoredOccurrence { event_id: event, occurrence: items[k] }) by {
        assert(added[k].0 == ids[k]);
    }
}

/// After an event was updated with its occurrences, the new event is read
/// with exactly the new occurrences, in their order; the occurrences it had
/// are gone, and each new one is found under its identifier.
pub proof fn law_event_with_occurrences_update_then_read(
    store: StoreView,
    event: Id<Event>,
    item: EventView,
    ids: Seq<u128>,
    items: Seq<OccurrenceWithLocation>,
)
    requires
        store.wf(),
        has_id(store.events, event@),
        usable_ids(store.occurrences, ids, items.len()),
    ensures
        ({
            let after = store.with_event_set(event@, item).without_occurrences_of(
                event@,
            ).with_occurrences(new_rows(event, ids, items));
            &&& after.wf()
            &&& lookup(after.events, event@) == Some(item)
            &&& after.event_occurrences(event@, unbounded()) == items
            &&& forall|k: int|
                0 <= k < ids.len() ==> lookup(after.occurrences, #[trigger] ids[k]) == Some(
                    StoredOccurrence { event_id: event, occurrence: items[k] },
                )
            &&& forall|i: int|
                0 <= i < store.occurrences.len() && (#[trigger] store.occurrences[i]).1.event_id@
                    == event@ ==> lookup(after.occurrences, store.occurrences[i].0)
                    == None::<StoredOccurrence>
        }),
{
    let added = new_rows(event, ids, items);
    let kept = store.occurrences.filter(not_of_event(event@));
    let after = store.with_event_set(event@, item).without_occurrences_of(
        event@,
    ).with_occurrences(added);
    let owned = of_event(event@, unbounded());
    lemma_update_unique(store.events, event@, item);
    lemma_new_rows(event, ids, items);
    lemma_filter_rows(store.occurrences, not_of_event(event@));
    assert forall|k: int| 0 <= k < added.len() implies !has_id(kept, (#[trigger] added[k]).0) by {
        assert(!has_id(store.occurrences, ids[k]));
    }
    lemma_append_unique(kept, added);
    assert forall|i: int| 0 <= i < kept.len() implies !owned(#[trigger] kept[i]) && has_id(
        after.events,
        kept[i].1.event_id@,
    ) by {
        crate::store::lemma_filter_member(store.occurrences, not_of_event(event@), i);
        let place = index_of(store.occurrences, kept[i].0);
        assert(has_id(store.events, store.occurrences[place].1.event_id@));
    }
    assert forall|i: int| 0 <= i < after.occurrences.len() implies has_id(
        after.events,
        (#[trigger] after.occurrences[i]).1.event_id@,
    ) by {
        if i < kept.len() {
            assert(after.occurrences[i] == kept[i]);
        } else {
            assert(after.occurrences[i] == added[i - kept.len()]);
        }
    }
    lemma_filter_none(kept, owned);
    Seq::filter_distributes_over_add(kept, added, owned);
    assert(Seq::<(u128, StoredOccurrence)>::empty() + added =~= added);
    assert forall|k: int| 0 <= k < ids.len() implies lookup(after.occurrences, #[trigger] ids[k])
        == Some(StoredOccurrence { event_id: event, occurrence: items[k] }) by {
        assert(added[k].0 == ids[k]);
    }
    assert forall|i: int|
        0 <= i < store.occurrences.len() && (#[trigger] store.occurrences[i]).1.event_id@
            == event@ implies lookup(after.occurrences, store.occurrences[i].0) == None::<
        StoredOccurrence,
    > by {
        let key = store.occurrences[i].0;
        lemma_index_of_unique(store.occurrences, i);
        assert(!has_id(kept, key));
        if has_id(after.occurrences, key) {
            let place = index_of(after.occurrences, key);
            if place < kept.len() {
                assert(kept[place].0 == key);
            } else {
                let k = place - kept.len();
                assert(added[k].0 == ids[k]);
                assert(!has_id(store.occurrences, ids[k]));
            }
        }
    }
}

} // verus!
