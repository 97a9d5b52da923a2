use event_schedule::action::Actions;
use event_schedule::error::Error;
use event_schedule::filter::OccurrenceFilter;
use event_schedule::id::Id;
use event_schedule::id_map::IdMap;
use event_schedule::model::{
    Event, EventWithOccurrences, Location, Occurrence, OccurrenceWithLocation,
};
use event_schedule::store::Store;
use event_schedule::time::Timestamp;

fn location(name: &str) -> Location {
    Location { name: name.to_string(), address: format!("{} street 1", name) }
}

fn event(title: &str) -> Event {
    Event {
        title: title.to_string(),
        teaser: format!("about {}", title),
        description: format!("all about {}", title),
    }
}

fn held(start: i64, place: u128) -> OccurrenceWithLocation {
    OccurrenceWithLocation {
        occurrence: Occurrence { start: Timestamp { seconds: start }, duration: 90 },
        location_id: Id::new(place),
    }
}

fn everything() -> OccurrenceFilter {
    OccurrenceFilter::default()
}

/// Two locations (1, 2), two events (10, 20), and three occurrences:
/// 100 and 101 of event 10 at location 1, 200 of event 20 at location 2.
fn sample() -> Store {
    let mut store = Store::new();
    assert_eq!(store.insert_location(Id::new(1), location("hall")), Ok(Id::new(1)));
    assert_eq!(store.insert_location(Id::new(2), location("barn")), Ok(Id::new(2)));
    assert_eq!(store.insert_event(Id::new(10), event("social")), Ok(Id::new(10)));
    assert_eq!(store.insert_event(Id::new(20), event("class")), Ok(Id::new(20)));
    assert_eq!(store.insert_occurrence(Id::new(100), Id::new(10), held(5_000, 1)), Ok(Id::new(100)));
    assert_eq!(store.insert_occurrence(Id::new(101), Id::new(10), held(3_000, 1)), Ok(Id::new(101)));
    assert_eq!(store.insert_occurrence(Id::new(200), Id::new(20), held(4_000, 2)), Ok(Id::new(200)));
    store
}

#[test]
fn new_store_is_empty() {
    let store = Store::new();
    assert!(store.all_locations().is_empty());
    assert!(store.all_events().is_empty());
    assert!(store.all_events_with_occurrences(&everything()).is_empty());
    assert_eq!(store.occurrence_table().len(), 0);
    assert_eq!(store.read_location(Id::new(1)), Err(Error::NotFound));
}

#[test]
fn from_takes_over_the_tables() {
    let mut locations = IdMap::new();
    assert!(locations.insert(Id::new(1), location("hall")));
    let mut events = IdMap::new();
    assert!(events.insert(Id::new(10), event("social")));
    let store = Store::from(locations, events);
    assert_eq!(store.read_location(Id::new(1)), Ok(location("hall")));
    assert_eq!(store.read_event(Id::new(10)), Ok(event("social")));
    assert_eq!(store.occurrence_table().len(), 0);
}

#[test]
fn create_then_read_gives_the_same_location() {
    let mut store = Store::new();
    let id = Actions::<Location>::create(&mut store, location("hall")).unwrap();
    assert_eq!(Actions::<Location>::read(&store, id), Ok(location("hall")));
    let other = Actions::<Location>::create(&mut store, location("barn")).unwrap();
    assert_ne!(id, other);
    assert_eq!(Actions::<Location>::read(&store, id), Ok(location("hall")));
    assert_eq!(Actions::<Location>::read(&store, other), Ok(location("barn")));
    assert_eq!(
        Actions::<Location>::all(&store),
        vec![(id, location("hall")), (other, location("barn"))]
    );
}

#[test]
fn create_then_read_gives_the_same_event() {
    let mut store = Store::new();
    let id = Actions::<Event>::create(&mut store, event("social")).unwrap();
    assert_eq!(Actions::<Event>::read(&store, id), Ok(event("social")));
    assert_eq!(Actions::<Event>::all(&store), vec![(id, event("social"))]);
}

#[test]
fn create_then_read_gives_the_same_event_with_occurrences() {
    let mut store = Store::new();
    let item = EventWithOccurrences {
        event: event("social"),
        occurrences: vec![held(5_000, 1), held(3_000, 2)],
    };
    let id = Actions::<EventWithOccurrences>::create(&mut store, item).unwrap();
    let expected = EventWithOccurrences {
        event: event("social"),
        occurrences: vec![held(5_000, 1), held(3_000, 2)],
    };
    assert_eq!(Actions::<EventWithOccurrences>::read(&store, id), Ok(expected));
    assert_eq!(store.occurrence_table().len(), 2);
    assert_eq!(Actions::<Event>::read(&store, id), Ok(event("social")));
}

#[test]
fn insert_refuses_an_identifier_that_is_taken() {
    let mut store = sample();
    assert_eq!(store.insert_location(Id::new(1), location("other")), Err(Error::StorageError));
    assert_eq!(store.read_location(Id::new(1)), Ok(location("hall")));
    assert_eq!(store.insert_event(Id::new(10), event("other")), Err(Error::StorageError));
    assert_eq!(store.read_event(Id::new(10)), Ok(event("social")));
    assert_eq!(
        store.insert_occurrence(Id::new(100), Id::new(20), held(1, 2)),
        Err(Error::StorageError)
    );
    assert_eq!(store.read_occurrence(Id::new(100)), Ok(held(5_000, 1)));
}

#[test]
fn insert_occurrence_wants_its_event_to_exist() {
    let mut store = sample();
    assert_eq!(
        store.insert_occurrence(Id::new(300), Id::new(30), held(1, 1)),
        Err(Error::StorageError)
    );
    assert_eq!(store.read_occurrence(Id::new(300)), Err(Error::NotFound));
    assert_eq!(store.occurrence_table().len(), 3);
}

#[test]
fn an_occurrence_may_name_a_location_that_is_not_stored() {
    let mut store = sample();
    assert_eq!(store.insert_occurrence(Id::new(300), Id::new(10), held(1, 99)), Ok(Id::new(300)));
    assert_eq!(store.read_occurrence(Id::new(300)), Ok(held(1, 99)));
    let listed = store.all_events_with_occurrences(&everything());
    assert_eq!(listed[0].1.occurrences, vec![held(5_000, 1), held(3_000, 1), held(1, 99)]);
}

#[test]
fn update_gives_back_the_previous_location() {
    let mut store = sample();
    assert_eq!(
        Actions::<Location>::update(&mut store, Id::new(1), location("loft")),
        Ok(location("hall"))
    );
    assert_eq!(Actions::<Location>::read(&store, Id::new(1)), Ok(location("loft")));
    assert_eq!(Actions::<Location>::read(&store, Id::new(2)), Ok(location("barn")));
    assert_eq!(
        Actions::<Location>::all(&store),
        vec![(Id::new(1), location("loft")), (Id::new(2), location("barn"))]
    );
}

#[test]
fn update_gives_back_the_previous_event_and_keeps_its_occurrences() {
    let mut store = sample();
    assert_eq!(
        Actions::<Event>::update(&mut store, Id::new(10), event("party")),
        Ok(event("social"))
    );
    assert_eq!(Actions::<Event>::read(&store, Id::new(10)), Ok(event("party")));
    assert_eq!(
        store.occurrences_of_event(Id::new(10), &everything()),
        vec![held(5_000, 1), held(3_000, 1)]
    );
}

#[test]
fn update_of_an_unknown_identifier_is_not_found() {
    let mut store = sample();
    assert_eq!(
        Actions::<Location>::update(&mut store, Id::new(3), location("loft")),
        Err(Error::NotFound)
    );
    assert_eq!(Actions::<Event>::update(&mut store, Id::new(30), event("x")), Err(Error::NotFound));
    assert_eq!(store.update_occurrence(Id::new(300), held(1, 1)), Err(Error::NotFound));
    assert_eq!(store.all_locations().len(), 2);
    assert_eq!(store.all_events().len(), 2);
}

#[test]
fn update_occurrence_keeps_the_event() {
    let mut store = sample();
    assert_eq!(store.update_occurrence(Id::new(101), held(9_000, 2)), Ok(held(3_000, 1)));
    assert_eq!(store.read_occurrence(Id::new(101)), Ok(held(9_000, 2)));
    assert_eq!(
        store.occurrences_of_event(Id::new(10), &everything()),
        vec![held(5_000, 1), held(9_000, 2)]
    );
}

#[test]
fn delete_occurrence_takes_one_row_out() {
    let mut store = sample();
    assert_eq!(store.delete_occurrence(Id::new(100)), Ok(held(5_000, 1)));
    assert_eq!(store.read_occurrence(Id::new(100)), Err(Error::NotFound));
    assert_eq!(store.delete_occurrence(Id::new(100)), Err(Error::NotFound));
    assert_eq!(store.read_occurrence(Id::new(101)), Ok(held(3_000, 1)));
    assert_eq!(store.read_occurrence(Id::new(200)), Ok(held(4_000, 2)));
}

#[test]
fn delete_of_a_location_in_use_names_the_events_in_the_way() {
    let mut store = sample();
    assert_eq!(store.delete_location(Id::new(1)), Err(Error::Dependency(vec![Id::new(10)])));
    assert_eq!(store.read_location(Id::new(1)), Ok(location("hall")));
    assert_eq!(
        Actions::<Location>::delete(&mut store, Id::new(2)),
        Err(Error::Dependency(vec![Id::new(20)]))
    );
    assert_eq!(Actions::<Location>::read(&store, Id::new(2)), Ok(location("barn")));
    assert_eq!(store.all_locations().len(), 2);
    assert_eq!(store.occurrence_table().len(), 3);
}

#[test]
fn blocking_events_lists_each_event_once_in_table_order() {
    let mut store = sample();
    assert_eq!(store.insert_occurrence(Id::new(201), Id::new(20), held(1, 1)), Ok(Id::new(201)));
    assert_eq!(store.blocking_events(Id::new(1)), vec![Id::new(10), Id::new(20)]);
    assert_eq!(store.blocking_events(Id::new(2)), vec![Id::new(20)]);
    assert_eq!(store.blocking_events(Id::new(3)), Vec::<Id<Event>>::new());
    assert!(store.event_holds_at(Id::new(10), Id::new(1)));
    assert!(!store.event_holds_at(Id::new(10), Id::new(2)));
}

#[test]
fn delete_of_a_location_not_in_use_removes_it() {
    let mut store = sample();
    assert_eq!(store.insert_location(Id::new(3), location("loft")), Ok(Id::new(3)));
    assert_eq!(Actions::<Location>::delete(&mut store, Id::new(3)), Ok(location("loft")));
    assert_eq!(Actions::<Location>::read(&store, Id::new(3)), Err(Error::NotFound));
    assert_eq!(Actions::<Location>::delete(&mut store, Id::new(3)), Err(Error::NotFound));
    assert_eq!(store.all_locations().len(), 2);
}

#[test]
fn a_location_can_be_deleted_once_nothing_is_held_there() {
    let mut store = sample();
    assert_eq!(store.delete_occurrence(Id::new(200)), Ok(held(4_000, 2)));
    assert_eq!(store.delete_location(Id::new(2)), Ok(location("barn")));
    assert_eq!(store.read_location(Id::new(2)), Err(Error::NotFound));
    assert_eq!(store.all_locations(), vec![(Id::new(1), location("hall"))]);
}

#[test]
fn a_dangling_location_in_use_is_still_a_dependency() {
    let mut store = sample();
    assert_eq!(store.insert_occurrence(Id::new(300), Id::new(10), held(1, 99)), Ok(Id::new(300)));
    assert_eq!(store.delete_location(Id::new(99)), Err(Error::Dependency(vec![Id::new(10)])));
}

#[test]
fn delete_of_an_event_takes_its_occurrences_along() {
    let mut store = sample();
    assert_eq!(Actions::<Event>::delete(&mut store, Id::new(10)), Ok(event("social")));
    assert_eq!(Actions::<Event>::read(&store, Id::new(10)), Err(Error::NotFound));
    assert_eq!(store.read_occurrence(Id::new(100)), Err(Error::NotFound));
    assert_eq!(store.read_occurrence(Id::new(101)), Err(Error::NotFound));
    assert_eq!(store.read_occurrence(Id::new(200)), Ok(held(4_000, 2)));
    assert_eq!(store.occurrence_table().len(), 1);
    assert_eq!(store.all_events(), vec![(Id::new(20), event("class"))]);
    assert_eq!(store.delete_location(Id::new(1)), Ok(location("hall")));
}

#[test]
fn delete_of_an_event_with_occurrences_gives_both_back() {
    let mut store = sample();
    assert_eq!(
        Actions::<EventWithOccurrences>::delete(&mut store, Id::new(10)),
        Ok(EventWithOccurrences {
            event: event("social"),
            occurrences: vec![held(5_000, 1), held(3_000, 1)],
        })
    );
    assert_eq!(
        Actions::<EventWithOccurrences>::delete(&mut store, Id::new(10)),
        Err(Error::NotFound)
    );
    assert_eq!(store.occurrence_table().len(), 1);
}

#[test]
fn delete_of_an_unknown_event_changes_nothing() {
    let mut store = sample();
    assert_eq!(store.delete_event(Id::new(30)), Err(Error::NotFound));
    assert_eq!(store.all_events().len(), 2);
    assert_eq!(store.occurrence_table().len(), 3);
}

#[test]
fn update_of_an_event_with_occurrences_replaces_the_occurrences() {
    let mut store = sample();
    let previous = Actions::<EventWithOccurrences>::update(
        &mut store,
        Id::new(10),
        EventWithOccurrences { event: event("party"), occurrences: vec![held(7_000, 2)] },
    );
    assert_eq!(
        previous,
        Ok(EventWithOccurrences {
            event: event("social"),
            occurrences: vec![held(5_000, 1), held(3_000, 1)],
        })
    );
    assert_eq!(
        Actions::<EventWithOccurrences>::read(&store, Id::new(10)),
        Ok(EventWithOccurrences { event: event("party"), occurrences: vec![held(7_000, 2)] })
    );
    assert_eq!(store.read_occurrence(Id::new(100)), Err(Error::NotFound));
    assert_eq!(store.read_occurrence(Id::new(200)), Ok(held(4_000, 2)));
    assert_eq!(
        Actions::<EventWithOccurrences>::update(
            &mut store,
            Id::new(30),
            EventWithOccurrences { event: event("none"), occurrences: vec![] },
        ),
        Err(Error::NotFound)
    );
}

#[test]
fn insert_event_with_occurrences_is_all_or_nothing() {
    let mut store = sample();
    let taken = vec![Id::new(300), Id::new(200)];
    let item = EventWithOccurrences {
        event: event("camp"),
        occurrences: vec![held(1, 1), held(2, 1)],
    };
    assert_eq!(
        store.insert_event_with_occurrences(Id::new(30), &taken, item),
        Err(Error::StorageError)
    );
    assert_eq!(store.read_event(Id::new(30)), Err(Error::NotFound));
    assert_eq!(store.read_occurrence(Id::new(300)), Err(Error::NotFound));
    assert_eq!(store.occurrence_table().len(), 3);

    let twice = vec![Id::new(300), Id::new(300)];
    let item = EventWithOccurrences {
        event: event("camp"),
        occurrences: vec![held(1, 1), held(2, 1)],
    };
    assert_eq!(
        store.insert_event_with_occurrences(Id::new(30), &twice, item),
        Err(Error::StorageError)
    );

    let short = vec![Id::new(300)];
    let item = EventWithOccurrences {
        event: event("camp"),
        occurrences: vec![held(1, 1), held(2, 1)],
    };
    assert_eq!(
        store.insert_event_with_occurrences(Id::new(30), &short, item),
        Err(Error::StorageError)
    );

    let fresh = vec![Id::new(300), Id::new(301)];
    let item = EventWithOccurrences {
        event: event("camp"),
        occurrences: vec![held(1, 1), held(2, 1)],
    };
    assert_eq!(store.insert_event_with_occurrences(Id::new(10), &fresh, item), Err(Error::StorageError));
    assert_eq!(store.occurrence_table().len(), 3);

    let item = EventWithOccurrences {
        event: event("camp"),
        occurrences: vec![held(1, 1), held(2, 1)],
    };
    assert_eq!(store.insert_event_with_occurrences(Id::new(30), &fresh, item), Ok(Id::new(30)));
    assert_eq!(store.read_occurrence(Id::new(300)), Ok(held(1, 1)));
    assert_eq!(store.read_occurrence(Id::new(301)), Ok(held(2, 1)));
    assert_eq!(store.occurrences_of_event(Id::new(30), &everything()), vec![held(1, 1), held(2, 1)]);
}

#[test]
fn ids_usable_wants_fresh_distinct_identifiers_of_the_right_number() {
    let store = sample();
    assert!(store.ids_usable(&vec![], 0));
    assert!(store.ids_usable(&vec![Id::new(1), Id::new(2)], 2));
    assert!(!store.ids_usable(&vec![Id::new(1), Id::new(2)], 3));
    assert!(!store.ids_usable(&vec![Id::new(1), Id::new(1)], 2));
    assert!(!store.ids_usable(&vec![Id::new(1), Id::new(100)], 2));
}

#[test]
fn replace_occurrences_touches_only_what_the_filter_selects() {
    let mut store = sample();
    let late = OccurrenceFilter::from_bounds(None, Some(Timestamp { seconds: 4_000 })).unwrap();
    let ids = vec![Id::new(300)];
    let items = vec![held(8_000, 2)];
    assert_eq!(
        store.replace_occurrences(Id::new(10), &late, &ids, &items),
        Ok(event("social"))
    );
    assert_eq!(store.read_occurrence(Id::new(100)), Err(Error::NotFound));
    assert_eq!(store.read_occurrence(Id::new(101)), Ok(held(3_000, 1)));
    assert_eq!(store.read_occurrence(Id::new(200)), Ok(held(4_000, 2)));
    assert_eq!(store.read_occurrence(Id::new(300)), Ok(held(8_000, 2)));
    assert_eq!(
        store.occurrences_of_event(Id::new(10), &everything()),
        vec![held(3_000, 1), held(8_000, 2)]
    );
    assert_eq!(
        store.replace_occurrences(Id::new(30), &late, &vec![], &vec![]),
        Err(Error::NotFound)
    );
    assert_eq!(
        store.replace_occurrences(Id::new(10), &late, &vec![Id::new(200)], &items),
        Err(Error::StorageError)
    );
    assert_eq!(store.occurrence_table().len(), 3);
}

#[test]
fn remove_occurrences_of_gives_back_what_it_took() {
    let mut store = sample();
    assert_eq!(store.remove_occurrences_of(Id::new(10)), vec![held(5_000, 1), held(3_000, 1)]);
    assert_eq!(store.remove_occurrences_of(Id::new(10)), vec![]);
    assert_eq!(store.occurrence_table().len(), 1);
    assert_eq!(store.read_event(Id::new(10)), Ok(event("social")));
}

#[test]
fn id_map_keeps_insertion_order_and_unique_identifiers() {
    let mut table: IdMap<Location, u32> = IdMap::new();
    assert!(table.insert(Id::new(5), 50));
    assert!(table.insert(Id::new(3), 30));
    assert!(!table.insert(Id::new(5), 51));
    assert_eq!(table.len(), 2);
    assert_eq!(table.id_at(0), Id::new(5));
    assert_eq!(*table.item_at(1), 30);
    assert_eq!(table.position(Id::new(3)), Some(1));
    assert_eq!(table.position(Id::new(4)), None);
    assert_eq!(table.get(Id::new(5)), Some(&50));
    assert_eq!(table.get(Id::new(4)), None);
    assert!(table.contains(Id::new(3)));
    assert_eq!(table.validate(3), Some(Id::new(3)));
    assert_eq!(table.validate(4), None);
    assert_eq!(table.set(Id::new(5), 55), Some(50));
    assert_eq!(table.set(Id::new(4), 44), None);
    assert_eq!(table.get(Id::new(5)), Some(&55));
    assert_eq!(table.id_at(0), Id::new(5));
    assert!(table.insert(Id::new(7), 70));
    assert_eq!(table.remove(Id::new(5)), Some(55));
    assert_eq!(table.remove(Id::new(5)), None);
    assert_eq!(table.len(), 2);
    assert_eq!(table.id_at(0), Id::new(3));
    assert_eq!(table.id_at(1), Id::new(7));
}

fn random_form(value: u128) -> bool {
    (value >> 76) & 0xf == 4 && (value >> 62) & 0x3 == 2
}

#[test]
fn create_stores_under_identifiers_drawn_at_random() {
    let mut store = Store::new();
    let place = Actions::<Location>::create(&mut store, location("hall")).unwrap();
    assert!(random_form(place.value()));
    let plain = Actions::<Event>::create(&mut store, event("class")).unwrap();
    assert!(random_form(plain.value()));
    let item = EventWithOccurrences {
        event: event("social"),
        occurrences: vec![held(5_000, 1), held(3_000, 2)],
    };
    let id = Actions::<EventWithOccurrences>::create(&mut store, item).unwrap();
    assert!(random_form(id.value()));
    let rows = store.rows_of_event(id, &everything());
    assert_eq!(rows.len(), 2);
    assert!(random_form(rows[0].0.value()));
    assert!(random_form(rows[1].0.value()));
    assert_ne!(rows[0].0, rows[1].0);
}

#[test]
fn create_and_update_without_occurrences_succeed() {
    let mut store = Store::new();
    let item = EventWithOccurrences { event: event("social"), occurrences: vec![] };
    let id = Actions::<EventWithOccurrences>::create(&mut store, item).unwrap();
    let next = EventWithOccurrences { event: event("party"), occurrences: vec![] };
    assert_eq!(
        Actions::<EventWithOccurrences>::update(&mut store, id, next),
        Ok(EventWithOccurrences { event: event("social"), occurrences: vec![] })
    );
    assert_eq!(Actions::<Event>::read(&store, id), Ok(event("party")));
}
