use event_schedule::action::random_ids;
use event_schedule::changes::{NewOccurrence, UpdateEvent, UpdateLocation, UpdateOccurrence};
use event_schedule::error::Error;
use event_schedule::filter::OccurrenceFilter;
use event_schedule::id::Id;
use event_schedule::model::{
    Event, Location, Occurrence, OccurrenceWithLocation, StoredOccurrence,
};
use event_schedule::store::Store;
use event_schedule::time::Timestamp;

fn location(name: &str) -> Location {
    Location { name: name.to_string(), address: format!("{} street 1", name) }
}

fn event(title: &str) -> Event {
    Event {
        title: title.to_string(),
        teaser: format!("about {}", title),
        description: format!("all about {}", title),
    }
}

fn held(start: i64, place: u128) -> OccurrenceWithLocation {
    OccurrenceWithLocation {
        occurrence: Occurrence { start: Timestamp { seconds: start }, duration: 90 },
        location_id: Id::new(place),
    }
}

fn row(owner: u128, start: i64, place: u128) -> StoredOccurrence {
    StoredOccurrence { event_id: Id::new(owner), occurrence: held(start, place) }
}

fn same(left: &StoredOccurrence, right: &StoredOccurrence) -> bool {
    left.event_id == right.event_id && left.occurrence == right.occurrence
}

fn everything() -> OccurrenceFilter {
    OccurrenceFilter::default()
}

fn sample() -> Store {
    let mut store = Store::new();
    store.insert_location(Id::new(1), location("hall")).unwrap();
    store.insert_location(Id::new(2), location("barn")).unwrap();
    store.insert_event(Id::new(10), event("social")).unwrap();
    store.insert_event(Id::new(20), event("class")).unwrap();
    store.insert_occurrence(Id::new(100), Id::new(10), held(5_000, 1)).unwrap();
    store.insert_occurrence(Id::new(101), Id::new(10), held(3_000, 1)).unwrap();
    store.insert_occurrence(Id::new(200), Id::new(20), held(4_000, 2)).unwrap();
    store
}

#[test]
fn rows_of_event_lists_rows_under_their_identifiers() {
    let store = sample();
    let rows = store.rows_of_event(Id::new(10), &everything());
    assert_eq!(rows.len(), 2);
    assert_eq!(rows[0].0, Id::new(100));
    assert!(same(&rows[0].1, &row(10, 5_000, 1)));
    assert_eq!(rows[1].0, Id::new(101));
    assert!(same(&rows[1].1, &row(10, 3_000, 1)));
    let late = OccurrenceFilter::from_bounds(None, Some(Timestamp { seconds: 3_000 })).unwrap();
    let rows = store.rows_of_event(Id::new(10), &late);
    assert_eq!(rows.len(), 1);
    assert_eq!(rows[0].0, Id::new(100));
    assert!(store.rows_of_event(Id::new(30), &everything()).is_empty());
}

#[test]
fn rows_at_location_lists_rows_of_every_event() {
    let mut store = sample();
    store.insert_occurrence(Id::new(201), Id::new(20), held(1_000, 1)).unwrap();
    let rows = store.rows_at_location(Id::new(1), &everything());
    let ids: Vec<Id<Occurrence>> = rows.iter().map(|row| row.0).collect();
    assert_eq!(ids, vec![Id::new(100), Id::new(101), Id::new(201)]);
    assert!(same(&rows[2].1, &row(20, 1_000, 1)));
    let early = OccurrenceFilter::from_bounds(Some(Timestamp { seconds: 3_000 }), None).unwrap();
    let rows = store.rows_at_location(Id::new(1), &early);
    assert_eq!(rows.len(), 1);
    assert_eq!(rows[0].0, Id::new(201));
}

#[test]
fn read_occurrence_row_names_the_event() {
    let store = sample();
    assert!(same(&store.read_occurrence_row(Id::new(200)).unwrap(), &row(20, 4_000, 2)));
    assert!(matches!(store.read_occurrence_row(Id::new(300)), Err(Error::NotFound)));
}

#[test]
fn set_occurrence_may_move_an_occurrence_to_another_event() {
    let mut store = sample();
    let previous = store.set_occurrence(Id::new(100), row(20, 6_000, 2)).unwrap();
    assert!(same(&previous, &row(10, 5_000, 1)));
    assert!(same(&store.read_occurrence_row(Id::new(100)).unwrap(), &row(20, 6_000, 2)));
    assert_eq!(store.occurrences_of_event(Id::new(10), &everything()), vec![held(3_000, 1)]);
    assert_eq!(
        store.occurrences_of_event(Id::new(20), &everything()),
        vec![held(6_000, 2), held(4_000, 2)]
    );
}

#[test]
fn set_occurrence_refuses_an_unknown_row_or_event() {
    let mut store = sample();
    assert!(matches!(store.set_occurrence(Id::new(300), row(10, 1, 1)), Err(Error::NotFound)));
    assert!(matches!(
        store.set_occurrence(Id::new(100), row(30, 1, 1)),
        Err(Error::StorageError)
    ));
    assert!(same(&store.read_occurrence_row(Id::new(100)).unwrap(), &row(10, 5_000, 1)));
}

#[test]
fn change_location_gives_the_location_before_and_after() {
    let mut store = sample();
    let change = UpdateLocation { name: None, address: Some("new street 2".to_string()) };
    let (before, after) = store.change_location(Id::new(1), change).unwrap();
    assert_eq!(before, location("hall"));
    assert_eq!(after, Location { name: "hall".to_string(), address: "new street 2".to_string() });
    assert_eq!(store.read_location(Id::new(1)), Ok(after));
    let change = UpdateLocation { name: None, address: None };
    assert_eq!(store.change_location(Id::new(3), change), Err(Error::NotFound));
}

#[test]
fn change_event_gives_the_event_before_and_after() {
    let mut store = sample();
    let change =
        UpdateEvent { title: Some("party".to_string()), teaser: None, description: None };
    let (before, after) = store.change_event(Id::new(10), change).unwrap();
    assert_eq!(before, event("social"));
    assert_eq!(after.title, "party");
    assert_eq!(after.teaser, "about social");
    assert_eq!(store.read_event(Id::new(10)), Ok(after));
    assert_eq!(
        store.occurrences_of_event(Id::new(10), &everything()),
        vec![held(5_000, 1), held(3_000, 1)]
    );
    let change = UpdateEvent { title: None, teaser: None, description: None };
    assert_eq!(store.change_event(Id::new(30), change), Err(Error::NotFound));
}

#[test]
fn change_occurrence_changes_the_named_fields() {
    let mut store = sample();
    let change = UpdateOccurrence {
        event_id: Some(Id::new(20)),
        start: None,
        duration: Some(15),
        location_id: None,
    };
    let (before, after) = store.change_occurrence(Id::new(100), change).unwrap();
    assert!(same(&before, &row(10, 5_000, 1)));
    assert_eq!(after.event_id, Id::new(20));
    assert_eq!(after.occurrence.occurrence.duration, 15);
    assert_eq!(after.occurrence.occurrence.start, Timestamp { seconds: 5_000 });
    assert!(same(&store.read_occurrence_row(Id::new(100)).unwrap(), &after));
}

#[test]
fn change_occurrence_refuses_an_unknown_row_or_event() {
    let mut store = sample();
    let nothing =
        UpdateOccurrence { event_id: None, start: None, duration: None, location_id: None };
    assert!(matches!(store.change_occurrence(Id::new(300), nothing), Err(Error::NotFound)));
    let moved = UpdateOccurrence {
        event_id: Some(Id::new(30)),
        start: None,
        duration: None,
        location_id: None,
    };
    assert!(matches!(store.change_occurrence(Id::new(100), moved), Err(Error::StorageError)));
    assert!(same(&store.read_occurrence_row(Id::new(100)).unwrap(), &row(10, 5_000, 1)));
}

#[test]
fn add_occurrence_stores_it_under_a_new_identifier() {
    let mut store = sample();
    let new = NewOccurrence {
        event_id: Id::new(20),
        start: Timestamp { seconds: 9_000 },
        duration: 45,
        location_id: Id::new(1),
    };
    let id = store.add_occurrence(new).unwrap();
    let stored = store.read_occurrence_row(id).unwrap();
    assert_eq!(stored.event_id, Id::new(20));
    assert_eq!(
        stored.occurrence,
        OccurrenceWithLocation {
            occurrence: Occurrence { start: Timestamp { seconds: 9_000 }, duration: 45 },
            location_id: Id::new(1),
        }
    );
    assert_eq!(store.occurrence_table().len(), 4);
    let orphan = NewOccurrence {
        event_id: Id::new(30),
        start: Timestamp { seconds: 9_000 },
        duration: 45,
        location_id: Id::new(1),
    };
    assert_eq!(store.add_occurrence(orphan), Err(Error::StorageError));
    assert_eq!(store.occurrence_table().len(), 4);
}

#[test]
fn random_ids_gives_as_many_as_asked_for() {
    assert_eq!(random_ids(0).len(), 0);
    let ids = random_ids(3);
    assert_eq!(ids.len(), 3);
    assert_ne!(ids[0], ids[1]);
    assert_ne!(ids[1], ids[2]);
}
