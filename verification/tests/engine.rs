use event_schedule::error::Error;
use event_schedule::filter::OccurrenceFilter;
use event_schedule::id::Id;
use event_schedule::model::{
    Event, EventWithOccurrences, Location, LocationWithOccurrences, Occurrence,
    OccurrenceWithEvent, OccurrenceWithLocation, Overview,
};
use event_schedule::schedule::{group_by_date, insert_by_start, sort_by_start};
use event_schedule::store::Store;
use event_schedule::time::{Date, Timestamp};

fn location(name: &str) -> Location {
    Location { name: name.to_string(), address: format!("{} street 1", name) }
}

fn event(title: &str) -> Event {
    Event {
        title: title.to_string(),
        teaser: format!("about {}", title),
        description: format!("all about {}", title),
    }
}

fn plain(start: i64) -> Occurrence {
    Occurrence { start: Timestamp { seconds: start }, duration: 90 }
}

fn held(start: i64, place: u128) -> OccurrenceWithLocation {
    OccurrenceWithLocation { occurrence: plain(start), location_id: Id::new(place) }
}

fn entry(start: i64, place: u128, owner: u128, title: &str) -> OccurrenceWithEvent {
    OccurrenceWithEvent {
        occurrence: held(start, place),
        event_id: Id::new(owner),
        event: event(title),
    }
}

fn seconds(text: &str) -> i64 {
    Timestamp::parse(text).unwrap().seconds
}

fn everything() -> OccurrenceFilter {
    OccurrenceFilter::default()
}

fn between(after: i64, before: i64) -> OccurrenceFilter {
    OccurrenceFilter::from_bounds(
        Some(Timestamp { seconds: before }),
        Some(Timestamp { seconds: after }),
    )
    .unwrap()
}

/// Two locations (1, 2), three events (10, 20, 30), and four occurrences:
/// 100 and 101 of event 10 at location 1, 200 of event 20 at location 2,
/// 201 of event 20 at location 1. Event 30 has none.
fn sample() -> Store {
    let mut store = Store::new();
    store.insert_location(Id::new(1), location("hall")).unwrap();
    store.insert_location(Id::new(2), location("barn")).unwrap();
    store.insert_event(Id::new(10), event("social")).unwrap();
    store.insert_event(Id::new(20), event("class")).unwrap();
    store.insert_event(Id::new(30), event("camp")).unwrap();
    store.insert_occurrence(Id::new(100), Id::new(10), held(5_000, 1)).unwrap();
    store.insert_occurrence(Id::new(101), Id::new(10), held(3_000, 1)).unwrap();
    store.insert_occurrence(Id::new(200), Id::new(20), held(4_000, 2)).unwrap();
    store.insert_occurrence(Id::new(201), Id::new(20), held(3_000, 1)).unwrap();
    store
}

#[test]
fn events_come_with_their_occurrences_in_table_order() {
    let store = sample();
    assert_eq!(
        store.all_events_with_occurrences(&everything()),
        vec![
            (
                Id::new(10),
                EventWithOccurrences {
                    event: event("social"),
                    occurrences: vec![held(5_000, 1), held(3_000, 1)],
                }
            ),
            (
                Id::new(20),
                EventWithOccurrences {
                    event: event("class"),
                    occurrences: vec![held(4_000, 2), held(3_000, 1)],
                }
            ),
            (Id::new(30), EventWithOccurrences { event: event("camp"), occurrences: vec![] }),
        ]
    );
}

#[test]
fn the_filter_selects_the_occurrences_of_each_event() {
    let store = sample();
    let listed = store.all_events_with_occurrences(&between(3_000, 5_000));
    assert_eq!(listed.len(), 3);
    assert_eq!(listed[0].1.occurrences, vec![]);
    assert_eq!(listed[1].1.occurrences, vec![held(4_000, 2)]);
    assert_eq!(listed[2].1.occurrences, vec![]);
    assert_eq!(listed[0].1.event, event("social"));
}

#[test]
fn a_filter_that_matches_nothing_still_lists_every_event() {
    let store = sample();
    let listed = store.all_events_with_occurrences(&between(10_000, 20_000));
    assert_eq!(
        listed,
        vec![
            (Id::new(10), EventWithOccurrences { event: event("social"), occurrences: vec![] }),
            (Id::new(20), EventWithOccurrences { event: event("class"), occurrences: vec![] }),
            (Id::new(30), EventWithOccurrences { event: event("camp"), occurrences: vec![] }),
        ]
    );
}

#[test]
fn read_event_with_occurrences_applies_the_filter() {
    let store = sample();
    assert_eq!(
        store.read_event_with_occurrences(Id::new(20), &between(3_500, 9_000)),
        Ok(EventWithOccurrences { event: event("class"), occurrences: vec![held(4_000, 2)] })
    );
    assert_eq!(
        store.read_event_with_occurrences(Id::new(30), &everything()),
        Ok(EventWithOccurrences { event: event("camp"), occurrences: vec![] })
    );
    assert_eq!(
        store.read_event_with_occurrences(Id::new(40), &everything()),
        Err(Error::NotFound)
    );
}

#[test]
fn locations_come_with_the_occurrences_held_there() {
    let store = sample();
    assert_eq!(
        store.locations_with_occurrences(&everything()),
        vec![
            (
                Id::new(1),
                LocationWithOccurrences {
                    location: location("hall"),
                    occurrences: vec![
                        (Id::new(100), plain(5_000)),
                        (Id::new(101), plain(3_000)),
                        (Id::new(201), plain(3_000)),
                    ],
                }
            ),
            (
                Id::new(2),
                LocationWithOccurrences {
                    location: location("barn"),
                    occurrences: vec![(Id::new(200), plain(4_000))],
                }
            ),
        ]
    );
    let late = store.locations_with_occurrences(&between(3_000, 9_000));
    assert_eq!(late[0].1.occurrences, vec![(Id::new(100), plain(5_000))]);
    assert_eq!(late[1].1.occurrences, vec![(Id::new(200), plain(4_000))]);
}

#[test]
fn read_all_joins_locations_and_events() {
    let store = sample();
    let overview = store.read_all(&between(3_000, 5_000));
    assert_eq!(
        overview,
        Overview {
            locations: vec![(Id::new(1), location("hall")), (Id::new(2), location("barn"))],
            events: store.all_events_with_occurrences(&between(3_000, 5_000)),
        }
    );
    assert_eq!(overview.events[1].1.occurrences, vec![held(4_000, 2)]);
}

#[test]
fn read_all_keeps_locations_whatever_the_filter() {
    let store = sample();
    let overview = store.read_all(&between(10_000, 20_000));
    assert_eq!(overview.locations.len(), 2);
    assert_eq!(overview.events.len(), 3);
}

#[test]
fn entries_are_in_table_order_and_occurrences_in_order_of_start() {
    let store = sample();
    assert_eq!(
        store.entries(&everything()),
        vec![
            entry(5_000, 1, 10, "social"),
            entry(3_000, 1, 10, "social"),
            entry(4_000, 2, 20, "class"),
            entry(3_000, 1, 20, "class"),
        ]
    );
    assert_eq!(
        store.occurrences(&everything()),
        vec![
            entry(3_000, 1, 10, "social"),
            entry(3_000, 1, 20, "class"),
            entry(4_000, 2, 20, "class"),
            entry(5_000, 1, 10, "social"),
        ]
    );
    assert_eq!(store.occurrences(&between(3_000, 5_000)), vec![entry(4_000, 2, 20, "class")]);
}

#[test]
fn occurrences_by_date_buckets_by_day_in_ascending_order() {
    let mut store = Store::new();
    store.insert_location(Id::new(1), location("hall")).unwrap();
    store.insert_event(Id::new(10), event("social")).unwrap();
    let ten = seconds("2024-06-01T10:00:00");
    let nine = seconds("2024-06-01T09:00:00");
    let eight = seconds("2024-06-02T08:00:00");
    store.insert_occurrence(Id::new(100), Id::new(10), held(ten, 1)).unwrap();
    store.insert_occurrence(Id::new(101), Id::new(10), held(nine, 1)).unwrap();
    store.insert_occurrence(Id::new(102), Id::new(10), held(eight, 1)).unwrap();
    assert_eq!(
        store.occurrences_by_date(&everything()),
        vec![
            (
                Date { days: 19_875 },
                vec![entry(nine, 1, 10, "social"), entry(ten, 1, 10, "social")]
            ),
            (Date { days: 19_876 }, vec![entry(eight, 1, 10, "social")]),
        ]
    );
}

#[test]
fn occurrences_by_date_applies_the_filter() {
    let mut store = Store::new();
    store.insert_event(Id::new(10), event("social")).unwrap();
    let day = 86_400;
    store.insert_occurrence(Id::new(100), Id::new(10), held(5 * day + 7, 1)).unwrap();
    store.insert_occurrence(Id::new(101), Id::new(10), held(3 * day, 1)).unwrap();
    store.insert_occurrence(Id::new(102), Id::new(10), held(3 * day + 1, 1)).unwrap();
    store.insert_occurrence(Id::new(103), Id::new(10), held(-1, 1)).unwrap();
    let upcoming = OccurrenceFilter::upcoming_at(Timestamp { seconds: 3 * day + 500 });
    assert_eq!(
        store.occurrences_by_date(&upcoming),
        vec![
            (Date { days: 3 }, vec![entry(3 * day + 1, 1, 10, "social")]),
            (Date { days: 5 }, vec![entry(5 * day + 7, 1, 10, "social")]),
        ]
    );
    assert_eq!(
        store.occurrences_by_date(&everything())[0],
        (Date { days: -1 }, vec![entry(-1, 1, 10, "social")])
    );
    assert_eq!(store.occurrences_by_date(&between(10 * day, 11 * day)), vec![]);
}

#[test]
fn sort_by_start_is_stable() {
    let list = vec![
        entry(5, 1, 10, "a"),
        entry(3, 1, 10, "b"),
        entry(5, 2, 20, "c"),
        entry(3, 2, 20, "d"),
        entry(4, 1, 10, "e"),
        entry(-7, 1, 10, "f"),
    ];
    assert_eq!(
        sort_by_start(list),
        vec![
            entry(-7, 1, 10, "f"),
            entry(3, 1, 10, "b"),
            entry(3, 2, 20, "d"),
            entry(4, 1, 10, "e"),
            entry(5, 1, 10, "a"),
            entry(5, 2, 20, "c"),
        ]
    );
    assert_eq!(sort_by_start(vec![]), vec![]);
}

#[test]
fn insert_by_start_goes_behind_equal_starts() {
    let mut list = vec![entry(1, 1, 10, "a"), entry(3, 1, 10, "b"), entry(3, 1, 10, "c")];
    insert_by_start(&mut list, entry(3, 1, 10, "new"));
    insert_by_start(&mut list, entry(0, 1, 10, "first"));
    insert_by_start(&mut list, entry(9, 1, 10, "last"));
    assert_eq!(
        list,
        vec![
            entry(0, 1, 10, "first"),
            entry(1, 1, 10, "a"),
            entry(3, 1, 10, "b"),
            entry(3, 1, 10, "c"),
            entry(3, 1, 10, "new"),
            entry(9, 1, 10, "last"),
        ]
    );
}

#[test]
fn group_by_date_orders_days_and_keeps_the_order_within_a_day() {
    let day = 86_400;
    let list = vec![
        entry(2 * day + 5, 1, 10, "a"),
        entry(day, 1, 10, "b"),
        entry(2 * day + 1, 1, 10, "c"),
        entry(-day, 1, 10, "d"),
        entry(2 * day - 1, 1, 10, "e"),
    ];
    assert_eq!(
        group_by_date(list),
        vec![
            (Date { days: -1 }, vec![entry(-day, 1, 10, "d")]),
            (Date { days: 1 }, vec![entry(day, 1, 10, "b"), entry(2 * day - 1, 1, 10, "e")]),
            (
                Date { days: 2 },
                vec![entry(2 * day + 5, 1, 10, "a"), entry(2 * day + 1, 1, 10, "c")]
            ),
        ]
    );
    assert_eq!(group_by_date(vec![]), vec![]);
}
