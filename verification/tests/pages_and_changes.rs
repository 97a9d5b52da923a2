use event_schedule::changes::{
    NewEvent, NewLocation, NewOccurrence, UpdateEvent, UpdateLocation, UpdateOccurrence,
};
use event_schedule::id::Id;
use event_schedule::model::{
    Event, Location, Occurrence, OccurrenceWithLocation, StoredOccurrence,
};
use event_schedule::store::Store;
use event_schedule::time::{Date, Timestamp, Weekday};
use event_schedule::website::{
    date_and_time, format_date, format_time, format_weekday, preview, quick_info, Page,
};

#[test]
fn weekdays_have_two_letters() {
    assert_eq!(format_weekday(Weekday::Mon), "Mo");
    assert_eq!(format_weekday(Weekday::Tue), "Di");
    assert_eq!(format_weekday(Weekday::Wed), "Mi");
    assert_eq!(format_weekday(Weekday::Thu), "Do");
    assert_eq!(format_weekday(Weekday::Fri), "Fr");
    assert_eq!(format_weekday(Weekday::Sat), "Sa");
    assert_eq!(format_weekday(Weekday::Sun), "So");
}

#[test]
fn dates_are_written_with_weekday_day_and_month() {
    assert_eq!(format_date(Date { days: 19_875 }), Some("Sa, 01.06.".to_string()));
    assert_eq!(format_date(Date { days: 0 }), Some("Do, 01.01.".to_string()));
    assert_eq!(format_date(Date { days: -1 }), Some("Mi, 31.12.".to_string()));
    assert_eq!(format_date(Date { days: i64::MAX }), None);
    assert_eq!(format_date(Date { days: 1_000_000_000_000 }), None);
}

#[test]
fn times_are_written_in_hours_and_minutes() {
    let start = Timestamp::parse("2024-06-01T09:05:59").unwrap();
    assert_eq!(format_time(start), Some("09:05".to_string()));
    assert_eq!(format_time(Timestamp { seconds: 0 }), Some("00:00".to_string()));
    assert_eq!(format_time(Timestamp { seconds: i64::MAX }), None);
}

#[test]
fn format_follows_the_given_format() {
    let start = Timestamp::parse("2024-06-01T09:05:59").unwrap();
    assert_eq!(start.format("%Y-%m-%dT%H:%M:%S"), Some("2024-06-01T09:05:59".to_string()));
    assert_eq!(start.format("%Q"), None);
}

#[test]
fn quick_info_joins_time_and_place() {
    assert_eq!(quick_info("09:05", "hall"), "09:05 - hall");
    assert_eq!(date_and_time("Sa, 01.06.", "09:05"), "Sa, 01.06. 09:05");
    assert_eq!(quick_info(&date_and_time("Sa, 01.06.", "09:05"), "hall"), "Sa, 01.06. 09:05 - hall");
}

#[test]
fn preview_shows_five_and_counts_the_rest() {
    assert_eq!(preview(0), (0, 0));
    assert_eq!(preview(4), (4, 0));
    assert_eq!(preview(5), (5, 0));
    assert_eq!(preview(6), (5, 1));
    assert_eq!(preview(42), (5, 37));
}

#[test]
fn pages_have_titles() {
    assert_eq!(Page::OccurrenceOverview.title(), "Termine");
    assert_eq!(Page::EventsOverview.title(), "Angebote");
    assert!(Page::EventsOverview.is_current(Some(Page::EventsOverview)));
    assert!(!Page::EventsOverview.is_current(Some(Page::OccurrenceOverview)));
    assert!(!Page::EventsOverview.is_current(None));
}

#[test]
fn a_location_that_is_not_stored_has_a_fixed_name() {
    let mut store = Store::new();
    store
        .insert_location(
            Id::new(1),
            Location { name: "hall".to_string(), address: "street".to_string() },
        )
        .unwrap();
    assert_eq!(store.location_name(Id::new(1)), "hall");
    assert_eq!(store.location_name(Id::new(2)), "Steht noch nicht fest.");
}

#[test]
fn new_records_become_entities() {
    let event = NewEvent {
        title: "social".to_string(),
        teaser: "dance".to_string(),
        description: "every week".to_string(),
    };
    assert_eq!(
        event.into_event(),
        Event {
            title: "social".to_string(),
            teaser: "dance".to_string(),
            description: "every week".to_string(),
        }
    );
    let location = NewLocation { name: "hall".to_string(), address: "street".to_string() };
    assert_eq!(
        location.into_location(),
        Location { name: "hall".to_string(), address: "street".to_string() }
    );
    let occurrence = NewOccurrence {
        event_id: Id::new(10),
        start: Timestamp { seconds: 7 },
        duration: 30,
        location_id: Id::new(1),
    };
    let row = occurrence.into_stored();
    assert_eq!(row.event_id, Id::new(10));
    assert_eq!(
        row.occurrence,
        OccurrenceWithLocation {
            occurrence: Occurrence { start: Timestamp { seconds: 7 }, duration: 30 },
            location_id: Id::new(1),
        }
    );
}

#[test]
fn a_change_replaces_only_the_fields_it_names() {
    let current = Event {
        title: "social".to_string(),
        teaser: "dance".to_string(),
        description: "every week".to_string(),
    };
    let change = UpdateEvent { title: None, teaser: Some("swing".to_string()), description: None };
    assert!(!change.is_empty());
    assert_eq!(
        change.apply(&current),
        Event {
            title: "social".to_string(),
            teaser: "swing".to_string(),
            description: "every week".to_string(),
        }
    );
    let nothing = UpdateEvent { title: None, teaser: None, description: None };
    assert!(nothing.is_empty());
    assert_eq!(nothing.apply(&current), current);
    let all = UpdateEvent {
        title: Some("a".to_string()),
        teaser: Some("b".to_string()),
        description: Some("c".to_string()),
    };
    assert_eq!(
        all.apply(&current),
        Event { title: "a".to_string(), teaser: "b".to_string(), description: "c".to_string() }
    );
}

#[test]
fn a_location_change_replaces_only_the_fields_it_names() {
    let current = Location { name: "hall".to_string(), address: "street".to_string() };
    let change = UpdateLocation { name: Some("loft".to_string()), address: None };
    assert!(!change.is_empty());
    assert_eq!(
        change.apply(&current),
        Location { name: "loft".to_string(), address: "street".to_string() }
    );
    let nothing = UpdateLocation { name: None, address: None };
    assert!(nothing.is_empty());
    assert_eq!(nothing.apply(&current), current);
}

#[test]
fn an_occurrence_change_replaces_only_the_fields_it_names() {
    let current = StoredOccurrence {
        event_id: Id::new(10),
        occurrence: OccurrenceWithLocation {
            occurrence: Occurrence { start: Timestamp { seconds: 7 }, duration: 30 },
            location_id: Id::new(1),
        },
    };
    let change = UpdateOccurrence {
        event_id: None,
        start: Some(Timestamp { seconds: 9 }),
        duration: None,
        location_id: Some(Id::new(2)),
    };
    let row = change.apply(&current);
    assert_eq!(row.event_id, Id::new(10));
    assert_eq!(
        row.occurrence,
        OccurrenceWithLocation {
            occurrence: Occurrence { start: Timestamp { seconds: 9 }, duration: 30 },
            location_id: Id::new(2),
        }
    );
}
