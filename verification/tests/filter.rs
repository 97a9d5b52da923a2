use event_schedule::error::Error;
use event_schedule::filter::OccurrenceFilter;
use event_schedule::model::Occurrence;
use event_schedule::time::Timestamp;

const JUNE_FIRST: i64 = 1_717_200_000;
const MAY_FIRST: i64 = 1_714_521_600;

fn at(seconds: i64) -> Occurrence {
    Occurrence { start: Timestamp { seconds }, duration: 60 }
}

fn stamp(seconds: i64) -> Option<Timestamp> {
    Some(Timestamp { seconds })
}

#[test]
fn default_filter_has_no_bounds_and_selects_everything() {
    let filter = OccurrenceFilter::default();
    assert_eq!(filter.before(), None);
    assert_eq!(filter.after(), None);
    assert!(filter.applies(&at(i64::MIN)));
    assert!(filter.applies(&at(0)));
    assert!(filter.applies(&at(i64::MAX)));
}

#[test]
fn applies_is_exclusive_at_both_bounds() {
    let filter = OccurrenceFilter::from_bounds(stamp(200), stamp(100)).unwrap();
    assert!(!filter.applies(&at(99)));
    assert!(!filter.applies(&at(100)));
    assert!(filter.applies(&at(101)));
    assert!(filter.applies(&at(199)));
    assert!(!filter.applies(&at(200)));
    assert!(!filter.applies(&at(201)));
}

#[test]
fn applies_with_one_bound() {
    let before = OccurrenceFilter::from_bounds(stamp(200), None).unwrap();
    assert!(before.applies(&at(-5)));
    assert!(before.applies(&at(199)));
    assert!(!before.applies(&at(200)));
    let after = OccurrenceFilter::from_bounds(None, stamp(100)).unwrap();
    assert!(!after.applies(&at(100)));
    assert!(after.applies(&at(101)));
    assert!(after.applies(&at(i64::MAX)));
}

#[test]
fn applies_matches_its_formula_on_a_grid() {
    let bounds = vec![None, stamp(-10), stamp(0), stamp(10)];
    for before in bounds.iter() {
        for after in bounds.iter() {
            if let Ok(filter) = OccurrenceFilter::from_bounds(*before, *after) {
                for start in -12..13 {
                    let expected = (before.is_none() || start < before.unwrap().seconds)
                        && (after.is_none() || start > after.unwrap().seconds);
                    assert_eq!(filter.applies(&at(start)), expected);
                }
            }
        }
    }
}

#[test]
fn from_bounds_wants_the_lower_bound_first() {
    assert_eq!(OccurrenceFilter::from_bounds(stamp(100), stamp(200)), Err(Error::InvalidRange));
    assert_eq!(OccurrenceFilter::from_bounds(stamp(100), stamp(100)), Err(Error::InvalidRange));
    let filter = OccurrenceFilter::from_bounds(stamp(101), stamp(100)).unwrap();
    assert_eq!(filter.before(), stamp(101));
    assert_eq!(filter.after(), stamp(100));
    assert!(OccurrenceFilter::from_bounds(None, stamp(100)).is_ok());
    assert!(OccurrenceFilter::from_bounds(stamp(100), None).is_ok());
    assert_eq!(OccurrenceFilter::from_bounds(None, None), Ok(OccurrenceFilter::default()));
}

#[test]
fn parse_reads_both_bounds() {
    let filter =
        OccurrenceFilter::parse(Some("2024-06-01T00:00:00"), Some("2024-05-01T00:00:00")).unwrap();
    assert_eq!(filter.before(), stamp(JUNE_FIRST));
    assert_eq!(filter.after(), stamp(MAY_FIRST));
}

#[test]
fn parse_leaves_absent_bounds_open() {
    assert_eq!(OccurrenceFilter::parse(None, None), Ok(OccurrenceFilter::default()));
    let before = OccurrenceFilter::parse(Some("2024-06-01T00:00:00"), None).unwrap();
    assert_eq!(before.before(), stamp(JUNE_FIRST));
    assert_eq!(before.after(), None);
    let after = OccurrenceFilter::parse(None, Some("2024-06-01T00:00:00")).unwrap();
    assert_eq!(after.before(), None);
    assert_eq!(after.after(), stamp(JUNE_FIRST));
}

#[test]
fn parse_with_after_behind_before_is_an_invalid_range() {
    assert_eq!(
        OccurrenceFilter::parse(Some("2024-05-01T00:00:00"), Some("2024-06-01T00:00:00")),
        Err(Error::InvalidRange)
    );
    assert_eq!(
        OccurrenceFilter::parse(Some("2024-05-01T00:00:00"), Some("2024-05-01T00:00:00")),
        Err(Error::InvalidRange)
    );
}

#[test]
fn parse_names_the_bound_that_is_malformed() {
    assert_eq!(
        OccurrenceFilter::parse(Some("soon"), Some("2024-06-01T00:00:00")),
        Err(Error::InvalidBeforeDate)
    );
    assert_eq!(
        OccurrenceFilter::parse(Some("2024-06-01T00:00:00"), Some("2024-06-01")),
        Err(Error::InvalidAfterDate)
    );
    assert_eq!(OccurrenceFilter::parse(Some(""), None), Err(Error::InvalidBeforeDate));
    assert_eq!(OccurrenceFilter::parse(None, Some("")), Err(Error::InvalidAfterDate));
    assert_eq!(OccurrenceFilter::parse(Some("x"), Some("y")), Err(Error::InvalidBeforeDate));
}

#[test]
fn upcoming_at_starts_at_the_midnight_of_the_day() {
    let filter = OccurrenceFilter::upcoming_at(Timestamp { seconds: JUNE_FIRST + 50_000 });
    assert_eq!(filter.before(), None);
    assert_eq!(filter.after(), stamp(JUNE_FIRST));
    assert!(!filter.applies(&at(JUNE_FIRST - 1)));
    assert!(!filter.applies(&at(JUNE_FIRST)));
    assert!(filter.applies(&at(JUNE_FIRST + 1)));
    let at_midnight = OccurrenceFilter::upcoming_at(Timestamp { seconds: JUNE_FIRST });
    assert_eq!(at_midnight.after(), stamp(JUNE_FIRST));
}

#[test]
fn upcoming_excludes_what_starts_at_its_midnight() {
    let before = Timestamp::now();
    let filter = OccurrenceFilter::upcoming();
    let after = Timestamp::now();
    assert_eq!(filter.before(), None);
    let midnight = filter.after().unwrap();
    assert_eq!(midnight.seconds % 86_400, 0);
    assert!(midnight == before.start_of_day() || midnight == after.start_of_day());
    assert!(!filter.applies(&at(midnight.seconds)));
    assert!(filter.applies(&at(midnight.seconds + 1)));
    assert!(!filter.applies(&at(midnight.seconds - 1)));
}

#[test]
fn or_upcoming_replaces_only_the_filter_without_bounds() {
    let now = Timestamp { seconds: JUNE_FIRST + 7 };
    let open = OccurrenceFilter::default().or_upcoming_at(now);
    assert_eq!(open, OccurrenceFilter::upcoming_at(now));
    let bounded = OccurrenceFilter::from_bounds(stamp(5), None).unwrap();
    assert_eq!(bounded.or_upcoming_at(now), bounded);
    let lower = OccurrenceFilter::from_bounds(None, stamp(5)).unwrap();
    assert_eq!(lower.or_upcoming_at(now), lower);
}
