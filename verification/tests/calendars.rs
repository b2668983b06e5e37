use transit_calendars::catalog::{Catalog, Error};
use transit_calendars::date::{Date, Weekday};
use transit_calendars::records::{Calendar, CalendarDate, ExceptionType};
use transit_calendars::serialize::{exact_compression, serialize_calendars, Compression};

/// Day number of a proleptic-Gregorian civil date, with day 1 being Monday,
/// 1 January of year 1 (the count the library's `Date` uses). Computed here
/// independently of the library, from the standard civil-calendar formula.
fn day_num(y: i64, m: i64, d: i64) -> u32 {
    let y2 = if m <= 2 { y - 1 } else { y };
    let era = y2.div_euclid(400);
    let yoe = y2 - era * 400;
    let doy = (153 * (if m > 2 { m - 3 } else { m + 9 }) + 2) / 5 + d - 1;
    let doe = yoe * 365 + yoe / 4 - yoe / 100 + doy;
    let days_since_1970 = era * 146097 + doe - 719468;
    (days_since_1970 + 719163) as u32
}

fn date(y: i64, m: i64, d: i64) -> Date {
    Date { num: day_num(y, m, d) }
}

fn weekly(id: &str, days: [bool; 7], start: Date, end: Date) -> Calendar {
    Calendar {
        id: id.to_string(),
        monday: days[0],
        tuesday: days[1],
        wednesday: days[2],
        thursday: days[3],
        friday: days[4],
        saturday: days[5],
        sunday: days[6],
        start_date: start,
        end_date: end,
    }
}

fn exception(id: &str, d: Date, k: ExceptionType) -> CalendarDate {
    CalendarDate {
        service_id: id.to_string(),
        date: d,
        exception_type: k,
    }
}

const MWF: [bool; 7] = [true, false, true, false, true, false, false];

#[test]
fn day_num_anchor() {
    // Day 1 is 0001-01-01; 1970-01-01 is day 719163.
    assert_eq!(day_num(1, 1, 1), 1);
    assert_eq!(day_num(1970, 1, 1), 719163);
}

#[test]
fn from_ymd_matches_civil_formula() {
    for &(y, m, d) in &[
        (1, 1, 1),
        (1970, 1, 1),
        (2000, 2, 29),
        (2020, 1, 1),
        (2020, 12, 31),
        (9999, 12, 31),
    ] {
        assert_eq!(
            Date::from_ymd(y as u32, m as u32, d as u32),
            Some(date(y, m, d))
        );
    }
}

#[test]
fn from_ymd_rejects_bad_dates() {
    assert_eq!(Date::from_ymd(2021, 2, 29), None);
    assert_eq!(Date::from_ymd(1900, 2, 29), None);
    assert_eq!(Date::from_ymd(2020, 4, 31), None);
    assert_eq!(Date::from_ymd(2020, 13, 1), None);
    assert_eq!(Date::from_ymd(2020, 0, 1), None);
    assert_eq!(Date::from_ymd(0, 1, 1), None);
    assert_eq!(Date::from_ymd(10000, 1, 1), None);
}

#[test]
fn ymd_round_trip() {
    for &(y, m, d) in &[(1, 1, 1), (1600, 2, 29), (2020, 7, 15), (9999, 12, 31)] {
        let dt = Date::from_ymd(y, m, d).unwrap();
        assert_eq!(dt.to_ymd(), Some((y, m, d)));
    }
    assert_eq!(Date { num: 0 }.to_ymd(), None);
    let last = Date::from_ymd(9999, 12, 31).unwrap();
    assert_eq!(Date { num: last.num + 1 }.to_ymd(), None);
}

#[test]
fn weekday_known_dates() {
    // 2020-01-01 was a Wednesday, 1970-01-01 a Thursday, 0001-01-01 a Monday.
    assert_eq!(date(2020, 1, 1).weekday(), Weekday::Wednesday);
    assert_eq!(date(1970, 1, 1).weekday(), Weekday::Thursday);
    assert_eq!(date(1, 1, 1).weekday(), Weekday::Monday);
    assert_eq!(date(2020, 1, 3).weekday(), Weekday::Friday);
    assert_eq!(date(2020, 1, 6).weekday(), Weekday::Monday);
}

#[test]
fn materialize_example() {
    // Mon/Wed/Fri from Wednesday 2020-01-01 through Friday 2020-01-10.
    let c = weekly("S1", MWF, date(2020, 1, 1), date(2020, 1, 10));
    let dates = c.get_valid_dates();
    let expected = vec![
        date(2020, 1, 1),
        date(2020, 1, 3),
        date(2020, 1, 6),
        date(2020, 1, 8),
        date(2020, 1, 10),
    ];
    assert_eq!(dates, expected);
}

#[test]
fn materialize_count_matches_direct_count() {
    let c = weekly(
        "S1",
        [true, true, false, false, true, false, true],
        date(2019, 12, 15),
        date(2020, 3, 7),
    );
    let dates = c.get_valid_dates();
    // Count matching weekdays directly, day by day.
    let mut count = 0;
    let mut n = c.start_date.num;
    while n <= c.end_date.num {
        let w = Date { num: n }.weekday();
        let active = match w {
            Weekday::Monday => c.monday,
            Weekday::Tuesday => c.tuesday,
            Weekday::Wednesday => c.wednesday,
            Weekday::Thursday => c.thursday,
            Weekday::Friday => c.friday,
            Weekday::Saturday => c.saturday,
            Weekday::Sunday => c.sunday,
        };
        if active {
            count += 1;
        }
        n += 1;
    }
    assert_eq!(dates.len(), count);
    // And every materialized date is in range on a flagged weekday.
    for d in &dates {
        assert!(c.start_date.num <= d.num && d.num <= c.end_date.num);
        let active = match d.weekday() {
            Weekday::Monday => c.monday,
            Weekday::Tuesday => c.tuesday,
            Weekday::Wednesday => c.wednesday,
            Weekday::Thursday => c.thursday,
            Weekday::Friday => c.friday,
            Weekday::Saturday => c.saturday,
            Weekday::Sunday => c.sunday,
        };
        assert!(active);
    }
}

#[test]
fn reversed_range_materializes_nothing() {
    let c = weekly("S1", [true; 7], date(2020, 1, 10), date(2020, 1, 1));
    assert!(c.get_valid_dates().is_empty());
}

#[test]
fn reversed_range_creates_no_calendar() {
    let c = weekly("S1", [true; 7], date(2020, 1, 10), date(2020, 1, 1));
    let catalog = Catalog::from_weekly_records(&vec![c]).unwrap();
    assert!(catalog.services.is_empty());
}

#[test]
fn no_flags_creates_no_calendar() {
    let c = weekly("S1", [false; 7], date(2020, 1, 1), date(2020, 1, 10));
    let catalog = Catalog::from_weekly_records(&vec![c]).unwrap();
    assert!(catalog.services.is_empty());
}

#[test]
fn remove_exception_example() {
    let c = weekly("S1", MWF, date(2020, 1, 1), date(2020, 1, 10));
    let mut catalog = Catalog::from_weekly_records(&vec![c]).unwrap();
    catalog.apply_exception(&exception("S1", date(2020, 1, 8), ExceptionType::Remove));
    assert_eq!(catalog.services.len(), 1);
    let expected = vec![
        date(2020, 1, 1),
        date(2020, 1, 3),
        date(2020, 1, 6),
        date(2020, 1, 10),
    ];
    assert_eq!(catalog.services[0].dates, expected);
}

#[test]
fn add_for_unknown_service_creates_it() {
    let c = weekly("S1", MWF, date(2020, 1, 1), date(2020, 1, 10));
    let mut catalog = Catalog::from_weekly_records(&vec![c]).unwrap();
    catalog.apply_exception(&exception("S2", date(2020, 2, 1), ExceptionType::Add));
    assert_eq!(catalog.services.len(), 2);
    assert_eq!(catalog.services[0].id, "S1");
    assert_eq!(catalog.services[1].id, "S2");
    assert_eq!(catalog.services[1].dates, vec![date(2020, 2, 1)]);
}

#[test]
fn remove_for_unknown_service_is_noop() {
    let c = weekly("S1", MWF, date(2020, 1, 1), date(2020, 1, 10));
    let mut catalog = Catalog::from_weekly_records(&vec![c]).unwrap();
    let before = catalog.clone();
    catalog.apply_exception(&exception("S2", date(2020, 2, 1), ExceptionType::Remove));
    assert_eq!(catalog, before);
}

#[test]
fn add_present_and_remove_absent_are_noops() {
    let c = weekly("S1", MWF, date(2020, 1, 1), date(2020, 1, 10));
    let mut catalog = Catalog::from_weekly_records(&vec![c]).unwrap();
    let before = catalog.clone();
    catalog.apply_exception(&exception("S1", date(2020, 1, 6), ExceptionType::Add));
    catalog.apply_exception(&exception("S1", date(2020, 1, 7), ExceptionType::Remove));
    assert_eq!(catalog, before);
}

#[test]
fn exceptions_apply_in_order() {
    let mut catalog = Catalog::new();
    let es = vec![
        exception("S2", date(2020, 2, 1), ExceptionType::Add),
        exception("S2", date(2020, 2, 3), ExceptionType::Add),
        exception("S2", date(2020, 2, 1), ExceptionType::Remove),
    ];
    catalog.apply_exceptions(&es);
    assert_eq!(catalog.services.len(), 1);
    assert_eq!(catalog.services[0].dates, vec![date(2020, 2, 3)]);
}

#[test]
fn duplicate_service_is_an_error() {
    let a = weekly("S1", MWF, date(2020, 1, 1), date(2020, 1, 10));
    let b = weekly("S1", [true; 7], date(2020, 2, 1), date(2020, 2, 5));
    match Catalog::from_weekly_records(&vec![a, b]) {
        Err(Error::DuplicateService(id)) => assert_eq!(id, "S1"),
        other => panic!("expected a duplicate-service error, got {:?}", other),
    }
}

#[test]
fn duplicate_with_empty_expansion_is_allowed() {
    // The second row expands to nothing, so it never enters the catalog and
    // its repeated identifier is no error.
    let a = weekly("S1", MWF, date(2020, 1, 1), date(2020, 1, 10));
    let b = weekly("S1", [false; 7], date(2020, 2, 1), date(2020, 2, 5));
    let catalog = Catalog::from_weekly_records(&vec![a, b]).unwrap();
    assert_eq!(catalog.services.len(), 1);
}

#[test]
fn both_sources_missing_fails() {
    match Catalog::assemble(None, None) {
        Err(Error::SourceMissing) => {}
        other => panic!("expected the missing-source error, got {:?}", other),
    }
}

#[test]
fn exceptions_only_source_is_enough() {
    let es = vec![exception("S2", date(2020, 2, 1), ExceptionType::Add)];
    let catalog = Catalog::assemble(None, Some(es)).unwrap();
    assert_eq!(catalog.services.len(), 1);
    assert_eq!(catalog.services[0].id, "S2");
    assert_eq!(catalog.services[0].dates, vec![date(2020, 2, 1)]);
}

#[test]
fn weekly_only_source_is_enough() {
    let c = weekly("S1", MWF, date(2020, 1, 1), date(2020, 1, 10));
    let catalog = Catalog::assemble(Some(vec![c]), None).unwrap();
    assert_eq!(catalog.services.len(), 1);
    assert_eq!(catalog.services[0].dates.len(), 5);
}

#[test]
fn get_valid_days_in_week_order() {
    let c = weekly(
        "S1",
        [true, false, true, false, true, false, true],
        date(2020, 1, 1),
        date(2020, 1, 10),
    );
    assert_eq!(
        c.get_valid_days(),
        vec![
            Weekday::Monday,
            Weekday::Wednesday,
            Weekday::Friday,
            Weekday::Sunday
        ]
    );
}

#[test]
fn compression_round_trip() {
    // Materializing a pattern and compressing the result reproduces the
    // weekday flags and the bounding range, with no residual exception:
    // the range starts and ends on flagged weekdays and spans a full week.
    let c = weekly("S1", MWF, date(2020, 1, 1), date(2020, 1, 10));
    let dates = c.get_valid_dates();
    let comp = exact_compression(&dates);
    assert_eq!(
        comp.operating_days,
        vec![Weekday::Monday, Weekday::Wednesday, Weekday::Friday]
    );
    let vp = comp.validity_period.unwrap();
    assert_eq!(vp.start_date, date(2020, 1, 1));
    assert_eq!(vp.end_date, date(2020, 1, 10));
    assert!(comp.exceptions.is_empty());
}

#[test]
fn compression_of_empty_set() {
    let comp = exact_compression(&vec![]);
    assert!(comp.operating_days.is_empty());
    assert!(comp.validity_period.is_none());
    assert!(comp.exceptions.is_empty());
}

#[test]
fn compression_residual_removals() {
    // Two Mondays two weeks apart: the pattern is Monday over the bounding
    // range, and the Monday in between must be removed again.
    let d1 = date(2020, 1, 6);
    let d3 = date(2020, 1, 20);
    let comp = exact_compression(&vec![d1, d3]);
    assert_eq!(comp.operating_days, vec![Weekday::Monday]);
    let vp = comp.validity_period.unwrap();
    assert_eq!(vp.start_date, d1);
    assert_eq!(vp.end_date, d3);
    assert_eq!(comp.exceptions.len(), 1);
    assert_eq!(comp.exceptions[0].date, date(2020, 1, 13));
    assert_eq!(comp.exceptions[0].exception_type, ExceptionType::Remove);
}

#[test]
fn empty_service_emits_no_row() {
    // A service whose date set ends up empty after merges still passes
    // through serialization, and yields no row in either table.
    let mut catalog = Catalog::new();
    catalog.apply_exception(&exception("S1", date(2020, 2, 1), ExceptionType::Add));
    catalog.apply_exception(&exception("S1", date(2020, 2, 1), ExceptionType::Remove));
    assert_eq!(catalog.services.len(), 1);
    assert!(catalog.services[0].dates.is_empty());
    let comps: Vec<Compression> = catalog
        .services
        .iter()
        .map(|s| exact_compression(&s.dates))
        .collect();
    let (rows, exc_rows, skipped) = serialize_calendars(&catalog, &comps);
    assert!(rows.is_empty());
    assert!(exc_rows.is_empty());
    assert!(skipped.is_empty());
}

#[test]
fn serialization_emits_rows() {
    let c = weekly("S1", MWF, date(2020, 1, 1), date(2020, 1, 10));
    let mut catalog = Catalog::from_weekly_records(&vec![c]).unwrap();
    catalog.apply_exception(&exception("S1", date(2020, 1, 8), ExceptionType::Remove));
    let comps: Vec<Compression> = catalog
        .services
        .iter()
        .map(|s| exact_compression(&s.dates))
        .collect();
    let (rows, exc_rows, skipped) = serialize_calendars(&catalog, &comps);
    assert_eq!(rows.len(), 1);
    assert_eq!(rows[0].id, "S1");
    assert!(rows[0].monday && rows[0].wednesday && rows[0].friday);
    assert!(!rows[0].tuesday && !rows[0].thursday && !rows[0].saturday && !rows[0].sunday);
    assert_eq!(rows[0].start_date, date(2020, 1, 1));
    assert_eq!(rows[0].end_date, date(2020, 1, 10));
    // 2020-01-08 is in range on a flagged weekday but absent from the set.
    assert_eq!(exc_rows.len(), 1);
    assert_eq!(exc_rows[0].service_id, "S1");
    assert_eq!(exc_rows[0].date, date(2020, 1, 8));
    assert_eq!(exc_rows[0].exception_type, ExceptionType::Remove);
    assert!(skipped.is_empty());
}

#[test]
fn missing_validity_period_skips_weekly_row_only() {
    // A compressor may hand back a non-empty pattern without a validity
    // period: the weekly row is skipped and reported, the residual
    // exceptions are still emitted, and nothing aborts.
    let mut catalog = Catalog::new();
    catalog.apply_exception(&exception("S1", date(2020, 2, 1), ExceptionType::Add));
    let comp = Compression {
        operating_days: vec![Weekday::Saturday],
        validity_period: None,
        exceptions: vec![transit_calendars::serialize::ExceptionDate {
            date: date(2020, 2, 1),
            exception_type: ExceptionType::Add,
        }],
    };
    let (rows, exc_rows, skipped) = serialize_calendars(&catalog, &vec![comp]);
    assert!(rows.is_empty());
    assert_eq!(exc_rows.len(), 1);
    assert_eq!(exc_rows[0].service_id, "S1");
    assert_eq!(exc_rows[0].exception_type, ExceptionType::Add);
    assert_eq!(skipped, vec!["S1".to_string()]);
}
