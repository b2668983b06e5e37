//! Cross-checks of the library's day model against an independent calendar
//! implementation: the day count, the weekday arithmetic, and the civil
//! conversions must agree with chrono over a wide sweep of dates.

use chrono::{Datelike, NaiveDate};

use transit_calendars::date::{Date, Weekday};

fn weekday_position(w: Weekday) -> u32 {
    match w {
        Weekday::Monday => 0,
        Weekday::Tuesday => 1,
        Weekday::Wednesday => 2,
        Weekday::Thursday => 3,
        Weekday::Friday => 4,
        Weekday::Saturday => 5,
        Weekday::Sunday => 6,
    }
}

#[test]
fn day_numbers_match_chrono() {
    // The library counts days with 0001-01-01 as day 1, as
    // `num_days_from_ce` does.
    for &(y, m, d) in &[
        (1, 1, 1),
        (1582, 10, 15),
        (1900, 2, 28),
        (1970, 1, 1),
        (2000, 2, 29),
        (2020, 1, 1),
        (2100, 3, 1),
        (9999, 12, 31),
    ] {
        let ours = Date::from_ymd(y, m, d).unwrap();
        let theirs = NaiveDate::from_ymd_opt(y as i32, m, d).unwrap();
        assert_eq!(ours.num as i32, theirs.num_days_from_ce(), "at {y}-{m}-{d}");
    }
}

#[test]
fn weekdays_match_chrono() {
    let mut day = NaiveDate::from_ymd_opt(2019, 12, 1).unwrap();
    let end = NaiveDate::from_ymd_opt(2021, 2, 1).unwrap();
    while day < end {
        let ours = Date { num: day.num_days_from_ce() as u32 };
        assert_eq!(
            weekday_position(ours.weekday()),
            day.weekday().num_days_from_monday(),
            "at {day}"
        );
        day = day.succ_opt().unwrap();
    }
}

#[test]
fn civil_conversions_match_chrono() {
    // Sweep a leap-century boundary day by day in both directions.
    let mut day = NaiveDate::from_ymd_opt(1999, 12, 1).unwrap();
    let end = NaiveDate::from_ymd_opt(2001, 2, 1).unwrap();
    while day < end {
        let num = day.num_days_from_ce() as u32;
        let ours = Date::from_ymd(day.year() as u32, day.month(), day.day()).unwrap();
        assert_eq!(ours.num, num, "at {day}");
        assert_eq!(
            Date { num }.to_ymd(),
            Some((day.year() as u32, day.month(), day.day())),
            "at {day}"
        );
        day = day.succ_opt().unwrap();
    }
}
