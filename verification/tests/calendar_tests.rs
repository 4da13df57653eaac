use chrono::{Datelike, NaiveDate};
use stock_timeseries::calendar::{CalendarDate, MAX_DAY_NUMBER, MIN_DAY_NUMBER};

fn date(year: i32, month: u32, day: u32) -> CalendarDate {
    CalendarDate::from_ymd(year, month, day).unwrap()
}

#[test]
fn range_constants_are_those_of_the_calendar() {
    assert_eq!(MIN_DAY_NUMBER, NaiveDate::MIN.num_days_from_ce());
    assert_eq!(MAX_DAY_NUMBER, NaiveDate::MAX.num_days_from_ce());
    assert!(NaiveDate::from_num_days_from_ce_opt(MIN_DAY_NUMBER).is_some());
    assert!(NaiveDate::from_num_days_from_ce_opt(MAX_DAY_NUMBER).is_some());
    assert!(NaiveDate::from_num_days_from_ce_opt(MIN_DAY_NUMBER - 1).is_none());
    assert!(NaiveDate::from_num_days_from_ce_opt(MAX_DAY_NUMBER + 1).is_none());
}

#[test]
fn from_ymd_gives_the_day_number() {
    assert_eq!(date(1, 1, 1).day_number(), 1);
    assert_eq!(date(1970, 1, 1).day_number(), 719_163);
    assert_eq!(date(0, 1, 1).day_number(), -365);
    assert_eq!(
        date(2024, 12, 31).day_number(),
        NaiveDate::from_ymd_opt(2024, 12, 31).unwrap().num_days_from_ce()
    );
}

#[test]
fn from_ymd_refuses_what_is_no_date() {
    assert_eq!(CalendarDate::from_ymd(2023, 4, 31), None);
    assert_eq!(CalendarDate::from_ymd(2015, 0, 14), None);
    assert_eq!(CalendarDate::from_ymd(2015, 2, 29), None);
    assert_eq!(CalendarDate::from_ymd(400_000, 1, 1), None);
    assert!(CalendarDate::from_ymd(2024, 2, 29).is_some());
}

#[test]
fn from_day_number_keeps_to_the_range() {
    assert_eq!(
        CalendarDate::from_day_number(719_163),
        Some(date(1970, 1, 1))
    );
    assert!(CalendarDate::from_day_number(MIN_DAY_NUMBER).is_some());
    assert!(CalendarDate::from_day_number(MAX_DAY_NUMBER).is_some());
    assert_eq!(CalendarDate::from_day_number(MIN_DAY_NUMBER - 1), None);
    assert_eq!(CalendarDate::from_day_number(MAX_DAY_NUMBER + 1), None);
    assert_eq!(CalendarDate::from_day_number_result(None), None);
    assert_eq!(CalendarDate::from_day_number_result(Some(i32::MAX)), None);
}

#[test]
fn days_before_steps_over_months_and_years() {
    assert_eq!(date(2024, 12, 31).days_before(0), Some(date(2024, 12, 31)));
    assert_eq!(date(2024, 12, 31).days_before(1), Some(date(2024, 12, 30)));
    assert_eq!(date(2024, 3, 1).days_before(1), Some(date(2024, 2, 29)));
    assert_eq!(date(2023, 3, 1).days_before(1), Some(date(2023, 2, 28)));
    assert_eq!(date(2024, 1, 1).days_before(1), Some(date(2023, 12, 31)));
    assert_eq!(date(2024, 12, 31).days_before(366), Some(date(2023, 12, 31)));
    assert_eq!(date(2022, 2, 20).days_before(6), Some(date(2022, 2, 14)));
}

#[test]
fn days_before_stops_at_the_range() {
    let first = CalendarDate::from_day_number(MIN_DAY_NUMBER).unwrap();
    let last = CalendarDate::from_day_number(MAX_DAY_NUMBER).unwrap();
    assert_eq!(first.days_before(0), Some(first));
    assert_eq!(first.days_before(1), None);
    let span = (MAX_DAY_NUMBER as i64 - MIN_DAY_NUMBER as i64) as u64;
    assert_eq!(last.days_before(span), Some(first));
    assert_eq!(last.days_before(span + 1), None);
    assert_eq!(last.days_before(u64::MAX), None);
    assert_eq!(date(2022, 2, 20).days_before(1_000_000_000_000), None);
    let outside = CalendarDate {
        day_number: MAX_DAY_NUMBER + 1,
    };
    assert_eq!(outside.days_before(0), None);
    assert_eq!(outside.days_before(1), None);
}

#[test]
fn days_before_agrees_with_the_calendar_over_a_long_run() {
    let anchor = date(2024, 12, 31);
    let start = NaiveDate::from_ymd_opt(2024, 12, 31).unwrap();
    let mut back: u64 = 0;
    while back < 3000 {
        let expected = start - chrono::Duration::days(back as i64);
        assert_eq!(
            anchor.days_before(back),
            CalendarDate::from_ymd(expected.year(), expected.month(), expected.day())
        );
        back += 1;
    }
}

#[test]
fn is_before_orders_dates() {
    assert!(date(2024, 12, 30).is_before(&date(2024, 12, 31)));
    assert!(!date(2024, 12, 31).is_before(&date(2024, 12, 31)));
    assert!(!date(2025, 1, 1).is_before(&date(2024, 12, 31)));
}
