use chrono::{Datelike, NaiveDate};
use delphis_nap::calendar::{Date, MAX_DAY, MIN_DAY};

#[test]
fn last_date_february() {
    let date: Date = Date::from_ymd(2025, 2, 4).unwrap();
    let expected_date: Date = Date::from_ymd(2025, 2, 28).unwrap();
    let actual_date: Date = date.last_day_of_month();

    assert_eq!(expected_date, actual_date);
}

#[test]
fn last_date_last() {
    let date: Date = Date::from_ymd(2025, 1, 31).unwrap();
    let expected_date: Date = Date::from_ymd(2025, 1, 31).unwrap();
    let actual_date: Date = date.last_day_of_month();

    assert_eq!(expected_date, actual_date);
}

#[test]
fn last_date_leap_february() {
    assert_eq!(
        Date::from_ymd(2024, 2, 1).unwrap().last_day_of_month(),
        Date::from_ymd(2024, 2, 29).unwrap()
    );
}

#[test]
fn first_day_of_month_goes_back_to_the_first() {
    assert_eq!(
        Date::from_ymd(2025, 3, 31).unwrap().first_day_of_month(),
        Date::from_ymd(2025, 3, 1).unwrap()
    );
    assert_eq!(
        Date::from_ymd(2025, 3, 1).unwrap().first_day_of_month(),
        Date::from_ymd(2025, 3, 1).unwrap()
    );
}

#[test]
fn calendar_range_is_that_of_chrono() {
    assert_eq!(NaiveDate::MIN.num_days_from_ce(), MIN_DAY);
    assert_eq!(NaiveDate::MAX.num_days_from_ce(), MAX_DAY);
    assert!(Date::from_days(MIN_DAY).is_some());
    assert!(Date::from_days(MAX_DAY).is_some());
    assert!(Date::from_days(MIN_DAY - 1).is_none());
    assert!(Date::from_days(MAX_DAY + 1).is_none());
    assert_eq!(Date::from_days(MIN_DAY).unwrap().first_day_of_month().days(), MIN_DAY);
    assert_eq!(Date::from_days(MAX_DAY).unwrap().last_day_of_month().days(), MAX_DAY);
}

#[test]
fn dates_that_do_not_exist_are_refused() {
    assert!(Date::from_ymd(2023, 4, 31).is_none());
    assert!(Date::from_ymd(2023, 2, 29).is_none());
    assert!(Date::from_ymd(2023, 13, 1).is_none());
    assert!(Date::from_ymd(2023, 0, 1).is_none());
    assert!(Date::from_ymd(400000, 1, 1).is_none());
}

#[test]
fn day_numbers_count_from_year_one() {
    assert_eq!(Date::from_ymd(1, 1, 1).unwrap().days(), 1);
    assert_eq!(Date::from_ymd(1999, 9, 3).unwrap().days(), 730_000);
    assert_eq!(Date::from_ymd(2020, 1, 1).unwrap().day(), 1);
    assert_eq!(Date::from_ymd(2020, 1, 31).unwrap().day(), 31);
}

#[test]
fn dates_order_and_follow_each_other() {
    let a = Date::from_ymd(2019, 12, 31).unwrap();
    let b = Date::from_ymd(2020, 1, 1).unwrap();
    assert!(a.is_before(&b));
    assert!(!b.is_before(&a));
    assert!(!a.is_before(&a));
    assert_eq!(a.succ(), Some(b));
    assert_eq!(Date::from_days(MAX_DAY).unwrap().succ(), None);
    assert_eq!(a.plus_days(1), b);
}

#[test]
fn date_text_is_iso() {
    assert_eq!(Date::from_ymd(2015, 9, 5).unwrap().to_text(), "2015-09-05");
    assert_eq!(Date::from_ymd(2020, 12, 31).unwrap().to_text(), "2020-12-31");
}

#[test]
fn today_is_a_day_of_the_calendar() {
    let today = Date::today();
    assert_eq!(Date::from_days(today.days()), Some(today));
    assert!(Date::from_ymd(2020, 1, 1).unwrap().is_before(&today));
}
