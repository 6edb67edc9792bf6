use visitations::date::stays_overlap;
use visitations::Date;

fn d(year: u16, month: u8, day: u8) -> Date {
    Date::new(year, month, day).unwrap()
}

#[test]
fn days_of_the_calendar_are_dates() {
    let date = d(2023, 3, 31);
    assert_eq!((date.year(), date.month(), date.day()), (2023, 3, 31));
    assert!(Date::new(2023, 1, 1).is_some());
    assert!(Date::new(2023, 12, 31).is_some());
    assert!(Date::new(2023, 4, 30).is_some());
    assert!(Date::new(0, 1, 1).is_some());
    assert!(Date::new(65535, 12, 31).is_some());
}

#[test]
fn other_numbers_are_no_dates() {
    assert_eq!(Date::new(2023, 0, 1), None);
    assert_eq!(Date::new(2023, 13, 1), None);
    assert_eq!(Date::new(2023, 1, 0), None);
    assert_eq!(Date::new(2023, 1, 32), None);
    assert_eq!(Date::new(2023, 4, 31), None);
    assert_eq!(Date::new(2023, 6, 31), None);
    assert_eq!(Date::new(2023, 9, 31), None);
    assert_eq!(Date::new(2023, 11, 31), None);
    assert_eq!(Date::new(2023, 255, 255), None);
}

#[test]
fn february_has_29_days_in_leap_years_only() {
    assert!(Date::new(2024, 2, 29).is_some());
    assert!(Date::new(2000, 2, 29).is_some());
    assert_eq!(Date::new(2023, 2, 29), None);
    assert_eq!(Date::new(1900, 2, 29), None);
    assert_eq!(Date::new(2100, 2, 29), None);
    assert!(Date::new(2023, 2, 28).is_some());
    assert_eq!(Date::new(2024, 2, 30), None);
}

#[test]
fn dates_are_ordered_by_year_month_day() {
    assert!(d(2023, 1, 10).is_at_or_before(&d(2023, 1, 10)));
    assert!(d(2023, 1, 10).is_at_or_before(&d(2023, 1, 11)));
    assert!(!d(2023, 1, 11).is_at_or_before(&d(2023, 1, 10)));
    assert!(d(2023, 1, 31).is_at_or_before(&d(2023, 2, 1)));
    assert!(!d(2023, 2, 1).is_at_or_before(&d(2023, 1, 31)));
    assert!(d(2022, 12, 31).is_at_or_before(&d(2023, 1, 1)));
    assert!(!d(2023, 1, 1).is_at_or_before(&d(2022, 12, 31)));
}

#[test]
fn closed_intervals_overlap_when_they_share_a_day() {
    let j = |day: u8| d(2023, 1, day);
    assert!(stays_overlap(&j(10), &j(12), &j(11), &j(13)));
    assert!(stays_overlap(&j(11), &j(13), &j(10), &j(12)));
    assert!(stays_overlap(&j(10), &j(12), &j(12), &j(15)));
    assert!(stays_overlap(&j(12), &j(15), &j(10), &j(12)));
    assert!(stays_overlap(&j(10), &j(20), &j(12), &j(13)));
    assert!(stays_overlap(&j(10), &j(10), &j(10), &j(10)));
    assert!(!stays_overlap(&j(10), &j(12), &j(13), &j(15)));
    assert!(!stays_overlap(&j(13), &j(15), &j(10), &j(12)));
}
