use commitgen::date::Date;
use commitgen::schedule::DateRange;

fn d(y: u32, m: u32, day: u32) -> Date {
    Date::new(y, m, day).unwrap()
}

#[test]
fn day_number_starts_at_zero() {
    assert_eq!(d(1, 1, 1).day_number(), 0);
}

#[test]
fn day_number_grows_by_one() {
    assert_eq!(d(1, 1, 2).day_number(), 1);
    assert_eq!(d(1, 2, 1).day_number(), 31);
}

#[test]
fn weekday_of_known_dates() {
    // 2023-01-02 was a Monday, 2023-01-07 a Saturday, 2023-01-08 a Sunday
    assert_eq!(d(2023, 1, 2).weekday(), 0);
    assert_eq!(d(2023, 1, 6).weekday(), 4);
    assert_eq!(d(2023, 1, 7).weekday(), 5);
    assert_eq!(d(2023, 1, 8).weekday(), 6);
}

#[test]
fn weekend_flags() {
    assert!(!d(2023, 1, 2).is_weekend());
    assert!(!d(2023, 1, 6).is_weekend());
    assert!(d(2023, 1, 7).is_weekend());
    assert!(d(2023, 1, 8).is_weekend());
}

#[test]
fn succ_within_month() {
    assert_eq!(d(2023, 3, 14).succ(), d(2023, 3, 15));
}

#[test]
fn succ_month_rollover() {
    assert_eq!(d(2023, 1, 31).succ(), d(2023, 2, 1));
    assert_eq!(d(2023, 4, 30).succ(), d(2023, 5, 1));
}

#[test]
fn succ_year_rollover() {
    assert_eq!(d(2023, 12, 31).succ(), d(2024, 1, 1));
}

#[test]
fn succ_leap_february() {
    assert_eq!(d(2024, 2, 28).succ(), d(2024, 2, 29));
    assert_eq!(d(2024, 2, 29).succ(), d(2024, 3, 1));
    assert_eq!(d(2023, 2, 28).succ(), d(2023, 3, 1));
    assert_eq!(d(1900, 2, 28).succ(), d(1900, 3, 1));
    assert_eq!(d(2000, 2, 28).succ(), d(2000, 2, 29));
}

#[test]
fn label_is_zero_padded() {
    assert_eq!(d(2023, 1, 2).label(), b"2023-01-02".to_vec());
    assert_eq!(d(987, 6, 5).label(), b"0987-06-05".to_vec());
    assert_eq!(d(9999, 12, 31).label(), b"9999-12-31".to_vec());
}

#[test]
fn new_rejects_bad_components() {
    assert!(Date::new(2023, 2, 29).is_none());
    assert!(Date::new(2024, 2, 29).is_some());
    assert!(Date::new(0, 1, 1).is_none());
    assert!(Date::new(10000, 1, 1).is_none());
    assert!(Date::new(2023, 13, 1).is_none());
    assert!(Date::new(2023, 0, 1).is_none());
    assert!(Date::new(2023, 4, 31).is_none());
    assert!(Date::new(2023, 1, 0).is_none());
}

#[test]
fn range_day_counts() {
    let week = DateRange { start_date: d(2023, 1, 2), end_date: d(2023, 1, 8) };
    assert_eq!(week.days(), 7);
    let single = DateRange { start_date: d(2023, 6, 15), end_date: d(2023, 6, 15) };
    assert_eq!(single.days(), 1);
    let reversed = DateRange { start_date: d(2023, 6, 16), end_date: d(2023, 6, 15) };
    assert_eq!(reversed.days(), 0);
    let leap_feb = DateRange { start_date: d(2024, 2, 1), end_date: d(2024, 3, 1) };
    assert_eq!(leap_feb.days(), 30);
    let year = DateRange { start_date: d(2023, 1, 1), end_date: d(2023, 12, 31) };
    assert_eq!(year.days(), 365);
}
