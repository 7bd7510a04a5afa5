use deputy::date::{
    days_in_month, floor_unix_seconds, is_leap_year, Date, MAX_UNIX_SECONDS, MIN_UNIX_SECONDS,
};

#[test]
fn flooring_to_seconds() {
    assert_eq!(floor_unix_seconds(false, 0, 0), 0);
    assert_eq!(floor_unix_seconds(false, 5, 999_999_999), 5);
    assert_eq!(floor_unix_seconds(true, 5, 0), -5);
    assert_eq!(floor_unix_seconds(true, 5, 1), -6);
    assert_eq!(floor_unix_seconds(true, 0, 1), -1);
}

#[test]
fn flooring_keeps_the_day() {
    // Half a second before the epoch still belongs to 1969-12-31.
    let secs = floor_unix_seconds(true, 0, 500_000_000);
    assert_eq!(Date::from_unix_seconds(secs), Date::new(1969, 12, 31).unwrap());
}

#[test]
fn leap_years() {
    assert!(is_leap_year(2024));
    assert!(is_leap_year(2000));
    assert!(!is_leap_year(1900));
    assert!(!is_leap_year(2023));
}

#[test]
fn month_lengths() {
    assert_eq!(days_in_month(2024, 2), 29);
    assert_eq!(days_in_month(2023, 2), 28);
    assert_eq!(days_in_month(2023, 4), 30);
    assert_eq!(days_in_month(2023, 1), 31);
    assert_eq!(days_in_month(2023, 12), 31);
}

#[test]
fn new_accepts_real_dates() {
    let d = Date::new(2024, 2, 29).unwrap();
    assert_eq!(d.year, 2024);
    assert_eq!(d.month, 2);
    assert_eq!(d.day, 29);
    assert!(Date::new(0, 1, 1).is_some());
    assert!(Date::new(9999, 12, 31).is_some());
}

#[test]
fn new_rejects_impossible_dates() {
    assert!(Date::new(2023, 2, 29).is_none());
    assert!(Date::new(2023, 13, 1).is_none());
    assert!(Date::new(2023, 0, 1).is_none());
    assert!(Date::new(2023, 4, 31).is_none());
    assert!(Date::new(2023, 1, 0).is_none());
    assert!(Date::new(-1, 1, 1).is_none());
    assert!(Date::new(10000, 1, 1).is_none());
}

#[test]
fn iso_format() {
    let d = Date::new(2024, 5, 3).unwrap();
    assert_eq!(d.to_iso(), b"2024-05-03".to_vec());
    let d = Date::new(987, 12, 31).unwrap();
    assert_eq!(d.to_iso(), b"0987-12-31".to_vec());
    let d = Date::new(0, 1, 1).unwrap();
    assert_eq!(d.to_iso(), b"0000-01-01".to_vec());
}

#[test]
fn epoch_date() {
    let d = Date::from_unix_seconds(0);
    assert_eq!(d, Date::new(1970, 1, 1).unwrap());
}

#[test]
fn day_boundaries() {
    assert_eq!(Date::from_unix_seconds(86399), Date::new(1970, 1, 1).unwrap());
    assert_eq!(Date::from_unix_seconds(86400), Date::new(1970, 1, 2).unwrap());
    assert_eq!(Date::from_unix_seconds(-1), Date::new(1969, 12, 31).unwrap());
}

#[test]
fn leap_day_from_timestamp() {
    assert_eq!(
        Date::from_unix_seconds(1709164800),
        Date::new(2024, 2, 29).unwrap()
    );
}

#[test]
fn range_endpoints() {
    assert_eq!(
        Date::from_unix_seconds(MIN_UNIX_SECONDS),
        Date::new(0, 1, 1).unwrap()
    );
    assert_eq!(
        Date::from_unix_seconds(MAX_UNIX_SECONDS),
        Date::new(9999, 12, 31).unwrap()
    );
}
