use task_tracker::duration::Duration;
use task_tracker::time::{CalendarError, Time};

#[test]
fn test_leaps() {
    assert_eq!(Time::is_leap_year(2020), true);
    assert_eq!(Time::is_leap_year(2021), false);
    assert_eq!(Time::is_leap_year(2022), false);
    assert_eq!(Time::is_leap_year(2023), false);
    assert_eq!(Time::is_leap_year(2024), true);
    assert_eq!(Time::is_leap_year(1804), true);
    assert_eq!(Time::is_leap_year(1800), false);
    assert_eq!(Time::is_leap_year(1932), true);
}

#[test]
fn test_iso() {
    let time = Time::new(2023, 11, 27, 3, 18, 52).unwrap().to_iso();
    let iso = 1701055132;
    assert_eq!(iso, time);
    let time = Time::from_iso(iso);
    assert_eq!(time, Time::new(2023, 11, 27, 3, 18, 52).unwrap());
}

#[test]
fn century_leap_rule() {
    assert!(Time::is_leap_year(2000));
    assert!(!Time::is_leap_year(1900));
    assert!(Time::is_leap_year(2024));
    assert!(!Time::is_leap_year(2023));
}

#[test]
fn round_trip_through_seconds() {
    let cases = [
        (1970, 1, 1, 0, 0, 0),
        (1970, 12, 31, 23, 59, 59),
        (2000, 2, 29, 12, 0, 0),
        (2023, 11, 30, 8, 15, 1),
        (2024, 2, 29, 23, 59, 59),
        (2024, 3, 1, 0, 0, 0),
        (2100, 12, 31, 0, 0, 7),
    ];
    for (y, mo, d, h, mi, s) in cases {
        let t = Time::new(y, mo, d, h, mi, s).unwrap();
        assert_eq!(Time::from_iso(t.to_iso()), t);
    }
}

#[test]
fn epoch_and_known_seconds() {
    assert_eq!(Time::new(1970, 1, 1, 0, 0, 0).unwrap().to_iso(), 0);
    assert_eq!(Time::new(1970, 1, 2, 0, 0, 0).unwrap().to_iso(), 86400);
    assert_eq!(Time::new(2000, 1, 1, 0, 0, 0).unwrap().to_iso(), 946684800);
    assert_eq!(Time::from_iso(951782400), Time::new(2000, 2, 29, 0, 0, 0).unwrap());
}

#[test]
fn field_order_matches_second_order() {
    let instants = [
        Time::new(2023, 12, 31, 23, 59, 59).unwrap(),
        Time::new(2024, 1, 1, 0, 0, 0).unwrap(),
        Time::new(2024, 1, 1, 0, 0, 1).unwrap(),
        Time::new(2024, 2, 1, 0, 0, 0).unwrap(),
        Time::new(2024, 1, 31, 23, 0, 0).unwrap(),
    ];
    for a in instants.iter() {
        for b in instants.iter() {
            assert_eq!(a < b, a.to_iso() < b.to_iso());
            assert_eq!(a == b, a.to_iso() == b.to_iso());
        }
    }
}

#[test]
fn invalid_fields_are_refused() {
    assert_eq!(Time::new(1969, 1, 1, 0, 0, 0), Err(CalendarError::InvalidYear));
    assert_eq!(Time::new(2023, 0, 1, 0, 0, 0), Err(CalendarError::InvalidMonth));
    assert_eq!(Time::new(2023, 13, 1, 0, 0, 0), Err(CalendarError::InvalidMonth));
    assert_eq!(Time::new(2023, 2, 29, 0, 0, 0), Err(CalendarError::InvalidDay));
    assert_eq!(Time::new(2023, 11, 31, 0, 0, 0), Err(CalendarError::InvalidDay));
    assert_eq!(Time::new(2023, 4, 0, 0, 0, 0), Err(CalendarError::InvalidDay));
    assert_eq!(Time::new(2023, 4, 30, 24, 0, 0), Err(CalendarError::InvalidHour));
    assert_eq!(Time::new(2023, 4, 30, 23, 60, 0), Err(CalendarError::InvalidMinute));
    assert_eq!(Time::new(2023, 4, 30, 23, 59, 60), Err(CalendarError::InvalidSecond));
    assert!(Time::new(2024, 2, 29, 23, 59, 59).is_ok());
}

#[test]
fn adding_and_subtracting_durations() {
    let t = Time::new(2024, 2, 28, 12, 0, 0).unwrap();
    assert_eq!(
        t.checked_add(Duration::from_days(1)),
        Some(Time::new(2024, 2, 29, 12, 0, 0).unwrap())
    );
    assert_eq!(
        t.checked_add(Duration::from_hours(36)),
        Some(Time::new(2024, 3, 1, 0, 0, 0).unwrap())
    );
    assert_eq!(
        t.checked_sub(Duration::from_minutes(90)),
        Some(Time::new(2024, 2, 28, 10, 30, 0).unwrap())
    );
    assert_eq!(
        t.checked_add(Duration::from_seconds(-60)),
        Some(Time::new(2024, 2, 28, 11, 59, 0).unwrap())
    );
    let epoch = Time::new(1970, 1, 1, 0, 0, 0).unwrap();
    assert_eq!(epoch.checked_sub(Duration::from_seconds(1)), None);
    assert_eq!(epoch.checked_sub(Duration::from_seconds(0)), Some(epoch));
}

#[test]
fn clock_reading_gets_local_offset() {
    assert_eq!(Time::from_unix_seconds(0), Time::new(1970, 1, 1, 5, 30, 0).unwrap());
    assert_eq!(
        Time::from_unix_seconds(1701035332),
        Time::new(2023, 11, 27, 3, 18, 52).unwrap()
    );
    let now = Time::now();
    assert!(now.year >= 2020);
}

#[test]
fn calendar_display() {
    let t = Time::new(2023, 11, 27, 3, 18, 52).unwrap();
    assert_eq!(t.display(), "2023-Nov-27 03:18:52");
    let t = Time::new(1999, 9, 5, 14, 0, 9).unwrap();
    assert_eq!(t.display(), "1999-Sept-05 14:00:09");
}

#[test]
fn durations_in_units() {
    assert_eq!(Duration::from_seconds(42).to_seconds(), 42);
    assert_eq!(Duration::from_minutes(2).to_seconds(), 120);
    assert_eq!(Duration::from_hours(5).to_seconds(), 18000);
    assert_eq!(Duration::from_days(1).to_seconds(), 86400);
    assert_eq!(Duration::from_days(-2).to_seconds(), -172800);
    let a = Duration::from_minutes(1);
    let b = Duration::from_seconds(30);
    assert_eq!(a.checked_add(b), Some(Duration::from_seconds(90)));
    assert_eq!(a.checked_sub(b), Some(Duration::from_seconds(30)));
    assert_eq!(Duration::from_seconds(i64::MAX).checked_add(b), None);
    assert_eq!(Duration::from_seconds(i64::MIN).checked_sub(b), None);
    assert!(b < a);
    assert!(a > b);
    assert!(a <= Duration::from_seconds(60));
}
