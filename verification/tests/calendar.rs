use stemplayer::calendar::{date_of, format_unix_timestamp, is_leap, Date};

#[test]
fn the_epoch() {
    assert_eq!(format_unix_timestamp(0), "1970-01-01 00:00:00");
    assert_eq!(date_of(0), Date { year: 1970, month: 1, day: 1 });
}

#[test]
fn hours_stay_before_noon() {
    assert_eq!(format_unix_timestamp(86399), "1970-01-01 11:59:59");
    assert_eq!(format_unix_timestamp(43200), "1970-01-01 00:00:00");
    assert_eq!(format_unix_timestamp(11 * 3600), "1970-01-01 11:00:00");
    assert_eq!(format_unix_timestamp(13 * 3600 + 61), "1970-01-01 01:01:01");
}

#[test]
fn leap_days() {
    assert_eq!(format_unix_timestamp(951782400), "2000-02-29 00:00:00");
    assert_eq!(format_unix_timestamp(951868800), "2000-03-01 00:00:00");
    assert_eq!(date_of(59), Date { year: 1970, month: 3, day: 1 });
    assert_eq!(date_of(365 + 365 + 59), Date { year: 1972, month: 2, day: 29 });
}

#[test]
fn ends_of_years() {
    assert_eq!(format_unix_timestamp(1767225599), "2025-12-31 11:59:59");
    assert_eq!(format_unix_timestamp(1767225600), "2026-01-01 00:00:00");
    assert_eq!(format_unix_timestamp(253402300799), "9999-12-31 11:59:59");
    assert_eq!(format_unix_timestamp(253402300800), "10000-01-01 00:00:00");
}

#[test]
fn every_day_follows_the_one_before() {
    let mut last = date_of(0);
    for n in 1..60000 {
        let day = date_of(n);
        let next_day = Date { day: last.day + 1, ..last };
        let next_month = Date { month: last.month + 1, day: 1, ..last };
        let next_year = Date { year: last.year + 1, month: 1, day: 1 };
        assert!(day == next_day || day == next_month || day == next_year);
        last = day;
    }
    assert_eq!(last, Date { year: 2134, month: 4, day: 10 });
}

#[test]
fn leap_years() {
    assert!(is_leap(1972) && is_leap(2000) && is_leap(-4));
    assert!(!is_leap(1970) && !is_leap(1900) && !is_leap(2100));
}
