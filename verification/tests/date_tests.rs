use chrono::{Datelike, Timelike};
use litejson::date::{
    datetime_to_timestamp, date_to_timestamp, timestamp_to_date, timestamp_to_datetime,
    timestamp_to_time, Calendar, DateRange,
};

const CST: i32 = 8 * 3600;

#[test]
fn test_date_to_timestamp() {
    let s = "2021-07-14";
    let timestamp = date_to_timestamp(s, CST);
    assert_eq!(timestamp, 1626192000);
}

#[test]
fn test_datetime_to_timestamp() {
    let s = "2021-07-14 05:20:00";
    let timestamp = datetime_to_timestamp(s, CST);
    assert_eq!(timestamp, 1626211200);
}

#[test]
fn test_timestamp_rendering() {
    let timestamp = 1626211200;
    assert_eq!(timestamp_to_datetime(timestamp, CST), "2021-07-14 05:20:00");
    assert_eq!(timestamp_to_date(timestamp, CST), "2021-07-14");
    assert_eq!(timestamp_to_time(timestamp, CST), "05:20:00");
    assert_eq!(timestamp_to_datetime(timestamp, 0), "2021-07-13 21:20:00");
    assert_eq!(timestamp_to_datetime(-1, 0), "");
}

#[test]
fn test_malformed_dates_read_as_zero() {
    assert_eq!(datetime_to_timestamp("garbage", CST), 0);
    assert_eq!(datetime_to_timestamp("2021-13-14 05:20:00", CST), 0);
    assert_eq!(datetime_to_timestamp("2021-02-30 05:20:00", CST), 0);
    assert_eq!(date_to_timestamp("2021-7-14", CST), 0);
}

#[test]
fn test_calendar_round_trip() {
    let c = Calendar::from_timestamp(1626211200, CST);
    assert_eq!(c.year(), 2021);
    assert_eq!(c.month(), 7);
    assert_eq!(c.day(), 14);
    assert_eq!(c.hour(), 5);
    assert_eq!(c.minute(), 20);
    assert_eq!(c.second(), 0);
    assert_eq!(c.timestamp(), 1626211200);
    assert_eq!(c.format_datetime(), "2021-07-14 05:20:00");
    // a leap day
    let c = Calendar::from_datetime(2024, 2, 29, 0, 0, 0, 0);
    assert_eq!(c.timestamp(), 1709164800);
    let back = Calendar::from_timestamp(1709164800, 0);
    assert_eq!(back.format_date(), "2024-02-29");
}

#[test]
fn test_now() {
    let now = Calendar::now();
    let local = chrono::Local::now();
    assert_eq!(now.year(), local.year());
    assert_eq!(now.month(), local.month());
    assert_eq!(now.day(), local.day());
    assert_eq!(now.hour(), local.hour());
    assert_eq!(now.minute(), local.minute());
}

#[test]
fn test_date_range() {
    let now = Calendar::from_datetime(2025, 9, 19, 12, 0, 0, CST);

    assert_eq!(
        DateRange::CurrentWeek.get_range(&now),
        (
            "2025-09-15 00:00:00".to_string(),
            "2025-09-21 23:59:59".to_string()
        )
    );

    assert_eq!(
        DateRange::CurrentMonth.get_range(&now),
        (
            "2025-09-01 00:00:00".to_string(),
            "2025-09-30 23:59:59".to_string()
        )
    );

    assert_eq!(
        DateRange::CurrentYear.get_range(&now),
        (
            "2025-01-01 00:00:00".to_string(),
            "2025-12-31 23:59:59".to_string()
        )
    );

    assert_eq!(
        DateRange::PreviousWeek.get_range(&now),
        (
            "2025-09-08 00:00:00".to_string(),
            "2025-09-14 23:59:59".to_string()
        )
    );

    assert_eq!(
        DateRange::PreviousMonth.get_range(&now),
        (
            "2025-08-01 00:00:00".to_string(),
            "2025-08-31 23:59:59".to_string()
        )
    );

    assert_eq!(
        DateRange::PreviousYear.get_range(&now),
        (
            "2024-01-01 00:00:00".to_string(),
            "2024-12-31 23:59:59".to_string()
        )
    );

    assert_eq!(
        DateRange::Last7Days.get_range(&now),
        (
            "2025-09-12 00:00:00".to_string(),
            "2025-09-19 23:59:59".to_string()
        )
    );

    assert_eq!(
        DateRange::Last14Days.get_range(&now),
        (
            "2025-09-05 00:00:00".to_string(),
            "2025-09-19 23:59:59".to_string()
        )
    );

    assert_eq!(
        DateRange::Last30Days.get_range(&now),
        (
            "2025-08-20 00:00:00".to_string(),
            "2025-09-19 23:59:59".to_string()
        )
    );

    assert_eq!(
        DateRange::Custom(
            "2025-09-01 00:00:00".to_string(),
            "2025-09-30 23:59:59".to_string()
        )
        .get_range(&now),
        (
            "2025-09-01 00:00:00".to_string(),
            "2025-09-30 23:59:59".to_string()
        )
    )
}

#[test]
fn test_date_range_from_code() {
    assert_eq!(DateRange::from("1"), DateRange::CurrentWeek);
    assert_eq!(DateRange::from("9"), DateRange::Last30Days);
    assert_eq!(
        DateRange::from("other"),
        DateRange::Custom(String::new(), String::new())
    );
}
