use chrono::{TimeZone, Timelike};
use qrush_engine::cron::clock::{last_seven_days, next_date, previous_date, UtcTime};
use qrush_engine::cron::cron_parser::{
    normalize_to_six, CronError, CronParser, CronSpec, Field, FieldDomDow, NameMap,
};

fn utc(y: i32, mo: u32, d: u32, h: u32, mi: u32, s: u32) -> UtcTime {
    let t = chrono::Utc.with_ymd_and_hms(y, mo, d, h, mi, s).unwrap();
    UtcTime { secs: t.timestamp(), nanos: 0 }
}

fn allowed(f: &Field) -> Vec<u32> {
    let mut v: Vec<u32> = f.allowed.iter().cloned().collect();
    v.sort();
    v
}

#[test]
fn test_minutely_5field_defaults_seconds0() {
    let from = utc(2025, 9, 26, 10, 0, 10);
    let tz = "UTC";
    let next = CronParser::next_execution("*/1 * * * *", from, tz).unwrap();
    assert_eq!(next, utc(2025, 9, 26, 10, 1, 0));
}

#[test]
fn test_every_5_minutes_6field() {
    let tz = "Asia/Kolkata";
    let from = utc(2025, 9, 26, 10, 2, 30);
    let next = CronParser::next_execution("0 */5 * * * *", from, tz).unwrap();
    assert!(next.secs > from.secs);
}

#[test]
fn test_named_month_and_weekday() {
    let tz = "UTC";
    let from = utc(2025, 1, 30, 23, 59, 59);
    // First MON in FEB at 09:00:00
    let next = CronParser::next_execution("0 0 9 1-7 FEB MON", from, tz).unwrap();
    assert!(next.secs > from.secs);
}

#[test]
fn test_dow_sunday_0_or_7() {
    let tz = "UTC";
    let from = utc(2025, 9, 26, 10, 0, 0); // Friday
    let n0 = CronParser::next_execution("0 0 * * * 0", from, tz).unwrap();
    let n7 = CronParser::next_execution("0 0 * * * 7", from, tz).unwrap();
    assert_eq!(n0, n7);
}

#[test]
fn every_5_minutes_in_kolkata_lands_on_the_next_multiple() {
    // 10:02:30 UTC is 15:32:30 in Kolkata; the next run is 15:35:00 there.
    let from = utc(2025, 9, 26, 10, 2, 30);
    let next = CronParser::next_execution("0 */5 * * * *", from, "Asia/Kolkata").unwrap();
    assert_eq!(next, utc(2025, 9, 26, 10, 5, 0));
}

#[test]
fn dom_or_dow_picks_the_earlier_day() {
    // "1-7 FEB MON": Feb 1st 2025 (a Saturday) matches by day of month.
    let from = utc(2025, 1, 30, 23, 59, 59);
    let next = CronParser::next_execution("0 0 9 1-7 FEB MON", from, "UTC").unwrap();
    assert_eq!(next, utc(2025, 2, 1, 9, 0, 0));
}

#[test]
fn sunday_first_hour_after_a_friday() {
    let from = utc(2025, 9, 26, 10, 0, 0);
    let next = CronParser::next_execution("0 0 * * * 0", from, "UTC").unwrap();
    assert_eq!(next, utc(2025, 9, 28, 0, 0, 0));
}

#[test]
fn daily_nine_in_kolkata() {
    // 09:00 in Kolkata is 03:30 UTC.
    let from = utc(2025, 9, 26, 10, 0, 0);
    let next = CronParser::next_execution("0 9 * * *", from, "Asia/Kolkata").unwrap();
    assert_eq!(next, utc(2025, 9, 27, 3, 30, 0));
}

#[test]
fn unknown_zone_is_utc() {
    let from = utc(2025, 9, 26, 10, 0, 0);
    let a = CronParser::next_execution("0 30 * * * *", from, "Nowhere/Else").unwrap();
    let b = CronParser::next_execution("0 30 * * * *", from, "UTC").unwrap();
    assert_eq!(a, b);
    assert_eq!(a, utc(2025, 9, 26, 10, 30, 0));
}

#[test]
fn the_start_is_exclusive() {
    let from = utc(2025, 9, 26, 10, 1, 0);
    let next = CronParser::next_execution("* * * * *", from, "UTC").unwrap();
    assert_eq!(next, utc(2025, 9, 26, 10, 2, 0));
}

#[test]
fn nanoseconds_carry_when_nothing_moves() {
    let mut from = utc(2025, 9, 26, 10, 1, 0);
    from.nanos = 500;
    let next = CronParser::next_execution("* * * * * *", from, "UTC").unwrap();
    assert_eq!(next, UtcTime { secs: from.secs + 1, nanos: 500 });
}

#[test]
fn leap_day_is_found_years_ahead() {
    let from = utc(2025, 3, 1, 0, 0, 0);
    let next = CronParser::next_execution("0 0 0 29 2 *", from, "UTC").unwrap();
    assert_eq!(next, utc(2028, 2, 29, 0, 0, 0));
}

#[test]
fn impossible_date_is_not_found() {
    let from = utc(2025, 3, 1, 0, 0, 0);
    let r = CronParser::next_execution("0 0 0 31 2 *", from, "UTC");
    assert_eq!(r, Err(CronError::NotFound));
}

#[test]
fn invalid_expressions_are_refused() {
    let from = utc(2025, 3, 1, 0, 0, 0);
    for expr in ["", "* * * *", "61 * * * * *", "* * * * * * *", "*/0 * * * *", "a * * * *", "5/2 * * * *"] {
        assert_eq!(
            CronParser::next_execution(expr, from, "UTC"),
            Err(CronError::InvalidExpression(expr.to_string())),
            "{expr}"
        );
    }
}

#[test]
fn daylight_saving_gap_is_an_error() {
    // 02:30 on 2025-03-09 does not exist in New York: the search stops at
    // 02:00, the first missing time that it tries to place.
    let from = utc(2025, 3, 9, 5, 0, 0); // 00:00 EST
    let r = CronParser::next_execution("0 30 2 * * *", from, "America/New_York");
    assert_eq!(
        r,
        Err(CronError::InvalidLocalTime { year: 2025, month: 3, day: 9, hour: 2, minute: 0, second: 0 })
    );
    assert_eq!(
        r.unwrap_err().message(),
        "Invalid local time (DST gap/overlap): 2025-3-9 2:0:0"
    );
}

#[test]
fn field_tokens() {
    let f = Field::parse("1-10/3", 0, 59, None, false).ok().unwrap();
    assert_eq!(allowed(&f), vec![1, 4, 7, 10]);
    let f = Field::parse("10-1", 0, 59, None, false).ok().unwrap();
    assert_eq!(allowed(&f), (1..=10).collect::<Vec<u32>>());
    let f = Field::parse("*/15", 0, 59, None, false).ok().unwrap();
    assert_eq!(allowed(&f), vec![0, 15, 30, 45]);
    let f = Field::parse("5,7, 9", 0, 59, None, false).ok().unwrap();
    assert_eq!(allowed(&f), vec![5, 7, 9]);
    let f = Field::parse("*", 0, 59, None, false).ok().unwrap();
    assert!(f.allowed.is_empty());
    let f = Field::parse("jan,Mar-may", 1, 12, Some(NameMap::Months), false).ok().unwrap();
    assert_eq!(allowed(&f), vec![1, 3, 4, 5]);
    let f = Field::parse("MON-FRI", 0, 6, Some(NameMap::Weekdays), true).ok().unwrap();
    assert_eq!(allowed(&f), vec![1, 2, 3, 4, 5]);
    let f = Field::parse("7", 0, 6, Some(NameMap::Weekdays), true).ok().unwrap();
    assert_eq!(allowed(&f), vec![0]);
    let f = Field::parse(",", 0, 59, None, false).ok().unwrap();
    assert!(f.allowed.is_empty());
    assert!(Field::parse("60", 0, 59, None, false).is_err());
    assert!(Field::parse("1-2-3", 0, 59, None, false).is_err());
    assert!(Field::parse("*,5", 0, 59, None, false).is_err());
    // A range end above the field's maximum is refused, day-of-week or not.
    assert!(Field::parse("5-6", 0, 3, None, true).is_err());
    assert!(Field::parse("2-7", 0, 5, None, true).is_err());
    assert!(Field::parse("+5", 0, 59, None, false).is_ok());
}

#[test]
fn field_navigation() {
    let f = Field::parse("10,20,30", 0, 59, None, false).ok().unwrap();
    assert!(f.matches(20));
    assert!(!f.matches(21));
    assert_eq!(f.first(), Some(10));
    assert_eq!(f.next_ge(20), Some(20));
    assert_eq!(f.next_ge(21), Some(30));
    assert_eq!(f.next_ge(31), None);
    assert_eq!(f.next_gt(20), Some(30));
    assert_eq!(f.next_gt(30), None);
    let any = Field::parse("*", 0, 23, None, false).ok().unwrap();
    assert!(any.matches(7));
    assert_eq!(any.first(), Some(0));
    assert_eq!(any.next_ge(5), Some(5));
    assert_eq!(any.next_ge(24), None);
    assert_eq!(any.next_gt(22), Some(23));
    assert_eq!(any.next_gt(23), None);
}

#[test]
fn five_fields_get_zero_seconds() {
    assert_eq!(normalize_to_six("  */5 * * * *  "), "0 */5 * * * *");
    assert_eq!(normalize_to_six(" 1 2 3 4 5 6 "), "1 2 3 4 5 6");
}

#[test]
fn spec_parse_and_days() {
    let spec = CronSpec::parse("0 0 9 1-7 FEB MON").ok().unwrap();
    assert!(spec.matches_day(3, 4)); // day 3 of month
    assert!(spec.matches_day(10, 1)); // a Monday
    assert!(!spec.matches_day(10, 2));
    let any_dow = CronSpec::parse("0 0 9 1 * *").ok().unwrap();
    assert!(any_dow.matches_day(1, 3));
    assert!(!any_dow.matches_day(2, 3));
    assert!(CronSpec::parse("0 0 9 1 * * extra").is_err());
}

#[test]
fn five_field_expression_runs_like_its_zero_seconds_form() {
    let from = utc(2025, 3, 14, 8, 7, 33);
    for expr in ["*/5 * * * *", "30 9 * * MON", "0 0 1 * *", "15 */2 * JAN-MAR *"] {
        let six = format!("0 {}", expr);
        let a = CronParser::next_execution(expr, from, "UTC").unwrap();
        let b = CronParser::next_execution(&six, from, "UTC").unwrap();
        assert_eq!(a, b, "{}", expr);
    }
    assert_eq!(
        CronParser::next_execution("*/5 * * * *", from, "UTC").unwrap(),
        utc(2025, 3, 14, 8, 10, 0)
    );
}

#[test]
fn names_ignore_case() {
    let from = utc(2025, 1, 30, 23, 59, 59);
    let upper = CronParser::next_execution("0 0 9 * FEB MON", from, "UTC").unwrap();
    let lower = CronParser::next_execution("0 0 9 * feb mon", from, "UTC").unwrap();
    let mixed = CronParser::next_execution("0 0 9 * Feb Mon", from, "UTC").unwrap();
    assert_eq!(upper, utc(2025, 2, 3, 9, 0, 0));
    assert_eq!(lower, upper);
    assert_eq!(mixed, upper);
    let range = CronParser::next_execution("0 0 9 * * mon-wed", utc(2025, 2, 6, 0, 0, 0), "UTC");
    assert_eq!(range.unwrap(), utc(2025, 2, 10, 9, 0, 0));
}

#[test]
fn utc_search_finds_the_earliest_run() {
    // Brute force over every second of a window: the first matching second
    // is the one found.
    let from = utc(2025, 2, 27, 23, 58, 50);
    let expr = "10,40 59 23,0 * * *";
    let found = CronParser::next_execution(expr, from, "UTC").unwrap();
    let mut s = from.secs + 1;
    let first = loop {
        let dt = chrono::DateTime::from_timestamp(s, 0).unwrap();
        if (dt.second() == 10 || dt.second() == 40)
            && dt.minute() == 59
            && (dt.hour() == 23 || dt.hour() == 0)
        {
            break s;
        }
        s += 1;
    };
    assert_eq!(found.secs, first);
    assert_eq!(found, utc(2025, 2, 27, 23, 59, 10));
    let later = CronParser::next_execution(expr, found, "UTC").unwrap();
    assert_eq!(later, utc(2025, 2, 27, 23, 59, 40));
    let next_day = CronParser::next_execution(expr, later, "UTC").unwrap();
    assert_eq!(next_day, utc(2025, 2, 28, 0, 59, 10));
}

#[test]
fn common_cron_expressions() {
    // 2025-09-24 is a Wednesday.
    let from = utc(2025, 9, 24, 13, 27, 45);
    let cases = [
        ("0 * * * * *", utc(2025, 9, 24, 13, 28, 0)),
        ("0 */5 * * * *", utc(2025, 9, 24, 13, 30, 0)),
        ("0 0 * * * *", utc(2025, 9, 24, 14, 0, 0)),
        ("0 0 0 * * *", utc(2025, 9, 25, 0, 0, 0)),
        ("0 0 0 * * 1", utc(2025, 9, 29, 0, 0, 0)),
        ("0 0 0 1 * *", utc(2025, 10, 1, 0, 0, 0)),
    ];
    for (expr, want) in cases {
        assert_eq!(CronParser::next_execution(expr, from, "UTC").unwrap(), want, "{}", expr);
    }
}

#[test]
fn the_day_after() {
    assert_eq!(next_date(2025, 12, 31), Some((2026, 1, 1)));
    assert_eq!(next_date(2024, 2, 28), Some((2024, 2, 29)));
    assert_eq!(next_date(2025, 2, 28), Some((2025, 3, 1)));
    assert_eq!(next_date(2025, 4, 30), Some((2025, 5, 1)));
    assert_eq!(next_date(2025, 4, 12), Some((2025, 4, 13)));
    assert_eq!(next_date(i32::MAX, 12, 31), None);
}

#[test]
fn a_long_autumn_day_is_crossed() {
    // New York falls back on Sunday 2 November 2025: that day has 25 hours.
    let monday = CronParser::next_execution("0 0 0 * * 1", utc(2025, 10, 31, 12, 0, 0), "America/New_York");
    assert_eq!(monday, Ok(utc(2025, 11, 3, 5, 0, 0)));
    let from = utc(2025, 11, 2, 4, 30, 0);
    let midnight = CronParser::next_execution("0 0 0 * * *", from, "America/New_York").unwrap();
    assert_eq!(midnight, utc(2025, 11, 3, 5, 0, 0));
    assert!(midnight.secs > from.secs);
}

#[test]
fn day_of_week_range_up_to_seven_ends_on_sunday() {
    let d = FieldDomDow::parse_dow(&"5-7".chars().collect()).ok().unwrap();
    let mut v: Vec<u32> = d.allowed.iter().cloned().collect();
    v.sort();
    assert_eq!(v, vec![0, 5, 6]);
    assert!(!d.any);
    let all = FieldDomDow::parse_dow(&"0-7".chars().collect()).ok().unwrap();
    assert_eq!(all.allowed.len(), 7);
    let from = utc(2025, 9, 24, 13, 0, 0); // a Wednesday
    let sunday = CronParser::next_execution("0 0 0 * * 6-7/1", from, "UTC").unwrap();
    assert_eq!(sunday, utc(2025, 9, 27, 0, 0, 0));
}

#[test]
fn errors_carry_their_messages() {
    assert_eq!(
        CronError::InvalidExpression("* * *".to_string()).message(),
        "Invalid cron expression: * * *"
    );
    assert_eq!(CronError::NotFound.message(), "Could not find next occurrence within 5 years");
    assert_eq!(
        CronError::InvalidLocalTime { year: 2025, month: 11, day: 2, hour: 1, minute: 30, second: 5 }
            .message(),
        "Invalid local time (DST gap/overlap): 2025-11-2 1:30:5"
    );
    assert_eq!(
        CronError::InvalidLocalTime { year: -44, month: 3, day: 15, hour: 12, minute: 0, second: 59 }
            .message(),
        "Invalid local time (DST gap/overlap): -44-3-15 12:0:59"
    );
    assert_eq!(CronError::OutOfRange.message(), "Time out of range");
    let from = utc(2025, 3, 1, 0, 0, 0);
    let e = CronParser::next_execution("61 * * * * *", from, "UTC").unwrap_err();
    assert_eq!(e.message(), "Invalid cron expression: 61 * * * * *");
}

#[test]
fn the_earliest_second_of_chrono_is_searchable() {
    let from = UtcTime { secs: -8_334_601_228_800, nanos: 0 };
    let next = CronParser::next_execution("* * * * * *", from, "UTC").unwrap();
    assert_eq!(next, UtcTime { secs: from.secs + 1, nanos: 0 });
}

#[test]
fn the_last_seven_days_cross_month_and_year_ends() {
    assert_eq!(
        last_seven_days(2025, 1, 3),
        vec![(2024, 12, 28), (2024, 12, 29), (2024, 12, 30), (2024, 12, 31), (2025, 1, 1), (2025, 1, 2), (2025, 1, 3)]
    );
    assert_eq!(last_seven_days(2024, 3, 2)[..3], [(2024, 2, 25), (2024, 2, 26), (2024, 2, 27)]);
    assert_eq!(last_seven_days(2024, 3, 2)[3..5], [(2024, 2, 28), (2024, 2, 29)]);
    assert_eq!(previous_date(2025, 3, 1), Some((2025, 2, 28)));
}

#[test]
fn a_repeated_hour_is_not_searched_twice() {
    // 01:20 EDT on 2025-11-02; 01:10 comes round again at 06:10 UTC (EST),
    // but the search goes on from 01:20 on the wall clock, so the next
    // 01:10 it reaches is that of the next day.
    let from = utc(2025, 11, 2, 5, 20, 0);
    let next = CronParser::next_execution("0 10 1 * * *", from, "America/New_York").unwrap();
    assert_eq!(next, utc(2025, 11, 3, 6, 10, 0));
}

