use nirvana::text::{int_to_string, normalize_host, parse_i64, str_eq};
use nirvana::time::{
    check_time, combine_parses, format_duration, format_time, format_time_from, local_date, midnight, parse_time, parse_time_at,
    start_of_day, start_of_today, unix_now,
    FutureCheck,
    TimeError,
};

#[test]
fn int_to_string_writes_decimals() {
    assert_eq!(int_to_string(0), "0");
    assert_eq!(int_to_string(7), "7");
    assert_eq!(int_to_string(1234), "1234");
    assert_eq!(int_to_string(-5), "-5");
    assert_eq!(int_to_string(i64::MIN), i64::MIN.to_string());
    assert_eq!(int_to_string(i64::MAX), i64::MAX.to_string());
}

#[test]
fn parse_i64_follows_std() {
    for s in ["42", "-7", "+3", "0", "007", "-0", "9223372036854775807", "-9223372036854775808"] {
        assert_eq!(parse_i64(s), s.parse::<i64>().ok(), "{s}");
    }
    for s in ["", "-", "+", "12a", " 1", "1 ", "9223372036854775808", "-9223372036854775809", "--1", "1.5", "١"] {
        assert_eq!(parse_i64(s), None, "{s}");
        assert!(s.parse::<i64>().is_err());
    }
}

#[test]
fn normalize_host_cleans_up_hosts() {
    assert_eq!(normalize_host("  https://example.atlassian.net/ \n"), "example.atlassian.net");
    assert_eq!(normalize_host("http://jira.local"), "jira.local");
    assert_eq!(normalize_host("jira.local/"), "jira.local");
    assert_eq!(normalize_host("https://http://x/"), "x");
    assert_eq!(normalize_host("jira.local//"), "jira.local/");
    assert_eq!(normalize_host("\u{3000}host\u{2028}"), "host");
    assert_eq!(normalize_host(""), "");
    assert_eq!(normalize_host("https://"), "");
    assert_eq!(normalize_host("/"), "");
}

#[test]
fn str_eq_compares_characters() {
    assert!(str_eq("abc", "abc"));
    assert!(!str_eq("abc", "abd"));
    assert!(!str_eq("abc", "ab"));
    assert!(str_eq("", ""));
}

#[test]
fn format_duration_writes_hours_and_minutes() {
    assert_eq!(format_duration(0), "0m");
    assert_eq!(format_duration(59), "0m");
    assert_eq!(format_duration(60), "1m");
    assert_eq!(format_duration(3599), "59m");
    assert_eq!(format_duration(3600), "1h 0m");
    assert_eq!(format_duration(4980), "1h 23m");
    assert_eq!(format_duration(90061), "25h 1m");
    assert_eq!(format_duration(-90), "-1m");
    assert_eq!(format_duration(-7200), "0m");
    assert_eq!(format_duration(-3700), "-1m");
}

#[test]
fn format_duration_matches_the_formula_on_extremes() {
    for secs in [i64::MIN, i64::MIN + 1, -1, 1, i64::MAX] {
        let h = secs / 3600;
        let m = (secs % 3600) / 60;
        let expected = if h > 0 { format!("{h}h {m}m") } else { format!("{m}m") };
        assert_eq!(format_duration(secs), expected);
    }
}

#[test]
fn format_time_shows_clock_or_number() {
    assert_eq!(format_time_from(42, Some("09:15".to_string())), "09:15");
    assert_eq!(format_time_from(42, None), "42");
    let t = format_time(1_700_000_000);
    assert_eq!(t.len(), 5);
    assert_eq!(&t[2..3], ":");
    assert_eq!(format_time(i64::MAX), i64::MAX.to_string());
}

#[test]
fn start_of_today_is_a_local_midnight_of_today() {
    let midnight = start_of_today().unwrap();
    let now = chrono::Utc::now().timestamp();
    assert!(midnight <= now);
    assert!(now - midnight < 26 * 3600);
    assert_eq!(format_time(midnight), "00:00");
}

#[test]
fn local_date_writes_the_calendar_day() {
    let d = local_date(1_700_000_000).unwrap();
    assert!(d == "2023-11-14" || d == "2023-11-15", "{d}");
    let d0 = local_date(0).unwrap();
    assert!(d0 == "1970-01-01" || d0 == "1969-12-31", "{d0}");
    let first = local_date(-62_135_596_800 + 86_400).unwrap();
    assert!(first == "0001-01-01" || first == "0001-01-02", "{first}");
    let last = local_date(253_402_300_799 - 86_400).unwrap();
    assert!(last == "9999-12-30" || last == "9999-12-31", "{last}");
}

#[test]
fn combine_parses_uses_today_for_times_of_day() {
    assert_eq!(combine_parses(false, None, Some((9, 30)), (2024, 5, 17)), Some((2024, 5, 17, 9, 30)));
    assert_eq!(combine_parses(false, None, None, (2024, 5, 17)), None);
    assert_eq!(combine_parses(true, Some((2023, 1, 2, 3, 4)), None, (2024, 5, 17)), Some((2023, 1, 2, 3, 4)));
    assert_eq!(combine_parses(true, None, Some((9, 30)), (2024, 5, 17)), None);
}

#[test]
fn check_time_applies_the_future_bound() {
    assert!(matches!(check_time(None, 100, FutureCheck::Unchecked), Err(TimeError::AmbiguousLocalTime)));
    assert!(matches!(check_time(Some(200), 100, FutureCheck::Start), Err(TimeError::StartInFuture)));
    assert!(matches!(check_time(Some(200), 100, FutureCheck::Stop), Err(TimeError::StopInFuture)));
    assert!(matches!(check_time(Some(200), 100, FutureCheck::Unchecked), Ok(200)));
    assert!(matches!(check_time(Some(100), 100, FutureCheck::Start), Ok(100)));
}

#[test]
fn parse_time_reads_both_formats() {
    match parse_time("25:00", FutureCheck::Unchecked) {
        Err(TimeError::InvalidFormat(s)) => assert_eq!(s, "25:00"),
        other => panic!("{other:?}"),
    }
    assert!(matches!(parse_time("2024-13-01 10:00", FutureCheck::Unchecked), Err(TimeError::InvalidFormat(_))));
    assert!(matches!(parse_time("yesterday", FutureCheck::Unchecked), Err(TimeError::InvalidFormat(_))));
    assert!(parse_time("2020-06-01 12:00", FutureCheck::Start).is_ok());
    assert!(matches!(parse_time("2999-06-01 12:00", FutureCheck::Start), Err(TimeError::StartInFuture)));
    assert!(matches!(parse_time("2999-06-01 12:00", FutureCheck::Stop), Err(TimeError::StopInFuture)));
    assert!(parse_time("2999-06-01 12:00", FutureCheck::Unchecked).is_ok());
    assert!(parse_time("00:00", FutureCheck::Start).is_ok());
}

#[test]
fn time_error_messages() {
    assert_eq!(
        TimeError::InvalidFormat("x".to_string()).message(),
        "invalid time format: 'x'. Use HH:MM or YYYY-MM-DD HH:MM"
    );
    assert_eq!(TimeError::AmbiguousLocalTime.message(), "ambiguous or invalid local time");
    assert_eq!(TimeError::StartInFuture.message(), "cannot start in the future");
    assert_eq!(TimeError::StopInFuture.message(), "cannot stop in the future");
    assert_eq!(TimeError::ClockUnavailable.message(), "system time out of range");
}

#[test]
fn clock_reads_seconds_since_the_epoch() {
    let before = chrono::Utc::now().timestamp();
    let now = unix_now().unwrap();
    let after = chrono::Utc::now().timestamp();
    assert!(before <= now && now <= after);
}

#[test]
fn midnight_and_start_of_day() {
    assert_eq!(midnight((2024, 5, 17)), (2024, 5, 17, 0, 0));
    let t = start_of_day(1_700_000_000).unwrap();
    assert_eq!(format_time(t), "00:00");
    assert!(t <= 1_700_000_000 && 1_700_000_000 - t < 26 * 3600);
    assert!(start_of_today().unwrap() <= unix_now().unwrap());
}

#[test]
fn a_full_date_is_read_within_a_day_of_its_utc_time() {
    let t = parse_time("2020-06-01 12:00", FutureCheck::Unchecked).unwrap();
    let utc = 1_591_012_800;
    assert!((t - utc).abs() < 86_400);
}

#[test]
fn parse_time_at_refuses_times_after_the_given_now() {
    let noon = parse_time_at("2020-06-01 12:00", FutureCheck::Unchecked, 1_600_000_000).unwrap();
    assert!(matches!(parse_time_at("2020-06-01 12:00", FutureCheck::Start, noon - 1), Err(TimeError::StartInFuture)));
    assert!(matches!(parse_time_at("2020-06-01 12:00", FutureCheck::Stop, noon - 1), Err(TimeError::StopInFuture)));
    assert_eq!(parse_time_at("2020-06-01 12:00", FutureCheck::Start, noon).unwrap(), noon);
    assert_eq!(parse_time_at("2020-06-01 12:00", FutureCheck::Unchecked, noon - 1).unwrap(), noon);
    assert!(matches!(parse_time_at("12:00", FutureCheck::Unchecked, i64::MAX), Err(TimeError::ClockUnavailable)));
    assert!(matches!(parse_time_at("nope", FutureCheck::Unchecked, 0), Err(TimeError::InvalidFormat(_))));
}

#[test]
fn times_of_day_have_two_digit_hours_and_minutes() {
    for ts in [0i64, 1_700_000_000, -62_000_000_000, 253_000_000_000] {
        let t = format_time(ts);
        let b = t.as_bytes();
        assert_eq!(b.len(), 5, "{t}");
        assert!(b[0].is_ascii_digit() && b[1].is_ascii_digit() && b[2] == b':' && b[3].is_ascii_digit() && b[4].is_ascii_digit());
        let h: u32 = t[0..2].parse().unwrap();
        let m: u32 = t[3..5].parse().unwrap();
        assert!(h < 24 && m < 60);
    }
}

#[test]
fn a_time_of_day_is_read_on_the_local_day_of_now() {
    let now = 1_700_000_000;
    let t = parse_time_at("09:30", FutureCheck::Unchecked, now).unwrap();
    assert!((t - now).abs() < 2 * 86_400);
    assert_eq!(format_time(t), "09:30");
    assert_eq!(local_date(t), local_date(now));
}
