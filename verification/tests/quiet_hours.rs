use webhook_quiet_hours::error::AppError;
use webhook_quiet_hours::settings::{is_quiet, quiet_check_is_possible, validate_time, SettingsView};
use webhook_quiet_hours::time::UtcTime;

fn settings(start: &str, end: &str, offset: i64) -> SettingsView {
    SettingsView {
        quiet_start: start.into(),
        quiet_end: end.into(),
        utc_offset_minutes: offset,
        digest_minutes: 60,
        retention_days: 7,
        notification_configured: false,
        notification_url: "".into(),
        escalation_url: "".into(),
        last_delivery_error: None,
    }
}

fn instant(text: &str) -> UtcTime {
    let d = chrono::DateTime::parse_from_rfc3339(text).unwrap();
    UtcTime { secs: d.timestamp(), nanos: d.timestamp_subsec_nanos() }
}

#[test]
fn overnight_quiet_window_works() {
    let mut s = settings("22:00", "07:00", 0);
    let at = instant("2026-08-27T23:00:00Z");
    assert!(quiet_check_is_possible(&s, at));
    assert!(is_quiet(&s, at));
    s.quiet_start = "09:00".into();
    s.quiet_end = "17:00".into();
    assert!(!is_quiet(&s, at));
}

#[test]
fn quiet_window_bounds_are_start_inclusive_end_exclusive() {
    let s = settings("22:00", "07:00", 0);
    assert!(is_quiet(&s, instant("2026-08-27T22:00:00Z")));
    assert!(is_quiet(&s, instant("2026-08-28T06:59:59Z")));
    assert!(!is_quiet(&s, instant("2026-08-28T07:00:00Z")));
    assert!(!is_quiet(&s, instant("2026-08-27T21:59:00Z")));
}

#[test]
fn equal_bounds_mean_no_quiet_time() {
    let s = settings("08:00", "08:00", 0);
    assert!(!is_quiet(&s, instant("2026-08-27T08:00:00Z")));
    assert!(!is_quiet(&s, instant("2026-08-27T20:00:00Z")));
}

#[test]
fn offset_moves_the_window_into_local_time() {
    // 23:00 UTC is 04:30 the next morning at +05:30.
    let s = settings("09:00", "17:00", 330);
    assert!(!is_quiet(&s, instant("2026-08-27T23:00:00Z")));
    let s = settings("04:00", "05:00", 330);
    assert!(is_quiet(&s, instant("2026-08-27T23:00:00Z")));
    // Before the epoch the local day still starts at midnight.
    let s = settings("23:00", "23:30", 0);
    assert!(is_quiet(&s, instant("1969-12-31T23:10:00Z")));
}

#[test]
fn quiet_window_repeats_a_day_later() {
    let s = settings("22:00", "07:00", -300);
    for hour in 0..24 {
        let t = instant(&format!("2026-03-10T{:02}:15:00Z", hour));
        let next = UtcTime { secs: t.secs + 86_400, nanos: t.nanos };
        assert_eq!(is_quiet(&s, t), is_quiet(&s, next));
    }
}

#[test]
fn unparseable_bounds_count_as_midnight_parts() {
    // The quiet test reads what it can of each bound, as the service always has.
    let s = settings("xx:30", "01:00", 0);
    // "xx:30" reads as 30 hours; the window runs from then to 01:00.
    assert!(is_quiet(&s, instant("2026-08-27T00:45:00Z")));
    assert!(!is_quiet(&s, instant("2026-08-27T02:00:00Z")));
}

#[test]
fn validate_time_accepts_clock_times_only() {
    for ok in ["00:00", "23:59", "7:05", "+7:05", "007:00"] {
        assert!(validate_time(ok).is_ok(), "{ok}");
    }
    for bad in ["24:00", "12:60", "12", "12:00:00", "ab:cd", "", ":", "-1:00", "12:"] {
        assert_eq!(
            validate_time(bad),
            Err(AppError::Invalid("Quiet hours must use HH:MM.".into())),
            "{bad}"
        );
    }
}
