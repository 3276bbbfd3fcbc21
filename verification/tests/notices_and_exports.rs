use chrono::{DateTime, TimeDelta, Utc};
use webhook_quiet_hours::crypto::PayloadCipher;
use webhook_quiet_hours::dashboard::{
    export_csv, fingerprint_overdue, summary_from_counts, validate_triage, CsvRow, Summary,
};
use webhook_quiet_hours::digest::{digest_message, digest_step, digest_step_is_possible, high_notice, DigestRow, DigestStep};
use webhook_quiet_hours::error::AppError;
use webhook_quiet_hours::settings::{plan_settings_update, settings_view, SettingsUpdate, SettingsView, StoredSettings};
use webhook_quiet_hours::time::{retention_cutoff, retention_cutoff_is_possible, UtcTime};

fn settings(notification_url: &str, escalation_url: &str) -> SettingsView {
    SettingsView {
        quiet_start: "22:00".into(),
        quiet_end: "07:00".into(),
        utc_offset_minutes: 0,
        digest_minutes: 60,
        retention_days: 7,
        notification_configured: !notification_url.is_empty(),
        notification_url: notification_url.into(),
        escalation_url: escalation_url.into(),
        last_delivery_error: None,
    }
}

fn row(event_type: &str, pending: i64) -> DigestRow {
    DigestRow { fingerprint: format!("fp-{event_type}"), event_type: event_type.into(), pending_count: pending }
}

// 2026-08-27T12:00:00Z
const NOON: i64 = 1_787_832_000;

#[test]
fn summary_counts_compressed_events() {
    assert_eq!(
        summary_from_counts(2, 3, 5, 4, 10, 1),
        Summary { endpoints: 2, fingerprints: 3, events_today: 5, pending: 4, compressed: 7, high_unacknowledged: 1 }
    );
    assert_eq!(summary_from_counts(0, 3, 0, 0, 2, 0).compressed, 0);
}

#[test]
fn csv_export_quotes_every_cell() {
    let rows = vec![CsvRow {
        alias: "Billing \"EU\"".into(),
        fingerprint: "abc".into(),
        event_type: "invoice.failed".into(),
        severity: "normal".into(),
        total_count: 12,
        pending_count: -1,
        first_seen: "a".into(),
        last_seen: "b".into(),
        acknowledged_at: Some("c".into()),
    }];
    assert_eq!(
        export_csv(&rows),
        "alias,fingerprint,event_type,severity,total_count,pending_count,first_seen,last_seen,acknowledged_at\n\
         \"Billing \"\"EU\"\"\",\"abc\",\"invoice.failed\",\"normal\",\"12\",\"-1\",\"a\",\"b\",\"c\"\n"
    );
    assert_eq!(
        export_csv(&vec![]),
        "alias,fingerprint,event_type,severity,total_count,pending_count,first_seen,last_seen,acknowledged_at\n"
    );
}

#[test]
fn triage_values_are_checked() {
    assert_eq!(validate_triage("high", 1), Ok(()));
    assert_eq!(validate_triage("ignored", 1440), Ok(()));
    assert_eq!(validate_triage("High", 10), Err(AppError::Invalid("Severity must be normal, high, or ignored.".into())));
    assert_eq!(validate_triage("normal", 1441), Err(AppError::Invalid("Target must be between 1 and 1,440 minutes.".into())));
}

#[test]
fn only_unacknowledged_high_fingerprints_go_overdue() {
    let now = UtcTime { secs: NOON, nanos: 0 };
    assert_eq!(fingerprint_overdue("high", false, "2026-08-27T11:00:00Z", 30, now), Some(true));
    assert_eq!(fingerprint_overdue("high", false, "2026-08-27T11:45:00+00:00", 30, now), Some(false));
    assert_eq!(fingerprint_overdue("high", true, "2026-08-27T11:00:00Z", 30, now), Some(false));
    assert_eq!(fingerprint_overdue("normal", false, "2026-08-27T11:00:00Z", 30, now), Some(false));
    assert_eq!(fingerprint_overdue("high", false, "yesterday", 30, now), Some(false));
}

#[test]
fn digest_message_lists_five_and_counts_the_rest() {
    let rows: Vec<DigestRow> = (1..=7).map(|i| row(&format!("e{i}"), i)).collect();
    assert_eq!(
        digest_message(&rows, "", "http://localhost:8080"),
        "🌿 Webhook digest · 28 observations in 7 fingerprints\n• e1 × 1\n• e2 × 2\n• e3 × 3\n• e4 × 4\n• e5 × 5\n• and 2 more fingerprints\nReview once: http://localhost:8080"
    );
    let one = vec![row("deploy", 3)];
    assert_eq!(
        digest_message(&one, "https://status.example/x", "http://localhost:8080"),
        "🌿 Webhook digest · 3 observations in 1 fingerprints\n• deploy × 3\nReview once: https://status.example/x"
    );
}

#[test]
fn high_notice_needs_a_destination() {
    assert_eq!(high_notice(&settings("", ""), "http://h", "fp1", "deploy.failed", 2), None);
    assert_eq!(
        high_notice(&settings("https://hooks.example/x", ""), "http://h", "fp1", "deploy.failed", 2).as_deref(),
        Some("🔴 High-severity webhook: deploy.failed · 2 observation(s). Acknowledge: http://h/?fingerprint=fp1")
    );
    assert_eq!(
        high_notice(&settings("https://hooks.example/x", "https://esc"), "http://h", "fp1", "t", 1).as_deref(),
        Some("🔴 High-severity webhook: t · 1 observation(s). Acknowledge: https://esc")
    );
}

#[test]
fn digest_runs_skip_without_destination_or_in_quiet_time() {
    let quiet_now = UtcTime { secs: NOON + 11 * 3600, nanos: 0 };
    let day_now = UtcTime { secs: NOON, nanos: 0 };
    assert!(matches!(digest_step(&settings("", ""), true, day_now), DigestStep::Skip));
    let s = settings("https://hooks.example/x", "");
    assert!(digest_step_is_possible(&s, false, quiet_now));
    assert!(matches!(digest_step(&s, false, quiet_now), DigestStep::Skip));
    match digest_step(&s, true, quiet_now) {
        DigestStep::Collect { cutoff } => assert_eq!(cutoff, "2026-08-27T22:00:00+00:00"),
        DigestStep::Skip => panic!("a forced digest is collected"),
    }
    match digest_step(&s, false, day_now) {
        DigestStep::Collect { cutoff } => assert_eq!(cutoff, "2026-08-27T11:00:00+00:00"),
        DigestStep::Skip => panic!("outside quiet time the digest is collected"),
    }
}

#[test]
fn retention_cutoff_is_days_before_now() {
    let now = UtcTime { secs: NOON, nanos: 0 };
    assert!(retention_cutoff_is_possible(now, 7));
    assert_eq!(retention_cutoff(now, 7), "2026-08-20T12:00:00+00:00");
    assert!(!retention_cutoff_is_possible(now, i64::MAX));
}

#[test]
fn settings_updates_are_checked_and_sealed() {
    let c = PayloadCipher::new([5u8; 32]);
    let input = |offset: i64, digest: i64, retention: i64, url: &str, esc: &str| SettingsUpdate {
        quiet_start: "22:00".into(),
        quiet_end: "07:00".into(),
        utc_offset_minutes: offset,
        digest_minutes: digest,
        retention_days: retention,
        notification_url: url.into(),
        escalation_url: esc.into(),
    };
    let invalid = |m: &str| Some(AppError::Invalid(m.into()));
    assert_eq!(plan_settings_update(input(841, 60, 7, "", ""), &c).err(), invalid("UTC offset is out of range."));
    assert_eq!(plan_settings_update(input(0, 4, 7, "", ""), &c).err(), invalid("Digest interval must be 5–1,440 minutes."));
    assert_eq!(plan_settings_update(input(0, 60, 366, "", ""), &c).err(), invalid("Retention must be 1–365 days."));
    assert_eq!(
        plan_settings_update(input(0, 60, 7, "http://example.com", ""), &c).err(),
        invalid("Notification URL must use HTTPS (localhost is allowed for development).")
    );
    assert_eq!(
        plan_settings_update(input(0, 60, 7, "", "ftp://x"), &c).err(),
        invalid("Escalation URL must use HTTPS (localhost is allowed for development).")
    );
    let change = plan_settings_update(input(0, 60, 7, " https://hooks.example/x ", "  "), &c).unwrap();
    assert!(change.escalation_url.is_none());
    let sealed = change.notification_url_encrypted.clone().unwrap();
    assert_eq!(c.decrypt(&sealed).unwrap(), b"https://hooks.example/x".to_vec());
    let view = settings_view(
        StoredSettings {
            quiet_start: change.quiet_start,
            quiet_end: change.quiet_end,
            utc_offset_minutes: change.utc_offset_minutes,
            digest_minutes: change.digest_minutes,
            retention_days: change.retention_days,
            notification_url_encrypted: Some(sealed),
            escalation_url: None,
            last_delivery_error: None,
        },
        &c,
    )
    .unwrap();
    assert_eq!(view.notification_url, "https://hooks.example/x");
    assert!(view.notification_configured);
    assert_eq!(view.escalation_url, "");
    assert!(plan_settings_update(input(0, 60, 7, "http://localhost:9000/x", ""), &c).is_ok());
}

#[test]
fn encrypts_and_decrypts_payloads() {
    let c = PayloadCipher::new([8u8; 32]);
    let a = c.encrypt(b"secret").unwrap();
    let b = c.encrypt(b"secret").unwrap();
    assert_ne!(a, b);
    assert_eq!(c.decrypt(&a).unwrap(), b"secret");
}

#[test]
fn sealed_values_reject_tampering_and_short_input() {
    let c = PayloadCipher::new([8u8; 32]);
    let mut a = c.encrypt(b"payload").unwrap();
    assert_eq!(a.len(), 12 + 7 + 16);
    let last = a.len() - 1;
    a[last] ^= 1;
    assert_eq!(c.decrypt(&a), Err(AppError::Crypto));
    assert_eq!(c.decrypt(&[0u8; 12]), Err(AppError::Crypto));
}

#[test]
fn errors_map_to_status_codes_and_messages() {
    let r = AppError::Invalid("bad".into()).reply();
    assert_eq!((r.status, r.message.as_str(), r.logged), (400, "bad", false));
    let r = AppError::Unauthorized.reply();
    assert_eq!((r.status, r.message.as_str()), (401, "Use the ADMIN_TOKEN configured on this server."));
    let r = AppError::NotFound.reply();
    assert_eq!((r.status, r.message.as_str()), (404, "That record no longer exists."));
    let r = AppError::Config("x".into()).reply();
    assert_eq!((r.status, r.message.as_str(), r.logged), (500, "x", false));
    let r = AppError::Database.reply();
    assert_eq!((r.status, r.message.as_str(), r.logged), (500, "The server could not complete this request.", true));
    assert_eq!(AppError::Config("y".into()).message(), "configuration error: y");
    assert_eq!(AppError::Invalid("z".into()).message(), "invalid input: z");
    assert_eq!(AppError::Crypto.message(), "encryption error");
}

#[test]
fn overdue_matches_chrono_arithmetic_including_leap_seconds() {
    let seen_texts = [
        "2026-08-27T11:00:00Z",
        "2026-08-27T11:59:00.5+00:00",
        "2026-08-27T13:30:00+02:00",
        "2016-12-31T23:59:60.25Z",
        "2016-12-31T23:59:60Z",
    ];
    let nows = [
        "2026-08-27T11:30:00Z",
        "2026-08-27T12:00:00.5Z",
        "2017-01-01T00:00:59.25Z",
        "2017-01-01T00:00:59.26Z",
        "2016-12-31T23:59:59.999Z",
        "2016-12-31T23:58:59.3Z",
    ];
    for seen_text in seen_texts {
        for now_text in nows {
            for target in [-1_i64, 0, 1, 30, 1440] {
                let now = DateTime::parse_from_rfc3339(now_text).unwrap().with_timezone(&Utc);
                let seen = DateTime::parse_from_rfc3339(seen_text).unwrap().with_timezone(&Utc);
                let expected = seen.checked_add_signed(TimeDelta::minutes(target)).map(|d| d < now);
                let at = UtcTime { secs: now.timestamp(), nanos: now.timestamp_subsec_nanos() };
                assert_eq!(
                    fingerprint_overdue("high", false, seen_text, target, at),
                    expected,
                    "{seen_text} + {target} min against {now_text}"
                );
            }
        }
    }
    let now = UtcTime { secs: NOON, nanos: 0 };
    assert_eq!(fingerprint_overdue("high", false, "2026-08-27T11:00:00Z", i64::MAX, now), None);
    assert_eq!(fingerprint_overdue("high", false, "2026-08-27T11:00:00Z", -300_000_000_001, now), None);
}

#[test]
fn quiet_runs_do_not_need_a_representable_cutoff() {
    let mut s = settings("https://hooks.example/x", "");
    s.digest_minutes = i64::MAX / 120;
    let quiet_now = UtcTime { secs: NOON + 11 * 3600, nanos: 0 };
    assert!(digest_step_is_possible(&s, false, quiet_now));
    assert!(matches!(digest_step(&s, false, quiet_now), DigestStep::Skip));
    assert!(!digest_step_is_possible(&s, true, quiet_now));
}
