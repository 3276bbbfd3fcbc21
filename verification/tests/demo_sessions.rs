use webhook_quiet_hours::dashboard::{export_fingerprints_csv, Summary};
use webhook_quiet_hours::demo::{check_demo_settings, demo_summary, seeded_demo_workspace};
use webhook_quiet_hours::error::AppError;
use webhook_quiet_hours::sessions::DemoStore;
use webhook_quiet_hours::settings::SettingsUpdate;
use webhook_quiet_hours::time::UtcTime;

fn at(secs: i64) -> UtcTime {
    UtcTime { secs, nanos: 0 }
}

// 2026-08-27T23:00:00Z
const NOW: i64 = 1_787_871_600;

fn seeded_summary() -> Summary {
    Summary { endpoints: 1, fingerprints: 3, events_today: 18, pending: 11, compressed: 15, high_unacknowledged: 1 }
}

fn summary_of(store: &DemoStore, id: &str) -> Summary {
    demo_summary(store.workspace(id).expect("session exists"))
}

fn update(start: &str, offset: i64, digest: i64, retention: i64) -> SettingsUpdate {
    SettingsUpdate {
        quiet_start: start.into(),
        quiet_end: "06:00".into(),
        utc_offset_minutes: offset,
        digest_minutes: digest,
        retention_days: retention,
        notification_url: "https://hooks.example.test/secret".into(),
        escalation_url: "https://status.example.test/x".into(),
    }
}

#[test]
fn demo_sessions_are_seeded_isolated_and_resettable() {
    let mut store = DemoStore::new();
    let info = store.create_session("workspace-a".into(), at(NOW));
    assert_eq!(info.workspace_id, "workspace-a");
    assert_eq!(info.expires_at, "2026-08-28T23:00:00+00:00");
    assert_eq!(info.summary, seeded_summary());
    store.create_session("workspace-b".into(), at(NOW));

    assert_eq!(store.acknowledge("workspace-a", "demo-deploy-failed", at(NOW + 60)), Ok(()));
    let acked = summary_of(&store, "workspace-a");
    assert_eq!(acked.high_unacknowledged, 0);
    assert_eq!(acked.pending, 9);
    assert_eq!(acked.events_today, 18);
    let item = &store.workspace("workspace-a").unwrap().fingerprints[0];
    assert_eq!(item.acknowledged_at.as_deref(), Some("2026-08-27T23:01:00+00:00"));
    assert_eq!(item.pending_count, 0);
    assert_eq!(summary_of(&store, "workspace-b"), seeded_summary(), "the other session is untouched");

    let reset = store.reset("workspace-a", at(NOW + 120)).unwrap();
    assert_eq!(reset.workspace_id, "workspace-a");
    assert_eq!(reset.summary, seeded_summary());
    assert_eq!(summary_of(&store, "workspace-a"), seeded_summary());
    assert_eq!(summary_of(&store, "workspace-a").high_unacknowledged, 1);
}

#[test]
fn unknown_sessions_and_fingerprints_are_not_found() {
    let mut store = DemoStore::new();
    assert!(!store.contains("nope"));
    assert!(store.workspace("nope").is_none());
    assert_eq!(store.acknowledge("nope", "demo-deploy-failed", at(NOW)), Err(AppError::NotFound));
    assert_eq!(store.discard("nope"), Err(AppError::NotFound));
    assert!(matches!(store.reset("nope", at(NOW)), Err(AppError::NotFound)));
    assert_eq!(store.send_digest("nope"), Err(AppError::NotFound));
    store.create_session("s".into(), at(NOW));
    assert_eq!(store.acknowledge("s", "missing", at(NOW)), Err(AppError::NotFound));
    assert_eq!(store.remove_endpoint("s", 99), Err(AppError::NotFound));
    assert_eq!(summary_of(&store, "s"), seeded_summary());
    assert_eq!(store.discard("s"), Ok(()));
    assert!(!store.contains("s"));
}

#[test]
fn triage_is_checked_then_applied() {
    let mut store = DemoStore::new();
    store.create_session("s".into(), at(NOW));
    store.acknowledge("s", "demo-deploy-failed", at(NOW)).unwrap();
    assert_eq!(
        store.triage("s", "demo-deploy-failed", "urgent".into(), 30),
        Err(AppError::Invalid("Severity must be normal, high, or ignored.".into()))
    );
    assert_eq!(
        store.triage("s", "demo-deploy-failed", "high".into(), 0),
        Err(AppError::Invalid("Target must be between 1 and 1,440 minutes.".into()))
    );
    assert_eq!(store.triage("nope", "demo-deploy-failed", "high".into(), 30), Err(AppError::NotFound));
    assert_eq!(store.triage("s", "demo-backup-complete", "normal".into(), 45), Ok(()));
    let w = store.workspace("s").unwrap();
    assert_eq!(w.fingerprints[2].severity, "normal");
    assert_eq!(w.fingerprints[2].target_minutes, 45);
    assert_eq!(store.triage("s", "demo-deploy-failed", "high".into(), 15), Ok(()));
    assert!(store.workspace("s").unwrap().fingerprints[0].acknowledged_at.is_none());
}

#[test]
fn demo_digest_clears_normal_pending_once() {
    let mut store = DemoStore::new();
    store.create_session("s".into(), at(NOW));
    assert_eq!(store.send_digest("s"), Ok(1));
    assert_eq!(store.workspace("s").unwrap().fingerprints[1].pending_count, 0);
    assert_eq!(store.workspace("s").unwrap().fingerprints[0].pending_count, 2);
    assert_eq!(store.send_digest("s"), Ok(0));
    assert_eq!(summary_of(&store, "s").pending, 2);
}

#[test]
fn removing_the_demo_endpoint_removes_its_fingerprints() {
    let mut store = DemoStore::new();
    store.create_session("s".into(), at(NOW));
    assert_eq!(store.remove_endpoint("s", 1), Ok(()));
    let w = store.workspace("s").unwrap();
    assert!(w.endpoints.is_empty());
    assert!(w.fingerprints.is_empty());
    assert!(w.details.is_empty());
    assert_eq!(store.remove_endpoint("s", 1), Err(AppError::NotFound));
    assert_eq!(
        summary_of(&store, "s"),
        Summary { endpoints: 0, fingerprints: 0, events_today: 0, pending: 0, compressed: 0, high_unacknowledged: 0 }
    );
}

#[test]
fn demo_settings_never_keep_a_notification_destination() {
    let mut store = DemoStore::new();
    store.create_session("s".into(), at(NOW));
    assert_eq!(
        store.update_settings("s", update("25:00", 0, 60, 7)),
        Err(AppError::Invalid("Quiet hours must use HH:MM.".into()))
    );
    assert_eq!(
        store.update_settings("s", update("21:00", 900, 60, 7)),
        Err(AppError::Invalid("A demo setting is out of range.".into()))
    );
    assert_eq!(
        store.update_settings("s", update("21:00", 0, 4, 7)),
        Err(AppError::Invalid("A demo setting is out of range.".into()))
    );
    assert_eq!(
        store.update_settings("s", update("21:00", 0, 60, 91)),
        Err(AppError::Invalid("A demo setting is out of range.".into()))
    );
    assert_eq!(store.update_settings("nope", update("21:00", 0, 60, 7)), Err(AppError::NotFound));
    assert_eq!(store.update_settings("s", update("21:00", -720, 1440, 90)), Ok(()));
    let s = &store.workspace("s").unwrap().settings;
    assert_eq!(s.quiet_start, "21:00");
    assert_eq!(s.utc_offset_minutes, -720);
    assert_eq!(s.notification_url, "");
    assert!(!s.notification_configured);
    assert_eq!(s.escalation_url, "https://status.example.test/x");
    assert!(check_demo_settings(&update("21:00", 840, 5, 1)).is_ok());
}

#[test]
fn sessions_expire_a_day_after_seeding() {
    let mut store = DemoStore::new();
    store.create_session("old".into(), at(NOW));
    store.create_session("new".into(), at(NOW + 3_600));
    store.purge_expired(at(NOW + 86_399));
    assert!(store.contains("old"));
    store.purge_expired(at(NOW + 86_400));
    assert!(!store.contains("old"));
    assert!(store.contains("new"));
}

#[test]
fn seeded_workspace_lists_three_fingerprints_and_exports_them() {
    let w = seeded_demo_workspace(at(NOW));
    let names: Vec<&str> = w.fingerprints.iter().map(|f| f.fingerprint.as_str()).collect();
    assert_eq!(names, ["demo-deploy-failed", "demo-invoice-sync", "demo-backup-complete"]);
    assert_eq!(w.fingerprints[0].last_seen, "2026-08-27T22:53:00+00:00");
    assert_eq!(w.fingerprints[0].first_seen, "2026-08-27T18:53:00+00:00");
    assert_eq!(w.endpoints[0].created_at, "2026-08-15T23:00:00+00:00");
    assert_eq!(w.details.len(), 3);
    let csv = export_fingerprints_csv(&w.fingerprints);
    let lines: Vec<&str> = csv.lines().collect();
    assert_eq!(lines.len(), 4);
    assert_eq!(
        lines[0],
        "alias,fingerprint,event_type,severity,total_count,pending_count,first_seen,last_seen,acknowledged_at"
    );
    assert_eq!(
        lines[1],
        "\"Deploy monitor\",\"demo-deploy-failed\",\"deployment.failed\",\"high\",\"6\",\"2\",\"2026-08-27T18:53:00+00:00\",\"2026-08-27T22:53:00+00:00\",\"\""
    );
}

#[test]
fn demo_sessions_open_before_1970_too() {
    let mut store = DemoStore::new();
    // 1950-01-01T00:00:00Z
    let info = store.create_session("old-clock".into(), at(-631_152_000));
    assert_eq!(info.expires_at, "1950-01-02T00:00:00+00:00");
    assert_eq!(info.summary, seeded_summary());
    let w = store.workspace("old-clock").unwrap();
    assert_eq!(w.endpoints[0].created_at, "1949-12-20T00:00:00+00:00");
    store.purge_expired(at(-631_152_000 + 10));
    assert!(store.contains("old-clock"));
}
