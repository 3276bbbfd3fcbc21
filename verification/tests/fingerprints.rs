use sha2::Digest;
use webhook_quiet_hours::fingerprint::{event_type, make_fingerprint, HeaderText};
use webhook_quiet_hours::json::{render_json, JsonEntry, JsonValue};

fn member(key: &str, value: JsonValue) -> JsonEntry {
    JsonEntry { key: key.to_owned(), value }
}

fn text(s: &str) -> JsonValue {
    JsonValue::Str(s.to_owned())
}

fn number(n: &str) -> JsonValue {
    JsonValue::Number(n.to_owned())
}

fn expected_fingerprint(source: &str) -> String {
    let digest = sha2::Sha256::digest(source.as_bytes());
    hex::encode(&digest[..10])
}

#[test]
fn fingerprint_is_stable_across_json_order() {
    let a = JsonValue::Object(vec![
        member("type", text("failed")),
        member("status", number("500")),
        member("id", number("1")),
    ]);
    let b = JsonValue::Object(vec![
        member("id", number("2")),
        member("status", number("500")),
        member("type", text("failed")),
    ]);
    assert_eq!(make_fingerprint(1, "failed", &a), make_fingerprint(1, "failed", &b));
}

#[test]
fn fingerprint_hashes_endpoint_type_sorted_keys_and_status() {
    let v = JsonValue::Object(vec![
        member("type", text("invoice.failed")),
        member("status", number("500")),
        member("id", text("evt_1")),
    ]);
    let fp = make_fingerprint(7, "invoice.failed", &v);
    assert_eq!(fp, expected_fingerprint("7|invoice.failed|id,status,type|500"));
    assert_eq!(fp.len(), 20);
}

#[test]
fn fingerprint_status_falls_back_to_error_then_code() {
    let with_error = JsonValue::Object(vec![member("error", text("timeout"))]);
    assert_eq!(
        make_fingerprint(1, "x", &with_error),
        expected_fingerprint("1|x|error|\"timeout\"")
    );
    let with_code = JsonValue::Object(vec![member("code", number("42"))]);
    assert_eq!(make_fingerprint(1, "x", &with_code), expected_fingerprint("1|x|code|42"));
    let not_object = JsonValue::Array(vec![number("1")]);
    assert_eq!(make_fingerprint(3, "y", &not_object), expected_fingerprint("3|y||"));
}

#[test]
fn fingerprint_differs_by_status_and_endpoint() {
    let a = JsonValue::Object(vec![member("status", number("500"))]);
    let b = JsonValue::Object(vec![member("status", number("503"))]);
    assert_ne!(make_fingerprint(1, "t", &a), make_fingerprint(1, "t", &b));
    assert_ne!(make_fingerprint(1, "t", &a), make_fingerprint(2, "t", &a));
}

#[test]
fn event_type_prefers_headers_then_body_members() {
    let body = JsonValue::Object(vec![
        member("action", text("opened")),
        member("event", text("push")),
    ]);
    let github = HeaderText::Text("pull_request".to_owned());
    assert_eq!(event_type(&body, &github, &HeaderText::Absent), "pull_request");
    let declared = HeaderText::Text("deploy".to_owned());
    assert_eq!(event_type(&body, &HeaderText::Absent, &declared), "deploy");
    assert_eq!(event_type(&body, &HeaderText::Absent, &HeaderText::Absent), "push");
    assert_eq!(
        event_type(&body, &HeaderText::Unreadable, &declared),
        "push",
        "an unreadable first header is not skipped for the second"
    );
    let empty = JsonValue::Object(vec![]);
    assert_eq!(event_type(&empty, &HeaderText::Absent, &HeaderText::Absent), "unclassified");
}

#[test]
fn event_type_is_cut_to_eighty_characters() {
    let long = "é".repeat(100);
    let body = JsonValue::Object(vec![member("type", text(&long))]);
    let t = event_type(&body, &HeaderText::Absent, &HeaderText::Absent);
    assert_eq!(t.chars().count(), 80);
}

#[test]
fn rendered_json_matches_serde_json() {
    let v = JsonValue::Object(vec![
        member("a", JsonValue::Null),
        member("b", JsonValue::Bool(true)),
        member("c", number("1.5")),
        member("d", text("q\"\\\n\u{1}é")),
        member("e", JsonValue::Array(vec![JsonValue::Bool(false), text("x")])),
    ]);
    let expected: serde_json::Value =
        serde_json::from_str(r#"{"a":null,"b":true,"c":1.5,"d":"q\"\\\n\u0001é","e":[false,"x"]}"#).unwrap();
    assert_eq!(render_json(&v), expected.to_string());
}
