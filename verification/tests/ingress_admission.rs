use hmac::Mac;
use webhook_quiet_hours::crypto::PayloadCipher;
use webhook_quiet_hours::endpoints::{endpoint_from_draws, plan_endpoint, EndpointDraws};
use webhook_quiet_hours::error::AppError;
use webhook_quiet_hours::fingerprint::HeaderText;
use webhook_quiet_hours::ingress::{
    check_admission, check_payload_size, hash_key, payload_value, pick_signature, prepare_event,
    webhook_signal, EndpointCredentials, HighNotice,
};
use webhook_quiet_hours::json::{JsonEntry, JsonValue};

fn cipher() -> PayloadCipher {
    PayloadCipher::new([3u8; 32])
}

fn signature_for(secret: &str, body: &[u8]) -> String {
    let mut mac = hmac::Hmac::<sha2::Sha256>::new_from_slice(secret.as_bytes()).unwrap();
    mac.update(body);
    format!("sha256={}", hex::encode(mac.finalize().into_bytes()))
}

fn header(v: &str) -> HeaderText {
    HeaderText::Text(v.to_owned())
}

#[test]
fn payloads_over_256_kb_are_refused() {
    assert_eq!(check_payload_size(262_144), Ok(()));
    assert_eq!(
        check_payload_size(262_145),
        Err(AppError::Invalid("Payload exceeds the 256 KB limit.".into()))
    );
}

#[test]
fn endpoint_keys_are_stored_as_sha256_hex() {
    assert_eq!(hash_key("abc"), "ba7816bf8f01cfea414140de5dae2223b00361a396177a9cb410ff61f20015ad");
    assert_eq!(hash_key(""), "e3b0c44298fc1c149afbf4c8996fb92427ae41e4649b934ca495991b7852b855");
}

#[test]
fn signature_header_choice() {
    assert_eq!(pick_signature(&header("sha256=aa"), &header("sha256=bb")), "aa");
    assert_eq!(pick_signature(&HeaderText::Absent, &header("sha256=bb")), "bb");
    assert_eq!(pick_signature(&header("aa"), &header("cc")), "cc");
    assert_eq!(pick_signature(&HeaderText::Absent, &header("cc")), "cc");
    assert_eq!(pick_signature(&HeaderText::Unreadable, &header("sha256=bb")), "sha256=bb");
    assert_eq!(pick_signature(&HeaderText::Absent, &HeaderText::Absent), "");
}

#[test]
fn signed_webhook_is_admitted_only_with_key_and_signature() {
    let c = cipher();
    let draws = EndpointDraws {
        suffix: "AbC12".into(),
        token: "k".repeat(32),
        signing_secret: "s".repeat(40),
    };
    let plan = endpoint_from_draws("  Billing  ", Some(true), &c, "http://localhost", draws).unwrap();
    assert_eq!(plan.name, "Billing");
    assert_eq!(plan.slug, "billing-abc12");
    assert_eq!(plan.hook_url, format!("http://localhost/hooks/billing-abc12?key={}", "k".repeat(32)));
    assert_eq!(plan.token_hash, hash_key(&"k".repeat(32)));
    let secret = plan.signing_secret.clone().unwrap();
    let endpoint = EndpointCredentials {
        id: 1,
        token_hash: plan.token_hash.clone(),
        signing_secret_encrypted: plan.signing_secret_encrypted.clone(),
    };
    let body = br#"{"type":"invoice.failed","status":500,"id":"evt_1"}"#;
    let good = signature_for(&secret, body);
    assert_eq!(
        check_admission(&endpoint, &c, Some(plan.token.clone()), &HeaderText::Absent, &header(&good), body),
        Ok(())
    );
    assert_eq!(
        check_admission(&endpoint, &c, Some(plan.token.clone()), &header(&good), &HeaderText::Absent, body),
        Ok(())
    );
    assert_eq!(
        check_admission(&endpoint, &c, Some("wrong".into()), &HeaderText::Absent, &header(&good), body),
        Err(AppError::Unauthorized)
    );
    assert_eq!(
        check_admission(&endpoint, &c, None, &HeaderText::Absent, &header(&good), body),
        Err(AppError::Unauthorized)
    );
    let tampered = signature_for(&secret, b"{}");
    assert_eq!(
        check_admission(&endpoint, &c, Some(plan.token.clone()), &HeaderText::Absent, &header(&tampered), body),
        Err(AppError::Unauthorized)
    );
    assert_eq!(
        check_admission(&endpoint, &c, Some(plan.token.clone()), &HeaderText::Absent, &header("sha256=zz"), body),
        Err(AppError::Unauthorized)
    );
    let other_key = PayloadCipher::new([4u8; 32]);
    assert_eq!(
        check_admission(&endpoint, &other_key, Some(plan.token.clone()), &HeaderText::Absent, &header(&good), body),
        Err(AppError::Crypto)
    );
}

#[test]
fn unsigned_endpoints_need_only_the_key() {
    let c = cipher();
    let draws = EndpointDraws { suffix: "zzzzz".into(), token: "t".repeat(32), signing_secret: "x".repeat(40) };
    let plan = endpoint_from_draws("!!", Some(false), &c, "https://hooks.example", draws).unwrap();
    assert_eq!(plan.slug, "endpoint-zzzzz");
    assert!(plan.signing_secret.is_none());
    assert!(plan.signing_secret_encrypted.is_none());
    let endpoint = EndpointCredentials { id: 2, token_hash: plan.token_hash.clone(), signing_secret_encrypted: None };
    assert_eq!(
        check_admission(&endpoint, &c, Some("t".repeat(32)), &HeaderText::Absent, &HeaderText::Absent, b"x"),
        Ok(())
    );
}

#[test]
fn alias_names_must_be_2_to_60_bytes() {
    let c = cipher();
    for bad in ["a", " a ", "", &"x".repeat(61), &"é".repeat(31)] {
        assert_eq!(
            plan_endpoint(bad, None, &c, "http://localhost").err(),
            Some(AppError::Invalid("Alias name must be 2–60 characters.".into())),
            "{bad:?}"
        );
    }
    let plan = plan_endpoint("Deploy Monitor — EU!", None, &c, "http://localhost").unwrap();
    assert!(plan.slug.starts_with("deploy-monitor-eu-"));
    assert_eq!(plan.slug.len(), "deploy-monitor-eu-".len() + 5);
    assert!(plan.slug["deploy-monitor-eu-".len()..].chars().all(|c| c.is_ascii_digit() || c.is_ascii_lowercase()));
    assert_eq!(plan.token.len(), 32);
    assert_eq!(plan.signing_secret.as_ref().map(|s| s.len()), Some(40));
    assert!(plan.token.chars().all(|ch| ch.is_ascii_alphanumeric()));
    let sealed = plan.signing_secret_encrypted.unwrap();
    assert_eq!(c.decrypt(&sealed).unwrap(), plan.signing_secret.unwrap().into_bytes());
}

#[test]
fn bodies_that_are_not_json_are_kept_as_raw_text() {
    let v = payload_value(b"plain \xff text", None);
    match v {
        JsonValue::Object(entries) => {
            assert_eq!(entries.len(), 1);
            assert_eq!(entries[0].key, "raw");
            assert!(matches!(&entries[0].value, JsonValue::Str(t) if t == "plain \u{fffd} text"));
        },
        other => panic!("unexpected payload {other:?}"),
    }
    let c = cipher();
    let parsed = JsonValue::Object(vec![JsonEntry { key: "event".into(), value: JsonValue::Str("ping".into()) }]);
    let ev = prepare_event(&c, 5, b"{\"event\":\"ping\"}", Some(parsed), &HeaderText::Absent, &HeaderText::Absent).unwrap();
    assert_eq!(ev.event_type, "ping");
    assert_eq!(ev.fingerprint.len(), 20);
    assert_eq!(c.decrypt(&ev.sealed_payload).unwrap(), b"{\"event\":\"ping\"}".to_vec());
}

#[test]
fn signals_reported_to_senders() {
    assert_eq!(webhook_signal("high", Some(HighNotice::Delivered)), "escalated");
    assert_eq!(webhook_signal("high", Some(HighNotice::NoDestination)), "recorded");
    assert_eq!(webhook_signal("high", Some(HighNotice::Failed)), "delivery_failed");
    assert_eq!(webhook_signal("ignored", None), "ignored");
    assert_eq!(webhook_signal("normal", None), "digest");
}
