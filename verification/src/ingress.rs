//! Admission of a received webhook: the payload limit, the endpoint key,
//! the optional HMAC-SHA256 signature, and what is stored for the event.

use vstd::prelude::*;
use vstd::utf8::encode_utf8;
use crate::crypto::{hex_bytes, hex_decode, hex_encode, hex_text, hmac_sha256, hmac_sha256_matches, sha256, sha256_digest, PayloadCipher};
use crate::error::AppError;
use crate::fingerprint::{event_type, event_type_of, fingerprint_of, make_fingerprint, HeaderText};
use crate::json::{JsonEntry, JsonValue};
use crate::text::{chars_of, has_prefix, lossy_text, same_text, starts_with, string_from, utf8_lossy};

verus! {

/// The largest payload accepted, in bytes (256 KB).
pub open spec fn payload_limit() -> int {
    262_144
}

/// Refuses payloads over the 256 KB limit.
pub fn check_payload_size(len: usize) -> (r: Result<(), AppError>)
    ensures
        match r {
            Ok(()) => len <= payload_limit(),
            Err(e) => len > payload_limit() && (e matches AppError::Invalid(m) && m@ == "Payload exceeds the 256 KB limit."@),
        },
{
    if len > 262_144 {
        Err(AppError::Invalid("Payload exceeds the 256 KB limit.".to_owned()))
    } else {
        Ok(())
    }
}

/// The stored form of an endpoint key: hex of its SHA-256 digest.
pub open spec fn key_hash(key: Seq<char>) -> Seq<char> {
    hex_text(sha256_digest(encode_utf8(key)))
}

pub fn hash_key(key: &str) -> (r: String)
    ensures
        r@ == key_hash(key@),
{
    let digest = sha256(key.as_bytes());
    hex_encode(digest.as_slice())
}

/// The signature text: `X-Hub-Signature-256` (else `X-Webhook-Signature`)
/// without its `sha256=` prefix; when that prefix is missing, the raw
/// `X-Webhook-Signature` value; unreadable or missing headers count as empty.
pub open spec fn signature_text(hub: HeaderText, webhook: HeaderText) -> Seq<char> {
    let primary = match crate::fingerprint::readable(crate::fingerprint::first_present(hub, webhook)) {
        Some(t) => t,
        None => seq![],
    };
    if starts_with(primary, "sha256="@) {
        primary.subrange(7, primary.len() as int)
    } else {
        match crate::fingerprint::readable(webhook) {
            Some(t) => t,
            None => seq![],
        }
    }
}

fn header_or_empty(h: &HeaderText) -> (r: String)
    ensures
        r@ == (match crate::fingerprint::readable(*h) { Some(t) => t, None => seq![] }),
{
    match h {
        HeaderText::Text(s) => s.clone(),
        _ => String::new(),
    }
}

/// Picks the signature a sender supplied.
pub fn pick_signature(hub: &HeaderText, webhook: &HeaderText) -> (r: String)
    ensures
        r@ == signature_text(*hub, *webhook),
{
    let chosen = match hub {
        HeaderText::Absent => webhook,
        _ => hub,
    };
    let primary = header_or_empty(chosen);
    if has_prefix(primary.as_str(), "sha256=") {
        proof {
            reveal_strlit("sha256=");
        }
        let v = chars_of(primary.as_str());
        let mut rest: Vec<char> = Vec::new();
        let mut i: usize = 7;
        while i < v.len()
            invariant
                7 <= i <= v@.len(),
                rest@ == v@.subrange(7, i as int),
            decreases v.len() - i,
        {
            rest.push(v[i]);
            i = i + 1;
        }
        string_from(rest.as_slice())
    } else {
        header_or_empty(webhook)
    }
}

/// What the receiver knows of an endpoint when a webhook arrives for it.
pub struct EndpointCredentials {
    pub id: i64,
    pub token_hash: String,
    pub signing_secret_encrypted: Option<Vec<u8>>,
}

/// Whether a webhook is admitted: the key must hash to the stored hash;
/// for a signed endpoint the stored secret must open and the signature must
/// be the hex HMAC-SHA256 of the exact body under that secret.
pub open spec fn admission(
    endpoint: EndpointCredentials,
    cipher: PayloadCipher,
    key: Option<String>,
    hub: HeaderText,
    webhook: HeaderText,
    body: Seq<u8>,
) -> Result<(), AppError> {
    let supplied = match key { Some(k) => k@, None => seq![] };
    if key_hash(supplied) != endpoint.token_hash@ {
        Err(AppError::Unauthorized)
    } else {
        match endpoint.signing_secret_encrypted {
            None => Ok(()),
            Some(sealed) => match cipher.opened(sealed@) {
                None => Err(AppError::Crypto),
                Some(secret) => match hex_bytes(signature_text(hub, webhook)) {
                    None => Err(AppError::Unauthorized),
                    Some(tag) => if tag == hmac_sha256(secret, body) {
                        Ok(())
                    } else {
                        Err(AppError::Unauthorized)
                    },
                },
            },
        }
    }
}

/// Checks the endpoint key and, for a signed endpoint, the signature.
pub fn check_admission(
    endpoint: &EndpointCredentials,
    cipher: &PayloadCipher,
    key: Option<String>,
    hub: &HeaderText,
    webhook: &HeaderText,
    body: &[u8],
) -> (r: Result<(), AppError>)
    ensures
        r == admission(*endpoint, *cipher, key, *hub, *webhook, body@),
{
    let supplied = match key {
        Some(k) => k,
        None => String::new(),
    };
    let hashed = hash_key(supplied.as_str());
    if !same_text(hashed.as_str(), endpoint.token_hash.as_str()) {
        return Err(AppError::Unauthorized);
    }
    match &endpoint.signing_secret_encrypted {
        None => Ok(()),
        Some(sealed) => {
            let secret = match cipher.decrypt(sealed.as_slice()) {
                Ok(s) => s,
                Err(e) => return Err(e),
            };
            let signature = pick_signature(hub, webhook);
            let tag = match hex_decode(signature.as_str()) {
                Some(t) => t,
                None => return Err(AppError::Unauthorized),
            };
            if hmac_sha256_matches(secret.as_slice(), body, tag.as_slice()) {
                Ok(())
            } else {
                Err(AppError::Unauthorized)
            }
        },
    }
}

// ---------------------------------------------------------------- storing

/// The object that stands for a body that is not JSON: one `raw` member
/// holding the body's text.
pub open spec fn is_raw_payload(v: JsonValue, body: Seq<u8>) -> bool {
    &&& v matches JsonValue::Object(entries)
    &&& entries@.len() == 1
    &&& entries@[0].key@ == "raw"@
    &&& entries@[0].value matches JsonValue::Str(text)
    &&& text@ == utf8_lossy(body)
}

/// A received event ready to store: the payload value read from the body,
/// its event type and fingerprint, and the body sealed for storage.
pub struct PreparedEvent {
    pub value: JsonValue,
    pub event_type: String,
    pub fingerprint: String,
    pub sealed_payload: Vec<u8>,
}

/// The payload value of a body: the parsed JSON when the body is JSON
/// (`parsed`), else an object holding the body's text under `raw`.
pub fn payload_value(body: &[u8], parsed: Option<JsonValue>) -> (r: JsonValue)
    ensures
        match parsed {
            Some(v) => r == v,
            None => is_raw_payload(r, body@),
        },
{
    match parsed {
        Some(v) => v,
        None => {
            let text = lossy_text(body);
            let mut entries: Vec<JsonEntry> = Vec::new();
            entries.push(JsonEntry { key: "raw".to_owned(), value: JsonValue::Str(text) });
            JsonValue::Object(entries)
        },
    }
}

/// Reads and classifies an admitted body. `parsed` is the body parsed as
/// JSON, when it is JSON.
pub fn prepare_event(
    cipher: &PayloadCipher,
    endpoint_id: i64,
    body: &[u8],
    parsed: Option<JsonValue>,
    github_event: &HeaderText,
    declared_event: &HeaderText,
) -> (r: Result<PreparedEvent, AppError>)
    ensures
        match r {
            Ok(ev) => {
                &&& match parsed {
                    Some(v) => ev.value == v,
                    None => is_raw_payload(ev.value, body@),
                }
                &&& ev.event_type@ == event_type_of(ev.value, *github_event, *declared_event)
                &&& ev.fingerprint@ == fingerprint_of(endpoint_id, ev.event_type@, ev.value)
                &&& cipher.opened(ev.sealed_payload@) == Some(body@)
            },
            Err(e) => e == AppError::Crypto && body@.len() > crate::crypto::aes_plaintext_max(),
        },
{
    let value = payload_value(body, parsed);
    let event_type = event_type(&value, github_event, declared_event);
    let fingerprint = make_fingerprint(endpoint_id, event_type.as_str(), &value);
    let sealed_payload = match cipher.encrypt(body) {
        Ok(c) => c,
        Err(e) => return Err(e),
    };
    Ok(PreparedEvent { value, event_type, fingerprint, sealed_payload })
}

/// How a high-severity event's immediate notice went.
#[derive(Clone, Copy, Debug, PartialEq, Eq)]
pub enum HighNotice {
    /// The notice was delivered.
    Delivered,
    /// No notification destination is configured.
    NoDestination,
    /// Delivery failed.
    Failed,
}

pub open spec fn signal_text(severity: Seq<char>, notice: Option<HighNotice>) -> Seq<char> {
    if severity == "high"@ {
        match notice {
            Some(HighNotice::Delivered) => "escalated"@,
            Some(HighNotice::Failed) => "delivery_failed"@,
            _ => "recorded"@,
        }
    } else if severity == "ignored"@ {
        "ignored"@
    } else {
        "digest"@
    }
}

/// Whether an event of this severity is announced at once.
pub fn notifies_immediately(severity: &str) -> (r: bool)
    ensures
        r == (severity@ == "high"@),
{
    same_text(severity, "high")
}

/// The `signal` reported to the sender: how a high event's notice went,
/// `ignored` for record-only fingerprints, `digest` otherwise.
pub fn webhook_signal(severity: &str, notice: Option<HighNotice>) -> (r: &'static str)
    ensures
        r@ == signal_text(severity@, notice),
{
    if same_text(severity, "high") {
        match notice {
            Some(HighNotice::Delivered) => "escalated",
            Some(HighNotice::Failed) => "delivery_failed",
            _ => "recorded",
        }
    } else if same_text(severity, "ignored") {
        "ignored"
    } else {
        "digest"
    }
}

} // verus!
