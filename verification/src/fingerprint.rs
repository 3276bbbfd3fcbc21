//! How a received event is named and grouped: its event type, and the
//! fingerprint shared by every event of the same shape.

use vstd::prelude::*;
use vstd::utf8::encode_utf8;
use crate::crypto::{hex_encode, hex_text, sha256, sha256_digest, slice_range};
use crate::json::{field, get_field, get_str_field, json_text, render_json, str_field, JsonValue};
use crate::order::{insert_sorted, lemma_sorted_elements_unique, sorted_elements, strictly_sorted};
use crate::text::{chars_of, first_chars, i64_text, int_text, join_with, push_all, push_char, take_chars};

verus! {

/// A request header as the service reads it: missing, readable text, or
/// present but not visible ASCII.
#[derive(Clone, Debug, PartialEq, Eq)]
pub enum HeaderText {
    Absent,
    Text(String),
    Unreadable,
}

/// The first header when it is present, else the second.
pub open spec fn first_present(a: HeaderText, b: HeaderText) -> HeaderText {
    if a is Absent { b } else { a }
}

pub open spec fn readable(h: HeaderText) -> Option<Seq<char>> {
    match h {
        HeaderText::Text(s) => Some(s@),
        _ => None,
    }
}

/// The first string member among `type`, `event`, `action` and `name`.
pub open spec fn body_event_name(v: JsonValue) -> Option<Seq<char>> {
    if str_field(v, "type"@) is Some {
        str_field(v, "type"@)
    } else if str_field(v, "event"@) is Some {
        str_field(v, "event"@)
    } else if str_field(v, "action"@) is Some {
        str_field(v, "action"@)
    } else {
        str_field(v, "name"@)
    }
}

/// The event type: the `X-GitHub-Event` header (else `X-Event-Type`) when
/// readable, else the payload's first string among `type`, `event`, `action`
/// and `name`, else `unclassified`; at most 80 characters.
pub open spec fn event_type_of(value: JsonValue, github: HeaderText, declared: HeaderText) -> Seq<char> {
    let name = match readable(first_present(github, declared)) {
        Some(t) => t,
        None => match body_event_name(value) {
            Some(t) => t,
            None => "unclassified"@,
        },
    };
    take_chars(name, 80)
}

fn header_choice(github: &HeaderText, declared: &HeaderText) -> (r: Option<String>)
    ensures
        match r {
            Some(s) => readable(first_present(*github, *declared)) == Some(s@),
            None => readable(first_present(*github, *declared)) is None,
        },
{
    let chosen = match github {
        HeaderText::Absent => declared,
        _ => github,
    };
    match chosen {
        HeaderText::Text(s) => Some(s.clone()),
        _ => None,
    }
}

/// Names a received event.
pub fn event_type(value: &JsonValue, github: &HeaderText, declared: &HeaderText) -> (r: String)
    ensures
        r@ == event_type_of(*value, *github, *declared),
{
    let name = match header_choice(github, declared) {
        Some(t) => t,
        None => match get_str_field(value, "type") {
            Some(t) => t,
            None => match get_str_field(value, "event") {
                Some(t) => t,
                None => match get_str_field(value, "action") {
                    Some(t) => t,
                    None => match get_str_field(value, "name") {
                        Some(t) => t,
                        None => "unclassified".to_owned(),
                    },
                },
            },
        },
    };
    first_chars(name.as_str(), 80)
}

/// The member names of an object, in the order it holds them.
pub open spec fn object_keys(v: JsonValue) -> Seq<Seq<char>> {
    match v {
        JsonValue::Object(entries) => entries@.map_values(|e: crate::json::JsonEntry| e.key@),
        _ => seq![],
    }
}

/// The member used as the event's status: `status`, else `error`, else `code`.
pub open spec fn status_member(v: JsonValue) -> Option<JsonValue> {
    if field(v, "status"@) is Some {
        field(v, "status"@)
    } else if field(v, "error"@) is Some {
        field(v, "error"@)
    } else {
        field(v, "code"@)
    }
}

/// The status as JSON text, or nothing.
pub open spec fn status_text(v: JsonValue) -> Seq<char> {
    match status_member(v) {
        Some(x) => json_text(x),
        None => seq![],
    }
}

/// `endpoint|event type|sorted member names|status`, the status cut to 120
/// characters.
pub open spec fn fingerprint_source(endpoint_id: i64, event_type: Seq<char>, value: JsonValue) -> Seq<char> {
    int_text(endpoint_id as int) + seq!['|'] + event_type + seq!['|']
        + join_with(sorted_elements(object_keys(value).to_set()), ',') + seq!['|']
        + take_chars(status_text(value), 120)
}

/// Hex of the first 10 bytes of the SHA-256 digest of the fingerprint source.
pub open spec fn fingerprint_of(endpoint_id: i64, event_type: Seq<char>, value: JsonValue) -> Seq<char> {
    hex_text(sha256_digest(encode_utf8(fingerprint_source(endpoint_id, event_type, value))).subrange(0, 10))
}

fn sorted_keys(value: &JsonValue) -> (r: Vec<Vec<char>>)
    ensures
        r@.map_values(|v: Vec<char>| v@) == sorted_elements(object_keys(*value).to_set()),
{
    let mut list: Vec<Vec<char>> = Vec::new();
    match value {
        JsonValue::Object(entries) => {
            let ghost keys = object_keys(*value);
            let mut i: usize = 0;
            assert(list@.map_values(|v: Vec<char>| v@).to_set() =~= keys.take(0).to_set());
            while i < entries.len()
                invariant
                    i <= entries@.len(),
                    keys == entries@.map_values(|e: crate::json::JsonEntry| e.key@),
                    strictly_sorted(list@.map_values(|v: Vec<char>| v@)),
                    list@.map_values(|v: Vec<char>| v@).to_set() == keys.take(i as int).to_set(),
                decreases entries.len() - i,
            {
                let k = chars_of(entries[i].key.as_str());
                insert_sorted(&mut list, k);
                assert(keys.take(i as int + 1) =~= keys.take(i as int) + seq![keys[i as int]]);
                proof {
                    Seq::lemma_to_set_insert_commutes(keys.take(i as int), keys[i as int]);
                }
                assert(keys.take(i as int + 1).to_set() =~= keys.take(i as int).to_set().insert(keys[i as int]));
                i = i + 1;
            }
            assert(keys.take(entries@.len() as int) =~= keys);
            proof {
                lemma_sorted_elements_unique(list@.map_values(|v: Vec<char>| v@), keys.to_set());
            }
        },
        _ => {
            assert(object_keys(*value).to_set() =~= Set::<Seq<char>>::empty());
            assert(list@.map_values(|v: Vec<char>| v@).to_set() =~= Set::<Seq<char>>::empty());
            proof {
                lemma_sorted_elements_unique(list@.map_values(|v: Vec<char>| v@), object_keys(*value).to_set());
            }
        },
    }
    list
}

fn status_of(value: &JsonValue) -> (r: String)
    ensures
        r@ == status_text(*value),
{
    match get_field(value, "status") {
        Some(x) => render_json(x),
        None => match get_field(value, "error") {
            Some(x) => render_json(x),
            None => match get_field(value, "code") {
                Some(x) => render_json(x),
                None => String::new(),
            },
        },
    }
}

/// The fingerprint that groups events of the same shape from one endpoint.
pub fn make_fingerprint(endpoint_id: i64, event_type: &str, value: &JsonValue) -> (r: String)
    ensures
        r@ == fingerprint_of(endpoint_id, event_type@, *value),
        r@.len() == 20,
        forall|i: int| 0 <= i < 20 ==> crate::crypto::is_lower_hex_char(#[trigger] r@[i]),
{
    let keys = sorted_keys(value);
    let ghost ks = keys@.map_values(|v: Vec<char>| v@);
    let mut out = i64_text(endpoint_id);
    push_char(&mut out, '|');
    out.append(event_type);
    push_char(&mut out, '|');
    let ghost start = out@;
    let mut i: usize = 0;
    while i < keys.len()
        invariant
            i <= keys@.len(),
            ks == keys@.map_values(|v: Vec<char>| v@),
            out@ == start + join_with(ks.take(i as int), ','),
        decreases keys.len() - i,
    {
        if i > 0 {
            push_char(&mut out, ',');
        }
        push_all(&mut out, &keys[i]);
        assert(ks.take(i as int + 1).drop_last() =~= ks.take(i as int));
        i = i + 1;
    }
    assert(ks.take(keys@.len() as int) =~= ks);
    push_char(&mut out, '|');
    let status = status_of(value);
    out.append(first_chars(status.as_str(), 120).as_str());
    assert(out@ =~= fingerprint_source(endpoint_id, event_type@, *value));
    let digest = sha256(out.as_str().as_bytes());
    let head = slice_range(digest.as_slice(), 0, 10);
    proof {
        crate::crypto::lemma_hex_text_shape(head@);
    }
    hex_encode(head.as_slice())
}


/// Two payloads with the same member names and the same status (up to its
/// first 120 characters) get the same fingerprint from one endpoint and event
/// type, whatever order their members come in and whatever their other
/// members hold.
pub proof fn law_fingerprint_depends_on_shape_only(endpoint_id: i64, event_type: Seq<char>, a: JsonValue, b: JsonValue)
    requires
        object_keys(a).to_set() == object_keys(b).to_set(),
        take_chars(status_text(a), 120) == take_chars(status_text(b), 120),
    ensures
        fingerprint_of(endpoint_id, event_type, a) == fingerprint_of(endpoint_id, event_type, b),
{
}

/// A payload's `status` member decides the status part of its fingerprint
/// whatever its `error` or `code` members hold: two payloads with the same
/// member names and the same `status` get the same fingerprint. Without a
/// `status`, the `error` member decides likewise over `code`.
pub proof fn law_status_comes_before_error_and_code(endpoint_id: i64, event_type: Seq<char>, a: JsonValue, b: JsonValue)
    requires
        object_keys(a).to_set() == object_keys(b).to_set(),
        (field(a, "status"@) is Some && field(a, "status"@) == field(b, "status"@)) || (field(a, "status"@) is None
            && field(b, "status"@) is None && field(a, "error"@) is Some && field(a, "error"@) == field(b, "error"@)),
    ensures
        fingerprint_of(endpoint_id, event_type, a) == fingerprint_of(endpoint_id, event_type, b),
{
    assert(status_text(a) == status_text(b));
}

} // verus!
