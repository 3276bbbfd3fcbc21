//! The JSON values that webhook payloads carry, with the compact text that
//! serde_json writes for them.

use vstd::prelude::*;
use crate::text::{push_char, chars_of};

verus! {

/// A JSON value. Numbers keep the text that serde_json writes for them;
/// objects keep their entries in order (a parsed object holds them sorted by
/// key, as serde_json's map does).
#[derive(Debug)]
pub enum JsonValue {
    Null,
    Bool(bool),
    Number(String),
    Str(String),
    Array(Vec<JsonValue>),
    Object(Vec<JsonEntry>),
}

/// One `"key": value` member of a JSON object.
#[derive(Debug)]
pub struct JsonEntry {
    pub key: String,
    pub value: JsonValue,
}

pub open spec fn hex_digit_lower(n: int) -> char {
    if n < 10 { (48 + n) as char } else { (87 + n) as char }
}

/// How serde_json writes one character inside a string literal.
pub open spec fn escape_char(c: char) -> Seq<char> {
    let u = c as u32;
    if c == '"' {
        seq!['\\', '"']
    } else if c == '\\' {
        seq!['\\', '\\']
    } else if u == 8 {
        seq!['\\', 'b']
    } else if u == 12 {
        seq!['\\', 'f']
    } else if c == '\n' {
        seq!['\\', 'n']
    } else if c == '\r' {
        seq!['\\', 'r']
    } else if c == '\t' {
        seq!['\\', 't']
    } else if u < 32 {
        seq!['\\', 'u', '0', '0', hex_digit_lower((u / 16) as int), hex_digit_lower((u % 16) as int)]
    } else {
        seq![c]
    }
}

pub open spec fn escaped(s: Seq<char>) -> Seq<char>
    decreases s.len(),
{
    if s.len() == 0 {
        seq![]
    } else {
        escaped(s.drop_last()) + escape_char(s.last())
    }
}

/// A string literal: the escaped characters between double quotes.
pub open spec fn quoted(s: Seq<char>) -> Seq<char> {
    seq!['"'] + escaped(s) + seq!['"']
}

/// The compact JSON text of a value.
pub open spec fn json_text(v: JsonValue) -> Seq<char>
    decreases v, 1nat, 0int,
{
    match v {
        JsonValue::Null => "null"@,
        JsonValue::Bool(b) => if b { "true"@ } else { "false"@ },
        JsonValue::Number(n) => n@,
        JsonValue::Str(s) => quoted(s@),
        JsonValue::Array(items) => seq!['['] + items_text(v, items@, items@.len() as int) + seq![']'],
        JsonValue::Object(entries) => seq!['{'] + entries_text(v, entries@, entries@.len() as int) + seq!['}'],
    }
}

/// The first `n` items, written and separated by commas.
pub open spec fn items_text(parent: JsonValue, items: Seq<JsonValue>, n: int) -> Seq<char>
    decreases parent, 0nat, n,
{
    if n <= 0 || n > items.len() || !(parent matches JsonValue::Array(v) && v@ == items) {
        seq![]
    } else if n == 1 {
        json_text(items[0])
    } else {
        items_text(parent, items, n - 1) + seq![','] + json_text(items[n - 1])
    }
}

/// The first `n` entries, written as `"key":value` and separated by commas.
pub open spec fn entries_text(parent: JsonValue, entries: Seq<JsonEntry>, n: int) -> Seq<char>
    decreases parent, 0nat, n,
{
    if n <= 0 || n > entries.len() || !(parent matches JsonValue::Object(v) && v@ == entries) {
        seq![]
    } else if n == 1 {
        quoted(entries[0].key@) + seq![':'] + json_text(entries[0].value)
    } else {
        entries_text(parent, entries, n - 1) + seq![','] + quoted(entries[n - 1].key@) + seq![':']
            + json_text(entries[n - 1].value)
    }
}


fn hex_digit_char(n: u32) -> (c: char)
    requires n < 16,
    ensures c == hex_digit_lower(n as int),
{
    if n < 10 {
        let x: u8 = (48 + n) as u8;
        x as char
    } else {
        let x: u8 = (87 + n) as u8;
        x as char
    }
}

fn push_escaped_char(out: &mut String, c: char)
    ensures
        final(out)@ == old(out)@ + escape_char(c),
{
    let u = c as u32;
    if c == '"' {
        push_char(out, '\\');
        push_char(out, '"');
    } else if c == '\\' {
        push_char(out, '\\');
        push_char(out, '\\');
    } else if u == 8 {
        push_char(out, '\\');
        push_char(out, 'b');
    } else if u == 12 {
        push_char(out, '\\');
        push_char(out, 'f');
    } else if c == '\n' {
        push_char(out, '\\');
        push_char(out, 'n');
    } else if c == '\r' {
        push_char(out, '\\');
        push_char(out, 'r');
    } else if c == '\t' {
        push_char(out, '\\');
        push_char(out, 't');
    } else if u < 32 {
        push_char(out, '\\');
        push_char(out, 'u');
        push_char(out, '0');
        push_char(out, '0');
        push_char(out, hex_digit_char(u / 16));
        push_char(out, hex_digit_char(u % 16));
    } else {
        push_char(out, c);
    }
    assert(final(out)@ =~= old(out)@ + escape_char(c));
}

/// Appends `s` as a JSON string literal.
fn push_quoted(out: &mut String, s: &str)
    ensures
        final(out)@ == old(out)@ + quoted(s@),
{
    let v = chars_of(s);
    push_char(out, '"');
    let ghost start = out@;
    let mut i: usize = 0;
    while i < v.len()
        invariant
            i <= v@.len(),
            out@ == start + escaped(v@.subrange(0, i as int)),
        decreases v.len() - i,
    {
        assert(v@.subrange(0, i as int + 1).drop_last() =~= v@.subrange(0, i as int));
        push_escaped_char(out, v[i]);
        i = i + 1;
    }
    assert(v@.subrange(0, v@.len() as int) =~= v@);
    push_char(out, '"');
    assert(final(out)@ =~= old(out)@ + quoted(s@));
}

/// Appends the compact JSON text of `v`.
pub fn push_json(out: &mut String, v: &JsonValue)
    ensures
        final(out)@ == old(out)@ + json_text(*v),
    decreases v,
{
    match v {
        JsonValue::Null => out.append("null"),
        JsonValue::Bool(b) => if *b { out.append("true") } else { out.append("false") },
        JsonValue::Number(n) => out.append(n.as_str()),
        JsonValue::Str(s) => push_quoted(out, s.as_str()),
        JsonValue::Array(items) => {
            push_char(out, '[');
            let ghost start = out@;
            let mut i: usize = 0;
            while i < items.len()
                invariant
                    i <= items@.len(),
                    out@ == start + items_text(*v, items@, i as int),
                    *v == JsonValue::Array(*items),
                decreases items.len() - i,
            {
                if i > 0 {
                    push_char(out, ',');
                }
                proof {
                    assert(decreases_to!(*v => v->Array_0));
                    assert(decreases_to!(v->Array_0 => v->Array_0@));
                    assert(decreases_to!(v->Array_0@ => v->Array_0@[i as int]));
                }
                push_json(out, &items[i]);
                i = i + 1;
            }
            push_char(out, ']');
        },
        JsonValue::Object(entries) => {
            push_char(out, '{');
            let ghost start = out@;
            let mut i: usize = 0;
            while i < entries.len()
                invariant
                    i <= entries@.len(),
                    out@ == start + entries_text(*v, entries@, i as int),
                    *v == JsonValue::Object(*entries),
                decreases entries.len() - i,
            {
                if i > 0 {
                    push_char(out, ',');
                }
                push_quoted(out, entries[i].key.as_str());
                push_char(out, ':');
                proof {
                    assert(decreases_to!(*v => v->Object_0));
                    assert(decreases_to!(v->Object_0 => v->Object_0@));
                    assert(decreases_to!(v->Object_0@ => v->Object_0@[i as int]));
                    assert(decreases_to!(v->Object_0@[i as int] => v->Object_0@[i as int].value));
                }
                push_json(out, &entries[i].value);
                i = i + 1;
            }
            push_char(out, '}');
        },
    }
}

/// The compact JSON text of `v` (what `Value::to_string` writes).
pub fn render_json(v: &JsonValue) -> (r: String)
    ensures
        r@ == json_text(*v),
{
    let mut out = String::new();
    push_json(&mut out, v);
    out
}


/// Position of the first entry named `key` at or after `i`, or the length.
pub open spec fn field_index(entries: Seq<JsonEntry>, key: Seq<char>, i: int) -> int
    decreases entries.len() - i,
{
    if i < 0 || i >= entries.len() {
        entries.len() as int
    } else if entries[i].key@ == key {
        i
    } else {
        field_index(entries, key, i + 1)
    }
}

/// The member `key` of an object (`Value::get`); `None` for anything else.
pub open spec fn field(v: JsonValue, key: Seq<char>) -> Option<JsonValue> {
    match v {
        JsonValue::Object(entries) => {
            let k = field_index(entries@, key, 0);
            if k < entries@.len() { Some(entries@[k].value) } else { None }
        },
        _ => None,
    }
}

/// The member `key` when it is a JSON string (`get(key).and_then(as_str)`).
pub open spec fn str_field(v: JsonValue, key: Seq<char>) -> Option<Seq<char>> {
    match field(v, key) {
        Some(JsonValue::Str(s)) => Some(s@),
        _ => None,
    }
}

/// Looks up the member `key` of an object.
pub fn get_field<'a>(v: &'a JsonValue, key: &str) -> (r: Option<&'a JsonValue>)
    ensures
        match r {
            Some(x) => field(*v, key@) == Some(*x),
            None => field(*v, key@) is None,
        },
{
    match v {
        JsonValue::Object(entries) => {
            let k = key.to_owned();
            let mut i: usize = 0;
            while i < entries.len()
                invariant
                    i <= entries@.len(),
                    k@ == key@,
                    *v == JsonValue::Object(*entries),
                    field_index(entries@, key@, i as int) == field_index(entries@, key@, 0),
                decreases entries.len() - i,
            {
                if entries[i].key == k {
                    return Some(&entries[i].value);
                }
                i = i + 1;
            }
            None
        },
        _ => None,
    }
}

/// The member `key` when it is a JSON string.
pub fn get_str_field(v: &JsonValue, key: &str) -> (r: Option<String>)
    ensures
        match r {
            Some(s) => str_field(*v, key@) == Some(s@),
            None => str_field(*v, key@) is None,
        },
{
    match get_field(v, key) {
        Some(JsonValue::Str(s)) => Some(s.clone()),
        _ => None,
    }
}

} // verus!
