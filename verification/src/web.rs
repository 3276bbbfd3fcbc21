//! HTTP policy that does not depend on the framework: cache lifetimes of the
//! bundled static files, the answer to a request the rate limiter refused,
//! and admin bearer-token authentication.

use vstd::prelude::*;
use vstd::utf8::encode_utf8;
use crate::crypto::{sha256, sha256_digest};
use crate::error::AppError;
use crate::fingerprint::{readable, HeaderText};
use crate::text::{ascii_alnum, chars_of, has_prefix, is_ascii_alnum, same_text, starts_with, string_from};

verus! {

// ---------------------------------------------------------------- static files

/// Index of the last `c` in `s[..j]`, or -1 when there is none.
pub open spec fn last_index_before(s: Seq<char>, c: char, j: int) -> int
    decreases j,
{
    if j <= 0 {
        -1
    } else if s[j - 1] == c {
        j - 1
    } else {
        last_index_before(s, c, j - 1)
    }
}

pub open spec fn last_index(s: Seq<char>, c: char) -> int {
    last_index_before(s, c, s.len() as int)
}

/// What may follow the dash of a bundler's content hash.
pub open spec fn hash_char(c: char) -> bool {
    is_ascii_alnum(c) || c == '_' || c == '-'
}

/// A file stem that ends in a dash and eight hash characters. (All nine are
/// ASCII, so counting characters here is counting bytes.)
pub open spec fn hashed_stem(stem: Seq<char>) -> bool {
    &&& stem.len() >= 9
    &&& stem[stem.len() - 9] == '-'
    &&& forall|i: int| stem.len() - 8 <= i < stem.len() ==> hash_char(#[trigger] stem[i])
}

/// The last segment of a path.
pub open spec fn file_name_of(path: Seq<char>) -> Seq<char> {
    path.subrange(last_index(path, '/') + 1, path.len() as int)
}

/// A bundled asset whose name carries a content hash, such as
/// `/assets/index-Ab12_cd3.js`: under `/assets/`, with an extension, and a
/// stem ending in `-` and eight hash characters.
pub open spec fn fingerprinted(path: Seq<char>) -> bool {
    let file = file_name_of(path);
    let dot = last_index(file, '.');
    &&& starts_with(path, "/assets/"@)
    &&& dot >= 0
    &&& hashed_stem(file.subrange(0, dot))
}

/// The `Cache-Control` value for a static path: a year for hashed assets,
/// a day for other assets, and revalidation for everything else.
pub open spec fn cache_policy(path: Seq<char>) -> Seq<char> {
    if fingerprinted(path) {
        "public, max-age=31536000, immutable"@
    } else if starts_with(path, "/assets/"@) {
        "public, max-age=86400"@
    } else {
        "no-cache"@
    }
}

fn last_position(v: &Vec<char>, c: char) -> (r: Option<usize>)
    ensures
        match r {
            Some(k) => k as int == last_index(v@, c) && k < v.len(),
            None => last_index(v@, c) == -1,
        },
{
    let mut j: usize = v.len();
    while j > 0
        invariant
            j <= v@.len(),
            last_index_before(v@, c, j as int) == last_index(v@, c),
        decreases j,
    {
        if v[j - 1] == c {
            return Some(j - 1);
        }
        j = j - 1;
    }
    None
}

fn is_hash_char(c: char) -> (b: bool)
    ensures
        b == hash_char(c),
{
    ascii_alnum(c) || c == '_' || c == '-'
}

/// Whether a static path names a content-hashed bundle file.
pub fn is_fingerprinted_asset(path: &str) -> (b: bool)
    ensures
        b == fingerprinted(path@),
{
    if !has_prefix(path, "/assets/") {
        return false;
    }
    let v = chars_of(path);
    let from: usize = match last_position(&v, '/') {
        Some(k) => k + 1,
        None => 0,
    };
    let mut file: Vec<char> = Vec::new();
    let mut i: usize = from;
    while i < v.len()
        invariant
            from <= i <= v@.len(),
            file@ == v@.subrange(from as int, i as int),
        decreases v.len() - i,
    {
        file.push(v[i]);
        i = i + 1;
    }
    assert(file@ == file_name_of(path@));
    let dot = match last_position(&file, '.') {
        Some(d) => d,
        None => return false,
    };
    let ghost stem = file@.subrange(0, dot as int);
    if dot < 9 || file[dot - 9] != '-' {
        return false;
    }
    let mut k: usize = dot - 8;
    while k < dot
        invariant
            dot - 8 <= k <= dot <= file@.len(),
            file@ == file_name_of(path@),
            dot as int == last_index(file@, '.'),
            stem == file@.subrange(0, dot as int),
            forall|m: int| dot - 8 <= m < k ==> hash_char(#[trigger] stem[m]),
        decreases dot - k,
    {
        if !is_hash_char(file[k]) {
            assert(!hash_char(stem[k as int]));
            return false;
        }
        k = k + 1;
    }
    true
}

/// The `Cache-Control` value for a successful static response that is not
/// the HTML shell.
pub fn static_cache_control_value(path: &str) -> (r: &'static str)
    ensures
        r@ == cache_policy(path@),
{
    if is_fingerprinted_asset(path) {
        "public, max-age=31536000, immutable"
    } else if has_prefix(path, "/assets/") {
        "public, max-age=86400"
    } else {
        "no-cache"
    }
}

/// Whether a response's `Content-Type` is HTML.
pub open spec fn is_html(content_type: HeaderText) -> bool {
    match readable(content_type) {
        Some(t) => starts_with(t, "text/html"@),
        None => false,
    }
}

/// The paths the single-page shell answers for.
pub open spec fn is_shell_path(path: Seq<char>) -> bool {
    path == "/"@ || path == "/demo"@ || path == "/privacy"@ || path == "/terms"@
}

/// What is set on a successful static response.
pub struct StaticHeaders {
    pub cache_control: &'static str,
    pub not_found: bool,
}

/// Headers for a static response. Nothing is changed on a failure. The
/// shell (HTML) always revalidates, even where its path looks like a hashed
/// asset, and served anywhere but its own routes it is a 404.
pub fn static_response_policy(path: &str, success: bool, content_type: &HeaderText) -> (r: Option<StaticHeaders>)
    ensures
        r is Some <==> success,
        r matches Some(h) ==> {
            &&& h.cache_control@ == (if is_html(*content_type) { "no-cache"@ } else { cache_policy(path@) })
            &&& h.not_found == (is_html(*content_type) && !is_shell_path(path@))
        },
{
    if !success {
        return None;
    }
    let html = match content_type {
        HeaderText::Text(t) => has_prefix(t.as_str(), "text/html"),
        _ => false,
    };
    let cache_control = if html { "no-cache" } else { static_cache_control_value(path) };
    let shell = same_text(path, "/") || same_text(path, "/demo") || same_text(path, "/privacy")
        || same_text(path, "/terms");
    Some(StaticHeaders { cache_control, not_found: html && !shell })
}

// ---------------------------------------------------------------- rate limiting

/// The `Retry-After` seconds for a refused request: the limiter's wait, at
/// least one second, or one second when it gave none.
pub fn retry_after_seconds(wait_time: Option<u64>) -> (r: u64)
    ensures
        r == match wait_time {
            Some(w) => if w >= 1 { w } else { 1 },
            None => 1,
        },
        r >= 1,
{
    match wait_time {
        Some(w) => if w >= 1 { w } else { 1 },
        None => 1,
    }
}

// ---------------------------------------------------------------- admin authentication

/// The token of an `Authorization: Bearer <token>` header; anything else,
/// an unreadable header or none, counts as the empty token.
pub open spec fn bearer_text(authorization: HeaderText) -> Seq<char> {
    match readable(authorization) {
        Some(t) => if starts_with(t, "Bearer "@) { t.subrange(7, t.len() as int) } else { seq![] },
        None => seq![],
    }
}

/// The SHA-256 digest of a token's UTF-8 bytes.
pub open spec fn token_digest(token: Seq<char>) -> Seq<u8> {
    sha256_digest(encode_utf8(token))
}

/// Reads the bearer token of an `Authorization` header.
pub fn bearer_token(authorization: &HeaderText) -> (r: String)
    ensures
        r@ == bearer_text(*authorization),
{
    let t = match authorization {
        HeaderText::Text(t) => t,
        _ => return String::new(),
    };
    if !has_prefix(t.as_str(), "Bearer ") {
        return String::new();
    }
    proof {
        reveal_strlit("Bearer ");
    }
    let v = chars_of(t.as_str());
    let mut rest: Vec<char> = Vec::new();
    let mut i: usize = 7;
    while i < v.len()
        invariant
            7 <= i <= v@.len(),
            rest@ == v@.subrange(7, i as int),
        decreases v.len() - i,
    {
        rest.push(v[i]);
        i = i + 1;
    }
    string_from(rest.as_slice())
}

/// The digest the admin token is checked against.
pub fn admin_token_digest(token: &str) -> (r: [u8; 32])
    ensures
        r@ == token_digest(token@),
{
    sha256(token.as_bytes())
}

fn same_digest(a: &[u8; 32], b: &[u8; 32]) -> (r: bool)
    ensures
        r == (a@ == b@),
{
    let mut i: usize = 0;
    while i < 32
        invariant
            i <= 32,
            a@.len() == 32,
            b@.len() == 32,
            forall|k: int| 0 <= k < i ==> a@[k] == b@[k],
        decreases 32 - i,
    {
        if a[i] != b[i] {
            return false;
        }
        i = i + 1;
    }
    assert(a@ =~= b@);
    true
}

/// Admits an admin API request whose bearer token hashes to `admin_digest`;
/// any other request is unauthorized.
pub fn authorize_admin(authorization: &HeaderText, admin_digest: &[u8; 32]) -> (r: Result<(), AppError>)
    ensures
        r is Ok <==> token_digest(bearer_text(*authorization)) == admin_digest@,
        r matches Err(e) ==> e is Unauthorized,
{
    let token = bearer_token(authorization);
    let supplied = sha256(token.as_str().as_bytes());
    if same_digest(&supplied, admin_digest) {
        Ok(())
    } else {
        Err(AppError::Unauthorized)
    }
}

/// A request that presents the configured admin token as a bearer token is
/// admitted: its token hashes to the digest kept for the configured token.
pub proof fn law_configured_token_is_admitted(token: Seq<char>, authorization: HeaderText)
    requires
        readable(authorization) == Some("Bearer "@ + token),
    ensures
        bearer_text(authorization) == token,
        token_digest(bearer_text(authorization)) == token_digest(token),
{
    reveal_strlit("Bearer ");
    let t = "Bearer "@ + token;
    assert(t.subrange(0, 7) =~= "Bearer "@);
    assert(t.subrange(7, t.len() as int) =~= token);
}

} // verus!
