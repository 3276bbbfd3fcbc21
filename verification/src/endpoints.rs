//! Creating a receiving endpoint: the alias name, its URL slug, the
//! private key in the hook URL and the optional signing secret.

use vstd::prelude::*;
use vstd::utf8::{encode_utf8, is_ascii_chars, is_ascii_chars_encode_utf8};
use crate::crypto::{random_alphanumeric, PayloadCipher};
use crate::error::AppError;
use crate::ingress::{hash_key, key_hash};
use crate::text::{ascii_alnum, ascii_lower, chars_of, concat2, is_ascii_alnum, push_char, string_from, trim, trim_chars, utf8_len_within};

verus! {

/// What `str::to_lowercase` makes of a string.
pub uninterp spec fn lowercase(s: Seq<char>) -> Seq<char>;

/// `str::to_lowercase`: the string mapped by Unicode's lower-case mapping,
/// under which ASCII letters and digits become their ASCII lower case.
#[verifier::external_body]
fn to_lowercase(s: &str) -> (r: String)
    ensures
        r@ == lowercase(s@),
        (forall|i: int| 0 <= i < s@.len() ==> is_ascii_alnum(#[trigger] s@[i])) ==> r@ == s@.map_values(
            |c: char| ascii_lower(c),
        ),
{
    s.to_lowercase()
}

/// An ASCII digit or lower-case ASCII letter.
pub open spec fn is_lower_alnum(c: char) -> bool {
    '0' <= c <= '9' || 'a' <= c <= 'z'
}

/// A slug that ends in a hyphen and five ASCII digits or lower-case letters.
pub open spec fn has_random_suffix(slug: Seq<char>) -> bool {
    &&& slug.len() >= 6
    &&& slug[slug.len() - 6] == '-'
    &&& forall|i: int| slug.len() - 5 <= i < slug.len() ==> is_lower_alnum(#[trigger] slug[i])
}

/// One step of slug building: ASCII letters and digits are kept; any other
/// character ends the current word; words are joined by single hyphens.
pub open spec fn slug_step(acc: (Seq<char>, bool), c: char) -> (Seq<char>, bool) {
    if !is_ascii_alnum(c) {
        (acc.0, true)
    } else if acc.1 && acc.0.len() > 0 {
        (acc.0 + seq!['-', c], false)
    } else {
        (acc.0.push(c), false)
    }
}

pub open spec fn slug_scan(s: Seq<char>) -> (Seq<char>, bool)
    decreases s.len(),
{
    if s.len() == 0 {
        (seq![], false)
    } else {
        slug_step(slug_scan(s.drop_last()), s.last())
    }
}

/// The runs of ASCII letters and digits of `s`, joined by single hyphens.
pub open spec fn slug_words(s: Seq<char>) -> Seq<char> {
    slug_scan(s).0
}

/// The slug of an alias: its lower-cased words (or `endpoint` when it has
/// none), a hyphen, and the lower-cased random suffix.
pub open spec fn slug_for(name: Seq<char>, suffix: Seq<char>) -> Seq<char> {
    let words = slug_words(lowercase(name));
    (if words.len() == 0 { "endpoint"@ } else { words }) + seq!['-'] + lowercase(suffix)
}

/// Whether every character is an ASCII letter or digit.
pub open spec fn all_ascii_alnum(s: Seq<char>) -> bool {
    forall|i: int| 0 <= i < s.len() ==> is_ascii_alnum(#[trigger] s[i])
}

/// Whether no character is an ASCII letter or digit.
pub open spec fn no_ascii_alnum(s: Seq<char>) -> bool {
    forall|i: int| 0 <= i < s.len() ==> !is_ascii_alnum(#[trigger] s[i])
}

/// Slug words keep every ASCII letter and digit: a text made only of them is
/// its own slug words.
pub proof fn law_slug_keeps_letters_and_digits(s: Seq<char>)
    requires
        all_ascii_alnum(s),
    ensures
        slug_words(s) == s,
        slug_scan(s) == (s, false),
    decreases s.len(),
{
    if s.len() > 0 {
        let p = s.drop_last();
        assert(all_ascii_alnum(p)) by {
            assert forall|i: int| 0 <= i < p.len() implies is_ascii_alnum(#[trigger] p[i]) by {
                assert(p[i] == s[i]);
            }
        }
        law_slug_keeps_letters_and_digits(p);
        assert(is_ascii_alnum(s[s.len() - 1]));
        assert(p.push(s.last()) =~= s);
    }
}

proof fn lemma_scan_separator(a: Seq<char>, c: Seq<char>)
    requires
        all_ascii_alnum(a),
        no_ascii_alnum(c),
        c.len() > 0,
    ensures
        slug_scan(a + c) == (a, true),
    decreases c.len(),
{
    let t = a + c;
    let cl = c.drop_last();
    assert(t.drop_last() =~= a + cl);
    assert(t.last() == c[c.len() - 1]);
    if cl.len() == 0 {
        assert(a + cl =~= a);
        law_slug_keeps_letters_and_digits(a);
    } else {
        assert(no_ascii_alnum(cl)) by {
            assert forall|i: int| 0 <= i < cl.len() implies !is_ascii_alnum(#[trigger] cl[i]) by {
                assert(cl[i] == c[i]);
            }
        }
        lemma_scan_separator(a, cl);
    }
}

/// A run of other characters between two words of ASCII letters and digits
/// becomes one hyphen, and both words are kept whole.
pub proof fn law_slug_joins_words_with_one_hyphen(a: Seq<char>, c: Seq<char>, b: Seq<char>)
    requires
        a.len() > 0,
        all_ascii_alnum(a),
        c.len() > 0,
        no_ascii_alnum(c),
        b.len() > 0,
        all_ascii_alnum(b),
    ensures
        slug_words(a + c + b) == a + seq!['-'] + b,
    decreases b.len(),
{
    let t = a + c + b;
    let bl = b.drop_last();
    assert(t.drop_last() =~= a + c + bl);
    assert(t.last() == b[b.len() - 1]);
    assert(is_ascii_alnum(b[b.len() - 1]));
    if bl.len() == 0 {
        assert(a + c + bl =~= a + c);
        lemma_scan_separator(a, c);
        assert(a + seq!['-'] + b =~= a + seq!['-', b[0]]);
    } else {
        assert(all_ascii_alnum(bl)) by {
            assert forall|i: int| 0 <= i < bl.len() implies is_ascii_alnum(#[trigger] bl[i]) by {
                assert(bl[i] == b[i]);
            }
        }
        law_slug_joins_words_with_one_hyphen(a, c, bl);
        lemma_scan_pending_false(a + c + bl, a + seq!['-'] + bl);
        assert((a + seq!['-'] + bl).push(b.last()) =~= a + seq!['-'] + b);
    }
}

proof fn lemma_scan_pending_false(t: Seq<char>, words: Seq<char>)
    requires
        slug_words(t) == words,
        t.len() > 0,
        is_ascii_alnum(t.last()),
    ensures
        slug_scan(t) == (words, false),
{
}

/// The receiver URL of an endpoint: `<public>/hooks/<slug>?key=<token>`.
pub open spec fn hook_url_for(public_url: Seq<char>, slug: Seq<char>, token: Seq<char>) -> Seq<char> {
    public_url + "/hooks/"@ + slug + "?key="@ + token
}

/// An alias name must be 2 to 60 bytes once trimmed.
pub open spec fn name_acceptable(name: Seq<char>) -> bool {
    2 <= encode_utf8(name).len() <= 60
}

fn slug_words_of(s: &str) -> (r: String)
    ensures
        r@ == slug_words(s@),
{
    let v = chars_of(s);
    let mut out = String::new();
    let mut pending = false;
    let mut i: usize = 0;
    while i < v.len()
        invariant
            i <= v@.len(),
            (out@, pending) == slug_scan(v@.subrange(0, i as int)),
        decreases v.len() - i,
    {
        assert(v@.subrange(0, i as int + 1).drop_last() =~= v@.subrange(0, i as int));
        let c = v[i];
        if !ascii_alnum(c) {
            pending = true;
        } else if pending && out.as_str().is_empty() == false {
            push_char(&mut out, '-');
            push_char(&mut out, c);
            pending = false;
        } else {
            push_char(&mut out, c);
            pending = false;
        }
        assert(out@ =~= slug_scan(v@.subrange(0, i as int + 1)).0);
        i = i + 1;
    }
    assert(v@.subrange(0, v@.len() as int) =~= v@);
    out
}

/// The random parts of a new endpoint.
pub struct EndpointDraws {
    pub suffix: String,
    pub token: String,
    pub signing_secret: String,
}

/// A new endpoint, ready to store and to show once to its creator.
pub struct EndpointPlan {
    pub name: String,
    pub slug: String,
    pub token: String,
    pub token_hash: String,
    pub signing_secret: Option<String>,
    pub signing_secret_encrypted: Option<Vec<u8>>,
    pub hook_url: String,
}

/// What creating an endpoint gives for a requested name and signature
/// choice (signing defaults to on), with the given random parts.
pub open spec fn endpoint_outcome(
    requested: Seq<char>,
    require_signature: Option<bool>,
    cipher: PayloadCipher,
    public_url: Seq<char>,
    draws: EndpointDraws,
    r: Result<EndpointPlan, AppError>,
) -> bool {
    let name = trim(requested);
    let signed = match require_signature { Some(b) => b, None => true };
    if !name_acceptable(name) {
        r matches Err(e) && e matches AppError::Invalid(m) && m@ == "Alias name must be 2–60 characters."@
    } else {
        match r {
            Ok(p) => {
                &&& p.name@ == name
                &&& p.slug@ == slug_for(name, draws.suffix@)
                &&& p.token@ == draws.token@
                &&& p.token_hash@ == key_hash(draws.token@)
                &&& p.hook_url@ == hook_url_for(public_url, p.slug@, p.token@)
                &&& if signed {
                    &&& p.signing_secret == Some(draws.signing_secret)
                    &&& p.signing_secret_encrypted matches Some(c)
                    &&& cipher.opened(c@) == Some(encode_utf8(draws.signing_secret@))
                } else {
                    p.signing_secret is None && p.signing_secret_encrypted is None
                }
            },
            Err(e) => e == AppError::Crypto && signed
                && encode_utf8(draws.signing_secret@).len() > crate::crypto::aes_plaintext_max(),
        }
    }
}

/// Plans a new endpoint from a requested name and the given random parts.
pub fn endpoint_from_draws(
    requested: &str,
    require_signature: Option<bool>,
    cipher: &PayloadCipher,
    public_url: &str,
    draws: EndpointDraws,
) -> (r: Result<EndpointPlan, AppError>)
    ensures
        endpoint_outcome(requested@, require_signature, *cipher, public_url@, draws, r),
        draws.suffix@.len() == 5 && (forall|i: int| 0 <= i < 5 ==> is_ascii_alnum(#[trigger] draws.suffix@[i]))
            ==> (r matches Ok(p) ==> has_random_suffix(p.slug@)),
        all_ascii_alnum(trim(requested@)) ==> (r matches Ok(p) ==> p.slug@ == trim(requested@).map_values(
            |c: char| ascii_lower(c),
        ) + seq!['-'] + lowercase(draws.suffix@)),
{
    let name_chars = trim_chars(chars_of(requested).as_slice());
    let acceptable = match utf8_len_within(name_chars.as_slice(), 60) {
        Some(n) => n >= 2,
        None => false,
    };
    if !acceptable {
        return Err(AppError::Invalid("Alias name must be 2–60 characters.".to_owned()));
    }
    let name = string_from(name_chars.as_slice());
    let lowered = to_lowercase(name.as_str());
    let words = slug_words_of(lowered.as_str());
    proof {
        if all_ascii_alnum(name@) {
            assert(all_ascii_alnum(lowered@)) by {
                assert forall|i: int| 0 <= i < lowered@.len() implies is_ascii_alnum(#[trigger] lowered@[i]) by {
                    let c = name@[i];
                    assert(lowered@[i] == ascii_lower(c));
                    if 'A' <= c && c <= 'Z' {
                        assert('a' <= ascii_lower(c) <= 'z');
                    }
                }
            }
            law_slug_keeps_letters_and_digits(lowered@);
            assert(name@.len() > 0);
        }
    }
    let mut slug = if words.as_str().is_empty() { "endpoint".to_owned() } else { words };
    push_char(&mut slug, '-');
    let ghost base = slug@;
    let suffix = to_lowercase(draws.suffix.as_str());
    slug.append(suffix.as_str());
    proof {
        if draws.suffix@.len() == 5 && (forall|i: int| 0 <= i < 5 ==> is_ascii_alnum(#[trigger] draws.suffix@[i])) {
            assert forall|i: int| 0 <= i < 5 implies is_lower_alnum(#[trigger] suffix@[i]) by {
                let c = draws.suffix@[i];
                assert(suffix@[i] == ascii_lower(c));
                if 'A' <= c && c <= 'Z' {
                    assert('a' <= ascii_lower(c) <= 'z');
                }
            }
            let n = slug@.len();
            assert(slug@ == base + suffix@);
            assert(slug@[n - 6] == '-');
            assert forall|i: int| n - 5 <= i < n implies is_lower_alnum(#[trigger] slug@[i]) by {
                assert(slug@[i] == suffix@[i - (n - 5)]);
            }
        }
    }
    let token_hash = hash_key(draws.token.as_str());
    let signed = match require_signature {
        Some(b) => b,
        None => true,
    };
    let (signing_secret, signing_secret_encrypted) = if signed {
        let sealed = match cipher.encrypt(draws.signing_secret.as_str().as_bytes()) {
            Ok(c) => c,
            Err(e) => return Err(e),
        };
        (Some(draws.signing_secret), Some(sealed))
    } else {
        (None, None)
    };
    let mut hook_url = concat2(public_url, "/hooks/");
    hook_url.append(slug.as_str());
    hook_url.append("?key=");
    hook_url.append(draws.token.as_str());
    assert(name@ == trim(requested@));
    assert(slug@ == slug_for(name@, draws.suffix@));
    assert(token_hash@ == key_hash(draws.token@));
    assert(hook_url@ == hook_url_for(public_url@, slug@, draws.token@));
    Ok(EndpointPlan { name, slug, token: draws.token, token_hash, signing_secret, signing_secret_encrypted, hook_url })
}

/// Plans a new endpoint: a 5-character random slug suffix, a 32-character
/// key and, unless signing is turned off, a 40-character signing secret,
/// all drawn from ASCII letters and digits.
pub fn plan_endpoint(
    requested: &str,
    require_signature: Option<bool>,
    cipher: &PayloadCipher,
    public_url: &str,
) -> (r: Result<EndpointPlan, AppError>)
    ensures
        exists|draws: EndpointDraws| {
            &&& draws.suffix@.len() == 5
            &&& draws.token@.len() == 32
            &&& draws.signing_secret@.len() == 40
            &&& forall|i: int| 0 <= i < 32 ==> is_ascii_alnum(#[trigger] draws.token@[i])
            &&& forall|i: int| 0 <= i < 40 ==> is_ascii_alnum(#[trigger] draws.signing_secret@[i])
            &&& forall|i: int| 0 <= i < 5 ==> is_ascii_alnum(#[trigger] draws.suffix@[i])
            &&& endpoint_outcome(requested@, require_signature, *cipher, public_url@, draws, r)
        },
        r is Err ==> !name_acceptable(trim(requested@)),
        r matches Ok(p) ==> has_random_suffix(p.slug@),
{
    let suffix = random_alphanumeric(5);
    let token = random_alphanumeric(32);
    let signing_secret = random_alphanumeric(40);
    proof {
        assert(is_ascii_chars(signing_secret@));
        is_ascii_chars_encode_utf8(signing_secret@);
    }
    let draws = EndpointDraws { suffix, token, signing_secret };
    let ghost d = draws;
    let r = endpoint_from_draws(requested, require_signature, cipher, public_url, draws);
    assert(endpoint_outcome(requested@, require_signature, *cipher, public_url@, d, r));
    r
}


/// The key and signing secret handed out when an endpoint is created admit
/// a request that carries the key and, for a signed endpoint, the
/// `sha256=`-prefixed hex HMAC-SHA256 of the exact body under the secret.
pub proof fn law_created_endpoint_admits_its_sender(
    requested: Seq<char>,
    require_signature: Option<bool>,
    cipher: PayloadCipher,
    public_url: Seq<char>,
    draws: EndpointDraws,
    plan: EndpointPlan,
    endpoint: crate::ingress::EndpointCredentials,
    body: Seq<u8>,
    signature: String,
)
    requires
        endpoint_outcome(requested, require_signature, cipher, public_url, draws, Ok(plan)),
        endpoint.token_hash == plan.token_hash,
        endpoint.signing_secret_encrypted == plan.signing_secret_encrypted,
        plan.signing_secret matches Some(secret) ==> signature@ == "sha256="@ + crate::crypto::hex_text(
            crate::crypto::hmac_sha256(encode_utf8(secret@), body),
        ),
    ensures
        crate::ingress::admission(
            endpoint,
            cipher,
            Some(plan.token),
            crate::fingerprint::HeaderText::Absent,
            crate::fingerprint::HeaderText::Text(signature),
            body,
        ) == Ok::<(), AppError>(()),
{
    reveal_strlit("sha256=");
    if let Some(secret) = plan.signing_secret {
        let tag = crate::crypto::hmac_sha256(encode_utf8(secret@), body);
        let sig = signature@;
        assert(sig.subrange(0, 7) =~= "sha256="@);
        assert(sig.subrange(7, sig.len() as int) =~= crate::crypto::hex_text(tag));
        crate::crypto::lemma_hex_roundtrip(tag);
    }
}

} // verus!
