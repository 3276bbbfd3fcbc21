//! Hashing (SHA-256, HMAC-SHA256), hex and base64 encodings, AES-256-GCM
//! sealing of stored values, and random draws, each through its crate.

use vstd::prelude::*;
use aes_gcm::aead::rand_core::RngCore;
use aes_gcm::aead::{Aead, KeyInit, OsRng};
use base64::Engine;
use hmac::Mac;
use rand::Rng;
use sha2::Digest;
use crate::error::AppError;
use crate::text::is_ascii_alnum;

verus! {

// ---------------------------------------------------------------- SHA-256

/// The SHA-256 digest of a byte string.
pub uninterp spec fn sha256_digest(data: Seq<u8>) -> Seq<u8>;

/// `sha2::Sha256::digest`: the 32-byte digest of `data`.
#[verifier::external_body]
pub(crate) fn sha256(data: &[u8]) -> (r: [u8; 32])
    ensures
        r@ == sha256_digest(data@),
{
    sha2::Sha256::digest(data).into()
}

// ---------------------------------------------------------------- hex

pub open spec fn hex_lower_digit(n: int) -> char {
    if n < 10 { (48 + n) as char } else { (87 + n) as char }
}

/// Lower-case hexadecimal text of a byte string, two digits per byte.
pub open spec fn hex_text(b: Seq<u8>) -> Seq<char> {
    Seq::new(
        2 * b.len(),
        |i: int| if i % 2 == 0 { hex_lower_digit((b[i / 2] / 16) as int) } else { hex_lower_digit((b[i / 2] % 16) as int) },
    )
}

pub open spec fn is_lower_hex_char(c: char) -> bool {
    '0' <= c <= '9' || 'a' <= c <= 'f'
}

/// Hex text has two digits per byte, every one of them a lower-case
/// hexadecimal digit.
pub proof fn lemma_hex_text_shape(b: Seq<u8>)
    ensures
        hex_text(b).len() == 2 * b.len(),
        forall|i: int| 0 <= i < hex_text(b).len() ==> is_lower_hex_char(#[trigger] hex_text(b)[i]),
{
    assert forall|i: int| 0 <= i < hex_text(b).len() implies is_lower_hex_char(#[trigger] hex_text(b)[i]) by {
        let n: int = if i % 2 == 0 { (b[i / 2] / 16) as int } else { (b[i / 2] % 16) as int };
        assert(0 <= n < 16);
        assert(hex_text(b)[i] == hex_lower_digit(n));
    }
}

pub open spec fn is_hex_char(c: char) -> bool {
    ||| '0' <= c <= '9'
    ||| 'a' <= c <= 'f'
    ||| 'A' <= c <= 'F'
}

pub open spec fn hex_value(c: char) -> int {
    if '0' <= c <= '9' {
        c as int - 48
    } else if 'a' <= c <= 'f' {
        c as int - 87
    } else {
        c as int - 55
    }
}

/// What hex decoding gives for `s`: `None` for an odd length or a character
/// that is not a hexadecimal digit (either case).
pub open spec fn hex_bytes(s: Seq<char>) -> Option<Seq<u8>> {
    if s.len() % 2 == 0 && (forall|i: int| 0 <= i < s.len() ==> is_hex_char(#[trigger] s[i])) {
        Some(Seq::new(s.len() / 2, |i: int| (hex_value(s[2 * i]) * 16 + hex_value(s[2 * i + 1])) as u8))
    } else {
        None
    }
}

proof fn lemma_hex_digit(n: int)
    requires 0 <= n < 16,
    ensures
        is_hex_char(hex_lower_digit(n)),
        hex_value(hex_lower_digit(n)) == n,
{
    let c = hex_lower_digit(n);
    if n < 10 {
        assert(c as int == 48 + n);
    } else {
        assert(c as int == 87 + n);
    }
}

/// Hex text decodes back to the bytes it was written from.
pub proof fn lemma_hex_roundtrip(b: Seq<u8>)
    ensures
        hex_bytes(hex_text(b)) == Some(b),
{
    let t = hex_text(b);
    assert forall|i: int| 0 <= i < t.len() implies is_hex_char(#[trigger] t[i]) by {
        lemma_hex_digit((b[i / 2] / 16) as int);
        lemma_hex_digit((b[i / 2] % 16) as int);
    }
    let d = Seq::new(t.len() / 2, |i: int| (hex_value(t[2 * i]) * 16 + hex_value(t[2 * i + 1])) as u8);
    assert forall|i: int| 0 <= i < b.len() implies d[i] == b[i] by {
        lemma_hex_digit((b[i] / 16) as int);
        lemma_hex_digit((b[i] % 16) as int);
        assert(t[2 * i] == hex_lower_digit((b[i] / 16) as int));
        assert(t[2 * i + 1] == hex_lower_digit((b[i] % 16) as int));
    }
    assert(d =~= b);
}

/// `hex::encode`: lower-case hexadecimal text of `data`.
#[verifier::external_body]
pub(crate) fn hex_encode(data: &[u8]) -> (r: String)
    ensures
        r@ == hex_text(data@),
{
    hex::encode(data)
}

/// `hex::decode`: the bytes written in `text`, or `None` when `text` has an
/// odd length or a character outside `0-9a-fA-F`.
#[verifier::external_body]
pub(crate) fn hex_decode(text: &str) -> (r: Option<Vec<u8>>)
    ensures
        match r {
            Some(v) => hex_bytes(text@) == Some(v@),
            None => hex_bytes(text@) is None,
        },
{
    hex::decode(text).ok()
}

// ---------------------------------------------------------------- HMAC

/// The HMAC-SHA256 tag of `message` under `key`.
pub uninterp spec fn hmac_sha256(key: Seq<u8>, message: Seq<u8>) -> Seq<u8>;

/// `Hmac::<Sha256>::new_from_slice`, `update` and `verify_slice`: whether
/// `tag` is exactly the HMAC-SHA256 tag of `message` under `key`. Creating
/// the MAC accepts keys of every length, so only the comparison can fail.
#[verifier::external_body]
pub(crate) fn hmac_sha256_matches(key: &[u8], message: &[u8], tag: &[u8]) -> (r: bool)
    ensures
        r == (tag@ == hmac_sha256(key@, message@)),
{
    match <hmac::Hmac<sha2::Sha256> as Mac>::new_from_slice(key) {
        Ok(mut mac) => {
            mac.update(message);
            mac.verify_slice(tag).is_ok()
        },
        Err(_) => false,
    }
}

// ---------------------------------------------------------------- AES-256-GCM

/// Ciphertext and tag that AES-256-GCM produces for `plaintext`.
pub uninterp spec fn aes256gcm_seal(key: Seq<u8>, nonce: Seq<u8>, plaintext: Seq<u8>) -> Seq<u8>;

/// What AES-256-GCM authenticates and decrypts from `sealed`, if anything.
pub uninterp spec fn aes256gcm_open(key: Seq<u8>, nonce: Seq<u8>, sealed: Seq<u8>) -> Option<Seq<u8>>;

/// The longest plaintext that `aes-gcm` encrypts (`P_MAX`).
pub open spec fn aes_plaintext_max() -> int {
    0x10_0000_0000
}

/// `Aes256Gcm::encrypt` under `key` and `nonce`. The crate refuses only a
/// plaintext longer than `P_MAX`; the output is the ciphertext followed by a
/// 16-byte tag, and decrypting it with the same key and nonce gives the
/// plaintext back.
#[verifier::external_body]
fn aes_seal(key: &[u8; 32], nonce: &[u8; 12], plaintext: &[u8]) -> (r: Option<Vec<u8>>)
    ensures
        r is None <==> plaintext@.len() > aes_plaintext_max(),
        r matches Some(c) ==> {
            &&& c@ == aes256gcm_seal(key@, nonce@, plaintext@)
            &&& c@.len() == plaintext@.len() + 16
            &&& aes256gcm_open(key@, nonce@, c@) == Some(plaintext@)
        },
{
    aes_gcm::Aes256Gcm::new(key.into())
        .encrypt(aes_gcm::Nonce::from_slice(nonce), plaintext)
        .ok()
}

/// `Aes256Gcm::decrypt` under `key` and a 12-byte `nonce`.
#[verifier::external_body]
fn aes_open(key: &[u8; 32], nonce: &[u8], sealed: &[u8]) -> (r: Option<Vec<u8>>)
    requires
        nonce@.len() == 12,
    ensures
        match r {
            Some(p) => aes256gcm_open(key@, nonce@, sealed@) == Some(p@),
            None => aes256gcm_open(key@, nonce@, sealed@) is None,
        },
{
    aes_gcm::Aes256Gcm::new(key.into())
        .decrypt(aes_gcm::Nonce::from_slice(nonce), sealed)
        .ok()
}

// ---------------------------------------------------------------- base64

/// Standard (padded) base64 text of a byte string.
pub uninterp spec fn base64_text(data: Seq<u8>) -> Seq<char>;

/// What standard base64 decoding gives for `text`, if it is valid.
pub uninterp spec fn base64_bytes(text: Seq<char>) -> Option<Seq<u8>>;

pub open spec fn is_base64_char(c: char) -> bool {
    is_ascii_alnum(c) || c == '+' || c == '/' || c == '='
}

/// `base64::engine::general_purpose::STANDARD.encode`. Its output uses only
/// the standard alphabet and padding, four characters for every three bytes
/// or part of them, and decodes back to `data`.
#[verifier::external_body]
pub(crate) fn base64_encode(data: &[u8]) -> (r: String)
    ensures
        r@ == base64_text(data@),
        r@.len() == 4 * ((data@.len() + 2) / 3),
        base64_bytes(r@) == Some(data@),
        forall|i: int| 0 <= i < r@.len() ==> is_base64_char(#[trigger] r@[i]),
{
    base64::engine::general_purpose::STANDARD.encode(data)
}

/// `base64::engine::general_purpose::STANDARD.decode`.
#[verifier::external_body]
pub(crate) fn base64_decode(text: &str) -> (r: Option<Vec<u8>>)
    ensures
        match r {
            Some(v) => base64_bytes(text@) == Some(v@),
            None => base64_bytes(text@) is None,
        },
{
    base64::engine::general_purpose::STANDARD.decode(text).ok()
}

// ---------------------------------------------------------------- randomness

/// `N` bytes from the operating system's generator (`OsRng::fill_bytes`,
/// which panics if the generator fails). Nothing is known of the bytes.
#[verifier::external_body]
pub(crate) fn os_random<const N: usize>() -> (r: [u8; N]) {
    let mut bytes = [0u8; N];
    OsRng.fill_bytes(&mut bytes);
    bytes
}

/// `n` characters drawn by `rand::thread_rng()` from the `Alphanumeric`
/// distribution, which yields ASCII letters and digits only.
#[verifier::external_body]
pub(crate) fn random_alphanumeric(n: usize) -> (r: String)
    ensures
        r@.len() == n,
        forall|i: int| 0 <= i < r@.len() ==> is_ascii_alnum(#[trigger] r@[i]),
{
    rand::thread_rng().sample_iter(&rand::distributions::Alphanumeric).take(n).map(char::from).collect()
}

// ---------------------------------------------------------------- sealing

/// Encrypts stored payloads, signing secrets and notification URLs with the
/// service's 32-byte key. A sealed value is a 12-byte nonce followed by the
/// AES-256-GCM ciphertext and tag.
pub struct PayloadCipher {
    key: [u8; 32],
}

impl PayloadCipher {
    pub closed spec fn key(&self) -> Seq<u8> {
        self.key@
    }

    /// What a sealed value opens to under this cipher's key.
    pub open spec fn opened(&self, sealed: Seq<u8>) -> Option<Seq<u8>> {
        if sealed.len() < 13 {
            None
        } else {
            aes256gcm_open(self.key(), sealed.subrange(0, 12), sealed.subrange(12, sealed.len() as int))
        }
    }

    pub fn new(key: [u8; 32]) -> (c: Self)
        ensures
            c.key() == key@,
    {
        PayloadCipher { key }
    }

    /// Seals `plaintext` under a fresh random nonce.
    pub fn encrypt(&self, plaintext: &[u8]) -> (r: Result<Vec<u8>, AppError>)
        ensures
            match r {
                Ok(c) => {
                    &&& c@.len() == 12 + plaintext@.len() + 16
                    &&& c@.subrange(12, c@.len() as int)
                        == aes256gcm_seal(self.key(), c@.subrange(0, 12), plaintext@)
                    &&& self.opened(c@) == Some(plaintext@)
                },
                Err(e) => e == AppError::Crypto && plaintext@.len() > aes_plaintext_max(),
            },
    {
        let nonce: [u8; 12] = os_random::<12>();
        match aes_seal(&self.key, &nonce, plaintext) {
            Some(sealed) => {
                let mut out: Vec<u8> = Vec::new();
                let mut i: usize = 0;
                while i < 12
                    invariant
                        i <= 12,
                        out@ == nonce@.subrange(0, i as int),
                    decreases 12 - i,
                {
                    out.push(nonce[i]);
                    i = i + 1;
                }
                let mut j: usize = 0;
                while j < sealed.len()
                    invariant
                        j <= sealed@.len(),
                        out@ == nonce@ + sealed@.subrange(0, j as int),
                    decreases sealed.len() - j,
                {
                    out.push(sealed[j]);
                    j = j + 1;
                }
                assert(out@.subrange(0, 12) =~= nonce@);
                assert(out@.subrange(12, out@.len() as int) =~= sealed@);
                Ok(out)
            },
            None => Err(AppError::Crypto),
        }
    }

    /// Opens a sealed value; anything shorter than a nonce and one byte, or
    /// anything that fails authentication, is refused.
    pub fn decrypt(&self, encrypted: &[u8]) -> (r: Result<Vec<u8>, AppError>)
        ensures
            match r {
                Ok(p) => self.opened(encrypted@) == Some(p@),
                Err(e) => e == AppError::Crypto && self.opened(encrypted@) is None,
            },
    {
        if encrypted.len() < 13 {
            return Err(AppError::Crypto);
        }
        let nonce = slice_range(encrypted, 0, 12);
        let body = slice_range(encrypted, 12, encrypted.len());
        match aes_open(&self.key, nonce.as_slice(), body.as_slice()) {
            Some(p) => Ok(p),
            None => Err(AppError::Crypto),
        }
    }
}

/// The bytes `s[from..to]`.
pub fn slice_range(s: &[u8], from: usize, to: usize) -> (r: Vec<u8>)
    requires
        from <= to <= s@.len(),
    ensures
        r@ == s@.subrange(from as int, to as int),
{
    let mut r: Vec<u8> = Vec::new();
    let mut i: usize = from;
    while i < to
        invariant
            from <= i <= to <= s@.len(),
            r@ == s@.subrange(from as int, i as int),
        decreases to - i,
    {
        r.push(s[i]);
        i = i + 1;
    }
    r
}

} // verus!
