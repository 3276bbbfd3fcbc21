//! Runtime configuration: database location, the directory beside it that
//! holds the generated secrets, and how each secret is resolved from the
//! environment, from a persisted file, or freshly generated.

use vstd::prelude::*;
use crate::crypto::{base64_bytes, base64_decode, base64_encode, base64_text, hex_encode, hex_text, is_base64_char, os_random};
use crate::error::AppError;
use crate::settings::{parse_u32, parse_u32_text};
use crate::text::{before_char, chars_of, concat2, is_ws, prefix_before, push_char, starts_with, string_from, trim, trim_end_char, trim_end_matches, trim_str, has_prefix};

verus! {

/// Where a runtime secret came from.
#[derive(Clone, Copy, Debug, PartialEq, Eq, Structural)]
pub enum SecretSource {
    Supplied,
    Persisted,
    Generated,
}

pub open spec fn source_label(s: SecretSource) -> Seq<char> {
    match s {
        SecretSource::Supplied => "supplied"@,
        SecretSource::Persisted => "persisted"@,
        SecretSource::Generated => "generated"@,
    }
}

impl SecretSource {
    /// The label logged at startup for this source.
    pub fn as_str(self) -> (r: &'static str)
        ensures
            r@ == source_label(self),
    {
        match self {
            SecretSource::Supplied => "supplied",
            SecretSource::Persisted => "persisted",
            SecretSource::Generated => "generated",
        }
    }
}

#[derive(Clone, Copy)]
struct SecretSources {
    admin_token: SecretSource,
    encryption_key: SecretSource,
}

/// The service's configuration once every secret is resolved.
#[derive(Clone)]
pub struct AppConfig {
    pub database_url: String,
    pub admin_token: String,
    pub encryption_key: [u8; 32],
    pub public_url: String,
    pub build_sha: String,
    secret_sources: SecretSources,
    secret_directory: String,
}

/// What the environment holds for one variable.
#[derive(Clone, Debug, PartialEq, Eq)]
pub enum EnvValue {
    Present(String),
    NotUnicode,
    NotPresent,
}

// ---------------------------------------------------------------- paths

/// The parent that `std::path::Path::parent` gives for a path.
pub uninterp spec fn path_parent(path: Seq<char>) -> Option<Seq<char>>;

/// `std::path::Path::parent`, as text: the path without its final
/// component, `None` for a root or an empty path.
#[verifier::external_body]
fn parent_of(path: &str) -> (r: Option<String>)
    ensures
        match r {
            Some(p) => path_parent(path@) == Some(p@),
            None => path_parent(path@) is None,
        },
{
    match std::path::Path::new(path).parent() {
        Some(parent) => Some(parent.to_string_lossy().into_owned()),
        None => None,
    }
}

pub open spec fn sqlite_scheme() -> Seq<char> {
    "sqlite://"@
}

pub open spec fn default_database_url() -> Seq<char> {
    "sqlite://data/quiet-hours.db?mode=rwc"@
}

/// The file part of a `sqlite://` URL: what follows the scheme, up to any
/// query.
pub open spec fn sqlite_file_of(url: Seq<char>) -> Seq<char> {
    before_char(url.subrange(9, url.len() as int), '?')
}

/// The directory that holds the persisted secrets for a database URL: the
/// parent of a `sqlite://` file, or `data` when there is no usable parent.
pub open spec fn secret_directory_of(url: Seq<char>) -> Seq<char> {
    if starts_with(url, sqlite_scheme()) {
        match path_parent(sqlite_file_of(url)) {
            Some(p) => if p.len() > 0 { p } else { "data"@ },
            None => "data"@,
        }
    } else {
        "data"@
    }
}

/// The directory created before a `sqlite://` database is opened: the parent
/// of its file. Other URLs need none.
pub open spec fn database_directory_of(url: Seq<char>) -> Option<Seq<char>> {
    if starts_with(url, sqlite_scheme()) {
        path_parent(sqlite_file_of(url))
    } else {
        None
    }
}

/// The configured database URL, or the bundled SQLite default.
pub fn database_url_or_default(value: Option<String>) -> (r: String)
    ensures
        match value {
            Some(v) => r@ == v@,
            None => r@ == default_database_url(),
        },
{
    match value {
        Some(v) => v,
        None => "sqlite://data/quiet-hours.db?mode=rwc".to_owned(),
    }
}

fn sqlite_file(database_url: &str) -> (r: String)
    requires
        starts_with(database_url@, sqlite_scheme()),
    ensures
        r@ == sqlite_file_of(database_url@),
{
    proof {
        reveal_strlit("sqlite://");
    }
    let chars = chars_of(database_url);
    let mut rest: Vec<char> = Vec::new();
    let mut i: usize = 9;
    while i < chars.len()
        invariant
            9 <= i <= chars@.len(),
            rest@ == chars@.subrange(9, i as int),
        decreases chars.len() - i,
    {
        rest.push(chars[i]);
        i = i + 1;
    }
    string_from(prefix_before(rest.as_slice(), '?').as_slice())
}

/// The directory beside the SQLite database where secrets are persisted.
pub fn secret_directory_for_database(database_url: &str) -> (r: String)
    ensures
        r@ == secret_directory_of(database_url@),
{
    if !has_prefix(database_url, "sqlite://") {
        return "data".to_owned();
    }
    let file = sqlite_file(database_url);
    match parent_of(file.as_str()) {
        Some(p) => {
            if !p.as_str().is_empty() {
                proof { assert(p@.len() > 0); }
                p
            } else {
                proof { assert(p@.len() == 0); }
                "data".to_owned()
            }
        },
        None => "data".to_owned(),
    }
}

/// The directory to create before the database at `database_url` is opened.
pub fn database_directory(database_url: &str) -> (r: Option<String>)
    ensures
        match r {
            Some(d) => database_directory_of(database_url@) == Some(d@),
            None => database_directory_of(database_url@) is None,
        },
{
    if !has_prefix(database_url, "sqlite://") {
        return None;
    }
    let file = sqlite_file(database_url);
    parent_of(file.as_str())
}

/// The file `name` inside `directory` (`Path::join` with a relative name).
pub open spec fn file_in(directory: Seq<char>, name: Seq<char>) -> Seq<char> {
    if directory.len() > 0 && directory.last() != '/' {
        directory + "/"@ + name
    } else {
        directory + name
    }
}

pub fn secret_file_path(directory: &str, name: &str) -> (r: String)
    ensures
        r@ == file_in(directory@, name@),
{
    let d = chars_of(directory);
    if d.len() > 0 && d[d.len() - 1] != '/' {
        let mut r = concat2(directory, "/");
        r.append(name);
        r
    } else {
        concat2(directory, name)
    }
}

/// The temporary file a secret is first written to before it is renamed
/// into place: `.<file name>.<hex of the suffix>.tmp`.
pub open spec fn temporary_name_for(file_name: Seq<char>, suffix: Seq<u8>) -> Seq<char> {
    "."@ + file_name + "."@ + hex_text(suffix) + ".tmp"@
}

/// Names the temporary file for a secret file, with 8 random bytes as the
/// suffix; a file without a (UTF-8) name counts as `secret`.
pub fn temporary_secret_name(file_name: Option<&str>) -> (r: String)
    ensures
        exists|suffix: Seq<u8>| {
            &&& suffix.len() == 8
            &&& r@ == temporary_name_for(
                match file_name { Some(n) => n@, None => "secret"@ },
                suffix,
            )
        },
{
    let name = match file_name {
        Some(n) => n,
        None => "secret",
    };
    let suffix: [u8; 8] = os_random::<8>();
    let mut r = concat2(".", name);
    r.append(".");
    r.append(hex_encode(suffix.as_slice()).as_str());
    r.append(".tmp");
    proof {
        reveal_strlit(".");
        reveal_strlit(".tmp");
    }
    assert(r@ == temporary_name_for(name@, suffix@));
    r
}

// ---------------------------------------------------------------- admin token

/// The admin token and where it came from; `persist` holds the whole
/// content to write to the secret file (the token and a newline) when the
/// token was generated.
pub struct ResolvedToken {
    pub token: String,
    pub source: SecretSource,
    pub persist: Option<String>,
}

pub open spec fn is_config_error(r: AppError, text: Seq<char>) -> bool {
    r matches AppError::Config(m) && m@ == text
}

/// The outcome of resolving the admin token, given what the environment and
/// the persisted file hold and, for a generated token, the random bytes.
pub open spec fn admin_token_outcome(
    env: EnvValue,
    directory: Seq<char>,
    persisted: Option<String>,
    fresh: Seq<u8>,
    r: Result<ResolvedToken, AppError>,
) -> bool {
    match env {
        EnvValue::Present(v) => if trim(v@).len() == 0 {
            r matches Err(e) && is_config_error(e, "ADMIN_TOKEN must not be empty when supplied"@)
        } else {
            r matches Ok(t) && t.token@ == v@ && t.source == SecretSource::Supplied && t.persist is None
        },
        EnvValue::NotUnicode => r matches Err(e) && is_config_error(e, "ADMIN_TOKEN must contain valid UTF-8"@),
        EnvValue::NotPresent => match persisted {
            Some(content) => if trim(content@).len() == 0 {
                r matches Err(e) && is_config_error(
                    e,
                    "persisted admin token is empty: "@ + file_in(directory, "admin-token"@),
                )
            } else {
                r matches Ok(t) && t.token@ == trim(content@) && t.source == SecretSource::Persisted
                    && t.persist is None
            },
            None => r matches Ok(t) && t.token@ == hex_text(fresh) && t.source == SecretSource::Generated
                && (t.persist matches Some(p) && p@ == t.token@ + "\n"@),
        },
    }
}

/// Resolves the admin token. `persisted` is the content of the secret file
/// when it exists; `fresh` supplies the bytes of a generated token.
pub fn admin_token_from(env: EnvValue, directory: &str, persisted: Option<String>, fresh: &[u8; 32]) -> (r: Result<ResolvedToken, AppError>)
    ensures
        admin_token_outcome(env, directory@, persisted, fresh@, r),
{
    match env {
        EnvValue::Present(v) => {
            let t = trim_str(v.as_str());
            if t.as_str().is_empty() {
                Err(AppError::Config("ADMIN_TOKEN must not be empty when supplied".to_owned()))
            } else {
                Ok(ResolvedToken { token: v, source: SecretSource::Supplied, persist: None })
            }
        },
        EnvValue::NotUnicode => Err(AppError::Config("ADMIN_TOKEN must contain valid UTF-8".to_owned())),
        EnvValue::NotPresent => match persisted {
            Some(content) => {
                let t = trim_str(content.as_str());
                if t.as_str().is_empty() {
                    let path = secret_file_path(directory, "admin-token");
                    let mut m = "persisted admin token is empty: ".to_owned();
                    m.append(path.as_str());
                    Err(AppError::Config(m))
                } else {
                    Ok(ResolvedToken { token: t, source: SecretSource::Persisted, persist: None })
                }
            },
            None => {
                let token = hex_encode(fresh.as_slice());
                let mut persist = token.clone();
                push_char(&mut persist, '\n');
                proof {
                    reveal_strlit("\n");
                }
                assert(persist@ =~= token@ + "\n"@);
                Ok(ResolvedToken { token, source: SecretSource::Generated, persist: Some(persist) })
            },
        },
    }
}

/// Resolves the admin token, drawing 32 random bytes from the operating
/// system when a new token has to be generated.
pub fn resolve_admin_token(env: EnvValue, directory: &str, persisted: Option<String>) -> (r: Result<ResolvedToken, AppError>)
    ensures
        exists|fresh: Seq<u8>| fresh.len() == 32 && admin_token_outcome(env, directory@, persisted, fresh, r),
{
    let ghost e = env;
    let ghost p = persisted;
    let fresh: [u8; 32] = os_random::<32>();
    let r = admin_token_from(env, directory, persisted, &fresh);
    assert(fresh@.len() == 32 && admin_token_outcome(e, directory@, p, fresh@, r));
    r
}


// ---------------------------------------------------------------- encryption key

/// What decoding a configured key gives: the 32 bytes, or the message that
/// explains why the text is not a key.
pub open spec fn key_decoding(text: Seq<char>, r: Result<[u8; 32], AppError>) -> bool {
    match base64_bytes(text) {
        None => r matches Err(e) && is_config_error(e, "DATA_ENCRYPTION_KEY must be base64"@),
        Some(b) => if b.len() == 32 {
            r matches Ok(k) && k@ == b
        } else {
            r matches Err(e) && is_config_error(e, "DATA_ENCRYPTION_KEY must decode to exactly 32 bytes"@)
        },
    }
}

/// Decodes a base64 encryption key that must hold exactly 32 bytes.
pub fn decode_encryption_key(value: &str) -> (r: Result<[u8; 32], AppError>)
    ensures
        key_decoding(value@, r),
{
    match base64_decode(value) {
        None => Err(AppError::Config("DATA_ENCRYPTION_KEY must be base64".to_owned())),
        Some(bytes) => {
            if bytes.len() != 32 {
                return Err(AppError::Config("DATA_ENCRYPTION_KEY must decode to exactly 32 bytes".to_owned()));
            }
            let mut key = [0u8; 32];
            let mut i: usize = 0;
            while i < 32
                invariant
                    i <= 32,
                    bytes@.len() == 32,
                    forall|k: int| 0 <= k < i ==> key@[k] == bytes@[k],
                decreases 32 - i,
            {
                key[i] = bytes[i];
                i = i + 1;
            }
            assert(key@ =~= bytes@);
            Ok(key)
        },
    }
}

/// The encryption key and where it came from; `persist` holds the whole
/// content to write to the secret file (the key's base64 and a newline) when
/// the key was generated.
pub struct ResolvedKey {
    pub key: [u8; 32],
    pub source: SecretSource,
    pub persist: Option<String>,
}

/// The outcome of resolving the encryption key, given what the environment
/// and the persisted file hold and, for a generated key, the random bytes.
pub open spec fn encryption_key_outcome(
    env: EnvValue,
    directory: Seq<char>,
    persisted: Option<String>,
    fresh: Seq<u8>,
    r: Result<ResolvedKey, AppError>,
) -> bool {
    match env {
        EnvValue::Present(v) => match base64_bytes(v@) {
            Some(b) if b.len() == 32 => r matches Ok(rk) && rk.key@ == b && rk.source == SecretSource::Supplied
                && rk.persist is None,
            _ => r matches Err(e) && key_decoding(v@, Err(e)),
        },
        EnvValue::NotUnicode => r matches Err(e) && is_config_error(e, "DATA_ENCRYPTION_KEY must contain valid UTF-8"@),
        EnvValue::NotPresent => match persisted {
            Some(content) => match base64_bytes(trim(content@)) {
                Some(b) if b.len() == 32 => r matches Ok(rk) && rk.key@ == b && rk.source == SecretSource::Persisted
                    && rk.persist is None,
                _ => r matches Err(e) && is_config_error(
                    e,
                    "persisted encryption key is invalid: "@ + file_in(directory, "encryption-key"@),
                ),
            },
            None => {
                &&& r matches Ok(rk)
                &&& rk.key@ == fresh
                &&& rk.source == SecretSource::Generated
                &&& rk.persist matches Some(text)
                &&& text@ == base64_text(fresh) + "\n"@
                &&& base64_text(fresh).len() == 4 * ((fresh.len() + 2) / 3)
                &&& base64_bytes(base64_text(fresh)) == Some(fresh)
                &&& forall|i: int| 0 <= i < base64_text(fresh).len() ==> is_base64_char(#[trigger] base64_text(fresh)[i])
            },
        },
    }
}

/// Resolves the encryption key. `persisted` is the content of the secret
/// file when it exists; `fresh` supplies a generated key.
pub fn encryption_key_from(env: EnvValue, directory: &str, persisted: Option<String>, fresh: &[u8; 32]) -> (r: Result<ResolvedKey, AppError>)
    ensures
        encryption_key_outcome(env, directory@, persisted, fresh@, r),
{
    match env {
        EnvValue::Present(v) => {
            let decoded = decode_encryption_key(v.as_str());
            match decoded {
                Ok(key) => Ok(ResolvedKey { key, source: SecretSource::Supplied, persist: None }),
                Err(e) => Err(e),
            }
        },
        EnvValue::NotUnicode => Err(AppError::Config("DATA_ENCRYPTION_KEY must contain valid UTF-8".to_owned())),
        EnvValue::NotPresent => match persisted {
            Some(content) => {
                let t = trim_str(content.as_str());
                match decode_encryption_key(t.as_str()) {
                    Ok(key) => Ok(ResolvedKey { key, source: SecretSource::Persisted, persist: None }),
                    Err(_) => {
                        let path = secret_file_path(directory, "encryption-key");
                        let mut m = "persisted encryption key is invalid: ".to_owned();
                        m.append(path.as_str());
                        Err(AppError::Config(m))
                    },
                }
            },
            None => {
                let encoded = base64_encode(fresh.as_slice());
                let mut text = encoded.clone();
                push_char(&mut text, '\n');
                proof {
                    reveal_strlit("\n");
                }
                assert(text@ =~= encoded@ + "\n"@);
                Ok(ResolvedKey { key: *fresh, source: SecretSource::Generated, persist: Some(text) })
            },
        },
    }
}

/// Resolves the encryption key, drawing 32 random bytes from the operating
/// system when a new key has to be generated.
pub fn resolve_encryption_key(env: EnvValue, directory: &str, persisted: Option<String>) -> (r: Result<ResolvedKey, AppError>)
    ensures
        exists|fresh: Seq<u8>| fresh.len() == 32 && encryption_key_outcome(env, directory@, persisted, fresh, r),
{
    let ghost e = env;
    let ghost p = persisted;
    let fresh: [u8; 32] = os_random::<32>();
    let r = encryption_key_from(env, directory, persisted, &fresh);
    assert(fresh@.len() == 32 && encryption_key_outcome(e, directory@, p, fresh@, r));
    r
}

// ---------------------------------------------------------------- listener

/// The port to listen on: `PORT` when it parses as a 16-bit number, else
/// 8080.
pub open spec fn port_of(value: Option<Seq<char>>) -> u16 {
    match value {
        Some(v) => match parse_u32(v) {
            Some(n) => if n <= 65_535 { n as u16 } else { 8080 },
            None => 8080,
        },
        None => 8080,
    }
}

/// Reads the listening port from the `PORT` value, if any.
pub fn listen_port(value: Option<String>) -> (r: u16)
    ensures
        r == port_of(match value { Some(v) => Some(v@), None => None }),
{
    match value {
        Some(v) => {
            let chars = chars_of(v.as_str());
            match parse_u32_text(chars.as_slice()) {
                Some(n) => if n <= 65_535 { n as u16 } else { 8080 },
                None => 8080,
            }
        },
        None => 8080,
    }
}

// ---------------------------------------------------------------- assembly

pub open spec fn default_public_url() -> Seq<char> {
    "http://localhost:8080"@
}

pub open spec fn default_build_sha() -> Seq<char> {
    "development"@
}

impl AppConfig {
    /// The database URL. The struct also has private fields, so its public fields are
    /// read in contracts through this function.
    pub closed spec fn database_url_view(&self) -> Seq<char> {
        self.database_url@
    }

    /// The admin token. The struct also has private fields, so its public fields are
    /// read in contracts through this function.
    pub closed spec fn admin_token_view(&self) -> Seq<char> {
        self.admin_token@
    }

    /// The encryption key. The struct also has private fields, so its public fields are
    /// read in contracts through this function.
    pub closed spec fn key_view(&self) -> Seq<u8> {
        self.encryption_key@
    }

    /// The public URL. The struct also has private fields, so its public fields are
    /// read in contracts through this function.
    pub closed spec fn public_url_view(&self) -> Seq<char> {
        self.public_url@
    }

    /// The build identifier. The struct also has private fields, so its public fields are
    /// read in contracts through this function.
    pub closed spec fn build_sha_view(&self) -> Seq<char> {
        self.build_sha@
    }

    /// Where the admin token came from (kept private to the configuration).
    pub closed spec fn admin_source(&self) -> SecretSource {
        self.secret_sources.admin_token
    }

    /// Where the encryption key came from (kept private to the configuration).
    pub closed spec fn key_source(&self) -> SecretSource {
        self.secret_sources.encryption_key
    }

    /// The directory holding the persisted secrets (kept private to the
    /// configuration).
    pub closed spec fn directory(&self) -> Seq<char> {
        self.secret_directory@
    }

    /// Builds the configuration from the resolved parts: the public URL
    /// loses its trailing slashes, and absent values take their defaults.
    pub fn assemble(
        database_url: String,
        admin_token: String,
        admin_source: SecretSource,
        encryption_key: [u8; 32],
        key_source: SecretSource,
        public_url: Option<String>,
        build_sha: Option<String>,
    ) -> (c: AppConfig)
        ensures
            c.database_url_view() == database_url@,
            c.admin_token_view() == admin_token@,
            c.key_view() == encryption_key@,
            c.public_url_view() == trim_end_char(
                match public_url { Some(u) => u@, None => default_public_url() },
                '/',
            ),
            c.build_sha_view() == (match build_sha { Some(b) => b@, None => default_build_sha() }),
            c.admin_source() == admin_source,
            c.key_source() == key_source,
            c.directory() == secret_directory_of(database_url@),
    {
        let url = match public_url {
            Some(u) => u,
            None => "http://localhost:8080".to_owned(),
        };
        let public_url = trim_end_matches(url.as_str(), '/');
        let build_sha = match build_sha {
            Some(b) => b,
            None => "development".to_owned(),
        };
        let secret_directory = secret_directory_for_database(database_url.as_str());
        AppConfig {
            database_url,
            admin_token,
            encryption_key,
            public_url,
            build_sha,
            secret_sources: SecretSources { admin_token: admin_source, encryption_key: key_source },
            secret_directory,
        }
    }

    /// Where the admin token came from, as logged at startup.
    pub fn admin_token_source(&self) -> (r: &'static str)
        ensures
            r@ == source_label(self.admin_source()),
    {
        self.secret_sources.admin_token.as_str()
    }

    /// Where the encryption key came from, as logged at startup.
    pub fn encryption_key_source(&self) -> (r: &'static str)
        ensures
            r@ == source_label(self.key_source()),
    {
        self.secret_sources.encryption_key.as_str()
    }

    /// The directory that holds the persisted secrets.
    pub fn secret_directory(&self) -> (r: &str)
        ensures
            r@ == self.directory(),
    {
        self.secret_directory.as_str()
    }
}


// ---------------------------------------------------------------- laws

proof fn lemma_trim_newline(s: Seq<char>)
    requires
        s.len() > 0,
        forall|i: int| 0 <= i < s.len() ==> !is_ws(#[trigger] s[i]),
    ensures
        trim(s + "\n"@) == s,
{
    reveal_strlit("\n");
    let t = s + "\n"@;
    assert(t[0] == s[0]);
    assert(crate::text::skip_ws(t, 0) == 0);
    assert(t[t.len() - 1] == '\n');
    assert(t[s.len() - 1] == s[s.len() - 1]);
    assert(crate::text::back_ws(t, 0, t.len() as int) == crate::text::back_ws(t, 0, s.len() as int));
    assert(crate::text::back_ws(t, 0, s.len() as int) == s.len());
    assert(t.subrange(0, s.len() as int) =~= s);
}

/// A generated admin token is 64 lower-case hexadecimal digits, and once the
/// secret file holds what resolution asked to write, the next start reads
/// the same token back as a persisted one.
pub proof fn law_generated_admin_token_is_reused(
    directory: Seq<char>,
    fresh: Seq<u8>,
    first: ResolvedToken,
    file: String,
    later_fresh: Seq<u8>,
    second: Result<ResolvedToken, AppError>,
)
    requires
        fresh.len() == 32,
        admin_token_outcome(EnvValue::NotPresent, directory, None, fresh, Ok(first)),
        first.persist == Some(file),
        admin_token_outcome(EnvValue::NotPresent, directory, Some(file), later_fresh, second),
    ensures
        first.source == SecretSource::Generated,
        first.token@.len() == 64,
        forall|i: int| 0 <= i < 64 ==> crate::crypto::is_hex_char(#[trigger] first.token@[i]),
        second matches Ok(t) && t.token@ == first.token@ && t.source == SecretSource::Persisted,
{
    let h = first.token@;
    assert(h == hex_text(fresh));
    assert forall|i: int| 0 <= i < h.len() implies !is_ws(#[trigger] h[i]) && crate::crypto::is_hex_char(h[i]) by {
        assert(h[i] == if i % 2 == 0 { crate::crypto::hex_lower_digit((fresh[i / 2] / 16) as int) } else { crate::crypto::hex_lower_digit((fresh[i / 2] % 16) as int) });
    }
    lemma_trim_newline(h);
}

/// A generated encryption key, once the secret file holds what resolution
/// asked to write (its base64 and a newline), is read back unchanged as a
/// persisted key.
pub proof fn law_generated_key_is_reused(
    directory: Seq<char>,
    fresh: Seq<u8>,
    first: ResolvedKey,
    file: String,
    later_fresh: Seq<u8>,
    second: Result<ResolvedKey, AppError>,
)
    requires
        fresh.len() == 32,
        encryption_key_outcome(EnvValue::NotPresent, directory, None, fresh, Ok(first)),
        first.persist == Some(file),
        encryption_key_outcome(EnvValue::NotPresent, directory, Some(file), later_fresh, second),
    ensures
        first.source == SecretSource::Generated,
        second matches Ok(k) && k.key == first.key && k.source == SecretSource::Persisted,
{
    let text = base64_text(fresh);
    assert forall|i: int| 0 <= i < text.len() implies !is_ws(#[trigger] text[i]) by {
        assert(is_base64_char(text[i]));
    }
    lemma_trim_newline(text);
    let k = second->Ok_0;
    assert(k.key@ =~= first.key@);
}

} // verus!
