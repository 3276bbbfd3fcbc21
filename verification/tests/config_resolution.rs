use base64::Engine;
use webhook_quiet_hours::config::{
    admin_token_from, database_directory, database_url_or_default, decode_encryption_key, encryption_key_from,
    listen_port, resolve_admin_token, resolve_encryption_key, secret_directory_for_database, secret_file_path,
    AppConfig, EnvValue, SecretSource,
};
use webhook_quiet_hours::error::AppError;

fn config_error(m: &str) -> AppError {
    AppError::Config(m.into())
}

#[test]
fn secret_directory_sits_beside_the_sqlite_file() {
    assert_eq!(secret_directory_for_database("sqlite://data/quiet-hours.db?mode=rwc"), "data");
    assert_eq!(secret_directory_for_database("sqlite:///app/data/q.db"), "/app/data");
    assert_eq!(secret_directory_for_database("sqlite://q.db"), "data");
    assert_eq!(secret_directory_for_database("postgres://x/y"), "data");
    assert_eq!(secret_directory_for_database("sqlite:///q.db"), "/");
    assert_eq!(database_directory("sqlite://data/quiet-hours.db?mode=rwc").as_deref(), Some("data"));
    assert_eq!(database_directory("sqlite://q.db").as_deref(), Some(""));
    assert_eq!(database_directory("mysql://db"), None);
    assert_eq!(database_url_or_default(None), "sqlite://data/quiet-hours.db?mode=rwc");
    assert_eq!(secret_file_path("data", "admin-token"), "data/admin-token");
    assert_eq!(secret_file_path("/app/data/", "encryption-key"), "/app/data/encryption-key");
}

#[test]
fn admin_token_comes_from_env_file_or_generation() {
    let fresh = [0xabu8; 32];
    let t = admin_token_from(EnvValue::Present(" tok ".into()), "data", None, &fresh).unwrap();
    assert_eq!(t.token, " tok ");
    assert_eq!(t.source, SecretSource::Supplied);
    assert!(t.persist.is_none());
    assert_eq!(
        admin_token_from(EnvValue::Present("  ".into()), "data", None, &fresh).err(),
        Some(config_error("ADMIN_TOKEN must not be empty when supplied"))
    );
    assert_eq!(
        admin_token_from(EnvValue::NotUnicode, "data", None, &fresh).err(),
        Some(config_error("ADMIN_TOKEN must contain valid UTF-8"))
    );
    let t = admin_token_from(EnvValue::NotPresent, "data", Some("persisted\n".into()), &fresh).unwrap();
    assert_eq!(t.token, "persisted");
    assert_eq!(t.source, SecretSource::Persisted);
    assert_eq!(
        admin_token_from(EnvValue::NotPresent, "data", Some("\n".into()), &fresh).err(),
        Some(config_error("persisted admin token is empty: data/admin-token"))
    );
    let t = admin_token_from(EnvValue::NotPresent, "data", None, &fresh).unwrap();
    assert_eq!(t.token, "ab".repeat(32));
    assert_eq!(t.source, SecretSource::Generated);
    assert_eq!(t.persist, Some(format!("{}\n", t.token)));
    let random = resolve_admin_token(EnvValue::NotPresent, "data", None).unwrap();
    assert_eq!(random.token.len(), 64);
    assert!(random.token.chars().all(|c| c.is_ascii_hexdigit()));
}

#[test]
fn encryption_key_is_base64_of_exactly_32_bytes() {
    let key = [7u8; 32];
    let text = base64::engine::general_purpose::STANDARD.encode(key);
    assert_eq!(decode_encryption_key(&text), Ok(key));
    assert_eq!(
        decode_encryption_key("not base64!"),
        Err(config_error("DATA_ENCRYPTION_KEY must be base64"))
    );
    assert_eq!(
        decode_encryption_key(&base64::engine::general_purpose::STANDARD.encode([1u8; 16])),
        Err(config_error("DATA_ENCRYPTION_KEY must decode to exactly 32 bytes"))
    );
    let fresh = [9u8; 32];
    let k = encryption_key_from(EnvValue::Present(text.clone()), "data", None, &fresh).unwrap();
    assert_eq!(k.key, key);
    assert_eq!(k.source, SecretSource::Supplied);
    let k = encryption_key_from(EnvValue::NotPresent, "data", Some(format!("{text}\n")), &fresh).unwrap();
    assert_eq!(k.key, key);
    assert_eq!(k.source, SecretSource::Persisted);
    assert_eq!(
        encryption_key_from(EnvValue::NotPresent, "data", Some("bad".into()), &fresh).err(),
        Some(config_error("persisted encryption key is invalid: data/encryption-key"))
    );
    let k = encryption_key_from(EnvValue::NotPresent, "data", None, &fresh).unwrap();
    assert_eq!(k.key, fresh);
    assert_eq!(k.source, SecretSource::Generated);
    assert_eq!(k.persist, Some(format!("{}\n", base64::engine::general_purpose::STANDARD.encode(fresh))));
    let generated = resolve_encryption_key(EnvValue::NotPresent, "data", None).unwrap();
    let written = generated.persist.clone().unwrap();
    assert_eq!(decode_encryption_key(written.trim_end()), Ok(generated.key));
}

#[test]
fn generated_secrets_are_reused_from_their_files() {
    let token = resolve_admin_token(EnvValue::NotPresent, "data", None).unwrap();
    let written = token.persist.unwrap();
    let again = resolve_admin_token(EnvValue::NotPresent, "data", Some(written)).unwrap();
    assert_eq!(again.token, token.token);
    assert_eq!(again.source, SecretSource::Persisted);
    let key = resolve_encryption_key(EnvValue::NotPresent, "data", None).unwrap();
    let written = key.persist.unwrap();
    let again = resolve_encryption_key(EnvValue::NotPresent, "data", Some(written)).unwrap();
    assert_eq!(again.key, key.key);
    assert_eq!(again.source, SecretSource::Persisted);
}

#[test]
fn config_reports_sources_and_trims_the_public_url() {
    let c = AppConfig::assemble(
        "sqlite:///app/data/q.db".into(),
        "tok".into(),
        SecretSource::Generated,
        [1u8; 32],
        SecretSource::Persisted,
        Some("https://example.test//".into()),
        None,
    );
    assert_eq!(c.public_url, "https://example.test");
    assert_eq!(c.build_sha, "development");
    assert_eq!(c.admin_token_source(), "generated");
    assert_eq!(c.encryption_key_source(), "persisted");
    assert_eq!(c.secret_directory(), "/app/data");
    let d = AppConfig::assemble("x".into(), "t".into(), SecretSource::Supplied, [0u8; 32], SecretSource::Supplied, None, Some("abc".into()));
    assert_eq!(d.public_url, "http://localhost:8080");
    assert_eq!(d.build_sha, "abc");
    assert_eq!(d.admin_token_source(), "supplied");
    assert_eq!(SecretSource::Persisted.as_str(), "persisted");
}

#[test]
fn listen_port_defaults_to_8080() {
    assert_eq!(listen_port(None), 8080);
    assert_eq!(listen_port(Some("9090".into())), 9090);
    assert_eq!(listen_port(Some("+81".into())), 81);
    assert_eq!(listen_port(Some("70000".into())), 8080);
    assert_eq!(listen_port(Some("abc".into())), 8080);
    assert_eq!(listen_port(Some("".into())), 8080);
}

#[test]
fn secrets_are_written_through_a_hidden_temporary_file() {
    let name = webhook_quiet_hours::config::temporary_secret_name(Some("admin-token"));
    assert!(name.starts_with(".admin-token."), "{name}");
    assert!(name.ends_with(".tmp"), "{name}");
    let digits = &name[".admin-token.".len()..name.len() - ".tmp".len()];
    assert_eq!(digits.len(), 16);
    assert!(digits.chars().all(|c| c.is_ascii_hexdigit() && !c.is_ascii_uppercase()));
    assert!(webhook_quiet_hours::config::temporary_secret_name(None).starts_with(".secret."));
    assert_ne!(
        webhook_quiet_hours::config::temporary_secret_name(Some("a")),
        webhook_quiet_hours::config::temporary_secret_name(Some("a"))
    );
}
