use sha2::Digest;
use webhook_quiet_hours::error::AppError;
use webhook_quiet_hours::fingerprint::HeaderText;
use webhook_quiet_hours::web::{
    admin_token_digest, authorize_admin, bearer_token, is_fingerprinted_asset, retry_after_seconds,
    static_cache_control_value, static_response_policy,
};

fn header(v: &str) -> HeaderText {
    HeaderText::Text(v.to_owned())
}

#[test]
fn static_files_have_update_safe_cache_headers() {
    // What the static service answers for each path: a served file with its
    // content type, or the HTML shell as the SPA fallback.
    for (uri, content_type, expected_not_found, expected_cache) in [
        ("/assets/index-Ab12_cd3.js", "text/javascript", false, "public, max-age=31536000, immutable"),
        ("/assets/moon-bloom-480.webp", "image/webp", false, "public, max-age=86400"),
        ("/assets/missing-Ab12_cd3.js", "text/html", true, "no-cache"),
        ("/sw.js", "text/javascript", false, "no-cache"),
        ("/privacy", "text/html", false, "no-cache"),
        ("/missing-page", "text/html", true, "no-cache"),
    ] {
        let h = static_response_policy(uri, true, &header(content_type)).expect(uri);
        assert_eq!(h.not_found, expected_not_found, "{uri}");
        assert_eq!(h.cache_control, expected_cache, "{uri}");
    }
}

#[test]
fn failed_static_responses_are_left_alone() {
    assert!(static_response_policy("/assets/index-Ab12_cd3.js", false, &header("text/html")).is_none());
}

#[test]
fn shell_routes_and_unreadable_content_types() {
    for path in ["/", "/demo", "/privacy", "/terms"] {
        let h = static_response_policy(path, true, &header("text/html; charset=utf-8")).unwrap();
        assert!(!h.not_found, "{path}");
        assert_eq!(h.cache_control, "no-cache");
    }
    let h = static_response_policy("/assets/app-12345678.css", true, &HeaderText::Unreadable).unwrap();
    assert!(!h.not_found);
    assert_eq!(h.cache_control, "public, max-age=31536000, immutable");
}

#[test]
fn fingerprinted_asset_names() {
    assert!(is_fingerprinted_asset("/assets/index-Ab12_cd3.js"));
    assert!(is_fingerprinted_asset("/assets/nested/chunk-a1b2_c-4.js"));
    assert!(!is_fingerprinted_asset("/assets/nested/chunk-a-b_c-d1.min.js"));
    assert!(is_fingerprinted_asset("/assets/x-12345678.tar.gz") == false);
    assert!(!is_fingerprinted_asset("/assets/moon-bloom-480.webp"));
    assert!(!is_fingerprinted_asset("/assets/index-Ab12_cd3"));
    assert!(!is_fingerprinted_asset("/static/index-Ab12_cd3.js"));
    assert!(!is_fingerprinted_asset("/assets/index_Ab12_cd3.js"));
    assert!(!is_fingerprinted_asset("/assets/-Ab12cd3.js"));
    assert!(is_fingerprinted_asset("/assets/-Ab12cd34.js"));
    assert!(!is_fingerprinted_asset("/assets/index-Ab12.cd3.js"));
    assert!(!is_fingerprinted_asset("/assets/index-Ab12_cé3.js"));
    assert_eq!(static_cache_control_value("/assets/logo.svg"), "public, max-age=86400");
    assert_eq!(static_cache_control_value("/index.html"), "no-cache");
}

#[test]
fn retry_after_is_at_least_one_second() {
    assert_eq!(retry_after_seconds(Some(0)), 1);
    assert_eq!(retry_after_seconds(Some(1)), 1);
    assert_eq!(retry_after_seconds(Some(42)), 42);
    assert_eq!(retry_after_seconds(None), 1);
}

#[test]
fn admin_requests_need_the_configured_bearer_token() {
    let digest = admin_token_digest("test-token");
    let expected: [u8; 32] = sha2::Sha256::digest(b"test-token").into();
    assert_eq!(digest, expected);
    assert_eq!(authorize_admin(&header("Bearer test-token"), &digest), Ok(()));
    assert_eq!(authorize_admin(&header("Bearer wrong"), &digest), Err(AppError::Unauthorized));
    assert_eq!(authorize_admin(&header("bearer test-token"), &digest), Err(AppError::Unauthorized));
    assert_eq!(authorize_admin(&HeaderText::Absent, &digest), Err(AppError::Unauthorized));
    assert_eq!(authorize_admin(&HeaderText::Unreadable, &digest), Err(AppError::Unauthorized));
    // A missing header is the empty token, so an empty admin token admits it.
    let empty = admin_token_digest("");
    assert_eq!(authorize_admin(&HeaderText::Absent, &empty), Ok(()));
}

#[test]
fn bearer_token_strips_the_scheme_only() {
    assert_eq!(bearer_token(&header("Bearer abc def")), "abc def");
    assert_eq!(bearer_token(&header("Bearer ")), "");
    assert_eq!(bearer_token(&header("Basic abc")), "");
    assert_eq!(bearer_token(&HeaderText::Absent), "");
}
