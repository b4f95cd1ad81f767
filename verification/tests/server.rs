use base64::Engine as _;
use senders::b64;
use senders::server::api::{check_download_auth, check_id, check_owner, check_upload, claimed, file_params, live_record,
    new_record, UploadHeaders};
use senders::server::auth::{read_cookie, require, SessionSigner, SESSION_COOKIE};
use senders::server::config::{AuthMode, Config};
use senders::server::error::AppError;
use senders::server::meta::{Claim, FileRecord, MemoryMetaStore};
use senders::server::oidc::{authorize_email, extra_scopes, safe_next};
use senders::server::page::{content_security_policy, inline_scripts, render_index_html};
use senders::server::util::{is_valid_id, random_id, random_token, sha256};
use senders::server::api::{admit_download, admit_owner, authorize_download, change_password};
use senders::wire::SetPasswordRequest;
use senders::wire::{DEFAULT_EXPIRY_SECS, MAX_DOWNLOADS, MAX_EXPIRY_SECS, MIN_EXPIRY_SECS};

fn signer() -> SessionSigner {
    SessionSigner::new(Some("test-secret"), true)
}

fn session(exp: u64) -> Vec<u8> {
    let mut fields = serde_json::Map::new();
    fields.insert("sub".to_string(), serde_json::Value::from("user-1"));
    fields.insert("email".to_string(), serde_json::Value::from("a@b.c"));
    fields.insert("exp".to_string(), serde_json::Value::from(exp));
    serde_json::to_vec(&serde_json::Value::Object(fields)).unwrap()
}

#[test]
fn signed_sessions_round_trip() {
    let signer = signer();
    let token = signer.sign(&session(123));
    let decoded: serde_json::Value = serde_json::from_slice(&signer.verify(&token).unwrap()).unwrap();
    assert_eq!(decoded["sub"], "user-1");
    assert_eq!(decoded["exp"], 123);
}

#[test]
fn tampered_payloads_are_rejected() {
    let signer = signer();
    let token = signer.sign(&session(123));
    let (payload, tag) = token.split_once('.').unwrap();

    // Swap in a different subject but keep the genuine tag.
    let forged_payload = b64::encode(&session(999));
    assert!(signer.verify(&format!("{forged_payload}.{tag}")).is_none());
    // Flip the tag.
    assert!(signer.verify(&format!("{payload}.{}", b64::encode(&[0u8; 32]))).is_none());
    // A cookie signed by a different key is worthless here.
    let other = SessionSigner::new(Some("other-secret"), true);
    assert!(signer.verify(&other.sign(&session(123))).is_none());
}

#[test]
fn cookies_carry_hardening_attributes() {
    let value = signer().cookie(SESSION_COOKIE, "abc", Some(60));
    assert!(value.contains("HttpOnly"));
    assert!(value.contains("SameSite=Lax"));
    assert!(value.contains("Secure"));
    assert!(!SessionSigner::new(None, false).cookie("x", "y", Some(1)).contains("Secure"));
}

#[test]
fn cookie_parsing_picks_the_right_pair() {
    let headers = ["other=1; senders_session=abc.def; trailing=2"];
    assert_eq!(read_cookie(&headers, SESSION_COOKIE).as_deref(), Some("abc.def"));
    assert_eq!(read_cookie(&headers, "missing"), None);
}

#[test]
fn cookies_are_written_exactly() {
    assert_eq!(signer().cookie("a", "b", Some(60)), "a=b; Max-Age=60; Path=/; HttpOnly; SameSite=Lax; Secure");
    assert_eq!(SessionSigner::new(None, false).clear("a"), "a=; Max-Age=0; Path=/; HttpOnly; SameSite=Lax");
}

#[test]
fn a_token_without_a_separator_or_with_junk_is_refused() {
    let signer = signer();
    assert!(signer.verify("").is_none());
    assert!(signer.verify("abc").is_none());
    assert!(signer.verify("a.b.c").is_none());
    let token = signer.sign(b"");
    assert_eq!(signer.verify(&token), Some(Vec::new()));
}

#[test]
fn next_destinations_cannot_leave_the_origin() {
    assert_eq!(safe_next(Some("/d/abc".into())), "/d/abc");
    assert_eq!(safe_next(Some("//evil.example/x".into())), "/");
    assert_eq!(safe_next(Some("https://evil.example".into())), "/");
    assert_eq!(safe_next(None), "/");
    assert_eq!(safe_next(Some("/\\evil.example".into())), "/");
    assert_eq!(safe_next(Some("/\t/evil.example".into())), "/");
    assert_eq!(safe_next(Some("/d/a\\b".into())), "/d/a\\b");
}

fn domains(list: &[&str]) -> Vec<String> {
    list.iter().map(|d| d.to_string()).collect()
}

#[test]
fn domain_allow_list_requires_a_verified_matching_email() {
    let allowed = domains(&["example.com"]);
    assert!(authorize_email(&allowed, Some("a@example.com"), Some(true)).is_ok());
    // Case in the claim must not matter; the allow-list is lowercased.
    assert!(authorize_email(&allowed, Some("A@Example.COM"), Some(true)).is_ok());
    assert!(authorize_email(&allowed, Some("a@example.com"), Some(false)).is_err());
    assert!(authorize_email(&allowed, Some("a@example.com"), None).is_err());
    assert!(authorize_email(&allowed, Some("a@evil.com"), Some(true)).is_err());
    // A lookalike suffix must not satisfy an exact-domain allow-list.
    assert!(authorize_email(&allowed, Some("a@notexample.com"), Some(true)).is_err());
    assert!(authorize_email(&allowed, None, Some(true)).is_err());
}

#[test]
fn an_empty_allow_list_admits_everyone() {
    assert!(authorize_email(&[], None, None).is_ok());
    assert!(authorize_email(&[], Some("anyone@anywhere"), Some(false)).is_ok());
}

#[test]
fn scopes_drop_openid_and_blanks() {
    assert_eq!(extra_scopes("email,profile"), vec!["email".to_string(), "profile".to_string()]);
    assert_eq!(extra_scopes(" openid , email,, "), vec!["email".to_string()]);
}

#[test]
fn expiry_is_clamped_to_one_to_thirty_days() {
    let cfg = Config::default();
    assert_eq!(cfg.clamp_expiry(Some(0)), MIN_EXPIRY_SECS);
    assert_eq!(cfg.clamp_expiry(Some(u64::MAX)), MAX_EXPIRY_SECS);
    assert_eq!(cfg.clamp_expiry(None), DEFAULT_EXPIRY_SECS);
    assert_eq!(cfg.clamp_expiry(Some(7 * 24 * 3600)), 7 * 24 * 3600);
}

#[test]
fn download_budget_is_clamped_and_defaults_to_burn_after_reading() {
    let cfg = Config::default();
    assert_eq!(cfg.clamp_downloads(None), 1);
    assert_eq!(cfg.clamp_downloads(Some(0)), 1);
    assert_eq!(cfg.clamp_downloads(Some(u32::MAX)), MAX_DOWNLOADS);
}

#[test]
fn auth_mode_requires_oidc_settings() {
    let mut cfg = Config::default();
    cfg.auth_mode = AuthMode::Upload;
    assert!(cfg.validate().is_err());
    cfg.oidc_issuer = Some("https://idp.example".into());
    cfg.oidc_client_id = Some("senders".into());
    assert!(cfg.validate().is_ok());
}

#[test]
fn secret_files_lose_their_trailing_newline_and_may_not_be_empty() {
    let mut cfg = Config::default();
    assert!(cfg.load_secret_files(None, Some(("/run/secret", "s3cret\n"))).is_ok());
    assert_eq!(cfg.session_secret.as_deref(), Some("s3cret"));
    let err = cfg.load_secret_files(Some(("/run/empty", "\r\n")), None).unwrap_err();
    assert_eq!(err, "the secret file /run/empty is empty");
}

#[test]
fn inline_scripts_are_found_and_external_ones_ignored() {
    let html = r#"<html><head>
            <script src="/app.js"></script>
            <script type="module">import init from '/a.js'; await init();</script>
            <script>  </script>
            </head></html>"#;
    let found = inline_scripts(html);
    assert_eq!(found.len(), 1, "only the non-empty inline script counts");
    assert!(found[0].contains("import init"));
}

#[test]
fn the_policy_pins_the_shipped_bootstrap_script() {
    let html = "<script type=\"module\">boot();</script>";
    let policy = content_security_policy(Some(html));
    assert!(policy.contains("'sha256-"), "the inline script must be pinned by hash");
    assert!(!policy.contains("'unsafe-inline'"), "never fall back to unsafe-inline");
    let other = content_security_policy(Some("<script type=\"module\">boot2();</script>"));
    assert_ne!(policy, other);
}

#[test]
fn the_policy_locks_down_the_dangerous_directives() {
    let policy = content_security_policy(None);
    for directive in [
        "default-src 'self'",
        "connect-src 'self'",
        "object-src 'none'",
        "base-uri 'none'",
        "frame-ancestors 'none'",
    ] {
        assert!(policy.contains(directive), "missing {directive}");
    }
}

#[test]
fn the_policy_pins_the_sha256_of_the_script_in_standard_base64() {
    // SHA-256("boot();") in padded standard base64.
    let policy = content_security_policy(Some("<script>boot();</script>"));
    let digest = sha256(b"boot();");
    let mut expected = String::from("'sha256-");
    expected.push_str(&base64_standard(&digest));
    expected.push('\'');
    assert!(policy.contains(&expected));
}

fn base64_standard(bytes: &[u8]) -> String {
    base64::engine::general_purpose::STANDARD.encode(bytes)
}

#[test]
fn render_index_html_substitutes_every_placeholder() {
    let html = r#"<meta property="og:url" content="__PUBLIC_URL__/" />
            <meta property="og:image" content="__PUBLIC_URL__/icons/icon-512.png" />"#;
    let rendered = render_index_html(html, "https://senders.example.com");
    assert!(!rendered.contains("__PUBLIC_URL__"));
    assert!(rendered.contains(r#"content="https://senders.example.com/""#));
    assert!(rendered.contains("https://senders.example.com/icons/icon-512.png"));
}

#[test]
fn render_index_html_strips_a_trailing_slash_from_public_url() {
    let rendered = render_index_html("__PUBLIC_URL__/icons/x.png", "https://example.com/");
    assert_eq!(rendered, "https://example.com/icons/x.png");
}

#[test]
fn render_index_html_is_a_no_op_without_the_placeholder() {
    let html = "<html><head></head></html>";
    assert_eq!(render_index_html(html, "https://example.com"), html);
}

#[test]
fn generated_ids_are_accepted() {
    for _ in 0..64 {
        assert!(is_valid_id(&random_id()));
    }
}

#[test]
fn traversal_and_junk_ids_are_rejected() {
    for bad in ["", "..", "../../etc/passwd", "short", &"a".repeat(23), "aaaaaaaaaaaaaaaaaaaaa/"] {
        assert!(!is_valid_id(bad), "should reject {bad:?}");
    }
}

#[test]
fn tokens_are_43_url_safe_characters() {
    let token = random_token();
    assert_eq!(token.len(), 43);
    assert!(token.chars().all(|c| c.is_ascii_alphanumeric() || c == '-' || c == '_'));
}

fn record(id: &str, max_downloads: u32) -> FileRecord {
    let key = [9u8; 32];
    FileRecord {
        id: id.to_string(),
        metadata: b64::encode(b"sealed"),
        nonce_prefix: b64::encode(&[1u8; 7]),
        auth_hash: b64::encode(&sha256(&key)),
        auth_salt: None,
        owner_hash: b64::encode(&sha256(b"owner-token")),
        size: 300,
        downloads: 0,
        max_downloads,
        created_at: 1000,
        expires_at: 5000,
        owner_subject: None,
    }
}

#[test]
fn the_download_budget_is_enforced_exactly_by_the_store() {
    let mut store = MemoryMetaStore::new();
    let id = "AAAAAAAAAAAAAAAAAAAAAA";
    store.put(&record(id, 3));
    assert_eq!(store.claim_download(id), Claim::Granted { remaining: 2, last: false });
    assert_eq!(store.claim_download(id), Claim::Granted { remaining: 1, last: false });
    assert_eq!(store.claim_download(id), Claim::Granted { remaining: 0, last: true });
    assert_eq!(store.claim_download(id), Claim::Exhausted);
    assert_eq!(store.claim_download("BBBBBBBBBBBBBBBBBBBBBB"), Claim::NotFound);
    assert!(matches!(claimed(Claim::Exhausted), Err(AppError::Exhausted)));
    assert!(matches!(claimed(Claim::Granted { remaining: 0, last: true }), Ok(true)));
}

#[test]
fn the_store_forgets_and_reaps() {
    let mut store = MemoryMetaStore::new();
    store.put(&record("AAAAAAAAAAAAAAAAAAAAAA", 1));
    store.put(&record("BBBBBBBBBBBBBBBBBBBBBB", 1));
    assert_eq!(store.expired(4999, 10).len(), 0);
    assert_eq!(store.expired(5000, 10).len(), 2);
    assert_eq!(store.expired(5000, 1).len(), 1);
    store.delete("AAAAAAAAAAAAAAAAAAAAAA");
    assert!(store.get("AAAAAAAAAAAAAAAAAAAAAA").is_none());
    assert!(store.set_auth("BBBBBBBBBBBBBBBBBBBBBB", "hash", Some("salt")));
    assert_eq!(store.get("BBBBBBBBBBBBBBBBBBBBBB").unwrap().auth_salt.as_deref(), Some("salt"));
    assert!(!store.set_auth("AAAAAAAAAAAAAAAAAAAAAA", "hash", None));
}

#[test]
fn the_wrong_download_key_is_rejected() {
    let rec = record("AAAAAAAAAAAAAAAAAAAAAA", 1);
    let good = format!("Bearer {}", b64::encode(&[9u8; 32]));
    let bad = format!("Bearer {}", b64::encode(&[8u8; 32]));
    assert!(check_download_auth(Some(good.as_str()), &rec).is_ok());
    assert!(matches!(check_download_auth(Some(bad.as_str()), &rec), Err(AppError::Unauthorized)));
    assert!(matches!(check_download_auth(None, &rec), Err(AppError::Unauthorized)));
    assert!(matches!(check_download_auth(Some("Basic abc"), &rec), Err(AppError::Unauthorized)));
    let mut broken = record("AAAAAAAAAAAAAAAAAAAAAA", 1);
    broken.auth_hash = "!!".to_string();
    assert!(matches!(check_download_auth(Some(good.as_str()), &broken), Err(AppError::Internal(_))));
}

#[test]
fn the_owner_token_is_compared_as_presented() {
    let rec = record("AAAAAAAAAAAAAAAAAAAAAA", 1);
    assert!(check_owner(Some(" owner-token "), &rec).is_ok());
    assert!(matches!(check_owner(Some("someone-else"), &rec), Err(AppError::Unauthorized)));
    assert!(matches!(check_owner(None, &rec), Err(AppError::Unauthorized)));
}

#[test]
fn expired_and_malformed_shares_read_as_missing() {
    assert!(matches!(check_id("../../etc/passwd"), Err(AppError::NotFound)));
    assert!(check_id("AAAAAAAAAAAAAAAAAAAAAA").is_ok());
    assert!(matches!(live_record(Some(record("AAAAAAAAAAAAAAAAAAAAAA", 1)), 5000), Err(AppError::NotFound)));
    assert!(live_record(Some(record("AAAAAAAAAAAAAAAAAAAAAA", 1)), 4999).is_ok());
    assert!(matches!(live_record(None, 0), Err(AppError::NotFound)));
    let mut spent = record("AAAAAAAAAAAAAAAAAAAAAA", 1);
    spent.downloads = 1;
    assert!(matches!(file_params(&spent), Err(AppError::Exhausted)));
}

#[test]
fn uploads_are_validated_and_clamped() {
    let cfg = Config::default();
    let metadata = b64::encode(b"sealed metadata");
    let auth_hash = b64::encode(&[3u8; 32]);
    let prefix = b64::encode(&[4u8; 7]);
    let mut headers = UploadHeaders {
        metadata: Some(metadata.as_str()),
        auth_hash: Some(auth_hash.as_str()),
        nonce_prefix: Some(prefix.as_str()),
        auth_salt: None,
        expires_in: Some("31536000"),
        max_downloads: Some("0"),
    };
    let request = check_upload(&cfg, &headers).unwrap();
    assert_eq!(request.expires_in, MAX_EXPIRY_SECS);
    assert_eq!(request.max_downloads, 1);
    let rec = new_record(request, "AAAAAAAAAAAAAAAAAAAAAA".to_string(), "owner-token", 42, 1000, None);
    assert_eq!(rec.expires_at, 1000 + MAX_EXPIRY_SECS);
    assert!(check_owner(Some("owner-token"), &rec).is_ok());
    assert_eq!(file_params(&rec).unwrap().downloads_remaining, 1);

    headers.metadata = None;
    match check_upload(&cfg, &headers) {
        Err(AppError::BadRequest(m)) => assert_eq!(m, "missing x-senders-metadata header"),
        _ => panic!("a missing metadata header must be refused"),
    }
    headers.metadata = Some(metadata.as_str());
    headers.auth_hash = Some("short");
    match check_upload(&cfg, &headers) {
        Err(AppError::BadRequest(m)) => assert_eq!(m, "x-senders-auth-hash must be 32 base64url-encoded bytes"),
        _ => panic!("a malformed auth hash must be refused"),
    }
    headers.auth_hash = Some(auth_hash.as_str());
    headers.expires_in = Some("soon");
    match check_upload(&cfg, &headers) {
        Err(AppError::BadRequest(m)) => assert_eq!(m, "x-senders-expires-in must be a number"),
        _ => panic!("a non-numeric expiry must be refused"),
    }
}

#[test]
fn login_modes_gate_the_right_routes() {
    let mut cfg = Config::default();
    assert!(require(&cfg, None, AuthMode::Upload).is_ok());
    cfg.auth_mode = AuthMode::Upload;
    assert!(matches!(require(&cfg, None, AuthMode::Upload), Err(AppError::Unauthorized)));
    assert!(require(&cfg, None, AuthMode::All).is_ok());
    cfg.auth_mode = AuthMode::All;
    assert!(matches!(require(&cfg, None, AuthMode::All), Err(AppError::Unauthorized)));
}

#[test]
fn a_refused_download_spends_nothing_and_a_granted_one_spends_one() {
    let mut store = MemoryMetaStore::new();
    let id = "AAAAAAAAAAAAAAAAAAAAAA";
    store.put(&record(id, 2));
    let wrong = format!("Bearer {}", b64::encode(&[8u8; 32]));
    assert!(matches!(authorize_download(&mut store, id, Some(wrong.as_str()), 100), Err(AppError::Unauthorized)));
    assert_eq!(store.get(id).unwrap().downloads, 0);
    let right = format!("Bearer {}", b64::encode(&[9u8; 32]));
    let (_, last) = authorize_download(&mut store, id, Some(right.as_str()), 100).unwrap();
    assert!(!last);
    let (_, last) = authorize_download(&mut store, id, Some(right.as_str()), 100).unwrap();
    assert!(last);
    assert!(matches!(authorize_download(&mut store, id, Some(right.as_str()), 100), Err(AppError::Exhausted)));
    // Expired or malformed shares read as missing.
    assert!(matches!(authorize_download(&mut store, id, Some(right.as_str()), 5000), Err(AppError::NotFound)));
    assert!(matches!(authorize_download(&mut store, "../x", Some(right.as_str()), 100), Err(AppError::NotFound)));
}

#[test]
fn the_owner_can_add_and_clear_a_passphrase() {
    let mut store = MemoryMetaStore::new();
    let id = "AAAAAAAAAAAAAAAAAAAAAA";
    store.put(&record(id, 2));
    let salt = b64::encode(&[5u8; 16]);
    let request = SetPasswordRequest { auth_hash: b64::encode(&[6u8; 32]), auth_salt: Some(salt.clone()) };
    assert!(matches!(change_password(&mut store, id, Some("intruder"), &request, 100), Err(AppError::Unauthorized)));
    assert!(store.get(id).unwrap().auth_salt.is_none());
    change_password(&mut store, id, Some("owner-token"), &request, 100).unwrap();
    assert_eq!(store.get(id).unwrap().auth_salt, Some(salt));
    let cleared = SetPasswordRequest { auth_hash: b64::encode(&[7u8; 32]), auth_salt: None };
    change_password(&mut store, id, Some("owner-token"), &cleared, 100).unwrap();
    assert!(!store.get(id).unwrap().has_password());
    let malformed = SetPasswordRequest { auth_hash: "short".to_string(), auth_salt: None };
    match change_password(&mut store, id, Some("owner-token"), &malformed, 100) {
        Err(AppError::BadRequest(m)) => assert_eq!(m, "auth_hash must be 32 base64url-encoded bytes"),
        _ => panic!("malformed passphrase material must be refused"),
    }
}

#[test]
fn secret_files_are_read_and_their_trailing_newline_stripped() {
    let mut cfg = Config::default();
    assert_eq!(cfg.session_secret, None, "not read until load_secret_files");
    cfg.load_secret_files(None, Some(("/run/secrets/session-secret", "s3cret\n"))).unwrap();
    assert_eq!(cfg.session_secret.as_deref(), Some("s3cret"));
}

#[test]
fn an_empty_secret_file_is_an_unpopulated_mount_not_an_empty_secret() {
    let mut cfg = Config::default();
    assert!(cfg.load_secret_files(None, Some(("/run/secrets/empty-secret", "\n"))).is_err());
}

fn upload_headers<'a>(metadata: &'a str, auth_hash: &'a str, prefix: &'a str) -> UploadHeaders<'a> {
    UploadHeaders {
        metadata: Some(metadata),
        auth_hash: Some(auth_hash),
        nonce_prefix: Some(prefix),
        auth_salt: None,
        expires_in: None,
        max_downloads: None,
    }
}

#[test]
fn malformed_ids_cannot_escape_the_blob_directory() {
    for id in ["..", "%2e%2e%2f%2e%2e%2fetc%2fpasswd", "short", "aaaaaaaaaaaaaaaaaaaaaa/x"] {
        assert!(matches!(check_id(id), Err(AppError::NotFound)), "id {id:?} must be refused");
    }
}

#[test]
fn uploads_missing_required_parameters_are_refused() {
    let cfg = Config::default();
    let metadata = b64::encode(b"pretend this is sealed metadata");
    let auth_hash = b64::encode(&sha256(&[7u8; 32]));
    let prefix = b64::encode(&[3u8; 7]);
    let short_prefix = b64::encode(&[0u8; 3]);
    let short_hash = b64::encode(&[0u8; 8]);

    let mut no_metadata = upload_headers(&metadata, &auth_hash, &prefix);
    no_metadata.metadata = None;
    let bad = [
        no_metadata,
        upload_headers(&metadata, &auth_hash, &short_prefix),
        upload_headers(&metadata, &short_hash, &prefix),
    ];
    for headers in bad {
        assert!(matches!(check_upload(&cfg, &headers), Err(AppError::BadRequest(_))));
    }
    assert!(check_upload(&cfg, &upload_headers(&metadata, &auth_hash, &prefix)).is_ok());
}

#[test]
fn requested_expiry_is_clamped_into_the_one_to_thirty_day_window() {
    let cfg = Config::default();
    let metadata = b64::encode(b"pretend this is sealed metadata");
    let auth_hash = b64::encode(&sha256(&[7u8; 32]));
    let prefix = b64::encode(&[3u8; 7]);
    for (requested, expected_days) in [(0u64, 1u64), (7 * 86_400, 7), (365 * 86_400, 30)] {
        let asked = requested.to_string();
        let mut headers = upload_headers(&metadata, &auth_hash, &prefix);
        headers.expires_in = Some(asked.as_str());
        let request = check_upload(&cfg, &headers).unwrap();
        let rec = new_record(request, random_id(), "owner-token", 1, 1_000, None);
        assert_eq!(rec.expires_at - rec.created_at, expected_days * 86_400, "requested {requested}s");
    }
}

#[test]
fn malformed_passphrase_material_is_refused() {
    let mut store = MemoryMetaStore::new();
    let id = "AAAAAAAAAAAAAAAAAAAAAA";
    store.put(&record(id, 5));
    let good_hash = b64::encode(&sha256(&[9u8; 32]));
    for request in [
        SetPasswordRequest { auth_hash: b64::encode(&[1u8; 8]), auth_salt: None },
        SetPasswordRequest { auth_hash: good_hash.clone(), auth_salt: Some(b64::encode(&[1u8; 3])) },
    ] {
        assert!(matches!(
            change_password(&mut store, id, Some("owner-token"), &request, 100),
            Err(AppError::BadRequest(_))
        ));
    }
    assert_eq!(store.get(id).unwrap().auth_hash, good_hash, "a refused change leaves the record alone");
}

#[test]
fn refused_requests_get_the_error_of_the_check_they_fail() {
    let rec = record("AAAAAAAAAAAAAAAAAAAAAA", 1);
    let good = format!("Bearer {}", b64::encode(&[9u8; 32]));
    let bad = format!("Bearer {}", b64::encode(&[8u8; 32]));
    assert!(admit_download(Some(record("AAAAAAAAAAAAAAAAAAAAAA", 1)), Some(good.as_str()), 100).is_ok());
    assert!(matches!(admit_download(Some(record("AAAAAAAAAAAAAAAAAAAAAA", 1)), Some(bad.as_str()), 100),
        Err(AppError::Unauthorized)));
    assert!(matches!(admit_download(Some(rec), Some(good.as_str()), 5000), Err(AppError::NotFound)));
    assert!(matches!(admit_download(None, Some(good.as_str()), 100), Err(AppError::NotFound)));
    assert!(admit_owner(Some(record("AAAAAAAAAAAAAAAAAAAAAA", 1)), Some("owner-token"), 100).is_ok());
    assert!(matches!(admit_owner(Some(record("AAAAAAAAAAAAAAAAAAAAAA", 1)), Some("intruder"), 100),
        Err(AppError::Unauthorized)));
    assert!(matches!(admit_owner(None, Some("owner-token"), 100), Err(AppError::NotFound)));

    let mut store = MemoryMetaStore::new();
    let id = "AAAAAAAAAAAAAAAAAAAAAA";
    store.put(&record(id, 1));
    let bad_salt = SetPasswordRequest { auth_hash: b64::encode(&[6u8; 32]), auth_salt: Some(b64::encode(&[1u8; 3])) };
    match change_password(&mut store, id, Some("owner-token"), &bad_salt, 100) {
        Err(AppError::BadRequest(m)) => assert_eq!(m, "auth_salt must be 16 base64url-encoded bytes"),
        _ => panic!("a short salt must be refused"),
    }
}

#[test]
fn the_policy_never_allows_unsafe_inline() {
    let page = "<script>boot()</script><script src=\"x.js\"></script>";
    let policy = content_security_policy(Some(page));
    assert!(!policy.contains("'unsafe-inline'"));
    assert!(policy.contains("default-src 'self'"));
    assert!(policy.contains("object-src 'none'"));
}
