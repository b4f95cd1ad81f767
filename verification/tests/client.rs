use senders::b64;
use senders::client::api::{ApiError, UploadParams};
use senders::client::commands::{describe_expiry, download_keys, upload_keys};
use senders::client::crypto::{pbkdf2, random_bytes, FileKeys};
use senders::client::i18n::Lang;
use senders::client::transfer::{parse_link, secret_from_fragment, LinkError, Opener, Sealer, StreamFailure};
use senders::link::share_url;
use senders::wire::{FileParams, CHUNK_CIPHERTEXT_SIZE, CHUNK_SIZE, NONCE_PREFIX_LEN, SECRET_LEN};

#[test]
fn metadata_round_trips() {
    let secret = random_bytes(SECRET_LEN);
    let keys = FileKeys::derive(&secret).expect("valid secret length");
    let sealed = keys.seal_metadata(b"hello world").expect("seal");
    assert_eq!(keys.open_metadata(&sealed).expect("open"), b"hello world");
}

#[test]
fn tampered_metadata_fails_to_open() {
    let secret = random_bytes(SECRET_LEN);
    let keys = FileKeys::derive(&secret).expect("valid secret length");
    let mut sealed = keys.seal_metadata(b"hello world").expect("seal");
    let last = sealed.len() - 1;
    sealed[last] ^= 1;
    assert!(keys.open_metadata(&sealed).is_err());
}

#[test]
fn records_round_trip_and_reject_the_wrong_position() {
    let secret = random_bytes(SECRET_LEN);
    let keys = FileKeys::derive(&secret).expect("valid secret length");
    let prefix = random_bytes(NONCE_PREFIX_LEN);

    let sealed = keys.seal_record(&prefix, 0, true, b"a single record").expect("seal");
    assert_eq!(keys.open_record(&prefix, 0, true, &sealed).expect("open"), b"a single record");
    // Wrong counter, wrong final flag, and a different key must all fail.
    assert!(keys.open_record(&prefix, 1, true, &sealed).is_err());
    assert!(keys.open_record(&prefix, 0, false, &sealed).is_err());
    let other = FileKeys::derive(&random_bytes(SECRET_LEN)).expect("valid secret length");
    assert!(other.open_record(&prefix, 0, true, &sealed).is_err());
}

#[test]
fn password_derived_auth_replaces_the_link_derived_one() {
    let secret = random_bytes(SECRET_LEN);
    let link_derived = FileKeys::derive(&secret).expect("valid secret length").auth;
    let salt = random_bytes(16);
    let from_password = pbkdf2("correct horse battery staple", &salt, 1000).to_vec();
    let keys = FileKeys::derive(&secret).expect("valid secret length").with_auth(from_password.clone());
    assert_ne!(keys.auth, link_derived);
    assert_eq!(keys.auth, from_password);
}

#[test]
fn rejects_a_short_secret() {
    assert!(FileKeys::derive(&[0u8; SECRET_LEN - 1]).is_err());
}

#[test]
fn short_metadata_is_truncated_not_tampered() {
    let keys = FileKeys::derive(&[5u8; SECRET_LEN]).unwrap();
    assert_eq!(keys.open_metadata(&[0u8; 27]).unwrap_err().0, "metadata is truncated");
    assert_eq!(keys.open_metadata(&[0u8; 28]).unwrap_err().0, "failed to open metadata");
    assert_eq!(FileKeys::derive(&[0u8; 3]).unwrap_err().0, "secret must be 32 bytes");
}

#[test]
fn parses_a_full_url_and_a_bare_id() {
    let secret = [7u8; SECRET_LEN];
    let full = format!("https://send.example/d/abc123#{}", b64::encode(&secret));
    let (id, parsed) = parse_link(&full).expect("valid link");
    assert_eq!(id, "abc123");
    assert_eq!(parsed, secret);

    let bare = format!("abc123#{}", b64::encode(&secret));
    let (id, parsed) = parse_link(&bare).expect("valid link");
    assert_eq!(id, "abc123");
    assert_eq!(parsed, secret);
}

#[test]
fn rejects_links_missing_the_secret_or_id() {
    assert!(parse_link("abc123").is_err());
    assert!(parse_link("#not-base64url!!").is_err());
    assert!(parse_link(&format!("#{}", b64::encode(&[1u8; SECRET_LEN]))).is_err());
}

#[test]
fn a_share_url_parses_back_to_its_id_and_secret() {
    let secret = [42u8; SECRET_LEN];
    let url = share_url("https://send.example/", "AbC_-123", &secret);
    assert_eq!(parse_link(&url), Ok(("AbC_-123".to_string(), secret.to_vec())));
    assert_eq!(parse_link("x/#AAAA"), Err(LinkError::BadSecret));
    assert_eq!(parse_link(&format!("x/#{}", b64::encode(&secret))), Err(LinkError::NoId));
    assert_eq!(LinkError::NoFragment.message(), "the link is missing the secret after '#'");
}

#[test]
fn the_fragment_secret_is_read_with_or_without_its_hash() {
    let secret = [3u8; SECRET_LEN];
    let text = b64::encode(&secret);
    assert_eq!(secret_from_fragment(&format!("#{text}")), Some(secret.to_vec()));
    assert_eq!(secret_from_fragment(&text), Some(secret.to_vec()));
    assert_eq!(secret_from_fragment("#short"), None);
}

const INSTANT: u64 = 1_789_657_680;

#[test]
fn expiry_reads_as_an_instant_and_a_lifetime() {
    assert_eq!(describe_expiry(INSTANT, INSTANT - 7 * 86_400), "2026-09-17 15:08:00 UTC (in 7 d 0 h)");
    assert_eq!(describe_expiry(INSTANT, INSTANT - 5 * 3_600), "2026-09-17 15:08:00 UTC (in 5 h)");
    assert_eq!(describe_expiry(INSTANT, INSTANT - 90), "2026-09-17 15:08:00 UTC (in 1 min)");
}

#[test]
fn an_expiry_in_the_past_says_so_rather_than_underflowing() {
    assert_eq!(describe_expiry(INSTANT, INSTANT + 1), "2026-09-17 15:08:00 UTC (already expired)");
}

#[test]
fn an_expiry_beyond_the_calendar_reads_as_unix_time() {
    assert_eq!(describe_expiry(u64::MAX, 0), format!("unix time {} (in 213503982334601 d 7 h)", u64::MAX));
}

#[test]
fn language_tags_are_matched_by_primary_subtag() {
    assert_eq!(Lang::from_tags(&["de-DE", "en-US"]), Lang::De);
    assert_eq!(Lang::from_tags(&["de_AT"]), Lang::De);
    assert_eq!(Lang::from_tags(&["DE"]), Lang::De);
    assert_eq!(Lang::from_tags(&["en-GB", "de"]), Lang::En);
    assert_eq!(Lang::from_tags(&["fr-FR", "de-CH"]), Lang::De);
    assert_eq!(Lang::from_tags(&["deutsch"]), Lang::En);
    assert_eq!(Lang::from_tags(&[]), Lang::En);
}

#[test]
fn plurals_agree_in_both_languages() {
    assert_eq!(Lang::En.days(1), "1 day");
    assert_eq!(Lang::En.days(30), "30 days");
    assert_eq!(Lang::De.days(1), "1 Tag");
    assert_eq!(Lang::De.days(30), "30 Tage");
    assert_eq!(Lang::En.downloads(1), "1 download");
    assert_eq!(Lang::De.downloads(5), "5 Downloads");
}

#[test]
fn lifetimes_read_coarsely_in_both_languages() {
    assert_eq!(Lang::En.until(100, 100), "expired");
    assert_eq!(Lang::De.until(100, 200), "abgelaufen");
    assert_eq!(Lang::En.until(3 * 86_400 + 2 * 3_600, 0), "3 d 2 h");
    assert_eq!(Lang::De.until(5 * 3_600 + 59, 0), "5 Std.");
    assert_eq!(Lang::De.until(125, 0), "2 Min.");
    assert_eq!(Lang::De.footer_limits("2 GB", 30), "bis 2 GB · Aufbewahrung 1–30 Tage");
    assert_eq!(Lang::En.tag(), "en");
}

#[test]
fn api_errors_classify_their_status() {
    let missing = ApiError::from_response(410, "410 Gone", None);
    assert!(missing.is_missing());
    assert!(!missing.is_unauthorized());
    assert_eq!(missing.message, "request failed with status 410 Gone");
    let refused = ApiError::from_response(401, "401 Unauthorized", Some("wrong key".to_string()));
    assert!(refused.is_unauthorized());
    assert_eq!(refused.message, "wrong key");
    assert!(!ApiError::new(None, "offline".to_string()).is_missing());
}

#[test]
fn upload_headers_carry_only_what_is_set() {
    let params = UploadParams {
        metadata: "m".to_string(),
        auth_hash: "h".to_string(),
        nonce_prefix: "n".to_string(),
        auth_salt: None,
        expires_in: Some(86400),
        max_downloads: None,
    };
    assert_eq!(
        params.headers(),
        vec![
            ("x-senders-metadata", "m".to_string()),
            ("x-senders-auth-hash", "h".to_string()),
            ("x-senders-nonce-prefix", "n".to_string()),
            ("x-senders-expires-in", "86400".to_string()),
        ]
    );
}

#[test]
fn a_protected_share_needs_its_passphrase() {
    let secret = [1u8; SECRET_LEN];
    let salt = [2u8; 16];
    let params = FileParams {
        id: "AAAAAAAAAAAAAAAAAAAAAA".to_string(),
        has_password: true,
        auth_salt: Some(b64::encode(&salt)),
        kdf_iterations: 1000,
        expires_at: 0,
        downloads_remaining: 1,
    };
    assert_eq!(
        download_keys(&secret, &params, None).unwrap_err(),
        "this share requires a passphrase — pass --password"
    );
    let downloaded = download_keys(&secret, &params, Some("pw")).unwrap();
    let uploaded = upload_keys(&secret, Some("pw"), &salt, 1000).unwrap();
    assert_eq!(downloaded.auth, uploaded.auth);
    assert_eq!(downloaded.auth, pbkdf2("pw", &salt, 1000).to_vec());

    let mut unsalted = params.clone();
    unsalted.auth_salt = None;
    assert_eq!(
        download_keys(&secret, &unsalted, Some("pw")).unwrap_err(),
        "the server reported a password but sent no salt"
    );
    let mut short_salt = params.clone();
    short_salt.auth_salt = Some(b64::encode(&[2u8; 8]));
    assert_eq!(download_keys(&secret, &short_salt, Some("pw")).unwrap_err(), "the server's auth salt is malformed");
    assert_eq!(download_keys(&secret[..31], &params, Some("pw")).unwrap_err(), "secret must be 32 bytes");
}

/// Seal `plain` record by record, as the upload pipeline does.
fn seal_all(keys: &FileKeys, prefix: &[u8], plain: &[u8]) -> Vec<u8> {
    let mut sealer = Sealer::new(keys, prefix, plain.len() as u64);
    let mut out = Vec::new();
    let mut chunks = plain.chunks(CHUNK_SIZE);
    while !sealer.is_done() {
        let chunk = chunks.next().unwrap_or(&[]);
        out.extend_from_slice(&sealer.seal_next(keys, chunk));
    }
    out
}

/// Open `cipher` fed in pieces of `piece` bytes, as the download pipeline does.
fn open_all(keys: &FileKeys, prefix: &[u8], cipher: &[u8], piece: usize) -> Result<Vec<u8>, StreamFailure> {
    let mut opener = Opener::new(keys, prefix, cipher.len() as u64);
    let mut out = Vec::new();
    for part in cipher.chunks(piece) {
        out.extend_from_slice(&opener.push(keys, part)?);
    }
    out.extend_from_slice(&opener.finish(keys)?);
    Ok(out)
}

#[test]
fn a_sealed_body_opens_whatever_the_network_chunking() {
    let keys = FileKeys::derive(&[7u8; SECRET_LEN]).unwrap();
    let prefix = [9u8; NONCE_PREFIX_LEN];
    for len in [0usize, 1, CHUNK_SIZE - 1, CHUNK_SIZE, CHUNK_SIZE + 1, 2 * CHUNK_SIZE + 17] {
        let plain: Vec<u8> = (0..len).map(|i| (i % 251) as u8).collect();
        let cipher = seal_all(&keys, &prefix, &plain);
        assert_eq!(cipher.len() as u64, senders::wire::ciphertext_len(len as u64));
        for piece in [1000usize, CHUNK_CIPHERTEXT_SIZE, 3 * CHUNK_CIPHERTEXT_SIZE] {
            assert_eq!(open_all(&keys, &prefix, &cipher, piece), Ok(plain.clone()));
        }
    }
}

#[test]
fn truncated_or_reordered_bodies_are_refused() {
    let keys = FileKeys::derive(&[7u8; SECRET_LEN]).unwrap();
    let prefix = [9u8; NONCE_PREFIX_LEN];
    let plain: Vec<u8> = (0..2 * CHUNK_SIZE + 5).map(|i| (i % 13) as u8).collect();
    let cipher = seal_all(&keys, &prefix, &plain);

    // Dropping the last record: the body ends before its final record.
    let mut opener = Opener::new(&keys, &prefix, cipher.len() as u64);
    opener.push(&keys, &cipher[..2 * CHUNK_CIPHERTEXT_SIZE]).unwrap();
    let failure = opener.finish(&keys).unwrap_err();
    assert_eq!(failure, StreamFailure::Record(2));

    // Announcing fewer bytes turns an inner record into a "final" one.
    let short = &cipher[..CHUNK_CIPHERTEXT_SIZE];
    assert_eq!(open_all(&keys, &prefix, short, 4096), Err(StreamFailure::Record(0)));

    // Swapping the first two records.
    let mut swapped = cipher.clone();
    swapped[..CHUNK_CIPHERTEXT_SIZE].copy_from_slice(&cipher[CHUNK_CIPHERTEXT_SIZE..2 * CHUNK_CIPHERTEXT_SIZE]);
    swapped[CHUNK_CIPHERTEXT_SIZE..2 * CHUNK_CIPHERTEXT_SIZE].copy_from_slice(&cipher[..CHUNK_CIPHERTEXT_SIZE]);
    assert_eq!(open_all(&keys, &prefix, &swapped, 70000), Err(StreamFailure::Record(0)));

    // A stream that stops short of the announced length.
    let mut opener = Opener::new(&keys, &prefix, cipher.len() as u64);
    opener.push(&keys, &cipher[..CHUNK_CIPHERTEXT_SIZE]).unwrap();
    assert_eq!(opener.finish(&keys), Err(StreamFailure::EndedEarly { got: 1, total: 3 }));
    assert_eq!(
        StreamFailure::EndedEarly { got: 1, total: 3 }.message(),
        "download ended early: got 1 of 3 records"
    );
}
