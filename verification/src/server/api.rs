//! The rules of the file API. Everything here operates on opaque ciphertext:
//! the server can tell how big a file is, when it expires and how many
//! downloads are left; it cannot read the file, its name, or its type.
//!
//! Each function is one decision a request handler makes, on the values the
//! request and the stores handed it.
use vstd::prelude::*;
use crate::b64::{self, b64url_decoded};
use crate::primitives::{b64url_text, is_b64url_char, sha256_digest};
use crate::server::config::Config;
use crate::server::error::AppError;
use crate::server::meta::{after_claim, claim_outcome, clone_opt, opt_view, Claim, FileRecord, FileRecordView, MetaStore};
use crate::server::util::{self, valid_id};
use crate::text::{chars_of, decimal, matches_at, occurs_at, parsed_unsigned, parse_unsigned, push_decimal,
    string_of, trim_bounds, trim_ws};
use crate::wire::{FileParams, MetadataResponse, OwnerInfo, SetPasswordRequest, UploadResponse, AUTH_SALT_LEN,
    NONCE_PREFIX_LEN, PBKDF2_ITERATIONS};

verus! {

broadcast use vstd::string::group_string_axioms;

/// Upper bound on the encrypted-metadata blob, in bytes. A filename plus MIME
/// type is a few hundred bytes; this is generous while keeping the field from
/// becoming free storage.
pub const MAX_METADATA_LEN: usize = 4096;

/// Header carrying the owner token on owner-only routes.
pub const OWNER_HEADER: &'static str = "x-senders-owner";

/// The message for a header that is absent.
pub open spec fn missing_header(name: Seq<char>) -> Seq<char> {
    "missing "@ + name + " header"@
}

/// The message for a header that is not `len` bytes of base64url.
pub open spec fn not_b64_of_len(name: Seq<char>, len: nat) -> Seq<char> {
    name + " must be "@ + decimal(len) + " base64url-encoded bytes"@
}

/// The message for a header that is not a number.
pub open spec fn not_a_number(name: Seq<char>) -> Seq<char> {
    name + " must be a number"@
}

/// `e` is a malformed-request error carrying `msg`.
pub open spec fn is_bad_request(e: AppError, msg: Seq<char>) -> bool {
    match e {
        AppError::BadRequest(m) => m@ == msg,
        _ => false,
    }
}

/// `text` is the base64url encoding of exactly `len` bytes.
pub open spec fn b64_of_len(text: Seq<char>, len: nat) -> bool {
    b64url_decoded(text) matches Some(b) && b.len() == len
}

/// Reject ids that are not what the server issues, as if no such file
/// existed.
pub fn check_id(id: &str) -> (outcome: Result<(), AppError>)
    ensures
        outcome is Ok <==> valid_id(id@),
        outcome matches Err(e) ==> e is NotFound,
{
    if util::is_valid_id(id) {
        Ok(())
    } else {
        Err(AppError::NotFound)
    }
}

/// Decode `text` as exactly `LEN` bytes, as `b64_of_len` says.
fn decodes_to_len<const LEN: usize>(text: &str) -> (ok: bool)
    ensures
        ok == b64_of_len(text@, LEN as nat),
{
    let decoded = b64::decode_array::<LEN>(text);
    proof {
        if exists|b: Seq<u8>| #[trigger] b64url_text(b) == text@ {
            let c = choose|b: Seq<u8>| #[trigger] b64url_text(b) == text@;
            if decoded is Some {
                b64::lemma_text_injective(c, decoded->0@);
            }
        }
    }
    decoded.is_some()
}

/// A header that must decode to exactly `LEN` bytes of base64url, as sent.
pub fn required_b64<const LEN: usize>(raw: Option<&str>, name: &str) -> (value: Result<String, AppError>)
    ensures
        raw is None ==> value is Err && is_bad_request(value->Err_0, missing_header(name@)),
        raw is Some ==> (value is Ok <==> b64_of_len(raw->0@, LEN as nat)),
        raw is Some && value is Ok ==> value->Ok_0@ == raw->0@,
        raw is Some && value is Err ==> is_bad_request(value->Err_0, not_b64_of_len(name@, LEN as nat)),
{
    let text = match raw {
        Some(t) => t,
        None => {
            let mut m = "missing ".to_owned();
            m.append(name);
            m.append(" header");
            return Err(AppError::BadRequest(m));
        },
    };
    if !decodes_to_len::<LEN>(text) {
        let mut m = name.to_owned();
        m.append(" must be ");
        push_decimal(&mut m, LEN as u64);
        m.append(" base64url-encoded bytes");
        return Err(AppError::BadRequest(m));
    }
    Ok(text.to_owned())
}

/// An optional numeric header no larger than `max`, as `str::parse` reads
/// unsigned integers.
pub fn optional_number(raw: Option<&str>, name: &str, max: u64) -> (value: Result<Option<u64>, AppError>)
    ensures
        raw is None ==> value == Ok::<Option<u64>, AppError>(None),
        raw is Some && parsed_unsigned(raw->0@, max as nat) is Some
            ==> value == Ok::<Option<u64>, AppError>(Some(parsed_unsigned(raw->0@, max as nat)->0 as u64)),
        raw is Some && parsed_unsigned(raw->0@, max as nat) is None
            ==> value is Err && is_bad_request(value->Err_0, not_a_number(name@)),
{
    match raw {
        None => Ok(None),
        Some(t) => match parse_unsigned(t, max) {
            Some(n) => Ok(Some(n)),
            None => {
                let mut m = name.to_owned();
                m.append(" must be a number");
                Err(AppError::BadRequest(m))
            },
        },
    }
}

/// A looked-up record, treating an expired-but-not-yet-reaped file as gone.
pub fn live_record(found: Option<FileRecord>, now: u64) -> (record: Result<FileRecord, AppError>)
    ensures
        record is Ok <==> (found matches Some(r) && r.expires_at > now),
        record matches Ok(r) ==> found == Some(r),
        record matches Err(e) ==> e is NotFound,
{
    match found {
        Some(r) => if r.expires_at <= now { Err(AppError::NotFound) } else { Ok(r) },
        None => Err(AppError::NotFound),
    }
}

/// The text of an `Authorization: Bearer <key>` header's key, trimmed.
pub open spec fn bearer_text(header: Seq<char>) -> Option<Seq<char>> {
    if matches_at(header, "Bearer "@, 0) {
        Some(trim_ws(header.subrange("Bearer "@.len() as int, header.len() as int)))
    } else {
        None
    }
}

/// The download key an `Authorization` header presents, if it holds one.
pub open spec fn presented_download_key(header: Option<Seq<char>>) -> Option<Seq<u8>> {
    match header {
        Some(h) => match bearer_text(h) {
            Some(t) => b64url_decoded(t),
            None => None,
        },
        None => None,
    }
}

/// The download key an upload registered authenticates its downloads: a
/// record whose auth hash is the base64url SHA-256 of `key` accepts exactly
/// the `Authorization: Bearer <base64url(key)>` that the uploader's keys
/// produce.
pub proof fn lemma_registered_key_authenticates(key: Seq<u8>)
    ensures
        presented_download_key(Some("Bearer "@ + b64url_text(key))) == Some(key),
        b64url_decoded(b64url_text(sha256_digest(key))) == Some(sha256_digest(key)),
{
    reveal_strlit("Bearer ");
    let t = b64url_text(key);
    let h = "Bearer "@ + t;
    assert(h.subrange(0, 7) =~= "Bearer "@);
    assert(h.subrange(7, h.len() as int) =~= t);
    b64::lemma_text_shape(key);
    assert(trim_ws(t) == t) by {
        if t.len() > 0 {
            assert(is_b64url_char(t[0]));
            assert(is_b64url_char(t.last()));
        }
    }
    b64::lemma_decode_encoding(key);
    b64::lemma_decode_encoding(sha256_digest(key));
}

/// The text of a header with surrounding whitespace removed.
fn trimmed(text: &str) -> (t: String)
    ensures
        t@ == trim_ws(text@),
{
    let chars = chars_of(text);
    let (a, b) = trim_bounds(chars.as_slice());
    string_of(&chars.as_slice()[a..b])
}

/// The key text after `Bearer `, as `bearer_text` says.
fn bearer_of(header: &str) -> (t: Option<String>)
    ensures
        t matches Some(k) ==> bearer_text(header@) == Some(k@),
        t is None ==> bearer_text(header@) is None,
{
    let chars = chars_of(header);
    let prefix = chars_of("Bearer ");
    if !occurs_at(chars.as_slice(), prefix.as_slice(), 0) {
        return None;
    }
    let rest = string_of(&chars.as_slice()[prefix.len()..chars.len()]);
    Some(trimmed(rest.as_str()))
}

/// Verify the bearer download key against the stored hash. The server holds
/// only a SHA-256 digest, so a dump of the metadata store does not let an
/// attacker authenticate as a downloader. A key that is missing, not
/// base64url, or of the wrong digest is refused; a stored hash that is not
/// base64url is the server's own fault.
pub fn check_download_auth(authorization: Option<&str>, record: &FileRecord) -> (outcome: Result<(), AppError>)
    ensures
        outcome is Ok <==> (presented_download_key(opt_str(authorization)) matches Some(k)
            && b64url_decoded(record.auth_hash@) == Some(sha256_digest(k))),
        outcome matches Err(e) ==> (e is Internal <==> (presented_download_key(opt_str(authorization)) is Some
            && b64url_decoded(record.auth_hash@) is None)),
        outcome matches Err(e) ==> e is Internal || e is Unauthorized,
{
    let header = match authorization {
        Some(h) => h,
        None => return Err(AppError::Unauthorized),
    };
    let presented = match bearer_of(header) {
        Some(t) => t,
        None => return Err(AppError::Unauthorized),
    };
    let key = match b64::decode(presented.as_str()) {
        Some(k) => k,
        None => return Err(AppError::Unauthorized),
    };
    let expected = match b64::decode(record.auth_hash.as_str()) {
        Some(e) => e,
        None => return Err(AppError::Internal(malformed_hash("auth", record.id.as_str()))),
    };
    if util::ct_eq(&util::sha256(key.as_slice()), expected.as_slice()) {
        Ok(())
    } else {
        Err(AppError::Unauthorized)
    }
}

/// The plain value of an optional string slice.
pub open spec fn opt_str(s: Option<&str>) -> Option<Seq<char>> {
    match s {
        Some(t) => Some(t@),
        None => None,
    }
}

/// The log message for a stored hash that is not base64url.
fn malformed_hash(which: &str, id: &str) -> (m: String)
    ensures
        m@ == "stored "@ + which@ + " hash for "@ + id@ + " is malformed"@,
{
    let mut m = "stored ".to_owned();
    m.append(which);
    m.append(" hash for ");
    m.append(id);
    m.append(" is malformed");
    m
}

/// Verify the owner token. The token is an opaque string issued at upload
/// and hashed as-is, so this compares the presented characters (trimmed)
/// rather than the bytes they happen to decode to.
pub fn check_owner(owner: Option<&str>, record: &FileRecord) -> (outcome: Result<(), AppError>)
    ensures
        outcome is Ok <==> (owner matches Some(t)
            && b64url_decoded(record.owner_hash@) == Some(sha256_digest(vstd::utf8::encode_utf8(trim_ws(t@))))),
        outcome matches Err(e) ==> (e is Internal <==> (owner is Some && b64url_decoded(record.owner_hash@) is None)),
        outcome matches Err(e) ==> e is Internal || e is Unauthorized,
{
    let presented = match owner {
        Some(t) => trimmed(t),
        None => return Err(AppError::Unauthorized),
    };
    let expected = match b64::decode(record.owner_hash.as_str()) {
        Some(e) => e,
        None => return Err(AppError::Internal(malformed_hash("owner", record.id.as_str()))),
    };
    if util::ct_eq(&util::sha256(presented.as_str().as_bytes()), expected.as_slice()) {
        Ok(())
    } else {
        Err(AppError::Unauthorized)
    }
}

/// The validated upload parameters of a `POST /api/files`.
#[derive(Debug)]
pub struct UploadRequest {
    /// base64url encrypted metadata blob, at most `MAX_METADATA_LEN` bytes.
    pub metadata: String,
    /// base64url SHA-256 of the download auth key: 32 bytes.
    pub auth_hash: String,
    /// base64url STREAM nonce prefix: `NONCE_PREFIX_LEN` bytes.
    pub nonce_prefix: String,
    /// base64url PBKDF2 salt: `AUTH_SALT_LEN` bytes, when a password guards the file.
    pub auth_salt: Option<String>,
    /// Granted lifetime, in seconds.
    pub expires_in: u64,
    /// Granted download budget.
    pub max_downloads: u32,
}

/// The upload headers, as the request carried them.
pub struct UploadHeaders<'a> {
    pub metadata: Option<&'a str>,
    pub auth_hash: Option<&'a str>,
    pub nonce_prefix: Option<&'a str>,
    pub auth_salt: Option<&'a str>,
    pub expires_in: Option<&'a str>,
    pub max_downloads: Option<&'a str>,
}

/// The message for an oversized metadata blob.
pub open spec fn metadata_too_large() -> Seq<char> {
    "encrypted metadata is too large"@
}

/// The message for a metadata blob that is not base64url.
pub open spec fn metadata_not_b64() -> Seq<char> {
    "encrypted metadata must be base64url"@
}

/// Which upload headers are acceptable, in the order they are checked: the
/// metadata blob (present, small enough, base64url), the auth hash, the nonce
/// prefix, the salt if one is sent, and the two numbers.
pub open spec fn upload_headers_ok(h: UploadHeaders) -> bool {
    &&& h.metadata is Some
    &&& h.metadata->0.len() <= MAX_METADATA_LEN
    &&& b64url_decoded(h.metadata->0@) is Some
    &&& h.auth_hash is Some && b64_of_len(h.auth_hash->0@, 32)
    &&& h.nonce_prefix is Some && b64_of_len(h.nonce_prefix->0@, NONCE_PREFIX_LEN as nat)
    &&& h.auth_salt is Some ==> b64_of_len(h.auth_salt->0@, AUTH_SALT_LEN as nat)
    &&& h.expires_in is Some ==> parsed_unsigned(h.expires_in->0@, u64::MAX as nat) is Some
    &&& h.max_downloads is Some ==> parsed_unsigned(h.max_downloads->0@, u32::MAX as nat) is Some
}

/// The message an unacceptable upload is refused with: the first check, in
/// order, that its headers fail.
pub open spec fn upload_refusal(h: UploadHeaders) -> Seq<char> {
    if h.metadata is None {
        missing_header(crate::header::METADATA@)
    } else if h.metadata->0.len() > MAX_METADATA_LEN {
        metadata_too_large()
    } else if b64url_decoded(h.metadata->0@) is None {
        metadata_not_b64()
    } else if h.auth_hash is None {
        missing_header(crate::header::AUTH_HASH@)
    } else if !b64_of_len(h.auth_hash->0@, 32) {
        not_b64_of_len(crate::header::AUTH_HASH@, 32)
    } else if h.nonce_prefix is None {
        missing_header(crate::header::NONCE_PREFIX@)
    } else if !b64_of_len(h.nonce_prefix->0@, NONCE_PREFIX_LEN as nat) {
        not_b64_of_len(crate::header::NONCE_PREFIX@, NONCE_PREFIX_LEN as nat)
    } else if h.auth_salt is Some && !b64_of_len(h.auth_salt->0@, AUTH_SALT_LEN as nat) {
        not_b64_of_len(crate::header::AUTH_SALT@, AUTH_SALT_LEN as nat)
    } else if h.expires_in is Some && parsed_unsigned(h.expires_in->0@, u64::MAX as nat) is None {
        not_a_number(crate::header::EXPIRES_IN@)
    } else {
        not_a_number(crate::header::MAX_DOWNLOADS@)
    }
}

/// The number a numeric header asks for, if it is present.
pub open spec fn asked(raw: Option<&str>, max: nat) -> Option<int> {
    match raw {
        Some(t) => Some(parsed_unsigned(t@, max)->0 as int),
        None => None,
    }
}

/// Validate the upload headers and clamp the requested lifetime and budget
/// into what `config` grants.
pub fn check_upload(config: &Config, headers: &UploadHeaders) -> (request: Result<UploadRequest, AppError>)
    ensures
        request is Ok <==> upload_headers_ok(*headers),
        request matches Ok(r) ==> {
            &&& r.metadata@ == headers.metadata->0@
            &&& r.auth_hash@ == headers.auth_hash->0@
            &&& r.nonce_prefix@ == headers.nonce_prefix->0@
            &&& opt_view(r.auth_salt) == opt_str(headers.auth_salt)
            &&& r.expires_in == crate::server::config::clamp(
                    match asked(headers.expires_in, u64::MAX as nat) { Some(n) => n, None => config.default_expiry as int },
                    crate::wire::MIN_EXPIRY_SECS as int,
                    crate::server::config::clamp(config.max_expiry as int, crate::wire::MIN_EXPIRY_SECS as int,
                        crate::wire::MAX_EXPIRY_SECS as int))
            &&& r.max_downloads == crate::server::config::clamp(
                    match asked(headers.max_downloads, u32::MAX as nat) { Some(n) => n,
                        None => crate::wire::DEFAULT_MAX_DOWNLOADS as int },
                    1,
                    crate::server::config::clamp(config.max_downloads as int, 1, crate::wire::MAX_DOWNLOADS as int))
        },
        request matches Err(e) ==> is_bad_request(e, upload_refusal(*headers)),
{
    let metadata = match headers.metadata {
        Some(m) => m,
        None => {
            let mut m = "missing ".to_owned();
            m.append(crate::header::METADATA);
            m.append(" header");
            return Err(AppError::BadRequest(m));
        },
    };
    if metadata.len() > MAX_METADATA_LEN {
        return Err(AppError::BadRequest("encrypted metadata is too large".to_owned()));
    }
    if b64::decode(metadata).is_none() {
        return Err(AppError::BadRequest("encrypted metadata must be base64url".to_owned()));
    }
    let auth_hash = required_b64::<32>(headers.auth_hash, crate::header::AUTH_HASH)?;
    let nonce_prefix = required_b64::<NONCE_PREFIX_LEN>(headers.nonce_prefix, crate::header::NONCE_PREFIX)?;
    let auth_salt = match headers.auth_salt {
        Some(_) => Some(required_b64::<AUTH_SALT_LEN>(headers.auth_salt, crate::header::AUTH_SALT)?),
        None => None,
    };
    let expires_in = optional_number(headers.expires_in, crate::header::EXPIRES_IN, u64::MAX)?;
    let max_downloads = match optional_number(headers.max_downloads, crate::header::MAX_DOWNLOADS, 4294967295)? {
        Some(n) => Some(n as u32),
        None => None,
    };
    Ok(UploadRequest {
        metadata: metadata.to_owned(),
        auth_hash,
        nonce_prefix,
        auth_salt,
        expires_in: config.clamp_expiry(expires_in),
        max_downloads: config.clamp_downloads(max_downloads),
    })
}

/// The record a completed upload is stored under: `size` bytes of
/// ciphertext now at rest under `id`, the owner token kept only as the
/// base64url of its SHA-256, no downloads yet, and the granted lifetime
/// counted from `now`.
pub fn new_record(request: UploadRequest, id: String, owner_token: &str, size: u64, now: u64,
    owner_subject: Option<String>) -> (record: FileRecord)
    requires
        now + request.expires_in <= u64::MAX,
    ensures
        record.id@ == id@,
        record.metadata@ == request.metadata@,
        record.nonce_prefix@ == request.nonce_prefix@,
        record.auth_hash@ == request.auth_hash@,
        opt_view(record.auth_salt) == opt_view(request.auth_salt),
        record.owner_hash@ == b64url_text(sha256_digest(vstd::utf8::encode_utf8(owner_token@))),
        record.size == size,
        record.downloads == 0,
        record.max_downloads == request.max_downloads,
        record.created_at == now,
        record.expires_at == now + request.expires_in,
        opt_view(record.owner_subject) == opt_view(owner_subject),
{
    let digest = util::sha256(owner_token.as_bytes());
    FileRecord {
        id,
        metadata: request.metadata,
        nonce_prefix: request.nonce_prefix,
        auth_hash: request.auth_hash,
        auth_salt: request.auth_salt,
        owner_hash: b64::encode(&digest),
        size,
        downloads: 0,
        max_downloads: request.max_downloads,
        created_at: now,
        expires_at: now + request.expires_in,
        owner_subject,
    }
}

/// What the uploader is told: the share id, the owner token (shown once),
/// and when the share expires.
pub fn upload_response(record: &FileRecord, owner_token: String) -> (response: UploadResponse)
    ensures
        response.id@ == record.id@,
        response.owner_token@ == owner_token@,
        response.expires_at == record.expires_at,
{
    UploadResponse { id: record.id.clone(), owner_token, expires_at: record.expires_at }
}

/// The unauthenticated pre-flight a downloader needs before it can derive
/// the auth key: refused once the budget is spent.
pub fn file_params(record: &FileRecord) -> (params: Result<FileParams, AppError>)
    ensures
        params is Err <==> record.downloads >= record.max_downloads,
        params matches Err(e) ==> e is Exhausted,
        params matches Ok(p) ==> {
            &&& p.id@ == record.id@
            &&& p.has_password == record.auth_salt is Some
            &&& opt_view(p.auth_salt) == opt_view(record.auth_salt)
            &&& p.kdf_iterations == PBKDF2_ITERATIONS
            &&& p.expires_at == record.expires_at
            &&& p.downloads_remaining == record.max_downloads - record.downloads
        },
{
    let remaining = record.downloads_remaining();
    if remaining == 0 {
        return Err(AppError::Exhausted);
    }
    Ok(FileParams {
        id: record.id.clone(),
        has_password: record.has_password(),
        auth_salt: clone_opt(&record.auth_salt),
        kdf_iterations: PBKDF2_ITERATIONS,
        expires_at: record.expires_at,
        downloads_remaining: remaining,
    })
}

/// The encrypted name/type/size blob and what is needed to start
/// decrypting, for an authenticated downloader: refused once the budget is
/// spent.
pub fn metadata_response(record: &FileRecord) -> (response: Result<MetadataResponse, AppError>)
    ensures
        response is Err <==> record.downloads >= record.max_downloads,
        response matches Err(e) ==> e is Exhausted,
        response matches Ok(m) ==> {
            &&& m.id@ == record.id@
            &&& m.metadata@ == record.metadata@
            &&& m.nonce_prefix@ == record.nonce_prefix@
            &&& m.size == record.size
            &&& m.expires_at == record.expires_at
            &&& m.downloads_remaining == record.max_downloads - record.downloads
        },
{
    let remaining = record.downloads_remaining();
    if remaining == 0 {
        return Err(AppError::Exhausted);
    }
    Ok(MetadataResponse {
        id: record.id.clone(),
        metadata: record.metadata.clone(),
        nonce_prefix: record.nonce_prefix.clone(),
        size: record.size,
        expires_at: record.expires_at,
        downloads_remaining: remaining,
    })
}

/// Upload status for whoever holds the owner token.
pub fn owner_info(record: &FileRecord) -> (info: OwnerInfo)
    ensures
        info.id@ == record.id@,
        info.downloads == record.downloads,
        info.max_downloads == record.max_downloads,
        info.expires_at == record.expires_at,
        info.size == record.size,
        info.has_password == record.auth_salt is Some,
{
    OwnerInfo {
        id: record.id.clone(),
        downloads: record.downloads,
        max_downloads: record.max_downloads,
        expires_at: record.expires_at,
        size: record.size,
        has_password: record.has_password(),
    }
}

/// How a claimed download proceeds: `Ok(last)` when a slot was granted,
/// `last` meaning the file is to be destroyed once the body is delivered.
pub fn claimed(claim: Claim) -> (slot: Result<bool, AppError>)
    ensures
        claim is NotFound ==> slot is Err && slot->Err_0 is NotFound,
        claim is Exhausted ==> slot is Err && slot->Err_0 is Exhausted,
        claim matches Claim::Granted { last, .. } ==> slot == Ok::<bool, AppError>(last),
{
    match claim {
        Claim::NotFound => Err(AppError::NotFound),
        Claim::Exhausted => Err(AppError::Exhausted),
        Claim::Granted { last, .. } => Ok(last),
    }
}

/// The message for a malformed replacement auth hash.
pub open spec fn bad_auth_hash() -> Seq<char> {
    "auth_hash must be 32 base64url-encoded bytes"@
}

/// The message for a malformed replacement salt.
pub open spec fn bad_auth_salt() -> Seq<char> {
    "auth_salt must be "@ + decimal(AUTH_SALT_LEN as nat) + " base64url-encoded bytes"@
}

/// Check a password (re)configuration: the new auth hash must be 32 bytes
/// of base64url and the salt, when one is given, `AUTH_SALT_LEN` bytes.
pub fn check_password_request(request: &SetPasswordRequest) -> (outcome: Result<(), AppError>)
    ensures
        outcome is Ok <==> b64_of_len(request.auth_hash@, 32)
            && (request.auth_salt is Some ==> b64_of_len(request.auth_salt->0@, AUTH_SALT_LEN as nat)),
        !b64_of_len(request.auth_hash@, 32) ==> outcome is Err && is_bad_request(outcome->Err_0, bad_auth_hash()),
        b64_of_len(request.auth_hash@, 32) && outcome is Err ==> is_bad_request(outcome->Err_0, bad_auth_salt()),
{
    if !decodes_to_len::<32>(request.auth_hash.as_str()) {
        return Err(AppError::BadRequest("auth_hash must be 32 base64url-encoded bytes".to_owned()));
    }
    match &request.auth_salt {
        Some(salt) => {
            if !decodes_to_len::<AUTH_SALT_LEN>(salt.as_str()) {
                let mut m = "auth_salt must be ".to_owned();
                push_decimal(&mut m, AUTH_SALT_LEN as u64);
                m.append(" base64url-encoded bytes");
                return Err(AppError::BadRequest(m));
            }
        },
        None => {},
    }
    Ok(())
}

/// A share a request may act on: the id is one the server issues, a record
/// is stored under it, and it has not expired.
pub open spec fn live_share(records: Map<Seq<char>, FileRecordView>, id: Seq<char>, now: u64) -> bool {
    valid_id(id) && records.contains_key(id) && records[id].expires_at > now
}

/// Load the record a request names, treating a malformed id, a missing
/// record and an expired-but-not-yet-reaped one alike as not found.
pub fn load<S: MetaStore>(store: &S, id: &str, now: u64) -> (record: Result<FileRecord, AppError>)
    requires
        store.inv(),
    ensures
        record is Ok <==> live_share(store.records(), id@, now),
        record matches Ok(r) ==> r@ == store.records()[id@],
        record matches Err(e) ==> e is NotFound,
{
    check_id(id)?;
    live_record(store.get(id), now)
}

/// The bearer key an `Authorization` header presents is the one whose
/// SHA-256 the record holds.
pub open spec fn key_checks_out(record: FileRecordView, authorization: Option<&str>) -> bool {
    presented_download_key(opt_str(authorization)) matches Some(k) && b64url_decoded(record.auth_hash) == Some(sha256_digest(k))
}

/// The owner token a request presents is the one whose SHA-256 the record
/// holds (compared as presented, trimmed).
pub open spec fn owner_checks_out(record: FileRecordView, owner: Option<&str>) -> bool {
    owner matches Some(t) && b64url_decoded(record.owner_hash) == Some(sha256_digest(vstd::utf8::encode_utf8(trim_ws(t@))))
}

/// What a download request found under its id may proceed to a claim on:
/// a stored record that has not expired, whose hash the bearer key checks
/// out against. A missing or expired record reads as not found; a wrong or
/// missing key as unauthorized; a stored hash that is not base64url is the
/// server's own fault.
pub fn admit_download(found: Option<FileRecord>, authorization: Option<&str>, now: u64) -> (record: Result<FileRecord, AppError>)
    ensures
        record is Ok <==> (found is Some && found->0.expires_at > now && key_checks_out(found->0@, authorization)),
        record matches Ok(r) ==> found == Some(r),
        found is None || found->0.expires_at <= now ==> record is Err && record->Err_0 is NotFound,
        found is Some && found->0.expires_at > now && !key_checks_out(found->0@, authorization)
            ==> record is Err && (record->Err_0 is Unauthorized || record->Err_0 is Internal)
                && (record->Err_0 is Internal <==> (presented_download_key(opt_str(authorization)) is Some
                    && b64url_decoded(found->0.auth_hash@) is None)),
{
    let record = live_record(found, now)?;
    check_download_auth(authorization, &record)?;
    Ok(record)
}

/// What an owner request found under its id may act on: a stored record
/// that has not expired, whose owner hash the presented token checks out
/// against. A missing or expired record reads as not found; a wrong or
/// missing token as unauthorized; a malformed stored hash as internal.
pub fn admit_owner(found: Option<FileRecord>, owner: Option<&str>, now: u64) -> (record: Result<FileRecord, AppError>)
    ensures
        record is Ok <==> (found is Some && found->0.expires_at > now && owner_checks_out(found->0@, owner)),
        record matches Ok(r) ==> found == Some(r),
        found is None || found->0.expires_at <= now ==> record is Err && record->Err_0 is NotFound,
        found is Some && found->0.expires_at > now && !owner_checks_out(found->0@, owner)
            ==> record is Err && (record->Err_0 is Unauthorized || record->Err_0 is Internal)
                && (record->Err_0 is Internal <==> (owner is Some && b64url_decoded(found->0.owner_hash@) is None)),
{
    let record = live_record(found, now)?;
    check_owner(owner, &record)?;
    Ok(record)
}

/// The download protocol: the share must be live and the bearer key must
/// check out before a slot is claimed, so a refused request never spends
/// the budget; a granted one spends exactly one download. Gives back the
/// record as it was and whether this was the last download.
pub fn authorize_download<S: MetaStore>(store: &mut S, id: &str, authorization: Option<&str>, now: u64)
    -> (grant: Result<(FileRecord, bool), AppError>)
    requires
        old(store).inv(),
    ensures
        final(store).inv(),
        grant is Err ==> final(store).records() == old(store).records(),
        !live_share(old(store).records(), id@, now) ==> grant is Err && grant->Err_0 is NotFound,
        live_share(old(store).records(), id@, now) && !key_checks_out(old(store).records()[id@], authorization)
            ==> grant is Err && (grant->Err_0 is Unauthorized || grant->Err_0 is Internal)
                && (grant->Err_0 is Internal <==> (presented_download_key(opt_str(authorization)) is Some
                    && b64url_decoded(old(store).records()[id@].auth_hash) is None)),
        live_share(old(store).records(), id@, now) && key_checks_out(old(store).records()[id@], authorization)
            && grant is Err ==> grant->Err_0 is Exhausted,
        grant matches Ok((r, last)) ==> {
            &&& live_share(old(store).records(), id@, now)
            &&& r@ == old(store).records()[id@]
            &&& claim_outcome(old(store).records(), id@) matches Claim::Granted { last: l, .. } && l == last
            &&& final(store).records() == after_claim(old(store).records(), id@)
        },
        live_share(old(store).records(), id@, now) && key_checks_out(old(store).records()[id@], authorization)
            ==> (grant is Ok <==> claim_outcome(old(store).records(), id@) is Granted),
{
    check_id(id)?;
    let record = admit_download(store.get(id), authorization, now)?;
    let claim = store.claim_download(id);
    let last = claimed(claim)?;
    Ok((record, last))
}

/// The password protocol: the share must be live, the owner token must
/// check out and the new material be well formed before anything changes;
/// then the auth hash and salt are replaced and nothing else.
pub fn change_password<S: MetaStore>(store: &mut S, id: &str, owner: Option<&str>, request: &SetPasswordRequest,
    now: u64) -> (outcome: Result<(), AppError>)
    requires
        old(store).inv(),
    ensures
        final(store).inv(),
        outcome is Err ==> final(store).records() == old(store).records(),
        !live_share(old(store).records(), id@, now) ==> outcome is Err && outcome->Err_0 is NotFound,
        live_share(old(store).records(), id@, now) && !owner_checks_out(old(store).records()[id@], owner)
            ==> outcome is Err && (outcome->Err_0 is Unauthorized || outcome->Err_0 is Internal)
                && (outcome->Err_0 is Internal <==> (owner is Some
                    && b64url_decoded(old(store).records()[id@].owner_hash) is None)),
        live_share(old(store).records(), id@, now) && owner_checks_out(old(store).records()[id@], owner)
            && !b64_of_len(request.auth_hash@, 32)
            ==> outcome is Err && is_bad_request(outcome->Err_0, bad_auth_hash()),
        live_share(old(store).records(), id@, now) && owner_checks_out(old(store).records()[id@], owner)
            && b64_of_len(request.auth_hash@, 32) && request.auth_salt is Some
            && !b64_of_len(request.auth_salt->0@, AUTH_SALT_LEN as nat)
            ==> outcome is Err && is_bad_request(outcome->Err_0, bad_auth_salt()),
        live_share(old(store).records(), id@, now) && owner_checks_out(old(store).records()[id@], owner)
            && b64_of_len(request.auth_hash@, 32)
            && (request.auth_salt is Some ==> b64_of_len(request.auth_salt->0@, AUTH_SALT_LEN as nat))
            ==> outcome is Ok,
        outcome is Ok ==> {
            &&& live_share(old(store).records(), id@, now)
            &&& b64url_decoded(old(store).records()[id@].owner_hash)
                    == Some(sha256_digest(vstd::utf8::encode_utf8(trim_ws(owner->0@))))
            &&& b64_of_len(request.auth_hash@, 32)
            &&& (request.auth_salt is Some ==> b64_of_len(request.auth_salt->0@, AUTH_SALT_LEN as nat))
            &&& final(store).records() == old(store).records().insert(id@, FileRecordView {
                    auth_hash: request.auth_hash@,
                    auth_salt: opt_view(request.auth_salt),
                    ..old(store).records()[id@]
                })
        },
{
    check_id(id)?;
    admit_owner(store.get(id), owner, now)?;
    check_password_request(request)?;
    let salt: Option<&str> = match &request.auth_salt {
        Some(s) => Some(s.as_str()),
        None => None,
    };
    if store.set_auth(id, request.auth_hash.as_str(), salt) {
        Ok(())
    } else {
        Err(AppError::NotFound)
    }
}

} // verus!
