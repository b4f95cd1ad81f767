//! Wire types and crypto parameters shared by the server and the clients, and
//! the length arithmetic of the record scheme.
//!
//! Nothing in here ever touches key material: the server only sees
//! ciphertext, an opaque encrypted-metadata blob, and a hash of the download
//! auth key.
use vstd::prelude::*;
use vstd::arithmetic::div_mod::lemma_fundamental_div_mod_converse;

verus! {

/// Plaintext bytes per AES-GCM record. Ciphertext records are 16 bytes longer.
pub const CHUNK_SIZE: usize = 65536;
/// AES-GCM authentication tag length.
pub const TAG_LEN: usize = 16;
/// Ciphertext bytes per record.
pub const CHUNK_CIPHERTEXT_SIZE: usize = 65552;
/// Random per-file prefix of the STREAM nonce. The remaining 5 bytes are a
/// 4-byte big-endian record counter plus a 1-byte final-record flag.
pub const NONCE_PREFIX_LEN: usize = 7;
/// Full AES-GCM nonce length.
pub const NONCE_LEN: usize = 12;
/// Length of the master secret that lives in the URL fragment.
pub const SECRET_LEN: usize = 32;
/// Length of every derived symmetric key.
pub const KEY_LEN: usize = 32;
/// HKDF label of the content key (its UTF-8 bytes are the `info`).
pub const INFO_CONTENT: &'static str = "senders/v1/content";
/// HKDF label of the metadata key.
pub const INFO_METADATA: &'static str = "senders/v1/metadata";
/// HKDF label of the download auth key.
pub const INFO_AUTH: &'static str = "senders/v1/auth";
/// Salt length for password-derived auth keys.
pub const AUTH_SALT_LEN: usize = 16;
/// PBKDF2-HMAC-SHA256 iterations for password-protected files.
pub const PBKDF2_ITERATIONS: u32 = 250000;
/// Expiry bounds, in seconds: one day to thirty days.
pub const MIN_EXPIRY_SECS: u64 = 86400;
/// The longest lifetime a share can have: thirty days.
pub const MAX_EXPIRY_SECS: u64 = 2592000;
/// The lifetime a share gets when none is asked for.
pub const DEFAULT_EXPIRY_SECS: u64 = 86400;
/// Download-count bounds. `1` means "delete immediately after one download".
pub const MIN_DOWNLOADS: u32 = 1;
/// The largest download budget a share can have.
pub const MAX_DOWNLOADS: u32 = 1000;
/// The download budget a share gets when none is asked for.
pub const DEFAULT_MAX_DOWNLOADS: u32 = 1;

/// Cleartext metadata about a file, encrypted client-side before upload.
#[derive(Debug, Clone)]
pub struct FileMetadata {
    pub name: String,
    pub mime: String,
    pub size: u64,
}

/// Result of a successful upload. `owner_token` is shown once and never
/// stored in cleartext by the server.
#[derive(Debug, Clone)]
pub struct UploadResponse {
    pub id: String,
    pub owner_token: String,
    pub expires_at: u64,
}

/// Unauthenticated pre-flight information a downloader needs before it can
/// derive the auth key.
#[derive(Debug, Clone)]
pub struct FileParams {
    pub id: String,
    pub has_password: bool,
    /// base64url PBKDF2 salt; present only when `has_password`.
    pub auth_salt: Option<String>,
    pub kdf_iterations: u32,
    pub expires_at: u64,
    pub downloads_remaining: u32,
}

/// Authenticated metadata response: everything needed to start decrypting.
#[derive(Debug, Clone)]
pub struct MetadataResponse {
    pub id: String,
    /// base64url AES-GCM ciphertext of the file metadata, nonce-prefixed.
    pub metadata: String,
    /// base64url STREAM nonce prefix.
    pub nonce_prefix: String,
    /// Ciphertext length in bytes.
    pub size: u64,
    pub expires_at: u64,
    pub downloads_remaining: u32,
}

/// Owner-only view of a file's state.
#[derive(Debug, Clone)]
pub struct OwnerInfo {
    pub id: String,
    pub downloads: u32,
    pub max_downloads: u32,
    pub expires_at: u64,
    pub size: u64,
    pub has_password: bool,
}

/// Owner-initiated password (re)configuration.
#[derive(Debug, Clone)]
pub struct SetPasswordRequest {
    /// base64url SHA-256 of the new auth key.
    pub auth_hash: String,
    /// base64url PBKDF2 salt, or `None` to remove the password.
    pub auth_salt: Option<String>,
}

/// Server limits and auth state, fetched by the frontend at boot.
#[derive(Debug, Clone)]
pub struct ServerInfo {
    pub max_file_size: u64,
    pub min_expiry_secs: u64,
    pub max_expiry_secs: u64,
    pub default_expiry_secs: u64,
    pub max_downloads: u32,
    pub default_max_downloads: u32,
    /// `off`, `upload`, or `all`.
    pub auth_mode: String,
    pub auth_required: bool,
    pub session: Option<SessionInfo>,
}

/// The signed-in user, when OIDC is enabled.
#[derive(Debug, Clone)]
pub struct SessionInfo {
    pub subject: String,
    pub email: Option<String>,
    pub name: Option<String>,
}

/// Uniform error body for every failing API call.
#[derive(Debug, Clone)]
pub struct ApiError {
    pub error: String,
    pub message: String,
}

/// `len` divided into `chunk`-sized records, rounding up, where an empty body
/// still counts as one record.
pub open spec fn records_of(len: int, chunk: int) -> int {
    if len == 0 { 1 } else { (len + chunk - 1) / chunk }
}

/// Records a plaintext of `len` bytes seals into.
pub open spec fn plain_records(len: int) -> int {
    records_of(len, CHUNK_SIZE as int)
}

/// Records a ciphertext of `len` bytes is framed into.
pub open spec fn cipher_records(len: int) -> int {
    records_of(len, CHUNK_CIPHERTEXT_SIZE as int)
}

/// Ciphertext length of a plaintext of `len` bytes: one tag per record.
pub open spec fn sealed_len(len: int) -> int {
    len + plain_records(len) * TAG_LEN as int
}

/// Length of the final record when a ciphertext of `len` bytes is framed
/// into full records followed by one last record.
pub open spec fn last_record_len(len: int) -> int {
    len - (cipher_records(len) - 1) * CHUNK_CIPHERTEXT_SIZE as int
}

/// The plaintext length a ciphertext of `len` bytes carries, when it is the
/// length some plaintext seals to: the last record must hold a tag, and after
/// full records it must hold at least one byte more, since only an empty body
/// seals to a lone, empty final record.
pub open spec fn opened_len(len: int) -> Option<int> {
    if last_record_len(len) >= TAG_LEN as int
        && !(cipher_records(len) > 1 && last_record_len(len) == TAG_LEN as int) {
        Some(len - cipher_records(len) * TAG_LEN as int)
    } else {
        None
    }
}

/// Ciphertext length for a plaintext of `len` bytes under the record scheme.
pub fn ciphertext_len(len: u64) -> (c: u64)
    requires
        sealed_len(len as int) <= u64::MAX,
    ensures
        c == sealed_len(len as int),
{
    let chunk = CHUNK_SIZE as u64;
    // An empty file still produces one (empty, authenticated) final record.
    let records = if len == 0 {
        1
    } else {
        len / chunk + if len % chunk == 0 { 0 } else { 1 }
    };
    proof {
        if len > 0 {
            lemma_ceil_div(len as int, chunk as int);
        }
    }
    len + records * TAG_LEN as u64
}

/// `(x + d - 1) / d` is `x / d`, plus one when `d` does not divide `x`.
pub(crate) proof fn lemma_ceil_div(x: int, d: int)
    requires
        x > 0,
        d > 0,
    ensures
        (x + d - 1) / d == x / d + if x % d == 0 { 0int } else { 1int },
{
    let q = x / d;
    let r = x % d;
    vstd::arithmetic::div_mod::lemma_fundamental_div_mod(x, d);
    assert(0 <= r < d) by {
        vstd::arithmetic::div_mod::lemma_mod_bound(x, d);
    }
    assert(x == q * d + r) by (nonlinear_arith)
        requires x == d * (x / d) + x % d, q == x / d, r == x % d;
    if r == 0 {
        lemma_fundamental_div_mod_converse(x + d - 1, d, q, d - 1);
    } else {
        assert(x + d - 1 == (q + 1) * d + (r - 1)) by (nonlinear_arith)
            requires x == q * d + r;
        lemma_fundamental_div_mod_converse(x + d - 1, d, q + 1, r - 1);
    }
}

/// Plaintext length recovered from a ciphertext length, or `None` if the
/// length is not a valid encoding.
pub fn plaintext_len(cipher_len: u64) -> (p: Option<u64>)
    ensures
        p matches Some(n) ==> opened_len(cipher_len as int) == Some(n as int),
        p is None ==> opened_len(cipher_len as int) is None,
        p matches Some(n) ==> sealed_len(n as int) == cipher_len,
        p is None ==> forall|n: int| n >= 0 ==> #[trigger] sealed_len(n) != cipher_len,
{
    proof {
        assert forall|n: int| n >= 0 implies (opened_len(cipher_len as int) == Some(n) <==> #[trigger] sealed_len(n)
            == cipher_len) by {
            lemma_opened_len_exact(cipher_len as int, n);
        }
    }
    let full = CHUNK_CIPHERTEXT_SIZE as u64;
    let tag = TAG_LEN as u64;
    let whole = cipher_len / full;
    let rest = cipher_len % full;
    proof {
        vstd::arithmetic::div_mod::lemma_fundamental_div_mod(cipher_len as int, full as int);
        if cipher_len > 0 {
            lemma_ceil_div(cipher_len as int, full as int);
        }
    }
    if rest == 0 {
        // Last record is exactly full; there must be at least one record.
        if whole == 0 {
            None
        } else {
            Some(cipher_len - whole * tag)
        }
    } else if rest < tag || (rest == tag && whole > 0) {
        // Too short for a tag, or an empty final record after full ones:
        // nothing seals to that.
        None
    } else {
        Some(cipher_len - (whole + 1) * tag)
    }
}

/// Every plaintext length comes back from its own ciphertext length, and the
/// ciphertext frames into exactly as many records as the plaintext sealed
/// into.
pub proof fn lemma_length_round_trip(len: int)
    requires
        len >= 0,
    ensures
        opened_len(sealed_len(len)) == Some(len),
        cipher_records(sealed_len(len)) == plain_records(len),
{
    let chunk = CHUNK_SIZE as int;
    let full = CHUNK_CIPHERTEXT_SIZE as int;
    let c = sealed_len(len);
    if len == 0 {
        assert(c == 16);
        lemma_fundamental_div_mod_converse(c + full - 1, full, 1, 15);
    } else {
        // len == chunk * (k - 1) + r with 1 <= r <= chunk
        let k = plain_records(len);
        let q = (len - 1) / chunk;
        let m = (len - 1) % chunk;
        vstd::arithmetic::div_mod::lemma_fundamental_div_mod(len - 1, chunk);
        vstd::arithmetic::div_mod::lemma_mod_bound(len - 1, chunk);
        lemma_fundamental_div_mod_converse(len + chunk - 1, chunk, q + 1, m);
        assert(k == q + 1);
        assert(c == full * q + m + 1 + 16) by (nonlinear_arith)
            requires c == len + k * 16, len == chunk * q + m + 1, k == q + 1, chunk == 65536, full == 65552;
        lemma_fundamental_div_mod_converse(c + full - 1, full, q + 1, m + 16);
    }
}

/// A ciphertext length opens to a plaintext length exactly when that
/// plaintext seals to it: every length `plaintext_len` accepts is one some
/// body produces, and every length a body produces is accepted.
pub proof fn lemma_opened_len_exact(c: int, p: int)
    requires
        c >= 0,
        p >= 0,
    ensures
        opened_len(c) == Some(p) <==> sealed_len(p) == c,
{
    if sealed_len(p) == c {
        lemma_length_round_trip(p);
    }
    if opened_len(c) == Some(p) {
        let chunk = CHUNK_SIZE as int;
        let full = CHUNK_CIPHERTEXT_SIZE as int;
        assert(c > 0);
        let q = (c - 1) / full;
        let m = (c - 1) % full;
        vstd::arithmetic::div_mod::lemma_fundamental_div_mod(c - 1, full);
        vstd::arithmetic::div_mod::lemma_mod_bound(c - 1, full);
        assert(q >= 0) by {
            vstd::arithmetic::div_mod::lemma_div_pos_is_pos(c - 1, full);
        }
        assert(c - 1 == full * q + m);
        lemma_fundamental_div_mod_converse(c + full - 1, full, q + 1, m);
        assert(cipher_records(c) == q + 1);
        let last = m + 1;
        assert(last_record_len(c) == last) by (nonlinear_arith)
            requires
                last_record_len(c) == c - (cipher_records(c) - 1) * full,
                cipher_records(c) == q + 1,
                c - 1 == full * q + m,
                last == m + 1;
        assert(p == q * chunk + (last - 16)) by (nonlinear_arith)
            requires
                p == c - cipher_records(c) * 16,
                cipher_records(c) == q + 1,
                c - 1 == full * q + m,
                last == m + 1,
                full == chunk + 16;
        if q == 0 {
            assert(p == last - 16);
            if p > 0 {
                lemma_fundamental_div_mod_converse(p + chunk - 1, chunk, 1, p - 1);
            }
            assert(plain_records(p) == 1);
        } else {
            assert(last >= 17);
            let r = last - 16;
            assert(p + chunk - 1 == (q + 1) * chunk + (r - 1)) by (nonlinear_arith)
                requires p == q * chunk + r;
            assert(p > 0) by (nonlinear_arith)
                requires p == q * chunk + r, q >= 1, r >= 1, chunk > 0;
            lemma_fundamental_div_mod_converse(p + chunk - 1, chunk, q + 1, r - 1);
            assert(plain_records(p) == q + 1);
        }
        assert(sealed_len(p) == c) by (nonlinear_arith)
            requires
                sealed_len(p) == p + plain_records(p) * 16,
                plain_records(p) == q + 1,
                p == q * chunk + (last - 16),
                c - 1 == full * q + m,
                last == m + 1,
                full == chunk + 16;
    }
}

} // verus!
