//! The outside functions the library calls: encodings, hashes, key
//! derivation, authenticated encryption, randomness and the clock.
//!
//! Everything in this file is trusted: each wrapper's contract restates what
//! the outside crate's documentation and source promise, over the names
//! declared here for results that take pages to define.
use vstd::prelude::*;
use aes_gcm::aead::{Aead, KeyInit};
use base64::Engine;
use hmac::Mac;
use rand::RngCore;
use sha2::Digest;
use subtle::ConstantTimeEq;

verus! {

/// Largest plaintext AES-GCM accepts, in bytes (`aes_gcm::P_MAX`).
pub const AES_GCM_P_MAX: u64 = 68719476736;

/// The URL-safe base64 symbol for a six-bit value (RFC 4648, table 2).
pub open spec fn b64url_symbol(v: int) -> char {
    if v < 26 {
        ('A' as int + v) as char
    } else if v < 52 {
        ('a' as int + (v - 26)) as char
    } else if v < 62 {
        ('0' as int + (v - 52)) as char
    } else if v == 62 {
        '-'
    } else {
        '_'
    }
}

/// First six-bit value of a byte group: the top six bits of its first byte.
pub open spec fn sextet_a(x0: u8) -> int {
    x0 as int / 4
}

/// Second six-bit value: the low two bits of the first byte, then the top
/// four of the second.
pub open spec fn sextet_b(x0: u8, x1: u8) -> int {
    (x0 as int % 4) * 16 + x1 as int / 16
}

/// Third six-bit value: the low four bits of the second byte, then the top
/// two of the third.
pub open spec fn sextet_c(x1: u8, x2: u8) -> int {
    (x1 as int % 16) * 4 + x2 as int / 64
}

/// Fourth six-bit value: the low six bits of the third byte.
pub open spec fn sextet_d(x2: u8) -> int {
    x2 as int % 64
}

/// The unpadded base64url text (RFC 4648 section 5, no `=` padding) of
/// `bytes`: each group of three bytes becomes four symbols; a final group of
/// one or two bytes, padded with zero bits, becomes two or three.
pub open spec fn b64url_text(bytes: Seq<u8>) -> Seq<char>
    decreases bytes.len(),
{
    if bytes.len() == 0 {
        Seq::empty()
    } else if bytes.len() == 1 {
        seq![b64url_symbol(sextet_a(bytes[0])), b64url_symbol(sextet_b(bytes[0], 0))]
    } else if bytes.len() == 2 {
        seq![
            b64url_symbol(sextet_a(bytes[0])),
            b64url_symbol(sextet_b(bytes[0], bytes[1])),
            b64url_symbol(sextet_c(bytes[1], 0)),
        ]
    } else {
        seq![
            b64url_symbol(sextet_a(bytes[0])),
            b64url_symbol(sextet_b(bytes[0], bytes[1])),
            b64url_symbol(sextet_c(bytes[1], bytes[2])),
            b64url_symbol(sextet_d(bytes[2])),
        ] + b64url_text(bytes.subrange(3, bytes.len() as int))
    }
}

/// The standard base64 symbol for a six-bit value (RFC 4648, table 1).
pub open spec fn b64std_symbol(v: int) -> char {
    if v < 26 {
        ('A' as int + v) as char
    } else if v < 52 {
        ('a' as int + (v - 26)) as char
    } else if v < 62 {
        ('0' as int + (v - 52)) as char
    } else if v == 62 {
        '+'
    } else {
        '/'
    }
}

/// The padded standard base64 text (RFC 4648 section 4) of `bytes`: each
/// group of three bytes becomes four symbols; a final group of one or two
/// bytes, padded with zero bits, becomes two or three symbols and is filled
/// to four with `=`.
pub open spec fn b64std_text(bytes: Seq<u8>) -> Seq<char>
    decreases bytes.len(),
{
    if bytes.len() == 0 {
        Seq::empty()
    } else if bytes.len() == 1 {
        seq![b64std_symbol(sextet_a(bytes[0])), b64std_symbol(sextet_b(bytes[0], 0)), '=', '=']
    } else if bytes.len() == 2 {
        seq![
            b64std_symbol(sextet_a(bytes[0])),
            b64std_symbol(sextet_b(bytes[0], bytes[1])),
            b64std_symbol(sextet_c(bytes[1], 0)),
            '=',
        ]
    } else {
        seq![
            b64std_symbol(sextet_a(bytes[0])),
            b64std_symbol(sextet_b(bytes[0], bytes[1])),
            b64std_symbol(sextet_c(bytes[1], bytes[2])),
            b64std_symbol(sextet_d(bytes[2])),
        ] + b64std_text(bytes.subrange(3, bytes.len() as int))
    }
}

/// The SHA-256 digest of `data`.
pub uninterp spec fn sha256_digest(data: Seq<u8>) -> Seq<u8>;

/// The HMAC-SHA256 tag of `msg` under `key`.
pub uninterp spec fn hmac_sha256_tag(key: Seq<u8>, msg: Seq<u8>) -> Seq<u8>;

/// The 32 bytes HKDF-SHA256 derives from `ikm` with an empty salt under the
/// label `info`.
pub uninterp spec fn hkdf_sha256_key(ikm: Seq<u8>, info: Seq<u8>) -> Seq<u8>;

/// The 32 bytes PBKDF2-HMAC-SHA256 derives from the UTF-8 bytes of
/// `password`, `salt` and `iterations` rounds.
pub uninterp spec fn pbkdf2_sha256_key(password: Seq<char>, salt: Seq<u8>, iterations: u32) -> Seq<u8>;

/// The AES-256-GCM ciphertext (body followed by the 16-byte tag) of
/// `plaintext` under `key` and `nonce`, with no associated data.
pub uninterp spec fn aes256gcm_sealed(key: Seq<u8>, nonce: Seq<u8>, plaintext: Seq<u8>) -> Seq<u8>;

/// What AES-256-GCM decryption of `ciphertext` under `key` and `nonce`
/// yields: the plaintext, or `None` when the tag does not authenticate.
pub uninterp spec fn aes256gcm_opened(key: Seq<u8>, nonce: Seq<u8>, ciphertext: Seq<u8>) -> Option<Seq<u8>>;

/// `secs` seconds after the Unix epoch, written `%Y-%m-%d %H:%M:%S UTC`, or
/// `None` when chrono cannot represent that instant.
pub uninterp spec fn utc_stamp_text(secs: i64) -> Option<Seq<char>>;

/// Length of the unpadded base64 text of `n` bytes.
pub open spec fn b64_unpadded_len(n: int) -> int {
    4 * (n / 3) + if n % 3 == 0 { 0int } else if n % 3 == 1 { 2int } else { 3int }
}

/// A character of the URL-safe base64 alphabet.
pub open spec fn is_b64url_char(c: char) -> bool {
    ('A' <= c && c <= 'Z') || ('a' <= c && c <= 'z') || ('0' <= c && c <= '9') || c == '-' || c == '_'
}

/// `base64::engine::general_purpose::URL_SAFE_NO_PAD.encode`: the unpadded
/// URL-safe text of `bytes`. The engine panics when the text's length
/// overflows `usize` (`encoded_len`), which `requires` rules out.
#[verifier::external_body]
pub(crate) fn b64url_encode(bytes: &[u8]) -> (text: String)
    requires
        b64_unpadded_len(bytes@.len() as int) <= usize::MAX,
    ensures
        text@ == b64url_text(bytes@),
{
    base64::engine::general_purpose::URL_SAFE_NO_PAD.encode(bytes)
}

/// `base64::engine::general_purpose::URL_SAFE_NO_PAD.decode`: with padding
/// refused and non-zero trailing bits rejected, the engine accepts exactly the
/// texts its encoder produces, and gives back the bytes they encode.
#[verifier::external_body]
pub(crate) fn b64url_decode(text: &str) -> (bytes: Option<Vec<u8>>)
    ensures
        bytes matches Some(b) ==> text@ == b64url_text(b@),
        bytes is None ==> forall|b: Seq<u8>| text@ != #[trigger] b64url_text(b),
{
    base64::engine::general_purpose::URL_SAFE_NO_PAD.decode(text.as_bytes()).ok()
}

/// `base64::engine::general_purpose::STANDARD.encode`: the padded standard
/// base64 text of `bytes`. The engine panics when the text's length
/// overflows `usize` (`encoded_len`), which `requires` rules out.
#[verifier::external_body]
pub(crate) fn b64std_encode(bytes: &[u8]) -> (text: String)
    requires
        4 * (bytes@.len() / 3) + (if bytes@.len() % 3 == 0 { 0int } else { 4int }) <= usize::MAX,
    ensures
        text@ == b64std_text(bytes@),
{
    base64::engine::general_purpose::STANDARD.encode(bytes)
}

/// `sha2::Sha256::digest`: the 32-byte SHA-256 digest of `data`.
#[verifier::external_body]
pub(crate) fn sha256_of(data: &[u8]) -> (digest: [u8; 32])
    ensures
        digest@ == sha256_digest(data@),
{
    sha2::Sha256::digest(data).into()
}

/// `hmac::Hmac<Sha256>`: the 32-byte tag of `msg` under `key`. HMAC accepts
/// keys of any length, so the construction never fails.
#[verifier::external_body]
pub(crate) fn hmac_sha256(key: &[u8], msg: &[u8]) -> (tag: [u8; 32])
    ensures
        tag@ == hmac_sha256_tag(key@, msg@),
{
    let mut mac = <hmac::Hmac<sha2::Sha256> as KeyInit>::new_from_slice(key).expect("HMAC accepts any key length");
    mac.update(msg);
    mac.finalize().into_bytes().into()
}

/// `hkdf::Hkdf::<Sha256>::new(Some(&[]), ikm).expand(info, ..)` into 32 bytes,
/// well within HKDF-SHA256's output limit, so expansion never fails.
#[verifier::external_body]
pub(crate) fn hkdf_sha256(ikm: &[u8], info: &[u8]) -> (okm: [u8; 32])
    ensures
        okm@ == hkdf_sha256_key(ikm@, info@),
{
    let mut okm = [0u8; 32];
    hkdf::Hkdf::<sha2::Sha256>::new(Some(&[]), ikm).expand(info, &mut okm).expect("32 bytes is within the HKDF-SHA256 limit");
    okm
}

/// `pbkdf2::pbkdf2_hmac::<Sha256>` over the UTF-8 bytes of `password` into 32
/// bytes.
#[verifier::external_body]
pub(crate) fn pbkdf2_sha256(password: &str, salt: &[u8], iterations: u32) -> (okm: [u8; 32])
    ensures
        okm@ == pbkdf2_sha256_key(password@, salt@, iterations),
{
    let mut okm = [0u8; 32];
    pbkdf2::pbkdf2_hmac::<sha2::Sha256>(password.as_bytes(), salt, iterations, &mut okm);
    okm
}

/// `aes_gcm::Aes256Gcm::encrypt` with no associated data. The key must be 32
/// bytes and the nonce 12 (`GenericArray::clone_from_slice` panics
/// otherwise). Encryption fails exactly when the plaintext exceeds `P_MAX`;
/// otherwise it yields the ciphertext body followed by the 16-byte tag, which
/// decrypts under the same key and nonce to the plaintext.
#[verifier::external_body]
pub(crate) fn aes256gcm_encrypt(key: &[u8], nonce: &[u8], plaintext: &[u8]) -> (sealed: Option<Vec<u8>>)
    requires
        key@.len() == 32,
        nonce@.len() == 12,
    ensures
        sealed is Some <==> plaintext@.len() <= AES_GCM_P_MAX,
        sealed matches Some(c) ==> c@ == aes256gcm_sealed(key@, nonce@, plaintext@),
        sealed matches Some(c) ==> c@.len() == plaintext@.len() + 16,
        sealed matches Some(c) ==> aes256gcm_opened(key@, nonce@, c@) == Some(plaintext@),
{
    #[allow(deprecated)]
    let cipher = aes_gcm::Aes256Gcm::new(aes_gcm::aead::generic_array::GenericArray::from_slice(key));
    #[allow(deprecated)]
    let nonce = aes_gcm::aead::generic_array::GenericArray::from_slice(nonce);
    cipher.encrypt(nonce, plaintext).ok()
}

/// `aes_gcm::Aes256Gcm::decrypt` with no associated data, under the same key
/// and nonce sizes as encryption. Decrypting what encryption produced under
/// the same key and nonce gives the plaintext back.
#[verifier::external_body]
pub(crate) fn aes256gcm_decrypt(key: &[u8], nonce: &[u8], ciphertext: &[u8]) -> (opened: Option<Vec<u8>>)
    requires
        key@.len() == 32,
        nonce@.len() == 12,
    ensures
        opened matches Some(p) ==> aes256gcm_opened(key@, nonce@, ciphertext@) == Some(p@),
        opened is None ==> aes256gcm_opened(key@, nonce@, ciphertext@) is None,
        forall|p: Seq<u8>|
            p.len() <= AES_GCM_P_MAX && ciphertext@ == #[trigger] aes256gcm_sealed(key@, nonce@, p)
                ==> opened is Some && opened->0@ == p,
{
    #[allow(deprecated)]
    let cipher = aes_gcm::Aes256Gcm::new(aes_gcm::aead::generic_array::GenericArray::from_slice(key));
    #[allow(deprecated)]
    let nonce = aes_gcm::aead::generic_array::GenericArray::from_slice(nonce);
    cipher.decrypt(nonce, ciphertext).ok()
}

/// `rand::rng().fill_bytes`: fills `buf` from the thread-local CSPRNG,
/// seeded from the OS (rand panics only when the OS cannot seed it). What
/// the bytes are is chance; only the length is promised.
#[verifier::external_body]
pub(crate) fn fill_random(buf: &mut [u8])
    ensures
        final(buf)@.len() == old(buf)@.len(),
{
    rand::rng().fill_bytes(buf);
}

/// `subtle::ConstantTimeEq::ct_eq` on byte slices: equal exactly when the
/// lengths match and every byte does, compared in time independent of the
/// contents.
#[verifier::external_body]
pub(crate) fn slices_ct_eq(a: &[u8], b: &[u8]) -> (equal: bool)
    ensures
        equal == (a@ == b@),
{
    a.ct_eq(b).into()
}

/// `chrono::DateTime::from_timestamp(secs, 0)` formatted as
/// `%Y-%m-%d %H:%M:%S UTC`; `None` when the instant is out of chrono's range.
#[verifier::external_body]
pub(crate) fn utc_stamp(secs: i64) -> (text: Option<String>)
    ensures
        text matches Some(t) ==> utc_stamp_text(secs) == Some(t@),
        text is None ==> utc_stamp_text(secs) is None,
{
    chrono::DateTime::from_timestamp(secs, 0).map(|at| at.format("%Y-%m-%d %H:%M:%S UTC").to_string())
}

/// `std::time::SystemTime`, carried through opaquely.
#[verifier::external_type_specification]
#[verifier::external_body]
pub struct ExSystemTime(std::time::SystemTime);

/// `std::time::SystemTime::now`: what the clock reads is the machine's
/// business; nothing is promised of it.
#[verifier::external_body]
pub(crate) fn system_now() -> (t: std::time::SystemTime)
{
    std::time::SystemTime::now()
}

/// `SystemTime::duration_since(UNIX_EPOCH)`, or `None` for an instant before
/// the epoch. Depends on the clock reading; nothing is promised.
#[verifier::external_body]
pub(crate) fn since_epoch(t: &std::time::SystemTime) -> (d: Option<core::time::Duration>)
{
    t.duration_since(std::time::UNIX_EPOCH).ok()
}

/// `Duration::as_secs`: whole seconds of a duration read from the clock.
#[verifier::external_body]
pub(crate) fn duration_secs(d: &core::time::Duration) -> (secs: u64)
{
    d.as_secs()
}

} // verus!
