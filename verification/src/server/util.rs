//! Small primitives shared across the server: clock, RNG, and hashing.
use vstd::prelude::*;
use crate::primitives::{b64url_text, is_b64url_char, sha256_digest, system_now, since_epoch,
    duration_secs, fill_random, sha256_of, slices_ct_eq};
use crate::b64;

verus! {

/// Seconds since the Unix epoch, or 0 when the clock reads earlier than that.
/// What the clock reads is not a function of anything the library holds, so
/// nothing is promised of the value.
pub fn now() -> u64 {
    let t = system_now();
    match since_epoch(&t) {
        Some(d) => duration_secs(&d),
        None => 0,
    }
}

/// `N` bytes from the OS CSPRNG.
pub fn random_bytes<const N: usize>() -> (buf: [u8; N]) {
    let mut buf: [u8; N] = vstd::array::array_fill_for_copy_types(0u8);
    fill_random(vstd::array::ref_mut_array_unsizing_coercion(&mut buf));
    buf
}

/// A share identifier: exactly 22 characters of the URL-safe base64
/// alphabet, which is what sixteen random bytes encode to.
pub open spec fn valid_id(id: Seq<char>) -> bool {
    id.len() == 22 && forall|i: int| 0 <= i < id.len() ==> is_b64url_char(#[trigger] id[i])
}

/// A URL-safe random identifier with 128 bits of entropy. Every identifier
/// it produces is one that [`is_valid_id`] accepts.
pub fn random_id() -> (id: String)
    ensures
        valid_id(id@),
        exists|b: Seq<u8>| b.len() == 16 && id@ == b64url_text(b),
{
    let bytes = random_bytes::<16>();
    let id = b64::encode(&bytes);
    assert(bytes@.len() == 16);
    id
}

/// A URL-safe random token with 256 bits of entropy.
pub fn random_token() -> (token: String)
    ensures
        token@.len() == 43,
        forall|i: int| 0 <= i < token@.len() ==> is_b64url_char(#[trigger] token@[i]),
        exists|b: Seq<u8>| b.len() == 32 && token@ == b64url_text(b),
{
    let bytes = random_bytes::<32>();
    let token = b64::encode(&bytes);
    assert(bytes@.len() == 32);
    token
}

/// The SHA-256 digest of `data`.
pub fn sha256(data: &[u8]) -> (digest: [u8; 32])
    ensures
        digest@ == sha256_digest(data@),
{
    sha256_of(data)
}

/// Constant-time comparison, so token checks do not leak a prefix by timing.
pub fn ct_eq(a: &[u8], b: &[u8]) -> (equal: bool)
    ensures
        equal == (a@ == b@),
{
    slices_ct_eq(a, b)
}

/// Reject identifiers that are not exactly what [`random_id`] produces, so a
/// malicious id can never escape a storage prefix or blow up a store key.
pub fn is_valid_id(id: &str) -> (valid: bool)
    ensures
        valid == valid_id(id@),
{
    let chars = crate::text::chars_of(id);
    if chars.len() != 22 {
        return false;
    }
    let mut i: usize = 0;
    while i < chars.len()
        invariant
            chars@ == id@,
            i <= chars@.len(),
            forall|j: int| 0 <= j < i ==> is_b64url_char(#[trigger] chars@[j]),
        decreases chars@.len() - i,
    {
        let c = chars[i];
        if !(('A' <= c && c <= 'Z') || ('a' <= c && c <= 'z') || ('0' <= c && c <= '9') || c == '-' || c == '_') {
            return false;
        }
        i += 1;
    }
    true
}

} // verus!
