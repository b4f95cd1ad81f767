//! Headers carrying upload parameters alongside the streamed ciphertext body.
use vstd::prelude::*;

verus! {

/// The base64url encrypted metadata blob.
pub const METADATA: &'static str = "x-senders-metadata";
/// base64url SHA-256 of the download auth key.
pub const AUTH_HASH: &'static str = "x-senders-auth-hash";
/// base64url PBKDF2 salt of a password-protected upload.
pub const AUTH_SALT: &'static str = "x-senders-auth-salt";
/// base64url STREAM nonce prefix.
pub const NONCE_PREFIX: &'static str = "x-senders-nonce-prefix";
/// Requested lifetime, in seconds.
pub const EXPIRES_IN: &'static str = "x-senders-expires-in";
/// Requested download budget.
pub const MAX_DOWNLOADS: &'static str = "x-senders-max-downloads";

} // verus!
