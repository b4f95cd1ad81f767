//! What the command-line client decides between its network and file calls:
//! which keys a share opens with, what an upload announces, and how an
//! expiry reads.
use vstd::prelude::*;
use crate::b64::{self, b64url_decoded, opt_bytes};
use crate::client::crypto::{self, opened_metadata, Error, FileKeys};
use crate::primitives::{b64url_text, hkdf_sha256_key, pbkdf2_sha256_key, utc_stamp, utc_stamp_text};
use crate::server::meta::opt_view;
use crate::text::{decimal, push_decimal};
use crate::wire::{FileParams, MetadataResponse, AUTH_SALT_LEN, INFO_AUTH, INFO_CONTENT, INFO_METADATA,
    NONCE_PREFIX_LEN, SECRET_LEN};
use crate::client::api::UploadParams;
use crate::client::crypto::label;

verus! {

broadcast use vstd::string::group_string_axioms;

/// The command to run.
#[derive(Debug)]
pub enum Command {
    /// Encrypt and upload a file, printing its share link.
    Upload(UploadArgs),
    /// Download and decrypt a share link.
    Download(DownloadArgs),
    /// Print the server's limits and auth mode.
    Info,
}

/// Arguments for `upload`.
#[derive(Debug)]
pub struct UploadArgs {
    /// File to encrypt and upload.
    pub file: String,
    /// Lifetime of the share, in seconds; the server clamps it.
    pub expires_in: Option<u64>,
    /// Downloads allowed before the file is destroyed; the server clamps it.
    pub max_downloads: Option<u32>,
    /// Require this passphrase to download.
    pub password: Option<String>,
    /// Generate a random passphrase instead, and print it.
    pub generate_password: bool,
    /// Name to record in the encrypted metadata.
    pub name: Option<String>,
    /// MIME type to record in the encrypted metadata.
    pub mime: String,
}

/// Arguments for `download`.
#[derive(Debug)]
pub struct DownloadArgs {
    /// Share link: `<url>/d/<id>#<secret>`, or bare `<id>#<secret>`.
    pub link: String,
    /// Where to write the decrypted file.
    pub output: Option<String>,
    /// Passphrase, if the share requires one.
    pub password: Option<String>,
}

/// Whether a command draws progress bars.
#[derive(Debug, Clone, Copy, PartialEq, Eq, Structural)]
pub enum Mode {
    /// Draw a bar when stderr is a terminal.
    Auto,
    /// Never draw one.
    Off,
}

/// A lifetime of `left` seconds at the granularity the frontend uses:
/// minutes under an hour, hours under a day, else days and hours.
pub open spec fn span_text(left: nat) -> Seq<char> {
    let days = left / 86400;
    let hours = (left % 86400) / 3600;
    let minutes = (left % 3600) / 60;
    if days == 0 && hours == 0 {
        decimal(minutes) + " min"@
    } else if days == 0 {
        decimal(hours) + " h"@
    } else {
        decimal(days) + " d "@ + decimal(hours) + " h"@
    }
}

/// The absolute half of an expiry: the UTC instant, or the raw Unix time
/// when it is out of the calendar's range.
pub open spec fn expiry_stamp(expires_at: u64) -> Seq<char> {
    if expires_at <= i64::MAX && utc_stamp_text(expires_at as i64) is Some {
        utc_stamp_text(expires_at as i64)->0
    } else {
        "unix time "@ + decimal(expires_at as nat)
    }
}

/// An expiry as an instant to note down, then the lifetime it works out to
/// from `now`, or that it already passed.
pub open spec fn expiry_text(expires_at: u64, now: u64) -> Seq<char> {
    if expires_at < now {
        expiry_stamp(expires_at) + " (already expired)"@
    } else {
        expiry_stamp(expires_at) + " (in "@ + span_text((expires_at - now) as nat) + ")"@
    }
}

/// Describe when a share expires, relative to `now`.
pub fn describe_expiry(expires_at: u64, now: u64) -> (text: String)
    ensures
        text@ == expiry_text(expires_at, now),
{
    let stamp = if expires_at <= 9223372036854775807 {
        match utc_stamp(expires_at as i64) {
            Some(s) => s,
            None => {
                let mut s = "unix time ".to_owned();
                push_decimal(&mut s, expires_at);
                s
            },
        }
    } else {
        let mut s = "unix time ".to_owned();
        push_decimal(&mut s, expires_at);
        s
    };
    let mut text = stamp;
    if expires_at < now {
        text.append(" (already expired)");
        return text;
    }
    let left = expires_at - now;
    let days = left / 86400;
    let hours = (left % 86400) / 3600;
    let minutes = (left % 3600) / 60;
    text.append(" (in ");
    if days == 0 && hours == 0 {
        push_decimal(&mut text, minutes);
        text.append(" min");
    } else if days == 0 {
        push_decimal(&mut text, hours);
        text.append(" h");
    } else {
        push_decimal(&mut text, days);
        text.append(" d ");
        push_decimal(&mut text, hours);
        text.append(" h");
    }
    text.append(")");
    text
}

/// The auth key a download presents: derived from the link secret, unless
/// the share is password-protected, in which case it is stretched from the
/// password over the salt and rounds the server announced.
pub open spec fn download_auth_key(secret: Seq<u8>, params: FileParams, password: Option<Seq<char>>) -> Seq<u8> {
    if params.has_password {
        pbkdf2_sha256_key(password->0, b64url_decoded(params.auth_salt->0@)->0, params.kdf_iterations)
    } else {
        hkdf_sha256_key(secret, label(INFO_AUTH))
    }
}

/// A salt the server announced is the base64url of `AUTH_SALT_LEN` bytes.
pub open spec fn salt_ok(text: Seq<char>) -> bool {
    b64url_decoded(text) is Some && b64url_decoded(text)->0.len() == AUTH_SALT_LEN
}

/// The keys a download opens with. A password-protected share needs a
/// password and a well-formed `AUTH_SALT_LEN`-byte salt from the server.
pub fn download_keys(secret: &[u8], params: &FileParams, password: Option<&str>) -> (keys: Result<FileKeys, String>)
    ensures
        keys is Ok <==> secret@.len() == SECRET_LEN && (params.has_password ==> password is Some
            && params.auth_salt is Some && salt_ok(params.auth_salt->0@)),
        keys matches Ok(k) ==> {
            &&& k.content_key() == hkdf_sha256_key(secret@, label(INFO_CONTENT))
            &&& k.metadata_key() == hkdf_sha256_key(secret@, label(INFO_METADATA))
            &&& k.auth_key() == download_auth_key(secret@, *params, opt_str(password))
        },
        secret@.len() != SECRET_LEN ==> keys is Err && keys->Err_0@ == "secret must be "@ + decimal(SECRET_LEN as nat)
            + " bytes"@,
        secret@.len() == SECRET_LEN && params.has_password && password is None
            ==> keys is Err && keys->Err_0@ == "this share requires a passphrase — pass --password"@,
        secret@.len() == SECRET_LEN && params.has_password && password is Some && params.auth_salt is None
            ==> keys is Err && keys->Err_0@ == "the server reported a password but sent no salt"@,
        secret@.len() == SECRET_LEN && params.has_password && password is Some && params.auth_salt is Some
            && !salt_ok(params.auth_salt->0@)
            ==> keys is Err && keys->Err_0@ == "the server's auth salt is malformed"@,
{
    let keys = match FileKeys::derive(secret) {
        Ok(k) => k,
        Err(e) => return Err(e.0),
    };
    if !params.has_password {
        return Ok(keys);
    }
    let password = match password {
        Some(p) => p,
        None => return Err("this share requires a passphrase — pass --password".to_owned()),
    };
    let salt_text = match &params.auth_salt {
        Some(s) => s,
        None => return Err("the server reported a password but sent no salt".to_owned()),
    };
    let salt = match b64::decode_array::<AUTH_SALT_LEN>(salt_text.as_str()) {
        Some(s) => s,
        None => {
            proof {
                if salt_ok(salt_text@) {
                    let c = choose|b: Seq<u8>| #[trigger] b64url_text(b) == salt_text@;
                    assert(c.len() == AUTH_SALT_LEN);
                }
            }
            return Err("the server's auth salt is malformed".to_owned());
        },
    };
    proof {
        let c = choose|b: Seq<u8>| #[trigger] b64url_text(b) == salt_text@;
        b64::lemma_text_injective(c, salt@);
    }
    let auth = crypto::pbkdf2(password, &salt, params.kdf_iterations);
    Ok(keys.with_auth(vstd::slice::slice_to_vec(&auth)))
}

/// The plain value of an optional string slice.
pub open spec fn opt_str(s: Option<&str>) -> Option<Seq<char>> {
    match s {
        Some(t) => Some(t@),
        None => None,
    }
}

/// The keys an upload seals with: derived from the fresh link secret, the
/// auth key stretched from a password over `salt` when one is set.
pub fn upload_keys(secret: &[u8], password: Option<&str>, salt: &[u8], iterations: u32) -> (keys: Result<FileKeys, Error>)
    ensures
        keys is Ok <==> secret@.len() == SECRET_LEN,
        keys matches Ok(k) ==> {
            &&& k.content_key() == hkdf_sha256_key(secret@, label(INFO_CONTENT))
            &&& k.metadata_key() == hkdf_sha256_key(secret@, label(INFO_METADATA))
            &&& k.auth_key() == match password {
                Some(p) => pbkdf2_sha256_key(p@, salt@, iterations),
                None => hkdf_sha256_key(secret@, label(INFO_AUTH)),
            }
        },
{
    let keys = FileKeys::derive(secret)?;
    match password {
        Some(p) => {
            let auth = crypto::pbkdf2(p, salt, iterations);
            Ok(keys.with_auth(vstd::slice::slice_to_vec(&auth)))
        },
        None => Ok(keys),
    }
}

/// What an upload announces beside its body: the sealed metadata, the auth
/// hash, the nonce prefix and the salt in base64url, and the requested
/// lifetime and budget as given.
pub fn upload_params(sealed_metadata: &[u8], auth_hash: &[u8], nonce_prefix: &[u8], auth_salt: Option<&[u8]>,
    expires_in: Option<u64>, max_downloads: Option<u32>) -> (params: UploadParams)
    requires
        b64::encodable(sealed_metadata@),
        b64::encodable(auth_hash@),
        b64::encodable(nonce_prefix@),
        auth_salt matches Some(s) ==> b64::encodable(s@),
    ensures
        params.metadata@ == b64url_text(sealed_metadata@),
        params.auth_hash@ == b64url_text(auth_hash@),
        params.nonce_prefix@ == b64url_text(nonce_prefix@),
        params.auth_salt is Some <==> auth_salt is Some,
        params.auth_salt matches Some(s) ==> s@ == b64url_text(auth_salt->0@),
        params.expires_in == expires_in,
        params.max_downloads == max_downloads,
{
    UploadParams {
        metadata: b64::encode(sealed_metadata),
        auth_hash: b64::encode(auth_hash),
        nonce_prefix: b64::encode(nonce_prefix),
        auth_salt: match auth_salt {
            Some(s) => Some(b64::encode(s)),
            None => None,
        },
        expires_in,
        max_downloads,
    }
}

/// Open what a metadata response carries: the sealed blob must be
/// base64url and open under the keys, and the nonce prefix base64url.
/// Gives back the metadata plaintext and the nonce prefix.
pub fn open_download(keys: &FileKeys, response: &MetadataResponse) -> (opened: Result<(Vec<u8>, Vec<u8>), String>)
    ensures
        opened is Ok <==> (b64url_decoded(response.metadata@) is Some
            && opened_metadata(keys.metadata_key(), b64url_decoded(response.metadata@)->0) is Some
            && b64url_decoded(response.nonce_prefix@) is Some),
        opened matches Ok((plain, prefix)) ==> opened_metadata(keys.metadata_key(), b64url_decoded(response.metadata@)->0)
            == Some(plain@) && b64url_decoded(response.nonce_prefix@) == Some(prefix@),
        opened matches Err(m) ==> m@ == if b64url_decoded(response.metadata@) is None {
            "the server's metadata blob is malformed"@
        } else if opened_metadata(keys.metadata_key(), b64url_decoded(response.metadata@)->0) is None {
            "could not decrypt the metadata — wrong passphrase, or a bad link"@
        } else {
            "the server's nonce prefix is malformed"@
        },
{
    let sealed = match b64::decode(response.metadata.as_str()) {
        Some(s) => s,
        None => return Err("the server's metadata blob is malformed".to_owned()),
    };
    let plain = match keys.open_metadata(sealed.as_slice()) {
        Ok(p) => p,
        Err(_) => return Err("could not decrypt the metadata — wrong passphrase, or a bad link".to_owned()),
    };
    let prefix = match b64::decode(response.nonce_prefix.as_str()) {
        Some(p) => p,
        None => return Err("the server's nonce prefix is malformed".to_owned()),
    };
    Ok((plain, prefix))
}

} // verus!
