//! Client-side cryptography.
//!
//! A 32-byte `secret` (the URL fragment) yields three independent
//! HKDF-SHA256 keys (content, metadata, auth). The file body is sealed in
//! 64 KiB records under the STREAM construction, so truncation and
//! reordering fail loudly instead of silently; the metadata blob is one
//! AES-256-GCM message behind its own random nonce.
use vstd::prelude::*;
use crate::passphrase::{self, passphrase_of, BYTES};
use crate::primitives::{aes256gcm_decrypt, aes256gcm_encrypt, aes256gcm_opened, aes256gcm_sealed, fill_random,
    hkdf_sha256, hkdf_sha256_key, pbkdf2_sha256, pbkdf2_sha256_key, sha256_digest, sha256_of, AES_GCM_P_MAX};
use crate::stream::{nonce_layout, record_nonce};
use crate::text::{decimal, push_decimal};
use crate::wire::{INFO_AUTH, INFO_CONTENT, INFO_METADATA, KEY_LEN, NONCE_LEN, NONCE_PREFIX_LEN, SECRET_LEN, TAG_LEN};

verus! {

broadcast use vstd::string::group_string_axioms;

/// A cryptographic operation failed. Decryption failures are deliberately
/// indistinguishable from one another: a caller cannot tell a wrong key from
/// a tampered record, which is the point.
#[derive(Debug)]
pub struct Error(pub String);

/// `n` bytes from a CSPRNG seeded from the OS.
pub fn random_bytes(n: usize) -> (buf: Vec<u8>)
    ensures
        buf@.len() == n,
{
    let mut buf = vec![0u8; n];
    fill_random(buf.as_mut_slice());
    buf
}

/// A passphrase meant to be carried over a different channel than the share
/// link: five groups of four symbols from fresh random bytes.
pub fn generate_passphrase() -> (phrase: String)
    ensures
        exists|b: Seq<u8>| b.len() == BYTES && phrase@ == passphrase_of(b),
{
    let bytes = random_bytes(BYTES);
    let phrase = passphrase::format(bytes.as_slice());
    assert(phrase@ == passphrase_of(bytes@));
    phrase
}

/// SHA-256, used to turn the auth key into the digest the server stores.
pub fn sha256(data: &[u8]) -> (digest: Vec<u8>)
    ensures
        digest@ == sha256_digest(data@),
{
    let d = sha256_of(data);
    vstd::slice::slice_to_vec(&d)
}

/// The UTF-8 bytes of a key-derivation label.
pub open spec fn label(s: &str) -> Seq<u8> {
    vstd::utf8::encode_utf8(s@)
}

/// Derive `KEY_LEN` bytes from `secret` under an HKDF `info` label. An
/// empty salt is the RFC 5869 default; the secret is already uniformly
/// random.
fn hkdf(secret: &[u8], info: &[u8]) -> (okm: [u8; KEY_LEN])
    ensures
        okm@ == hkdf_sha256_key(secret@, info@),
{
    hkdf_sha256(secret, info)
}

/// Derive an auth key from a password. Deliberately slow: this is the only
/// thing standing between a leaked link and the file.
pub fn pbkdf2(password: &str, salt: &[u8], iterations: u32) -> (okm: [u8; KEY_LEN])
    ensures
        okm@ == pbkdf2_sha256_key(password@, salt@, iterations),
{
    pbkdf2_sha256(password, salt, iterations)
}

/// A sealed metadata blob: the nonce followed by the AES-256-GCM ciphertext
/// of `plaintext` under `key` and that nonce.
pub open spec fn sealed_metadata(key: Seq<u8>, nonce: Seq<u8>, plaintext: Seq<u8>) -> Seq<u8> {
    nonce + aes256gcm_sealed(key, nonce, plaintext)
}

/// What opening a metadata blob yields: nothing when it is too short to
/// hold a nonce and a tag, else the decryption of the rest under its nonce.
pub open spec fn opened_metadata(key: Seq<u8>, sealed: Seq<u8>) -> Option<Seq<u8>> {
    if sealed.len() < NONCE_LEN + TAG_LEN {
        None
    } else {
        aes256gcm_opened(key, sealed.subrange(0, NONCE_LEN as int), sealed.subrange(NONCE_LEN as int, sealed.len() as int))
    }
}

/// The message a failed seal of record `counter` carries.
pub open spec fn seal_failure(counter: u32) -> Seq<char> {
    "failed to seal record "@ + decimal(counter as nat) + ": aead::Error"@
}

/// The message a failed opening of record `counter` carries.
pub open spec fn open_failure(counter: u32) -> Seq<char> {
    "failed to open record "@ + decimal(counter as nat)
}

/// The three keys for one file, plus the auth key the server will check.
#[derive(Debug)]
pub struct FileKeys {
    content: [u8; KEY_LEN],
    metadata: [u8; KEY_LEN],
    /// The download capability. Sent to the server only as a SHA-256 digest.
    pub auth: Vec<u8>,
}

impl FileKeys {
    /// The key the file body is sealed under.
    pub closed spec fn content_key(&self) -> Seq<u8> {
        self.content@
    }

    /// The key the metadata blob is sealed under.
    pub closed spec fn metadata_key(&self) -> Seq<u8> {
        self.metadata@
    }

    /// The download auth key.
    pub closed spec fn auth_key(&self) -> Seq<u8> {
        self.auth@
    }

    /// Derive everything from the URL-fragment secret, which must be
    /// `SECRET_LEN` bytes.
    pub fn derive(secret: &[u8]) -> (keys: Result<FileKeys, Error>)
        ensures
            keys is Ok <==> secret@.len() == SECRET_LEN,
            keys matches Err(e) ==> e.0@ == "secret must be "@ + decimal(SECRET_LEN as nat) + " bytes"@,
            keys matches Ok(k) ==> {
                &&& k.content_key() == hkdf_sha256_key(secret@, label(INFO_CONTENT))
                &&& k.metadata_key() == hkdf_sha256_key(secret@, label(INFO_METADATA))
                &&& k.auth_key() == hkdf_sha256_key(secret@, label(INFO_AUTH))
            },
    {
        if secret.len() != SECRET_LEN {
            let mut m = "secret must be ".to_owned();
            push_decimal(&mut m, SECRET_LEN as u64);
            m.append(" bytes");
            return Err(Error(m));
        }
        let content = hkdf(secret, INFO_CONTENT.as_bytes());
        let metadata = hkdf(secret, INFO_METADATA.as_bytes());
        let auth_key = hkdf(secret, INFO_AUTH.as_bytes());
        Ok(FileKeys { content, metadata, auth: vstd::slice::slice_to_vec(&auth_key) })
    }

    /// Replace the URL-derived auth key with a password-derived one; the
    /// content and metadata keys stay.
    pub fn with_auth(self, auth: Vec<u8>) -> (keys: FileKeys)
        ensures
            keys.auth_key() == auth@,
            keys.content_key() == self.content_key(),
            keys.metadata_key() == self.metadata_key(),
    {
        FileKeys { content: self.content, metadata: self.metadata, auth }
    }

    /// The value the server stores and compares against.
    pub fn auth_hash(&self) -> (digest: Vec<u8>)
        ensures
            digest@ == sha256_digest(self.auth_key()),
    {
        sha256(self.auth.as_slice())
    }

    /// Seal the metadata blob. Layout: `nonce(12) || ciphertext`, under a
    /// fresh random nonce. Fails only on a plaintext longer than AES-GCM
    /// accepts.
    pub fn seal_metadata(&self, plaintext: &[u8]) -> (sealed: Result<Vec<u8>, Error>)
        ensures
            sealed is Ok <==> plaintext@.len() <= AES_GCM_P_MAX,
            sealed matches Ok(s) ==> s@.len() == NONCE_LEN + plaintext@.len() + TAG_LEN
                && s@ == sealed_metadata(self.metadata_key(), s@.subrange(0, NONCE_LEN as int), plaintext@)
                && opened_metadata(self.metadata_key(), s@) == Some(plaintext@),
            sealed matches Err(e) ==> e.0@ == "failed to seal metadata: aead::Error"@,
    {
        let nonce = random_bytes(NONCE_LEN);
        let body = match aes256gcm_encrypt(&self.metadata, nonce.as_slice(), plaintext) {
            Some(b) => b,
            None => return Err(Error("failed to seal metadata: aead::Error".to_owned())),
        };
        let mut out = nonce;
        let ghost n = out@;
        let mut tail = body;
        out.append(&mut tail);
        proof {
            assert(out@.subrange(0, NONCE_LEN as int) =~= n);
            assert(out@.subrange(NONCE_LEN as int, out@.len() as int) =~= aes256gcm_sealed(self.metadata_key(), n, plaintext@));
        }
        Ok(out)
    }

    /// Open a metadata blob sealed by `seal_metadata` under these keys.
    pub fn open_metadata(&self, sealed: &[u8]) -> (plaintext: Result<Vec<u8>, Error>)
        ensures
            plaintext matches Ok(p) ==> opened_metadata(self.metadata_key(), sealed@) == Some(p@),
            plaintext is Err ==> opened_metadata(self.metadata_key(), sealed@) is None,
            plaintext matches Err(e) ==> e.0@ == if sealed@.len() < NONCE_LEN + TAG_LEN {
                "metadata is truncated"@
            } else {
                "failed to open metadata"@
            },
            forall|nonce: Seq<u8>, p: Seq<u8>|
                nonce.len() == NONCE_LEN && p.len() <= AES_GCM_P_MAX
                    && sealed@ == #[trigger] sealed_metadata(self.metadata_key(), nonce, p)
                    && sealed@.len() == NONCE_LEN + p.len() + TAG_LEN
                    ==> plaintext is Ok && plaintext->Ok_0@ == p,
    {
        if sealed.len() < NONCE_LEN + TAG_LEN {
            return Err(Error("metadata is truncated".to_owned()));
        }
        let nonce = &sealed[0..NONCE_LEN];
        let body = &sealed[NONCE_LEN..sealed.len()];
        let opened = aes256gcm_decrypt(&self.metadata, nonce, body);
        proof {
            assert forall|n: Seq<u8>, p: Seq<u8>|
                n.len() == NONCE_LEN && p.len() <= AES_GCM_P_MAX
                    && sealed@ == #[trigger] sealed_metadata(self.metadata_key(), n, p)
                    && sealed@.len() == NONCE_LEN + p.len() + TAG_LEN
                    implies opened is Some && opened->0@ == p by {
                assert(nonce@ =~= n);
                assert(body@ =~= aes256gcm_sealed(self.metadata_key(), n, p));
            }
        }
        match opened {
            Some(p) => Ok(p),
            None => Err(Error("failed to open metadata".to_owned())),
        }
    }

    /// Seal one plaintext record of the body, under the nonce of its
    /// position: the file's prefix, the record counter, and whether it is the
    /// last.
    pub fn seal_record(&self, prefix: &[u8], counter: u32, last: bool, plaintext: &[u8]) -> (sealed: Result<Vec<u8>, Error>)
        requires
            prefix@.len() == NONCE_PREFIX_LEN,
        ensures
            sealed is Ok <==> plaintext@.len() <= AES_GCM_P_MAX,
            sealed matches Ok(c) ==> c@ == aes256gcm_sealed(self.content_key(), nonce_layout(prefix@, counter, last), plaintext@)
                && c@.len() == plaintext@.len() + TAG_LEN
                && aes256gcm_opened(self.content_key(), nonce_layout(prefix@, counter, last), c@) == Some(plaintext@),
            sealed matches Err(e) ==> e.0@ == seal_failure(counter),
    {
        let nonce = record_nonce(prefix, counter, last);
        match aes256gcm_encrypt(&self.content, &nonce, plaintext) {
            Some(c) => Ok(c),
            None => {
                let mut m = "failed to seal record ".to_owned();
                push_decimal(&mut m, counter as u64);
                m.append(": aead::Error");
                Err(Error(m))
            },
        }
    }

    /// Open one ciphertext record. Fails if the record was reordered,
    /// truncated, tampered with, or came from a different file; a record
    /// sealed at this very position under these keys opens to what was
    /// sealed.
    pub fn open_record(&self, prefix: &[u8], counter: u32, last: bool, ciphertext: &[u8]) -> (plaintext: Result<Vec<u8>, Error>)
        requires
            prefix@.len() == NONCE_PREFIX_LEN,
        ensures
            plaintext matches Ok(p) ==> aes256gcm_opened(self.content_key(), nonce_layout(prefix@, counter, last), ciphertext@) == Some(p@),
            plaintext is Err ==> aes256gcm_opened(self.content_key(), nonce_layout(prefix@, counter, last), ciphertext@) is None,
            plaintext matches Err(e) ==> e.0@ == open_failure(counter),
            forall|p: Seq<u8>|
                p.len() <= AES_GCM_P_MAX
                    && ciphertext@ == #[trigger] aes256gcm_sealed(self.content_key(), nonce_layout(prefix@, counter, last), p)
                    ==> plaintext is Ok && plaintext->Ok_0@ == p,
    {
        let nonce = record_nonce(prefix, counter, last);
        match aes256gcm_decrypt(&self.content, &nonce, ciphertext) {
            Some(p) => Ok(p),
            None => {
                let mut m = "failed to open record ".to_owned();
                push_decimal(&mut m, counter as u64);
                Err(Error(m))
            },
        }
    }
}

} // verus!
