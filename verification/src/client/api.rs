//! What the HTTP clients decide around a call: which headers an upload
//! carries, and how a failed call is read.
use vstd::prelude::*;
use crate::header;
use crate::server::meta::opt_view;
use crate::text::{decimal, decimal_string};

verus! {

broadcast use vstd::string::group_string_axioms;

/// A failed API call.
#[derive(Debug)]
pub struct ApiError {
    /// HTTP status, or `None` when the request never reached the server.
    pub status: Option<u16>,
    /// Message safe to show the user; the server's own wording when it sent one.
    pub message: String,
}

impl ApiError {
    /// A failure with `status` and `message`.
    pub fn new(status: Option<u16>, message: String) -> (e: ApiError)
        ensures
            e.status == status,
            e.message@ == message@,
    {
        ApiError { status, message }
    }

    /// A non-success response with status `status`, read as `status_line`
    /// (its code and reason): the server's own message when its body carried
    /// one, else a generic line.
    pub fn from_response(status: u16, status_line: &str, server_message: Option<String>) -> (e: ApiError)
        ensures
            e.status == Some(status),
            e.message@ == match server_message {
                Some(m) => m@,
                None => "request failed with status "@ + status_line@,
            },
    {
        let message = match server_message {
            Some(m) => m,
            None => {
                let mut m = "request failed with status ".to_owned();
                m.append(status_line);
                m
            },
        };
        ApiError { status: Some(status), message }
    }

    /// The download capability was rejected: usually a wrong passphrase.
    pub fn is_unauthorized(&self) -> (b: bool)
        ensures
            b == (self.status == Some(401u16)),
    {
        match self.status {
            Some(s) => s == 401,
            None => false,
        }
    }

    /// The share is gone: expired, used up, or deleted.
    pub fn is_missing(&self) -> (b: bool)
        ensures
            b == (self.status == Some(404u16) || self.status == Some(410u16)),
    {
        match self.status {
            Some(s) => s == 404 || s == 410,
            None => false,
        }
    }
}

/// Parameters that ride alongside an upload body.
#[derive(Debug)]
pub struct UploadParams {
    /// base64url sealed metadata blob.
    pub metadata: String,
    /// base64url SHA-256 of the download capability.
    pub auth_hash: String,
    /// base64url STREAM nonce prefix.
    pub nonce_prefix: String,
    /// base64url PBKDF2 salt, when a passphrase is set.
    pub auth_salt: Option<String>,
    /// Requested lifetime in seconds; `None` lets the server pick its default.
    pub expires_in: Option<u64>,
    /// Requested download budget; `None` lets the server pick its default.
    pub max_downloads: Option<u32>,
}

/// The views of a list of header name/value pairs.
pub open spec fn header_views(h: Seq<(&str, String)>) -> Seq<(Seq<char>, Seq<char>)> {
    h.map_values(|p: (&str, String)| (p.0@, p.1@))
}

/// The headers an upload carries: metadata, auth hash and nonce prefix
/// always; the salt, lifetime and budget only when set, numbers in decimal.
pub open spec fn upload_header_list(p: UploadParams) -> Seq<(Seq<char>, Seq<char>)> {
    seq![(header::METADATA@, p.metadata@), (header::AUTH_HASH@, p.auth_hash@), (header::NONCE_PREFIX@, p.nonce_prefix@)]
        + match p.auth_salt {
            Some(s) => seq![(header::AUTH_SALT@, s@)],
            None => Seq::empty(),
        }
        + match p.expires_in {
            Some(n) => seq![(header::EXPIRES_IN@, decimal(n as nat))],
            None => Seq::empty(),
        }
        + match p.max_downloads {
            Some(n) => seq![(header::MAX_DOWNLOADS@, decimal(n as nat))],
            None => Seq::empty(),
        }
}

/// An upload carries every parameter that is set, each under its own
/// header: the metadata, auth hash and nonce prefix always, the salt, the
/// lifetime and the budget (in decimal) exactly when they are set; a
/// parameter that is not set sends no header of its name.
pub proof fn lemma_upload_headers_carry_what_is_set(p: UploadParams)
    ensures
        upload_header_list(p).contains((header::METADATA@, p.metadata@)),
        upload_header_list(p).contains((header::AUTH_HASH@, p.auth_hash@)),
        upload_header_list(p).contains((header::NONCE_PREFIX@, p.nonce_prefix@)),
        p.auth_salt matches Some(s) ==> upload_header_list(p).contains((header::AUTH_SALT@, s@)),
        p.expires_in matches Some(n) ==> upload_header_list(p).contains((header::EXPIRES_IN@, decimal(n as nat))),
        p.max_downloads matches Some(n) ==> upload_header_list(p).contains((header::MAX_DOWNLOADS@, decimal(n as nat))),
        p.auth_salt is None ==> forall|i: int| 0 <= i < upload_header_list(p).len()
            ==> (#[trigger] upload_header_list(p)[i]).0 != header::AUTH_SALT@,
        p.expires_in is None ==> forall|i: int| 0 <= i < upload_header_list(p).len()
            ==> (#[trigger] upload_header_list(p)[i]).0 != header::EXPIRES_IN@,
        p.max_downloads is None ==> forall|i: int| 0 <= i < upload_header_list(p).len()
            ==> (#[trigger] upload_header_list(p)[i]).0 != header::MAX_DOWNLOADS@,
{
    reveal_strlit("x-senders-metadata");
    reveal_strlit("x-senders-auth-hash");
    reveal_strlit("x-senders-auth-salt");
    reveal_strlit("x-senders-nonce-prefix");
    reveal_strlit("x-senders-expires-in");
    reveal_strlit("x-senders-max-downloads");
    let l = upload_header_list(p);
    let salt: Seq<(Seq<char>, Seq<char>)> = match p.auth_salt {
        Some(s) => seq![(header::AUTH_SALT@, s@)],
        None => Seq::empty(),
    };
    let exp: Seq<(Seq<char>, Seq<char>)> = match p.expires_in {
        Some(n) => seq![(header::EXPIRES_IN@, decimal(n as nat))],
        None => Seq::empty(),
    };
    let max: Seq<(Seq<char>, Seq<char>)> = match p.max_downloads {
        Some(n) => seq![(header::MAX_DOWNLOADS@, decimal(n as nat))],
        None => Seq::empty(),
    };
    let base = seq![(header::METADATA@, p.metadata@), (header::AUTH_HASH@, p.auth_hash@),
        (header::NONCE_PREFIX@, p.nonce_prefix@)];
    assert(l =~= base + salt + exp + max);
    assert(l[0] == base[0]);
    assert(l[1] == base[1]);
    assert(l[2] == base[2]);
    if p.auth_salt is Some {
        assert(l[3] == salt[0]);
    }
    if p.expires_in is Some {
        assert(l[3 + salt.len() as int] == exp[0]);
    }
    if p.max_downloads is Some {
        assert(l[3 + salt.len() as int + exp.len() as int] == max[0]);
    }
    assert(header::METADATA@ != header::AUTH_SALT@ && header::METADATA@ != header::EXPIRES_IN@
        && header::METADATA@ != header::MAX_DOWNLOADS@) by {
        assert(header::METADATA@[10] != header::AUTH_SALT@[10]);
        assert(header::METADATA@[10] != header::EXPIRES_IN@[10]);
        assert(header::METADATA@[11] != header::MAX_DOWNLOADS@[11]);
    }
    assert(header::AUTH_HASH@ != header::AUTH_SALT@ && header::AUTH_HASH@ != header::EXPIRES_IN@
        && header::AUTH_HASH@ != header::MAX_DOWNLOADS@) by {
        assert(header::AUTH_HASH@[15] != header::AUTH_SALT@[15]);
        assert(header::AUTH_HASH@[10] != header::EXPIRES_IN@[10]);
        assert(header::AUTH_HASH@[10] != header::MAX_DOWNLOADS@[10]);
    }
    assert(header::NONCE_PREFIX@ != header::AUTH_SALT@ && header::NONCE_PREFIX@ != header::EXPIRES_IN@
        && header::NONCE_PREFIX@ != header::MAX_DOWNLOADS@) by {
        assert(header::NONCE_PREFIX@[10] != header::AUTH_SALT@[10]);
        assert(header::NONCE_PREFIX@[10] != header::EXPIRES_IN@[10]);
        assert(header::NONCE_PREFIX@[10] != header::MAX_DOWNLOADS@[10]);
    }
    assert(header::AUTH_SALT@ != header::EXPIRES_IN@ && header::AUTH_SALT@ != header::MAX_DOWNLOADS@
        && header::EXPIRES_IN@ != header::MAX_DOWNLOADS@) by {
        assert(header::AUTH_SALT@[10] != header::EXPIRES_IN@[10]);
        assert(header::AUTH_SALT@[10] != header::MAX_DOWNLOADS@[10]);
        assert(header::EXPIRES_IN@[10] != header::MAX_DOWNLOADS@[10]);
    }
}

impl UploadParams {
    /// The headers of the upload request, in order.
    pub fn headers(&self) -> (h: Vec<(&'static str, String)>)
        ensures
            header_views(h@) == upload_header_list(*self),
            self.auth_salt matches Some(v) ==> header_views(h@).contains((header::AUTH_SALT@, v@)),
            self.expires_in matches Some(n) ==> header_views(h@).contains((header::EXPIRES_IN@, decimal(n as nat))),
            self.max_downloads matches Some(n) ==> header_views(h@).contains((header::MAX_DOWNLOADS@, decimal(n as nat))),
    {
        proof { lemma_upload_headers_carry_what_is_set(*self); }
        let mut h: Vec<(&'static str, String)> = Vec::new();
        h.push((header::METADATA, self.metadata.clone()));
        h.push((header::AUTH_HASH, self.auth_hash.clone()));
        h.push((header::NONCE_PREFIX, self.nonce_prefix.clone()));
        let ghost fixed = header_views(h@);
        assert(fixed =~= seq![(header::METADATA@, self.metadata@), (header::AUTH_HASH@, self.auth_hash@),
            (header::NONCE_PREFIX@, self.nonce_prefix@)]);
        match &self.auth_salt {
            Some(s) => h.push((header::AUTH_SALT, s.clone())),
            None => {},
        }
        let ghost with_salt = header_views(h@);
        match self.expires_in {
            Some(n) => h.push((header::EXPIRES_IN, decimal_string(n))),
            None => {},
        }
        let ghost with_expiry = header_views(h@);
        match self.max_downloads {
            Some(n) => h.push((header::MAX_DOWNLOADS, decimal_string(n as u64))),
            None => {},
        }
        proof {
            assert(header_views(h@) =~= upload_header_list(*self));
        }
        h
    }
}

} // verus!
