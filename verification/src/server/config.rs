//! Runtime configuration: the values the server's rules read, and the rules
//! that clamp requests into the configured window.
use vstd::prelude::*;
use crate::text::{self, decimal, lower, split_on, trim_ws, trim_end_char, trim_end_newlines, views};
use crate::wire::{DEFAULT_MAX_DOWNLOADS, MAX_DOWNLOADS, MAX_EXPIRY_SECS, MIN_EXPIRY_SECS};

verus! {

/// How much of the service sits behind OIDC login.
#[derive(Debug, Clone, Copy, PartialEq, Eq, Structural)]
pub enum AuthMode {
    /// Anyone may upload and download.
    Off,
    /// Uploading requires a login; share links stay publicly downloadable.
    Upload,
    /// Every API route requires a login: the service is fully hidden.
    All,
}

/// The name of each mode, as it appears in configuration and `/api/info`.
pub open spec fn mode_name(mode: AuthMode) -> Seq<char> {
    match mode {
        AuthMode::Off => "off"@,
        AuthMode::Upload => "upload"@,
        AuthMode::All => "all"@,
    }
}

impl AuthMode {
    /// The mode's name, as it appears in configuration and `/api/info`.
    pub fn as_str(self) -> (name: &'static str)
        ensures
            name@ == mode_name(self),
    {
        match self {
            AuthMode::Off => "off",
            AuthMode::Upload => "upload",
            AuthMode::All => "all",
        }
    }

    /// Whether any route requires a signed-in user.
    pub fn enabled(self) -> (on: bool)
        ensures
            on == (self != AuthMode::Off),
    {
        !matches!(self, AuthMode::Off)
    }
}

/// Everything the server reads at startup, as plain values.
#[derive(Debug, Clone)]
pub struct Config {
    /// Blob storage URI: `fs:<path>` or `s3://<bucket>[/<prefix>]`.
    pub storage: String,
    /// Metadata store URI: `redis://...` or `memory:`.
    pub metadata: String,
    /// Largest accepted ciphertext, in bytes.
    pub max_file_size: u64,
    /// Expiry offered when the client does not ask for one, in seconds.
    pub default_expiry: u64,
    /// Longest expiry a client may request, in seconds (capped at 30 days).
    pub max_expiry: u64,
    /// Largest download budget a client may request.
    pub max_downloads: u32,
    /// Seconds between sweeps for expired files.
    pub reap_interval: u64,
    /// Public origin of this service; used to build OIDC redirect URIs.
    pub public_url: String,
    /// Which routes require an authenticated session.
    pub auth_mode: AuthMode,
    /// OIDC issuer URL.
    pub oidc_issuer: Option<String>,
    /// OIDC client identifier.
    pub oidc_client_id: Option<String>,
    /// OIDC client secret, for confidential clients.
    pub oidc_client_secret: Option<String>,
    /// Extra scopes to request, comma-separated.
    pub oidc_scopes: String,
    /// If set, only these comma-separated email domains may sign in.
    pub oidc_allowed_domains: Option<String>,
    /// Key used to sign session cookies.
    pub session_secret: Option<String>,
    /// Session lifetime, in seconds.
    pub session_ttl: u64,
    /// Drop the `Secure` attribute on cookies, for plain-HTTP local testing.
    pub cookie_insecure: bool,
}

/// `x` clamped into `[lo, hi]`, as `Ord::clamp` does when `lo <= hi`.
pub open spec fn clamp(x: int, lo: int, hi: int) -> int {
    if x < lo { lo } else if x > hi { hi } else { x }
}

/// The normalised entries of a comma-separated allow-list: each trimmed and
/// lowercased, empty entries dropped.
pub open spec fn domain_entries(pieces: Seq<Seq<char>>) -> Seq<Seq<char>>
    decreases pieces.len(),
{
    if pieces.len() == 0 {
        Seq::empty()
    } else {
        let d = lower(trim_ws(pieces.last()));
        domain_entries(pieces.drop_last()) + if d.len() > 0 { seq![d] } else { Seq::<Seq<char>>::empty() }
    }
}

/// The value a secret file holds: its contents less trailing line breaks.
pub open spec fn secret_file_value(contents: Seq<char>) -> Seq<char> {
    trim_end_newlines(contents)
}

impl Config {
    /// The longest lifetime this server will actually grant.
    pub fn effective_max_expiry(&self) -> (max: u64)
        ensures
            max == clamp(self.max_expiry as int, MIN_EXPIRY_SECS as int, MAX_EXPIRY_SECS as int),
    {
        if self.max_expiry < MIN_EXPIRY_SECS {
            MIN_EXPIRY_SECS
        } else if self.max_expiry > MAX_EXPIRY_SECS {
            MAX_EXPIRY_SECS
        } else {
            self.max_expiry
        }
    }

    /// The largest download budget this server will actually grant.
    pub fn effective_max_downloads(&self) -> (max: u32)
        ensures
            max == clamp(self.max_downloads as int, 1, MAX_DOWNLOADS as int),
    {
        if self.max_downloads < 1 {
            1
        } else if self.max_downloads > MAX_DOWNLOADS {
            MAX_DOWNLOADS
        } else {
            self.max_downloads
        }
    }

    /// Clamp a requested expiry into the configured window. The result is
    /// always between one day and the effective maximum.
    pub fn clamp_expiry(&self, requested: Option<u64>) -> (granted: u64)
        ensures
            granted == clamp(
                match requested { Some(r) => r as int, None => self.default_expiry as int },
                MIN_EXPIRY_SECS as int,
                clamp(self.max_expiry as int, MIN_EXPIRY_SECS as int, MAX_EXPIRY_SECS as int),
            ),
            MIN_EXPIRY_SECS <= granted <= MAX_EXPIRY_SECS,
    {
        let max = self.effective_max_expiry();
        let asked = match requested {
            Some(r) => r,
            None => self.default_expiry,
        };
        if asked < MIN_EXPIRY_SECS {
            MIN_EXPIRY_SECS
        } else if asked > max {
            max
        } else {
            asked
        }
    }

    /// Clamp a requested download budget into the configured window. The
    /// result is always between one and the effective maximum.
    pub fn clamp_downloads(&self, requested: Option<u32>) -> (granted: u32)
        ensures
            granted == clamp(
                match requested { Some(r) => r as int, None => DEFAULT_MAX_DOWNLOADS as int },
                1,
                clamp(self.max_downloads as int, 1, MAX_DOWNLOADS as int),
            ),
            1 <= granted <= MAX_DOWNLOADS,
    {
        let max = self.effective_max_downloads();
        let asked = match requested {
            Some(r) => r,
            None => DEFAULT_MAX_DOWNLOADS,
        };
        if asked < 1 {
            1
        } else if asked > max {
            max
        } else {
            asked
        }
    }

    /// The OIDC redirect URI, derived from the public URL.
    pub fn redirect_uri(&self) -> (uri: String)
        ensures
            uri@ == trim_end_char(self.public_url@, '/') + "/auth/callback"@,
    {
        let mut uri = text::trim_end_matches_char(self.public_url.as_str(), '/');
        uri.append("/auth/callback");
        uri
    }

    /// The email-domain allow-list, lowercased and split.
    pub fn allowed_domains(&self) -> (domains: Vec<String>)
        ensures
            text::string_views(domains@) == domain_entries(split_on(
                match self.oidc_allowed_domains { Some(d) => d@, None => Seq::empty() },
                ',',
            )),
    {
        let raw: Vec<char> = match &self.oidc_allowed_domains {
            Some(d) => text::chars_of(d.as_str()),
            None => Vec::new(),
        };
        let pieces = text::split_chars(raw.as_slice(), ',');
        let mut domains: Vec<String> = Vec::new();
        let mut i: usize = 0;
        while i < pieces.len()
            invariant
                i <= pieces@.len(),
                text::string_views(domains@) == domain_entries(views(pieces@).subrange(0, i as int)),
            decreases pieces@.len() - i,
        {
            let piece = &pieces[i];
            let (a, b) = text::trim_bounds(piece.as_slice());
            let d = text::lowercase_of(&piece.as_slice()[a..b]);
            let ghost before = domains@;
            if !d.as_str().is_empty() {
                domains.push(d);
            }
            proof {
                let sub = views(pieces@).subrange(0, i + 1);
                assert(sub.drop_last() =~= views(pieces@).subrange(0, i as int));
                assert(sub.last() == pieces@[i as int]@);
                assert(text::string_views(domains@) =~= domain_entries(sub));
            }
            i += 1;
        }
        assert(views(pieces@).subrange(0, pieces@.len() as int) =~= views(pieces@));
        domains
    }

    /// Fill each secret from the contents of its file, as read at startup:
    /// a trailing line break is stripped, and a file holding nothing else
    /// is refused as an unpopulated mount rather than taken as an empty
    /// secret. Each file is given as its path and its contents.
    pub fn load_secret_files(
        &mut self,
        oidc_client_secret_file: Option<(&str, &str)>,
        session_secret_file: Option<(&str, &str)>,
    ) -> (outcome: Result<(), String>)
        ensures
            outcome is Ok <==> (oidc_client_secret_file matches Some((_, c)) ==> secret_file_value(c@).len() > 0)
                && (session_secret_file matches Some((_, c)) ==> secret_file_value(c@).len() > 0),
            (match oidc_client_secret_file {
                Some((_, c)) => if secret_file_value(c@).len() > 0 {
                    final(self).oidc_client_secret matches Some(s) && s@ == secret_file_value(c@)
                } else {
                    final(self).oidc_client_secret == old(self).oidc_client_secret
                        && final(self).session_secret == old(self).session_secret
                },
                None => final(self).oidc_client_secret == old(self).oidc_client_secret,
            }),
            (match session_secret_file {
                Some((_, c)) => if secret_file_value(c@).len() > 0 {
                    outcome is Ok ==> (final(self).session_secret matches Some(s) && s@ == secret_file_value(c@))
                } else {
                    final(self).session_secret == old(self).session_secret
                },
                None => final(self).session_secret == old(self).session_secret,
            }),
            outcome matches Err(m) ==> m@ == "the secret file "@ + empty_file_path(oidc_client_secret_file, session_secret_file)
                + " is empty"@,
            final(self).storage == old(self).storage,
            final(self).metadata == old(self).metadata,
            final(self).max_file_size == old(self).max_file_size,
            final(self).default_expiry == old(self).default_expiry,
            final(self).max_expiry == old(self).max_expiry,
            final(self).max_downloads == old(self).max_downloads,
            final(self).reap_interval == old(self).reap_interval,
            final(self).public_url == old(self).public_url,
            final(self).auth_mode == old(self).auth_mode,
            final(self).oidc_issuer == old(self).oidc_issuer,
            final(self).oidc_client_id == old(self).oidc_client_id,
            final(self).oidc_scopes == old(self).oidc_scopes,
            final(self).oidc_allowed_domains == old(self).oidc_allowed_domains,
            final(self).session_ttl == old(self).session_ttl,
            final(self).cookie_insecure == old(self).cookie_insecure,
    {
        if let Some((path, contents)) = oidc_client_secret_file {
            let value = text::trim_end_newlines_of(contents);
            if value.as_str().is_empty() {
                return Err(empty_secret_message(path));
            }
            self.oidc_client_secret = Some(value);
        }
        if let Some((path, contents)) = session_secret_file {
            let value = text::trim_end_newlines_of(contents);
            if value.as_str().is_empty() {
                return Err(empty_secret_message(path));
            }
            self.session_secret = Some(value);
        }
        Ok(())
    }

    /// Reject configurations that would silently do the wrong thing: a login
    /// mode without an issuer or client id, or a default expiry outside the
    /// window this server grants.
    pub fn validate(&self) -> (outcome: Result<(), String>)
        ensures
            outcome is Ok <==> (self.auth_mode != AuthMode::Off ==> self.oidc_issuer is Some && self.oidc_client_id is Some)
                && MIN_EXPIRY_SECS <= self.default_expiry
                && self.default_expiry <= clamp(self.max_expiry as int, MIN_EXPIRY_SECS as int, MAX_EXPIRY_SECS as int),
            outcome matches Err(m) ==> m@ == if self.auth_mode != AuthMode::Off && self.oidc_issuer is None {
                "--auth-mode "@ + mode_name(self.auth_mode) + " requires --oidc-issuer"@
            } else if self.auth_mode != AuthMode::Off && self.oidc_client_id is None {
                "--auth-mode "@ + mode_name(self.auth_mode) + " requires --oidc-client-id"@
            } else {
                "--default-expiry must be between "@ + decimal(MIN_EXPIRY_SECS as nat) + " and "@
                    + decimal(clamp(self.max_expiry as int, MIN_EXPIRY_SECS as int, MAX_EXPIRY_SECS as int) as nat)
                    + " seconds"@
            },
    {
        if self.auth_mode.enabled() {
            if self.oidc_issuer.is_none() {
                let mut m = "--auth-mode ".to_owned();
                m.append(self.auth_mode.as_str());
                m.append(" requires --oidc-issuer");
                return Err(m);
            }
            if self.oidc_client_id.is_none() {
                let mut m = "--auth-mode ".to_owned();
                m.append(self.auth_mode.as_str());
                m.append(" requires --oidc-client-id");
                return Err(m);
            }
        }
        let max = self.effective_max_expiry();
        if self.default_expiry < MIN_EXPIRY_SECS || self.default_expiry > max {
            let mut m = "--default-expiry must be between ".to_owned();
            text::push_decimal(&mut m, MIN_EXPIRY_SECS);
            m.append(" and ");
            text::push_decimal(&mut m, max);
            m.append(" seconds");
            return Err(m);
        }
        Ok(())
    }
}

/// The path of the first secret file, in the order they are read, that
/// holds nothing but line breaks.
pub open spec fn empty_file_path(first: Option<(&str, &str)>, second: Option<(&str, &str)>) -> Seq<char> {
    match first {
        Some((p, c)) if secret_file_value(c@).len() == 0 => p@,
        _ => match second {
            Some((p, _)) => p@,
            None => Seq::empty(),
        },
    }
}

/// The error for a secret file that holds nothing but line breaks.
fn empty_secret_message(path: &str) -> (m: String)
    ensures
        m@ == "the secret file "@ + path@ + " is empty"@,
{
    let mut m = "the secret file ".to_owned();
    m.append(path);
    m.append(" is empty");
    m
}

impl Default for Config {
    /// The configuration a server started without any option runs with.
    fn default() -> (config: Config)
        ensures
            config.storage@ == "fs:./data/blobs"@,
            config.metadata@ == "memory:"@,
            config.max_file_size == 2147483648,
            config.default_expiry == crate::wire::DEFAULT_EXPIRY_SECS,
            config.max_expiry == MAX_EXPIRY_SECS,
            config.max_downloads == MAX_DOWNLOADS,
            config.reap_interval == 60,
            config.public_url@ == "http://localhost:8080"@,
            config.auth_mode == AuthMode::Off,
            config.oidc_issuer is None,
            config.oidc_client_id is None,
            config.oidc_client_secret is None,
            config.oidc_scopes@ == "email,profile"@,
            config.oidc_allowed_domains is None,
            config.session_secret is None,
            config.session_ttl == 43200,
            !config.cookie_insecure,
    {
        Config {
            storage: "fs:./data/blobs".to_owned(),
            metadata: "memory:".to_owned(),
            max_file_size: 2147483648,
            default_expiry: crate::wire::DEFAULT_EXPIRY_SECS,
            max_expiry: MAX_EXPIRY_SECS,
            max_downloads: MAX_DOWNLOADS,
            reap_interval: 60,
            public_url: "http://localhost:8080".to_owned(),
            auth_mode: AuthMode::Off,
            oidc_issuer: None,
            oidc_client_id: None,
            oidc_client_secret: None,
            oidc_scopes: "email,profile".to_owned(),
            oidc_allowed_domains: None,
            session_secret: None,
            session_ttl: 43200,
            cookie_insecure: false,
        }
    }
}

} // verus!
