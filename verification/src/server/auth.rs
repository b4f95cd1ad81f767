//! Sessions: a signed, HMAC-SHA256-authenticated cookie carrying the subject,
//! a display name and an expiry. Nothing is stored server-side, so replicas
//! share sessions as long as they share the session secret.
use vstd::prelude::*;
use crate::b64;
use crate::primitives::{b64url_text, hmac_sha256, hmac_sha256_tag, is_b64url_char, sha256_digest};
use crate::server::config::{AuthMode, Config};
use crate::server::error::AppError;
use crate::server::meta::{clone_opt, opt_view};
use crate::server::util;
use crate::text::{chars_of, decimal, find_char, lemma_find_char_from, position_of, push_decimal, split_chars,
    split_on, str_views, string_of, trim_bounds, trim_ws, views};
use crate::wire::SessionInfo;

verus! {

broadcast use vstd::string::group_string_axioms;

/// Cookie carrying the signed session.
pub const SESSION_COOKIE: &'static str = "senders_session";
/// Cookie carrying an in-flight login: PKCE verifier, nonce, CSRF state and
/// where to land afterwards.
pub const FLOW_COOKIE: &'static str = "senders_oidc_flow";

/// Contents of a session cookie.
#[derive(Debug)]
pub struct Session {
    /// Stable identifier for the user, from the identity provider.
    pub sub: String,
    /// Email address, when the provider supplies one.
    pub email: Option<String>,
    /// Display name, when the provider supplies one.
    pub name: Option<String>,
    /// Absolute expiry, seconds since the epoch.
    pub exp: u64,
}

impl Session {
    /// The subset of the session the frontend is allowed to see.
    pub fn info(&self) -> (info: SessionInfo)
        ensures
            info.subject@ == self.sub@,
            opt_view(info.email) == opt_view(self.email),
            opt_view(info.name) == opt_view(self.name),
    {
        SessionInfo { subject: self.sub.clone(), email: clone_opt(&self.email), name: clone_opt(&self.name) }
    }

    /// A field-by-field copy.
    pub fn duplicate(&self) -> (copy: Session)
        ensures
            copy.sub@ == self.sub@,
            opt_view(copy.email) == opt_view(self.email),
            opt_view(copy.name) == opt_view(self.name),
            copy.exp == self.exp,
    {
        Session { sub: self.sub.clone(), email: clone_opt(&self.email), name: clone_opt(&self.name), exp: self.exp }
    }
}

/// `<base64url(payload)>.<base64url(tag)>`: the token that carries `payload`
/// signed under `key`.
pub open spec fn signed_token(key: Seq<u8>, payload: Seq<u8>) -> Seq<char> {
    b64url_text(payload) + seq!['.'] + b64url_text(hmac_sha256_tag(key, payload))
}

/// The payload a token carries, when it is exactly the signed token of that
/// payload under `key`; `None` for anything else.
pub open spec fn verified_payload(key: Seq<u8>, token: Seq<char>) -> Option<Seq<u8>> {
    if exists|p: Seq<u8>| #[trigger] signed_token(key, p) == token {
        Some(choose|p: Seq<u8>| #[trigger] signed_token(key, p) == token)
    } else {
        None
    }
}

/// The first `.` of a signed token is the one between payload and tag: the
/// base64url alphabet has no `.`.
proof fn lemma_token_splits(key: Seq<u8>, payload: Seq<u8>)
    ensures
        find_char(signed_token(key, payload), '.') == Some(b64url_text(payload).len() as int),
        signed_token(key, payload).subrange(0, b64url_text(payload).len() as int) == b64url_text(payload),
        signed_token(key, payload).subrange(b64url_text(payload).len() as int + 1, signed_token(key, payload).len() as int)
            == b64url_text(hmac_sha256_tag(key, payload)),
{
    let t = signed_token(key, payload);
    let n = b64url_text(payload).len() as int;
    b64::lemma_text_shape(payload);
    lemma_find_char_from(t, '.', 0);
    assert(t[n] == '.');
    match find_char(t, '.') {
        Some(i) => {
            if i < n {
                assert(t[i] == b64url_text(payload)[i]);
                assert(is_b64url_char(b64url_text(payload)[i]));
            }
        },
        None => {},
    }
    assert(t.subrange(0, n) =~= b64url_text(payload));
    assert(t.subrange(n + 1, t.len() as int) =~= b64url_text(hmac_sha256_tag(key, payload)));
}

/// Distinct payloads sign to distinct tokens under one key.
pub proof fn lemma_signed_token_injective(key: Seq<u8>, p1: Seq<u8>, p2: Seq<u8>)
    requires
        signed_token(key, p1) == signed_token(key, p2),
    ensures
        p1 == p2,
{
    lemma_token_splits(key, p1);
    lemma_token_splits(key, p2);
    b64::lemma_text_injective(p1, p2);
}

/// What is signed verifies, and gives back exactly the payload that was
/// signed; a token verifies only if it is the signed token of what it
/// yields, so a payload with a foreign tag, or a tag with a foreign payload,
/// is refused.
pub proof fn lemma_sign_then_verify(key: Seq<u8>, payload: Seq<u8>, token: Seq<char>)
    ensures
        verified_payload(key, signed_token(key, payload)) == Some(payload),
        verified_payload(key, token) matches Some(p) ==> token == signed_token(key, p),
{
    let t = signed_token(key, payload);
    assert(signed_token(key, payload) == t);
    let q = choose|p: Seq<u8>| #[trigger] signed_token(key, p) == t;
    lemma_signed_token_injective(key, q, payload);
}

/// The characters of a `Set-Cookie` value: `name=value; Max-Age=<age>`, or
/// `name=; Max-Age=0` to clear it, then the hardening attributes, and
/// `Secure` when the signer is set up for HTTPS.
pub open spec fn cookie_text(name: Seq<char>, value: Seq<char>, max_age: Option<u64>, secure: bool) -> Seq<char> {
    let head = match max_age {
        Some(age) => name + "="@ + value + "; Max-Age="@ + decimal(age as nat),
        None => name + "=; Max-Age=0"@,
    };
    head + "; Path=/; HttpOnly; SameSite=Lax"@ + if secure { "; Secure"@ } else { Seq::<char>::empty() }
}

/// Signs and verifies cookie payloads.
pub struct SessionSigner {
    key: [u8; 32],
    secure: bool,
}

impl SessionSigner {
    /// The HMAC key.
    pub closed spec fn signing_key(&self) -> Seq<u8> {
        self.key@
    }

    /// Whether cookies are marked `Secure`.
    pub closed spec fn is_secure(&self) -> bool {
        self.secure
    }

    /// Build a signer. A configured secret is hashed rather than truncated,
    /// so any length contributes all of its entropy; without one a random
    /// key is drawn, which means sessions do not survive a restart and are
    /// not shared between replicas.
    pub fn new(secret: Option<&str>, secure: bool) -> (signer: Self)
        ensures
            signer.is_secure() == secure,
            signer.signing_key().len() == 32,
            secret matches Some(s) ==> signer.signing_key() == sha256_digest(vstd::utf8::encode_utf8(s@)),
    {
        let key = match secret {
            Some(s) => util::sha256(s.as_bytes()),
            None => util::random_bytes::<32>(),
        };
        SessionSigner { key, secure }
    }

    /// The HMAC-SHA256 tag of `payload` under the signing key.
    pub fn tag(&self, payload: &[u8]) -> (tag: [u8; 32])
        ensures
            tag@ == hmac_sha256_tag(self.signing_key(), payload@),
    {
        hmac_sha256(&self.key, payload)
    }

    /// `<base64url(payload)>.<base64url(tag)>`
    pub fn sign(&self, payload: &[u8]) -> (token: String)
        requires
            b64::encodable(payload@),
        ensures
            token@ == signed_token(self.signing_key(), payload@),
    {
        let tag = self.tag(payload);
        let mut token = b64::encode(payload);
        token.append(".");
        let encoded_tag = b64::encode(&tag);
        token.append(encoded_tag.as_str());
        proof {
            reveal_strlit(".");
        }
        token
    }

    /// Check the tag and decode the payload, or `None` if either fails.
    pub fn verify(&self, token: &str) -> (payload: Option<Vec<u8>>)
        ensures
            payload matches Some(p) ==> verified_payload(self.signing_key(), token@) == Some(p@),
            payload is None ==> verified_payload(self.signing_key(), token@) is None,
    {
        let ghost key = self.signing_key();
        let chars = chars_of(token);
        let dot = match position_of(chars.as_slice(), '.') {
            Some(i) => i,
            None => {
                proof { self.lemma_refused_without_split(token@); }
                return None;
            }
        };
        proof {
            lemma_find_char_from(token@, '.', 0);
        }
        let payload_text = string_of(&chars.as_slice()[0..dot]);
        let tag_text = string_of(&chars.as_slice()[dot + 1..chars.len()]);
        proof {
            assert(token@ =~= payload_text@ + seq!['.'] + tag_text@);
            assert forall|p: Seq<u8>| #[trigger] signed_token(key, p) == token@ implies
                payload_text@ == b64url_text(p) && tag_text@ == b64url_text(hmac_sha256_tag(key, p)) by {
                lemma_token_splits(key, p);
            }
        }
        let payload = match b64::decode(payload_text.as_str()) {
            Some(p) => p,
            None => {
                proof { self.lemma_refused(token@); }
                return None;
            }
        };
        let presented = match b64::decode(tag_text.as_str()) {
            Some(t) => t,
            None => {
                proof { self.lemma_refused(token@); }
                return None;
            }
        };
        let expected = self.tag(payload.as_slice());
        if !util::ct_eq(&expected, presented.as_slice()) {
            proof {
                assert forall|p: Seq<u8>| #[trigger] signed_token(key, p) != token@ by {
                    if signed_token(key, p) == token@ {
                        b64::lemma_text_injective(p, payload@);
                        b64::lemma_text_injective(hmac_sha256_tag(key, p), presented@);
                    }
                }
            }
            return None;
        }
        proof {
            assert(token@ == signed_token(key, payload@));
            lemma_sign_then_verify(key, payload@, token@);
        }
        Some(payload)
    }

    /// Nothing verifies when there is no `.` to split at.
    proof fn lemma_refused_without_split(&self, token: Seq<char>)
        requires
            find_char(token, '.') is None,
        ensures
            verified_payload(self.signing_key(), token) is None,
    {
        assert forall|p: Seq<u8>| #[trigger] signed_token(self.signing_key(), p) != token by {
            lemma_token_splits(self.signing_key(), p);
        }
    }

    /// Nothing verifies when no payload signs to the token.
    proof fn lemma_refused(&self, token: Seq<char>)
        requires
            forall|p: Seq<u8>| #[trigger] signed_token(self.signing_key(), p) != token,
        ensures
            verified_payload(self.signing_key(), token) is None,
    {
    }

    /// A `Set-Cookie` value. `max_age` of `None` clears the cookie.
    pub fn cookie(&self, name: &str, value: &str, max_age: Option<u64>) -> (cookie: String)
        ensures
            cookie@ == cookie_text(name@, value@, max_age, self.is_secure()),
    {
        let mut cookie = name.to_owned();
        match max_age {
            Some(age) => {
                cookie.append("=");
                cookie.append(value);
                cookie.append("; Max-Age=");
                push_decimal(&mut cookie, age);
            },
            None => {
                cookie.append("=; Max-Age=0");
            },
        }
        cookie.append("; Path=/; HttpOnly; SameSite=Lax");
        if self.secure {
            cookie.append("; Secure");
        }
        proof {
            assert(cookie@ =~= cookie_text(name@, value@, max_age, self.is_secure()));
        }
        cookie
    }

    /// A `Set-Cookie` value carrying a freshly signed session payload.
    pub fn session_cookie(&self, payload: &[u8], ttl: u64) -> (cookie: String)
        requires
            b64::encodable(payload@),
        ensures
            cookie@ == cookie_text(SESSION_COOKIE@, signed_token(self.signing_key(), payload@), Some(ttl), self.is_secure()),
    {
        let token = self.sign(payload);
        self.cookie(SESSION_COOKIE, token.as_str(), Some(ttl))
    }

    /// A `Set-Cookie` value that deletes `name`.
    pub fn clear(&self, name: &str) -> (cookie: String)
        ensures
            cookie@ == cookie_text(name@, Seq::empty(), None, self.is_secure()),
    {
        self.cookie(name, "", None)
    }
}

/// The value of a `key=value` cookie pair named `name`: the piece is
/// trimmed and cut at its first `=`.
pub open spec fn pair_value(piece: Seq<char>, name: Seq<char>) -> Option<Seq<char>> {
    let t = trim_ws(piece);
    match find_char(t, '=') {
        Some(k) => if t.subrange(0, k) == name { Some(t.subrange(k + 1, t.len() as int)) } else { None },
        None => None,
    }
}

/// The value of the first pair among `pieces` named `name`.
pub open spec fn first_pair_value(pieces: Seq<Seq<char>>, name: Seq<char>) -> Option<Seq<char>>
    decreases pieces.len(),
{
    if pieces.len() == 0 {
        None
    } else {
        match pair_value(pieces[0], name) {
            Some(v) => Some(v),
            None => first_pair_value(pieces.drop_first(), name),
        }
    }
}

/// The value of the first cookie named `name` across `Cookie` header values,
/// each a `;`-separated list of pairs.
pub open spec fn cookie_value(headers: Seq<Seq<char>>, name: Seq<char>) -> Option<Seq<char>>
    decreases headers.len(),
{
    if headers.len() == 0 {
        None
    } else {
        match first_pair_value(split_on(headers[0], ';'), name) {
            Some(v) => Some(v),
            None => cookie_value(headers.drop_first(), name),
        }
    }
}

/// The value of the pair `piece` names `name`, as `pair_value` says.
fn piece_value(piece: &[char], name: &str) -> (value: Option<String>)
    ensures
        value matches Some(v) ==> pair_value(piece@, name@) == Some(v@),
        value is None ==> pair_value(piece@, name@) is None,
{
    let (a, b) = trim_bounds(piece);
    let t = &piece[a..b];
    proof {
        assert(t@ == trim_ws(piece@));
    }
    match position_of(t, '=') {
        Some(k) => {
            proof { lemma_find_char_from(t@, '=', 0); }
            let key = string_of(&t[0..k]);
            let wanted = name.to_owned();
            if key == wanted {
                Some(string_of(&t[k + 1..t.len()]))
            } else {
                None
            }
        },
        None => None,
    }
}

/// Read one cookie value out of a request's `Cookie` header values.
pub fn read_cookie(headers: &[&str], name: &str) -> (value: Option<String>)
    ensures
        value matches Some(v) ==> cookie_value(str_views(headers@), name@) == Some(v@),
        value is None ==> cookie_value(str_views(headers@), name@) is None,
{
    let ghost all = str_views(headers@);
    assert(all.subrange(0, all.len() as int) =~= all);
    let mut i: usize = 0;
    while i < headers.len()
        invariant
            i <= headers@.len(),
            all == str_views(headers@),
            cookie_value(all.subrange(i as int, all.len() as int), name@) == cookie_value(all, name@),
        decreases headers@.len() - i,
    {
        let chars = chars_of(headers[i]);
        let pieces = split_chars(chars.as_slice(), ';');
        let ghost ps = split_on(chars@, ';');
        assert(all[i as int] == headers@[i as int]@);
        assert(ps.subrange(0, ps.len() as int) =~= ps);
        let mut j: usize = 0;
        while j < pieces.len()
            invariant
                i < headers@.len(),
                all == str_views(headers@),
                cookie_value(all.subrange(i as int, all.len() as int), name@) == cookie_value(all, name@),
                j <= pieces@.len(),
                views(pieces@) == ps,
                ps == split_on(all[i as int], ';'),
                first_pair_value(ps.subrange(j as int, ps.len() as int), name@) == first_pair_value(ps, name@),
            decreases pieces@.len() - j,
        {
            match piece_value(pieces[j].as_slice(), name) {
                Some(v) => {
                    proof {
                        assert(ps[j as int] == pieces@[j as int]@);
                        assert(all.subrange(i as int, all.len() as int)[0] == all[i as int]);
                    }
                    return Some(v);
                },
                None => {
                    proof {
                        assert(ps[j as int] == pieces@[j as int]@);
                        assert(ps.subrange(j as int, ps.len() as int).drop_first() =~= ps.subrange(j + 1, ps.len() as int));
                    }
                },
            }
            j += 1;
        }
        proof {
            assert(ps.subrange(j as int, ps.len() as int) =~= Seq::<Seq<char>>::empty());
            assert(all.subrange(i as int, all.len() as int)[0] == all[i as int]);
            assert(all.subrange(i as int, all.len() as int).drop_first() =~= all.subrange(i + 1, all.len() as int));
        }
        i += 1;
    }
    proof {
        assert(all.subrange(i as int, all.len() as int) =~= Seq::<Seq<char>>::empty());
    }
    None
}

/// The signed-in user, if any.
#[derive(Debug)]
pub struct CurrentUser(pub Option<Session>);

impl CurrentUser {
    /// The signed-in user's subject, if there is one.
    pub fn subject(&self) -> (sub: Option<&str>)
        ensures
            sub is Some <==> self.0 is Some,
            sub matches Some(s) ==> s@ == self.0->0.sub@,
    {
        match &self.0 {
            Some(session) => Some(session.sub.as_str()),
            None => None,
        }
    }
}

/// The verified payload of the session cookie among `headers`: the cookie
/// is read, then its signature checked under `signer`'s key.
pub fn session_payload(headers: &[&str], signer: &SessionSigner) -> (payload: Option<Vec<u8>>)
    ensures
        payload matches Some(p) ==> cookie_value(str_views(headers@), SESSION_COOKIE@) matches Some(raw)
            && verified_payload(signer.signing_key(), raw) == Some(p@),
        payload is None ==> match cookie_value(str_views(headers@), SESSION_COOKIE@) {
            Some(raw) => verified_payload(signer.signing_key(), raw) is None,
            None => true,
        },
{
    let raw = read_cookie(headers, SESSION_COOKIE)?;
    signer.verify(raw.as_str())
}

/// A session decoded from a verified cookie counts only while it has not
/// expired: a signature alone is not enough, an old cookie must stop working.
pub fn current_session(session: Option<Session>, now: u64) -> (live: Option<Session>)
    ensures
        live is Some <==> (session matches Some(s) && s.exp > now),
        live matches Some(s) ==> session == Some(s),
{
    match session {
        Some(s) => if s.exp > now { Some(s) } else { None },
        None => None,
    }
}

/// Whether a route that asks for a login at `needed_at` must have one under
/// `mode`: `Off` never requires one, `All` requires one everywhere, and
/// `Upload` only where uploads are guarded.
pub open spec fn login_enforced(mode: AuthMode, needed_at: AuthMode) -> bool {
    match mode {
        AuthMode::Off => false,
        AuthMode::All => true,
        AuthMode::Upload => needed_at == AuthMode::Upload,
    }
}

/// What each mode guards: `off` lets everyone through everywhere, `all`
/// demands a login on every route whatever it is, and `upload` demands one
/// on upload routes and nowhere else.
pub proof fn lemma_modes_guard_their_routes(needed_at: AuthMode)
    ensures
        !login_enforced(AuthMode::Off, needed_at),
        login_enforced(AuthMode::All, needed_at),
        login_enforced(AuthMode::Upload, needed_at) <==> needed_at == AuthMode::Upload,
{
}

/// Enforce a session when the configured mode is at least as strict as
/// `needed_at`.
pub fn require(config: &Config, session: Option<Session>, needed_at: AuthMode) -> (outcome: Result<Option<Session>, AppError>)
    ensures
        outcome is Err <==> login_enforced(config.auth_mode, needed_at) && session is None,
        outcome matches Err(e) ==> e is Unauthorized,
        outcome matches Ok(s) ==> s == session,
        config.auth_mode == AuthMode::All && session is None ==> outcome is Err,
        config.auth_mode == AuthMode::Off ==> outcome is Ok,
        config.auth_mode == AuthMode::Upload && needed_at == AuthMode::Upload && session is None ==> outcome is Err,
        session is Some ==> outcome is Ok,
{
    let enforced = match config.auth_mode {
        AuthMode::Off => false,
        AuthMode::All => true,
        AuthMode::Upload => matches!(needed_at, AuthMode::Upload),
    };
    if enforced && session.is_none() {
        return Err(AppError::Unauthorized);
    }
    Ok(session)
}

/// The user on routes that must not run without a login where the mode
/// guards uploads.
#[derive(Debug)]
pub struct AuthedUser(pub Option<Session>);

/// The user on download routes, which only demand a login when the whole
/// service is hidden.
#[derive(Debug)]
pub struct PublicOrAuthedUser(pub Option<Session>);

impl AuthedUser {
    /// Admit `session` to an upload route under `config`.
    pub fn from_session(config: &Config, session: Option<Session>) -> (user: Result<AuthedUser, AppError>)
        ensures
            user is Err <==> login_enforced(config.auth_mode, AuthMode::Upload) && session is None,
            user matches Err(e) ==> e is Unauthorized,
            user matches Ok(u) ==> u.0 == session,
    {
        match require(config, session, AuthMode::Upload) {
            Ok(s) => Ok(AuthedUser(s)),
            Err(e) => Err(e),
        }
    }
}

impl PublicOrAuthedUser {
    /// Admit `session` to a download route under `config`.
    pub fn from_session(config: &Config, session: Option<Session>) -> (user: Result<PublicOrAuthedUser, AppError>)
        ensures
            user is Err <==> config.auth_mode == AuthMode::All && session is None,
            user matches Err(e) ==> e is Unauthorized,
            user matches Ok(u) ==> u.0 == session,
    {
        match require(config, session, AuthMode::All) {
            Ok(s) => Ok(PublicOrAuthedUser(s)),
            Err(e) => Err(e),
        }
    }
}

} // verus!
