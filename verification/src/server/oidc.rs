//! The decisions of the OpenID Connect login: who may sign in, where a login
//! may land afterwards, and the checks a provider's callback must pass before
//! its code is exchanged.
use vstd::prelude::*;
use crate::server::auth::{cookie_value, read_cookie, verified_payload, SessionSigner, FLOW_COOKIE};
use crate::server::error::AppError;
use crate::server::meta::opt_view;
use crate::server::util;
use crate::text::{chars_of, lower, lowercase_of, split_chars, split_on, str_views, string_of, string_views,
    trim_bounds, trim_ws, views};

verus! {

broadcast use vstd::string::group_string_axioms;

/// How long a login may sit half-finished before the flow cookie is
/// refused, in seconds.
pub const FLOW_TTL: u64 = 600;

/// The query of `/auth/login`.
#[derive(Debug)]
pub struct LoginQuery {
    /// Where to land after signing in.
    pub next: Option<String>,
}

/// The query the identity provider redirects back to `/auth/callback` with.
#[derive(Debug)]
pub struct CallbackQuery {
    pub code: Option<String>,
    pub state: Option<String>,
    pub error: Option<String>,
    pub error_description: Option<String>,
}

/// Flow state parked in a signed cookie between `/auth/login` and
/// `/auth/callback`.
#[derive(Debug)]
pub struct FlowState {
    pub verifier: String,
    pub nonce: String,
    pub csrf: String,
    pub next: String,
    pub exp: u64,
}

/// The last position of `c` in `s`.
pub open spec fn rfind_char(s: Seq<char>, c: char) -> Option<int>
    decreases s.len(),
{
    if s.len() == 0 {
        None
    } else if s.last() == c {
        Some(s.len() - 1)
    } else {
        rfind_char(s.drop_last(), c)
    }
}

/// The domain of an email address: what follows its last `@` (all of it
/// when there is none), lowercased.
pub open spec fn email_domain(email: Seq<char>) -> Seq<char> {
    match rfind_char(email, '@') {
        Some(i) => lower(email.subrange(i + 1, email.len() as int)),
        None => lower(email),
    }
}

/// Whether a login is let in: an empty allow-list admits everyone; otherwise
/// the provider must have sent an email, asserted that it is verified, and
/// its domain must be on the list. An unverified email is never trusted for
/// a domain decision.
pub open spec fn email_admitted(allowed: Seq<Seq<char>>, email: Option<Seq<char>>, verified: Option<bool>) -> bool {
    allowed.len() == 0 || (email matches Some(e) && verified == Some(true) && allowed.contains(email_domain(e)))
}

/// The text after the last `@` of `v`, lowercased.
fn domain_of(v: &[char]) -> (d: String)
    ensures
        d@ == email_domain(v@),
{
    let mut i: usize = v.len();
    assert(v@.subrange(0, i as int) =~= v@);
    while i > 0 && v[i - 1] != '@'
        invariant
            i <= v@.len(),
            rfind_char(v@.subrange(0, i as int), '@') == rfind_char(v@, '@'),
        decreases i,
    {
        assert(v@.subrange(0, i as int).drop_last() =~= v@.subrange(0, i - 1));
        i -= 1;
    }
    proof {
        if i == v@.len() {
            assert(v@.subrange(0, i as int) =~= v@);
        }
        if i > 0 {
            assert(v@.subrange(0, i as int).last() == '@');
        }
    }
    lowercase_of(&v[i..v.len()])
}

/// Enforce the email allow-list.
pub fn authorize_email(allowed: &[String], email: Option<&str>, verified: Option<bool>) -> (outcome: Result<(), AppError>)
    ensures
        outcome is Ok <==> email_admitted(string_views(allowed@), opt_str(email), verified),
        outcome matches Err(e) ==> e is Forbidden,
{
    if allowed.len() == 0 {
        return Ok(());
    }
    let address = match email {
        Some(e) => e,
        None => return Err(AppError::Forbidden),
    };
    match verified {
        Some(true) => {},
        _ => return Err(AppError::Forbidden),
    }
    let chars = chars_of(address);
    let domain = domain_of(chars.as_slice());
    let ghost list = string_views(allowed@);
    let mut i: usize = 0;
    while i < allowed.len()
        invariant
            i <= allowed@.len(),
            list == string_views(allowed@),
            allowed@.len() > 0,
            email == Some(address),
            domain@ == email_domain(address@),
            verified == Some(true),
            forall|j: int| 0 <= j < i ==> list[j] != domain@,
        decreases allowed@.len() - i,
    {
        if allowed[i] == domain {
            proof {
                assert(list[i as int] == domain@);
                assert(list.contains(domain@));
            }
            return Ok(());
        }
        i += 1;
    }
    Err(AppError::Forbidden)
}

/// The plain value of an optional string slice.
pub open spec fn opt_str(s: Option<&str>) -> Option<Seq<char>> {
    match s {
        Some(t) => Some(t@),
        None => None,
    }
}

/// Characters that may not follow the leading `/` of a destination. Browsers
/// read a backslash as a slash, and drop tabs and line breaks before they
/// parse a URL, so a `/` followed by any of these can turn into the `//` of a
/// protocol-relative URL that leaves this origin.
pub open spec fn escapes_origin(c: char) -> bool {
    c == '/' || c == '\\' || c == '\t' || c == '\n' || c == '\r'
}

/// Where a login may land: a path on this origin (a leading `/` not followed
/// by anything a browser reads as a second slash), else `/`.
pub open spec fn safe_destination(next: Option<Seq<char>>) -> Seq<char> {
    match next {
        Some(n) => if n.len() >= 1 && n[0] == '/' && !(n.len() >= 2 && escapes_origin(n[1])) { n } else { seq!['/'] },
        None => seq!['/'],
    }
}

/// Every destination a login lands on is a path on this origin: it begins
/// with a `/`, and what follows is never a `/`, a `\`, a tab or a line
/// break, so no browser reads it as a protocol-relative URL to another site.
pub proof fn lemma_destinations_stay_on_origin(next: Option<Seq<char>>)
    ensures
        safe_destination(next).len() >= 1,
        safe_destination(next)[0] == '/',
        safe_destination(next).len() >= 2 ==> {
            let c = safe_destination(next)[1];
            c != '/' && c != '\\' && c != '\t' && c != '\n' && c != '\r'
        },
{
}

/// Keep post-login destinations on this origin.
pub fn safe_next(next: Option<String>) -> (destination: String)
    ensures
        destination@ == safe_destination(opt_view(next)),
{
    match next {
        Some(n) => {
            let chars = chars_of(n.as_str());
            let on_origin = chars.len() >= 1 && chars[0] == '/' && !(chars.len() >= 2 && (chars[1] == '/'
                || chars[1] == '\\' || chars[1] == '\t' || chars[1] == '\n' || chars[1] == '\r'));
            if on_origin {
                n
            } else {
                let slash = chars_of("/");
                proof { reveal_strlit("/"); }
                string_of(slash.as_slice())
            }
        },
        None => {
            let slash = chars_of("/");
            proof { reveal_strlit("/"); }
            string_of(slash.as_slice())
        },
    }
}

/// The extra scopes of a comma-separated list: each trimmed, empty ones and
/// `openid` (always requested) dropped.
pub open spec fn scope_entries(pieces: Seq<Seq<char>>) -> Seq<Seq<char>>
    decreases pieces.len(),
{
    if pieces.len() == 0 {
        Seq::empty()
    } else {
        let s = trim_ws(pieces.last());
        scope_entries(pieces.drop_last()) + if s.len() > 0 && s != "openid"@ { seq![s] } else { Seq::<Seq<char>>::empty() }
    }
}

/// The scopes to request besides `openid`.
pub fn extra_scopes(scopes: &str) -> (list: Vec<String>)
    ensures
        string_views(list@) == scope_entries(split_on(scopes@, ',')),
{
    let chars = chars_of(scopes);
    let pieces = split_chars(chars.as_slice(), ',');
    let ghost ps = split_on(chars@, ',');
    let openid = "openid".to_owned();
    let mut list: Vec<String> = Vec::new();
    let mut i: usize = 0;
    while i < pieces.len()
        invariant
            i <= pieces@.len(),
            views(pieces@) == ps,
            ps == split_on(scopes@, ','),
            openid@ == "openid"@,
            string_views(list@) == scope_entries(ps.subrange(0, i as int)),
        decreases pieces@.len() - i,
    {
        let piece = pieces[i].as_slice();
        let (a, b) = trim_bounds(piece);
        let scope = string_of(&piece[a..b]);
        let ghost before = string_views(list@);
        proof {
            assert(ps.subrange(0, i + 1).drop_last() =~= ps.subrange(0, i as int));
            assert(ps.subrange(0, i + 1).last() == pieces@[i as int]@);
        }
        if a < b && scope != openid {
            list.push(scope);
            proof { assert(string_views(list@) =~= before + seq![scope@]); }
        } else {
            proof { assert(string_views(list@) =~= before + Seq::<Seq<char>>::empty()); }
        }
        i += 1;
    }
    proof { assert(ps.subrange(0, ps.len() as int) =~= ps); }
    list
}

/// The flow state a login starts: the PKCE verifier, nonce and CSRF state
/// handed to the provider, where to land afterwards (kept on this origin),
/// and an expiry `FLOW_TTL` seconds from `now`.
pub fn new_flow(verifier: String, nonce: String, csrf: String, next: Option<String>, now: u64) -> (flow: FlowState)
    requires
        now + FLOW_TTL <= u64::MAX,
    ensures
        flow.verifier@ == verifier@,
        flow.nonce@ == nonce@,
        flow.csrf@ == csrf@,
        flow.next@ == safe_destination(opt_view(next)),
        flow.exp == now + FLOW_TTL,
{
    FlowState { verifier, nonce, csrf, next: safe_next(next), exp: now + FLOW_TTL }
}

/// The message a provider-reported failure is answered with.
pub open spec fn login_failed(error: Seq<char>) -> Seq<char> {
    "login failed: "@ + error
}

/// `e` is a malformed-request error carrying `msg`.
pub open spec fn is_bad_request(e: AppError, msg: Seq<char>) -> bool {
    match e {
        AppError::BadRequest(m) => m@ == msg,
        _ => false,
    }
}

/// The first checks of a provider's callback: it must not report an
/// error, and the request must carry a flow cookie signed by this server.
/// Gives back the flow cookie's verified payload.
pub fn callback_flow(query: &CallbackQuery, cookie_headers: &[&str], signer: &SessionSigner)
    -> (payload: Result<Vec<u8>, AppError>)
    ensures
        query.error matches Some(e) ==> payload is Err && is_bad_request(payload->Err_0, login_failed(e@)),
        query.error is None ==> match cookie_value(str_views(cookie_headers@), FLOW_COOKIE@) {
            None => payload is Err
                && is_bad_request(payload->Err_0, "login session expired; please try again"@),
            Some(raw) => match verified_payload(signer.signing_key(), raw) {
                None => payload is Err && is_bad_request(payload->Err_0, "login session is invalid; please try again"@),
                Some(p) => payload is Ok && payload->Ok_0@ == p,
            },
        },
{
    match &query.error {
        Some(e) => {
            let mut m = "login failed: ".to_owned();
            m.append(e.as_str());
            return Err(AppError::BadRequest(m));
        },
        None => {},
    }
    let raw = match read_cookie(cookie_headers, FLOW_COOKIE) {
        Some(r) => r,
        None => return Err(AppError::BadRequest("login session expired; please try again".to_owned())),
    };
    match signer.verify(raw.as_str()) {
        Some(p) => Ok(p),
        None => Err(AppError::BadRequest("login session is invalid; please try again".to_owned())),
    }
}

/// The checks a decoded flow must pass before its code is exchanged: it has
/// not expired, the state the provider returned is the one handed to it (a
/// missing state counts as empty, compared in constant time), and a code
/// came back. Gives back the code.
pub fn check_callback(query: &CallbackQuery, flow: &FlowState, now: u64) -> (code: Result<String, AppError>)
    ensures
        flow.exp <= now ==> code is Err && is_bad_request(code->Err_0, "login session expired; please try again"@),
        flow.exp > now && vstd::utf8::encode_utf8(returned_state(opt_view(query.state))) != vstd::utf8::encode_utf8(flow.csrf@)
            ==> code is Err && is_bad_request(code->Err_0, "login state mismatch"@),
        flow.exp > now && vstd::utf8::encode_utf8(returned_state(opt_view(query.state))) == vstd::utf8::encode_utf8(flow.csrf@)
            ==> match query.code {
                None => code is Err && is_bad_request(code->Err_0, "missing authorization code"@),
                Some(c) => code is Ok && code->Ok_0@ == c@,
            },
{
    if flow.exp <= now {
        return Err(AppError::BadRequest("login session expired; please try again".to_owned()));
    }
    let returned = match &query.state {
        Some(s) => s.clone(),
        None => String::new(),
    };
    if !util::ct_eq(returned.as_str().as_bytes(), flow.csrf.as_str().as_bytes()) {
        return Err(AppError::BadRequest("login state mismatch".to_owned()));
    }
    match &query.code {
        Some(c) => Ok(c.clone()),
        None => Err(AppError::BadRequest("missing authorization code".to_owned())),
    }
}

/// The state a callback returned, empty when it carried none.
pub open spec fn returned_state(state: Option<Seq<char>>) -> Seq<char> {
    match state {
        Some(s) => s,
        None => Seq::empty(),
    }
}

} // verus!
