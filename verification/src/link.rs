//! The share-link format: `<origin>/d/<id>#<secret>`. The secret travels in
//! the URL fragment, which browsers never send to a server.
use vstd::prelude::*;
use crate::b64;
use crate::primitives::b64url_text;
use crate::text::{trim_end_char, trim_end_matches_char};
use crate::wire::SECRET_LEN;

verus! {

/// The share link for `id` at `origin`, carrying `secret` in the fragment.
pub open spec fn share_link(origin: Seq<char>, id: Seq<char>, secret: Seq<u8>) -> Seq<char> {
    trim_end_char(origin, '/') + "/d/"@ + id + "#"@ + b64url_text(secret)
}

/// Build a share link.
pub fn share_url(origin: &str, id: &str, secret: &[u8]) -> (url: String)
    requires
        b64::encodable(secret@),
    ensures
        url@ == share_link(origin@, id@, secret@),
{
    let mut url = trim_end_matches_char(origin, '/');
    url.append("/d/");
    url.append(id);
    url.append("#");
    let encoded = b64::encode(secret);
    url.append(encoded.as_str());
    url
}

/// Decode a fragment into a secret, or `None` if it is malformed or the
/// wrong length.
pub fn decode_secret(fragment: &str) -> (secret: Option<Vec<u8>>)
    ensures
        secret matches Some(s) ==> s@.len() == SECRET_LEN && fragment@ == b64url_text(s@),
        secret is None ==> forall|b: Seq<u8>| b.len() == SECRET_LEN ==> fragment@ != #[trigger] b64url_text(b),
        forall|b: Seq<u8>| b.len() == SECRET_LEN && fragment@ == #[trigger] b64url_text(b)
            ==> secret is Some && secret->0@ == b,
{
    let secret = b64::decode(fragment)?;
    if secret.len() == SECRET_LEN {
        Some(secret)
    } else {
        None
    }
}

} // verus!
