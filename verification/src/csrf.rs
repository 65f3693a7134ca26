//! The anti-forgery token protocol: a high-entropy per-session value,
//! bound to server-held session state, verified by exact match.  At most
//! one value is valid per session at a time; a fresh issuance overwrites
//! the previous one.

use vstd::prelude::*;
use rand::Rng;
use crate::codec::str_eq;
use crate::auth_middleware::{CookieInstruction, SameSitePolicy};
use vstd::string::*;

verus! {

/// The server-held session state the anti-forgery value is bound to.
pub struct Session {
    csrf_token: Option<String>,
}

impl View for Session {
    type V = Option<Seq<char>>;

    closed spec fn view(&self) -> Option<Seq<char>> {
        match self.csrf_token {
            Some(ref t) => Some(t@),
            None => None,
        }
    }
}

impl Session {
    /// A fresh session with no anti-forgery value issued yet.
    pub fn new() -> (r: Self)
        ensures
            r@ is None,
    {
        Session { csrf_token: None }
    }
}

pub open spec fn is_alnum_char(c: char) -> bool {
    (48 <= c as u32 <= 57) || (65 <= c as u32 <= 90) || (97 <= c as u32 <= 122)
}

/// Whether a presented value matches the session's stored one: a missing
/// stored value never matches anything.
pub open spec fn csrf_matches(state: Option<Seq<char>>, presented: Seq<char>) -> bool {
    state is Some && state->Some_0 == presented
}

/// Relies on rand's thread-local generator with the `Alphanumeric`
/// distribution: 32 characters, each from `[0-9A-Za-z]`.  The draw is
/// random, so nothing beyond length and alphabet is assumed.
#[verifier::external_body]
pub fn generate_csrf_token() -> (r: String)
    ensures
        r@.len() == 32,
        forall|i: int| 0 <= i < r@.len() ==> is_alnum_char(#[trigger] r@[i]),
{
    rand::thread_rng()
        .sample_iter(&rand::distributions::Alphanumeric)
        .take(32)
        .map(char::from)
        .collect()
}

/// Issues a fresh anti-forgery value for the session, overwriting any
/// prior value, and returns it for transport.
pub fn set_csrf_token(session: &mut Session) -> (r: Option<String>)
    ensures
        r is Some,
        final(session)@ == Some(r->Some_0@),
        r->Some_0@.len() == 32,
        forall|i: int| 0 <= i < r->Some_0@.len() ==> is_alnum_char(#[trigger] r->Some_0@[i]),
{
    let token = generate_csrf_token();
    session.csrf_token = Some(token.clone());
    Some(token)
}

/// Compares a presented value against the session's stored one.
pub fn verify_csrf_token(session: &Session, token: &str) -> (r: bool)
    ensures
        r == csrf_matches(session@, token@),
{
    match &session.csrf_token {
        Some(stored) => str_eq(stored.as_str(), token),
        None => false,
    }
}

/// The cookie the transport layer must set to mirror the anti-forgery
/// value to the client: deliberately readable by client script (not
/// `HttpOnly`), since the page must echo it back, but never sent
/// cross-site.
pub fn set_csrf_cookie(csrf_token: &str) -> (r: CookieInstruction)
    ensures
        r.name@ == "csrf_token"@,
        r.value@ == csrf_token@,
        r.path@ == "/"@,
        r.http_only == false,
        r.secure == true,
        r.same_site == SameSitePolicy::Strict,
        r.max_age_secs is None,
{
    CookieInstruction {
        name: String::from_str("csrf_token"),
        value: csrf_token.to_owned(),
        path: String::from_str("/"),
        http_only: false,
        secure: true,
        same_site: SameSitePolicy::Strict,
        max_age_secs: None,
    }
}

/// The protocol's guarantees: a just-issued value verifies; any other
/// value — a wrong guess, or a previous value once a fresh issuance with
/// a different value has overwritten it — does not; and a session without
/// an issued value verifies nothing.
pub proof fn lemma_csrf_protocol(v: Seq<char>, w: Seq<char>)
    ensures
        csrf_matches(Some(v), v),
        v != w ==> !csrf_matches(Some(v), w),
        !csrf_matches(None::<Seq<char>>, w),
{
}

} // verus!
