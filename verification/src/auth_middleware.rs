//! The request authenticator: a pure decision from a presented token
//! source to a typed outcome.  The embedding adapts its own request object
//! into the source (cookie first, then a bearer header) and maps the
//! outcome onto its responses.

use vstd::prelude::*;
use crate::auth::{spec_validate, validate_token, AuthConfig, ValidateError};
use crate::codec::{has_prefix, Claims, ClaimsView};
use crate::deny_list::JwtDenyList;
use vstd::string::*;

verus! {

/// The `SameSite` policy an outbound cookie instruction asks for;
/// `CrossSite` stands for the transport's "None" policy.
#[derive(Clone, Copy, Debug, PartialEq, Eq, Structural)]
pub enum SameSitePolicy {
    Strict,
    Lax,
    CrossSite,
}

/// An instruction to the transport layer to set a cookie.  The core never
/// touches the wire itself; it states exactly what the cookie must look
/// like, the embedding serializes it.
#[derive(Debug)]
pub struct CookieInstruction {
    pub name: String,
    pub value: String,
    pub path: String,
    pub http_only: bool,
    pub secure: bool,
    pub same_site: SameSitePolicy,
    pub max_age_secs: Option<i64>,
}

/// A successfully authenticated request: the claims the token carried.
#[derive(Debug)]
pub struct AuthenticatedUser {
    pub claims: Claims,
}

/// Why a request was not authenticated.  `Missing` means no token was
/// presented at all; the decode failures are folded into `Invalid`.
#[derive(Clone, Copy, Debug, PartialEq, Eq, Structural)]
pub enum AuthError {
    Missing,
    Invalid,
    Expired,
    Denied,
}

/// What authentication means for a presented source.
pub open spec fn spec_auth_outcome(
    src: Option<Seq<char>>,
    secret: Seq<u8>,
    deny: Map<Seq<char>, int>,
    now: int,
) -> Result<ClaimsView, AuthError> {
    match src {
        None => Err(AuthError::Missing),
        Some(t) => match spec_validate(t, secret, deny, now) {
            Ok(c) => Ok(c),
            Err(ValidateError::Malformed) => Err(AuthError::Invalid),
            Err(ValidateError::InvalidSignature) => Err(AuthError::Invalid),
            Err(ValidateError::Expired) => Err(AuthError::Expired),
            Err(ValidateError::Denied) => Err(AuthError::Denied),
        },
    }
}

/// Authenticates a request from its extracted token, if any.
pub fn authenticate(
    token: Option<&String>,
    deny_list: &JwtDenyList,
    cfg: &AuthConfig,
    now: i64,
) -> (r: Result<AuthenticatedUser, AuthError>)
    requires
        deny_list.wf(),
    ensures
        ({
            let src = match token {
                Some(t) => Some(t@),
                None => None::<Seq<char>>,
            };
            &&& r is Ok ==> spec_auth_outcome(src, cfg.secret@, deny_list@, now as int) == Ok::<
                ClaimsView,
                AuthError,
            >(r->Ok_0.claims@)
            &&& r is Err ==> spec_auth_outcome(src, cfg.secret@, deny_list@, now as int) == Err::<
                ClaimsView,
                AuthError,
            >(r->Err_0)
        }),
{
    match token {
        None => Err(AuthError::Missing),
        Some(t) => match validate_token(t.as_str(), deny_list, cfg, now) {
            Ok(claims) => Ok(AuthenticatedUser { claims }),
            Err(ValidateError::Malformed) => Err(AuthError::Invalid),
            Err(ValidateError::InvalidSignature) => Err(AuthError::Invalid),
            Err(ValidateError::Expired) => Err(AuthError::Expired),
            Err(ValidateError::Denied) => Err(AuthError::Denied),
        },
    }
}

/// The scheme prefix of an `Authorization` header carrying a bearer token.
pub open spec fn bearer_prefix() -> Seq<char> {
    seq!['B', 'e', 'a', 'r', 'e', 'r', ' ']
}

/// The token a presented `Authorization` header carries, if it uses the
/// bearer scheme.
pub fn bearer_token(header: &str) -> (r: Option<String>)
    ensures
        r is Some <==> header@.len() >= 7 && header@.subrange(0, 7) == bearer_prefix(),
        r is Some ==> r->Some_0@ == header@.skip(7),
{
    proof {
        reveal_strlit("Bearer ");
        assert("Bearer "@ =~= bearer_prefix());
    }
    if has_prefix(header, "Bearer ") {
        let n = header.unicode_len();
        let rest = header.substring_char(7, n);
        proof {
            assert(rest@ =~= header@.skip(7));
        }
        Some(rest.to_owned())
    } else {
        None
    }
}

/// Where a request's token comes from: the auth cookie if present, else a
/// bearer `Authorization` header.
pub open spec fn spec_token_source(
    cookie: Option<Seq<char>>,
    header: Option<Seq<char>>,
) -> Option<Seq<char>> {
    match cookie {
        Some(c) => Some(c),
        None => match header {
            Some(h) => if h.len() >= 7 && h.subrange(0, 7) == bearer_prefix() {
                Some(h.skip(7))
            } else {
                None
            },
            None => None,
        },
    }
}

/// Picks the token out of the two transport positions, cookie first.
pub fn token_from_sources(cookie: Option<String>, header: Option<&String>) -> (r: Option<String>)
    ensures
        ({
            let c = match cookie {
                Some(ref s) => Some(s@),
                None => None::<Seq<char>>,
            };
            let h = match header {
                Some(s) => Some(s@),
                None => None::<Seq<char>>,
            };
            match spec_token_source(c, h) {
                Some(t) => r is Some && r->Some_0@ == t,
                None => r is None,
            }
        }),
{
    match cookie {
        Some(c) => Some(c),
        None => match header {
            Some(h) => bearer_token(h.as_str()),
            None => None,
        },
    }
}

} // verus!
