//! The token authority: issues signed claims with a fixed lifetime and
//! validates presented tokens — signature and structure first, then the
//! deny-list, then expiry — so that a revoked or expired token is rejected
//! with a distinguishable reason.

use vstd::prelude::*;
use crate::codec::{decode_claims_raw, encode_claims, spec_decode, spec_decode_raw, token_of,
    Claims, ClaimsView, DecodeError};
use crate::codec::lemma_decode_inverts_encode;
use crate::deny_list::JwtDenyList;
use crate::auth_middleware::{CookieInstruction, SameSitePolicy};
use vstd::string::*;

verus! {

/// A deployment's default token lifetime.
pub const TOKEN_DURATION: i64 = 60 * 60;

/// Process-wide configuration: the signing secret and the single fixed
/// token lifetime.  Both are set once at startup.
pub struct AuthConfig {
    pub secret: Vec<u8>,
    pub lifetime_secs: i64,
}

impl AuthConfig {
    /// A usable configuration: a present secret and a positive lifetime,
    /// so that every issued expiry lies strictly in the future.
    pub open spec fn wf(&self) -> bool {
        self.secret@.len() > 0 && self.lifetime_secs >= 1
    }

    pub fn new(secret: Vec<u8>, lifetime_secs: i64) -> (r: Self)
        requires
            secret@.len() > 0,
            lifetime_secs >= 1,
        ensures
            r.wf(),
            r.secret@ == secret@,
            r.lifetime_secs == lifetime_secs,
    {
        AuthConfig { secret, lifetime_secs }
    }
}

/// The claims that issuance at time `now` binds to a subject and role.
pub open spec fn issued_claims(sub: u64, role: Seq<char>, lifetime: int, now: int) -> ClaimsView {
    ClaimsView { sub, exp: now + lifetime, role }
}

/// Why a presented token was rejected.  `Expired` and `Denied` look the
/// same to the client but are kept apart for auditing.
#[derive(Clone, Copy, Debug, PartialEq, Eq, Structural)]
pub enum ValidateError {
    Malformed,
    InvalidSignature,
    Expired,
    Denied,
}

/// What validation means: decode (signature before anything), then the
/// deny-list keyed by the raw token string, then expiry.
pub open spec fn spec_validate(
    t: Seq<char>,
    secret: Seq<u8>,
    deny: Map<Seq<char>, int>,
    now: int,
) -> Result<ClaimsView, ValidateError> {
    match spec_decode_raw(t, secret) {
        Err(DecodeError::Malformed) => Err(ValidateError::Malformed),
        Err(DecodeError::InvalidSignature) => Err(ValidateError::InvalidSignature),
        Err(DecodeError::Expired) => Err(ValidateError::Expired),
        Ok(c) => if deny.contains_key(t) && deny[t] > now {
            Err(ValidateError::Denied)
        } else if c.exp <= now {
            Err(ValidateError::Expired)
        } else {
            Ok(c)
        },
    }
}

/// Issues a token for `user_id` with the given role, expiring a fixed
/// lifetime after `now`.
pub fn create_token(cfg: &AuthConfig, user_id: &u64, role: &str, now: i64) -> (r: String)
    requires
        cfg.wf(),
        now + cfg.lifetime_secs <= i64::MAX,
    ensures
        r@ == token_of(
            issued_claims(*user_id, role@, cfg.lifetime_secs as int, now as int),
            cfg.secret@,
        ),
{
    let claims = Claims { sub: *user_id, exp: now + cfg.lifetime_secs, role: role.to_owned() };
    encode_claims(&claims, cfg.secret.as_slice())
}

/// Validates a presented token: the outcome is exactly `spec_validate`
/// over the token, the secret, the deny-list and the clock.
pub fn validate_token(
    token: &str,
    deny_list: &JwtDenyList,
    cfg: &AuthConfig,
    now: i64,
) -> (r: Result<Claims, ValidateError>)
    requires
        deny_list.wf(),
    ensures
        r is Ok ==> spec_validate(token@, cfg.secret@, deny_list@, now as int) == Ok::<
            ClaimsView,
            ValidateError,
        >(r->Ok_0@),
        r is Err ==> spec_validate(token@, cfg.secret@, deny_list@, now as int) == Err::<
            ClaimsView,
            ValidateError,
        >(r->Err_0),
{
    match decode_claims_raw(token, cfg.secret.as_slice()) {
        Err(DecodeError::Malformed) => Err(ValidateError::Malformed),
        Err(DecodeError::InvalidSignature) => Err(ValidateError::InvalidSignature),
        Err(DecodeError::Expired) => Err(ValidateError::Expired),
        Ok(c) => {
            if deny_list.is_denied(token, now) {
                Err(ValidateError::Denied)
            } else if c.exp <= now {
                Err(ValidateError::Expired)
            } else {
                Ok(c)
            }
        },
    }
}

/// Revokes a presented token: its own (authenticated) expiry is recorded
/// so the entry can be purged once it could no longer matter.  Succeeds
/// exactly when the token decodes, and a second revocation of the same
/// token is the same upsert again.
pub fn revoke(token: &str, deny_list: &mut JwtDenyList, cfg: &AuthConfig) -> (r: Result<
    (),
    DecodeError,
>)
    requires
        old(deny_list).wf(),
    ensures
        final(deny_list).wf(),
        match spec_decode_raw(token@, cfg.secret@) {
            Ok(c) => r is Ok && final(deny_list)@ == old(deny_list)@.insert(token@, c.exp),
            Err(e) => r == Err::<(), DecodeError>(e) && final(deny_list)@ == old(deny_list)@,
        },
{
    match decode_claims_raw(token, cfg.secret.as_slice()) {
        Ok(c) => {
            deny_list.add(token, c.exp);
            Ok(())
        },
        Err(e) => Err(e),
    }
}

/// The cookie the transport layer must set on a successful login: the
/// token, guarded against script access and same-site-restricted, living
/// exactly as long as the token itself.
pub fn create_auth_cookie(jwt: &str, lifetime_secs: i64) -> (r: CookieInstruction)
    ensures
        r.name@ == "auth_token"@,
        r.value@ == jwt@,
        r.path@ == "/"@,
        r.http_only == true,
        r.secure == true,
        r.same_site == SameSitePolicy::Lax,
        r.max_age_secs == Some(lifetime_secs),
{
    CookieInstruction {
        name: String::from_str("auth_token"),
        value: jwt.to_owned(),
        path: String::from_str("/"),
        http_only: true,
        secure: true,
        same_site: SameSitePolicy::Lax,
        max_age_secs: Some(lifetime_secs),
    }
}

/// No accepted token is unsigned, revoked, or expired: whenever
/// validation returns claims, the token decodes to exactly those claims
/// under the secret (so its signature checks out), no live deny-list
/// entry covers it, and its expiry lies strictly in the future.
pub proof fn lemma_accepted_token_is_live(
    t: Seq<char>,
    secret: Seq<u8>,
    deny: Map<Seq<char>, int>,
    now: int,
)
    requires
        spec_validate(t, secret, deny, now) is Ok,
    ensures
        spec_decode_raw(t, secret) == Ok::<ClaimsView, DecodeError>(
            spec_validate(t, secret, deny, now)->Ok_0,
        ),
        !(deny.contains_key(t) && deny[t] > now),
        spec_validate(t, secret, deny, now)->Ok_0.exp > now,
{
}

/// A token issued now validates now: same subject, same role, expiry a
/// lifetime ahead — provided the fresh token string is not itself on the
/// deny-list with a live entry.
pub proof fn lemma_validate_after_issue(
    sub: u64,
    role: Seq<char>,
    secret: Seq<u8>,
    lifetime: int,
    deny: Map<Seq<char>, int>,
    now: int,
)
    requires
        1 <= lifetime,
        i64::MIN <= now,
        now + lifetime <= i64::MAX,
        ({
            let t = token_of(issued_claims(sub, role, lifetime, now), secret);
            !(deny.contains_key(t) && deny[t] > now)
        }),
    ensures
        spec_validate(
            token_of(issued_claims(sub, role, lifetime, now), secret),
            secret,
            deny,
            now,
        ) == Ok::<ClaimsView, ValidateError>(issued_claims(sub, role, lifetime, now)),
{
    let c = issued_claims(sub, role, lifetime, now);
    lemma_decode_inverts_encode(c, secret);
}

/// Expiry is sharp: validation of a token reports `Expired` from the
/// recorded expiry on, and never before — provided any deny-list entry
/// for it records at most the token's own expiry, which is all `revoke`
/// ever writes.
pub proof fn lemma_expiry_boundary(
    c: ClaimsView,
    secret: Seq<u8>,
    deny: Map<Seq<char>, int>,
    at: int,
)
    requires
        i64::MIN <= c.exp <= i64::MAX,
        deny.contains_key(token_of(c, secret)) ==> deny[token_of(c, secret)] <= c.exp,
    ensures
        at >= c.exp ==> spec_validate(token_of(c, secret), secret, deny, at) == Err::<
            ClaimsView,
            ValidateError,
        >(ValidateError::Expired),
        at < c.exp ==> spec_validate(token_of(c, secret), secret, deny, at) != Err::<
            ClaimsView,
            ValidateError,
        >(ValidateError::Expired),
{
    lemma_decode_inverts_encode(c, secret);
}

/// A revoked, unexpired token is `Denied`, even though it still decodes;
/// and recording the same revocation again changes nothing.
pub proof fn lemma_revoked_is_denied(
    c: ClaimsView,
    secret: Seq<u8>,
    deny: Map<Seq<char>, int>,
    now: int,
)
    requires
        i64::MIN <= c.exp <= i64::MAX,
        deny.contains_key(token_of(c, secret)),
        deny[token_of(c, secret)] == c.exp,
        now < c.exp,
    ensures
        spec_decode(token_of(c, secret), secret, now) == Ok::<ClaimsView, DecodeError>(c),
        spec_validate(token_of(c, secret), secret, deny, now) == Err::<ClaimsView, ValidateError>(
            ValidateError::Denied,
        ),
        deny.insert(token_of(c, secret), c.exp) == deny,
{
    lemma_decode_inverts_encode(c, secret);
    assert(deny.insert(token_of(c, secret), c.exp) =~= deny);
}

} // verus!
