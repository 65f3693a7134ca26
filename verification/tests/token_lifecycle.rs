use user_management::auth::{create_token, revoke, validate_token, AuthConfig, ValidateError};
use user_management::codec::{decode_claims, decode_claims_raw, encode_claims, Claims, DecodeError};
use user_management::deny_list::{JwtDenyList, JwtDenyListFairing};

fn test_config() -> AuthConfig {
    AuthConfig::new(b"test-secret-key".to_vec(), 3600)
}

#[test]
fn issue_then_validate_returns_same_claims() {
    let cfg = test_config();
    let deny = JwtDenyList::new();
    let token = create_token(&cfg, &42, "user", 0);
    let claims = validate_token(&token, &deny, &cfg, 0).expect("fresh token must validate");
    assert_eq!(claims.sub, 42);
    assert_eq!(claims.role, "user");
    assert_eq!(claims.exp, 3600);
}

#[test]
fn one_hour_scenario() {
    // Issue for subject 42, role "user", one hour lifetime.
    let cfg = test_config();
    let deny = JwtDenyList::new();
    let token = create_token(&cfg, &42, "user", 0);
    let claims = validate_token(&token, &deny, &cfg, 0).unwrap();
    assert_eq!(claims.sub, 42);
    assert_eq!(claims.role, "user");
    // Advance the clock 61 minutes: expired.
    assert_eq!(
        validate_token(&token, &deny, &cfg, 61 * 60).unwrap_err(),
        ValidateError::Expired
    );
    // Reset; revoke at minute 5 instead, validate at minute 6: denied.
    let mut deny2 = JwtDenyList::new();
    revoke(&token, &mut deny2, &cfg).unwrap();
    assert_eq!(
        validate_token(&token, &deny2, &cfg, 6 * 60).unwrap_err(),
        ValidateError::Denied
    );
}

#[test]
fn expiry_is_sharp() {
    let cfg = test_config();
    let deny = JwtDenyList::new();
    let token = create_token(&cfg, &1, "user", 100);
    // exp == 3700: valid strictly before, expired from then on.
    assert!(validate_token(&token, &deny, &cfg, 3699).is_ok());
    assert_eq!(
        validate_token(&token, &deny, &cfg, 3700).unwrap_err(),
        ValidateError::Expired
    );
    assert_eq!(
        validate_token(&token, &deny, &cfg, 1_000_000).unwrap_err(),
        ValidateError::Expired
    );
}

#[test]
fn revoked_token_still_decodes_but_is_denied() {
    let cfg = test_config();
    let mut deny = JwtDenyList::new();
    let token = create_token(&cfg, &7, "admin", 0);
    revoke(&token, &mut deny, &cfg).unwrap();
    // Decode alone still succeeds and is unexpired.
    let decoded = decode_claims(&token, b"test-secret-key", 10).unwrap();
    assert_eq!(decoded.sub, 7);
    // Validation reports the revocation.
    assert_eq!(
        validate_token(&token, &deny, &cfg, 10).unwrap_err(),
        ValidateError::Denied
    );
    // Revoking twice is idempotent and produces no error.
    revoke(&token, &mut deny, &cfg).unwrap();
    assert_eq!(
        validate_token(&token, &deny, &cfg, 10).unwrap_err(),
        ValidateError::Denied
    );
}

#[test]
fn tampered_payload_is_rejected() {
    let cfg = test_config();
    let token = create_token(&cfg, &42, "user", 0);
    // token = "HS256.42:3600:user.<signature>"; flip the first subject digit.
    let mut chars: Vec<char> = token.chars().collect();
    assert_eq!(chars[6], '4');
    chars[6] = '5';
    let tampered: String = chars.into_iter().collect();
    assert_eq!(
        decode_claims_raw(&tampered, b"test-secret-key").unwrap_err(),
        DecodeError::InvalidSignature
    );
}

#[test]
fn tampered_signature_is_rejected() {
    let cfg = test_config();
    let token = create_token(&cfg, &42, "user", 0);
    let mut chars: Vec<char> = token.chars().collect();
    let last = chars.len() - 1;
    chars[last] = if chars[last] == 'A' { 'B' } else { 'A' };
    let tampered: String = chars.into_iter().collect();
    assert_eq!(
        decode_claims_raw(&tampered, b"test-secret-key").unwrap_err(),
        DecodeError::InvalidSignature
    );
}

#[test]
fn wrong_secret_is_rejected() {
    let cfg = test_config();
    let token = create_token(&cfg, &42, "user", 0);
    assert_eq!(
        decode_claims_raw(&token, b"another-secret").unwrap_err(),
        DecodeError::InvalidSignature
    );
}

#[test]
fn malformed_tokens_are_rejected() {
    assert_eq!(
        decode_claims_raw("garbage", b"k").unwrap_err(),
        DecodeError::Malformed
    );
    assert_eq!(
        decode_claims_raw("", b"k").unwrap_err(),
        DecodeError::Malformed
    );
    assert_eq!(
        decode_claims_raw("HS256.nodothere", b"k").unwrap_err(),
        DecodeError::Malformed
    );
    assert_eq!(
        decode_claims_raw("RS256.42:1:u.sig", b"k").unwrap_err(),
        DecodeError::Malformed
    );
}

#[test]
fn expired_decode_is_reported_after_signature() {
    let cfg = test_config();
    let token = create_token(&cfg, &42, "user", 0);
    assert_eq!(
        decode_claims(&token, b"test-secret-key", 3600).unwrap_err(),
        DecodeError::Expired
    );
    assert!(decode_claims(&token, b"test-secret-key", 3599).is_ok());
}

#[test]
fn role_with_separators_round_trips() {
    let claims = Claims {
        sub: 7,
        exp: 1000,
        role: String::from("a.b%c:d%%..e"),
    };
    let token = encode_claims(&claims, b"k");
    let back = decode_claims_raw(&token, b"k").unwrap();
    assert_eq!(back.sub, 7);
    assert_eq!(back.exp, 1000);
    assert_eq!(back.role, "a.b%c:d%%..e");
}

#[test]
fn empty_role_round_trips() {
    let claims = Claims {
        sub: 0,
        exp: -5,
        role: String::new(),
    };
    let token = encode_claims(&claims, b"k");
    let back = decode_claims_raw(&token, b"k").unwrap();
    assert_eq!(back.sub, 0);
    assert_eq!(back.exp, -5);
    assert_eq!(back.role, "");
}

#[test]
fn deny_list_add_is_upsert() {
    let mut deny = JwtDenyList::new();
    deny.add("t", 100);
    assert!(deny.is_denied("t", 50));
    assert!(!deny.is_denied("t", 100));
    deny.add("t", 300);
    assert!(deny.is_denied("t", 200));
}

#[test]
fn purge_removes_exactly_expired_entries() {
    let mut deny = JwtDenyList::new();
    deny.add("t1", 100);
    deny.add("t2", 200);
    deny.add("t3", 150);
    deny.remove_expired_tokens(150);
    assert!(!deny.is_denied("t1", 0));
    assert!(!deny.is_denied("t3", 0));
    assert!(deny.is_denied("t2", 150));
    assert!(!deny.is_denied("t2", 200));
}

#[test]
fn purge_on_empty_store_is_noop() {
    let mut deny = JwtDenyList::new();
    deny.remove_expired_tokens(0);
    assert!(!deny.is_denied("anything", 0));
}

#[test]
fn sweep_tick_purges() {
    let mut deny = JwtDenyList::new();
    deny.add("old", 10);
    deny.add("live", 1000);
    let sweep = JwtDenyListFairing;
    sweep.on_tick(&mut deny, 500);
    assert!(!deny.is_denied("old", 5));
    assert!(deny.is_denied("live", 500));
}
