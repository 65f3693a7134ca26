use user_management::auth::{create_auth_cookie, create_token, AuthConfig, TOKEN_DURATION};
use user_management::auth_middleware::{
    authenticate, bearer_token, token_from_sources, AuthError, SameSitePolicy,
};
use user_management::csrf::set_csrf_cookie;
use user_management::csrf::{generate_csrf_token, set_csrf_token, verify_csrf_token, Session};
use user_management::deny_list::JwtDenyList;
use user_management::digits::{parse_i64_dec, parse_u64_dec};
use user_management::handlers::{can_access, sanitize_input};
use user_management::models::{hash, verify_password, LoginCredentials, User};

#[test]
fn csrf_verify_matches_only_current_value() {
    let mut session = Session::new();
    assert!(!verify_csrf_token(&session, "anything"));
    let first = set_csrf_token(&mut session).unwrap();
    assert_eq!(first.chars().count(), 32);
    assert!(first.chars().all(|c| c.is_ascii_alphanumeric()));
    assert!(verify_csrf_token(&session, &first));
    assert!(!verify_csrf_token(&session, "wrong"));
    let second = set_csrf_token(&mut session).unwrap();
    assert_ne!(first, second);
    assert!(!verify_csrf_token(&session, &first));
    assert!(verify_csrf_token(&session, &second));
}

#[test]
fn generated_tokens_are_alphanumeric_and_fresh() {
    let a = generate_csrf_token();
    let b = generate_csrf_token();
    assert_eq!(a.chars().count(), 32);
    assert_eq!(b.chars().count(), 32);
    assert!(a.chars().all(|c| c.is_ascii_alphanumeric()));
    assert_ne!(a, b);
}

#[test]
fn password_hash_round_trip() {
    let record = hash(b"hunter42");
    assert!(record.starts_with("$argon2"));
    assert!(verify_password(b"hunter42", &record));
    assert!(!verify_password(b"wrong", &record));
    assert!(!verify_password(b"hunter42", "not a hash record"));
}

#[test]
fn hashing_twice_salts_differently() {
    let first = hash(b"same password");
    let second = hash(b"same password");
    assert_ne!(first, second);
    assert!(verify_password(b"same password", &first));
    assert!(verify_password(b"same password", &second));
}

#[test]
fn sanitize_trims_and_strips() {
    assert_eq!(sanitize_input("  hello  "), "hello");
    assert_eq!(sanitize_input("<script>alert(\"x\")</script>"), "scriptalert(x)/script");
    assert_eq!(sanitize_input("a&b'c"), "abc");
    assert_eq!(sanitize_input("\t spaced inside \n"), "spaced inside");
    assert_eq!(sanitize_input("   "), "");
    assert_eq!(sanitize_input(""), "");
}

#[test]
fn bearer_header_extraction() {
    assert_eq!(bearer_token("Bearer abc.def").as_deref(), Some("abc.def"));
    assert_eq!(bearer_token("Bearer "), Some(String::new()));
    assert_eq!(bearer_token("Basic abc"), None);
    assert_eq!(bearer_token(""), None);
}

#[test]
fn cookie_wins_over_header() {
    let header = String::from("Bearer from-header");
    let from_cookie = token_from_sources(Some(String::from("from-cookie")), Some(&header));
    assert_eq!(from_cookie.as_deref(), Some("from-cookie"));
    let from_header = token_from_sources(None, Some(&header));
    assert_eq!(from_header.as_deref(), Some("from-header"));
    assert_eq!(token_from_sources(None, None), None);
}

#[test]
fn authenticate_outcomes() {
    let cfg = AuthConfig::new(b"s".to_vec(), 3600);
    let mut deny = JwtDenyList::new();
    assert_eq!(
        authenticate(None, &deny, &cfg, 0).unwrap_err(),
        AuthError::Missing
    );
    let junk = String::from("not-a-token");
    assert_eq!(
        authenticate(Some(&junk), &deny, &cfg, 0).unwrap_err(),
        AuthError::Invalid
    );
    let token = create_token(&cfg, &9, "user", 0);
    let user = authenticate(Some(&token), &deny, &cfg, 10).unwrap();
    assert_eq!(user.claims.sub, 9);
    assert_eq!(
        authenticate(Some(&token), &deny, &cfg, 3600).unwrap_err(),
        AuthError::Expired
    );
    deny.add(&token, 3600);
    assert_eq!(
        authenticate(Some(&token), &deny, &cfg, 10).unwrap_err(),
        AuthError::Denied
    );
}

#[test]
fn access_is_limited_to_own_record() {
    let cfg = AuthConfig::new(b"s".to_vec(), 60);
    let deny = JwtDenyList::new();
    let token = create_token(&cfg, &5, "user", 0);
    let user = authenticate(Some(&token), &deny, &cfg, 1).unwrap();
    assert!(can_access(&user.claims, 5));
    assert!(!can_access(&user.claims, 6));
}

#[test]
fn decimal_parsing_is_strict() {
    assert_eq!(parse_u64_dec("0"), Some(0));
    assert_eq!(parse_u64_dec("42"), Some(42));
    assert_eq!(parse_u64_dec("18446744073709551615"), Some(u64::MAX));
    assert_eq!(parse_u64_dec("18446744073709551616"), None);
    assert_eq!(parse_u64_dec("007"), None);
    assert_eq!(parse_u64_dec(""), None);
    assert_eq!(parse_u64_dec("1a2"), None);
    assert_eq!(parse_i64_dec("-1"), Some(-1));
    assert_eq!(parse_i64_dec("-0"), None);
    assert_eq!(parse_i64_dec("9223372036854775807"), Some(i64::MAX));
    assert_eq!(parse_i64_dec("-9223372036854775808"), Some(i64::MIN));
    assert_eq!(parse_i64_dec("9223372036854775808"), None);
    assert_eq!(parse_i64_dec("-"), None);
}

#[test]
fn auth_cookie_instruction_protects_the_token() {
    let cookie = create_auth_cookie("tok.en", TOKEN_DURATION);
    assert_eq!(cookie.name, "auth_token");
    assert_eq!(cookie.value, "tok.en");
    assert_eq!(cookie.path, "/");
    assert!(cookie.http_only);
    assert!(cookie.secure);
    assert_eq!(cookie.same_site, SameSitePolicy::Lax);
    assert_eq!(cookie.max_age_secs, Some(60 * 60));
}

#[test]
fn csrf_cookie_instruction_is_script_readable() {
    let cookie = set_csrf_cookie("abc123");
    assert_eq!(cookie.name, "csrf_token");
    assert_eq!(cookie.value, "abc123");
    assert_eq!(cookie.path, "/");
    assert!(!cookie.http_only);
    assert!(cookie.secure);
    assert_eq!(cookie.same_site, SameSitePolicy::Strict);
    assert_eq!(cookie.max_age_secs, None);
}

#[test]
fn record_types_carry_their_fields() {
    let creds = LoginCredentials {
        username: String::from("ada"),
        password: String::from("pw"),
    };
    let user = User {
        id: 1,
        username: creds.username,
        password: hash(creds.password.as_bytes()),
        role: String::from("user"),
    };
    assert_eq!(user.username, "ada");
    assert!(verify_password(b"pw", &user.password));
}
