use llm_test_api::access::{
    anonymous_key, check_ip_quota, check_turnstile, extract_auth, github_login,
    resolve_github_user, token_source, TokenSource, UserLookup,
};
use llm_test_api::auth::hash_ip;
use llm_test_api::error::ApiError;
use llm_test_api::models::{JwtClaims, UserRow};

fn claims(sub: &str, kind: &str, ip_hash: Option<&str>) -> JwtClaims {
    JwtClaims {
        sub: sub.to_string(),
        login: None,
        submitter_type: kind.to_string(),
        ip_hash: ip_hash.map(|s| s.to_string()),
        exp: 100,
        iat: 1,
    }
}

fn some(s: &str) -> Option<String> {
    Some(s.to_string())
}

#[test]
fn bearer_token_is_taken_from_authorization() {
    match token_source(&some("Bearer abc.def.ghi"), &some("anon")) {
        Ok(TokenSource::Bearer(t)) => assert_eq!(t, "abc.def.ghi"),
        _ => panic!("expected a bearer token"),
    }
}

#[test]
fn repeated_bearer_prefixes_and_spaces_are_removed() {
    match token_source(&some("Bearer Bearer   tok  "), &None) {
        Ok(TokenSource::Bearer(t)) => assert_eq!(t, "tok"),
        _ => panic!("expected a bearer token"),
    }
}

#[test]
fn other_authorization_schemes_fall_back_to_anonymous_token() {
    match token_source(&some("bearer abc"), &some("anon-token")) {
        Ok(TokenSource::Anonymous(t)) => assert_eq!(t, "anon-token"),
        _ => panic!("expected the anonymous token"),
    }
    match token_source(&some("Basic xyz"), &None) {
        Err(ApiError::Unauthorized(m)) => assert_eq!(m, "Authentication required"),
        _ => panic!("expected unauthorized"),
    }
}

#[test]
fn no_token_is_unauthorized() {
    match token_source(&None, &None) {
        Err(ApiError::Unauthorized(m)) => assert_eq!(m, "Authentication required"),
        _ => panic!("expected unauthorized"),
    }
}

#[test]
fn token_source_exposes_the_token() {
    assert_eq!(TokenSource::Bearer("x".to_string()).token(), "x");
    assert_eq!(TokenSource::Anonymous("y".to_string()).token(), "y");
}

#[test]
fn verified_bearer_claims_identify_the_caller() {
    let src = TokenSource::Bearer("t".to_string());
    let (kind, user, ip) = extract_auth(&src, Ok(claims("user-9", "oauth", None))).unwrap();
    assert_eq!(kind, "oauth");
    assert_eq!(user.as_deref(), Some("user-9"));
    assert!(ip.is_none());
    let (kind, user, ip) =
        extract_auth(&src, Ok(claims("h", "anonymous", Some("h")))).unwrap();
    assert_eq!((kind.as_str(), user.as_deref(), ip.as_deref()), ("anonymous", Some("h"), Some("h")));
}

#[test]
fn failed_bearer_verification_is_unauthorized() {
    let src = TokenSource::Bearer("t".to_string());
    match extract_auth(&src, Err(ApiError::Internal("JWT expired".to_string()))) {
        Err(ApiError::Unauthorized(m)) => assert_eq!(m, "Invalid JWT token"),
        _ => panic!("expected unauthorized"),
    }
}

#[test]
fn anonymous_token_gives_the_address_hash_only() {
    let src = TokenSource::Anonymous("t".to_string());
    let (kind, user, ip) = extract_auth(&src, Ok(claims("iphash", "anonymous", Some("other")))).unwrap();
    assert_eq!(kind, "anonymous");
    assert!(user.is_none());
    assert_eq!(ip.as_deref(), Some("iphash"));
}

#[test]
fn anonymous_header_with_signed_in_token_is_refused() {
    let src = TokenSource::Anonymous("t".to_string());
    match extract_auth(&src, Ok(claims("user", "oauth", None))) {
        Err(ApiError::Unauthorized(m)) => assert_eq!(m, "Invalid anonymous token"),
        _ => panic!("expected unauthorized"),
    }
    match extract_auth(&src, Err(ApiError::Internal("x".to_string()))) {
        Err(ApiError::Unauthorized(m)) => assert_eq!(m, "Invalid anonymous token"),
        _ => panic!("expected unauthorized"),
    }
}

#[test]
fn login_redirect_uses_configured_callback() {
    let url = github_login(Ok("cid".to_string()), some("https://app/cb"), some("https://front")).unwrap();
    assert_eq!(
        url,
        "https://github.com/login/oauth/authorize?client_id=cid&redirect_uri=https://app/cb&scope=read:user"
    );
}

#[test]
fn login_redirect_falls_back_to_frontend_address() {
    let url = github_login(Ok("cid".to_string()), None, some("https://llmtest.top//")).unwrap();
    assert_eq!(
        url,
        "https://github.com/login/oauth/authorize?client_id=cid&redirect_uri=https://llmtest.top/auth/callback&scope=read:user"
    );
    let url = github_login(Ok("cid".to_string()), None, None).unwrap();
    assert_eq!(
        url,
        "https://github.com/login/oauth/authorize?client_id=cid&redirect_uri=http://localhost:5173/auth/callback&scope=read:user"
    );
}

#[test]
fn login_without_client_id_is_an_oauth_error() {
    match github_login(Err(ApiError::Internal("Missing config: GITHUB_CLIENT_ID".to_string())), None, None) {
        Err(ApiError::OAuth(m)) => assert_eq!(m, "GITHUB_CLIENT_ID not configured"),
        _ => panic!("expected an OAuth error"),
    }
}

#[test]
fn known_github_user_is_reused_and_new_one_is_created() {
    let existing = UserRow {
        id: "u1".to_string(),
        github_id: Some(7),
        login: "old".to_string(),
        avatar_url: None,
    };
    match resolve_github_user(Some(existing), 7, "new".to_string(), None) {
        UserLookup::Existing(u) => assert_eq!((u.id.as_str(), u.login.as_str()), ("u1", "old")),
        UserLookup::Create(_) => panic!("expected the stored account"),
    }
    match resolve_github_user(None, 8, "octo".to_string(), Some("a.png".to_string())) {
        UserLookup::Create(u) => {
            assert_eq!(u.github_id, Some(8));
            assert_eq!(u.login, "octo");
            assert_eq!(u.avatar_url.as_deref(), Some("a.png"));
            assert_eq!(u.id.len(), 36);
        }
        UserLookup::Existing(_) => panic!("expected a new account"),
    }
}

#[test]
fn failed_turnstile_is_a_bad_request() {
    assert!(check_turnstile(true).is_ok());
    match check_turnstile(false) {
        Err(ApiError::BadRequest(m)) => assert_eq!(m, "Turnstile verification failed"),
        _ => panic!("expected a bad request"),
    }
}

#[test]
fn missing_address_is_counted_as_zero_address() {
    assert_eq!(anonymous_key(&None), hash_ip("0.0.0.0"));
    assert_eq!(anonymous_key(&some("198.51.100.2")), hash_ip("198.51.100.2"));
}

#[test]
fn ten_anonymous_submissions_a_day_close_the_door() {
    assert!(check_ip_quota(0).is_ok());
    assert!(check_ip_quota(9).is_ok());
    for n in [10u32, 11, 1000] {
        match check_ip_quota(n) {
            Err(ApiError::RateLimited(m)) => assert_eq!(
                m,
                "Too many submissions from this IP. Please try again later or log in with GitHub."
            ),
            _ => panic!("expected rate limiting"),
        }
    }
}

use llm_test_api::access::{anonymous_auth, SignInAction, SignInEvent, SignInState};

#[test]
fn sign_in_asks_turnstile_first() {
    let (state, action) = anonymous_auth(&None, SignInState::Start, SignInEvent::Begin);
    assert!(matches!(state, SignInState::CheckingTurnstile));
    assert!(matches!(action, SignInAction::VerifyTurnstile));
}

#[test]
fn sign_in_failed_turnstile_is_refused() {
    let (state, action) =
        anonymous_auth(&None, SignInState::CheckingTurnstile, SignInEvent::TurnstileChecked(false));
    assert!(matches!(state, SignInState::Done));
    assert!(matches!(action, SignInAction::Respond(Err(ApiError::BadRequest(ref m))) if m == "Turnstile verification failed"));
}

#[test]
fn sign_in_counts_under_address_hash() {
    let (state, action) = anonymous_auth(
        &some("192.0.2.1"),
        SignInState::CheckingTurnstile,
        SignInEvent::TurnstileChecked(true),
    );
    let expected = hash_ip("192.0.2.1");
    assert!(matches!(state, SignInState::Counting { ref ip_hash } if *ip_hash == expected));
    assert!(matches!(action, SignInAction::CountAnonymousForAddress { ref ip_hash, hours: 24 } if *ip_hash == expected));
    let (_, action) = anonymous_auth(&None, SignInState::CheckingTurnstile, SignInEvent::TurnstileChecked(true));
    assert!(matches!(action, SignInAction::CountAnonymousForAddress { ref ip_hash, .. } if *ip_hash == hash_ip("0.0.0.0")));
}

#[test]
fn sign_in_over_daily_quota_is_refused() {
    let (state, action) = anonymous_auth(
        &None,
        SignInState::Counting { ip_hash: "h".to_string() },
        SignInEvent::Counted(10),
    );
    assert!(matches!(state, SignInState::Done));
    assert!(matches!(action, SignInAction::Respond(Err(ApiError::RateLimited(_)))));
    let (state, action) = anonymous_auth(
        &None,
        SignInState::Counting { ip_hash: "h".to_string() },
        SignInEvent::Counted(9),
    );
    assert!(matches!(state, SignInState::LoadingSecret { ref ip_hash } if ip_hash == "h"));
    assert!(matches!(action, SignInAction::LoadJwtSecret));
}

#[test]
fn sign_in_without_secret_reports_it() {
    let (state, action) = anonymous_auth(
        &None,
        SignInState::LoadingSecret { ip_hash: "h".to_string() },
        SignInEvent::SecretLoaded(Err(ApiError::Internal("Missing config: JWT_SECRET".to_string()))),
    );
    assert!(matches!(state, SignInState::Done));
    assert!(matches!(action, SignInAction::Respond(Err(ApiError::Internal(ref m))) if m == "Missing config: JWT_SECRET"));
}

#[test]
fn bearer_token_trims_unicode_white_space() {
    match token_source(&some("Bearer \u{3000}tok\u{a0}\n"), &None) {
        Ok(TokenSource::Bearer(t)) => assert_eq!(t, "tok"),
        _ => panic!("expected a bearer token"),
    }
}
