use base64::engine::general_purpose::URL_SAFE_NO_PAD;
use base64::Engine;
use hmac::{Hmac, Mac};
use llm_test_api::auth::{
    anonymous_claims, bearer_authorization, check_not_expired, claims_to_json, github_access_token,
    github_identity, github_token_request_body, hash_ip, oauth_claims, sign_jwt,
    turnstile_passed, turnstile_request_body, verify_jwt_payload,
};
use llm_test_api::error::ApiError;
use llm_test_api::models::JwtClaims;
use sha2::{Digest, Sha256};

fn sample_claims() -> JwtClaims {
    JwtClaims {
        sub: "user-1".to_string(),
        login: Some("octocat".to_string()),
        submitter_type: "oauth".to_string(),
        ip_hash: None,
        exp: 1_700_086_400,
        iat: 1_700_000_000,
    }
}

fn expected_token(payload: &str, secret: &str) -> String {
    let header = URL_SAFE_NO_PAD.encode("{\"alg\":\"HS256\",\"typ\":\"JWT\"}".as_bytes());
    let body = URL_SAFE_NO_PAD.encode(payload.as_bytes());
    let input = format!("{}.{}", header, body);
    let mut mac = Hmac::<Sha256>::new_from_slice(secret.as_bytes()).unwrap();
    mac.update(input.as_bytes());
    let sig = URL_SAFE_NO_PAD.encode(mac.finalize().into_bytes().as_slice());
    format!("{}.{}", input, sig)
}

#[test]
fn claims_json_has_fields_in_declaration_order() {
    let text = claims_to_json(&sample_claims());
    assert_eq!(
        text,
        "{\"sub\":\"user-1\",\"login\":\"octocat\",\"submitter_type\":\"oauth\",\"ip_hash\":null,\"exp\":1700086400,\"iat\":1700000000}"
    );
}

#[test]
fn claims_json_escapes_strings() {
    let mut c = sample_claims();
    c.sub = "a\"b\\c".to_string();
    c.login = None;
    c.ip_hash = Some("h".to_string());
    c.exp = 0;
    c.iat = 7;
    assert_eq!(
        claims_to_json(&c),
        "{\"sub\":\"a\\\"b\\\\c\",\"login\":null,\"submitter_type\":\"oauth\",\"ip_hash\":\"h\",\"exp\":0,\"iat\":7}"
    );
}

#[test]
fn sign_jwt_is_hs256_over_header_and_payload() {
    let c = sample_claims();
    let token = sign_jwt(&c, "s3cret").unwrap();
    assert_eq!(token, expected_token(&claims_to_json(&c), "s3cret"));
    assert_eq!(token.split('.').count(), 3);
}

#[test]
fn signed_token_verifies_to_its_claims() {
    let c = sample_claims();
    let token = sign_jwt(&c, "k").unwrap();
    let payload = verify_jwt_payload(&token, "k").unwrap();
    assert_eq!(payload, claims_to_json(&c));
}

#[test]
fn token_under_other_secret_is_refused() {
    let token = sign_jwt(&sample_claims(), "k1").unwrap();
    match verify_jwt_payload(&token, "k2") {
        Err(ApiError::Internal(m)) => assert_eq!(m, "JWT signature verification failed"),
        other => panic!("unexpected {:?}", other),
    }
}

#[test]
fn tampered_payload_is_refused() {
    let token = sign_jwt(&sample_claims(), "k").unwrap();
    let parts: Vec<&str> = token.split('.').collect();
    let mut c = sample_claims();
    c.submitter_type = "admin".to_string();
    let forged = URL_SAFE_NO_PAD.encode(claims_to_json(&c).as_bytes());
    let tampered = format!("{}.{}.{}", parts[0], forged, parts[2]);
    match verify_jwt_payload(&tampered, "k") {
        Err(ApiError::Internal(m)) => assert_eq!(m, "JWT signature verification failed"),
        other => panic!("unexpected {:?}", other),
    }
}

#[test]
fn token_with_wrong_part_count_is_malformed() {
    for t in ["", "a.b", "a.b.c.d", "abc"] {
        match verify_jwt_payload(t, "k") {
            Err(ApiError::Internal(m)) => assert_eq!(m, "Invalid JWT format"),
            other => panic!("unexpected {:?}", other),
        }
    }
}

#[test]
fn signature_that_is_not_base64_is_reported() {
    match verify_jwt_payload("a.b.!!!", "k") {
        Err(ApiError::Internal(m)) => assert!(m.starts_with("Base64 decode error: ")),
        other => panic!("unexpected {:?}", other),
    }
}

#[test]
fn expiry_is_checked_in_milliseconds() {
    let mut c = sample_claims();
    c.exp = 10;
    assert!(check_not_expired(&c, 10_000).is_ok());
    match check_not_expired(&c, 10_001) {
        Err(ApiError::Internal(m)) => assert_eq!(m, "JWT expired"),
        other => panic!("unexpected {:?}", other),
    }
}

#[test]
fn oauth_claims_last_thirty_days() {
    let c = oauth_claims("u", "l", 1000);
    assert_eq!(c.sub, "u");
    assert_eq!(c.login.as_deref(), Some("l"));
    assert_eq!(c.submitter_type, "oauth");
    assert!(c.ip_hash.is_none());
    assert_eq!(c.iat, 1000);
    assert_eq!(c.exp, 1000 + 30 * 24 * 3600);
}

#[test]
fn anonymous_claims_last_one_day() {
    let c = anonymous_claims("hash", 5);
    assert_eq!(c.sub, "hash");
    assert!(c.login.is_none());
    assert_eq!(c.submitter_type, "anonymous");
    assert_eq!(c.ip_hash.as_deref(), Some("hash"));
    assert_eq!(c.exp, 5 + 24 * 3600);
}

#[test]
fn hash_ip_is_lower_hex_sha256() {
    let h = hash_ip("203.0.113.7");
    let expected: String = Sha256::digest("203.0.113.7".as_bytes())
        .iter()
        .map(|b| format!("{:02x}", b))
        .collect();
    assert_eq!(h, expected);
    assert_eq!(h.len(), 64);
    assert_eq!(
        hash_ip("abc"),
        "ba7816bf8f01cfea414140de5dae2223b00361a396177a9cb410ff61f20015ad"
    );
}

#[test]
fn github_token_body_is_sorted_compact_json() {
    assert_eq!(
        github_token_request_body("id", "sec", "c0de"),
        "{\"client_id\":\"id\",\"client_secret\":\"sec\",\"code\":\"c0de\"}"
    );
    assert_eq!(
        github_token_request_body("i\"d", "s", "c"),
        "{\"client_id\":\"i\\\"d\",\"client_secret\":\"s\",\"code\":\"c\"}"
    );
}

#[test]
fn turnstile_body_is_sorted_compact_json() {
    assert_eq!(
        turnstile_request_body("tok", "key"),
        "{\"response\":\"tok\",\"secret\":\"key\"}"
    );
}

#[test]
fn bearer_header_value() {
    assert_eq!(bearer_authorization("gho_x"), "Bearer gho_x");
}

#[test]
fn github_answers_without_fields_are_oauth_errors() {
    match github_access_token(None) {
        Err(ApiError::OAuth(m)) => assert_eq!(m, "Failed to get access_token from GitHub"),
        other => panic!("unexpected {:?}", other),
    }
    assert_eq!(github_access_token(Some("t".to_string())).unwrap(), "t");
    match github_identity(None, Some("l".to_string()), None) {
        Err(ApiError::OAuth(m)) => assert_eq!(m, "Failed to get github id"),
        other => panic!("unexpected {:?}", other),
    }
    match github_identity(Some(1), None, None) {
        Err(ApiError::OAuth(m)) => assert_eq!(m, "Failed to get github login"),
        other => panic!("unexpected {:?}", other),
    }
    let (id, login, avatar) =
        github_identity(Some(42), Some("octo".to_string()), Some("a.png".to_string())).unwrap();
    assert_eq!((id, login.as_str(), avatar.as_deref()), (42, "octo", Some("a.png")));
}

#[test]
fn turnstile_success_defaults_to_false() {
    assert!(turnstile_passed(Some(true)));
    assert!(!turnstile_passed(Some(false)));
    assert!(!turnstile_passed(None));
}

fn token_with_payload_part(payload_part: &str, secret: &str) -> String {
    let header = URL_SAFE_NO_PAD.encode("{\"alg\":\"HS256\",\"typ\":\"JWT\"}".as_bytes());
    let input = format!("{}.{}", header, payload_part);
    let mut mac = Hmac::<Sha256>::new_from_slice(secret.as_bytes()).unwrap();
    mac.update(input.as_bytes());
    let sig = URL_SAFE_NO_PAD.encode(mac.finalize().into_bytes().as_slice());
    format!("{}.{}", input, sig)
}

#[test]
fn signed_payload_that_is_not_base64_is_reported() {
    let token = token_with_payload_part("***", "k");
    match verify_jwt_payload(&token, "k") {
        Err(ApiError::Internal(m)) => assert!(m.starts_with("Base64 decode error: "), "{}", m),
        other => panic!("unexpected {:?}", other),
    }
}

#[test]
fn signed_payload_that_is_not_utf8_is_reported() {
    let part = URL_SAFE_NO_PAD.encode([0xffu8, 0xfe, 0x41]);
    let token = token_with_payload_part(&part, "k");
    match verify_jwt_payload(&token, "k") {
        Err(ApiError::Internal(m)) => assert!(m.starts_with("UTF-8 decode error: "), "{}", m),
        other => panic!("unexpected {:?}", other),
    }
}

#[test]
fn any_signed_payload_is_given_back() {
    let part = URL_SAFE_NO_PAD.encode("not json at all".as_bytes());
    let token = token_with_payload_part(&part, "k");
    assert_eq!(verify_jwt_payload(&token, "k").unwrap(), "not json at all");
}

use llm_test_api::auth::{exchange_github_code, ExchangeAction, ExchangeEvent, ExchangeState};

#[test]
fn exchange_asks_for_a_token_first() {
    let (state, action) = exchange_github_code("c0de", "id", "sec", ExchangeState::Start, ExchangeEvent::Begin);
    assert!(matches!(state, ExchangeState::AwaitingToken));
    match action {
        ExchangeAction::RequestToken { body } => {
            assert_eq!(body, "{\"client_id\":\"id\",\"client_secret\":\"sec\",\"code\":\"c0de\"}")
        }
        _ => panic!("expected the token request"),
    }
}

#[test]
fn exchange_without_token_fails() {
    let (state, action) = exchange_github_code("c", "i", "s", ExchangeState::AwaitingToken, ExchangeEvent::TokenAnswered(None));
    assert!(matches!(state, ExchangeState::Done));
    assert!(matches!(action, ExchangeAction::Finish(Err(ApiError::OAuth(ref m))) if m == "Failed to get access_token from GitHub"));
}

#[test]
fn exchange_asks_for_user_with_bearer_token() {
    let (state, action) = exchange_github_code(
        "c",
        "i",
        "s",
        ExchangeState::AwaitingToken,
        ExchangeEvent::TokenAnswered(Some("gho_1".to_string())),
    );
    assert!(matches!(state, ExchangeState::AwaitingUser));
    assert!(matches!(action, ExchangeAction::RequestUser { ref authorization } if authorization == "Bearer gho_1"));
}

#[test]
fn exchange_ends_with_identity_or_missing_field() {
    let (_, action) = exchange_github_code(
        "c",
        "i",
        "s",
        ExchangeState::AwaitingUser,
        ExchangeEvent::UserAnswered { id: Some(5), login: Some("octo".to_string()), avatar_url: None },
    );
    assert!(matches!(action, ExchangeAction::Finish(Ok((5, ref l, None))) if l == "octo"));
    let (_, action) = exchange_github_code(
        "c",
        "i",
        "s",
        ExchangeState::AwaitingUser,
        ExchangeEvent::UserAnswered { id: Some(5), login: None, avatar_url: None },
    );
    assert!(matches!(action, ExchangeAction::Finish(Err(ApiError::OAuth(ref m))) if m == "Failed to get github login"));
}
