use llm_test_api::config::{
    current_test_suite, get_allowed_origin, get_secret_or_var, preflight_headers, submitter_class,
    SubmitterClass,
};
use llm_test_api::error::{error_response, ApiError};

#[test]
fn secret_wins_over_variable() {
    let r = get_secret_or_var("JWT_SECRET", Some("s".to_string()), Some("v".to_string()));
    assert_eq!(r.unwrap(), "s");
    let r = get_secret_or_var("JWT_SECRET", None, Some("v".to_string()));
    assert_eq!(r.unwrap(), "v");
}

#[test]
fn missing_setting_is_internal_error() {
    match get_secret_or_var("JWT_SECRET", None, None) {
        Err(ApiError::Internal(m)) => assert_eq!(m, "Missing config: JWT_SECRET"),
        other => panic!("unexpected {:?}", other),
    }
}

#[test]
fn test_suite_defaults_to_v1() {
    assert_eq!(current_test_suite(None), "v1");
    assert_eq!(current_test_suite(Some("v2".to_string())), "v2");
}

#[test]
fn only_listed_origins_are_allowed() {
    for o in ["https://llmtest.top", "https://www.llmtest.top", "http://localhost:5173"] {
        assert_eq!(get_allowed_origin(o).as_deref(), Some(o));
    }
    for o in ["", "https://evil.example", "https://llmtest.top/", "http://llmtest.top"] {
        assert!(get_allowed_origin(o).is_none());
    }
}

#[test]
fn preflight_headers_for_allowed_origin() {
    let h = preflight_headers("http://localhost:5173");
    let pairs: Vec<(&str, &str)> = h.iter().map(|(a, b)| (a.as_str(), b.as_str())).collect();
    assert_eq!(
        pairs,
        vec![
            ("Access-Control-Allow-Origin", "http://localhost:5173"),
            ("Access-Control-Allow-Methods", "GET, POST, OPTIONS"),
            ("Access-Control-Allow-Headers", "Authorization, X-Anonymous-Token, Content-Type"),
            ("Access-Control-Max-Age", "86400"),
        ]
    );
    assert!(preflight_headers("https://other.example").is_empty());
}

#[test]
fn submitter_classes() {
    assert!(matches!(submitter_class("oauth"), SubmitterClass::OAuth));
    assert!(matches!(submitter_class("anonymous"), SubmitterClass::Anonymous));
    assert!(matches!(submitter_class("OAuth"), SubmitterClass::Other));
    assert!(matches!(submitter_class(""), SubmitterClass::Other));
}

#[test]
fn errors_map_to_statuses_and_bodies() {
    let cases = vec![
        (ApiError::NotFound("n".to_string()), 404u16, "n"),
        (ApiError::BadRequest("b".to_string()), 400, "b"),
        (ApiError::Unauthorized("u".to_string()), 401, "u"),
        (ApiError::RateLimited("r".to_string()), 429, "r"),
        (ApiError::OAuth("o".to_string()), 502, "o"),
        (ApiError::Internal("i".to_string()), 500, "i"),
        (ApiError::Worker("w".to_string()), 500, "worker error: w"),
        (ApiError::SerdeJson("j".to_string()), 500, "json error: j"),
    ];
    for (e, status, body) in cases {
        let (s, b) = error_response(e);
        assert_eq!(s, status);
        assert_eq!(b, body);
    }
}

#[test]
fn internal_error_constructor() {
    match ApiError::internal("boom") {
        ApiError::Internal(m) => assert_eq!(m, "boom"),
        other => panic!("unexpected {:?}", other),
    }
}
