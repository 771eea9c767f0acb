use llm_test_api::error::ApiError;
use llm_test_api::proxy::{
    default_method, forwarded_headers, is_hop_by_hop, is_private_host, llm_proxy_handler,
    parse_method, proxy_answer, redacted_value, response_headers, upstream_status, HttpMethod,
    ProxyRequest,
};

fn pairs(v: &[(&str, &str)]) -> Vec<(String, String)> {
    v.iter().map(|(a, b)| (a.to_string(), b.to_string())).collect()
}

fn request(url: &str, method: &str) -> ProxyRequest {
    ProxyRequest {
        url: url.to_string(),
        method: method.to_string(),
        headers: pairs(&[("Authorization", "Bearer sk"), ("Host", "x"), ("Content-Type", "application/json")]),
        body: Some("{}".to_string()),
    }
}

#[test]
fn methods_are_read_in_any_case() {
    assert!(matches!(parse_method("get"), Ok(HttpMethod::Get)));
    assert!(matches!(parse_method("Post"), Ok(HttpMethod::Post)));
    assert!(matches!(parse_method("PUT"), Ok(HttpMethod::Put)));
    assert!(matches!(parse_method("patch"), Ok(HttpMethod::Patch)));
    assert!(matches!(parse_method("DELETE"), Ok(HttpMethod::Delete)));
    match parse_method("head") {
        Err(ApiError::BadRequest(m)) => assert_eq!(m, "Unsupported method: head"),
        _ => panic!("expected a bad request"),
    }
}

#[test]
fn private_hosts_are_detected_case_insensitively() {
    for u in [
        "http://localhost:8080/v1",
        "HTTP://LOCALHOST/x",
        "http://127.0.0.1/",
        "http://[::1]:80/",
        "https://0.0.0.0/",
        "http://169.254.169.254/latest",
        "http://10.1.2.3/",
        "http://172.16.0.1/",
        "http://192.168.1.1/",
    ] {
        assert!(is_private_host(u), "{}", u);
    }
    for u in ["https://api.example.net/v1", "http://172.17.0.1/", "https://example.com/10.x"] {
        assert!(!is_private_host(u), "{}", u);
    }
}

#[test]
fn hop_by_hop_headers() {
    for h in ["Connection", "keep-alive", "Transfer-Encoding", "HOST", "Origin", "Referer", "Content-Encoding", "Content-Length", "Access-Control-Allow-Origin"] {
        assert!(is_hop_by_hop(h), "{}", h);
    }
    for h in ["Authorization", "Content-Type", "x-api-key", ""] {
        assert!(!is_hop_by_hop(h), "{}", h);
    }
}

#[test]
fn forwarded_headers_drop_hop_by_hop_and_keep_order() {
    let h = pairs(&[("A", "1"), ("Connection", "close"), ("B", "2"), ("content-length", "3")]);
    assert_eq!(forwarded_headers(&h), pairs(&[("A", "1"), ("B", "2")]));
}

#[test]
fn proxy_prepares_upstream_request() {
    let up = llm_proxy_handler(request("https://api.example.com/v1/chat", "post")).unwrap();
    assert!(matches!(up.method, HttpMethod::Post));
    assert_eq!(up.url, "https://api.example.com/v1/chat");
    assert_eq!(up.headers, pairs(&[("Authorization", "Bearer sk"), ("Content-Type", "application/json")]));
    assert_eq!(up.body.as_deref(), Some("{}"));
}

#[test]
fn proxy_refuses_other_schemes() {
    for u in ["ftp://example.com", "HTTPS://example.com", "example.com"] {
        match llm_proxy_handler(request(u, "GET")) {
            Err(ApiError::BadRequest(m)) => assert_eq!(m, "Invalid URL scheme in proxy request"),
            _ => panic!("expected a bad request for {}", u),
        }
    }
}

#[test]
fn proxy_refuses_private_hosts_before_method() {
    match llm_proxy_handler(request("http://localhost:1234", "TRACE")) {
        Err(ApiError::BadRequest(m)) => assert_eq!(m, "Proxying to private/internal hosts is not allowed"),
        _ => panic!("expected a bad request"),
    }
}

#[test]
fn proxy_refuses_unknown_methods() {
    match llm_proxy_handler(request("https://example.com", "TRACE")) {
        Err(ApiError::BadRequest(m)) => assert_eq!(m, "Unsupported method: TRACE"),
        _ => panic!("expected a bad request"),
    }
}

#[test]
fn invalid_upstream_status_becomes_bad_gateway() {
    assert_eq!(upstream_status(200), 200);
    assert_eq!(upstream_status(100), 100);
    assert_eq!(upstream_status(999), 999);
    assert_eq!(upstream_status(99), 502);
    assert_eq!(upstream_status(0), 502);
    assert_eq!(upstream_status(1000), 502);
}

#[test]
fn upstream_headers_passed_back() {
    let h = pairs(&[
        ("content-type", "text/event-stream"),
        ("content-length", "10"),
        ("bad name", "x"),
        ("x-ok", "bad\nvalue"),
        ("x-request-id", "abc"),
    ]);
    assert_eq!(
        response_headers(&h),
        pairs(&[("content-type", "text/event-stream"), ("x-request-id", "abc")])
    );
}

#[test]
fn credentials_are_redacted_in_logs() {
    assert_eq!(redacted_value("Authorization", "Bearer sk"), "[REDACTED]");
    assert_eq!(redacted_value("X-API-KEY", "k"), "[REDACTED]");
    assert_eq!(redacted_value("x-goog-api-key", "k"), "[REDACTED]");
    assert_eq!(redacted_value("api-key", "k"), "[REDACTED]");
    assert_eq!(redacted_value("Content-Type", "application/json"), "application/json");
}

#[test]
fn default_method_is_get() {
    assert_eq!(default_method(), "GET");
}

#[test]
fn proxy_answer_keeps_body_and_valid_headers() {
    let h = pairs(&[("content-length", "3"), ("x-a", "1")]);
    let a = proxy_answer(42, &h, vec![1, 2, 3]);
    assert_eq!(a.status, 502);
    assert_eq!(a.headers, pairs(&[("x-a", "1")]));
    assert_eq!(a.body, vec![1, 2, 3]);
    assert_eq!(proxy_answer(201, &h, vec![]).status, 201);
}

#[test]
fn header_values_allow_tabs_and_non_ascii() {
    let h = pairs(&[("x-a", "a\tb"), ("x-b", "é"), ("x-c", "del\u{7f}"), ("x-d", "")]);
    assert_eq!(response_headers(&h), pairs(&[("x-a", "a\tb"), ("x-b", "é"), ("x-d", "")]));
}

#[test]
fn header_names_are_token_characters() {
    let long = "x".repeat(70);
    let h = pairs(&[("X-Upper", "1"), ("a b", "2"), ("", "3"), ("x:y", "4"), ("!#$%&'*+-.^_`|~09az", "5"), (long.as_str(), "6")]);
    assert_eq!(
        response_headers(&h),
        pairs(&[("X-Upper", "1"), ("!#$%&'*+-.^_`|~09az", "5"), (long.as_str(), "6")])
    );
}
