use llm_test_api::store::{
    count_or_zero, hours_ago, like_pattern, new_model_row, new_website_row, strings_to_json,
    submissions_for_rankings, upsert_submission, users_by_ids, ReplaceKey,
};

#[test]
fn like_pattern_matches_quoted_item() {
    assert_eq!(like_pattern("example.com"), "%\"example.com\"%");
}

#[test]
fn hours_modifier() {
    assert_eq!(hours_ago(24), "-24 hours");
    assert_eq!(hours_ago(0), "-0 hours");
}

#[test]
fn missing_counts_are_zero() {
    assert_eq!(count_or_zero(Some(Some(4))), 4);
    assert_eq!(count_or_zero(Some(None)), 0);
    assert_eq!(count_or_zero(None), 0);
}

#[test]
fn user_query_has_one_placeholder_per_id() {
    assert_eq!(
        users_by_ids(3),
        "SELECT id, github_id, login, avatar_url FROM users WHERE id IN (?1,?2,?3)"
    );
    assert_eq!(
        users_by_ids(1),
        "SELECT id, github_id, login, avatar_url FROM users WHERE id IN (?1)"
    );
    assert!(users_by_ids(12).ends_with("?10,?11,?12)"));
}

#[test]
fn strings_become_compact_json_array() {
    assert_eq!(strings_to_json(&vec![]), "[]");
    assert_eq!(
        strings_to_json(&vec!["a".to_string(), "b\"c".to_string()]),
        "[\"a\",\"b\\\"c\"]"
    );
}

#[test]
fn new_rows() {
    let w = new_website_row("w1".to_string(), "chat.example.com");
    assert_eq!((w.id.as_str(), w.name.as_str(), w.domains.as_str()), ("w1", "chat.example.com", "[\"chat.example.com\"]"));
    let m = new_model_row("m1".to_string(), "model-a");
    assert_eq!((m.id.as_str(), m.name.as_str(), m.aliases.as_str()), ("m1", "model-a", "[]"));
}

#[test]
fn signed_in_upsert_replaces_by_user() {
    let p = upsert_submission("s1", "oauth", &Some("u1".to_string()), &None, "w", "m", "v1", "style-a", "eh", "{}", "[]");
    match &p.replace {
        ReplaceKey::OAuthUser(u) => assert_eq!(u, "u1"),
        ReplaceKey::AnonymousIp(_) => panic!("expected the user key"),
    }
    assert_eq!(p.record.user_id, "u1");
    assert_eq!(p.record.ip_hash, "");
    assert_eq!(p.record.id, "s1");
    assert_eq!(p.record.api_style, "style-a");
    assert_eq!(p.record.dimension_scores, "{}");
    assert_eq!(p.record.test_results, "[]");
    assert_eq!((p.website_id.as_str(), p.model_id.as_str()), ("w", "m"));
}

#[test]
fn anonymous_upsert_replaces_by_address() {
    let p = upsert_submission("s2", "anonymous", &None, &Some("h".to_string()), "w", "m", "v1", "style-b", "eh", "{}", "[]");
    match &p.replace {
        ReplaceKey::AnonymousIp(h) => assert_eq!(h, "h"),
        ReplaceKey::OAuthUser(_) => panic!("expected the address key"),
    }
    assert_eq!(p.record.user_id, "");
    assert_eq!(p.record.ip_hash, "h");
    let p = upsert_submission("s3", "other", &None, &None, "w", "m", "v1", "x", "eh", "{}", "[]");
    match &p.replace {
        ReplaceKey::AnonymousIp(h) => assert_eq!(h, ""),
        ReplaceKey::OAuthUser(_) => panic!("expected the address key"),
    }
}

#[test]
fn rankings_query_by_style() {
    let (q, params) = submissions_for_rankings(&Some("style-a".to_string()));
    assert!(q.starts_with("SELECT id, submitter_type, user_id, ip_hash, website_id, model_id, test_suite_version, api_style, endpoint_hash, total_score, dimension_scores, test_results, created_at FROM submissions"));
    assert!(q.ends_with(" FROM submissions WHERE api_style = ? ORDER BY created_at DESC"));
    assert_eq!(params, vec!["style-a".to_string()]);
    let (q, params) = submissions_for_rankings(&None);
    assert!(q.ends_with(" FROM submissions ORDER BY created_at DESC"));
    assert!(params.is_empty());
}

#[test]
fn json_escapes_control_characters() {
    assert_eq!(
        strings_to_json(&vec!["a\u{1}\n\t\u{8}\u{c}\r\u{1f}\\é/".to_string()]),
        "[\"a\\u0001\\n\\t\\b\\f\\r\\u001f\\\\é/\"]"
    );
}
