use llm_test_api::error::ApiError;
use llm_test_api::models::{ModelRow, WebsiteRow};
use llm_test_api::store::ReplaceKey;
use llm_test_api::submit::{submit, SubmissionInput, SubmitAction, SubmitEvent, SubmitState};

fn s(x: &str) -> String {
    x.to_string()
}

fn input(version: &str) -> SubmissionInput {
    SubmissionInput {
        domain: s("chat.example.com"),
        model: s("  model-a  "),
        test_suite_version: s(version),
        api_style: s("style-a"),
        endpoint_hash: s("eh"),
        dimension_scores: s("{\"speed\":1}"),
        test_results: s("[]"),
    }
}

fn website() -> WebsiteRow {
    WebsiteRow { id: s("w1"), name: s("chat.example.com"), domains: s("[\"chat.example.com\"]") }
}

fn model() -> ModelRow {
    ModelRow { id: s("m1"), name: s("model-a"), aliases: s("[]") }
}

#[test]
fn stale_test_suite_is_refused_at_once() {
    let (state, action) = submit(&input("v0"), &s("v1"), SubmitState::Start, SubmitEvent::Begin);
    assert!(matches!(state, SubmitState::Done));
    match action {
        SubmitAction::Respond(Err(ApiError::BadRequest(m))) => {
            assert_eq!(m, "Test suite version mismatch. Current: v1")
        }
        _ => panic!("expected a bad request"),
    }
}

#[test]
fn authentication_failure_is_the_answer() {
    let inp = input("v1");
    let (state, action) = submit(&inp, &s("v1"), SubmitState::Start, SubmitEvent::Begin);
    assert!(matches!(action, SubmitAction::Authenticate));
    let (state, action) = submit(
        &inp,
        &s("v1"),
        state,
        SubmitEvent::Authenticated(Err(ApiError::Unauthorized(s("Authentication required")))),
    );
    assert!(matches!(state, SubmitState::Done));
    assert!(matches!(action, SubmitAction::Respond(Err(ApiError::Unauthorized(ref m))) if m == "Authentication required"));
}

#[test]
fn anonymous_caller_over_site_quota_is_refused() {
    let inp = input("v1");
    let (state, _) = submit(&inp, &s("v1"), SubmitState::Start, SubmitEvent::Begin);
    let who = (s("anonymous"), None, Some(s("iphash")));
    let (state, action) = submit(&inp, &s("v1"), state, SubmitEvent::Authenticated(Ok(who)));
    assert!(matches!(state, SubmitState::DailyCount { .. }));
    assert!(matches!(action, SubmitAction::CountAnonymousForAddress { ref ip_hash, hours: 24 } if ip_hash == "iphash"));
    let (state, action) = submit(&inp, &s("v1"), state, SubmitEvent::Counted(9));
    assert!(matches!(state, SubmitState::RateWebsite { .. }));
    assert!(matches!(action, SubmitAction::FindWebsiteByDomain(ref d) if d == "chat.example.com"));
    let (state, action) = submit(&inp, &s("v1"), state, SubmitEvent::WebsiteFound(Some(website())));
    match action {
        SubmitAction::CountAnonymousForWebsite { ip_hash, website_id, hours } => {
            assert_eq!((ip_hash.as_str(), website_id.as_str(), hours), ("iphash", "w1", 24));
        }
        _ => panic!("expected a count"),
    }
    let (state, action) = submit(&inp, &s("v1"), state, SubmitEvent::Counted(3));
    assert!(matches!(state, SubmitState::Done));
    match action {
        SubmitAction::Respond(Err(ApiError::RateLimited(m))) => {
            assert_eq!(m, "Too many submissions to this website from this IP.")
        }
        _ => panic!("expected rate limiting"),
    }
}

#[test]
fn anonymous_caller_under_quota_goes_on() {
    let inp = input("v1");
    let who = (s("anonymous"), None, Some(s("iphash")));
    let (state, _) = submit(&inp, &s("v1"), SubmitState::Authenticating, SubmitEvent::Authenticated(Ok(who)));
    let (state, _) = submit(&inp, &s("v1"), state, SubmitEvent::Counted(0));
    let (state, _) = submit(&inp, &s("v1"), state, SubmitEvent::WebsiteFound(Some(website())));
    let (state, action) = submit(&inp, &s("v1"), state, SubmitEvent::Counted(2));
    assert!(matches!(state, SubmitState::FindingWebsite { .. }));
    assert!(matches!(action, SubmitAction::FindWebsiteByDomain(_)));
}

#[test]
fn new_website_model_and_link_are_created_then_submission_stored() {
    let inp = input("v1");
    let v1 = s("v1");
    let who = (s("oauth"), Some(s("u1")), None);
    let (state, action) = submit(&inp, &v1, SubmitState::Authenticating, SubmitEvent::Authenticated(Ok(who)));
    assert!(matches!(state, SubmitState::FindingWebsite { .. }));
    assert!(matches!(action, SubmitAction::FindWebsiteByDomain(_)));
    let (state, action) = submit(&inp, &v1, state, SubmitEvent::WebsiteFound(None));
    let website_id = match action {
        SubmitAction::CreateWebsite(w) => {
            assert_eq!(w.name, "chat.example.com");
            assert_eq!(w.domains, "[\"chat.example.com\"]");
            w.id
        }
        _ => panic!("expected a new website"),
    };
    let (state, action) = submit(&inp, &v1, state, SubmitEvent::Completed);
    assert!(matches!(action, SubmitAction::FindModel(ref n) if n == "model-a"));
    let (state, action) = submit(&inp, &v1, state, SubmitEvent::ModelFound(None));
    let model_id = match action {
        SubmitAction::CreateModel(m) => {
            assert_eq!((m.name.as_str(), m.aliases.as_str()), ("model-a", "[]"));
            m.id
        }
        _ => panic!("expected a new model"),
    };
    let (state, action) = submit(&inp, &v1, state, SubmitEvent::Completed);
    assert!(matches!(action, SubmitAction::FindLink { ref website_id, ref model_id } if *website_id == website_id.clone() && *model_id == model_id.clone()));
    let (state, action) = submit(&inp, &v1, state, SubmitEvent::LinkFound(false));
    match &action {
        SubmitAction::CreateLink { website_id: w, model_id: m } => {
            assert_eq!(w, &website_id);
            assert_eq!(m, &model_id);
        }
        _ => panic!("expected a new link"),
    }
    let (state, action) = submit(&inp, &v1, state, SubmitEvent::Completed);
    let sub_id = match action {
        SubmitAction::Upsert(p) => {
            assert!(matches!(p.replace, ReplaceKey::OAuthUser(ref u) if u == "u1"));
            assert_eq!(p.website_id, website_id);
            assert_eq!(p.model_id, model_id);
            assert_eq!(p.record.submitter_type, "oauth");
            assert_eq!(p.record.test_suite_version, "v1");
            assert_eq!(p.record.dimension_scores, "{\"speed\":1}");
            p.record.id
        }
        _ => panic!("expected the upsert"),
    };
    let (state, action) = submit(&inp, &v1, state, SubmitEvent::Completed);
    assert!(matches!(state, SubmitState::Done));
    match action {
        SubmitAction::Respond(Ok(r)) => {
            assert_eq!(r.id, sub_id);
            assert_eq!(r.website_id, website_id);
            assert_eq!(r.website_name, "chat.example.com");
            assert_eq!(r.model_id, model_id);
            assert_eq!(r.model_name, "model-a");
        }
        _ => panic!("expected the answer"),
    }
}

#[test]
fn known_website_and_model_with_link_go_straight_to_upsert() {
    let inp = input("v1");
    let v1 = s("v1");
    let who = (s("oauth"), Some(s("u1")), None);
    let (state, _) = submit(&inp, &v1, SubmitState::Authenticating, SubmitEvent::Authenticated(Ok(who)));
    let (state, _) = submit(&inp, &v1, state, SubmitEvent::WebsiteFound(Some(website())));
    let (state, action) = submit(&inp, &v1, state, SubmitEvent::ModelFound(Some(model())));
    assert!(matches!(action, SubmitAction::FindLink { ref website_id, ref model_id } if website_id == "w1" && model_id == "m1"));
    let (state, action) = submit(&inp, &v1, state, SubmitEvent::LinkFound(true));
    assert!(matches!(state, SubmitState::Upserting { .. }));
    assert!(matches!(action, SubmitAction::Upsert(_)));
}

#[test]
fn anonymous_caller_over_daily_quota_is_refused() {
    let inp = input("v1");
    let who = (s("anonymous"), None, Some(s("iphash")));
    let (state, _) = submit(&inp, &s("v1"), SubmitState::Authenticating, SubmitEvent::Authenticated(Ok(who)));
    let (state, action) = submit(&inp, &s("v1"), state, SubmitEvent::Counted(10));
    assert!(matches!(state, SubmitState::Done));
    match action {
        SubmitAction::Respond(Err(ApiError::RateLimited(m))) => assert_eq!(
            m,
            "Too many submissions from this IP. Please try again later or log in with GitHub."
        ),
        _ => panic!("expected rate limiting"),
    }
}

#[test]
fn anonymous_caller_with_no_website_yet_goes_on() {
    let inp = input("v1");
    let who = (s("anonymous"), None, None);
    let (state, action) = submit(&inp, &s("v1"), SubmitState::Authenticating, SubmitEvent::Authenticated(Ok(who)));
    assert!(matches!(action, SubmitAction::CountAnonymousForAddress { ref ip_hash, .. } if ip_hash.is_empty()));
    let (state, _) = submit(&inp, &s("v1"), state, SubmitEvent::Counted(3));
    let (state, action) = submit(&inp, &s("v1"), state, SubmitEvent::WebsiteFound(None));
    assert!(matches!(state, SubmitState::FindingWebsite { .. }));
    assert!(matches!(action, SubmitAction::FindWebsiteByDomain(_)));
}
