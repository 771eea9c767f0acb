use llm_test_api::models::{ModelRow, RankingsQuery, UserRow, WebsiteRow};
use llm_test_api::error::ApiError;
use llm_test_api::rankings::{
    aliases_or_empty, distinct_count, domains_or_name, latest_timestamp, link_for, members,
    model_found, model_name_for, oauth_user_ids, page_window, rank_candidates, rank_page,
    ranking_order, rankings, submitter_profile, website_found, LinkKey, RankSubject,
    RankingsMode, SubmitterRef,
};

fn s(x: &str) -> String {
    x.to_string()
}

fn query() -> RankingsQuery {
    RankingsQuery {
        website_id: None,
        model_id: None,
        ranking_type: None,
        search: None,
        style: None,
        limit: None,
        offset: None,
    }
}

#[test]
fn ranking_order_is_stable_and_descending() {
    assert_eq!(ranking_order(&vec![5, 9, 9, 1, 9]), vec![1, 2, 4, 0, 3]);
    assert_eq!(ranking_order(&vec![]), Vec::<usize>::new());
    assert_eq!(ranking_order(&vec![3, 3, 3]), vec![0, 1, 2]);
}

#[test]
fn first_page_ranks_from_one() {
    let p = rank_page(&vec![10, 30, 20], 0, 50);
    assert_eq!(p.order, vec![1, 2, 0]);
    assert_eq!(p.total, 3);
    let slots: Vec<(usize, u32)> = p.slots.iter().map(|x| (x.entry, x.rank)).collect();
    assert_eq!(slots, vec![(1, 1), (2, 2), (0, 3)]);
}

#[test]
fn later_pages_rank_by_place_in_whole_listing() {
    let p = rank_page(&vec![5, 9, 9, 1], 1, 2);
    let slots: Vec<(usize, u32)> = p.slots.iter().map(|x| (x.entry, x.rank)).collect();
    assert_eq!(slots, vec![(2, 2), (0, 3)]);
    assert_eq!(p.total, 4);
}

#[test]
fn page_past_the_end_is_empty() {
    let p = rank_page(&vec![1, 2], 5, 10);
    assert!(p.slots.is_empty());
    assert_eq!(p.total, 2);
    let p = rank_page(&vec![1, 2, 3], 0, 0);
    assert!(p.slots.is_empty());
}

#[test]
fn page_window_defaults_and_cap() {
    assert_eq!(page_window(&query()), (50, 0));
    let mut q = query();
    q.limit = Some(500);
    q.offset = Some(20);
    assert_eq!(page_window(&q), (100, 20));
    q.limit = Some(7);
    assert_eq!(page_window(&q), (7, 20));
}

#[test]
fn rankings_dispatch() {
    let mut q = query();
    assert!(matches!(rankings(&q), RankingsMode::WebsiteRankings));
    q.ranking_type = Some(s("model"));
    assert!(matches!(rankings(&q), RankingsMode::ModelRankings));
    q.ranking_type = Some(s("website"));
    assert!(matches!(rankings(&q), RankingsMode::WebsiteRankings));
    q.model_id = Some(s("m1"));
    assert!(matches!(rankings(&q), RankingsMode::ModelDetail(ref m) if m == "m1"));
    q.website_id = Some(s("w1"));
    assert!(matches!(rankings(&q), RankingsMode::WebsiteDetail(ref w) if w == "w1"));
}

#[test]
fn members_lists_matching_indices() {
    let items = vec![s("a"), s("b"), s("a"), s("c")];
    assert_eq!(members(&items, &s("a")), vec![0, 2]);
    assert!(members(&items, &s("z")).is_empty());
}

fn subjects() -> Vec<RankSubject> {
    vec![
        RankSubject { id: s("w1"), name: s("Alpha Chat"), search_text: s("[\"alpha.example\"]") },
        RankSubject { id: s("w2"), name: s("Beta"), search_text: s("[\"BETA.example\"]") },
        RankSubject { id: s("w3"), name: s("Gamma"), search_text: s("[]") },
    ]
}

#[test]
fn candidates_need_a_submission() {
    let items = vec![s("w2"), s("w1"), s("w2")];
    let groups = rank_candidates(&subjects(), &items, &None);
    let got: Vec<(usize, Vec<usize>)> = groups.iter().map(|g| (g.subject, g.members.clone())).collect();
    assert_eq!(got, vec![(0, vec![1]), (1, vec![0, 2])]);
}

#[test]
fn search_is_case_insensitive_on_name_and_text() {
    let items = vec![s("w1"), s("w2"), s("w3")];
    let by_name = rank_candidates(&subjects(), &items, &Some(s("ALPHA")));
    assert_eq!(by_name.iter().map(|g| g.subject).collect::<Vec<_>>(), vec![0]);
    let by_text = rank_candidates(&subjects(), &items, &Some(s("beta.EX")));
    assert_eq!(by_text.iter().map(|g| g.subject).collect::<Vec<_>>(), vec![1]);
    let none = rank_candidates(&subjects(), &items, &Some(s("zzz")));
    assert!(none.is_empty());
    let all = rank_candidates(&subjects(), &items, &Some(s("")));
    assert_eq!(all.len(), 3);
}

#[test]
fn distinct_websites_are_counted_once() {
    assert_eq!(distinct_count(&vec![s("a"), s("b"), s("a"), s("c"), s("b")]), 3);
    assert_eq!(distinct_count(&vec![]), 0);
}

#[test]
fn latest_timestamp_is_greatest() {
    let stamps = vec![s("2024-05-01 10:00:00"), s("2024-06-01 09:00:00"), s("2024-05-30 23:59:59")];
    assert_eq!(latest_timestamp(&stamps), "2024-06-01 09:00:00");
    assert_eq!(latest_timestamp(&vec![]), "");
}

#[test]
fn only_signed_in_submitters_are_looked_up() {
    let subs = vec![
        SubmitterRef { submitter_type: s("oauth"), user_id: Some(s("u1")) },
        SubmitterRef { submitter_type: s("anonymous"), user_id: Some(s("u2")) },
        SubmitterRef { submitter_type: s("oauth"), user_id: None },
        SubmitterRef { submitter_type: s("oauth"), user_id: Some(s("u3")) },
    ];
    assert_eq!(oauth_user_ids(&subs), vec![s("u1"), s("u3")]);
}

fn user(id: &str, login: &str, avatar: Option<&str>) -> UserRow {
    UserRow { id: s(id), github_id: None, login: s(login), avatar_url: avatar.map(s) }
}

#[test]
fn submitter_profile_takes_last_row_with_id() {
    let users = vec![user("u1", "first", None), user("u2", "other", None), user("u1", "second", Some("p.png"))];
    let (name, avatar) = submitter_profile(&users, &Some(s("u1")));
    assert_eq!(name.as_deref(), Some("second"));
    assert_eq!(avatar.as_deref(), Some("p.png"));
    let (name, avatar) = submitter_profile(&users, &Some(s("u9")));
    assert!(name.is_none() && avatar.is_none());
    let (name, avatar) = submitter_profile(&users, &None);
    assert!(name.is_none() && avatar.is_none());
}

#[test]
fn model_name_of_submission() {
    let models = vec![
        ModelRow { id: s("m1"), name: s("model-a"), aliases: s("[]") },
        ModelRow { id: s("m2"), name: s("model-b"), aliases: s("[]") },
    ];
    assert_eq!(model_name_for(&models, &s("m2")), "model-b");
    assert_eq!(model_name_for(&models, &s("m3")), "");
}

#[test]
fn link_weight_row_is_last_for_pair() {
    let links = vec![
        LinkKey { website_id: s("w1"), model_id: s("m1") },
        LinkKey { website_id: s("w1"), model_id: s("m2") },
        LinkKey { website_id: s("w1"), model_id: s("m1") },
    ];
    assert_eq!(link_for(&links, &s("w1"), &s("m1")), Some(2));
    assert_eq!(link_for(&links, &s("w1"), &s("m2")), Some(1));
    assert_eq!(link_for(&links, &s("w2"), &s("m1")), None);
}

#[test]
fn domains_fall_back_to_name() {
    assert_eq!(domains_or_name(&s("[\"a.com\",\"b.com\"]"), &s("A")), vec![s("a.com"), s("b.com")]);
    assert_eq!(domains_or_name(&s("not json"), &s("A")), vec![s("A")]);
    assert_eq!(domains_or_name(&s("[1,2]"), &s("A")), vec![s("A")]);
}

#[test]
fn aliases_fall_back_to_none() {
    assert_eq!(aliases_or_empty(&s("[\"model-a-alias\"]")), vec![s("model-a-alias")]);
    assert!(aliases_or_empty(&s("{")).is_empty());
}

#[test]
fn missing_detail_targets_are_not_found() {
    match website_found(None) {
        Err(ApiError::NotFound(m)) => assert_eq!(m, "Website not found"),
        _ => panic!("expected not found"),
    }
    match model_found(None) {
        Err(ApiError::NotFound(m)) => assert_eq!(m, "Model not found"),
        _ => panic!("expected not found"),
    }
    let w = website_found(Some(WebsiteRow { id: s("w"), name: s("n"), domains: s("[]") })).unwrap();
    assert_eq!(w.id, "w");
    let m = model_found(Some(ModelRow { id: s("m"), name: s("n"), aliases: s("[]") })).unwrap();
    assert_eq!(m.id, "m");
}

#[test]
fn second_page_of_one_starts_at_rank_two() {
    let p = rank_page(&vec![90, 80, 70], 1, 1);
    let slots: Vec<(usize, u32)> = p.slots.iter().map(|x| (x.entry, x.rank)).collect();
    assert_eq!(slots, vec![(1, 2)]);
    assert_eq!(p.total, 3);
}
