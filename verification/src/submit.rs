//! `POST /api/submissions` as a state machine: each step takes what the last
//! database or authentication call gave back and says what to do next.
use vstd::prelude::*;
use crate::access::{Submitter, ANONYMOUS_DAILY_LIMIT};
use crate::crypto::new_record_id;
use crate::error::ApiError;
use crate::models::{ModelRow, SubmissionResponse, WebsiteRow};
use crate::rankings::LinkKey;
use crate::store::{
    apply_upsert, SubmissionRecord,
    is_upsert_plan, json_string_array, new_model_row, new_website_row, or_empty, upsert_submission,
    UpsertPlan,
};
use crate::text::{push_str, spec_trim, trim};

verus! {

/// The text fields of a submission: where and with which model it was tested,
/// under which test suite and API style, and its scores already written as
/// JSON. (The total score travels beside it.)
pub struct SubmissionInput {
    pub domain: String,
    pub model: String,
    pub test_suite_version: String,
    pub api_style: String,
    pub endpoint_hash: String,
    pub dimension_scores: String,
    pub test_results: String,
}

/// Where a submission stands.
pub enum SubmitState {
    /// Nothing has been checked yet.
    Start,
    /// Waiting for the caller's identity.
    Authenticating,
    /// An anonymous caller: waiting for the count of its recent submissions
    /// across the whole site.
    DailyCount { who: Submitter },
    /// An anonymous caller: waiting for the website, to count its recent
    /// submissions there.
    RateWebsite { who: Submitter },
    /// An anonymous caller: waiting for the count of its recent submissions
    /// to the website.
    RateCount { who: Submitter },
    /// Waiting for the website of the domain.
    FindingWebsite { who: Submitter },
    /// Waiting for a new website to be stored.
    CreatingWebsite { who: Submitter, website: WebsiteRow },
    /// Waiting for the model of the name or alias.
    FindingModel { who: Submitter, website: WebsiteRow },
    /// Waiting for a new model to be stored.
    CreatingModel { who: Submitter, website: WebsiteRow, model: ModelRow },
    /// Waiting to learn whether the website and model are linked.
    FindingLink { who: Submitter, website: WebsiteRow, model: ModelRow },
    /// Waiting for the link to be stored.
    CreatingLink { who: Submitter, website: WebsiteRow, model: ModelRow },
    /// Waiting for the submission to be stored under `id`.
    Upserting { who: Submitter, website: WebsiteRow, model: ModelRow, id: String },
    /// Answered.
    Done,
}

/// What came back from the last action.
pub enum SubmitEvent {
    /// The request arrived.
    Begin,
    /// The caller's identity, or why it could not be established.
    Authenticated(Result<Submitter, ApiError>),
    /// The website whose domains hold the domain, if any.
    WebsiteFound(Option<WebsiteRow>),
    /// The caller's anonymous submissions in the window (across the site or
    /// to the website, as the last action asked).
    Counted(u32),
    /// The model with the name or alias, if any.
    ModelFound(Option<ModelRow>),
    /// Whether the website and model are linked.
    LinkFound(bool),
    /// The store, link or upsert went through.
    Completed,
}

/// What to do next.
pub enum SubmitAction {
    /// Establish the caller's identity from the request's headers.
    Authenticate,
    /// Count the anonymous submissions from the address hash, to any website,
    /// within the last `hours` hours.
    CountAnonymousForAddress { ip_hash: String, hours: u32 },
    /// Look up the website whose domains hold this domain.
    FindWebsiteByDomain(String),
    /// Count the anonymous submissions from the address hash to the website
    /// within the last `hours` hours.
    CountAnonymousForWebsite { ip_hash: String, website_id: String, hours: u32 },
    /// Store a new website.
    CreateWebsite(WebsiteRow),
    /// Look up the model with this name or alias.
    FindModel(String),
    /// Store a new model.
    CreateModel(ModelRow),
    /// Look up the link between the website and the model.
    FindLink { website_id: String, model_id: String },
    /// Link the website and the model (both weights 1).
    CreateLink { website_id: String, model_id: String },
    /// Replace the caller's earlier submission with this one.
    Upsert(UpsertPlan),
    /// Answer the request.
    Respond(Result<SubmissionResponse, ApiError>),
}

/// How many submissions one address may make to one website within the window
/// before it must sign in.
pub const ANONYMOUS_SITE_LIMIT: u32 = 3;

/// The window the anonymous quota is counted over, in hours.
pub const RATE_WINDOW_HOURS: u32 = 24;

/// The events each state waits for.
pub open spec fn accepts(s: SubmitState, e: SubmitEvent) -> bool {
    match s {
        SubmitState::Start => e is Begin,
        SubmitState::Authenticating => e is Authenticated,
        SubmitState::DailyCount { .. } => e is Counted,
        SubmitState::RateWebsite { .. } => e is WebsiteFound,
        SubmitState::RateCount { .. } => e is Counted,
        SubmitState::FindingWebsite { .. } => e is WebsiteFound,
        SubmitState::CreatingWebsite { .. } => e is Completed,
        SubmitState::FindingModel { .. } => e is ModelFound,
        SubmitState::CreatingModel { .. } => e is Completed,
        SubmitState::FindingLink { .. } => e is LinkFound,
        SubmitState::CreatingLink { .. } => e is Completed,
        SubmitState::Upserting { .. } => e is Completed,
        SubmitState::Done => false,
    }
}

/// `a` looks up the website of the submitted domain.
pub open spec fn finds_website(inp: SubmissionInput, a: SubmitAction) -> bool {
    a matches SubmitAction::FindWebsiteByDomain(d) && d@ == inp.domain@
}

/// `a` looks up the model of the submitted name, trimmed.
pub open spec fn finds_model(inp: SubmissionInput, a: SubmitAction) -> bool {
    a matches SubmitAction::FindModel(n) && n@ == spec_trim(inp.model@)
}

/// `a` looks up the link between the website and the model.
pub open spec fn finds_link(website: WebsiteRow, model: ModelRow, a: SubmitAction) -> bool {
    a matches SubmitAction::FindLink { website_id, model_id } && website_id@ == website.id@
        && model_id@ == model.id@
}

/// The step to the upsert: a fresh submission id, and the plan that stores the
/// submission under it for the caller, the website and the model.
pub open spec fn upserts(
    inp: SubmissionInput,
    who: Submitter,
    website: WebsiteRow,
    model: ModelRow,
    s2: SubmitState,
    a: SubmitAction,
) -> bool {
    &&& s2 matches SubmitState::Upserting { who: w2, website: ws2, model: m2, id }
    &&& w2 == who && ws2 == website && m2 == model
    &&& a matches SubmitAction::Upsert(p)
    &&& is_upsert_plan(
        p,
        id@,
        who.0@,
        who.1,
        who.2,
        website.id@,
        model.id@,
        inp.test_suite_version@,
        inp.api_style@,
        inp.endpoint_hash@,
        inp.dimension_scores@,
        inp.test_results@,
    )
}

/// One step of a submission: from state `s`, on event `e`, to state `s2` with
/// action `a`. The submitted test suite must be the current one; the caller
/// must be identified; an anonymous caller with `ANONYMOUS_DAILY_LIMIT` or
/// more submissions across the site within the window, or with
/// `ANONYMOUS_SITE_LIMIT` or more to an existing website, is refused; then the
/// website and the model are found or created, linked if they are not, and
/// the submission replaces the caller's earlier one.
pub open spec fn submit_transition(
    inp: SubmissionInput,
    suite: Seq<char>,
    s: SubmitState,
    e: SubmitEvent,
    s2: SubmitState,
    a: SubmitAction,
) -> bool {
    match s {
        SubmitState::Start => if inp.test_suite_version@ == suite {
            s2 == SubmitState::Authenticating && a == SubmitAction::Authenticate
        } else {
            &&& s2 == SubmitState::Done
            &&& a matches SubmitAction::Respond(Err(ApiError::BadRequest(m)))
            &&& m@ == "Test suite version mismatch. Current: "@ + suite
        },
        SubmitState::Authenticating => match e {
            SubmitEvent::Authenticated(Err(err)) => s2 == SubmitState::Done && a
                == SubmitAction::Respond(Err(err)),
            SubmitEvent::Authenticated(Ok(who)) => if who.0@ == "anonymous"@ {
                &&& s2 == SubmitState::DailyCount { who }
                &&& a matches SubmitAction::CountAnonymousForAddress { ip_hash, hours }
                &&& ip_hash@ == or_empty(who.2)
                &&& hours == RATE_WINDOW_HOURS
            } else {
                s2 == SubmitState::FindingWebsite { who } && finds_website(inp, a)
            },
            _ => false,
        },
        SubmitState::DailyCount { who } => match e {
            SubmitEvent::Counted(n) => if n >= ANONYMOUS_DAILY_LIMIT {
                &&& s2 == SubmitState::Done
                &&& a matches SubmitAction::Respond(Err(ApiError::RateLimited(m)))
                &&& m@
                    == "Too many submissions from this IP. Please try again later or log in with GitHub."@
            } else {
                s2 == SubmitState::RateWebsite { who } && finds_website(inp, a)
            },
            _ => false,
        },
        SubmitState::RateWebsite { who } => match e {
            SubmitEvent::WebsiteFound(Some(ws)) => {
                &&& s2 == SubmitState::RateCount { who }
                &&& a matches SubmitAction::CountAnonymousForWebsite { ip_hash, website_id, hours }
                &&& ip_hash@ == or_empty(who.2) && website_id@ == ws.id@
                &&& hours == RATE_WINDOW_HOURS
            },
            SubmitEvent::WebsiteFound(None) => s2 == SubmitState::FindingWebsite { who }
                && finds_website(inp, a),
            _ => false,
        },
        SubmitState::RateCount { who } => match e {
            SubmitEvent::Counted(n) => if n >= ANONYMOUS_SITE_LIMIT {
                &&& s2 == SubmitState::Done
                &&& a matches SubmitAction::Respond(Err(ApiError::RateLimited(m)))
                &&& m@ == "Too many submissions to this website from this IP."@
            } else {
                s2 == SubmitState::FindingWebsite { who } && finds_website(inp, a)
            },
            _ => false,
        },
        SubmitState::FindingWebsite { who } => match e {
            SubmitEvent::WebsiteFound(Some(ws)) => s2 == SubmitState::FindingModel {
                who,
                website: ws,
            } && finds_model(inp, a),
            SubmitEvent::WebsiteFound(None) => s2 matches SubmitState::CreatingWebsite {
                who: w2,
                website,
            } && w2 == who && website.name@ == inp.domain@ && website.domains@
                == json_string_array(seq![inp.domain@]) && a == SubmitAction::CreateWebsite(
                website,
            ),
            _ => false,
        },
        SubmitState::CreatingWebsite { who, website } => s2 == SubmitState::FindingModel {
            who,
            website,
        } && finds_model(inp, a),
        SubmitState::FindingModel { who, website } => match e {
            SubmitEvent::ModelFound(Some(m)) => s2 == SubmitState::FindingLink {
                who,
                website,
                model: m,
            } && finds_link(website, m, a),
            SubmitEvent::ModelFound(None) => s2 matches SubmitState::CreatingModel {
                who: w2,
                website: ws2,
                model,
            } && w2 == who && ws2 == website && model.name@ == spec_trim(inp.model@)
                && model.aliases@ == "[]"@ && a == SubmitAction::CreateModel(model),
            _ => false,
        },
        SubmitState::CreatingModel { who, website, model } => s2 == SubmitState::FindingLink {
            who,
            website,
            model,
        } && finds_link(website, model, a),
        SubmitState::FindingLink { who, website, model } => match e {
            SubmitEvent::LinkFound(true) => upserts(inp, who, website, model, s2, a),
            SubmitEvent::LinkFound(false) => {
                &&& s2 == SubmitState::CreatingLink { who, website, model }
                &&& a matches SubmitAction::CreateLink { website_id, model_id }
                &&& website_id@ == website.id@ && model_id@ == model.id@
            },
            _ => false,
        },
        SubmitState::CreatingLink { who, website, model } => upserts(
            inp,
            who,
            website,
            model,
            s2,
            a,
        ),
        SubmitState::Upserting { who, website, model, id } => s2 == SubmitState::Done && a
            == SubmitAction::Respond(
            Ok(
                SubmissionResponse {
                    id,
                    website_id: website.id,
                    website_name: website.name,
                    model_id: model.id,
                    model_name: model.name,
                },
            ),
        ),
        SubmitState::Done => false,
    }
}

fn copy_website(w: &WebsiteRow) -> (r: WebsiteRow)
    ensures
        r == *w,
{
    WebsiteRow { id: w.id.clone(), name: w.name.clone(), domains: w.domains.clone() }
}

fn copy_model(m: &ModelRow) -> (r: ModelRow)
    ensures
        r == *m,
{
    ModelRow { id: m.id.clone(), name: m.name.clone(), aliases: m.aliases.clone() }
}

fn find_website(inp: &SubmissionInput) -> (a: SubmitAction)
    ensures
        finds_website(*inp, a),
{
    SubmitAction::FindWebsiteByDomain(inp.domain.clone())
}

fn find_model(inp: &SubmissionInput) -> (a: SubmitAction)
    ensures
        finds_model(*inp, a),
{
    SubmitAction::FindModel(trim(inp.model.as_str()))
}

fn find_link(website: &WebsiteRow, model: &ModelRow) -> (a: SubmitAction)
    ensures
        finds_link(*website, *model, a),
{
    SubmitAction::FindLink { website_id: website.id.clone(), model_id: model.id.clone() }
}

fn start_upsert(inp: &SubmissionInput, who: Submitter, website: WebsiteRow, model: ModelRow) -> (r: (
    SubmitState,
    SubmitAction,
))
    ensures
        upserts(*inp, who, website, model, r.0, r.1),
{
    let id = new_record_id();
    let plan = upsert_submission(
        id.as_str(),
        who.0.as_str(),
        &who.1,
        &who.2,
        website.id.as_str(),
        model.id.as_str(),
        inp.test_suite_version.as_str(),
        inp.api_style.as_str(),
        inp.endpoint_hash.as_str(),
        inp.dimension_scores.as_str(),
        inp.test_results.as_str(),
    );
    (SubmitState::Upserting { who, website, model, id }, SubmitAction::Upsert(plan))
}

/// Takes one step of a submission (see `submit_transition`). `current_suite`
/// is the test suite in force.
pub fn submit(
    input: &SubmissionInput,
    current_suite: &String,
    state: SubmitState,
    event: SubmitEvent,
) -> (r: (SubmitState, SubmitAction))
    requires
        accepts(state, event),
    ensures
        submit_transition(*input, current_suite@, state, event, r.0, r.1),
{
    match state {
        SubmitState::Start => {
            if input.test_suite_version == *current_suite {
                (SubmitState::Authenticating, SubmitAction::Authenticate)
            } else {
                let mut m = String::from_str("Test suite version mismatch. Current: ");
                push_str(&mut m, current_suite.as_str());
                (SubmitState::Done, SubmitAction::Respond(Err(ApiError::BadRequest(m))))
            }
        },
        SubmitState::Authenticating => match event {
            SubmitEvent::Authenticated(Err(err)) => (
                SubmitState::Done,
                SubmitAction::Respond(Err(err)),
            ),
            SubmitEvent::Authenticated(Ok(who)) => {
                let anonymous = String::from_str("anonymous");
                if who.0 == anonymous {
                    let ip_hash = match &who.2 {
                        Some(h) => h.clone(),
                        None => String::new(),
                    };
                    (
                        SubmitState::DailyCount { who },
                        SubmitAction::CountAnonymousForAddress { ip_hash, hours: RATE_WINDOW_HOURS },
                    )
                } else {
                    (SubmitState::FindingWebsite { who }, find_website(input))
                }
            },
            _ => unreached(),
        },
        SubmitState::DailyCount { who } => match event {
            SubmitEvent::Counted(n) => {
                if n >= ANONYMOUS_DAILY_LIMIT {
                    (
                        SubmitState::Done,
                        SubmitAction::Respond(
                            Err(
                                ApiError::RateLimited(
                                    String::from_str(
                                        "Too many submissions from this IP. Please try again later or log in with GitHub.",
                                    ),
                                ),
                            ),
                        ),
                    )
                } else {
                    (SubmitState::RateWebsite { who }, find_website(input))
                }
            },
            _ => unreached(),
        },
        SubmitState::RateWebsite { who } => match event {
            SubmitEvent::WebsiteFound(Some(ws)) => {
                let ip_hash = match &who.2 {
                    Some(h) => h.clone(),
                    None => String::new(),
                };
                (
                    SubmitState::RateCount { who },
                    SubmitAction::CountAnonymousForWebsite {
                        ip_hash,
                        website_id: ws.id,
                        hours: RATE_WINDOW_HOURS,
                    },
                )
            },
            SubmitEvent::WebsiteFound(None) => (
                SubmitState::FindingWebsite { who },
                find_website(input),
            ),
            _ => unreached(),
        },
        SubmitState::RateCount { who } => match event {
            SubmitEvent::Counted(n) => {
                if n >= ANONYMOUS_SITE_LIMIT {
                    (
                        SubmitState::Done,
                        SubmitAction::Respond(
                            Err(
                                ApiError::RateLimited(
                                    String::from_str(
                                        "Too many submissions to this website from this IP.",
                                    ),
                                ),
                            ),
                        ),
                    )
                } else {
                    (SubmitState::FindingWebsite { who }, find_website(input))
                }
            },
            _ => unreached(),
        },
        SubmitState::FindingWebsite { who } => match event {
            SubmitEvent::WebsiteFound(Some(ws)) => (
                SubmitState::FindingModel { who, website: ws },
                find_model(input),
            ),
            SubmitEvent::WebsiteFound(None) => {
                let website = new_website_row(new_record_id(), input.domain.as_str());
                let row = copy_website(&website);
                (SubmitState::CreatingWebsite { who, website }, SubmitAction::CreateWebsite(row))
            },
            _ => unreached(),
        },
        SubmitState::CreatingWebsite { who, website } => (
            SubmitState::FindingModel { who, website },
            find_model(input),
        ),
        SubmitState::FindingModel { who, website } => match event {
            SubmitEvent::ModelFound(Some(m)) => {
                let a = find_link(&website, &m);
                (SubmitState::FindingLink { who, website, model: m }, a)
            },
            SubmitEvent::ModelFound(None) => {
                let name = trim(input.model.as_str());
                let model = new_model_row(new_record_id(), name.as_str());
                let row = copy_model(&model);
                (SubmitState::CreatingModel { who, website, model }, SubmitAction::CreateModel(row))
            },
            _ => unreached(),
        },
        SubmitState::CreatingModel { who, website, model } => {
            let a = find_link(&website, &model);
            (SubmitState::FindingLink { who, website, model }, a)
        },
        SubmitState::FindingLink { who, website, model } => match event {
            SubmitEvent::LinkFound(true) => start_upsert(input, who, website, model),
            SubmitEvent::LinkFound(false) => {
                let a = SubmitAction::CreateLink {
                    website_id: website.id.clone(),
                    model_id: model.id.clone(),
                };
                (SubmitState::CreatingLink { who, website, model }, a)
            },
            _ => unreached(),
        },
        SubmitState::CreatingLink { who, website, model } => start_upsert(
            input,
            who,
            website,
            model,
        ),
        SubmitState::Upserting { who, website, model, id } => (
            SubmitState::Done,
            SubmitAction::Respond(
                Ok(
                    SubmissionResponse {
                        id,
                        website_id: website.id,
                        website_name: website.name,
                        model_id: model.id,
                        model_name: model.name,
                    },
                ),
            ),
        ),
        SubmitState::Done => unreached(),
    }
}

/// A run of submission steps: each state accepts its event and steps, with
/// the action beside it, to the next state.
pub open spec fn is_run(
    inp: SubmissionInput,
    suite: Seq<char>,
    states: Seq<SubmitState>,
    events: Seq<SubmitEvent>,
    actions: Seq<SubmitAction>,
) -> bool {
    &&& states.len() == events.len() + 1
    &&& actions.len() == events.len()
    &&& forall|i: int|
        #![trigger events[i]]
        0 <= i < events.len() ==> accepts(states[i], events[i]) && submit_transition(
            inp,
            suite,
            states[i],
            events[i],
            states[i + 1],
            actions[i],
        )
}

/// Step `j` of a run let an anonymous caller past the per-website quota: the
/// domain had no website yet, or the caller had fewer than
/// `ANONYMOUS_SITE_LIMIT` recent submissions to it.
pub open spec fn quota_cleared(states: Seq<SubmitState>, events: Seq<SubmitEvent>, j: int) -> bool {
    ||| states[j] is RateWebsite && events[j] == SubmitEvent::WebsiteFound(None)
    ||| states[j] is RateCount && (events[j] matches SubmitEvent::Counted(n) && n
        < ANONYMOUS_SITE_LIMIT)
}

/// Step `j` of a run let an anonymous caller past the site-wide quota: it had
/// fewer than `ANONYMOUS_DAILY_LIMIT` recent submissions across the site.
pub open spec fn daily_quota_cleared(
    states: Seq<SubmitState>,
    events: Seq<SubmitEvent>,
    j: int,
) -> bool {
    states[j] is DailyCount && (events[j] matches SubmitEvent::Counted(n) && n
        < ANONYMOUS_DAILY_LIMIT)
}

/// The identified caller a state carries once both quotas are behind it.
pub open spec fn caller_after_quota(s: SubmitState) -> Option<Submitter> {
    match s {
        SubmitState::FindingWebsite { who } => Some(who),
        SubmitState::CreatingWebsite { who, .. } => Some(who),
        SubmitState::FindingModel { who, .. } => Some(who),
        SubmitState::CreatingModel { who, .. } => Some(who),
        SubmitState::FindingLink { who, .. } => Some(who),
        SubmitState::CreatingLink { who, .. } => Some(who),
        SubmitState::Upserting { who, .. } => Some(who),
        _ => None,
    }
}

/// The identified caller a state carries once the site-wide quota is behind it.
pub open spec fn caller_after_daily_quota(s: SubmitState) -> Option<Submitter> {
    match s {
        SubmitState::RateWebsite { who } => Some(who),
        SubmitState::RateCount { who } => Some(who),
        _ => caller_after_quota(s),
    }
}

proof fn lemma_anonymous_cleared(
    inp: SubmissionInput,
    suite: Seq<char>,
    states: Seq<SubmitState>,
    events: Seq<SubmitEvent>,
    actions: Seq<SubmitAction>,
    k: int,
)
    requires
        is_run(inp, suite, states, events, actions),
        states[0] == SubmitState::Start,
        0 <= k <= events.len(),
    ensures
        caller_after_daily_quota(states[k]) matches Some(who) && who.0@ == "anonymous"@ ==> exists|
            j: int,
        | 0 <= j < k && #[trigger] daily_quota_cleared(states, events, j),
        caller_after_quota(states[k]) matches Some(who) && who.0@ == "anonymous"@ ==> exists|
            j: int,
        | 0 <= j < k && #[trigger] quota_cleared(states, events, j),
    decreases k,
{
    if k > 0 {
        let i = k - 1;
        lemma_anonymous_cleared(inp, suite, states, events, actions, i);
        assert(accepts(states[i], events[i]) && submit_transition(
            inp,
            suite,
            states[i],
            events[i],
            states[k],
            actions[i],
        ));
        if caller_after_daily_quota(states[k]) matches Some(who) && who.0@ == "anonymous"@ {
            if states[i] is DailyCount {
                assert(daily_quota_cleared(states, events, i));
            }
        }
        if caller_after_quota(states[k]) matches Some(who) && who.0@ == "anonymous"@ {
            if states[i] is RateWebsite || states[i] is RateCount {
                assert(quota_cleared(states, events, i));
            }
        }
    }
}

/// A submission is stored for an anonymous caller only after steps of the same
/// run let the caller past both quotas: the site-wide one and the per-website
/// one.
pub proof fn anonymous_store_needs_quota(
    inp: SubmissionInput,
    suite: Seq<char>,
    states: Seq<SubmitState>,
    events: Seq<SubmitEvent>,
    actions: Seq<SubmitAction>,
    i: int,
)
    requires
        is_run(inp, suite, states, events, actions),
        states[0] == SubmitState::Start,
        0 <= i < actions.len(),
        actions[i] matches SubmitAction::Upsert(p) && p.record.submitter_type@ == "anonymous"@,
    ensures
        exists|j: int| 0 <= j < i && #[trigger] daily_quota_cleared(states, events, j),
        exists|j: int| 0 <= j < i && #[trigger] quota_cleared(states, events, j),
{
    assert(accepts(states[i], events[i]) && submit_transition(
        inp,
        suite,
        states[i],
        events[i],
        states[i + 1],
        actions[i],
    ));
    lemma_anonymous_cleared(inp, suite, states, events, actions, i + 1);
    let j = choose|j: int| 0 <= j < i + 1 && #[trigger] quota_cleared(states, events, j);
    if j == i {
        assert(!(caller_after_quota(states[i + 1]) is None));
    }
    let d = choose|d: int| 0 <= d < i + 1 && #[trigger] daily_quota_cleared(states, events, d);
    if d == i {
        assert(!(caller_after_quota(states[i + 1]) is None));
    }
}

/// A submission made under another test suite than `suite` is answered with a
/// bad request at the first step, and nothing else happens.
pub proof fn stale_suite_is_refused_first(
    inp: SubmissionInput,
    suite: Seq<char>,
    states: Seq<SubmitState>,
    events: Seq<SubmitEvent>,
    actions: Seq<SubmitAction>,
)
    requires
        is_run(inp, suite, states, events, actions),
        states[0] == SubmitState::Start,
        inp.test_suite_version@ != suite,
        events.len() >= 1,
    ensures
        events.len() == 1,
        actions[0] matches SubmitAction::Respond(Err(ApiError::BadRequest(m))) && m@
            == "Test suite version mismatch. Current: "@ + suite,
{
    assert(accepts(states[0], events[0]) && submit_transition(
        inp,
        suite,
        states[0],
        events[0],
        states[1],
        actions[0],
    ));
    if events.len() > 1 {
        assert(accepts(states[1], events[1]));
    }
}

/// A run answers at most once, and its answer is its last action.
pub proof fn answer_is_last(
    inp: SubmissionInput,
    suite: Seq<char>,
    states: Seq<SubmitState>,
    events: Seq<SubmitEvent>,
    actions: Seq<SubmitAction>,
    i: int,
)
    requires
        is_run(inp, suite, states, events, actions),
        0 <= i < actions.len(),
        actions[i] is Respond,
    ensures
        i == actions.len() - 1,
        states[i + 1] == SubmitState::Done,
{
    assert(accepts(states[i], events[i]) && submit_transition(
        inp,
        suite,
        states[i],
        events[i],
        states[i + 1],
        actions[i],
    ));
    if i + 1 < events.len() {
        assert(accepts(states[i + 1], events[i + 1]));
    }
}

/// The rows of the database a submission reads and writes: websites, models,
/// website-model links and stored submissions.
pub type Tables = (Seq<WebsiteRow>, Seq<ModelRow>, Seq<LinkKey>, Seq<SubmissionRecord>);

/// What an action does to the tables: a store adds its row, a link adds the
/// pair, an upsert replaces as `apply_upsert` says; lookups, counts and the
/// answer change nothing.
pub open spec fn apply_action(t: Tables, a: SubmitAction) -> Tables {
    match a {
        SubmitAction::CreateWebsite(w) => (t.0.push(w), t.1, t.2, t.3),
        SubmitAction::CreateModel(m) => (t.0, t.1.push(m), t.2, t.3),
        SubmitAction::CreateLink { website_id, model_id } => (
            t.0,
            t.1,
            t.2.push(LinkKey { website_id, model_id }),
            t.3,
        ),
        SubmitAction::Upsert(p) => (t.0, t.1, t.2, apply_upsert(t.3, p)),
        _ => t,
    }
}

/// The tables after the actions, in order, starting from `t0`.
pub open spec fn replay(t0: Tables, actions: Seq<SubmitAction>) -> Tables
    decreases actions.len(),
{
    if actions.len() == 0 {
        t0
    } else {
        apply_action(replay(t0, actions.drop_last()), actions.last())
    }
}

/// The links hold the pair of the website and the model.
pub open spec fn has_link(links: Seq<LinkKey>, website_id: Seq<char>, model_id: Seq<char>) -> bool {
    exists|k: int|
        0 <= k < links.len() && #[trigger] links[k].website_id@ == website_id && links[k].model_id@
            == model_id
}

/// The lookups of a run answered from the tables `t0`: a website or model
/// found is a row of them, and a link found is one of their links. (Which
/// row a lookup finds is the database's matching of the domain or name.)
pub open spec fn answers_from(t0: Tables, states: Seq<SubmitState>, events: Seq<SubmitEvent>) -> bool {
    forall|j: int|
        #![trigger events[j]]
        0 <= j < events.len() ==> {
            &&& events[j] matches SubmitEvent::WebsiteFound(Some(w)) ==> t0.0.contains(w)
            &&& events[j] matches SubmitEvent::ModelFound(Some(m)) ==> t0.1.contains(m)
            &&& states[j] matches SubmitState::FindingLink { website, model, .. } ==> (events[j]
                == SubmitEvent::LinkFound(true) ==> has_link(t0.2, website.id@, model.id@))
        }
}

/// `b` starts with `a`.
pub open spec fn extends<A>(a: Seq<A>, b: Seq<A>) -> bool {
    a.len() <= b.len() && b.take(a.len() as int) == a
}

/// The tables `t` hold every row of `t0`.
pub open spec fn tables_extend(t0: Tables, t: Tables) -> bool {
    extends(t0.0, t.0) && extends(t0.1, t.1) && extends(t0.2, t.2)
}

/// A website row of the run's tables: one that was there before, or the new
/// one made for the submitted domain.
pub open spec fn website_in(inp: SubmissionInput, t0: Tables, t: Tables, w: WebsiteRow) -> bool {
    t.0.contains(w) && (t0.0.contains(w) || (w.name@ == inp.domain@ && w.domains@
        == json_string_array(seq![inp.domain@])))
}

/// A model row of the run's tables: one that was there before, or the new one
/// made for the submitted name, trimmed.
pub open spec fn model_in(inp: SubmissionInput, t0: Tables, t: Tables, m: ModelRow) -> bool {
    t.1.contains(m) && (t0.1.contains(m) || (m.name@ == spec_trim(inp.model@) && m.aliases@
        == "[]"@))
}

/// What holds of the tables `t` when a run from `t0` reaches state `s`.
pub open spec fn run_tables(inp: SubmissionInput, t0: Tables, s: SubmitState, t: Tables) -> bool {
    &&& tables_extend(t0, t)
    &&& match s {
        SubmitState::CreatingWebsite { website, .. } => t.3 == t0.3 && website_in(inp, t0, t, website),
        SubmitState::FindingModel { website, .. } => t.3 == t0.3 && website_in(inp, t0, t, website),
        SubmitState::CreatingModel { website, model, .. } => t.3 == t0.3 && website_in(
            inp,
            t0,
            t,
            website,
        ) && model_in(inp, t0, t, model),
        SubmitState::FindingLink { website, model, .. } => t.3 == t0.3 && website_in(
            inp,
            t0,
            t,
            website,
        ) && model_in(inp, t0, t, model),
        SubmitState::CreatingLink { website, model, .. } => t.3 == t0.3 && website_in(
            inp,
            t0,
            t,
            website,
        ) && model_in(inp, t0, t, model) && has_link(t.2, website.id@, model.id@),
        SubmitState::Upserting { who, website, model, id } => {
            &&& website_in(inp, t0, t, website)
            &&& model_in(inp, t0, t, model)
            &&& has_link(t.2, website.id@, model.id@)
            &&& exists|p: UpsertPlan|
                #![trigger apply_upsert(t0.3, p)]
                is_upsert_plan(
                    p,
                    id@,
                    who.0@,
                    who.1,
                    who.2,
                    website.id@,
                    model.id@,
                    inp.test_suite_version@,
                    inp.api_style@,
                    inp.endpoint_hash@,
                    inp.dimension_scores@,
                    inp.test_results@,
                ) && t.3 == apply_upsert(t0.3, p)
        },
        SubmitState::Done => true,
        _ => t.3 == t0.3,
    }
}

proof fn lemma_extends_push<A>(a: Seq<A>, b: Seq<A>, x: A)
    requires
        extends(a, b),
    ensures
        extends(a, b.push(x)),
{
    assert(b.push(x).take(a.len() as int) =~= b.take(a.len() as int));
}

proof fn lemma_extends_contains<A>(a: Seq<A>, b: Seq<A>, x: A)
    requires
        extends(a, b),
        a.contains(x),
    ensures
        b.contains(x),
{
    let k = choose|k: int| 0 <= k < a.len() && a[k] == x;
    assert(b.take(a.len() as int)[k] == b[k]);
}

proof fn lemma_contains_push<A>(b: Seq<A>, x: A, y: A)
    requires
        b.contains(x),
    ensures
        b.push(y).contains(x),
{
    let k = choose|k: int| 0 <= k < b.len() && b[k] == x;
    assert(b.push(y)[k] == x);
}

proof fn lemma_has_link_push(links: Seq<LinkKey>, w: Seq<char>, m: Seq<char>, l: LinkKey)
    requires
        has_link(links, w, m),
    ensures
        has_link(links.push(l), w, m),
{
    let k = choose|k: int|
        0 <= k < links.len() && #[trigger] links[k].website_id@ == w && links[k].model_id@ == m;
    assert(links.push(l)[k] == links[k]);
}

proof fn lemma_run_tables(
    inp: SubmissionInput,
    suite: Seq<char>,
    states: Seq<SubmitState>,
    events: Seq<SubmitEvent>,
    actions: Seq<SubmitAction>,
    t0: Tables,
    k: int,
)
    requires
        is_run(inp, suite, states, events, actions),
        states[0] == SubmitState::Start,
        answers_from(t0, states, events),
        0 <= k <= events.len(),
    ensures
        run_tables(inp, t0, states[k], replay(t0, actions.take(k))),
    decreases k,
{
    if k == 0 {
        assert(actions.take(0) =~= Seq::<SubmitAction>::empty());
        assert(t0.0.take(t0.0.len() as int) =~= t0.0);
        assert(t0.1.take(t0.1.len() as int) =~= t0.1);
        assert(t0.2.take(t0.2.len() as int) =~= t0.2);
    } else {
        let i = k - 1;
        lemma_run_tables(inp, suite, states, events, actions, t0, i);
        let t = replay(t0, actions.take(i));
        let t2 = replay(t0, actions.take(k));
        assert(actions.take(k).drop_last() =~= actions.take(i));
        assert(t2 == apply_action(t, actions[i]));
        assert(accepts(states[i], events[i]) && submit_transition(
            inp,
            suite,
            states[i],
            events[i],
            states[k],
            actions[i],
        ));
        let a = actions[i];
        // Every row of the tables at step `i` is still there at step `k`.
        if let SubmitAction::CreateWebsite(w) = a {
            lemma_extends_push(t0.0, t.0, w);
        }
        if let SubmitAction::CreateModel(m) = a {
            lemma_extends_push(t0.1, t.1, m);
        }
        if let SubmitAction::CreateLink { website_id, model_id } = a {
            lemma_extends_push(t0.2, t.2, LinkKey { website_id, model_id });
        }
        assert(tables_extend(t0, t2));
        match states[i] {
            SubmitState::FindingWebsite { who } => {
                if let SubmitEvent::WebsiteFound(Some(w)) = events[i] {
                    assert(t0.0.contains(w));
                    lemma_extends_contains(t0.0, t2.0, w);
                } else {
                    if let SubmitState::CreatingWebsite { website, .. } = states[k] {
                        assert(t2.0 == t.0.push(website));
                        assert(t2.0[t.0.len() as int] == website);
                    }
                }
            },
            SubmitState::CreatingWebsite { who, website } => {},
            SubmitState::FindingModel { who, website } => {
                if let SubmitEvent::ModelFound(Some(m)) = events[i] {
                    assert(t0.1.contains(m));
                    lemma_extends_contains(t0.1, t2.1, m);
                } else {
                    if let SubmitState::CreatingModel { model, .. } = states[k] {
                        assert(t2.1 == t.1.push(model));
                        assert(t2.1[t.1.len() as int] == model);
                    }
                }
            },
            SubmitState::CreatingModel { who, website, model } => {},
            SubmitState::FindingLink { who, website, model } => {
                if events[i] == SubmitEvent::LinkFound(true) {
                    assert(has_link(t0.2, website.id@, model.id@));
                    let j = choose|j: int|
                        0 <= j < t0.2.len() && #[trigger] t0.2[j].website_id@ == website.id@
                            && t0.2[j].model_id@ == model.id@;
                    assert(t2.2.take(t0.2.len() as int)[j] == t2.2[j]);
                    assert(has_link(t2.2, website.id@, model.id@));
                } else {
                    if let SubmitAction::CreateLink { website_id, model_id } = a {
                        let l = LinkKey { website_id, model_id };
                        assert(t2.2 == t.2.push(l));
                        assert(t2.2[t.2.len() as int] == l);
                        assert(t2.2[t.2.len() as int].website_id@ == website.id@);
                        assert(has_link(t2.2, website.id@, model.id@));
                    }
                }
            },
            SubmitState::CreatingLink { who, website, model } => {},
            _ => {},
        }
    }
}

/// A submission that is answered with success leaves, in the tables the run
/// started from (`t0`, whose rows its lookups found): the website of the
/// answer, one that was there or a new one named after the domain with the
/// domain as its one domain; the model of the answer, one that was there or a
/// new one with the trimmed name and no aliases; a link between the two; and
/// the submissions table as the run's upsert leaves it, which replaces only
/// the rows of the same submitter, website and model with the new record.
pub proof fn successful_submission_tables(
    inp: SubmissionInput,
    suite: Seq<char>,
    states: Seq<SubmitState>,
    events: Seq<SubmitEvent>,
    actions: Seq<SubmitAction>,
    t0: Tables,
    i: int,
)
    requires
        is_run(inp, suite, states, events, actions),
        states[0] == SubmitState::Start,
        answers_from(t0, states, events),
        0 <= i < actions.len(),
        actions[i] matches SubmitAction::Respond(Ok(_)),
    ensures
        ({
            let t = replay(t0, actions.take(i + 1));
            let resp = actions[i]->Respond_0->Ok_0;
            &&& exists|w: WebsiteRow|
                #![trigger t.0.contains(w)]
                website_in(inp, t0, t, w) && w.id == resp.website_id && w.name == resp.website_name
            &&& exists|m: ModelRow|
                #![trigger t.1.contains(m)]
                model_in(inp, t0, t, m) && m.id == resp.model_id && m.name == resp.model_name
            &&& has_link(t.2, resp.website_id@, resp.model_id@)
            &&& exists|p: UpsertPlan, who: Submitter|
                #![trigger apply_upsert(t0.3, p), who.0]
                is_upsert_plan(
                    p,
                    resp.id@,
                    who.0@,
                    who.1,
                    who.2,
                    resp.website_id@,
                    resp.model_id@,
                    inp.test_suite_version@,
                    inp.api_style@,
                    inp.endpoint_hash@,
                    inp.dimension_scores@,
                    inp.test_results@,
                ) && t.3 == apply_upsert(t0.3, p)
        }),
{
    lemma_run_tables(inp, suite, states, events, actions, t0, i);
    assert(accepts(states[i], events[i]) && submit_transition(
        inp,
        suite,
        states[i],
        events[i],
        states[i + 1],
        actions[i],
    ));
    let t = replay(t0, actions.take(i));
    assert(actions.take(i + 1).drop_last() =~= actions.take(i));
    assert(replay(t0, actions.take(i + 1)) == t);
    if let SubmitState::Upserting { who, website, model, id } = states[i] {
        assert(t.0.contains(website));
        assert(t.1.contains(model));
        let p = choose|p: UpsertPlan|
            #![trigger apply_upsert(t0.3, p)]
            is_upsert_plan(
                p,
                id@,
                who.0@,
                who.1,
                who.2,
                website.id@,
                model.id@,
                inp.test_suite_version@,
                inp.api_style@,
                inp.endpoint_hash@,
                inp.dimension_scores@,
                inp.test_results@,
            ) && t.3 == apply_upsert(t0.3, p);
        assert(apply_upsert(t0.3, p) == t.3 && who.0 == who.0);
    }
}

} // verus!
