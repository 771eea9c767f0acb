//! The values the database queries are made of: search patterns, time
//! windows, placeholder lists, new rows and the plan of a submission upsert.
use vstd::prelude::*;
use crate::json::{json_quote, spec_json_quote};
use crate::models::{ModelRow, WebsiteRow};
use crate::text::{decimal, push_decimal, push_str};

verus! {

/// The `LIKE` pattern that finds a JSON array holding the string `s`
/// verbatim: `%"s"%`.
pub fn like_pattern(s: &str) -> (r: String)
    ensures
        r@ == "%\""@ + s@ + "\"%"@,
{
    let mut p = String::from_str("%\"");
    push_str(&mut p, s);
    push_str(&mut p, "\"%");
    p
}

/// The SQLite date modifier for `hours` hours ago: `-<hours> hours`.
pub fn hours_ago(hours: u32) -> (r: String)
    ensures
        r@ == "-"@ + decimal(hours as nat) + " hours"@,
{
    let mut m = String::from_str("-");
    push_decimal(&mut m, hours as u64);
    push_str(&mut m, " hours");
    m
}

/// The count a `COUNT(*)` query reports: that of its row, or 0 when there is
/// no row or no count.
pub fn count_or_zero(row_count: Option<Option<u32>>) -> (r: u32)
    ensures
        r == match row_count {
            Some(Some(n)) => n,
            _ => 0u32,
        },
{
    match row_count {
        Some(Some(n)) => n,
        _ => 0,
    }
}

/// Numbered placeholders `?1,?2,...,?n`.
pub open spec fn placeholders(n: nat) -> Seq<char>
    decreases n,
{
    if n == 0 {
        seq![]
    } else if n == 1 {
        "?1"@
    } else {
        placeholders((n - 1) as nat) + ",?"@ + decimal(n)
    }
}

/// The query that reads the users with the given `n` ids.
pub open spec fn users_by_ids_query(n: nat) -> Seq<char> {
    "SELECT id, github_id, login, avatar_url FROM users WHERE id IN ("@ + placeholders(n) + ")"@
}

/// Writes the query that reads the users with `n` given ids, one numbered
/// placeholder per id.
pub fn users_by_ids(n: usize) -> (r: String)
    ensures
        r@ == users_by_ids_query(n as nat),
{
    let mut q = String::from_str("SELECT id, github_id, login, avatar_url FROM users WHERE id IN (");
    let ghost start = q@;
    let mut i: usize = 0;
    while i < n
        invariant
            i <= n,
            q@ == start + placeholders(i as nat),
        decreases n - i,
    {
        if i == 0 {
            push_str(&mut q, "?1");
        } else {
            push_str(&mut q, ",?");
            push_decimal(&mut q, (i + 1) as u64);
        }
        proof {
            if i > 0 {
                assert(q@ == start + (placeholders(i as nat) + ",?"@ + decimal((i + 1) as nat)));
            }
        }
        i = i + 1;
    }
    push_str(&mut q, ")");
    q
}

/// The JSON array of the given strings, without white space.
pub open spec fn json_string_array(items: Seq<Seq<char>>) -> Seq<char> {
    "["@ + json_items(items) + "]"@
}

/// The JSON string literals of the items, separated by commas.
pub open spec fn json_items(items: Seq<Seq<char>>) -> Seq<char>
    decreases items.len(),
{
    if items.len() == 0 {
        seq![]
    } else if items.len() == 1 {
        spec_json_quote(items[0])
    } else {
        json_items(items.drop_last()) + ","@ + spec_json_quote(items.last())
    }
}

/// Writes a list of strings as a JSON array (as `serde_json::to_string` does
/// for a slice of strings).
pub fn strings_to_json(items: &Vec<String>) -> (r: String)
    ensures
        r@ == json_string_array(items@.map_values(|s: String| s@)),
{
    let ghost views = items@.map_values(|s: String| s@);
    let mut out = String::from_str("[");
    let ghost start = out@;
    let mut i: usize = 0;
    while i < items.len()
        invariant
            i <= items.len(),
            views == items@.map_values(|s: String| s@),
            out@ == start + json_items(views.take(i as int)),
        decreases items.len() - i,
    {
        assert(views.take(i + 1).drop_last() == views.take(i as int));
        if i > 0 {
            push_str(&mut out, ",");
        }
        let q = json_quote(items[i].as_str());
        push_str(&mut out, q.as_str());
        proof {
            if i > 0 {
                assert(out@ == start + (json_items(views.take(i as int)) + ","@ + spec_json_quote(
                    views[i as int],
                )));
            } else {
                assert(views.take(1) == seq![views[0]]);
            }
        }
        i = i + 1;
    }
    push_str(&mut out, "]");
    assert(views.take(items.len() as int) == views);
    out
}

/// The row of a website first submitted under `domain`: named after the
/// domain, with the domain as its only listed domain.
pub fn new_website_row(id: String, domain: &str) -> (w: WebsiteRow)
    ensures
        w.id == id,
        w.name@ == domain@,
        w.domains@ == json_string_array(seq![domain@]),
{
    let mut ds: Vec<String> = Vec::new();
    ds.push(String::from_str(domain));
    let domains = strings_to_json(&ds);
    assert(ds@.map_values(|s: String| s@) == seq![domain@]);
    WebsiteRow { id, name: String::from_str(domain), domains }
}

/// The row of a model first submitted under `name`: no aliases yet.
pub fn new_model_row(id: String, name: &str) -> (m: ModelRow)
    ensures
        m.id == id,
        m.name@ == name@,
        m.aliases@ == "[]"@,
{
    ModelRow { id, name: String::from_str(name), aliases: String::from_str("[]") }
}

/// Which earlier submission a new one replaces: that of the same signed-in
/// user, or that of the same address hash, for the same website and model.
pub enum ReplaceKey {
    OAuthUser(String),
    AnonymousIp(String),
}

/// The stored text columns of a submission; an absent user id or address hash
/// is stored as the empty string.
pub struct SubmissionRecord {
    pub id: String,
    pub submitter_type: String,
    pub user_id: String,
    pub ip_hash: String,
    pub website_id: String,
    pub model_id: String,
    pub test_suite_version: String,
    pub api_style: String,
    pub endpoint_hash: String,
    pub dimension_scores: String,
    pub test_results: String,
}

/// A submission upsert: the earlier submission to delete, then the record to
/// insert (its score travels beside it).
pub struct UpsertPlan {
    pub replace: ReplaceKey,
    pub website_id: String,
    pub model_id: String,
    pub record: SubmissionRecord,
}

/// The stored rows a plan's delete removes (its `DELETE ... WHERE`): those of
/// the same kind of submitter with the same user id (signed in) or address
/// hash (anonymous), for the same website and the same model.
pub open spec fn is_replaced(row: SubmissionRecord, plan: UpsertPlan) -> bool {
    &&& row.website_id@ == plan.website_id@
    &&& row.model_id@ == plan.model_id@
    &&& match plan.replace {
        ReplaceKey::OAuthUser(u) => row.submitter_type@ == "oauth"@ && row.user_id@ == u@,
        ReplaceKey::AnonymousIp(h) => row.submitter_type@ == "anonymous"@ && row.ip_hash@ == h@,
    }
}

/// The rows of a table that a plan's delete keeps, in order.
pub open spec fn kept_rows(table: Seq<SubmissionRecord>, plan: UpsertPlan) -> Seq<SubmissionRecord>
    decreases table.len(),
{
    if table.len() == 0 {
        seq![]
    } else {
        let rest = kept_rows(table.drop_last(), plan);
        if is_replaced(table.last(), plan) {
            rest
        } else {
            rest.push(table.last())
        }
    }
}

/// The submissions table after a plan is carried out on `table`: its delete,
/// then the insert of its record.
pub open spec fn apply_upsert(table: Seq<SubmissionRecord>, plan: UpsertPlan) -> Seq<SubmissionRecord> {
    kept_rows(table, plan).push(plan.record)
}

proof fn lemma_kept_rows(table: Seq<SubmissionRecord>, plan: UpsertPlan)
    ensures
        forall|k: int|
            0 <= k < kept_rows(table, plan).len() ==> !is_replaced(#[trigger] kept_rows(table, plan)[k], plan)
                && table.contains(kept_rows(table, plan)[k]),
        forall|k: int|
            0 <= k < table.len() && !is_replaced(#[trigger] table[k], plan) ==> kept_rows(
                table,
                plan,
            ).contains(table[k]),
        kept_rows(table, plan).len() <= table.len(),
    decreases table.len(),
{
    if table.len() > 0 {
        let init = table.drop_last();
        lemma_kept_rows(init, plan);
        let kept = kept_rows(table, plan);
        assert forall|k: int| 0 <= k < kept.len() implies !is_replaced(#[trigger] kept[k], plan)
            && table.contains(kept[k]) by {
            if k < kept_rows(init, plan).len() {
                let r = kept_rows(init, plan)[k];
                assert(kept[k] == r);
                assert(!is_replaced(r, plan) && init.contains(r));
                let j = choose|j: int| 0 <= j < init.len() && init[j] == r;
                assert(table[j] == init[j]);
            } else {
                assert(table[table.len() - 1] == table.last());
            }
        }
        assert forall|k: int|
            0 <= k < table.len() && !is_replaced(#[trigger] table[k], plan) implies kept.contains(
            table[k],
        ) by {
            if k < table.len() - 1 {
                assert(table[k] == init[k]);
                assert(kept_rows(init, plan).contains(init[k]));
                let j = choose|j: int|
                    0 <= j < kept_rows(init, plan).len() && kept_rows(init, plan)[j] == init[k];
                assert(kept[j] == kept_rows(init, plan)[j]);
            } else {
                assert(kept.last() == table.last());
            }
        }
    } else {
        assert(kept_rows(table, plan).len() == 0);
    }
}

/// Carrying out an upsert on a table keeps every row its delete does not
/// match (in particular every row for another model, website or submitter),
/// removes every row it matches, and adds the new record as the last row.
pub proof fn upsert_replaces_only_its_key(table: Seq<SubmissionRecord>, plan: UpsertPlan)
    ensures
        forall|k: int|
            0 <= k < table.len() && !is_replaced(#[trigger] table[k], plan) ==> apply_upsert(
                table,
                plan,
            ).contains(table[k]),
        forall|k: int|
            0 <= k < table.len() && table[k].model_id@ != plan.model_id@ ==> apply_upsert(
                table,
                plan,
            ).contains(#[trigger] table[k]),
        forall|k: int|
            0 <= k < apply_upsert(table, plan).len() - 1 ==> !is_replaced(
                #[trigger] apply_upsert(table, plan)[k],
                plan,
            ) && table.contains(apply_upsert(table, plan)[k]),
        apply_upsert(table, plan).last() == plan.record,
        apply_upsert(table, plan).len() <= table.len() + 1,
{
    lemma_kept_rows(table, plan);
    let result = apply_upsert(table, plan);
    let kept = kept_rows(table, plan);
    assert forall|k: int|
        0 <= k < table.len() && !is_replaced(#[trigger] table[k], plan) implies result.contains(
        table[k],
    ) by {
        let j = choose|j: int| 0 <= j < kept.len() && kept[j] == table[k];
        assert(result[j] == kept[j]);
    }
    assert forall|k: int| 0 <= k < table.len() && table[k].model_id@ != plan.model_id@ implies result.contains(
        #[trigger] table[k],
    ) by {
        assert(!is_replaced(table[k], plan));
        let j = choose|j: int| 0 <= j < kept.len() && kept[j] == table[k];
        assert(result[j] == kept[j]);
    }
    assert forall|k: int| 0 <= k < result.len() - 1 implies !is_replaced(#[trigger] result[k], plan)
        && table.contains(result[k]) by {
        assert(result[k] == kept[k]);
    }
}

/// The record of an upsert planned for a signed-in or anonymous submitter
/// matches the plan's own delete: after the upsert, it is the one row of its
/// submitter, website and model.
pub proof fn upsert_record_has_its_key(
    p: UpsertPlan,
    id: Seq<char>,
    submitter_type: Seq<char>,
    user_id: Option<String>,
    ip_hash: Option<String>,
    website_id: Seq<char>,
    model_id: Seq<char>,
    test_suite_version: Seq<char>,
    api_style: Seq<char>,
    endpoint_hash: Seq<char>,
    dimension_scores: Seq<char>,
    test_results: Seq<char>,
)
    requires
        is_upsert_plan(
            p,
            id,
            submitter_type,
            user_id,
            ip_hash,
            website_id,
            model_id,
            test_suite_version,
            api_style,
            endpoint_hash,
            dimension_scores,
            test_results,
        ),
        submitter_type == "oauth"@ || submitter_type == "anonymous"@,
    ensures
        is_replaced(p.record, p),
{
}

/// The text of an optional value, the empty string when absent.
pub open spec fn or_empty(o: Option<String>) -> Seq<char> {
    match o {
        Some(s) => s@,
        None => Seq::empty(),
    }
}

fn string_or_empty(o: &Option<String>) -> (r: String)
    ensures
        r@ == or_empty(*o),
{
    match o {
        Some(s) => s.clone(),
        None => String::new(),
    }
}

/// `p` is the upsert of submission `id`: a signed-in submitter replaces their
/// own earlier submission for the website and model, anyone else replaces the
/// one from the same address hash; the new record keeps every field, with an
/// absent user id or address hash stored as the empty string.
pub open spec fn is_upsert_plan(
    p: UpsertPlan,
    id: Seq<char>,
    submitter_type: Seq<char>,
    user_id: Option<String>,
    ip_hash: Option<String>,
    website_id: Seq<char>,
    model_id: Seq<char>,
    test_suite_version: Seq<char>,
    api_style: Seq<char>,
    endpoint_hash: Seq<char>,
    dimension_scores: Seq<char>,
    test_results: Seq<char>,
) -> bool {
    &&& if submitter_type == "oauth"@ {
        p.replace matches ReplaceKey::OAuthUser(u) && u@ == or_empty(user_id)
    } else {
        p.replace matches ReplaceKey::AnonymousIp(h) && h@ == or_empty(ip_hash)
    }
    &&& p.website_id@ == website_id
    &&& p.model_id@ == model_id
    &&& p.record.id@ == id
    &&& p.record.submitter_type@ == submitter_type
    &&& p.record.user_id@ == or_empty(user_id)
    &&& p.record.ip_hash@ == or_empty(ip_hash)
    &&& p.record.website_id@ == website_id
    &&& p.record.model_id@ == model_id
    &&& p.record.test_suite_version@ == test_suite_version
    &&& p.record.api_style@ == api_style
    &&& p.record.endpoint_hash@ == endpoint_hash
    &&& p.record.dimension_scores@ == dimension_scores
    &&& p.record.test_results@ == test_results
}

/// Plans the upsert of a submission (see `is_upsert_plan`).
pub fn upsert_submission(
    id: &str,
    submitter_type: &str,
    user_id: &Option<String>,
    ip_hash: &Option<String>,
    website_id: &str,
    model_id: &str,
    test_suite_version: &str,
    api_style: &str,
    endpoint_hash: &str,
    dimension_scores: &str,
    test_results: &str,
) -> (p: UpsertPlan)
    ensures
        is_upsert_plan(
            p,
            id@,
            submitter_type@,
            *user_id,
            *ip_hash,
            website_id@,
            model_id@,
            test_suite_version@,
            api_style@,
            endpoint_hash@,
            dimension_scores@,
            test_results@,
        ),
        p.record.id@ == id@,
        p.record.submitter_type@ == submitter_type@,
        p.record.user_id@ == match user_id {
            Some(u) => u@,
            None => Seq::<char>::empty(),
        },
        p.record.ip_hash@ == match ip_hash {
            Some(h) => h@,
            None => Seq::<char>::empty(),
        },
        p.website_id@ == website_id@ && p.record.website_id@ == website_id@,
        p.model_id@ == model_id@ && p.record.model_id@ == model_id@,
        p.record.test_suite_version@ == test_suite_version@,
        p.record.api_style@ == api_style@,
        p.record.endpoint_hash@ == endpoint_hash@,
        p.record.dimension_scores@ == dimension_scores@,
        p.record.test_results@ == test_results@,
        submitter_type@ == "oauth"@ ==> (p.replace matches ReplaceKey::OAuthUser(u) && u@
            == p.record.user_id@),
        submitter_type@ != "oauth"@ ==> (p.replace matches ReplaceKey::AnonymousIp(h) && h@
            == p.record.ip_hash@),
{
    let t = String::from_str(submitter_type);
    let replace = if t == String::from_str("oauth") {
        ReplaceKey::OAuthUser(string_or_empty(user_id))
    } else {
        ReplaceKey::AnonymousIp(string_or_empty(ip_hash))
    };
    UpsertPlan {
        replace,
        website_id: String::from_str(website_id),
        model_id: String::from_str(model_id),
        record: SubmissionRecord {
            id: String::from_str(id),
            submitter_type: t,
            user_id: string_or_empty(user_id),
            ip_hash: string_or_empty(ip_hash),
            website_id: String::from_str(website_id),
            model_id: String::from_str(model_id),
            test_suite_version: String::from_str(test_suite_version),
            api_style: String::from_str(api_style),
            endpoint_hash: String::from_str(endpoint_hash),
            dimension_scores: String::from_str(dimension_scores),
            test_results: String::from_str(test_results),
        },
    }
}

/// The columns of a submission row, in the order they are read.
pub open spec fn submission_columns() -> Seq<char> {
    "id, submitter_type, user_id, ip_hash, website_id, model_id, test_suite_version, api_style, endpoint_hash, total_score, dimension_scores, test_results, created_at"@
}

/// The query that reads the submissions a ranking is computed from, newest
/// first: those of one API style when a style is asked for (bound as the one
/// parameter), else all.
pub fn submissions_for_rankings(style: &Option<String>) -> (r: (String, Vec<String>))
    ensures
        match style {
            Some(st) => r.0@ == "SELECT "@ + submission_columns()
                + " FROM submissions WHERE api_style = ? ORDER BY created_at DESC"@ && r.1@.len()
                == 1 && r.1@[0] == st,
            None => r.0@ == "SELECT "@ + submission_columns()
                + " FROM submissions ORDER BY created_at DESC"@ && r.1@.len() == 0,
        },
{
    let columns = "id, submitter_type, user_id, ip_hash, website_id, model_id, test_suite_version, api_style, endpoint_hash, total_score, dimension_scores, test_results, created_at";
    let mut q = String::from_str("SELECT ");
    push_str(&mut q, columns);
    let mut params: Vec<String> = Vec::new();
    match style {
        Some(st) => {
            push_str(&mut q, " FROM submissions WHERE api_style = ? ORDER BY created_at DESC");
            params.push(st.clone());
        },
        None => {
            push_str(&mut q, " FROM submissions ORDER BY created_at DESC");
        },
    }
    (q, params)
}

} // verus!
