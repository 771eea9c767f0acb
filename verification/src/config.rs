//! Deployment settings: secrets and variables, the current test suite, the
//! origins allowed to call the API and the classes of submitters.
use vstd::prelude::*;
use crate::error::ApiError;
use crate::text::push_str;

verus! {

/// A setting read from the secrets first, then from the plain variables.
/// `secret` and `var` are the two lookups of `name`; with neither present the
/// setting is reported missing.
pub fn get_secret_or_var(name: &str, secret: Option<String>, var: Option<String>) -> (r: Result<
    String,
    ApiError,
>)
    ensures
        match secret {
            Some(s) => r == Ok::<String, ApiError>(s),
            None => match var {
                Some(v) => r == Ok::<String, ApiError>(v),
                None => r matches Err(ApiError::Internal(m)) && m@ == "Missing config: "@ + name@,
            },
        },
{
    if let Some(s) = secret {
        return Ok(s);
    }
    if let Some(v) = var {
        return Ok(v);
    }
    let mut m = String::from_str("Missing config: ");
    push_str(&mut m, name);
    Err(ApiError::Internal(m))
}

/// The test suite that submissions must have been run with: the
/// `CURRENT_TEST_SUITE` variable, or `v1`.
pub fn current_test_suite(configured: Option<String>) -> (r: String)
    ensures
        r@ == match configured {
            Some(c) => c@,
            None => "v1"@,
        },
{
    match configured {
        Some(c) => c,
        None => String::from_str("v1"),
    }
}

/// The origins whose browsers may call the API.
pub open spec fn allowed_origins() -> Seq<Seq<char>> {
    seq!["https://llmtest.top"@, "https://www.llmtest.top"@, "http://localhost:5173"@]
}

/// The origin to allow in a CORS answer: the request's own origin when it is
/// one of `allowed_origins`, else none.
pub fn get_allowed_origin(origin: &str) -> (r: Option<String>)
    ensures
        r is Some <==> allowed_origins().contains(origin@),
        r is Some <==> (origin@ == "https://llmtest.top"@ || origin@ == "https://www.llmtest.top"@
            || origin@ == "http://localhost:5173"@),
        r matches Some(o) ==> o@ == origin@,
{
    let o = String::from_str(origin);
    let a = String::from_str("https://llmtest.top");
    let b = String::from_str("https://www.llmtest.top");
    let c = String::from_str("http://localhost:5173");
    if o == a || o == b || o == c {
        assert(allowed_origins()[0] == a@ && allowed_origins()[1] == b@ && allowed_origins()[2]
            == c@);
        Some(o)
    } else {
        assert(!allowed_origins().contains(origin@)) by {
            assert forall|i: int| 0 <= i < 3 implies allowed_origins()[i] != origin@ by {
                assert(allowed_origins()[0] == a@ && allowed_origins()[1] == b@
                    && allowed_origins()[2] == c@);
            }
        }
        None
    }
}

/// The class of a submitter, which selects the weight of its submissions.
pub enum SubmitterClass {
    OAuth,
    Anonymous,
    Other,
}

/// `oauth` and `anonymous` submitters have weights of their own; any other
/// type gets the default weight.
pub fn submitter_class(submitter_type: &str) -> (c: SubmitterClass)
    ensures
        c == (if submitter_type@ == "oauth"@ {
            SubmitterClass::OAuth
        } else if submitter_type@ == "anonymous"@ {
            SubmitterClass::Anonymous
        } else {
            SubmitterClass::Other
        }),
{
    let t = String::from_str(submitter_type);
    if t == String::from_str("oauth") {
        SubmitterClass::OAuth
    } else if t == String::from_str("anonymous") {
        SubmitterClass::Anonymous
    } else {
        SubmitterClass::Other
    }
}

/// The headers of the answer to a CORS preflight from `origin`: for an
/// allowed origin, the origin itself, the methods `GET, POST, OPTIONS`, the
/// headers `Authorization, X-Anonymous-Token, Content-Type` and a day of
/// caching; for any other origin, none.
pub fn preflight_headers(origin: &str) -> (r: Vec<(String, String)>)
    ensures
        allowed_origins().contains(origin@) ==> r@.len() == 4 && r@[0].0@
            == "Access-Control-Allow-Origin"@ && r@[0].1@ == origin@ && r@[1].0@
            == "Access-Control-Allow-Methods"@ && r@[1].1@ == "GET, POST, OPTIONS"@ && r@[2].0@
            == "Access-Control-Allow-Headers"@ && r@[2].1@
            == "Authorization, X-Anonymous-Token, Content-Type"@ && r@[3].0@
            == "Access-Control-Max-Age"@ && r@[3].1@ == "86400"@,
        !allowed_origins().contains(origin@) ==> r@.len() == 0,
{
    let mut r: Vec<(String, String)> = Vec::new();
    if let Some(allowed) = get_allowed_origin(origin) {
        r.push((String::from_str("Access-Control-Allow-Origin"), allowed));
        r.push(
            (String::from_str("Access-Control-Allow-Methods"), String::from_str("GET, POST, OPTIONS")),
        );
        r.push(
            (
                String::from_str("Access-Control-Allow-Headers"),
                String::from_str("Authorization, X-Anonymous-Token, Content-Type"),
            ),
        );
        r.push((String::from_str("Access-Control-Max-Age"), String::from_str("86400")));
    }
    r
}

} // verus!
