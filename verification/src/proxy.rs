//! `POST /api/llm-proxy`: which requests are forwarded to a model's endpoint,
//! with which method and headers, and what of the answer is passed back.
use vstd::prelude::*;
use vstd::utf8::encode_utf8;
use crate::error::ApiError;
use crate::text::{
    chars_of, contains_chars, push_str, seq_contains, seq_starts_with, spec_to_lowercase,
    spec_to_uppercase, starts_with_chars, to_lowercase, to_uppercase,
};

verus! {

/// The methods the proxy forwards.
pub enum HttpMethod {
    Get,
    Post,
    Put,
    Patch,
    Delete,
}

/// A request to forward: the target address, the method, the headers and
/// the body.
pub struct ProxyRequest {
    pub url: String,
    pub method: String,
    pub headers: Vec<(String, String)>,
    pub body: Option<String>,
}

/// What is sent upstream.
pub struct UpstreamRequest {
    pub method: HttpMethod,
    pub url: String,
    pub headers: Vec<(String, String)>,
    pub body: Option<String>,
}

/// The headers that belong to one hop and are never forwarded, either way.
pub open spec fn hop_by_hop_names() -> Seq<Seq<char>> {
    seq![
        "connection"@,
        "keep-alive"@,
        "transfer-encoding"@,
        "host"@,
        "origin"@,
        "referer"@,
        "content-encoding"@,
        "content-length"@,
        "access-control-allow-origin"@,
    ]
}

/// A header name is hop-by-hop when, lower-cased, it is one of
/// `hop_by_hop_names`.
pub open spec fn is_hop_by_hop_name(name: Seq<char>) -> bool {
    hop_by_hop_names().contains(spec_to_lowercase(name))
}

/// The lower-cased name is one of the nine hop-by-hop names, written out.
pub open spec fn is_one_of_the_nine(lower: Seq<char>) -> bool {
    ||| lower == "connection"@
    ||| lower == "keep-alive"@
    ||| lower == "transfer-encoding"@
    ||| lower == "host"@
    ||| lower == "origin"@
    ||| lower == "referer"@
    ||| lower == "content-encoding"@
    ||| lower == "content-length"@
    ||| lower == "access-control-allow-origin"@
}

/// A header is hop-by-hop exactly when its lower-cased name is one of the nine
/// names `connection`, `keep-alive`, `transfer-encoding`, `host`, `origin`,
/// `referer`, `content-encoding`, `content-length` and
/// `access-control-allow-origin`; every other header is forwarded, and a
/// forwarded list keeps exactly the headers with other names.
pub proof fn hop_by_hop_is_exactly_nine(name: Seq<char>)
    ensures
        is_hop_by_hop_name(name) <==> is_one_of_the_nine(spec_to_lowercase(name)),
{
    let l = spec_to_lowercase(name);
    let all = hop_by_hop_names();
    if is_one_of_the_nine(l) {
        if l == "connection"@ {
            assert(all[0] == l);
        } else if l == "keep-alive"@ {
            assert(all[1] == l);
        } else if l == "transfer-encoding"@ {
            assert(all[2] == l);
        } else if l == "host"@ {
            assert(all[3] == l);
        } else if l == "origin"@ {
            assert(all[4] == l);
        } else if l == "referer"@ {
            assert(all[5] == l);
        } else if l == "content-encoding"@ {
            assert(all[6] == l);
        } else if l == "content-length"@ {
            assert(all[7] == l);
        } else {
            assert(all[8] == l);
        }
    }
    if all.contains(l) {
        let k = choose|k: int| 0 <= k < all.len() && all[k] == l;
        assert(0 <= k < 9);
    }
}

/// Whether a header must not be forwarded.
pub fn is_hop_by_hop(name: &str) -> (r: bool)
    ensures
        r == is_hop_by_hop_name(name@),
        r <==> is_one_of_the_nine(spec_to_lowercase(name@)),
{
    proof {
        hop_by_hop_is_exactly_nine(name@);
    }
    let lower = to_lowercase(name);
    let names: [&str; 9] = [
        "connection",
        "keep-alive",
        "transfer-encoding",
        "host",
        "origin",
        "referer",
        "content-encoding",
        "content-length",
        "access-control-allow-origin",
    ];
    let ghost all = hop_by_hop_names();
    let mut i: usize = 0;
    while i < 9
        invariant
            i <= 9,
            all == hop_by_hop_names(),
            lower@ == spec_to_lowercase(name@),
            forall|k: int| 0 <= k < 9 ==> #[trigger] names@[k]@ == all[k],
            forall|k: int| 0 <= k < i ==> all[k] != lower@,
        decreases 9 - i,
    {
        if lower == String::from_str(names[i]) {
            assert(all[i as int] == lower@);
            return true;
        }
        i = i + 1;
    }
    assert(!all.contains(lower@));
    false
}

/// The headers, without the hop-by-hop ones, in order.
pub open spec fn forwardable(headers: Seq<(String, String)>) -> Seq<(String, String)>
    decreases headers.len(),
{
    if headers.len() == 0 {
        seq![]
    } else {
        let rest = forwardable(headers.drop_last());
        if is_hop_by_hop_name(headers.last().0@) {
            rest
        } else {
            rest.push(headers.last())
        }
    }
}

/// The proxy forwards no hop-by-hop header, and every other header it is sent.
pub proof fn forwardable_is_exact(headers: Seq<(String, String)>)
    ensures
        forall|k: int|
            0 <= k < forwardable(headers).len() ==> !is_hop_by_hop_name(
                #[trigger] forwardable(headers)[k].0@,
            ) && headers.contains(forwardable(headers)[k]),
        forall|k: int|
            0 <= k < headers.len() && !is_hop_by_hop_name(#[trigger] headers[k].0@) ==> forwardable(
                headers,
            ).contains(headers[k]),
    decreases headers.len(),
{
    if headers.len() > 0 {
        let init = headers.drop_last();
        forwardable_is_exact(init);
        assert forall|k: int|
            0 <= k < forwardable(headers).len() implies !is_hop_by_hop_name(
            #[trigger] forwardable(headers)[k].0@,
        ) && headers.contains(forwardable(headers)[k]) by {
            if k < forwardable(init).len() {
                assert(forwardable(headers)[k] == forwardable(init)[k]);
                assert(0 <= k < forwardable(init).len());
                assert(!is_hop_by_hop_name(forwardable(init)[k].0@));
                assert(init.contains(forwardable(init)[k]));
                let j = choose|j: int| 0 <= j < init.len() && init[j] == forwardable(init)[k];
                assert(headers[j] == init[j]);
            } else {
                assert(headers[headers.len() - 1] == headers.last());
            }
        }
        assert forall|k: int|
            0 <= k < headers.len() && !is_hop_by_hop_name(
                #[trigger] headers[k].0@,
            ) implies forwardable(headers).contains(headers[k]) by {
            if k < headers.len() - 1 {
                assert(headers[k] == init[k]);
                assert(forwardable(init).contains(init[k]));
                let j = choose|j: int|
                    0 <= j < forwardable(init).len() && forwardable(init)[j] == init[k];
                assert(forwardable(headers)[j] == forwardable(init)[j]);
            } else {
                assert(forwardable(headers).last() == headers.last());
            }
        }
    } else {
        assert(forwardable(headers).len() == 0);
    }
}

/// Drops the hop-by-hop headers, keeping the others in order.
pub fn forwarded_headers(headers: &Vec<(String, String)>) -> (r: Vec<(String, String)>)
    ensures
        r@ == forwardable(headers@),
{
    let mut r: Vec<(String, String)> = Vec::new();
    let mut i: usize = 0;
    while i < headers.len()
        invariant
            i <= headers.len(),
            r@ == forwardable(headers@.take(i as int)),
        decreases headers.len() - i,
    {
        assert(headers@.take(i + 1).drop_last() == headers@.take(i as int));
        if !is_hop_by_hop(headers[i].0.as_str()) {
            r.push((headers[i].0.clone(), headers[i].1.clone()));
        }
        i = i + 1;
    }
    assert(headers@.take(headers.len() as int) == headers@);
    r
}

/// An address that reaches this machine or a private network: lower-cased, it
/// holds `://` followed by a loopback, unspecified, link-local or private
/// address prefix.
pub open spec fn is_private_url(url: Seq<char>) -> bool {
    let l = spec_to_lowercase(url);
    ||| seq_contains(l, "://localhost"@)
    ||| seq_contains(l, "://127.0.0.1"@)
    ||| seq_contains(l, "://[::1]"@)
    ||| seq_contains(l, "://0.0.0.0"@)
    ||| seq_contains(l, "://169.254."@)
    ||| seq_contains(l, "://10."@)
    ||| seq_contains(l, "://172.16."@)
    ||| seq_contains(l, "://192.168."@)
}

/// Whether the proxy must refuse to reach the address.
pub fn is_private_host(url: &str) -> (r: bool)
    ensures
        r == is_private_url(url@),
{
    let lower = chars_of(to_lowercase(url).as_str());
    contains_chars(&lower, &chars_of("://localhost")) || contains_chars(
        &lower,
        &chars_of("://127.0.0.1"),
    ) || contains_chars(&lower, &chars_of("://[::1]")) || contains_chars(
        &lower,
        &chars_of("://0.0.0.0"),
    ) || contains_chars(&lower, &chars_of("://169.254.")) || contains_chars(
        &lower,
        &chars_of("://10."),
    ) || contains_chars(&lower, &chars_of("://172.16.")) || contains_chars(
        &lower,
        &chars_of("://192.168."),
    )
}

/// The method a name stands for, upper-cased, if the proxy forwards it.
pub open spec fn method_named(method: Seq<char>) -> Option<HttpMethod> {
    let u = spec_to_uppercase(method);
    if u == "GET"@ {
        Some(HttpMethod::Get)
    } else if u == "POST"@ {
        Some(HttpMethod::Post)
    } else if u == "PUT"@ {
        Some(HttpMethod::Put)
    } else if u == "PATCH"@ {
        Some(HttpMethod::Patch)
    } else if u == "DELETE"@ {
        Some(HttpMethod::Delete)
    } else {
        None
    }
}

/// Reads a method name in any case; other methods are a bad request.
pub fn parse_method(method: &str) -> (r: Result<HttpMethod, ApiError>)
    ensures
        match method_named(method@) {
            Some(m) => r == Ok::<HttpMethod, ApiError>(m),
            None => r matches Err(ApiError::BadRequest(msg)) && msg@ == "Unsupported method: "@
                + method@,
        },
{
    let u = to_uppercase(method);
    if u == String::from_str("GET") {
        Ok(HttpMethod::Get)
    } else if u == String::from_str("POST") {
        Ok(HttpMethod::Post)
    } else if u == String::from_str("PUT") {
        Ok(HttpMethod::Put)
    } else if u == String::from_str("PATCH") {
        Ok(HttpMethod::Patch)
    } else if u == String::from_str("DELETE") {
        Ok(HttpMethod::Delete)
    } else {
        let mut m = String::from_str("Unsupported method: ");
        push_str(&mut m, method);
        Err(ApiError::BadRequest(m))
    }
}

/// An address the proxy may use: `http://` or `https://`, exactly so spelled.
pub open spec fn has_web_scheme(url: Seq<char>) -> bool {
    seq_starts_with(url, "http://"@) || seq_starts_with(url, "https://"@)
}

/// Checks a proxy request and prepares what is sent upstream. The address
/// must use the web schemes and must not be private; the method must be one
/// the proxy forwards; the hop-by-hop headers are dropped and the body is kept.
pub fn llm_proxy_handler(payload: ProxyRequest) -> (r: Result<UpstreamRequest, ApiError>)
    ensures
        !has_web_scheme(payload.url@) ==> (r matches Err(ApiError::BadRequest(m)) && m@
            == "Invalid URL scheme in proxy request"@),
        has_web_scheme(payload.url@) && is_private_url(payload.url@) ==> (r matches Err(
            ApiError::BadRequest(m),
        ) && m@ == "Proxying to private/internal hosts is not allowed"@),
        has_web_scheme(payload.url@) && !is_private_url(payload.url@) ==> match method_named(
            payload.method@,
        ) {
            Some(m) => r matches Ok(u) && u.method == m && u.url == payload.url && u.headers@
                == forwardable(payload.headers@) && u.body == payload.body,
            None => r matches Err(ApiError::BadRequest(msg)) && msg@ == "Unsupported method: "@
                + payload.method@,
        },
{
    let url = chars_of(payload.url.as_str());
    if !starts_with_chars(&url, &chars_of("http://")) && !starts_with_chars(
        &url,
        &chars_of("https://"),
    ) {
        return Err(ApiError::BadRequest(String::from_str("Invalid URL scheme in proxy request")));
    }
    if is_private_host(payload.url.as_str()) {
        return Err(
            ApiError::BadRequest(String::from_str("Proxying to private/internal hosts is not allowed")),
        );
    }
    let method = parse_method(payload.method.as_str())?;
    let headers = forwarded_headers(&payload.headers);
    Ok(UpstreamRequest { method, url: payload.url, headers, body: payload.body })
}

/// `http::StatusCode::from_u16` (re-exported by axum): accepts exactly the
/// codes from 100 to 999.
#[verifier::external_body]
fn status_code_accepted(code: u16) -> (r: bool)
    ensures
        r == (100 <= code && code <= 999),
{
    axum::http::StatusCode::from_u16(code).is_ok()
}

/// The status the proxy answers with: the upstream status where it is a valid
/// HTTP status code, else 502 (bad gateway).
pub fn upstream_status(code: u16) -> (r: u16)
    ensures
        r == (if 100 <= code && code <= 999 {
            code
        } else {
            502u16
        }),
{
    if status_code_accepted(code) {
        code
    } else {
        502
    }
}

/// A byte that a header name may hold (an HTTP token character; upper-case
/// letters are accepted and lower-cased).
pub open spec fn is_header_name_byte(b: u8) -> bool {
    ||| b == 33
    ||| 35 <= b <= 39
    ||| b == 42 || b == 43 || b == 45 || b == 46
    ||| 48 <= b <= 57
    ||| 65 <= b <= 90
    ||| 94 <= b <= 122
    ||| b == 124 || b == 126
}

/// Whether `http::HeaderName::from_bytes` accepts the bytes of a name: from 1
/// to 65535 bytes, each a header name byte.
pub open spec fn spec_header_name_ok(name: Seq<char>) -> bool {
    &&& 1 <= encode_utf8(name).len() <= 65535
    &&& forall|i: int|
        0 <= i < encode_utf8(name).len() ==> is_header_name_byte(#[trigger] encode_utf8(name)[i])
}

/// `http::HeaderName::from_bytes` (re-exported by axum) on the UTF-8 bytes of
/// `name`: whether it is a valid header name (`parse_hdr` with the crate's
/// `HEADER_CHARS` table and its length limit).
#[verifier::external_body]
fn header_name_ok(name: &str) -> (r: bool)
    ensures
        r == spec_header_name_ok(name@),
{
    axum::http::HeaderName::from_bytes(name.as_bytes()).is_ok()
}

/// A byte that a header value may hold: a tab, or any byte from 32 up but 127.
pub open spec fn is_header_value_byte(b: u8) -> bool {
    (b >= 32 && b != 127) || b == 9
}

/// Whether `http::HeaderValue::from_str` accepts a value: every byte of its
/// UTF-8 encoding is a header value byte.
pub open spec fn spec_header_value_ok(value: Seq<char>) -> bool {
    forall|i: int|
        0 <= i < encode_utf8(value).len() ==> is_header_value_byte(#[trigger] encode_utf8(value)[i])
}

/// `http::HeaderValue::from_str` (re-exported by axum): whether every byte of
/// `value` is valid in a header value (`is_valid` of the crate).
#[verifier::external_body]
fn header_value_ok(value: &str) -> (r: bool)
    ensures
        r == spec_header_value_ok(value@),
{
    axum::http::HeaderValue::from_str(value).is_ok()
}

/// The upstream answer's headers that are passed back: those that are not
/// hop-by-hop and whose name and value are valid, in order.
pub open spec fn passed_back(headers: Seq<(String, String)>) -> Seq<(String, String)>
    decreases headers.len(),
{
    if headers.len() == 0 {
        seq![]
    } else {
        let rest = passed_back(headers.drop_last());
        let h = headers.last();
        if !is_hop_by_hop_name(h.0@) && spec_header_name_ok(h.0@) && spec_header_value_ok(h.1@) {
            rest.push(h)
        } else {
            rest
        }
    }
}

/// The headers of the upstream answer to copy into the proxy's answer.
pub fn response_headers(headers: &Vec<(String, String)>) -> (r: Vec<(String, String)>)
    ensures
        r@ == passed_back(headers@),
{
    let mut r: Vec<(String, String)> = Vec::new();
    let mut i: usize = 0;
    while i < headers.len()
        invariant
            i <= headers.len(),
            r@ == passed_back(headers@.take(i as int)),
        decreases headers.len() - i,
    {
        assert(headers@.take(i + 1).drop_last() == headers@.take(i as int));
        let name = headers[i].0.as_str();
        let value = headers[i].1.as_str();
        if !is_hop_by_hop(name) && header_name_ok(name) && header_value_ok(value) {
            r.push((headers[i].0.clone(), headers[i].1.clone()));
        }
        i = i + 1;
    }
    assert(headers@.take(headers.len() as int) == headers@);
    r
}

/// The header names whose values are hidden when a request is logged.
pub open spec fn sensitive_names() -> Seq<Seq<char>> {
    seq!["authorization"@, "x-api-key"@, "x-goog-api-key"@, "api-key"@]
}

/// How a header's value is logged: `[REDACTED]` for a credential (a name that,
/// lower-cased, is in `sensitive_names`), else the value itself.
pub fn redacted_value(name: &str, value: &str) -> (r: String)
    ensures
        r@ == (if sensitive_names().contains(spec_to_lowercase(name@)) {
            "[REDACTED]"@
        } else {
            value@
        }),
        ({
            let l = spec_to_lowercase(name@);
            l == "authorization"@ || l == "x-api-key"@ || l == "x-goog-api-key"@ || l == "api-key"@
        }) ==> r@ == "[REDACTED]"@,
        !({
            let l = spec_to_lowercase(name@);
            l == "authorization"@ || l == "x-api-key"@ || l == "x-goog-api-key"@ || l == "api-key"@
        }) ==> r@ == value@,
{
    let lower = to_lowercase(name);
    let ghost all = sensitive_names();
    if lower == String::from_str("authorization") || lower == String::from_str("x-api-key")
        || lower == String::from_str("x-goog-api-key") || lower == String::from_str("api-key") {
        assert(all.contains(lower@)) by {
            if lower@ == all[0] {
            } else if lower@ == all[1] {
            } else if lower@ == all[2] {
            } else {
                assert(lower@ == all[3]);
            }
        }
        String::from_str("[REDACTED]")
    } else {
        assert(!all.contains(lower@)) by {
            assert forall|k: int| 0 <= k < all.len() implies all[k] != lower@ by {
                assert(all[0] == "authorization"@);
            }
        }
        String::from_str(value)
    }
}

/// The method of a proxy request that names none.
pub fn default_method() -> (r: String)
    ensures
        r@ == "GET"@,
{
    String::from_str("GET")
}

/// The proxy passes back no hop-by-hop header and no invalid one, and every
/// other header of the upstream answer.
pub proof fn passed_back_is_exact(headers: Seq<(String, String)>)
    ensures
        forall|k: int|
            0 <= k < passed_back(headers).len() ==> {
                let h = #[trigger] passed_back(headers)[k];
                &&& !is_hop_by_hop_name(h.0@)
                &&& spec_header_name_ok(h.0@)
                &&& spec_header_value_ok(h.1@)
                &&& headers.contains(h)
            },
        forall|k: int|
            0 <= k < headers.len() && !is_hop_by_hop_name(#[trigger] headers[k].0@)
                && spec_header_name_ok(headers[k].0@) && spec_header_value_ok(headers[k].1@)
                ==> passed_back(headers).contains(headers[k]),
    decreases headers.len(),
{
    if headers.len() > 0 {
        let init = headers.drop_last();
        passed_back_is_exact(init);
        assert forall|k: int| 0 <= k < passed_back(headers).len() implies {
            let h = #[trigger] passed_back(headers)[k];
            &&& !is_hop_by_hop_name(h.0@)
            &&& spec_header_name_ok(h.0@)
            &&& spec_header_value_ok(h.1@)
            &&& headers.contains(h)
        } by {
            if k < passed_back(init).len() {
                let h = passed_back(init)[k];
                assert(passed_back(headers)[k] == h);
                assert(init.contains(h));
                let j = choose|j: int| 0 <= j < init.len() && init[j] == h;
                assert(headers[j] == init[j]);
            } else {
                assert(headers[headers.len() - 1] == headers.last());
            }
        }
        assert forall|k: int|
            0 <= k < headers.len() && !is_hop_by_hop_name(#[trigger] headers[k].0@)
                && spec_header_name_ok(headers[k].0@) && spec_header_value_ok(
                headers[k].1@,
            ) implies passed_back(headers).contains(headers[k]) by {
            if k < headers.len() - 1 {
                assert(headers[k] == init[k]);
                assert(passed_back(init).contains(init[k]));
                let j = choose|j: int|
                    0 <= j < passed_back(init).len() && passed_back(init)[j] == init[k];
                assert(passed_back(headers)[j] == passed_back(init)[j]);
            } else {
                assert(passed_back(headers).last() == headers.last());
            }
        }
    } else {
        assert(passed_back(headers).len() == 0);
    }
}

/// What the proxy answers once the upstream answer is in.
pub struct ProxyAnswer {
    pub status: u16,
    pub headers: Vec<(String, String)>,
    pub body: Vec<u8>,
}

/// The proxy's answer to an upstream answer with status `status`, headers
/// `headers` and body `body`: the status where it is a valid HTTP status code,
/// else 502; the headers that are not hop-by-hop and are valid, in order; and
/// the body byte for byte.
pub fn proxy_answer(status: u16, headers: &Vec<(String, String)>, body: Vec<u8>) -> (r: ProxyAnswer)
    ensures
        r.status == (if 100 <= status && status <= 999 {
            status
        } else {
            502u16
        }),
        r.headers@ == passed_back(headers@),
        forall|k: int|
            0 <= k < r.headers@.len() ==> !is_hop_by_hop_name(#[trigger] r.headers@[k].0@)
                && headers@.contains(r.headers@[k]),
        forall|k: int|
            0 <= k < headers@.len() && !is_hop_by_hop_name(#[trigger] headers@[k].0@)
                && spec_header_name_ok(headers@[k].0@) && spec_header_value_ok(headers@[k].1@)
                ==> r.headers@.contains(headers@[k]),
        r.body@ == body@,
{
    proof {
        passed_back_is_exact(headers@);
    }
    let answer = ProxyAnswer {
        status: upstream_status(status),
        headers: response_headers(headers),
        body,
    };
    proof {
        assert forall|k: int| 0 <= k < answer.headers@.len() implies !is_hop_by_hop_name(
            #[trigger] answer.headers@[k].0@,
        ) && headers@.contains(answer.headers@[k]) by {
            let h = passed_back(headers@)[k];
            assert(answer.headers@[k] == h);
        }
    }
    answer
}

} // verus!
