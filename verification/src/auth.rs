//! Session tokens (HS256 JWT) and the hashing of client addresses.
use vstd::prelude::*;
use crate::crypto::{
    b64url_alphabet, b64url_decode, b64url_encode, b64url_one_to_one, hmac_sha256, hmac_sha256_verify, is_url_safe_char, now_millis,
    sha256, spec_b64url_encode, spec_hmac_sha256, spec_sha256, string_from_utf8,
};
use crate::error::ApiError;
use crate::json::{json_quote, spec_json_quote};
use crate::models::JwtClaims;
use crate::rankings::opt_view;
use crate::text::{
    seq_starts_with, chars_of, decimal, digit, digit_char, push_char, push_decimal, push_str, string_from_chars,
};
use vstd::utf8::{decode_utf8, encode_utf8, valid_utf8};

verus! {

broadcast use {vstd::utf8::encode_utf8_decode_utf8, vstd::utf8::encode_utf8_valid_utf8};

/// `null`, or the JSON string literal of a present value.
pub open spec fn opt_json(o: Option<Seq<char>>) -> Seq<char> {
    match o {
        Some(s) => spec_json_quote(s),
        None => "null"@,
    }
}

/// The JSON object of a set of claims, with the fields in declaration order
/// and no white space (as `serde_json::to_string` writes the struct).
pub open spec fn claims_text(
    sub: Seq<char>,
    login: Option<Seq<char>>,
    submitter_type: Seq<char>,
    ip_hash: Option<Seq<char>>,
    exp: nat,
    iat: nat,
) -> Seq<char> {
    "{\"sub\":"@ + spec_json_quote(sub) + ",\"login\":"@ + opt_json(login)
        + ",\"submitter_type\":"@ + spec_json_quote(submitter_type) + ",\"ip_hash\":"@ + opt_json(
        ip_hash,
    ) + ",\"exp\":"@ + decimal(exp) + ",\"iat\":"@ + decimal(iat) + "}"@
}

/// The JSON text of a claims value.
pub open spec fn claims_json(c: JwtClaims) -> Seq<char> {
    claims_text(
        c.sub@,
        opt_view(c.login),
        c.submitter_type@,
        opt_view(c.ip_hash),
        c.exp as nat,
        c.iat as nat,
    )
}

fn push_opt_json(s: &mut String, o: &Option<String>)
    ensures
        final(s)@ == old(s)@ + opt_json(opt_view(*o)),
{
    match o {
        Some(v) => {
            let q = json_quote(v.as_str());
            push_str(s, q.as_str());
        },
        None => push_str(s, "null"),
    }
}

/// Writes the claims as JSON.
pub fn claims_to_json(c: &JwtClaims) -> (r: String)
    ensures
        r@ == claims_json(*c),
{
    let mut s = String::from_str("{\"sub\":");
    push_str(&mut s, json_quote(c.sub.as_str()).as_str());
    push_str(&mut s, ",\"login\":");
    push_opt_json(&mut s, &c.login);
    push_str(&mut s, ",\"submitter_type\":");
    push_str(&mut s, json_quote(c.submitter_type.as_str()).as_str());
    push_str(&mut s, ",\"ip_hash\":");
    push_opt_json(&mut s, &c.ip_hash);
    push_str(&mut s, ",\"exp\":");
    push_decimal(&mut s, c.exp);
    push_str(&mut s, ",\"iat\":");
    push_decimal(&mut s, c.iat);
    push_str(&mut s, "}");
    s
}

/// The JOSE header of every token.
pub open spec fn jwt_header() -> Seq<char> {
    "{\"alg\":\"HS256\",\"typ\":\"JWT\"}"@
}

/// `header.payload`, both Base64url-encoded.
pub open spec fn signing_input(payload: Seq<char>) -> Seq<char> {
    spec_b64url_encode(encode_utf8(jwt_header())) + seq!['.'] + spec_b64url_encode(
        encode_utf8(payload),
    )
}

/// The token for a payload: the signing input, a dot, and the Base64url
/// HMAC-SHA256 of the signing input under the secret.
pub open spec fn signed_token(payload: Seq<char>, secret: Seq<char>) -> Seq<char> {
    signing_input(payload) + seq!['.'] + spec_b64url_encode(
        spec_hmac_sha256(encode_utf8(secret), encode_utf8(signing_input(payload))),
    )
}

/// The pieces of `s` between occurrences of `sep` (as `str::split` gives them).
pub open spec fn split_on(s: Seq<char>, sep: char) -> Seq<Seq<char>>
    decreases s.len(),
{
    if s.len() == 0 {
        seq![Seq::<char>::empty()]
    } else {
        let rest = split_on(s.drop_last(), sep);
        if s.last() == sep {
            rest.push(Seq::<char>::empty())
        } else {
            rest.update(rest.len() - 1, rest.last().push(s.last()))
        }
    }
}

/// The pieces joined back together with `sep` between them.
pub open spec fn join_with(parts: Seq<Seq<char>>, sep: char) -> Seq<char>
    decreases parts.len(),
{
    if parts.len() == 0 {
        seq![]
    } else if parts.len() == 1 {
        parts[0]
    } else {
        join_with(parts.drop_last(), sep) + seq![sep] + parts.last()
    }
}

proof fn lemma_join_extend_last(parts: Seq<Seq<char>>, sep: char, c: char)
    requires
        parts.len() >= 1,
    ensures
        join_with(parts.update(parts.len() - 1, parts.last().push(c)), sep) == join_with(
            parts,
            sep,
        ).push(c),
{
    let up = parts.update(parts.len() - 1, parts.last().push(c));
    if parts.len() > 1 {
        assert(up.drop_last() =~= parts.drop_last());
        assert(join_with(up, sep) =~= join_with(parts, sep).push(c));
    }
}

/// Splitting at a separator cuts `s` into at least one piece, no piece holds
/// the separator, and joining the pieces with it gives `s` back.
pub proof fn split_on_is_exact(s: Seq<char>, sep: char)
    ensures
        split_on(s, sep).len() >= 1,
        forall|i: int, j: int|
            0 <= i < split_on(s, sep).len() && 0 <= j < split_on(s, sep)[i].len()
                ==> #[trigger] split_on(s, sep)[i][j] != sep,
        join_with(split_on(s, sep), sep) == s,
    decreases s.len(),
{
    if s.len() == 0 {
        assert(join_with(split_on(s, sep), sep) =~= s);
    } else {
        let init = s.drop_last();
        split_on_is_exact(init, sep);
        let rest = split_on(init, sep);
        let parts = split_on(s, sep);
        if s.last() == sep {
            assert(parts == rest.push(Seq::<char>::empty()));
            assert(parts.drop_last() =~= rest);
            assert(join_with(parts, sep) =~= s);
            assert forall|i: int, j: int|
                0 <= i < parts.len() && 0 <= j < parts[i].len() implies #[trigger] parts[i][j]
                != sep by {
                assert(i < rest.len());
                assert(parts[i] == rest[i]);
            }
        } else {
            lemma_join_extend_last(rest, sep, s.last());
            assert(join_with(parts, sep) =~= s);
            assert forall|i: int, j: int|
                0 <= i < parts.len() && 0 <= j < parts[i].len() implies #[trigger] parts[i][j]
                != sep by {
                if i < rest.len() - 1 {
                    assert(parts[i] == rest[i]);
                } else {
                    assert(parts[i] == rest.last().push(s.last()));
                    if j < rest.last().len() {
                        assert(parts[i][j] == rest[i][j]);
                    }
                }
            }
        }
    }
}

/// A token is accepted with a payload: it has three dot-separated parts, the
/// third is the Base64url HMAC-SHA256 under the secret of the first two (with
/// their dot), and the second is the Base64url of the payload.
pub open spec fn jwt_accepts(token: Seq<char>, secret: Seq<char>, payload: Seq<char>) -> bool {
    let parts = split_on(token, '.');
    &&& parts.len() == 3
    &&& parts[2] == spec_b64url_encode(
        spec_hmac_sha256(encode_utf8(secret), encode_utf8(parts[0] + seq!['.'] + parts[1])),
    )
    &&& parts[1] == spec_b64url_encode(encode_utf8(payload))
}

proof fn lemma_split_without_sep(y: Seq<char>, sep: char)
    requires
        forall|i: int| 0 <= i < y.len() ==> y[i] != sep,
    ensures
        split_on(y, sep) == seq![y],
    decreases y.len(),
{
    if y.len() > 0 {
        lemma_split_without_sep(y.drop_last(), sep);
        assert(y.drop_last().push(y.last()) =~= y);
        assert(seq![y.drop_last()].update(0, y.drop_last().push(y.last())) =~= seq![y]);
    } else {
        assert(y =~= Seq::<char>::empty());
    }
}

proof fn lemma_split_join(x: Seq<char>, y: Seq<char>, sep: char)
    requires
        forall|i: int| 0 <= i < y.len() ==> y[i] != sep,
    ensures
        split_on(x + seq![sep] + y, sep) == split_on(x, sep).push(y),
    decreases y.len(),
{
    let s = x + seq![sep] + y;
    if y.len() == 0 {
        assert(s.drop_last() =~= x);
        assert(y =~= Seq::<char>::empty());
    } else {
        lemma_split_join(x, y.drop_last(), sep);
        assert(s.drop_last() =~= x + seq![sep] + y.drop_last());
        let rest = split_on(x, sep).push(y.drop_last());
        assert(s.last() == y.last());
        assert(y.drop_last().push(y.last()) =~= y);
        assert(rest.update(rest.len() - 1, rest.last().push(s.last())) =~= split_on(x, sep).push(
            y,
        ));
    }
}

/// Splitting three dot-free parts joined by dots gives them back.
proof fn lemma_split_three(a: Seq<char>, b: Seq<char>, c: Seq<char>)
    requires
        forall|i: int| 0 <= i < a.len() ==> a[i] != '.',
        forall|i: int| 0 <= i < b.len() ==> b[i] != '.',
        forall|i: int| 0 <= i < c.len() ==> c[i] != '.',
    ensures
        split_on(a + seq!['.'] + b + seq!['.'] + c, '.') == seq![a, b, c],
{
    lemma_split_without_sep(a, '.');
    lemma_split_join(a, b, '.');
    lemma_split_join(a + seq!['.'] + b, c, '.');
    assert(seq![a].push(b).push(c) =~= seq![a, b, c]);
}

/// Signs the claims with HS256 under `secret` and returns the compact token.
/// The token is one that `verify_jwt_payload` accepts under the same secret,
/// and the only payload it carries is the claims' JSON.
pub fn sign_jwt(claims: &JwtClaims, secret: &str) -> (r: Result<String, ApiError>)
    ensures
        r matches Ok(t) && t@ == signed_token(claims_json(*claims), secret@) && jwt_accepts(
            t@,
            secret@,
            claims_json(*claims),
        ) && forall|p: Seq<char>| #[trigger]
            jwt_accepts(t@, secret@, p) ==> p == claims_json(*claims),
{
    let header = "{\"alg\":\"HS256\",\"typ\":\"JWT\"}";
    let header_b64 = b64url_encode(header.as_bytes());
    let payload = claims_to_json(claims);
    let payload_b64 = b64url_encode(payload.as_str().as_bytes());
    let mut input = header_b64.clone();
    push_str(&mut input, ".");
    push_str(&mut input, payload_b64.as_str());
    let sig = hmac_sha256(secret.as_bytes(), input.as_str().as_bytes());
    let sig_b64 = b64url_encode(sig.as_slice());
    let mut token = input.clone();
    push_str(&mut token, ".");
    push_str(&mut token, sig_b64.as_str());
    proof {
        assert("."@ =~= seq!['.']) by {
            reveal_strlit(".");
        }
        assert(header@ == jwt_header());
        assert(input@ == header_b64@ + seq!['.'] + payload_b64@);
        b64url_alphabet(encode_utf8(header@));
        b64url_alphabet(encode_utf8(payload@));
        b64url_alphabet(sig@);
        lemma_split_three(header_b64@, payload_b64@, sig_b64@);
        assert(token@ == header_b64@ + seq!['.'] + payload_b64@ + seq!['.'] + sig_b64@);
        assert forall|p: Seq<char>| #[trigger] jwt_accepts(token@, secret@, p) implies p
            == claims_json(*claims) by {
            assert(split_on(token@, '.')[1] == payload_b64@);
            assert(spec_b64url_encode(encode_utf8(p)) == payload_b64@);
            b64url_one_to_one(encode_utf8(p), encode_utf8(claims_json(*claims)));
            assert(decode_utf8(encode_utf8(p)) == p);
        }
    }
    Ok(token)
}

/// Splits a string at every dot.
pub fn split_dots(s: &str) -> (parts: Vec<Vec<char>>)
    ensures
        parts@.map_values(|v: Vec<char>| v@) == split_on(s@, '.'),
{
    let cs = chars_of(s);
    let mut parts: Vec<Vec<char>> = Vec::new();
    let mut cur: Vec<char> = Vec::new();
    let mut i: usize = 0;
    assert(cs@.take(0) =~= Seq::<char>::empty());
    assert(parts@.map_values(|v: Vec<char>| v@).push(cur@) =~= seq![Seq::<char>::empty()]);
    while i < cs.len()
        invariant
            i <= cs.len(),
            cs@ == s@,
            parts@.map_values(|v: Vec<char>| v@).push(cur@) == split_on(cs@.take(i as int), '.'),
        decreases cs.len() - i,
    {
        let c = cs[i];
        let ghost before = parts@.map_values(|v: Vec<char>| v@);
        let ghost cur0 = cur@;
        assert(cs@.take(i + 1).drop_last() =~= cs@.take(i as int));
        if c == '.' {
            parts.push(cur);
            cur = Vec::new();
            assert(parts@.map_values(|v: Vec<char>| v@) =~= before.push(cur0));
        } else {
            cur.push(c);
            assert(before.push(cur0).update(before.len() as int, cur0.push(c)) =~= before.push(
                cur@,
            ));
        }
        i = i + 1;
    }
    let ghost before = parts@.map_values(|v: Vec<char>| v@);
    let ghost last = cur@;
    parts.push(cur);
    assert(parts@.map_values(|v: Vec<char>| v@) =~= before.push(last));
    assert(cs@.take(cs.len() as int) =~= cs@);
    parts
}

fn error_with(prefix: &str, detail: &String) -> (e: ApiError)
    ensures
        e matches ApiError::Internal(m) && m@ == prefix@ + detail@ && seq_starts_with(m@, prefix@),
{
    let mut m = String::from_str(prefix);
    push_str(&mut m, detail.as_str());
    assert((prefix@ + detail@).take(prefix@.len() as int) =~= prefix@);
    ApiError::Internal(m)
}

/// Checks a token's format and HS256 signature under `secret` and returns its
/// payload text. Fails with an internal error when the token does not have
/// three dot-separated parts, when a part is not Base64url, when the
/// signature does not match or when the payload is not UTF-8.
pub fn verify_jwt_payload(token: &str, secret: &str) -> (r: Result<String, ApiError>)
    ensures
        r matches Ok(p) ==> jwt_accepts(token@, secret@, p@),
        (exists|p: Seq<char>| jwt_accepts(token@, secret@, p)) ==> r is Ok,
        split_on(token@, '.').len() != 3 ==> (r matches Err(ApiError::Internal(m)) && m@
            == "Invalid JWT format"@),
        ({
            let parts = split_on(token@, '.');
            parts.len() == 3 && (exists|x: Seq<u8>| spec_b64url_encode(x) == parts[2])
                && parts[2] != spec_b64url_encode(
                spec_hmac_sha256(encode_utf8(secret@), encode_utf8(parts[0] + seq!['.'] + parts[1])),
            )
        }) ==> (r matches Err(ApiError::Internal(m)) && m@ == "JWT signature verification failed"@),
        ({
            let parts = split_on(token@, '.');
            parts.len() == 3 && !(exists|x: Seq<u8>| spec_b64url_encode(x) == parts[2])
        }) ==> (r matches Err(ApiError::Internal(m)) && seq_starts_with(
            m@,
            "Base64 decode error: "@,
        )),
        ({
            let parts = split_on(token@, '.');
            parts.len() == 3 && parts[2] == spec_b64url_encode(
                spec_hmac_sha256(encode_utf8(secret@), encode_utf8(parts[0] + seq!['.'] + parts[1])),
            ) && !(exists|x: Seq<u8>| spec_b64url_encode(x) == parts[1])
        }) ==> (r matches Err(ApiError::Internal(m)) && seq_starts_with(
            m@,
            "Base64 decode error: "@,
        )),
        ({
            let parts = split_on(token@, '.');
            parts.len() == 3 && parts[2] == spec_b64url_encode(
                spec_hmac_sha256(encode_utf8(secret@), encode_utf8(parts[0] + seq!['.'] + parts[1])),
            ) && (exists|x: Seq<u8>| spec_b64url_encode(x) == parts[1] && !valid_utf8(x))
        }) ==> (r matches Err(ApiError::Internal(m)) && seq_starts_with(
            m@,
            "UTF-8 decode error: "@,
        )),
        r matches Err(e) ==> e is Internal,
{
    let parts = split_dots(token);
    let ghost pv = parts@.map_values(|v: Vec<char>| v@);
    if parts.len() != 3 {
        return Err(ApiError::internal("Invalid JWT format"));
    }
    assert(pv.len() == 3);
    let header_b64 = string_from_chars(&parts[0]);
    let payload_b64 = string_from_chars(&parts[1]);
    let signature_b64 = string_from_chars(&parts[2]);
    assert(header_b64@ == pv[0] && payload_b64@ == pv[1] && signature_b64@ == pv[2]);
    let mut input = header_b64.clone();
    push_str(&mut input, ".");
    push_str(&mut input, payload_b64.as_str());
    proof {
        assert("."@ =~= seq!['.']) by {
            reveal_strlit(".");
        }
    }
    let signature = match b64url_decode(signature_b64.as_str()) {
        Ok(v) => v,
        Err(e) => return Err(error_with("Base64 decode error: ", &e)),
    };
    proof {
        let mac = spec_hmac_sha256(encode_utf8(secret@), encode_utf8(input@));
        if spec_b64url_encode(mac) == signature_b64@ {
            b64url_one_to_one(signature@, mac);
        }
    }
    if !hmac_sha256_verify(secret.as_bytes(), input.as_str().as_bytes(), signature.as_slice()) {
        return Err(ApiError::internal("JWT signature verification failed"));
    }
    let payload_bytes = match b64url_decode(payload_b64.as_str()) {
        Ok(v) => v,
        Err(e) => return Err(error_with("Base64 decode error: ", &e)),
    };
    let ghost pb = payload_bytes@;
    proof {
        assert forall|x: Seq<u8>| #[trigger] spec_b64url_encode(x) == payload_b64@ implies x == pb by {
            b64url_one_to_one(x, pb);
        }
    }
    let payload = match string_from_utf8(payload_bytes) {
        Ok(s) => s,
        Err(e) => return Err(error_with("UTF-8 decode error: ", &e)),
    };
    proof {
        vstd::utf8::decode_utf8_encode_utf8(pb);
    }
    Ok(payload)
}

/// A token that `sign_jwt` made from some claims under a secret (its
/// `ensures`: the token is accepted with the claims' JSON and with nothing
/// else) is one that `verify_jwt_payload` accepts under the same secret (its
/// `ensures`), and what it gives back is exactly the claims' JSON.
pub proof fn signed_token_verifies_to_its_claims(
    token: Seq<char>,
    secret: Seq<char>,
    claims: JwtClaims,
    verified: Result<String, ApiError>,
)
    requires
        jwt_accepts(token, secret, claims_json(claims)),
        forall|p: Seq<char>| #[trigger] jwt_accepts(token, secret, p) ==> p == claims_json(claims),
        verified matches Ok(p) ==> jwt_accepts(token, secret, p@),
        (exists|p: Seq<char>| jwt_accepts(token, secret, p)) ==> verified is Ok,
    ensures
        verified matches Ok(p) && p@ == claims_json(claims),
{
}

/// `claims.exp` (seconds) lies before `now_ms` (milliseconds).
pub open spec fn is_expired(exp: u64, now_ms: u64) -> bool {
    exp * 1000 < now_ms
}

/// Rejects claims whose expiry, in milliseconds, lies before `now_ms`.
pub fn check_not_expired(claims: &JwtClaims, now_ms: u64) -> (r: Result<(), ApiError>)
    requires
        claims.exp * 1000 <= u64::MAX,
    ensures
        r is Ok <==> !is_expired(claims.exp, now_ms),
        r matches Err(e) ==> e matches ApiError::Internal(m) && m@ == "JWT expired"@,
{
    if claims.exp * 1000 < now_ms {
        return Err(ApiError::internal("JWT expired"));
    }
    Ok(())
}

/// Rejects claims that have expired by the current time of the runtime.
pub fn check_not_expired_now(claims: &JwtClaims) -> (r: Result<(), ApiError>)
    requires
        claims.exp * 1000 <= u64::MAX,
    ensures
        r matches Err(e) ==> e matches ApiError::Internal(m) && m@ == "JWT expired"@,
        r is Ok ==> exists|now_ms: u64| !is_expired(claims.exp, now_ms),
        r is Err ==> exists|now_ms: u64| is_expired(claims.exp, now_ms),
{
    let now_ms = now_millis();
    check_not_expired(claims, now_ms)
}

/// The current time in whole seconds since the epoch.
fn current_timestamp() -> (r: u64)
    ensures
        r <= u64::MAX / 1000,
{
    now_millis() / 1000
}

/// How long a signed-in session lasts: 30 days, in seconds.
pub const OAUTH_TOKEN_SECONDS: u64 = 2592000;

/// How long an anonymous session lasts: 24 hours, in seconds.
pub const ANONYMOUS_TOKEN_SECONDS: u64 = 86400;

/// The claims text of a signed-in user's session issued at `now`.
pub open spec fn oauth_claims_text(user_id: Seq<char>, login: Seq<char>, now: nat) -> Seq<char> {
    claims_text(user_id, Some(login), "oauth"@, None, (now + OAUTH_TOKEN_SECONDS) as nat, now)
}

/// The claims text of an anonymous session of the hashed address issued at `now`.
pub open spec fn anonymous_claims_text(ip_hash: Seq<char>, now: nat) -> Seq<char> {
    claims_text(
        ip_hash,
        None,
        "anonymous"@,
        Some(ip_hash),
        (now + ANONYMOUS_TOKEN_SECONDS) as nat,
        now,
    )
}

/// The claims of a signed-in user's session issued at `now` (seconds): the user
/// id as subject, the login, type `oauth`, and 30 days of validity.
pub fn oauth_claims(user_id: &str, login: &str, now: u64) -> (c: JwtClaims)
    requires
        now + OAUTH_TOKEN_SECONDS <= u64::MAX,
    ensures
        c.sub@ == user_id@,
        c.login matches Some(l) && l@ == login@,
        c.submitter_type@ == "oauth"@,
        c.ip_hash is None,
        c.iat == now,
        c.exp == now + OAUTH_TOKEN_SECONDS,
        claims_json(c) == oauth_claims_text(user_id@, login@, now as nat),
{
    JwtClaims {
        sub: String::from_str(user_id),
        login: Some(String::from_str(login)),
        submitter_type: String::from_str("oauth"),
        ip_hash: None,
        iat: now,
        exp: now + OAUTH_TOKEN_SECONDS,
    }
}

/// The claims of an anonymous session issued at `now` (seconds): the address
/// hash as subject and as `ip_hash`, type `anonymous`, and 24 hours of validity.
pub fn anonymous_claims(ip_hash: &str, now: u64) -> (c: JwtClaims)
    requires
        now + ANONYMOUS_TOKEN_SECONDS <= u64::MAX,
    ensures
        c.sub@ == ip_hash@,
        c.login is None,
        c.submitter_type@ == "anonymous"@,
        c.ip_hash matches Some(h) && h@ == ip_hash@,
        c.iat == now,
        c.exp == now + ANONYMOUS_TOKEN_SECONDS,
        claims_json(c) == anonymous_claims_text(ip_hash@, now as nat),
{
    JwtClaims {
        sub: String::from_str(ip_hash),
        login: None,
        submitter_type: String::from_str("anonymous"),
        ip_hash: Some(String::from_str(ip_hash)),
        iat: now,
        exp: now + ANONYMOUS_TOKEN_SECONDS,
    }
}

/// Issues a signed-in user's session token, valid for 30 days from now. The
/// token carries the claims of `oauth_claims` at the current time and is one
/// that `verify_jwt_payload` accepts under `secret` with exactly those claims.
pub fn create_oauth_jwt(user_id: &str, login: &str, secret: &str) -> (r: Result<String, ApiError>)
    ensures
        r matches Ok(t) && exists|now: nat|
            #![trigger oauth_claims_text(user_id@, login@, now)]
            now <= u64::MAX / 1000 && t@ == signed_token(
                oauth_claims_text(user_id@, login@, now),
                secret@,
            ) && jwt_accepts(t@, secret@, oauth_claims_text(user_id@, login@, now)) && forall|
                p: Seq<char>,
            |
                #[trigger] jwt_accepts(t@, secret@, p) ==> p == oauth_claims_text(
                    user_id@,
                    login@,
                    now,
                ),
{
    let now = current_timestamp();
    let claims = oauth_claims(user_id, login, now);
    sign_jwt(&claims, secret)
}

/// Issues an anonymous session token for a hashed address, valid for 24 hours
/// from now, carrying the claims of `anonymous_claims` at the current time.
pub fn create_anonymous_jwt(ip_hash: &str, secret: &str) -> (r: Result<String, ApiError>)
    ensures
        r matches Ok(t) && exists|now: nat|
            #![trigger anonymous_claims_text(ip_hash@, now)]
            now <= u64::MAX / 1000 && t@ == signed_token(anonymous_claims_text(ip_hash@, now), secret@)
                && jwt_accepts(t@, secret@, anonymous_claims_text(ip_hash@, now)) && forall|
                p: Seq<char>,
            | #[trigger] jwt_accepts(t@, secret@, p) ==> p == anonymous_claims_text(ip_hash@, now),
{
    let now = current_timestamp();
    let claims = anonymous_claims(ip_hash, now);
    sign_jwt(&claims, secret)
}

/// The lower-case hexadecimal digit for `d < 16`.
pub open spec fn hex_digit(d: nat) -> char {
    if d < 10 {
        digit_char(d)
    } else if d == 10 {
        'a'
    } else if d == 11 {
        'b'
    } else if d == 12 {
        'c'
    } else if d == 13 {
        'd'
    } else if d == 14 {
        'e'
    } else {
        'f'
    }
}

/// Two lower-case hexadecimal digits per byte, in order.
pub open spec fn hex_lower(bytes: Seq<u8>) -> Seq<char>
    decreases bytes.len(),
{
    if bytes.len() == 0 {
        seq![]
    } else {
        hex_lower(bytes.drop_last()) + seq![
            hex_digit((bytes.last() / 16) as nat),
            hex_digit((bytes.last() % 16) as nat),
        ]
    }
}

/// A lower-case hexadecimal digit.
pub open spec fn is_lower_hex(c: char) -> bool {
    ('0' <= c && c <= '9') || ('a' <= c && c <= 'f')
}

/// The hexadecimal text of `n` bytes has `2 * n` characters, each a
/// lower-case hexadecimal digit (so an address hash is always 64 of them).
pub proof fn hex_lower_shape(bytes: Seq<u8>)
    ensures
        hex_lower(bytes).len() == 2 * bytes.len(),
        forall|i: int| 0 <= i < hex_lower(bytes).len() ==> is_lower_hex(#[trigger] hex_lower(bytes)[i]),
    decreases bytes.len(),
{
    if bytes.len() > 0 {
        hex_lower_shape(bytes.drop_last());
        let prev = hex_lower(bytes.drop_last());
        let hi = hex_digit((bytes.last() / 16) as nat);
        let lo = hex_digit((bytes.last() % 16) as nat);
        assert(is_lower_hex(hi) && is_lower_hex(lo));
        assert forall|i: int| 0 <= i < hex_lower(bytes).len() implies is_lower_hex(
            #[trigger] hex_lower(bytes)[i],
        ) by {
            if i < prev.len() {
                assert(hex_lower(bytes)[i] == prev[i]);
            } else if i == prev.len() {
                assert(hex_lower(bytes)[i] == hi);
            } else {
                assert(hex_lower(bytes)[i] == lo);
            }
        }
    }
}

/// The value of a lower-case hexadecimal digit character.
pub open spec fn hex_value(c: char) -> int {
    if (c as int) <= 57 {
        (c as int) - 48
    } else {
        (c as int) - 87
    }
}

/// Each byte appears in the hexadecimal text as two digits, the high half
/// first: reading them back gives the byte.
pub proof fn hex_lower_decodes(bytes: Seq<u8>)
    ensures
        hex_lower(bytes).len() == 2 * bytes.len(),
        forall|i: int|
            0 <= i < bytes.len() ==> hex_value(hex_lower(bytes)[2 * i]) * 16 + hex_value(
                hex_lower(bytes)[2 * i + 1],
            ) == #[trigger] bytes[i],
    decreases bytes.len(),
{
    if bytes.len() > 0 {
        let init = bytes.drop_last();
        hex_lower_decodes(init);
        let b = bytes.last();
        let hi = (b / 16) as nat;
        let lo = (b % 16) as nat;
        assert(hex_value(hex_digit(hi)) == hi);
        assert(hex_value(hex_digit(lo)) == lo);
        assert forall|i: int| 0 <= i < bytes.len() implies hex_value(hex_lower(bytes)[2 * i]) * 16
            + hex_value(hex_lower(bytes)[2 * i + 1]) == #[trigger] bytes[i] by {
            if i < init.len() {
                assert(bytes[i] == init[i]);
                assert(hex_lower(bytes)[2 * i] == hex_lower(init)[2 * i]);
                assert(hex_lower(bytes)[2 * i + 1] == hex_lower(init)[2 * i + 1]);
            } else {
                assert(hex_lower(bytes)[2 * i] == hex_digit(hi));
                assert(hex_lower(bytes)[2 * i + 1] == hex_digit(lo));
            }
        }
    }
}

fn hex_char(d: u8) -> (c: char)
    requires
        d < 16,
    ensures
        c == hex_digit(d as nat),
{
    if d < 10 {
        digit(d as u64)
    } else if d == 10 {
        'a'
    } else if d == 11 {
        'b'
    } else if d == 12 {
        'c'
    } else if d == 13 {
        'd'
    } else if d == 14 {
        'e'
    } else {
        'f'
    }
}

/// The key under which anonymous activity from an address is counted: the
/// lower-case hexadecimal SHA-256 of the address text (64 characters).
pub fn hash_ip(ip: &str) -> (r: String)
    ensures
        r@ == hex_lower(spec_sha256(encode_utf8(ip@))),
        r@.len() == 64,
{
    let digest = sha256(ip.as_bytes());
    let mut r = String::new();
    let mut i: usize = 0;
    while i < digest.len()
        invariant
            i <= digest.len(),
            digest@.len() == 32,
            r@ == hex_lower(digest@.take(i as int)),
            r@.len() == 2 * i,
        decreases digest.len() - i,
    {
        let b = digest[i];
        assert(digest@.take(i + 1).drop_last() == digest@.take(i as int));
        push_char(&mut r, hex_char(b / 16));
        push_char(&mut r, hex_char(b % 16));
        i = i + 1;
    }
    assert(digest@.take(32) == digest@);
    r
}

/// The JSON body of the request that trades an OAuth code for an access token:
/// an object with the keys in sorted order and no white space.
pub open spec fn github_token_body(client_id: Seq<char>, client_secret: Seq<char>, code: Seq<char>) -> Seq<
    char,
> {
    "{\"client_id\":"@ + spec_json_quote(client_id) + ",\"client_secret\":"@ + spec_json_quote(
        client_secret,
    ) + ",\"code\":"@ + spec_json_quote(code) + "}"@
}

/// Writes the body of the GitHub access-token request.
pub fn github_token_request_body(client_id: &str, client_secret: &str, code: &str) -> (r: String)
    ensures
        r@ == github_token_body(client_id@, client_secret@, code@),
{
    let mut s = String::from_str("{\"client_id\":");
    push_str(&mut s, json_quote(client_id).as_str());
    push_str(&mut s, ",\"client_secret\":");
    push_str(&mut s, json_quote(client_secret).as_str());
    push_str(&mut s, ",\"code\":");
    push_str(&mut s, json_quote(code).as_str());
    push_str(&mut s, "}");
    s
}

/// The JSON body of a Turnstile verification request (keys in sorted order).
pub open spec fn turnstile_body(token: Seq<char>, secret_key: Seq<char>) -> Seq<char> {
    "{\"response\":"@ + spec_json_quote(token) + ",\"secret\":"@ + spec_json_quote(secret_key)
        + "}"@
}

/// Writes the body of the Turnstile verification request.
pub fn turnstile_request_body(token: &str, secret_key: &str) -> (r: String)
    ensures
        r@ == turnstile_body(token@, secret_key@),
{
    let mut s = String::from_str("{\"response\":");
    push_str(&mut s, json_quote(token).as_str());
    push_str(&mut s, ",\"secret\":");
    push_str(&mut s, json_quote(secret_key).as_str());
    push_str(&mut s, "}");
    s
}

/// The `Authorization` header value that presents an access token.
pub fn bearer_authorization(access_token: &str) -> (r: String)
    ensures
        r@ == "Bearer "@ + access_token@,
{
    let mut s = String::from_str("Bearer ");
    push_str(&mut s, access_token);
    s
}

/// The access token of GitHub's answer, which must carry one as a string.
pub fn github_access_token(access_token: Option<String>) -> (r: Result<String, ApiError>)
    ensures
        match access_token {
            Some(t) => r == Ok::<String, ApiError>(t),
            None => r matches Err(ApiError::OAuth(m)) && m@
                == "Failed to get access_token from GitHub"@,
        },
{
    match access_token {
        Some(t) => Ok(t),
        None => Err(ApiError::OAuth(String::from_str("Failed to get access_token from GitHub"))),
    }
}

/// The GitHub identity `(id, login, avatar_url)` of a user record, which must
/// carry a numeric id and a login; the avatar is optional.
pub fn github_identity(id: Option<i64>, login: Option<String>, avatar_url: Option<String>) -> (r:
    Result<(i64, String, Option<String>), ApiError>)
    ensures
        match (id, login) {
            (Some(i), Some(l)) => r == Ok::<(i64, String, Option<String>), ApiError>(
                (i, l, avatar_url),
            ),
            (None, _) => r matches Err(ApiError::OAuth(m)) && m@ == "Failed to get github id"@,
            (Some(_), None) => r matches Err(ApiError::OAuth(m)) && m@
                == "Failed to get github login"@,
        },
{
    let i = match id {
        Some(i) => i,
        None => return Err(ApiError::OAuth(String::from_str("Failed to get github id"))),
    };
    let l = match login {
        Some(l) => l,
        None => return Err(ApiError::OAuth(String::from_str("Failed to get github login"))),
    };
    Ok((i, l, avatar_url))
}

/// Whether Turnstile accepted the token: its `success` flag, false when absent.
pub fn turnstile_passed(success: Option<bool>) -> (r: bool)
    ensures
        r == (success == Some(true)),
{
    match success {
        Some(b) => b,
        None => false,
    }
}

/// Where a GitHub code exchange stands.
pub enum ExchangeState {
    /// Nothing has been asked yet.
    Start,
    /// Waiting for GitHub's answer to the token request.
    AwaitingToken,
    /// Waiting for GitHub's answer to the user request.
    AwaitingUser,
    /// Finished.
    Done,
}

/// What GitHub answered to the last request of an exchange.
pub enum ExchangeEvent {
    /// The exchange was asked for.
    Begin,
    /// The `access_token` string of the token answer, if it holds one.
    TokenAnswered(Option<String>),
    /// The `id` number, `login` string and `avatar_url` string of the user
    /// answer, where present.
    UserAnswered { id: Option<i64>, login: Option<String>, avatar_url: Option<String> },
}

/// What a GitHub code exchange does next.
pub enum ExchangeAction {
    /// POST this JSON body to GitHub's access-token endpoint.
    RequestToken { body: String },
    /// GET the signed-in user's record with this `Authorization` value.
    RequestUser { authorization: String },
    /// The exchange's outcome: `(github_id, login, avatar_url)`.
    Finish(Result<(i64, String, Option<String>), ApiError>),
}

/// The events each exchange state waits for.
pub open spec fn exchange_accepts(s: ExchangeState, e: ExchangeEvent) -> bool {
    match s {
        ExchangeState::Start => e is Begin,
        ExchangeState::AwaitingToken => e is TokenAnswered,
        ExchangeState::AwaitingUser => e is UserAnswered,
        ExchangeState::Done => false,
    }
}

/// One step of trading an OAuth code for the GitHub identity of its user:
/// first the code is sent for an access token; an answer without one fails
/// the exchange; with one, the user's record is asked for with that token as
/// bearer; the record must carry a numeric id and a login.
pub open spec fn exchange_transition(
    code: Seq<char>,
    client_id: Seq<char>,
    client_secret: Seq<char>,
    s: ExchangeState,
    e: ExchangeEvent,
    s2: ExchangeState,
    a: ExchangeAction,
) -> bool {
    match s {
        ExchangeState::Start => {
            &&& s2 == ExchangeState::AwaitingToken
            &&& a matches ExchangeAction::RequestToken { body }
            &&& body@ == github_token_body(client_id, client_secret, code)
        },
        ExchangeState::AwaitingToken => match e {
            ExchangeEvent::TokenAnswered(None) => {
                &&& s2 == ExchangeState::Done
                &&& a matches ExchangeAction::Finish(Err(ApiError::OAuth(m)))
                &&& m@ == "Failed to get access_token from GitHub"@
            },
            ExchangeEvent::TokenAnswered(Some(t)) => {
                &&& s2 == ExchangeState::AwaitingUser
                &&& a matches ExchangeAction::RequestUser { authorization }
                &&& authorization@ == "Bearer "@ + t@
            },
            _ => false,
        },
        ExchangeState::AwaitingUser => match e {
            ExchangeEvent::UserAnswered { id, login, avatar_url } => s2 == ExchangeState::Done
                && match (id, login) {
                (Some(i), Some(l)) => a == ExchangeAction::Finish(
                    Ok::<(i64, String, Option<String>), ApiError>((i, l, avatar_url)),
                ),
                (None, _) => a matches ExchangeAction::Finish(Err(ApiError::OAuth(m))) && m@
                    == "Failed to get github id"@,
                (Some(_), None) => a matches ExchangeAction::Finish(Err(ApiError::OAuth(m)))
                    && m@ == "Failed to get github login"@,
            },
            _ => false,
        },
        ExchangeState::Done => false,
    }
}

/// Takes one step of a GitHub code exchange (see `exchange_transition`).
pub fn exchange_github_code(
    code: &str,
    client_id: &str,
    client_secret: &str,
    state: ExchangeState,
    event: ExchangeEvent,
) -> (r: (ExchangeState, ExchangeAction))
    requires
        exchange_accepts(state, event),
    ensures
        exchange_transition(code@, client_id@, client_secret@, state, event, r.0, r.1),
{
    match state {
        ExchangeState::Start => (
            ExchangeState::AwaitingToken,
            ExchangeAction::RequestToken {
                body: github_token_request_body(client_id, client_secret, code),
            },
        ),
        ExchangeState::AwaitingToken => match event {
            ExchangeEvent::TokenAnswered(answer) => match github_access_token(answer) {
                Err(e) => (ExchangeState::Done, ExchangeAction::Finish(Err(e))),
                Ok(t) => (
                    ExchangeState::AwaitingUser,
                    ExchangeAction::RequestUser { authorization: bearer_authorization(t.as_str()) },
                ),
            },
            _ => unreached(),
        },
        ExchangeState::AwaitingUser => match event {
            ExchangeEvent::UserAnswered { id, login, avatar_url } => (
                ExchangeState::Done,
                ExchangeAction::Finish(github_identity(id, login, avatar_url)),
            ),
            _ => unreached(),
        },
        ExchangeState::Done => unreached(),
    }
}

/// A run of exchange steps: each state accepts its event and steps, with the
/// action beside it, to the next state.
pub open spec fn is_exchange_run(
    code: Seq<char>,
    client_id: Seq<char>,
    client_secret: Seq<char>,
    states: Seq<ExchangeState>,
    events: Seq<ExchangeEvent>,
    actions: Seq<ExchangeAction>,
) -> bool {
    &&& states.len() == events.len() + 1
    &&& actions.len() == events.len()
    &&& forall|i: int|
        #![trigger events[i]]
        0 <= i < events.len() ==> exchange_accepts(states[i], events[i]) && exchange_transition(
            code,
            client_id,
            client_secret,
            states[i],
            events[i],
            states[i + 1],
            actions[i],
        )
}

/// GitHub's user endpoint is asked for only at the second step, with the
/// access token that the answer to the first request (which carried the code
/// and the client's credentials) held, presented as a bearer token.
pub proof fn user_is_asked_with_the_access_token(
    code: Seq<char>,
    client_id: Seq<char>,
    client_secret: Seq<char>,
    states: Seq<ExchangeState>,
    events: Seq<ExchangeEvent>,
    actions: Seq<ExchangeAction>,
    i: int,
)
    requires
        is_exchange_run(code, client_id, client_secret, states, events, actions),
        states[0] == ExchangeState::Start,
        0 <= i < actions.len(),
        actions[i] is RequestUser,
    ensures
        i == 1,
        actions[0] matches ExchangeAction::RequestToken { body } && body@ == github_token_body(
            client_id,
            client_secret,
            code,
        ),
        events[1] matches ExchangeEvent::TokenAnswered(Some(t)) && actions[1] matches
            ExchangeAction::RequestUser { authorization } && authorization@ == "Bearer "@ + t@,
{
    assert(exchange_accepts(states[i], events[i]) && exchange_transition(
        code,
        client_id,
        client_secret,
        states[i],
        events[i],
        states[i + 1],
        actions[i],
    ));
    assert(states[i] is AwaitingToken);
    assert(i != 0);
    let j = i - 1;
    assert(exchange_accepts(states[j], events[j]) && exchange_transition(
        code,
        client_id,
        client_secret,
        states[j],
        events[j],
        states[j + 1],
        actions[j],
    ));
    if j > 0 {
        let h = j - 1;
        assert(exchange_accepts(states[h], events[h]) && exchange_transition(
            code,
            client_id,
            client_secret,
            states[h],
            events[h],
            states[h + 1],
            actions[h],
        ));
    }
    assert(exchange_accepts(states[0], events[0]));
}

} // verus!
