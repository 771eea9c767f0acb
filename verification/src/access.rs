//! Who is calling: the session token a request presents, the sign-in flows
//! that hand tokens out, and the quota of anonymous callers.
use vstd::prelude::*;
use crate::auth::{
    anonymous_claims_text, create_anonymous_jwt, create_oauth_jwt, hash_ip, hex_lower, jwt_accepts,
    oauth_claims_text, signed_token,
};
use crate::crypto::spec_sha256;
use crate::error::ApiError;
use crate::models::{AuthResponse, JwtClaims, UserInfo, UserRow};
use crate::crypto::new_record_id;
use crate::text::{
    push_str, seq_starts_with, spec_trim, strip_prefixes, strip_trailing, trim, trim_end_char,
    trim_start_matches,
};
use vstd::utf8::encode_utf8;

verus! {

/// The session token a request presents, and how it presents it.
pub enum TokenSource {
    /// `Authorization: Bearer <token>`.
    Bearer(String),
    /// `X-Anonymous-Token: <token>`.
    Anonymous(String),
}

impl TokenSource {
    /// The token itself.
    pub fn token(&self) -> (t: &String)
        ensures
            t == match self {
                TokenSource::Bearer(t) => t,
                TokenSource::Anonymous(t) => t,
            },
    {
        match self {
            TokenSource::Bearer(t) => t,
            TokenSource::Anonymous(t) => t,
        }
    }
}

/// An `Authorization` value that announces a bearer token.
pub open spec fn is_bearer(authorization: Option<String>) -> bool {
    authorization matches Some(a) && seq_starts_with(a@, "Bearer "@)
}

/// The token of a bearer `Authorization` value: every leading `Bearer `
/// removed, then surrounding white space.
pub open spec fn bearer_token(authorization: Seq<char>) -> Seq<char> {
    spec_trim(strip_prefixes(authorization, "Bearer "@))
}

/// Picks the token a request presents. `authorization` and `anonymous` are the
/// `Authorization` and `X-Anonymous-Token` header values, where present and
/// readable as text. A bearer `Authorization` wins; otherwise the anonymous
/// token is taken; with neither the request is unauthorized.
pub fn token_source(authorization: &Option<String>, anonymous: &Option<String>) -> (r: Result<
    TokenSource,
    ApiError,
>)
    ensures
        is_bearer(*authorization) ==> (r matches Ok(TokenSource::Bearer(t)) && t@ == bearer_token(
            authorization->0@,
        )),
        !is_bearer(*authorization) ==> match anonymous {
            Some(x) => r matches Ok(TokenSource::Anonymous(t)) && t@ == x@,
            None => r matches Err(ApiError::Unauthorized(m)) && m@ == "Authentication required"@,
        },
{
    if let Some(a) = authorization {
        let a_chars = crate::text::chars_of(a.as_str());
        let prefix = crate::text::chars_of("Bearer ");
        if crate::text::starts_with_chars(&a_chars, &prefix) {
            let stripped = trim_start_matches(a.as_str(), "Bearer ");
            let token = trim(stripped.as_str());
            return Ok(TokenSource::Bearer(token));
        }
    }
    match anonymous {
        Some(x) => Ok(TokenSource::Anonymous(x.clone())),
        None => Err(ApiError::Unauthorized(String::from_str("Authentication required"))),
    }
}

/// Who made an authenticated request: `(submitter_type, user_id, ip_hash)`.
pub type Submitter = (String, Option<String>, Option<String>);

/// What the claims of a verified token make of the caller. A bearer token
/// gives its own submitter type, its subject as user id and its address hash;
/// an anonymous token must be of type `anonymous` and gives its subject as the
/// address hash. A token that failed verification makes the request
/// unauthorized, whatever the reason.
pub fn extract_auth(source: &TokenSource, verified: Result<JwtClaims, ApiError>) -> (r: Result<
    Submitter,
    ApiError,
>)
    ensures
        match source {
            TokenSource::Bearer(_) => match verified {
                Ok(c) => r matches Ok(s) && s.0 == c.submitter_type && s.1 == Some(c.sub) && s.2
                    == c.ip_hash,
                Err(_) => r matches Err(ApiError::Unauthorized(m)) && m@ == "Invalid JWT token"@,
            },
            TokenSource::Anonymous(_) => match verified {
                Ok(c) => if c.submitter_type@ == "anonymous"@ {
                    r matches Ok(s) && s.0@ == "anonymous"@ && s.1 is None && s.2 == Some(c.sub)
                } else {
                    r matches Err(ApiError::Unauthorized(m)) && m@ == "Invalid anonymous token"@
                },
                Err(_) => r matches Err(ApiError::Unauthorized(m)) && m@
                    == "Invalid anonymous token"@,
            },
        },
{
    match source {
        TokenSource::Bearer(_) => match verified {
            Ok(c) => Ok((c.submitter_type, Some(c.sub), c.ip_hash)),
            Err(_) => Err(ApiError::Unauthorized(String::from_str("Invalid JWT token"))),
        },
        TokenSource::Anonymous(_) => match verified {
            Ok(c) => {
                let anonymous = String::from_str("anonymous");
                if c.submitter_type != anonymous {
                    return Err(ApiError::Unauthorized(String::from_str("Invalid anonymous token")));
                }
                Ok((anonymous, None, Some(c.sub)))
            },
            Err(_) => Err(ApiError::Unauthorized(String::from_str("Invalid anonymous token"))),
        },
    }
}

/// Where GitHub sends the user back when nothing else is configured.
pub open spec fn default_redirect() -> Seq<char> {
    "http://localhost:5173/auth/callback"@
}

/// The callback address: the configured one, else the front end's address
/// (without trailing slashes) followed by `/auth/callback`, else the local
/// development address.
pub open spec fn redirect_target(configured: Option<String>, frontend_url: Option<String>) -> Seq<
    char,
> {
    match configured {
        Some(r) => r@,
        None => match frontend_url {
            Some(f) => strip_trailing(f@, '/') + "/auth/callback"@,
            None => default_redirect(),
        },
    }
}

/// The GitHub authorization address a sign-in is redirected to.
pub open spec fn authorize_url(client_id: Seq<char>, redirect: Seq<char>) -> Seq<char> {
    "https://github.com/login/oauth/authorize?client_id="@ + client_id + "&redirect_uri="@
        + redirect + "&scope=read:user"@
}

/// The status of the sign-in redirect: 302 (found).
pub const LOGIN_REDIRECT_STATUS: u16 = 302;

/// Where `GET /api/auth/github/login` redirects to. `client_id` is the lookup
/// of `GITHUB_CLIENT_ID`; `redirect_uri` that of `GITHUB_REDIRECT_URI`, and
/// `frontend_url` that of `FRONTEND_URL`, where they are configured. Without a
/// client id the sign-in fails with an OAuth error.
pub fn github_login(
    client_id: Result<String, ApiError>,
    redirect_uri: Option<String>,
    frontend_url: Option<String>,
) -> (r: Result<String, ApiError>)
    ensures
        match client_id {
            Ok(id) => r matches Ok(u) && u@ == authorize_url(
                id@,
                redirect_target(redirect_uri, frontend_url),
            ),
            Err(_) => r matches Err(ApiError::OAuth(m)) && m@ == "GITHUB_CLIENT_ID not configured"@,
        },
{
    let id = match client_id {
        Ok(id) => id,
        Err(_) => return Err(ApiError::OAuth(String::from_str("GITHUB_CLIENT_ID not configured"))),
    };
    let redirect = match redirect_uri {
        Some(r) => r,
        None => match frontend_url {
            Some(f) => {
                let mut s = trim_end_char(f.as_str(), '/');
                push_str(&mut s, "/auth/callback");
                s
            },
            None => String::from_str("http://localhost:5173/auth/callback"),
        },
    };
    let mut url = String::from_str("https://github.com/login/oauth/authorize?client_id=");
    push_str(&mut url, id.as_str());
    push_str(&mut url, "&redirect_uri=");
    push_str(&mut url, redirect.as_str());
    push_str(&mut url, "&scope=read:user");
    Ok(url)
}

/// The account a GitHub sign-in lands on.
pub enum UserLookup {
    /// The account already linked to the GitHub id.
    Existing(UserRow),
    /// A new account to be stored before the token is issued.
    Create(UserRow),
}

/// The account of a GitHub identity: the stored one where there is one, else a
/// new account with a fresh id, the GitHub id, login and avatar.
pub fn resolve_github_user(
    existing: Option<UserRow>,
    github_id: i64,
    login: String,
    avatar_url: Option<String>,
) -> (r: UserLookup)
    ensures
        match existing {
            Some(u) => r == UserLookup::Existing(u),
            None => r matches UserLookup::Create(u) && u.github_id == Some(github_id) && u.login
                == login && u.avatar_url == avatar_url,
        },
{
    match existing {
        Some(u) => UserLookup::Existing(u),
        None => {
            let id = new_record_id();
            UserLookup::Create(UserRow { id, github_id: Some(github_id), login, avatar_url })
        },
    }
}

/// The answer of a GitHub sign-in for an account: a 30-day session token for
/// its id and login under `jwt_secret`, and its public profile.
pub fn github_callback(user: UserRow, jwt_secret: &str) -> (r: Result<AuthResponse, ApiError>)
    ensures
        r matches Ok(resp) && resp.user == Some(
            UserInfo { id: user.id, login: user.login, avatar_url: user.avatar_url },
        ) && exists|now: nat|
            #![trigger oauth_claims_text(user.id@, user.login@, now)]
            now <= u64::MAX / 1000 && resp.token@ == signed_token(
                oauth_claims_text(user.id@, user.login@, now),
                jwt_secret@,
            ) && jwt_accepts(resp.token@, jwt_secret@, oauth_claims_text(user.id@, user.login@, now)),
{
    let token = create_oauth_jwt(user.id.as_str(), user.login.as_str(), jwt_secret);
    match token {
        Ok(t) => Ok(
            AuthResponse {
                token: t,
                user: Some(UserInfo { id: user.id, login: user.login, avatar_url: user.avatar_url }),
            },
        ),
        Err(e) => Err(e),
    }
}

/// Rejects an anonymous sign-in whose Turnstile challenge failed.
pub fn check_turnstile(verified: bool) -> (r: Result<(), ApiError>)
    ensures
        verified <==> r is Ok,
        r matches Err(e) ==> e matches ApiError::BadRequest(m) && m@
            == "Turnstile verification failed"@,
{
    if !verified {
        return Err(ApiError::BadRequest(String::from_str("Turnstile verification failed")));
    }
    Ok(())
}

/// The address a request came from: the `CF-Connecting-IP` header, or
/// `0.0.0.0` when it is missing or unreadable.
pub open spec fn client_ip(header: Option<String>) -> Seq<char> {
    match header {
        Some(ip) => ip@,
        None => "0.0.0.0"@,
    }
}

/// The hashed address under which an anonymous caller is counted.
pub fn anonymous_key(connecting_ip: &Option<String>) -> (r: String)
    ensures
        r@ == hex_lower(spec_sha256(encode_utf8(client_ip(*connecting_ip)))),
{
    match connecting_ip {
        Some(ip) => hash_ip(ip.as_str()),
        None => hash_ip("0.0.0.0"),
    }
}

/// How many submissions one address may make within a day before it must
/// sign in.
pub const ANONYMOUS_DAILY_LIMIT: u32 = 10;

/// Refuses an anonymous session to an address that has made
/// `ANONYMOUS_DAILY_LIMIT` or more anonymous submissions in the last 24 hours.
pub fn check_ip_quota(submissions_last_day: u32) -> (r: Result<(), ApiError>)
    ensures
        r is Ok <==> submissions_last_day < ANONYMOUS_DAILY_LIMIT,
        r matches Err(e) ==> e matches ApiError::RateLimited(m) && m@
            == "Too many submissions from this IP. Please try again later or log in with GitHub."@,
{
    if submissions_last_day >= ANONYMOUS_DAILY_LIMIT {
        return Err(
            ApiError::RateLimited(
                String::from_str(
                    "Too many submissions from this IP. Please try again later or log in with GitHub.",
                ),
            ),
        );
    }
    Ok(())
}

/// `resp` is an anonymous session for the address hash under `jwt_secret`: a
/// 24-hour token issued at some time, and no profile.
pub open spec fn is_anonymous_session(resp: AuthResponse, ip_hash: Seq<char>, jwt_secret: Seq<char>) -> bool {
    resp.user is None && exists|now: nat|
        #![trigger anonymous_claims_text(ip_hash, now)]
        now <= u64::MAX / 1000 && resp.token@ == signed_token(
            anonymous_claims_text(ip_hash, now),
            jwt_secret,
        ) && jwt_accepts(resp.token@, jwt_secret, anonymous_claims_text(ip_hash, now))
}

/// The answer of an anonymous sign-in that passed its checks: a 24-hour
/// session token for the address hash under `jwt_secret`, and no profile.
pub fn issue_anonymous_session(ip_hash: &str, jwt_secret: &str) -> (r: Result<AuthResponse, ApiError>)
    ensures
        r matches Ok(resp) && is_anonymous_session(resp, ip_hash@, jwt_secret@),
{
    match create_anonymous_jwt(ip_hash, jwt_secret) {
        Ok(t) => Ok(AuthResponse { token: t, user: None }),
        Err(e) => Err(e),
    }
}

/// Where an anonymous sign-in stands.
pub enum SignInState {
    /// Nothing has been checked yet.
    Start,
    /// Waiting for Turnstile's verdict on the challenge token.
    CheckingTurnstile,
    /// Waiting for the count of the address's recent anonymous submissions.
    Counting { ip_hash: String },
    /// Waiting for the signing secret.
    LoadingSecret { ip_hash: String },
    /// Answered.
    Done,
}

/// What came back from the last action of a sign-in.
pub enum SignInEvent {
    /// The request arrived.
    Begin,
    /// Whether Turnstile accepted the challenge token.
    TurnstileChecked(bool),
    /// The address's anonymous submissions within the window.
    Counted(u32),
    /// The signing secret, or why it could not be read.
    SecretLoaded(Result<String, ApiError>),
}

/// What an anonymous sign-in does next.
pub enum SignInAction {
    /// Ask Turnstile to verify the request's challenge token.
    VerifyTurnstile,
    /// Count the anonymous submissions from the address hash within the last
    /// `hours` hours.
    CountAnonymousForAddress { ip_hash: String, hours: u32 },
    /// Read the signing secret.
    LoadJwtSecret,
    /// Answer the request.
    Respond(Result<AuthResponse, ApiError>),
}

/// The window the daily quota is counted over, in hours.
pub const QUOTA_WINDOW_HOURS: u32 = 24;

/// The events each sign-in state waits for.
pub open spec fn sign_in_accepts(s: SignInState, e: SignInEvent) -> bool {
    match s {
        SignInState::Start => e is Begin,
        SignInState::CheckingTurnstile => e is TurnstileChecked,
        SignInState::Counting { .. } => e is Counted,
        SignInState::LoadingSecret { .. } => e is SecretLoaded,
        SignInState::Done => false,
    }
}

/// One step of an anonymous sign-in, for a request that came from
/// `connecting_ip` (the `CF-Connecting-IP` header, where readable). The
/// Turnstile challenge must pass; then the address is hashed and its anonymous
/// submissions of the last 24 hours counted, and `ANONYMOUS_DAILY_LIMIT` or
/// more refuse the sign-in; then a session is issued under the secret.
pub open spec fn sign_in_transition(
    connecting_ip: Option<String>,
    s: SignInState,
    e: SignInEvent,
    s2: SignInState,
    a: SignInAction,
) -> bool {
    match s {
        SignInState::Start => s2 == SignInState::CheckingTurnstile && a
            == SignInAction::VerifyTurnstile,
        SignInState::CheckingTurnstile => match e {
            SignInEvent::TurnstileChecked(true) => {
                &&& s2 matches SignInState::Counting { ip_hash }
                &&& ip_hash@ == hex_lower(spec_sha256(encode_utf8(client_ip(connecting_ip))))
                &&& a == SignInAction::CountAnonymousForAddress { ip_hash, hours: QUOTA_WINDOW_HOURS }
            },
            SignInEvent::TurnstileChecked(false) => {
                &&& s2 == SignInState::Done
                &&& a matches SignInAction::Respond(Err(ApiError::BadRequest(m)))
                &&& m@ == "Turnstile verification failed"@
            },
            _ => false,
        },
        SignInState::Counting { ip_hash } => match e {
            SignInEvent::Counted(n) => if n >= ANONYMOUS_DAILY_LIMIT {
                &&& s2 == SignInState::Done
                &&& a matches SignInAction::Respond(Err(ApiError::RateLimited(m)))
                &&& m@
                    == "Too many submissions from this IP. Please try again later or log in with GitHub."@
            } else {
                s2 == SignInState::LoadingSecret { ip_hash } && a == SignInAction::LoadJwtSecret
            },
            _ => false,
        },
        SignInState::LoadingSecret { ip_hash } => match e {
            SignInEvent::SecretLoaded(Err(err)) => s2 == SignInState::Done && a
                == SignInAction::Respond(Err(err)),
            SignInEvent::SecretLoaded(Ok(secret)) => {
                &&& s2 == SignInState::Done
                &&& a matches SignInAction::Respond(Ok(resp))
                &&& is_anonymous_session(resp, ip_hash@, secret@)
            },
            _ => false,
        },
        SignInState::Done => false,
    }
}

/// Takes one step of an anonymous sign-in (see `sign_in_transition`).
pub fn anonymous_auth(connecting_ip: &Option<String>, state: SignInState, event: SignInEvent) -> (r: (
    SignInState,
    SignInAction,
))
    requires
        sign_in_accepts(state, event),
    ensures
        sign_in_transition(*connecting_ip, state, event, r.0, r.1),
{
    match state {
        SignInState::Start => (SignInState::CheckingTurnstile, SignInAction::VerifyTurnstile),
        SignInState::CheckingTurnstile => match event {
            SignInEvent::TurnstileChecked(verified) => match check_turnstile(verified) {
                Err(e) => (SignInState::Done, SignInAction::Respond(Err(e))),
                Ok(()) => {
                    let ip_hash = anonymous_key(connecting_ip);
                    let action = SignInAction::CountAnonymousForAddress {
                        ip_hash: ip_hash.clone(),
                        hours: QUOTA_WINDOW_HOURS,
                    };
                    (SignInState::Counting { ip_hash }, action)
                },
            },
            _ => unreached(),
        },
        SignInState::Counting { ip_hash } => match event {
            SignInEvent::Counted(n) => match check_ip_quota(n) {
                Err(e) => (SignInState::Done, SignInAction::Respond(Err(e))),
                Ok(()) => (SignInState::LoadingSecret { ip_hash }, SignInAction::LoadJwtSecret),
            },
            _ => unreached(),
        },
        SignInState::LoadingSecret { ip_hash } => match event {
            SignInEvent::SecretLoaded(Err(err)) => (SignInState::Done, SignInAction::Respond(Err(err))),
            SignInEvent::SecretLoaded(Ok(secret)) => {
                let answer = issue_anonymous_session(ip_hash.as_str(), secret.as_str());
                (SignInState::Done, SignInAction::Respond(answer))
            },
            _ => unreached(),
        },
        SignInState::Done => unreached(),
    }
}

/// A run of sign-in steps: each state accepts its event and steps, with the
/// action beside it, to the next state.
pub open spec fn is_sign_in_run(
    connecting_ip: Option<String>,
    states: Seq<SignInState>,
    events: Seq<SignInEvent>,
    actions: Seq<SignInAction>,
) -> bool {
    &&& states.len() == events.len() + 1
    &&& actions.len() == events.len()
    &&& forall|i: int|
        #![trigger events[i]]
        0 <= i < events.len() ==> sign_in_accepts(states[i], events[i]) && sign_in_transition(
            connecting_ip,
            states[i],
            events[i],
            states[i + 1],
            actions[i],
        )
}

/// An anonymous sign-in issues a session only after Turnstile accepted the
/// challenge and the address had fewer than `ANONYMOUS_DAILY_LIMIT` recent
/// anonymous submissions, and the session is for that address's hash.
pub proof fn session_needs_turnstile_and_quota(
    connecting_ip: Option<String>,
    states: Seq<SignInState>,
    events: Seq<SignInEvent>,
    actions: Seq<SignInAction>,
    i: int,
)
    requires
        is_sign_in_run(connecting_ip, states, events, actions),
        states[0] == SignInState::Start,
        0 <= i < actions.len(),
        actions[i] matches SignInAction::Respond(Ok(_)),
    ensures
        i >= 2,
        events[i - 2] == SignInEvent::TurnstileChecked(true),
        events[i - 1] matches SignInEvent::Counted(n) && n < ANONYMOUS_DAILY_LIMIT,
        actions[i] matches SignInAction::Respond(Ok(resp)) && exists|secret: String|
            is_anonymous_session(resp, hex_lower(spec_sha256(encode_utf8(client_ip(connecting_ip)))), secret@),
{
    assert(sign_in_accepts(states[i], events[i]) && sign_in_transition(
        connecting_ip,
        states[i],
        events[i],
        states[i + 1],
        actions[i],
    ));
    assert(states[i] is LoadingSecret);
    assert(i != 0);
    let j = i - 1;
    assert(sign_in_accepts(states[j], events[j]) && sign_in_transition(
        connecting_ip,
        states[j],
        events[j],
        states[j + 1],
        actions[j],
    ));
    assert(states[j] is Counting);
    assert(j != 0);
    let h = j - 1;
    assert(sign_in_accepts(states[h], events[h]) && sign_in_transition(
        connecting_ip,
        states[h],
        events[h],
        states[h + 1],
        actions[h],
    ));
    let secret = events[i]->SecretLoaded_0->Ok_0;
    assert(states[i]->LoadingSecret_ip_hash == states[j]->Counting_ip_hash);
}

} // verus!
