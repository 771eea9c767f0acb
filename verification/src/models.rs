//! Request, response and row types of the API, as plain values.
use vstd::prelude::*;

verus! {

/// Body of `POST /api/auth/github/callback`.
pub struct GithubCallbackRequest {
    pub code: String,
}

/// Body of `POST /api/auth/anonymous`.
pub struct AnonymousRequest {
    pub turnstile_token: String,
}

/// Public profile of a signed-in user.
pub struct UserInfo {
    pub id: String,
    pub login: String,
    pub avatar_url: Option<String>,
}

/// Answer of both authentication endpoints.
pub struct AuthResponse {
    pub token: String,
    pub user: Option<UserInfo>,
}

/// Claims carried by a session token.
pub struct JwtClaims {
    /// The user id for `oauth` tokens, the IP hash for `anonymous` ones.
    pub sub: String,
    pub login: Option<String>,
    /// `"oauth"` or `"anonymous"`.
    pub submitter_type: String,
    pub ip_hash: Option<String>,
    /// Expiry, in seconds since the epoch.
    pub exp: u64,
    /// Issue time, in seconds since the epoch.
    pub iat: u64,
}

/// Answer of `POST /api/submissions`.
pub struct SubmissionResponse {
    pub id: String,
    pub website_id: String,
    pub website_name: String,
    pub model_id: String,
    pub model_name: String,
}

/// A row of the `users` table.
pub struct UserRow {
    pub id: String,
    pub github_id: Option<i64>,
    pub login: String,
    pub avatar_url: Option<String>,
}

/// A row of the `websites` table; `domains` is a JSON array of strings.
pub struct WebsiteRow {
    pub id: String,
    pub name: String,
    pub domains: String,
}

/// A row of the `models` table; `aliases` is a JSON array of strings.
pub struct ModelRow {
    pub id: String,
    pub name: String,
    pub aliases: String,
}

/// Query string of `GET /api/rankings`.
pub struct RankingsQuery {
    pub website_id: Option<String>,
    pub model_id: Option<String>,
    pub ranking_type: Option<String>,
    pub search: Option<String>,
    pub style: Option<String>,
    pub limit: Option<u32>,
    pub offset: Option<u32>,
}

} // verus!
