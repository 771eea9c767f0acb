# llm_test_api

The back end of a leaderboard for LLM API endpoints, as a Cloudflare Worker:
session tokens (GitHub sign-in and anonymous Turnstile sessions), submission
of test results, rankings of websites and models, and a proxy that lets the
browser reach model endpoints.

- `src/` is the verified library (Verus). Every function there carries a
  contract; the proof functions state the library's laws.
  - `auth`: HS256 session tokens, their claims and expiry, address hashing,
    and the requests made to GitHub and Turnstile.
  - `access`: which token a request presents, what its claims make of the
    caller, the sign-in flows and the anonymous quota.
  - `submit`: `POST /api/submissions` as a state machine, with the laws of
    its runs.
  - `rankings`: candidates, stable ordering, ranks and pages of a listing,
    and the pieces of the detail views.
  - `proxy`: what the proxy forwards and passes back.
  - `store`: query parameters, new rows and the plan of a submission upsert.
  - `config`, `error`, `models`, `text`, `json`, `crypto`: settings, errors,
    plain data types, character-level helpers and the trusted wrappers of the
    outside crates.
- `app/` is the Worker around it: routing, CORS, the D1 queries, the network
  calls, serde types, and the floating-point score arithmetic.
- `tests/` runs the library on concrete values.
