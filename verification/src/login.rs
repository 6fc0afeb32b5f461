//! The steps of an interactive login and of a token refresh that decide what
//! is sent and what is stored: the client registration request and its
//! answer, the choice between a stored and a fresh client, the authorization
//! URL, the token requests, the token response and the records kept.
use vstd::prelude::*;

use crate::config::opt_str;
use crate::fields::{opt_str_field, opt_u64_field, read_opt_str, read_opt_u64, read_req_str, req_str};
use crate::json::{JsonV, JsonValue, entries_view, entry, items_view, jget, jstr, json_array, json_object, json_string};
use crate::oauth::{AuthServerMetadata, Discovery, OAuthError, parsed_url, UrlPartsV};
use crate::text::owned;
use crate::tokens::{OAuthRecord, OAuthRecordV, OAuthStore, still_valid, token_still_valid};

verus! {

// ---------------------------------------------------------------------------
// Dynamic Client Registration (RFC 7591)
// ---------------------------------------------------------------------------

/// The registration request for a native public client with a loopback
/// redirect.
pub open spec fn registration_body_v(redirect_uri: Seq<char>) -> JsonV {
    JsonV::Object(
        seq![
            ("client_name"@, JsonV::Str("Meta-MCP"@)),
            ("redirect_uris"@, JsonV::Array(seq![JsonV::Str(redirect_uri)])),
            ("grant_types"@, JsonV::Array(seq![JsonV::Str("authorization_code"@), JsonV::Str("refresh_token"@)])),
            ("response_types"@, JsonV::Array(seq![JsonV::Str("code"@)])),
            ("token_endpoint_auth_method"@, JsonV::Str("none"@)),
            ("application_type"@, JsonV::Str("native"@)),
        ],
    )
}

pub fn registration_body(redirect_uri: &str) -> (r: JsonValue)
    ensures
        r.jv() == registration_body_v(redirect_uri@),
{
    let mut uris: Vec<JsonValue> = Vec::new();
    uris.push(json_string(redirect_uri));
    assert(items_view(uris@) =~= seq![JsonV::Str(redirect_uri@)]);
    let mut grants: Vec<JsonValue> = Vec::new();
    grants.push(json_string("authorization_code"));
    grants.push(json_string("refresh_token"));
    assert(items_view(grants@) =~= seq![JsonV::Str("authorization_code"@), JsonV::Str("refresh_token"@)]);
    let mut responses: Vec<JsonValue> = Vec::new();
    responses.push(json_string("code"));
    assert(items_view(responses@) =~= seq![JsonV::Str("code"@)]);
    let mut m: Vec<(String, JsonValue)> = Vec::new();
    m.push(entry("client_name", json_string("Meta-MCP")));
    m.push(entry("redirect_uris", json_array(uris)));
    m.push(entry("grant_types", json_array(grants)));
    m.push(entry("response_types", json_array(responses)));
    m.push(entry("token_endpoint_auth_method", json_string("none")));
    m.push(entry("application_type", json_string("native")));
    assert(entries_view(m@) =~= registration_body_v(redirect_uri@)->Object_0);
    json_object(m)
}

/// The client id and secret of a registration response.
pub open spec fn registration_result(v: JsonV) -> Option<(Seq<char>, Option<Seq<char>>)> {
    match jget(v, "client_id"@) {
        Some(JsonV::Str(id)) => Some(
            (
                id,
                match jget(v, "client_secret"@) {
                    Some(x) => jstr(x),
                    None => None,
                },
            ),
        ),
        _ => None,
    }
}

pub fn parse_registration(v: &JsonValue) -> (r: Result<(String, Option<String>), OAuthError>)
    ensures
        match r {
            Ok((id, secret)) => registration_result(v.jv()) == Some((id@, opt_str(secret))),
            Err(e) => registration_result(v.jv()) is None && e is NoClientId,
        },
{
    let client_id = match v.get("client_id") {
        Some(JsonValue::String(c)) => owned(c.as_str()),
        _ => return Err(OAuthError::NoClientId),
    };
    let client_secret = match v.get("client_secret") {
        Some(JsonValue::String(c)) => Some(owned(c.as_str())),
        _ => None,
    };
    Ok((client_id, client_secret))
}

/// How the login gets its OAuth client.
pub enum ClientPlan {
    /// A client id stored by an earlier login, with its secret.
    Reuse(String, Option<String>),
    /// Register a new client at this endpoint.
    Register(String),
}

/// A stored client id is reused when it is not empty; otherwise a client is
/// registered, which needs a registration endpoint.
pub open spec fn client_plan_ok(store: OAuthStore, server_id: Seq<char>, meta: Option<Seq<char>>, r: ClientPlan) -> bool {
    if store.lookup(server_id) matches Some(rec) && rec.client_id.len() > 0 {
        let rec = store.lookup(server_id)->Some_0;
        r matches ClientPlan::Reuse(id, secret) && id@ == rec.client_id && opt_str(secret) == rec.client_secret
    } else {
        r matches ClientPlan::Register(ep) && meta == Some(ep@)
    }
}

pub fn plan_client(store: &OAuthStore, server_id: &str, meta: &AuthServerMetadata) -> (r: Result<ClientPlan, OAuthError>)
    ensures
        match r {
            Ok(p) => client_plan_ok(*store, server_id@, opt_str(meta.registration_endpoint), p),
            Err(e) => e is NoRegistration && meta.registration_endpoint is None && !(
                store.lookup(server_id@) matches Some(rec) && rec.client_id.len() > 0),
        },
{
    match store.get(server_id) {
        Some(rec) => {
            if !rec.client_id.as_str().is_empty() {
                return Ok(ClientPlan::Reuse(owned(rec.client_id.as_str()), crate::config::copy_opt_string(&rec.client_secret)));
            }
        },
        None => {},
    }
    match &meta.registration_endpoint {
        Some(ep) => Ok(ClientPlan::Register(owned(ep.as_str()))),
        None => Err(OAuthError::NoRegistration),
    }
}

// ---------------------------------------------------------------------------
// Authorization request
// ---------------------------------------------------------------------------

pub open spec fn pair_views(v: Seq<(String, String)>) -> Seq<(Seq<char>, Seq<char>)> {
    Seq::new(v.len(), |i: int| (v[i].0@, v[i].1@))
}

fn pair(k: &str, v: &str) -> (r: (String, String))
    ensures
        r.0@ == k@,
        r.1@ == v@,
{
    (owned(k), owned(v))
}

/// The query of the authorization request (code flow with PKCE `S256`).
pub open spec fn authorization_params_v(
    client_id: Seq<char>,
    redirect_uri: Seq<char>,
    challenge: Seq<char>,
    state: Seq<char>,
    resource: Seq<char>,
    scope: Option<Seq<char>>,
) -> Seq<(Seq<char>, Seq<char>)> {
    let base = seq![
        ("response_type"@, "code"@),
        ("client_id"@, client_id),
        ("redirect_uri"@, redirect_uri),
        ("code_challenge"@, challenge),
        ("code_challenge_method"@, "S256"@),
        ("state"@, state),
        ("resource"@, resource),
    ];
    match scope {
        Some(s) => base.push(("scope"@, s)),
        None => base,
    }
}

pub fn authorization_params(
    client_id: &str,
    redirect_uri: &str,
    challenge: &str,
    state: &str,
    resource: &str,
    scope: &Option<String>,
) -> (r: Vec<(String, String)>)
    ensures
        pair_views(r@) == authorization_params_v(client_id@, redirect_uri@, challenge@, state@, resource@, opt_str(*scope)),
{
    let mut v: Vec<(String, String)> = Vec::new();
    v.push(pair("response_type", "code"));
    v.push(pair("client_id", client_id));
    v.push(pair("redirect_uri", redirect_uri));
    v.push(pair("code_challenge", challenge));
    v.push(pair("code_challenge_method", "S256"));
    v.push(pair("state", state));
    v.push(pair("resource", resource));
    match scope {
        Some(s) => {
            v.push(pair("scope", s.as_str()));
        },
        None => {},
    }
    assert(pair_views(v@) =~= authorization_params_v(client_id@, redirect_uri@, challenge@, state@, resource@, opt_str(*scope)));
    v
}

/// What `url::Url::parse_with_params` makes of a base URL and query pairs:
/// the serialized URL with the pairs form-encoded and appended to its
/// query, or the parse error's text.
pub uninterp spec fn url_with_params(base: Seq<char>, pairs: Seq<(Seq<char>, Seq<char>)>) -> Result<Seq<char>, Seq<char>>;

/// `url::Url::parse_with_params(base, pairs)`, serialized; named by
/// `url_with_params`. It parses `base` exactly as `Url::parse` does, so it
/// fails exactly when that does, with the same message.
#[verifier::external_body]
fn build_url(base: &str, pairs: &Vec<(String, String)>) -> (r: Result<String, String>)
    ensures
        match r {
            Ok(u) => url_with_params(base@, pair_views(pairs@)) == Ok::<Seq<char>, Seq<char>>(u@)
                && parsed_url(base@) is Ok,
            Err(e) => url_with_params(base@, pair_views(pairs@)) == Err::<Seq<char>, Seq<char>>(e@)
                && parsed_url(base@) == Err::<UrlPartsV, Seq<char>>(e@),
        },
{
    match url::Url::parse_with_params(base, pairs.iter()) {
        Ok(u) => Ok(u.as_str().to_string()),
        Err(e) => Err(e.to_string()),
    }
}

/// The URL the browser is sent to.
pub fn authorization_url(endpoint: &str, params: &Vec<(String, String)>) -> (r: Result<String, OAuthError>)
    ensures
        match r {
            Ok(u) => url_with_params(endpoint@, pair_views(params@)) == Ok::<Seq<char>, Seq<char>>(u@),
            Err(OAuthError::BadUrl(m)) => parsed_url(endpoint@) == Err::<UrlPartsV, Seq<char>>(m@),
            Err(_) => false,
        },
{
    match build_url(endpoint, params) {
        Ok(u) => Ok(u),
        Err(m) => Err(OAuthError::BadUrl(m)),
    }
}

// ---------------------------------------------------------------------------
// Token requests
// ---------------------------------------------------------------------------

/// The form of the authorization-code exchange.
pub open spec fn code_exchange_params_v(
    code: Seq<char>,
    redirect_uri: Seq<char>,
    client_id: Seq<char>,
    verifier: Seq<char>,
    resource: Seq<char>,
) -> Seq<(Seq<char>, Seq<char>)> {
    seq![
        ("grant_type"@, "authorization_code"@),
        ("code"@, code),
        ("redirect_uri"@, redirect_uri),
        ("client_id"@, client_id),
        ("code_verifier"@, verifier),
        ("resource"@, resource),
    ]
}

pub fn code_exchange_params(code: &str, redirect_uri: &str, client_id: &str, verifier: &str, resource: &str) -> (r: Vec<(String, String)>)
    ensures
        pair_views(r@) == code_exchange_params_v(code@, redirect_uri@, client_id@, verifier@, resource@),
{
    let mut v: Vec<(String, String)> = Vec::new();
    v.push(pair("grant_type", "authorization_code"));
    v.push(pair("code", code));
    v.push(pair("redirect_uri", redirect_uri));
    v.push(pair("client_id", client_id));
    v.push(pair("code_verifier", verifier));
    v.push(pair("resource", resource));
    assert(pair_views(v@) =~= code_exchange_params_v(code@, redirect_uri@, client_id@, verifier@, resource@));
    v
}

/// The form of a refresh.
pub open spec fn refresh_params_v(rec: OAuthRecordV, refresh_token: Seq<char>) -> Seq<(Seq<char>, Seq<char>)> {
    seq![
        ("grant_type"@, "refresh_token"@),
        ("refresh_token"@, refresh_token),
        ("client_id"@, rec.client_id),
        ("resource"@, rec.resource),
    ]
}

pub fn refresh_params(rec: &OAuthRecord, refresh_token: &str) -> (r: Vec<(String, String)>)
    ensures
        pair_views(r@) == refresh_params_v(rec@, refresh_token@),
{
    let mut v: Vec<(String, String)> = Vec::new();
    v.push(pair("grant_type", "refresh_token"));
    v.push(pair("refresh_token", refresh_token));
    v.push(pair("client_id", rec.client_id.as_str()));
    v.push(pair("resource", rec.resource.as_str()));
    assert(pair_views(v@) =~= refresh_params_v(rec@, refresh_token@));
    v
}

/// A token endpoint's answer, the members the flow reads.
pub struct TokenResponse {
    pub access_token: String,
    pub refresh_token: Option<String>,
    pub expires_in: Option<u64>,
    pub scope: Option<String>,
}

/// Read a token response (`None`: malformed).
pub fn parse_token_response(v: &JsonValue) -> (r: Option<TokenResponse>)
    ensures
        match r {
            Some(t) => v.jv() is Object
                && req_str(v.jv(), "access_token"@) == Some(t.access_token@)
                && opt_str_field(v.jv(), "refresh_token"@) == Some(opt_str(t.refresh_token))
                && opt_u64_field(v.jv(), "expires_in"@) == Some(t.expires_in)
                && opt_str_field(v.jv(), "scope"@) == Some(opt_str(t.scope)),
            None => !(v.jv() is Object)
                || req_str(v.jv(), "access_token"@) is None
                || opt_str_field(v.jv(), "refresh_token"@) is None
                || opt_u64_field(v.jv(), "expires_in"@) is None
                || opt_str_field(v.jv(), "scope"@) is None,
        },
{
    if v.as_object().is_none() {
        return None;
    }
    let access_token = match read_req_str(v, "access_token") {
        Some(x) => x,
        None => return None,
    };
    let refresh_token = match read_opt_str(v, "refresh_token") {
        Some(x) => x,
        None => return None,
    };
    let expires_in = match read_opt_u64(v, "expires_in") {
        Some(x) => x,
        None => return None,
    };
    let scope = match read_opt_str(v, "scope") {
        Some(x) => x,
        None => return None,
    };
    Some(TokenResponse { access_token, refresh_token, expires_in, scope })
}

/// When a token issued at `now` for `expires_in` seconds expires.
pub open spec fn expiry(now: u64, expires_in: Option<u64>) -> Option<u64> {
    match expires_in {
        Some(s) => Some((now + s) as u64),
        None => None,
    }
}

/// The expiry fits in a `u64`.
pub open spec fn expiry_fits(now: u64, expires_in: Option<u64>) -> bool {
    match expires_in {
        Some(s) => now + s <= u64::MAX,
        None => true,
    }
}

/// Whether the expiry of a token issued now fits in a `u64`.
pub fn expiry_in_range(now: u64, expires_in: Option<u64>) -> (r: bool)
    ensures
        r == expiry_fits(now, expires_in),
{
    match expires_in {
        Some(s) => s <= u64::MAX - now,
        None => true,
    }
}

fn expiry_exec(now: u64, expires_in: Option<u64>) -> (r: Option<u64>)
    requires
        expiry_fits(now, expires_in),
    ensures
        r == expiry(now, expires_in),
{
    match expires_in {
        Some(s) => Some(now + s),
        None => None,
    }
}

/// The record kept after a login.
pub open spec fn login_record_v(
    disco_resource: Seq<char>,
    disco_scope: Option<Seq<char>>,
    meta: (Seq<char>, Seq<char>, Option<Seq<char>>),
    client_id: Seq<char>,
    client_secret: Option<Seq<char>>,
    tokens: (Seq<char>, Option<Seq<char>>, Option<u64>, Option<Seq<char>>),
    now: u64,
) -> OAuthRecordV {
    OAuthRecordV {
        resource: disco_resource,
        authorization_endpoint: meta.0,
        token_endpoint: meta.1,
        registration_endpoint: meta.2,
        client_id,
        client_secret,
        scope: match tokens.3 {
            Some(s) => Some(s),
            None => disco_scope,
        },
        access_token: tokens.0,
        refresh_token: tokens.1,
        expires_at: expiry(now, tokens.2),
    }
}

pub open spec fn token_parts(t: TokenResponse) -> (Seq<char>, Option<Seq<char>>, Option<u64>, Option<Seq<char>>) {
    (t.access_token@, opt_str(t.refresh_token), t.expires_in, opt_str(t.scope))
}

pub open spec fn meta_parts(m: AuthServerMetadata) -> (Seq<char>, Seq<char>, Option<Seq<char>>) {
    (m.authorization_endpoint@, m.token_endpoint@, opt_str(m.registration_endpoint))
}

/// The record kept after a login: the discovered endpoints, the client, and
/// the tokens, the response's scope preferred to the requested one.
pub fn login_record(disco: Discovery, client_id: String, client_secret: Option<String>, tokens: TokenResponse, now: u64) -> (r: OAuthRecord)
    requires
        expiry_fits(now, tokens.expires_in),
    ensures
        r@ == login_record_v(
            disco.resource@,
            opt_str(disco.scope),
            meta_parts(disco.auth_server),
            client_id@,
            opt_str(client_secret),
            token_parts(tokens),
            now,
        ),
{
    let expires_at = expiry_exec(now, tokens.expires_in);
    let scope = match tokens.scope {
        Some(s) => Some(s),
        None => disco.scope,
    };
    OAuthRecord {
        resource: disco.resource,
        authorization_endpoint: disco.auth_server.authorization_endpoint,
        token_endpoint: disco.auth_server.token_endpoint,
        registration_endpoint: disco.auth_server.registration_endpoint,
        client_id,
        client_secret,
        scope,
        access_token: tokens.access_token,
        refresh_token: tokens.refresh_token,
        expires_at,
    }
}

// ---------------------------------------------------------------------------
// Using and refreshing a stored token
// ---------------------------------------------------------------------------

/// What to do to get an access token for a server.
pub enum TokenPlan {
    /// No record: the user must log in.
    Missing,
    /// The stored token is still good.
    Valid(String),
    /// Expired and nothing to refresh it with: the user must log in again.
    Expired,
    /// Expired: refresh it with this token.
    Refresh { record: OAuthRecord, refresh_token: String },
}

pub open spec fn token_plan_ok(store: OAuthStore, server_id: Seq<char>, now: u64, p: TokenPlan) -> bool {
    match store.lookup(server_id) {
        None => p is Missing,
        Some(rec) => if token_still_valid(rec.expires_at, now) {
            p matches TokenPlan::Valid(t) && t@ == rec.access_token
        } else {
            match rec.refresh_token {
                None => p is Expired,
                Some(rt) => p matches TokenPlan::Refresh { record, refresh_token } && record@ == rec
                    && refresh_token@ == rt,
            }
        },
    }
}

pub fn plan_token(store: &OAuthStore, server_id: &str, now: u64) -> (r: TokenPlan)
    ensures
        token_plan_ok(*store, server_id@, now, r),
{
    let rec = match store.get(server_id) {
        Some(rec) => rec,
        None => return TokenPlan::Missing,
    };
    if still_valid(rec.expires_at, now) {
        return TokenPlan::Valid(owned(rec.access_token.as_str()));
    }
    match &rec.refresh_token {
        None => TokenPlan::Expired,
        Some(rt) => TokenPlan::Refresh { record: rec.duplicate(), refresh_token: owned(rt.as_str()) },
    }
}

/// The record after a refresh: the new access token, the new refresh token
/// when one was sent, and the new expiry.
pub open spec fn refreshed_v(rec: OAuthRecordV, tokens: (Seq<char>, Option<Seq<char>>, Option<u64>, Option<Seq<char>>), now: u64) -> OAuthRecordV {
    OAuthRecordV {
        resource: rec.resource,
        authorization_endpoint: rec.authorization_endpoint,
        token_endpoint: rec.token_endpoint,
        registration_endpoint: rec.registration_endpoint,
        client_id: rec.client_id,
        client_secret: rec.client_secret,
        scope: rec.scope,
        access_token: tokens.0,
        refresh_token: match tokens.1 {
            Some(t) => Some(t),
            None => rec.refresh_token,
        },
        expires_at: expiry(now, tokens.2),
    }
}

pub fn refreshed_record(rec: OAuthRecord, tokens: TokenResponse, now: u64) -> (r: OAuthRecord)
    requires
        expiry_fits(now, tokens.expires_in),
    ensures
        r@ == refreshed_v(rec@, token_parts(tokens), now),
{
    let mut updated = rec;
    updated.access_token = tokens.access_token;
    if tokens.refresh_token.is_some() {
        updated.refresh_token = tokens.refresh_token;
    }
    updated.expires_at = expiry_exec(now, tokens.expires_in);
    updated
}

/// Law: a token just stored (by a login or a refresh) is the one handed out
/// next, as long as the server gave it no lifetime or more than a minute.
pub proof fn lemma_stored_token_is_used(after: OAuthStore, server_id: Seq<char>, rec: OAuthRecordV, now: u64)
    requires
        after.lookup(server_id) == Some(rec),
        rec.expires_at matches Some(e) ==> e > now + 60,
    ensures
        forall|p: TokenPlan| token_plan_ok(after, server_id, now, p) ==> (p matches TokenPlan::Valid(t) && t@ == rec.access_token),
{
}

/// Law: a refresh keeps the login's endpoints, client and scope, and a
/// refresh token the server did not replace.
pub proof fn lemma_refresh_keeps_client(rec: OAuthRecordV, tokens: (Seq<char>, Option<Seq<char>>, Option<u64>, Option<Seq<char>>), now: u64)
    ensures
        refreshed_v(rec, tokens, now).client_id == rec.client_id,
        refreshed_v(rec, tokens, now).client_secret == rec.client_secret,
        refreshed_v(rec, tokens, now).token_endpoint == rec.token_endpoint,
        refreshed_v(rec, tokens, now).resource == rec.resource,
        refreshed_v(rec, tokens, now).scope == rec.scope,
        tokens.1 is None ==> refreshed_v(rec, tokens, now).refresh_token == rec.refresh_token,
        refreshed_v(rec, tokens, now).access_token == tokens.0,
{
}

} // verus!
