use meta_mcp::login::expiry_in_range;
use meta_mcp::json::{JsonNumber, JsonValue};
use meta_mcp::login::{
    authorization_params, authorization_url, code_exchange_params, login_record, parse_registration,
    parse_token_response, plan_client, plan_token, refresh_params, refreshed_record, registration_body,
    ClientPlan, TokenPlan, TokenResponse,
};
use meta_mcp::oauth::{AuthServerMetadata, Discovery, OAuthError};
use meta_mcp::tokens::{OAuthRecord, OAuthStore};

fn s(x: &str) -> String {
    x.to_string()
}

fn obj(members: Vec<(&str, JsonValue)>) -> JsonValue {
    JsonValue::Object(members.into_iter().map(|(k, v)| (k.to_string(), v)).collect())
}

fn text(x: &str) -> JsonValue {
    JsonValue::String(x.to_string())
}

fn record(client_id: &str, expires_at: Option<u64>, refresh: Option<&str>) -> OAuthRecord {
    OAuthRecord {
        resource: s("https://mcp.test/mcp"),
        authorization_endpoint: s("https://auth.test/authorize"),
        token_endpoint: s("https://auth.test/token"),
        registration_endpoint: Some(s("https://auth.test/register")),
        client_id: s(client_id),
        client_secret: Some(s("shh")),
        scope: Some(s("read")),
        access_token: s("old-token"),
        refresh_token: refresh.map(s),
        expires_at,
    }
}

fn meta(registration: Option<&str>) -> AuthServerMetadata {
    AuthServerMetadata {
        authorization_endpoint: s("https://auth.test/authorize"),
        token_endpoint: s("https://auth.test/token"),
        registration_endpoint: registration.map(s),
        scopes_supported: None,
    }
}

#[test]
fn registration_request_shape() {
    let body = registration_body("http://127.0.0.1:3669/callback");
    match &body {
        JsonValue::Object(m) => {
            let keys: Vec<&str> = m.iter().map(|(k, _)| k.as_str()).collect();
            assert_eq!(
                keys,
                vec!["client_name", "redirect_uris", "grant_types", "response_types", "token_endpoint_auth_method", "application_type"]
            );
        }
        _ => panic!("object expected"),
    }
    assert_eq!(body.get("client_name").unwrap().as_str().unwrap(), "Meta-MCP");
    let uris = body.get("redirect_uris").unwrap().as_array().unwrap();
    assert_eq!(uris.len(), 1);
    assert_eq!(uris[0].as_str().unwrap(), "http://127.0.0.1:3669/callback");
    assert_eq!(body.get("grant_types").unwrap().as_array().unwrap().len(), 2);
    assert_eq!(body.get("token_endpoint_auth_method").unwrap().as_str().unwrap(), "none");
    assert_eq!(body.get("application_type").unwrap().as_str().unwrap(), "native");
}

#[test]
fn registration_response_needs_client_id() {
    let ok = parse_registration(&obj(vec![("client_id", text("abc")), ("client_secret", text("xyz"))]));
    match ok {
        Ok((id, secret)) => {
            assert_eq!(id, "abc");
            assert_eq!(secret.as_deref(), Some("xyz"));
        }
        Err(_) => panic!("expected a client"),
    }
    match parse_registration(&obj(vec![("client_id", text("abc")), ("client_secret", JsonValue::Null)])) {
        Ok((_, secret)) => assert!(secret.is_none()),
        Err(_) => panic!("expected a client"),
    }
    match parse_registration(&obj(vec![("client_id", JsonValue::Number(JsonNumber::PosInt(5)))])) {
        Err(e) => assert_eq!(e.message(), "registration response had no client_id"),
        Ok(_) => panic!("expected an error"),
    }
}

#[test]
fn stored_client_is_reused() {
    let mut store = OAuthStore::new();
    store.insert(s("srv"), record("client-1", None, None));
    match plan_client(&store, "srv", &meta(None)) {
        Ok(ClientPlan::Reuse(id, secret)) => {
            assert_eq!(id, "client-1");
            assert_eq!(secret.as_deref(), Some("shh"));
        }
        _ => panic!("expected reuse"),
    }
    store.insert(s("blank"), record("", None, None));
    match plan_client(&store, "blank", &meta(Some("https://auth.test/register"))) {
        Ok(ClientPlan::Register(ep)) => assert_eq!(ep, "https://auth.test/register"),
        _ => panic!("expected registration"),
    }
    match plan_client(&store, "other", &meta(None)) {
        Err(e) => assert!(matches!(e, OAuthError::NoRegistration)),
        Ok(_) => panic!("expected an error"),
    }
}

#[test]
fn authorization_request_query() {
    let params = authorization_params("cid", "http://127.0.0.1:3669/callback", "chal", "st", "https://mcp.test/mcp", &Some(s("read write")));
    let names: Vec<&str> = params.iter().map(|(k, _)| k.as_str()).collect();
    assert_eq!(
        names,
        vec!["response_type", "client_id", "redirect_uri", "code_challenge", "code_challenge_method", "state", "resource", "scope"]
    );
    let url = authorization_url("https://auth.test/authorize?tenant=1", &params).ok().unwrap();
    assert_eq!(
        url,
        "https://auth.test/authorize?tenant=1&response_type=code&client_id=cid&redirect_uri=http%3A%2F%2F127.0.0.1%3A3669%2Fcallback&code_challenge=chal&code_challenge_method=S256&state=st&resource=https%3A%2F%2Fmcp.test%2Fmcp&scope=read+write"
    );
    let no_scope = authorization_params("c", "r", "x", "s", "u", &None);
    assert_eq!(no_scope.len(), 7);
    match authorization_url("relative/path", &no_scope) {
        Err(OAuthError::BadUrl(m)) => assert_eq!(m, "relative URL without a base"),
        _ => panic!("expected a parse error"),
    }
}

#[test]
fn token_request_forms() {
    let p = code_exchange_params("the-code", "http://r", "cid", "ver", "res");
    assert_eq!(
        p,
        vec![
            (s("grant_type"), s("authorization_code")),
            (s("code"), s("the-code")),
            (s("redirect_uri"), s("http://r")),
            (s("client_id"), s("cid")),
            (s("code_verifier"), s("ver")),
            (s("resource"), s("res")),
        ]
    );
    let r = refresh_params(&record("cid", None, Some("rt")), "rt");
    assert_eq!(
        r,
        vec![
            (s("grant_type"), s("refresh_token")),
            (s("refresh_token"), s("rt")),
            (s("client_id"), s("cid")),
            (s("resource"), s("https://mcp.test/mcp")),
        ]
    );
}

#[test]
fn token_response_field_rules() {
    let t = parse_token_response(&obj(vec![
        ("access_token", text("at")),
        ("refresh_token", text("rt")),
        ("expires_in", JsonValue::Number(JsonNumber::PosInt(3600))),
        ("token_type", text("Bearer")),
    ]))
    .unwrap();
    assert_eq!(t.access_token, "at");
    assert_eq!(t.refresh_token.as_deref(), Some("rt"));
    assert_eq!(t.expires_in, Some(3600));
    assert!(t.scope.is_none());
    assert!(parse_token_response(&obj(vec![("refresh_token", text("rt"))])).is_none());
    assert!(parse_token_response(&obj(vec![
        ("access_token", text("at")),
        ("expires_in", JsonValue::Number(JsonNumber::NegInt(-5)))
    ]))
    .is_none());
    assert!(parse_token_response(&obj(vec![
        ("access_token", text("at")),
        ("expires_in", JsonValue::Number(JsonNumber::Float(s("1.5"))))
    ]))
    .is_none());
    let nulls = parse_token_response(&obj(vec![("access_token", text("at")), ("expires_in", JsonValue::Null)])).unwrap();
    assert!(nulls.expires_in.is_none());
}

#[test]
fn login_record_prefers_returned_scope() {
    let disco = Discovery { resource: s("res"), scope: Some(s("asked")), auth_server: meta(Some("reg")) };
    let tokens = TokenResponse { access_token: s("at"), refresh_token: None, expires_in: Some(100), scope: None };
    let r = login_record(disco, s("cid"), None, tokens, 1_000);
    assert_eq!(r.scope.as_deref(), Some("asked"));
    assert_eq!(r.expires_at, Some(1_100));
    assert_eq!(r.registration_endpoint.as_deref(), Some("reg"));
    assert_eq!(r.access_token, "at");
    let disco = Discovery { resource: s("res"), scope: Some(s("asked")), auth_server: meta(None) };
    let tokens = TokenResponse { access_token: s("at"), refresh_token: Some(s("rt")), expires_in: None, scope: Some(s("granted")) };
    let r = login_record(disco, s("cid"), Some(s("sec")), tokens, 1_000);
    assert_eq!(r.scope.as_deref(), Some("granted"));
    assert_eq!(r.expires_at, None);
    assert_eq!(r.client_secret.as_deref(), Some("sec"));
}

#[test]
fn token_plans() {
    let mut store = OAuthStore::new();
    assert!(matches!(plan_token(&store, "srv", 1000), TokenPlan::Missing));
    store.insert(s("srv"), record("c", None, None));
    match plan_token(&store, "srv", 1000) {
        TokenPlan::Valid(t) => assert_eq!(t, "old-token"),
        _ => panic!("no expiry is always valid"),
    }
    store.insert(s("srv"), record("c", Some(1061), None));
    assert!(matches!(plan_token(&store, "srv", 1000), TokenPlan::Valid(_)));
    store.insert(s("srv"), record("c", Some(1060), None));
    assert!(matches!(plan_token(&store, "srv", 1000), TokenPlan::Expired));
    store.insert(s("srv"), record("c", Some(10), Some("rt")));
    match plan_token(&store, "srv", 1000) {
        TokenPlan::Refresh { record, refresh_token } => {
            assert_eq!(refresh_token, "rt");
            assert_eq!(record.client_id, "c");
        }
        _ => panic!("expected a refresh"),
    }
}

#[test]
fn refresh_updates_tokens_only() {
    let rec = record("c", Some(10), Some("rt"));
    let r = refreshed_record(rec, TokenResponse { access_token: s("new"), refresh_token: None, expires_in: Some(60), scope: Some(s("ignored")) }, 500);
    assert_eq!(r.access_token, "new");
    assert_eq!(r.refresh_token.as_deref(), Some("rt"));
    assert_eq!(r.expires_at, Some(560));
    assert_eq!(r.scope.as_deref(), Some("read"));
    assert_eq!(r.client_id, "c");
    let r2 = refreshed_record(r, TokenResponse { access_token: s("newer"), refresh_token: Some(s("rt2")), expires_in: None, scope: None }, 600);
    assert_eq!(r2.refresh_token.as_deref(), Some("rt2"));
    assert_eq!(r2.expires_at, None);
    // A refreshed token without expiry is handed out next.
    let mut store = OAuthStore::new();
    store.insert(s("srv"), r2);
    match plan_token(&store, "srv", 10_000) {
        TokenPlan::Valid(t) => assert_eq!(t, "newer"),
        _ => panic!("expected the new token"),
    }
}

#[test]
fn expiry_range_check() {
    assert!(expiry_in_range(u64::MAX, None));
    assert!(expiry_in_range(10, Some(u64::MAX - 10)));
    assert!(!expiry_in_range(11, Some(u64::MAX - 10)));
}
