use meta_mcp::json::{JsonNumber, JsonValue};
use meta_mcp::oauth::{
    fallback_issuer, finish_discovery, join_spaces, metadata_locations, origin, parse_asm, parse_prm,
    parse_resource_metadata, pkce_challenge, server_url, prm_location, random_base64url, random_bytes,
    resource_hints, well_known, AuthServerMetadata, OAuthError, ProtectedResourceMetadata, ResourceHints, UrlParts,
};

fn s(x: &str) -> String {
    x.to_string()
}

fn obj(members: Vec<(&str, JsonValue)>) -> JsonValue {
    JsonValue::Object(members.into_iter().map(|(k, v)| (k.to_string(), v)).collect())
}

fn text(x: &str) -> JsonValue {
    JsonValue::String(x.to_string())
}

fn strings(items: &[&str]) -> JsonValue {
    JsonValue::Array(items.iter().map(|x| text(x)).collect())
}

fn parts(href: &str, scheme: &str, host: Option<&str>, port: Option<u16>) -> UrlParts {
    UrlParts { href: s(href), scheme: s(scheme), host: host.map(s), port }
}

#[test]
fn pkce_is_base64url_sha256() {
    let verifier = "dBjftJeZ4CVP-mB92K27uhbUJU1p1r_wW1gFWFOEjXk";
    assert_eq!(pkce_challenge(verifier), "E9Melhoa2OwvFrEMTJguCHaoeK1t8URWbuGJSstw-cM");
}

#[test]
fn parses_resource_metadata_param() {
    let www = r#"Bearer resource_metadata="https://example.com/.well-known/oauth-protected-resource", error="invalid_token""#;
    assert_eq!(
        parse_resource_metadata(www).as_deref(),
        Some("https://example.com/.well-known/oauth-protected-resource")
    );
}

#[test]
fn resource_metadata_unquoted_and_missing() {
    assert_eq!(
        parse_resource_metadata("Bearer resource_metadata=https://a.test/prm, scope=x").as_deref(),
        Some("https://a.test/prm")
    );
    assert_eq!(parse_resource_metadata("Bearer resource_metadata=\"\"\"x y").as_deref(), Some("x"));
    assert_eq!(parse_resource_metadata("Bearer realm=\"x\""), None);
    assert_eq!(parse_resource_metadata("resource_metadata=").as_deref(), Some(""));
}

#[test]
fn random_values_have_the_asked_length() {
    assert_eq!(random_bytes(0).len(), 0);
    assert_eq!(random_bytes(5).len(), 5);
    assert_eq!(random_bytes(40).len(), 40);
    // 32 bytes: ten groups of three and a pair: 40 + 3 characters.
    let v = random_base64url(32);
    assert_eq!(v.len(), 43);
    assert!(v.chars().all(|c| c.is_ascii_alphanumeric() || c == '-' || c == '_'));
    assert_eq!(random_base64url(16).len(), 22);
    assert_ne!(random_base64url(16), random_base64url(16));
}

#[test]
fn parse_url_reads_parts() {
    let u = server_url("https://Example.com:8443/mcp?x=1").ok().unwrap();
    assert_eq!(u.scheme, "https");
    assert_eq!(u.host.as_deref(), Some("example.com"));
    assert_eq!(u.port, Some(8443));
    assert_eq!(u.href, "https://example.com:8443/mcp?x=1");
    let d = server_url("https://example.com:443/").ok().unwrap();
    assert_eq!(d.port, None);
    match server_url("not a url") {
        Err(OAuthError::BadUrl(m)) => assert_eq!(m, "relative URL without a base"),
        _ => panic!("expected a parse error"),
    }
}

#[test]
fn well_known_keeps_explicit_port() {
    let u = parts("http://localhost:8080/mcp", "http", Some("localhost"), Some(8080));
    assert_eq!(
        well_known(&u, "oauth-protected-resource").as_deref(),
        Some("http://localhost:8080/.well-known/oauth-protected-resource")
    );
    let v = parts("https://example.com/a/b", "https", Some("example.com"), None);
    assert_eq!(origin(&v).as_deref(), Some("https://example.com"));
    let none = parts("mailto:a@b", "mailto", None, None);
    assert_eq!(well_known(&none, "x"), None);
}

#[test]
fn prm_location_prefers_the_hint() {
    let u = parts("https://mcp.test/mcp", "https", Some("mcp.test"), None);
    let hint = Some(s("Bearer resource_metadata=\"https://auth.test/prm\""));
    assert_eq!(prm_location(&hint, &u).as_deref(), Some("https://auth.test/prm"));
    assert_eq!(
        prm_location(&Some(s("Bearer")), &u).as_deref(),
        Some("https://mcp.test/.well-known/oauth-protected-resource")
    );
    assert_eq!(
        prm_location(&None, &u).as_deref(),
        Some("https://mcp.test/.well-known/oauth-protected-resource")
    );
}

#[test]
fn prm_parsing_follows_field_rules() {
    let doc = obj(vec![
        ("authorization_servers", strings(&["https://auth.test", "https://other.test"])),
        ("resource", text("https://mcp.test/mcp")),
        ("scopes_supported", strings(&["read", "write"])),
        ("unknown", JsonValue::Bool(true)),
    ]);
    let m = parse_prm(&doc).unwrap();
    assert_eq!(m.authorization_servers, vec![s("https://auth.test"), s("https://other.test")]);
    assert_eq!(m.resource.as_deref(), Some("https://mcp.test/mcp"));
    assert_eq!(m.scopes_supported, Some(vec![s("read"), s("write")]));

    let empty = parse_prm(&obj(vec![("resource", JsonValue::Null)])).unwrap();
    assert!(empty.authorization_servers.is_empty());
    assert!(empty.resource.is_none());
    assert!(empty.scopes_supported.is_none());

    assert!(parse_prm(&obj(vec![("authorization_servers", JsonValue::Null)])).is_none());
    assert!(parse_prm(&obj(vec![("resource", JsonValue::Bool(false))])).is_none());
    assert!(parse_prm(&obj(vec![("scopes_supported", JsonValue::Array(vec![JsonValue::Null]))])).is_none());
    assert!(parse_prm(&text("x")).is_none());
}

#[test]
fn asm_parsing_needs_both_endpoints() {
    let full = obj(vec![
        ("authorization_endpoint", text("https://auth.test/authorize")),
        ("token_endpoint", text("https://auth.test/token")),
        ("registration_endpoint", text("https://auth.test/register")),
        ("scopes_supported", strings(&["openid"])),
    ]);
    let m = parse_asm(&full).unwrap();
    assert_eq!(m.authorization_endpoint, "https://auth.test/authorize");
    assert_eq!(m.token_endpoint, "https://auth.test/token");
    assert_eq!(m.registration_endpoint.as_deref(), Some("https://auth.test/register"));
    assert_eq!(m.scopes_supported, Some(vec![s("openid")]));
    let missing = obj(vec![("authorization_endpoint", text("https://auth.test/authorize"))]);
    assert!(parse_asm(&missing).is_none());
    let wrong = obj(vec![
        ("authorization_endpoint", text("a")),
        ("token_endpoint", JsonValue::Number(JsonNumber::PosInt(1))),
    ]);
    assert!(parse_asm(&wrong).is_none());
}

#[test]
fn hints_fall_back_to_the_server_url() {
    let h = resource_hints("https://mcp.test/mcp", None);
    assert_eq!(h.resource, "https://mcp.test/mcp");
    assert!(h.scope.is_none() && h.issuer.is_none());

    let m = ProtectedResourceMetadata {
        authorization_servers: vec![s("https://auth.test/tenant")],
        resource: None,
        scopes_supported: Some(vec![s("a"), s("b"), s("c")]),
    };
    let h = resource_hints("https://mcp.test/mcp", Some(m));
    assert_eq!(h.resource, "https://mcp.test/mcp");
    assert_eq!(h.scope.as_deref(), Some("a b c"));
    assert_eq!(h.issuer.unwrap().href, "https://auth.test/tenant");

    let bad = ProtectedResourceMetadata {
        authorization_servers: vec![s("::nonsense")],
        resource: Some(s("urn:r")),
        scopes_supported: None,
    };
    let h = resource_hints("https://mcp.test/mcp", Some(bad));
    assert_eq!(h.resource, "urn:r");
    assert!(h.issuer.is_none());
}

#[test]
fn fallback_issuer_is_the_origin() {
    let u = parts("https://mcp.test:9000/x/mcp", "https", Some("mcp.test"), Some(9000));
    let i = fallback_issuer(&u).ok().unwrap();
    assert_eq!(i.href, "https://mcp.test:9000/");
    match fallback_issuer(&parts("data:x", "data", None, None)) {
        Err(e) => assert_eq!(e.message(), "server url has no host"),
        Ok(_) => panic!("no host"),
    }
}

#[test]
fn metadata_documents_in_order() {
    let u = parts("https://auth.test/", "https", Some("auth.test"), None);
    assert_eq!(
        metadata_locations(&u),
        vec![
            s("https://auth.test/.well-known/oauth-authorization-server"),
            s("https://auth.test/.well-known/openid-configuration")
        ]
    );
    assert!(metadata_locations(&parts("x:y", "x", None, None)).is_empty());
}

#[test]
fn scope_comes_from_resource_then_server() {
    let meta = || AuthServerMetadata {
        authorization_endpoint: s("a"),
        token_endpoint: s("t"),
        registration_endpoint: None,
        scopes_supported: Some(vec![s("x"), s("y")]),
    };
    let d = finish_discovery(ResourceHints { resource: s("r"), scope: Some(s("mine")), issuer: None }, meta());
    assert_eq!(d.scope.as_deref(), Some("mine"));
    let d = finish_discovery(ResourceHints { resource: s("r"), scope: None, issuer: None }, meta());
    assert_eq!(d.scope.as_deref(), Some("x y"));
    assert_eq!(d.resource, "r");
    assert_eq!(join_spaces(&vec![]), "");
    assert_eq!(join_spaces(&vec![s("one")]), "one");
}

#[test]
fn oauth_error_messages() {
    assert_eq!(OAuthError::NoHost.message(), "server url has no host");
    assert_eq!(OAuthError::BadUrl(s("relative URL without a base")).message(), "relative URL without a base");
    assert_eq!(
        OAuthError::NoMetadata(s("https://auth.test/")).message(),
        "could not fetch OAuth authorization-server metadata from https://auth.test/"
    );
    assert_eq!(
        OAuthError::NoRegistration.message(),
        "server requires OAuth but its authorization server offers no dynamic client registration; a manual client_id would be needed"
    );
    assert_eq!(OAuthError::NoClientId.message(), "registration response had no client_id");
    assert_eq!(OAuthError::Denied(s("access_denied")).message(), "authorization denied: access_denied");
}
