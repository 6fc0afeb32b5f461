//! The OAuth 2.1 client for remote MCP servers that require an interactive
//! login: PKCE and random values, discovery of the authorization server,
//! dynamic client registration, the authorization URL, the loopback redirect
//! and the token exchange and refresh. Network, browser and disk stay outside;
//! what is decided on their results is here.
use vstd::prelude::*;

use base64::Engine;
use sha2::Digest;

use crate::config::{opt_str, strs};
use crate::fields::{
    opt_str_field, opt_strs_field, opt_strs_view, read_opt_str, read_opt_strs, read_req_str,
    read_strs_default, req_str, strs_default_field,
};
use crate::json::JsonValue;
use crate::ids::uuid_v4_bytes;
use crate::text::{
    append_str, chars_of, concat, dec, decimal, find_chars, first_occurrence, occurs_at, owned,
    push_char, string_from_range,
};

verus! {

// ---------------------------------------------------------------------------
// PKCE and random values
// ---------------------------------------------------------------------------

/// The base64url alphabet (RFC 4648 section 5).
pub open spec fn b64url_char(n: int) -> char {
    if n < 26 {
        (('A' as int) + n) as char
    } else if n < 52 {
        (('a' as int) + n - 26) as char
    } else if n < 62 {
        (('0' as int) + n - 52) as char
    } else if n == 62 {
        '-'
    } else {
        '_'
    }
}

/// Unpadded base64url (RFC 4648 section 5): each group of three bytes gives
/// four characters, a final group of two bytes three, of one byte two.
pub open spec fn base64url(b: Seq<u8>) -> Seq<char>
    decreases b.len(),
{
    if b.len() == 0 {
        Seq::empty()
    } else if b.len() == 1 {
        let n = b[0] * 65536;
        seq![b64url_char(n / 262144), b64url_char(n / 4096 % 64)]
    } else if b.len() == 2 {
        let n = b[0] * 65536 + b[1] * 256;
        seq![b64url_char(n / 262144), b64url_char(n / 4096 % 64), b64url_char(n / 64 % 64)]
    } else {
        let n = b[0] * 65536 + b[1] * 256 + b[2];
        seq![b64url_char(n / 262144), b64url_char(n / 4096 % 64), b64url_char(n / 64 % 64), b64url_char(n % 64)]
            + base64url(b.subrange(3, b.len() as int))
    }
}

/// `base64::engine::general_purpose::URL_SAFE_NO_PAD.encode(bytes)`: the
/// crate's URL-safe alphabet without padding, which is RFC 4648 section 5 as
/// `base64url` states it.
#[verifier::external_body]
fn encode_base64url(bytes: &[u8]) -> (r: String)
    ensures
        r@ == base64url(bytes@),
{
    base64::engine::general_purpose::URL_SAFE_NO_PAD.encode(bytes)
}

/// The SHA-256 digest of a byte string.
pub uninterp spec fn sha256(data: Seq<u8>) -> Seq<u8>;

/// `sha2::Sha256::digest(data)`: the 32-byte SHA-256 digest (FIPS 180-4),
/// named by `sha256`.
#[verifier::external_body]
fn sha256_digest(data: &[u8]) -> (r: Vec<u8>)
    ensures
        r@ == sha256(data@),
        r@.len() == 32,
{
    sha2::Sha256::digest(data).to_vec()
}

/// The PKCE `S256` code challenge of a verifier (RFC 7636):
/// base64url(SHA-256(UTF-8 bytes of the verifier)).
pub fn pkce_challenge(verifier: &str) -> (r: String)
    ensures
        r@ == base64url(sha256(vstd::utf8::encode_utf8(verifier@))),
{
    let digest = sha256_digest(verifier.as_bytes());
    encode_base64url(digest.as_slice())
}

/// `n` random bytes, taken from the bytes of fresh version-4 UUIDs.
pub fn random_bytes(n: usize) -> (r: Vec<u8>)
    ensures
        r@.len() == n,
{
    let mut out: Vec<u8> = Vec::new();
    while out.len() < n
        invariant
            out@.len() <= n,
        decreases n - out@.len(),
    {
        let chunk = uuid_v4_bytes();
        let ghost before = out@.len();
        let mut k: usize = 0;
        while k < 16 && out.len() < n
            invariant
                out@.len() <= n,
                k <= 16,
                chunk@.len() == 16,
                out@.len() == before + k,
            decreases 16 - k,
        {
            out.push(chunk[k]);
            k = k + 1;
        }
    }
    out
}

/// A random base64url string encoding `byte_len` random bytes (for the PKCE
/// verifier and the `state` parameter).
pub fn random_base64url(byte_len: usize) -> (r: String)
    ensures
        exists|b: Seq<u8>| b.len() == byte_len && r@ == base64url(b),
{
    let bytes = random_bytes(byte_len);
    let r = encode_base64url(bytes.as_slice());
    assert(bytes@.len() == byte_len && r@ == base64url(bytes@));
    r
}

// ---------------------------------------------------------------------------
// The `WWW-Authenticate` hint
// ---------------------------------------------------------------------------

pub open spec fn metadata_key() -> Seq<char> {
    "resource_metadata="@
}

/// `s` without its leading double quotes.
pub open spec fn skip_quotes(s: Seq<char>) -> Seq<char>
    decreases s.len(),
{
    if s.len() > 0 && s[0] == '"' {
        skip_quotes(s.drop_first())
    } else {
        s
    }
}

/// A character that ends the parameter value.
pub open spec fn is_value_stop(c: char) -> bool {
    c == '"' || c == ',' || c == ' '
}

/// The longest prefix of `s` without a stop character.
pub open spec fn until_stop(s: Seq<char>) -> Seq<char>
    decreases s.len(),
{
    if s.len() == 0 || is_value_stop(s[0]) {
        Seq::empty()
    } else {
        seq![s[0]] + until_stop(s.drop_first())
    }
}

/// The value of the `resource_metadata=` parameter of a `WWW-Authenticate`
/// header: after the first occurrence of the key, leading quotes skipped, up
/// to the next quote, comma or space.
pub open spec fn resource_metadata_of(www: Seq<char>) -> Option<Seq<char>> {
    match first_occurrence(www, metadata_key()) {
        Some(i) => Some(until_stop(skip_quotes(www.subrange(i + metadata_key().len(), www.len() as int)))),
        None => None,
    }
}

proof fn lemma_skip_quotes(s: Seq<char>, k: int)
    requires
        0 <= k <= s.len(),
        forall|j: int| 0 <= j < k ==> s[j] == '"',
    ensures
        skip_quotes(s) == skip_quotes(s.subrange(k, s.len() as int)),
    decreases k,
{
    if k > 0 {
        assert(s[0] == '"');
        assert(skip_quotes(s) == skip_quotes(s.drop_first()));
        assert(s.drop_first() =~= s.subrange(1, s.len() as int));
        lemma_skip_quotes(s.drop_first(), k - 1);
        assert(s.drop_first().subrange(k - 1, s.drop_first().len() as int) =~= s.subrange(k, s.len() as int));
    } else {
        assert(s.subrange(0, s.len() as int) =~= s);
    }
}

proof fn lemma_until_stop(s: Seq<char>, k: int)
    requires
        0 <= k <= s.len(),
        forall|j: int| 0 <= j < k ==> !is_value_stop(s[j]),
        k == s.len() || is_value_stop(s[k]),
    ensures
        until_stop(s) == s.subrange(0, k),
    decreases k,
{
    if k == 0 {
        assert(s.subrange(0, 0) =~= Seq::<char>::empty());
    } else {
        lemma_until_stop(s.drop_first(), k - 1);
        assert(seq![s[0]] + s.drop_first().subrange(0, k - 1) =~= s.subrange(0, k));
    }
}

/// Pull `resource_metadata="..."` out of a `WWW-Authenticate` header value.
pub fn parse_resource_metadata(www: &str) -> (r: Option<String>)
    ensures
        opt_str(r) == resource_metadata_of(www@),
{
    proof {
        reveal_strlit("resource_metadata=");
    }
    let s = chars_of(www);
    let key = chars_of("resource_metadata=");
    let start = match find_chars(&s, &key) {
        Some(i) => {
            assert(occurs_at(s@, key@, i as int));
            let n = s.len();
            let m = key.len();
            assert(i + m <= n);
            i + m
        },
        None => return None,
    };
    let ghost rest = s@.subrange(start as int, s@.len() as int);
    let mut i = start;
    while i < s.len() && s[i] == '"'
        invariant
            start <= i <= s@.len(),
            forall|j: int| start <= j < i ==> s@[j] == '"',
        decreases s@.len() - i,
    {
        i = i + 1;
    }
    let from = i;
    while i < s.len() && !(s[i] == '"' || s[i] == ',' || s[i] == ' ')
        invariant
            from <= i <= s@.len(),
            forall|j: int| from <= j < i ==> !is_value_stop(s@[j]),
        decreases s@.len() - i,
    {
        i = i + 1;
    }
    proof {
        let k = (from - start) as int;
        lemma_skip_quotes(rest, k);
        let tail = rest.subrange(k, rest.len() as int);
        assert(tail =~= s@.subrange(from as int, s@.len() as int));
        if !(tail.len() > 0 && tail[0] == '"') {
            assert(skip_quotes(tail) == tail);
        }
        lemma_until_stop(tail, (i - from) as int);
        assert(tail.subrange(0, (i - from) as int) =~= s@.subrange(from as int, i as int));
    }
    Some(string_from_range(&s, from, i))
}

// ---------------------------------------------------------------------------
// URLs
// ---------------------------------------------------------------------------

/// What the flow reads of a parsed URL.
pub struct UrlParts {
    /// The serialization (`Url::as_str`).
    pub href: String,
    pub scheme: String,
    pub host: Option<String>,
    /// The port, when it is not the scheme's default (`Url::port`).
    pub port: Option<u16>,
}

pub struct UrlPartsV {
    pub href: Seq<char>,
    pub scheme: Seq<char>,
    pub host: Option<Seq<char>>,
    pub port: Option<u16>,
}

impl View for UrlParts {
    type V = UrlPartsV;

    open spec fn view(&self) -> UrlPartsV {
        UrlPartsV { href: self.href@, scheme: self.scheme@, host: opt_str(self.host), port: self.port }
    }
}

/// What `url::Url::parse` makes of a text: the parts, or the error's text.
pub uninterp spec fn parsed_url(text: Seq<char>) -> Result<UrlPartsV, Seq<char>>;

/// `url::Url::parse(text)`, read as its serialization, scheme, host and
/// port, or the parse error's `Display` text; named by `parsed_url`.
#[verifier::external_body]
fn parse_url(text: &str) -> (r: Result<UrlParts, String>)
    ensures
        match r {
            Ok(u) => parsed_url(text@) == Ok::<UrlPartsV, Seq<char>>(u@),
            Err(e) => parsed_url(text@) == Err::<UrlPartsV, Seq<char>>(e@),
        },
{
    match url::Url::parse(text) {
        Ok(u) => Ok(UrlParts {
            href: u.as_str().to_string(),
            scheme: u.scheme().to_string(),
            host: u.host_str().map(|h| h.to_string()),
            port: u.port(),
        }),
        Err(e) => Err(e.to_string()),
    }
}

/// Parse the URL of a server (or any URL the flow is handed); a text that
/// does not parse is a `BadUrl` carrying the parser's message.
pub fn server_url(text: &str) -> (r: Result<UrlParts, OAuthError>)
    ensures
        match r {
            Ok(u) => parsed_url(text@) == Ok::<UrlPartsV, Seq<char>>(u@),
            Err(OAuthError::BadUrl(m)) => parsed_url(text@) == Err::<UrlPartsV, Seq<char>>(m@),
            Err(_) => false,
        },
{
    match parse_url(text) {
        Ok(u) => Ok(u),
        Err(m) => Err(OAuthError::BadUrl(m)),
    }
}

/// `:<port>` when there is one.
pub open spec fn port_suffix(port: Option<u16>) -> Seq<char> {
    match port {
        Some(p) => seq![':'] + dec(p as nat),
        None => Seq::empty(),
    }
}

/// `scheme://host[:port]`, the origin of a URL with a host.
pub open spec fn origin_of(u: UrlPartsV) -> Option<Seq<char>> {
    match u.host {
        Some(h) => Some(u.scheme + "://"@ + h + port_suffix(u.port)),
        None => None,
    }
}

/// `scheme://host[:port]/.well-known/<name>` for a URL with a host.
pub open spec fn well_known_v(u: UrlPartsV, name: Seq<char>) -> Option<Seq<char>> {
    match origin_of(u) {
        Some(o) => Some(o + "/.well-known/"@ + name),
        None => None,
    }
}

/// The origin of a URL, when it has a host.
pub fn origin(u: &UrlParts) -> (r: Option<String>)
    ensures
        opt_str(r) == origin_of(u@),
{
    match &u.host {
        Some(h) => {
            let mut s = concat(u.scheme.as_str(), "://");
            append_str(&mut s, h.as_str());
            match u.port {
                Some(p) => {
                    push_char(&mut s, ':');
                    append_str(&mut s, decimal(p as u64).as_str());
                },
                None => {},
            }
            assert(s@ =~= u.scheme@ + "://"@ + h@ + port_suffix(u.port));
            Some(s)
        },
        None => None,
    }
}

/// The well-known metadata document `name` at a URL's origin.
pub fn well_known(u: &UrlParts, name: &str) -> (r: Option<String>)
    ensures
        opt_str(r) == well_known_v(u@, name@),
{
    match origin(u) {
        Some(o) => {
            let mut s = concat(o.as_str(), "/.well-known/");
            append_str(&mut s, name);
            Some(s)
        },
        None => None,
    }
}

// ---------------------------------------------------------------------------
// Errors
// ---------------------------------------------------------------------------

/// Why a login cannot go on.
pub enum OAuthError {
    /// The server URL has no host to derive an authorization server from.
    NoHost,
    /// A URL did not parse; the parser's message.
    BadUrl(String),
    /// Neither well-known metadata document of the issuer could be read.
    NoMetadata(String),
    /// No stored client and no dynamic client registration offered.
    NoRegistration,
    /// The registration response carried no `client_id`.
    NoClientId,
    /// The user or the server denied the authorization; its `error`.
    Denied(String),
}

pub open spec fn oauth_error_text(e: OAuthError) -> Seq<char> {
    match e {
        OAuthError::NoHost => "server url has no host"@,
        OAuthError::BadUrl(m) => m@,
        OAuthError::NoMetadata(issuer) => "could not fetch OAuth authorization-server metadata from "@ + issuer@,
        OAuthError::NoRegistration => "server requires OAuth but its authorization server offers no dynamic client registration; a manual client_id would be needed"@,
        OAuthError::NoClientId => "registration response had no client_id"@,
        OAuthError::Denied(m) => "authorization denied: "@ + m@,
    }
}

impl OAuthError {
    /// The error's text.
    pub fn message(&self) -> (r: String)
        ensures
            r@ == oauth_error_text(*self),
    {
        match self {
            OAuthError::NoHost => owned("server url has no host"),
            OAuthError::BadUrl(m) => owned(m.as_str()),
            OAuthError::NoMetadata(issuer) => concat("could not fetch OAuth authorization-server metadata from ", issuer.as_str()),
            OAuthError::NoRegistration => owned("server requires OAuth but its authorization server offers no dynamic client registration; a manual client_id would be needed"),
            OAuthError::NoClientId => owned("registration response had no client_id"),
            OAuthError::Denied(m) => concat("authorization denied: ", m.as_str()),
        }
    }
}

// ---------------------------------------------------------------------------
// Discovery
// ---------------------------------------------------------------------------

/// Protected Resource Metadata (RFC 9728), the members the flow reads.
pub struct ProtectedResourceMetadata {
    pub authorization_servers: Vec<String>,
    pub resource: Option<String>,
    pub scopes_supported: Option<Vec<String>>,
}

/// Authorization Server Metadata (RFC 8414), the members the flow reads.
pub struct AuthServerMetadata {
    pub authorization_endpoint: String,
    pub token_endpoint: String,
    pub registration_endpoint: Option<String>,
    pub scopes_supported: Option<Vec<String>>,
}

/// The outcome of discovery.
pub struct Discovery {
    pub resource: String,
    pub scope: Option<String>,
    pub auth_server: AuthServerMetadata,
}

/// Read a Protected Resource Metadata document (`None`: malformed).
pub fn parse_prm(v: &JsonValue) -> (r: Option<ProtectedResourceMetadata>)
    ensures
        match r {
            Some(m) => v.jv() is Object
                && strs_default_field(v.jv(), "authorization_servers"@) == Some(strs(m.authorization_servers@))
                && opt_str_field(v.jv(), "resource"@) == Some(opt_str(m.resource))
                && opt_strs_field(v.jv(), "scopes_supported"@) == Some(opt_strs_view(m.scopes_supported)),
            None => !(v.jv() is Object)
                || strs_default_field(v.jv(), "authorization_servers"@) is None
                || opt_str_field(v.jv(), "resource"@) is None
                || opt_strs_field(v.jv(), "scopes_supported"@) is None,
        },
{
    if v.as_object().is_none() {
        return None;
    }
    let authorization_servers = match read_strs_default(v, "authorization_servers") {
        Some(x) => x,
        None => return None,
    };
    let resource = match read_opt_str(v, "resource") {
        Some(x) => x,
        None => return None,
    };
    let scopes_supported = match read_opt_strs(v, "scopes_supported") {
        Some(x) => x,
        None => return None,
    };
    Some(ProtectedResourceMetadata { authorization_servers, resource, scopes_supported })
}

/// Read an Authorization Server Metadata document (`None`: malformed).
pub fn parse_asm(v: &JsonValue) -> (r: Option<AuthServerMetadata>)
    ensures
        match r {
            Some(m) => v.jv() is Object
                && req_str(v.jv(), "authorization_endpoint"@) == Some(m.authorization_endpoint@)
                && req_str(v.jv(), "token_endpoint"@) == Some(m.token_endpoint@)
                && opt_str_field(v.jv(), "registration_endpoint"@) == Some(opt_str(m.registration_endpoint))
                && opt_strs_field(v.jv(), "scopes_supported"@) == Some(opt_strs_view(m.scopes_supported)),
            None => !(v.jv() is Object)
                || req_str(v.jv(), "authorization_endpoint"@) is None
                || req_str(v.jv(), "token_endpoint"@) is None
                || opt_str_field(v.jv(), "registration_endpoint"@) is None
                || opt_strs_field(v.jv(), "scopes_supported"@) is None,
        },
{
    if v.as_object().is_none() {
        return None;
    }
    let authorization_endpoint = match read_req_str(v, "authorization_endpoint") {
        Some(x) => x,
        None => return None,
    };
    let token_endpoint = match read_req_str(v, "token_endpoint") {
        Some(x) => x,
        None => return None,
    };
    let registration_endpoint = match read_opt_str(v, "registration_endpoint") {
        Some(x) => x,
        None => return None,
    };
    let scopes_supported = match read_opt_strs(v, "scopes_supported") {
        Some(x) => x,
        None => return None,
    };
    Some(AuthServerMetadata { authorization_endpoint, token_endpoint, registration_endpoint, scopes_supported })
}

/// Strings joined by single spaces.
pub open spec fn join_space(v: Seq<Seq<char>>) -> Seq<char>
    decreases v.len(),
{
    if v.len() == 0 {
        Seq::empty()
    } else if v.len() == 1 {
        v[0]
    } else {
        join_space(v.drop_last()) + seq![' '] + v.last()
    }
}

/// `v.join(" ")`.
pub fn join_spaces(v: &Vec<String>) -> (r: String)
    ensures
        r@ == join_space(strs(v@)),
{
    let ghost sv = strs(v@);
    let mut out = String::new();
    let mut i: usize = 0;
    while i < v.len()
        invariant
            sv == strs(v@),
            i <= v@.len(),
            out@ == join_space(sv.take(i as int)),
        decreases v@.len() - i,
    {
        assert(sv.take(i + 1).drop_last() =~= sv.take(i as int));
        if i > 0 {
            push_char(&mut out, ' ');
        }
        append_str(&mut out, v[i].as_str());
        proof {
            if i == 0 {
                assert(out@ =~= sv.take(1)[0]);
            } else {
                assert(out@ =~= join_space(sv.take(i as int)) + seq![' '] + sv.take(i + 1).last());
            }
        }
        i = i + 1;
    }
    assert(sv.take(i as int) =~= sv);
    out
}

pub open spec fn opt_join(o: Option<Vec<String>>) -> Option<Seq<char>> {
    match o {
        Some(v) => Some(join_space(strs(v@))),
        None => None,
    }
}

fn join_opt(o: &Option<Vec<String>>) -> (r: Option<String>)
    ensures
        opt_str(r) == opt_join(*o),
{
    match o {
        Some(v) => Some(join_spaces(v)),
        None => None,
    }
}

/// Where to read the Protected Resource Metadata: the `WWW-Authenticate`
/// hint, else the server origin's well-known document.
pub open spec fn prm_location_v(www: Option<Seq<char>>, server: UrlPartsV) -> Option<Seq<char>> {
    match www {
        Some(w) => match resource_metadata_of(w) {
            Some(u) => Some(u),
            None => well_known_v(server, "oauth-protected-resource"@),
        },
        None => well_known_v(server, "oauth-protected-resource"@),
    }
}

pub fn prm_location(www: &Option<String>, server: &UrlParts) -> (r: Option<String>)
    ensures
        opt_str(r) == prm_location_v(opt_str(*www), server@),
{
    let hint = match www {
        Some(w) => parse_resource_metadata(w.as_str()),
        None => None,
    };
    match hint {
        Some(u) => Some(u),
        None => well_known(server, "oauth-protected-resource"),
    }
}

/// What the Protected Resource Metadata contributes: the resource (the
/// server URL unless the metadata names one), the scope and the first
/// authorization server, when it parses.
pub struct ResourceHints {
    pub resource: String,
    pub scope: Option<String>,
    pub issuer: Option<UrlParts>,
}

pub open spec fn opt_url_view(o: Option<UrlParts>) -> Option<UrlPartsV> {
    match o {
        Some(u) => Some(u@),
        None => None,
    }
}

/// The issuer named first by the metadata, when it parses as a URL.
pub open spec fn first_issuer(servers: Seq<Seq<char>>) -> Option<UrlPartsV> {
    if servers.len() == 0 {
        None
    } else {
        match parsed_url(servers[0]) {
            Ok(u) => Some(u),
            Err(_) => None,
        }
    }
}

pub fn resource_hints(server_url: &str, prm: Option<ProtectedResourceMetadata>) -> (r: ResourceHints)
    ensures
        match prm {
            Some(m) => {
                &&& r.resource@ == (match opt_str(m.resource) {
                    Some(x) => x,
                    None => server_url@,
                })
                &&& opt_str(r.scope) == opt_join(m.scopes_supported)
                &&& opt_url_view(r.issuer) == first_issuer(strs(m.authorization_servers@))
            },
            None => r.resource@ == server_url@ && r.scope is None && r.issuer is None,
        },
{
    match prm {
        Some(m) => {
            let resource = match m.resource {
                Some(x) => x,
                None => owned(server_url),
            };
            let scope = join_opt(&m.scopes_supported);
            let issuer = if m.authorization_servers.len() > 0 {
                match parse_url(m.authorization_servers[0].as_str()) {
                    Ok(u) => Some(u),
                    Err(_) => None,
                }
            } else {
                None
            };
            ResourceHints { resource, scope, issuer }
        },
        None => ResourceHints { resource: owned(server_url), scope: None, issuer: None },
    }
}

/// Without a named issuer the MCP server's own origin is taken as its
/// authorization server.
pub open spec fn fallback_issuer_v(server: UrlPartsV) -> Result<UrlPartsV, OAuthErrorV> {
    match origin_of(server) {
        None => Err(OAuthErrorV::NoHost),
        Some(o) => match parsed_url(o) {
            Ok(u) => Ok(u),
            Err(m) => Err(OAuthErrorV::BadUrl(m)),
        },
    }
}

/// The value of an error of the flow.
pub enum OAuthErrorV {
    NoHost,
    BadUrl(Seq<char>),
}

pub fn fallback_issuer(server: &UrlParts) -> (r: Result<UrlParts, OAuthError>)
    ensures
        match r {
            Ok(u) => fallback_issuer_v(server@) == Ok::<UrlPartsV, OAuthErrorV>(u@),
            Err(OAuthError::NoHost) => fallback_issuer_v(server@) == Err::<UrlPartsV, OAuthErrorV>(OAuthErrorV::NoHost),
            Err(OAuthError::BadUrl(m)) => fallback_issuer_v(server@) == Err::<UrlPartsV, OAuthErrorV>(OAuthErrorV::BadUrl(m@)),
            Err(_) => false,
        },
{
    match origin(server) {
        None => Err(OAuthError::NoHost),
        Some(o) => match parse_url(o.as_str()) {
            Ok(u) => Ok(u),
            Err(m) => Err(OAuthError::BadUrl(m)),
        },
    }
}

/// The documents tried, in order, for the authorization server's metadata.
pub open spec fn metadata_locations_v(issuer: UrlPartsV) -> Seq<Seq<char>> {
    match (well_known_v(issuer, "oauth-authorization-server"@), well_known_v(issuer, "openid-configuration"@)) {
        (Some(a), Some(b)) => seq![a, b],
        _ => Seq::empty(),
    }
}

pub fn metadata_locations(issuer: &UrlParts) -> (r: Vec<String>)
    ensures
        strs(r@) == metadata_locations_v(issuer@),
{
    let mut out: Vec<String> = Vec::new();
    let a = well_known(issuer, "oauth-authorization-server");
    let b = well_known(issuer, "openid-configuration");
    match (a, b) {
        (Some(x), Some(y)) => {
            let ghost xv = x@;
            let ghost yv = y@;
            out.push(x);
            out.push(y);
            assert(strs(out@) =~= seq![xv, yv]);
        },
        _ => {
            assert(strs(out@) =~= Seq::<Seq<char>>::empty());
        },
    }
    out
}

/// The scope requested: the resource's, else the authorization server's.
pub open spec fn chosen_scope(scope: Option<Seq<char>>, server_scopes: Option<Vec<String>>) -> Option<Seq<char>> {
    match scope {
        Some(s) => Some(s),
        None => opt_join(server_scopes),
    }
}

/// Put discovery together once the metadata is read.
pub fn finish_discovery(hints: ResourceHints, auth_server: AuthServerMetadata) -> (r: Discovery)
    ensures
        r.resource@ == hints.resource@,
        opt_str(r.scope) == chosen_scope(opt_str(hints.scope), auth_server.scopes_supported),
        r.auth_server == auth_server,
{
    let scope = match hints.scope {
        Some(s) => Some(s),
        None => join_opt(&auth_server.scopes_supported),
    };
    Discovery { resource: hints.resource, scope, auth_server }
}

} // verus!
