//! The local endpoints of the proxy and the status it reports while starting.
use vstd::prelude::*;

use crate::config::ProxyStatus;
use crate::text::{append_str, dec, owned, push_decimal};

verus! {

/// The port of the proxy's HTTP server.
pub const PROXY_PORT: u16 = 3663;

/// The loopback port of the OAuth redirect.
pub const CALLBACK_PORT: u16 = 3669;

fn url_with_port(prefix: &str, port: u16, path: &str) -> (r: String)
    ensures
        r@ == prefix@ + dec(port as nat) + path@,
{
    let mut r = owned(prefix);
    push_decimal(&mut r, port as u128);
    append_str(&mut r, path);
    r
}

/// The proxy's Streamable-HTTP endpoint, as the stdio bridge reaches it.
pub fn mcp_url() -> (r: String)
    ensures
        r@ == "http://127.0.0.1:"@ + dec(PROXY_PORT as nat) + "/mcp"@,
{
    url_with_port("http://127.0.0.1:", PROXY_PORT, "/mcp")
}

/// The proxy's health endpoint.
pub fn health_url() -> (r: String)
    ensures
        r@ == "http://127.0.0.1:"@ + dec(PROXY_PORT as nat) + "/"@,
{
    url_with_port("http://127.0.0.1:", PROXY_PORT, "/")
}

pub open spec fn local_mcp_url_v() -> Seq<char> {
    "http://localhost:"@ + dec(PROXY_PORT as nat) + "/mcp"@
}

/// The Streamable-HTTP endpoint registered in the CLI client's config.
pub fn local_mcp_url() -> (r: String)
    ensures
        r@ == local_mcp_url_v(),
{
    url_with_port("http://localhost:", PROXY_PORT, "/mcp")
}

/// The OAuth redirect URI registered with authorization servers.
pub fn redirect_uri() -> (r: String)
    ensures
        r@ == "http://127.0.0.1:"@ + dec(CALLBACK_PORT as nat) + "/callback"@,
{
    url_with_port("http://127.0.0.1:", CALLBACK_PORT, "/callback")
}

/// The status before the server is bound.
pub fn starting_status() -> (r: ProxyStatus)
    ensures
        r.state@ == "starting"@,
        r.port == PROXY_PORT,
        r.message@ == "Wird gestartet…"@,
{
    ProxyStatus { state: owned("starting"), port: PROXY_PORT, message: owned("Wird gestartet…") }
}

/// The status once binding the port has finished: running, the port in use
/// (with the bind error), or the server task gone before it reported.
pub fn boot_status(bind: Option<Result<(), String>>) -> (r: ProxyStatus)
    ensures
        r.port == PROXY_PORT,
        match bind {
            Some(Ok(())) => r.state@ == "running"@ && r.message@ == "SSE läuft auf :"@ + dec(PROXY_PORT as nat),
            Some(Err(e)) => r.state@ == "error"@ && r.message@ == "Fehler: Port "@ + dec(PROXY_PORT as nat) + " belegt ("@ + e@ + ")"@,
            None => r.state@ == "error"@ && r.message@ == "Server konnte nicht gestartet werden"@,
        },
{
    match bind {
        Some(Ok(())) => {
            let mut m = owned("SSE läuft auf :");
            push_decimal(&mut m, PROXY_PORT as u128);
            ProxyStatus { state: owned("running"), port: PROXY_PORT, message: m }
        },
        Some(Err(e)) => {
            let mut m = owned("Fehler: Port ");
            push_decimal(&mut m, PROXY_PORT as u128);
            append_str(&mut m, " belegt (");
            append_str(&mut m, e.as_str());
            append_str(&mut m, ")");
            ProxyStatus { state: owned("error"), port: PROXY_PORT, message: m }
        },
        None => ProxyStatus {
            state: owned("error"),
            port: PROXY_PORT,
            message: owned("Server konnte nicht gestartet werden"),
        },
    }
}

impl ProxyStatus {
    /// Set the state and message (the port stays).
    pub fn set(&mut self, state: &str, message: &str)
        ensures
            final(self).state@ == state@,
            final(self).message@ == message@,
            final(self).port == old(self).port,
    {
        self.state = owned(state);
        self.message = owned(message);
    }
}

} // verus!
