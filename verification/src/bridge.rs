//! The stdio bridge (`--stdio`): the desktop client speaks newline-delimited
//! JSON-RPC on stdio and the bridge forwards each message to the running
//! proxy. What is forwarded, what is written back, the error a client sees
//! when the proxy cannot be reached, and the wait for the proxy to come up.
use vstd::prelude::*;

use crate::json::{JsonValue, jget};
use crate::render::{json_text, render_json};
use crate::text::{append_str, chars_of, push_char, trim, trim_v};

verus! {

/// A line read from stdin is forwarded trimmed; a blank line is skipped.
pub fn forward_line(line: &str) -> (r: Option<String>)
    ensures
        match r {
            Some(t) => t@ == trim_v(line@) && t@.len() > 0,
            None => trim_v(line@).len() == 0,
        },
{
    let t = trim(line);
    if t.as_str().is_empty() {
        None
    } else {
        Some(t)
    }
}

/// The proxy's answer is written back trimmed, as one line; an empty body
/// (the `202` of a notification) writes nothing.
pub fn reply_line(body: &str) -> (r: Option<String>)
    ensures
        match r {
            Some(t) => t@ == trim_v(body@) && t@.len() > 0,
            None => trim_v(body@).len() == 0,
        },
{
    forward_line(body)
}

/// The id of a forwarded message as JSON text (for the error written back
/// when the proxy cannot be reached); none when the message has no id.
pub fn request_id_text(msg: &JsonValue) -> (r: Option<String>)
    ensures
        match jget(msg.jv(), "id"@) {
            Some(x) => r matches Some(t) && t@ == json_text(x),
            None => r is None,
        },
{
    match msg.get("id") {
        Some(id) => Some(render_json(id)),
        None => None,
    }
}

/// Double quotes replaced by single quotes, so that a message can stand in
/// a JSON string without escaping.
pub open spec fn unquote(s: Seq<char>) -> Seq<char> {
    Seq::new(s.len(), |i: int| if s[i] == '"' { '\'' } else { s[i] })
}

/// The JSON-RPC error written back for a request that could not be
/// forwarded: `id_text` is the request's id as JSON text.
pub open spec fn unreachable_reply_v(id_text: Seq<char>, err: Seq<char>) -> Seq<char> {
    "{\"jsonrpc\":\"2.0\",\"id\":"@ + id_text + ",\"error\":{\"code\":-32000,\"message\":\"Meta-MCP proxy unreachable: "@
        + unquote(err) + "\"}}"@
}

pub fn unreachable_reply(id_text: &str, err: &str) -> (r: String)
    ensures
        r@ == unreachable_reply_v(id_text@, err@),
{
    let mut out = "{\"jsonrpc\":\"2.0\",\"id\":".to_owned();
    append_str(&mut out, id_text);
    append_str(&mut out, ",\"error\":{\"code\":-32000,\"message\":\"Meta-MCP proxy unreachable: ");
    let ghost before = out@;
    let cs = chars_of(err);
    let mut i: usize = 0;
    while i < cs.len()
        invariant
            cs@ == err@,
            i <= cs@.len(),
            out@ == before + unquote(err@).take(i as int),
        decreases cs@.len() - i,
    {
        let c = if cs[i] == '"' { '\'' } else { cs[i] };
        push_char(&mut out, c);
        assert(out@ =~= before + unquote(err@).take(i + 1));
        i = i + 1;
    }
    assert(unquote(err@).take(i as int) =~= unquote(err@));
    append_str(&mut out, "\"}}");
    out
}

/// How often the proxy is probed again, half a second apart, after the app
/// was launched.
pub const PROBE_RETRIES: u32 = 30;

/// What the bridge does after a probe of the proxy's health endpoint.
pub enum StartupStep {
    /// The proxy answers: start forwarding.
    Ready,
    /// The first probe failed: launch the app, wait, probe again.
    Launch,
    /// Wait half a second and probe again.
    Wait,
    /// Give up waiting; forwarding fails until the app runs.
    GiveUp,
}

/// `attempt` counts the probes made before this one (0 for the first).
pub open spec fn startup_step_v(attempt: u32, probe_ok: bool) -> StartupStep {
    if probe_ok {
        StartupStep::Ready
    } else if attempt == 0 {
        StartupStep::Launch
    } else if attempt < PROBE_RETRIES {
        StartupStep::Wait
    } else {
        StartupStep::GiveUp
    }
}

pub fn startup_step(attempt: u32, probe_ok: bool) -> (r: StartupStep)
    ensures
        r == startup_step_v(attempt, probe_ok),
{
    if probe_ok {
        StartupStep::Ready
    } else if attempt == 0 {
        StartupStep::Launch
    } else if attempt < PROBE_RETRIES {
        StartupStep::Wait
    } else {
        StartupStep::GiveUp
    }
}

/// Law: the app is launched at most once, right after the first probe, and
/// the bridge stops waiting after the first probe and thirty retries.
pub proof fn lemma_startup_bounded(attempt: u32, probe_ok: bool)
    ensures
        startup_step_v(attempt, probe_ok) is Launch ==> attempt == 0,
        attempt >= PROBE_RETRIES && !probe_ok ==> startup_step_v(attempt, probe_ok) is GiveUp,
        probe_ok ==> startup_step_v(attempt, probe_ok) is Ready,
{
}

} // verus!
