//! The JSON-RPC core of the proxy endpoint: what each client message is
//! answered, how batches and replies are shaped, and the small protocol
//! values the transports exchange.
use vstd::prelude::*;

use crate::ids::{is_uuid_v4_text, new_uuid_v4};
use crate::json::{
    JsonV, JsonValue, NumV, entries_view, entry, items_view, jget, jget_opt, json_array, json_i64,
    json_object, json_string, jstr_opt, opt_jv, opt_jv_owned, lemma_array_view,
};
use crate::text::{append_str, owned, str_eq};

verus! {

// ---------------------------------------------------------------------------
// Responses
// ---------------------------------------------------------------------------

pub open spec fn id_or_null(id: Option<JsonV>) -> JsonV {
    match id {
        Some(v) => v,
        None => JsonV::Null,
    }
}

pub open spec fn int_v(n: i64) -> JsonV {
    if n >= 0 {
        JsonV::Number(NumV::PosInt(n as u64))
    } else {
        JsonV::Number(NumV::NegInt(n))
    }
}

/// `{"jsonrpc": "2.0", "id": id, "result": result}` (a missing id is `null`).
pub open spec fn ok_v(id: Option<JsonV>, result: JsonV) -> JsonV {
    JsonV::Object(seq![("jsonrpc"@, JsonV::Str("2.0"@)), ("id"@, id_or_null(id)), ("result"@, result)])
}

/// `{"jsonrpc": "2.0", "id": id, "error": {"code": code, "message": message}}`.
pub open spec fn err_v(id: Option<JsonV>, code: i64, message: Seq<char>) -> JsonV {
    JsonV::Object(
        seq![
            ("jsonrpc"@, JsonV::Str("2.0"@)),
            ("id"@, id_or_null(id)),
            ("error"@, JsonV::Object(seq![("code"@, int_v(code)), ("message"@, JsonV::Str(message))])),
        ],
    )
}

/// The code of an error raised by a backend or by routing.
pub const SERVER_ERROR: i64 = -32000;

/// The code of an unknown method.
pub const METHOD_NOT_FOUND: i64 = -32601;

fn id_value(id: Option<JsonValue>) -> (r: JsonValue)
    ensures
        r.jv() == id_or_null(opt_jv_owned(id)),
{
    match id {
        Some(v) => v,
        None => JsonValue::Null,
    }
}

pub fn entries3(a: (String, JsonValue), b: (String, JsonValue), c: (String, JsonValue)) -> (r: Vec<(String, JsonValue)>)
    ensures
        entries_view(r@) == seq![(a.0@, a.1.jv()), (b.0@, b.1.jv()), (c.0@, c.1.jv())],
{
    let ghost (av, bv, cv) = ((a.0@, a.1.jv()), (b.0@, b.1.jv()), (c.0@, c.1.jv()));
    let mut v: Vec<(String, JsonValue)> = Vec::new();
    v.push(a);
    v.push(b);
    v.push(c);
    assert(entries_view(v@) =~= seq![av, bv, cv]);
    v
}

pub fn entries2(a: (String, JsonValue), b: (String, JsonValue)) -> (r: Vec<(String, JsonValue)>)
    ensures
        entries_view(r@) == seq![(a.0@, a.1.jv()), (b.0@, b.1.jv())],
{
    let ghost (av, bv) = ((a.0@, a.1.jv()), (b.0@, b.1.jv()));
    let mut v: Vec<(String, JsonValue)> = Vec::new();
    v.push(a);
    v.push(b);
    assert(entries_view(v@) =~= seq![av, bv]);
    v
}

pub fn entries1(a: (String, JsonValue)) -> (r: Vec<(String, JsonValue)>)
    ensures
        entries_view(r@) == seq![(a.0@, a.1.jv())],
{
    let ghost av = (a.0@, a.1.jv());
    let mut v: Vec<(String, JsonValue)> = Vec::new();
    v.push(a);
    assert(entries_view(v@) =~= seq![av]);
    v
}

/// A success response.
pub fn ok_response(id: Option<JsonValue>, result: JsonValue) -> (r: JsonValue)
    ensures
        r.jv() == ok_v(opt_jv_owned(id), result.jv()),
{
    json_object(
        entries3(
            entry("jsonrpc", json_string("2.0")),
            entry("id", id_value(id)),
            entry("result", result),
        ),
    )
}

/// An error response.
pub fn err_response(id: Option<JsonValue>, code: i64, message: &str) -> (r: JsonValue)
    ensures
        r.jv() == err_v(opt_jv_owned(id), code, message@),
{
    let error = json_object(entries2(entry("code", json_i64(code)), entry("message", json_string(message))));
    json_object(entries3(entry("jsonrpc", json_string("2.0")), entry("id", id_value(id)), entry("error", error)))
}

// ---------------------------------------------------------------------------
// Dispatching one message
// ---------------------------------------------------------------------------

/// What to do with one client message.
pub enum Dispatch {
    /// Answer with this response.
    Reply(JsonValue),
    /// A notification: no answer.
    NoReply,
    /// Answer with the aggregated tool list.
    ListTools { id: Option<JsonValue> },
    /// Route a tool call to its backend and answer with its outcome.
    CallTool { id: Option<JsonValue>, name: String, arguments: JsonValue },
}

/// The protocol version a client asked for in `initialize`, or `2024-11-05`.
pub open spec fn requested_version(req: JsonV) -> Seq<char> {
    match jstr_opt(jget_opt(jget(req, "params"@), "protocolVersion"@)) {
        Some(v) => v,
        None => "2024-11-05"@,
    }
}

/// The result of `initialize`.
pub open spec fn initialize_result(version: Seq<char>) -> JsonV {
    JsonV::Object(
        seq![
            ("protocolVersion"@, JsonV::Str(version)),
            ("capabilities"@, JsonV::Object(seq![("tools"@, JsonV::Object(Seq::empty()))])),
            ("serverInfo"@, JsonV::Object(seq![("name"@, JsonV::Str("meta-mcp"@)), ("version"@, JsonV::Str("0.1.0"@))])),
        ],
    )
}

/// An object with one member holding an empty array.
pub open spec fn empty_list_v(key: Seq<char>) -> JsonV {
    JsonV::Object(seq![(key, JsonV::Array(Seq::empty()))])
}

/// The parameters of a `tools/call` (an empty object when missing).
pub open spec fn call_params(req: JsonV) -> JsonV {
    match jget(req, "params"@) {
        Some(p) => p,
        None => JsonV::Object(Seq::empty()),
    }
}

/// Whether `d` is what a message is answered: `initialize` echoes the
/// requested protocol version with the proxy's capabilities and identity,
/// the two notifications are not answered, `ping` gets `{}`, `tools/list`
/// and `tools/call` go to the tool cache and the router, resources and
/// prompts are answered with empty lists, and any other method is an error
/// unless the message is a notification (has no id).
pub open spec fn dispatched(req: JsonV, d: Dispatch) -> bool {
    let method = match jstr_opt(jget(req, "method"@)) {
        Some(m) => m,
        None => Seq::empty(),
    };
    let id = jget(req, "id"@);
    if method == "initialize"@ {
        d matches Dispatch::Reply(r) && r.jv() == ok_v(id, initialize_result(requested_version(req)))
    } else if method == "notifications/initialized"@ || method == "notifications/cancelled"@ {
        d is NoReply
    } else if method == "ping"@ {
        d matches Dispatch::Reply(r) && r.jv() == ok_v(id, JsonV::Object(Seq::empty()))
    } else if method == "tools/list"@ {
        d matches Dispatch::ListTools { id: i } && opt_jv_owned(i) == id
    } else if method == "tools/call"@ {
        d matches Dispatch::CallTool { id: i, name, arguments } && opt_jv_owned(i) == id && name@ == match jstr_opt(
            jget(call_params(req), "name"@),
        ) {
            Some(n) => n,
            None => Seq::empty(),
        } && arguments.jv() == match jget(call_params(req), "arguments"@) {
            Some(a) => a,
            None => JsonV::Object(Seq::empty()),
        }
    } else if method == "resources/list"@ {
        d matches Dispatch::Reply(r) && r.jv() == ok_v(id, empty_list_v("resources"@))
    } else if method == "resources/templates/list"@ {
        d matches Dispatch::Reply(r) && r.jv() == ok_v(id, empty_list_v("resourceTemplates"@))
    } else if method == "prompts/list"@ {
        d matches Dispatch::Reply(r) && r.jv() == ok_v(id, empty_list_v("prompts"@))
    } else if id is None {
        d is NoReply
    } else {
        d matches Dispatch::Reply(r) && r.jv() == err_v(id, METHOD_NOT_FOUND, "Method not found: "@ + method)
    }
}

fn copy_opt(v: Option<&JsonValue>) -> (r: Option<JsonValue>)
    ensures
        opt_jv_owned(r) == opt_jv(v),
{
    match v {
        Some(x) => Some(x.deep_clone()),
        None => None,
    }
}

fn empty_object() -> (r: JsonValue)
    ensures
        r.jv() == JsonV::Object(Seq::empty()),
{
    let v: Vec<(String, JsonValue)> = Vec::new();
    assert(entries_view(v@) =~= Seq::<(Seq<char>, JsonV)>::empty());
    json_object(v)
}

fn empty_list(key: &str) -> (r: JsonValue)
    ensures
        r.jv() == empty_list_v(key@),
{
    let items: Vec<JsonValue> = Vec::new();
    assert(items_view(items@) =~= Seq::<JsonV>::empty());
    json_object(entries1(entry(key, json_array(items))))
}

fn initialize_result_exec(version: &str) -> (r: JsonValue)
    ensures
        r.jv() == initialize_result(version@),
{
    let caps = json_object(entries1(entry("tools", empty_object())));
    let info = json_object(entries2(entry("name", json_string("meta-mcp")), entry("version", json_string("0.1.0"))));
    json_object(entries3(entry("protocolVersion", json_string(version)), entry("capabilities", caps), entry("serverInfo", info)))
}

/// Decide what one JSON-RPC message is answered.
pub fn dispatch(req: &JsonValue) -> (d: Dispatch)
    ensures
        dispatched(req.jv(), d),
{
    let method: String = match req.get("method") {
        Some(m) => match m.as_str() {
            Some(s) => s.clone(),
            None => String::new(),
        },
        None => String::new(),
    };
    let id = copy_opt(req.get("id"));
    let m = method.as_str();
    if str_eq(m, "initialize") {
        let version: String = match req.get("params") {
            Some(p) => match p.get("protocolVersion") {
                Some(v) => match v.as_str() {
                    Some(s) => s.clone(),
                    None => owned("2024-11-05"),
                },
                None => owned("2024-11-05"),
            },
            None => owned("2024-11-05"),
        };
        Dispatch::Reply(ok_response(id, initialize_result_exec(version.as_str())))
    } else if str_eq(m, "notifications/initialized") || str_eq(m, "notifications/cancelled") {
        Dispatch::NoReply
    } else if str_eq(m, "ping") {
        Dispatch::Reply(ok_response(id, empty_object()))
    } else if str_eq(m, "tools/list") {
        Dispatch::ListTools { id }
    } else if str_eq(m, "tools/call") {
        let params = match req.get("params") {
            Some(p) => p.deep_clone(),
            None => empty_object(),
        };
        let name: String = match params.get("name") {
            Some(n) => match n.as_str() {
                Some(s) => s.clone(),
                None => String::new(),
            },
            None => String::new(),
        };
        let arguments = match params.get("arguments") {
            Some(a) => a.deep_clone(),
            None => empty_object(),
        };
        Dispatch::CallTool { id, name, arguments }
    } else if str_eq(m, "resources/list") {
        Dispatch::Reply(ok_response(id, empty_list("resources")))
    } else if str_eq(m, "resources/templates/list") {
        Dispatch::Reply(ok_response(id, empty_list("resourceTemplates")))
    } else if str_eq(m, "prompts/list") {
        Dispatch::Reply(ok_response(id, empty_list("prompts")))
    } else {
        match id {
            None => Dispatch::NoReply,
            Some(i) => {
                let mut msg = owned("Method not found: ");
                append_str(&mut msg, m);
                Dispatch::Reply(err_response(Some(i), METHOD_NOT_FOUND, msg.as_str()))
            },
        }
    }
}

/// The answer to `tools/list`: `{"tools": [...]}`.
pub fn finish_tools_list(id: Option<JsonValue>, tools: Vec<JsonValue>) -> (r: JsonValue)
    ensures
        r.jv() == ok_v(opt_jv_owned(id), JsonV::Object(seq![("tools"@, JsonV::Array(items_view(tools@)))])),
{
    let list = json_array(tools);
    ok_response(id, json_object(entries1(entry("tools", list))))
}

/// The answer to `tools/call`: the backend's result, or the error message
/// with code -32000.
pub fn finish_tool_call(id: Option<JsonValue>, outcome: Result<JsonValue, String>) -> (r: JsonValue)
    ensures
        match outcome {
            Ok(v) => r.jv() == ok_v(opt_jv_owned(id), v.jv()),
            Err(e) => r.jv() == err_v(opt_jv_owned(id), SERVER_ERROR, e@),
        },
{
    match outcome {
        Ok(v) => ok_response(id, v),
        Err(e) => err_response(id, SERVER_ERROR, e.as_str()),
    }
}

// ---------------------------------------------------------------------------
// Batches and replies
// ---------------------------------------------------------------------------

/// The messages of a request body: the items of a batch, or the message itself.
pub fn batch_items(req: JsonValue) -> (r: Vec<JsonValue>)
    ensures
        match req.jv() {
            JsonV::Array(items) => items_view(r@) == items,
            _ => r@.len() == 1 && r@[0].jv() == req.jv(),
        },
{
    match req {
        JsonValue::Array(items) => {
            proof {
                lemma_array_view(items);
            }
            items
        },
        other => {
            let mut v: Vec<JsonValue> = Vec::new();
            v.push(other);
            v
        },
    }
}

/// The body of a reply on the POST itself: nothing (202) for no responses,
/// the response itself for one, an array for several.
pub fn reply_payload(responses: Vec<JsonValue>) -> (r: Option<JsonValue>)
    ensures
        responses@.len() == 0 ==> r is None,
        responses@.len() == 1 ==> (r matches Some(v) && v.jv() == responses@[0].jv()),
        responses@.len() > 1 ==> (r matches Some(v) && v.jv() == JsonV::Array(items_view(responses@))),
{
    let mut responses = responses;
    if responses.len() == 0 {
        None
    } else if responses.len() == 1 {
        responses.pop()
    } else {
        Some(json_array(responses))
    }
}

/// Whether a request body is an `initialize` message.
pub fn is_initialize(req: &JsonValue) -> (r: bool)
    ensures
        r == (jstr_opt(jget(req.jv(), "method"@)) == Some("initialize"@)),
{
    match req.get("method") {
        Some(m) => match m.as_str() {
            Some(s) => str_eq(s.as_str(), "initialize"),
            None => false,
        },
        None => false,
    }
}

/// The `Mcp-Session-Id` to answer with: the client's own, else a fresh one
/// when the client is initializing, else none.
pub fn session_header(client_session: Option<String>, is_init: bool) -> (r: Option<String>)
    ensures
        client_session matches Some(s) ==> r == Some(s),
        client_session is None && is_init ==> (r matches Some(s) && is_uuid_v4_text(s@)),
        client_session is None && !is_init ==> r is None,
{
    match client_session {
        Some(s) => Some(s),
        None => if is_init {
            Some(new_uuid_v4())
        } else {
            None
        },
    }
}

/// A fresh session id (a version-4 UUID) for a legacy SSE client.
pub fn new_session_id() -> (r: String)
    ensures
        is_uuid_v4_text(r@),
{
    new_uuid_v4()
}

/// The data of the `endpoint` event that opens a legacy SSE session.
pub fn endpoint_event_data(session_id: &str) -> (r: String)
    ensures
        r@ == "/message?sessionId="@ + session_id@,
{
    let mut r = owned("/message?sessionId=");
    append_str(&mut r, session_id);
    r
}

/// The text served at `/`.
pub fn health_text() -> (r: String)
    ensures
        r@ == "Meta-MCP proxy is running. Connect MCP clients to /sse or /mcp."@,
{
    owned("Meta-MCP proxy is running. Connect MCP clients to /sse or /mcp.")
}

} // verus!
