//! The client side of the MCP protocol that the proxy speaks to its
//! backends, whatever the transport: what a backend entry must hold to be
//! started, the requests sent and their ids, and how a reply is matched to
//! its request and read.
use vstd::prelude::*;

use crate::config::{Transport, ServerEntry, opt_pairs, opt_strs, copy_opt_pairs, copy_opt_strings};
use crate::json::{
    JsonV, JsonValue, entries_view, entry, items_view, jget, ji64, json_i64, json_object, json_string,
};
use crate::jsonrpc::{entries2, entries3, int_v};
use crate::text::{append_str, concat, is_blank, is_blank_str, owned, trim, trim_v, ascii_lower, chars_of, find_chars, first_occurrence};

verus! {

// ---------------------------------------------------------------------------
// What an entry must hold
// ---------------------------------------------------------------------------

/// Why a backend could not be started.
pub enum BackendError {
    /// A stdio entry without a command; the entry's name.
    NoCommand(String),
    /// An http or sse entry without a URL; the transport word and the name.
    NoUrl(String, String),
}

pub open spec fn backend_error_text(e: BackendError) -> Seq<char> {
    match e {
        BackendError::NoCommand(name) => "stdio server '"@ + name@ + "' has no command"@,
        BackendError::NoUrl(kind, name) => kind@ + " server '"@ + name@ + "' has no url"@,
    }
}

impl BackendError {
    /// The error's text.
    pub fn message(&self) -> (r: String)
        ensures
            r@ == backend_error_text(*self),
    {
        match self {
            BackendError::NoCommand(name) => {
                let mut s = concat("stdio server '", name.as_str());
                append_str(&mut s, "' has no command");
                s
            },
            BackendError::NoUrl(kind, name) => {
                let mut s = concat(kind.as_str(), " server '");
                append_str(&mut s, name.as_str());
                append_str(&mut s, "' has no url");
                s
            },
        }
    }
}

/// A non-blank text, if there is one.
pub open spec fn non_blank(o: Option<Seq<char>>) -> Option<Seq<char>> {
    match o {
        Some(s) => if is_blank(s) {
            None
        } else {
            Some(s)
        },
        None => None,
    }
}

/// How to start a stdio backend.
pub struct Launch {
    pub program: String,
    pub args: Option<Vec<String>>,
    pub env: Option<Vec<(String, String)>>,
}

/// The launch of a stdio entry: its command (which must not be blank), its
/// arguments and its environment.
pub fn launch_of(entry: &ServerEntry) -> (r: Result<Launch, BackendError>)
    ensures
        match r {
            Ok(l) => non_blank(crate::config::opt_str(entry.command)) == Some(l.program@) && opt_strs(l.args)
                == opt_strs(entry.args) && opt_pairs(l.env) == opt_pairs(entry.env),
            Err(e) => non_blank(crate::config::opt_str(entry.command)) is None && backend_error_text(e)
                == "stdio server '"@ + entry.name@ + "' has no command"@,
        },
{
    match &entry.command {
        Some(c) => {
            if !is_blank_str(c.as_str()) {
                return Ok(
                    Launch {
                        program: owned(c.as_str()),
                        args: copy_opt_strings(&entry.args),
                        env: copy_opt_pairs(&entry.env),
                    },
                );
            }
        },
        None => {},
    }
    Err(BackendError::NoCommand(owned(entry.name.as_str())))
}

/// The URL of an http or sse entry, which must not be blank.
pub fn url_of(entry: &ServerEntry) -> (r: Result<String, BackendError>)
    ensures
        match r {
            Ok(u) => non_blank(crate::config::opt_str(entry.url)) == Some(u@),
            Err(e) => non_blank(crate::config::opt_str(entry.url)) is None && backend_error_text(e) == (
            if entry.transport == Transport::Sse {
                "sse"@
            } else {
                "http"@
            }) + " server '"@ + entry.name@ + "' has no url"@,
        },
{
    match &entry.url {
        Some(u) => {
            if !is_blank_str(u.as_str()) {
                return Ok(owned(u.as_str()));
            }
        },
        None => {},
    }
    let kind = match entry.transport {
        Transport::Sse => owned("sse"),
        _ => owned("http"),
    };
    Err(BackendError::NoUrl(kind, owned(entry.name.as_str())))
}

// ---------------------------------------------------------------------------
// Requests
// ---------------------------------------------------------------------------

/// The ids of the requests sent to one backend: 1, 2, 3, ...
pub struct RequestIds {
    pub last: i64,
}

impl RequestIds {
    pub fn new() -> (r: RequestIds)
        ensures
            r.last == 0,
    {
        RequestIds { last: 0 }
    }

    /// The next id; ids are never reused.
    pub fn next(&mut self) -> (r: i64)
        requires
            old(self).last < i64::MAX,
        ensures
            r == old(self).last + 1,
            final(self).last == r,
    {
        self.last = self.last + 1;
        self.last
    }
}

/// `{"jsonrpc": "2.0", "id": id, "method": method, "params": params}`.
pub open spec fn request_v(id: i64, method: Seq<char>, params: JsonV) -> JsonV {
    JsonV::Object(
        seq![
            ("jsonrpc"@, JsonV::Str("2.0"@)),
            ("id"@, int_v(id)),
            ("method"@, JsonV::Str(method)),
            ("params"@, params),
        ],
    )
}

pub fn request(id: i64, method: &str, params: JsonValue) -> (r: JsonValue)
    ensures
        r.jv() == request_v(id, method@, params.jv()),
{
    let ghost pv = params.jv();
    let idv = json_i64(id);
    assert(idv.jv() == int_v(id));
    let mut m = entries3(entry("jsonrpc", json_string("2.0")), entry("id", idv), entry("method", json_string(method)));
    let ghost before = entries_view(m@);
    m.push(entry("params", params));
    assert(entries_view(m@) =~= before.push(("params"@, pv)));
    assert(entries_view(m@) =~= request_v(id, method@, pv)->Object_0);
    json_object(m)
}

/// The `initialize` parameters, offering a protocol version.
pub open spec fn initialize_params_v(version: Seq<char>) -> JsonV {
    JsonV::Object(
        seq![
            ("protocolVersion"@, JsonV::Str(version)),
            ("capabilities"@, JsonV::Object(Seq::empty())),
            ("clientInfo"@, JsonV::Object(seq![("name"@, JsonV::Str("meta-mcp"@)), ("version"@, JsonV::Str("0.1.0"@))])),
        ],
    )
}

pub fn initialize_params(version: &str) -> (r: JsonValue)
    ensures
        r.jv() == initialize_params_v(version@),
{
    let empty: Vec<(String, JsonValue)> = Vec::new();
    assert(entries_view(empty@) =~= Seq::<(Seq<char>, JsonV)>::empty());
    let info = json_object(entries2(entry("name", json_string("meta-mcp")), entry("version", json_string("0.1.0"))));
    json_object(
        entries3(entry("protocolVersion", json_string(version)), entry("capabilities", json_object(empty)), entry("clientInfo", info)),
    )
}

/// `{"jsonrpc": "2.0", "method": "notifications/initialized"}`.
pub open spec fn initialized_v() -> JsonV {
    JsonV::Object(seq![("jsonrpc"@, JsonV::Str("2.0"@)), ("method"@, JsonV::Str("notifications/initialized"@))])
}

pub fn initialized_notification() -> (r: JsonValue)
    ensures
        r.jv() == initialized_v(),
{
    json_object(entries2(entry("jsonrpc", json_string("2.0")), entry("method", json_string("notifications/initialized"))))
}

/// `{}`, the parameters of `tools/list`.
pub fn no_params() -> (r: JsonValue)
    ensures
        r.jv() == JsonV::Object(Seq::empty()),
{
    let empty: Vec<(String, JsonValue)> = Vec::new();
    assert(entries_view(empty@) =~= Seq::<(Seq<char>, JsonV)>::empty());
    json_object(empty)
}

/// `{"name": name, "arguments": args}`, the parameters of `tools/call`.
pub open spec fn call_params_v(name: Seq<char>, args: JsonV) -> JsonV {
    JsonV::Object(seq![("name"@, JsonV::Str(name)), ("arguments"@, args)])
}

pub fn call_params(name: &str, args: JsonValue) -> (r: JsonValue)
    ensures
        r.jv() == call_params_v(name@, args.jv()),
{
    json_object(entries2(entry("name", json_string(name)), entry("arguments", args)))
}

// ---------------------------------------------------------------------------
// Replies
// ---------------------------------------------------------------------------

/// A message answers request `id` when its `id` is that integer.
pub open spec fn answers(msg: JsonV, id: i64) -> bool {
    match jget(msg, "id"@) {
        Some(v) => ji64(v) == Some(id as int),
        None => false,
    }
}

pub fn is_answer_to(msg: &JsonValue, id: i64) -> (r: bool)
    ensures
        r == answers(msg.jv(), id),
{
    match msg.get("id") {
        Some(v) => match v.as_i64() {
            Some(n) => n == id,
            None => false,
        },
        None => false,
    }
}

/// The id of a message, when it is an integer.
pub fn message_id(msg: &JsonValue) -> (r: Option<i64>)
    ensures
        match r {
            Some(n) => answers(msg.jv(), n),
            None => forall|n: i64| !answers(msg.jv(), n),
        },
{
    match msg.get("id") {
        Some(v) => v.as_i64(),
        None => None,
    }
}

/// What a response carries: its `error` member when there is one, else its
/// `result` (`null` when missing).
pub open spec fn outcome_v(msg: JsonV) -> Result<JsonV, JsonV> {
    match jget(msg, "error"@) {
        Some(e) => Err(e),
        None => Ok(
            match jget(msg, "result"@) {
                Some(r) => r,
                None => JsonV::Null,
            },
        ),
    }
}

pub open spec fn outcome_view(r: Result<JsonValue, JsonValue>) -> Result<JsonV, JsonV> {
    match r {
        Ok(v) => Ok(v.jv()),
        Err(e) => Err(e.jv()),
    }
}

/// The outcome of a response (`extract_result`).
pub fn extract_result(msg: &JsonValue) -> (r: Result<JsonValue, JsonValue>)
    ensures
        outcome_view(r) == outcome_v(msg.jv()),
{
    match msg.get("error") {
        Some(e) => Err(e.deep_clone()),
        None => match msg.get("result") {
            Some(v) => Ok(v.deep_clone()),
            None => Ok(JsonValue::Null),
        },
    }
}

/// Reading one message while waiting for the answer to request `id`:
/// `Some` with the outcome when it is that answer, `None` when it is
/// anything else (a notification, or the answer to another request).
pub fn answer_for(msg: &JsonValue, id: i64) -> (r: Option<Result<JsonValue, JsonValue>>)
    ensures
        match r {
            Some(o) => answers(msg.jv(), id) && outcome_view(o) == outcome_v(msg.jv()),
            None => !answers(msg.jv(), id),
        },
{
    if is_answer_to(msg, id) {
        Some(extract_result(msg))
    } else {
        None
    }
}

/// The first of a batch of messages read off a response stream that answers
/// request `id`, with its outcome; `None` when none of them does.
pub fn first_answer(msgs: &Vec<JsonValue>, id: i64) -> (r: Option<Result<JsonValue, JsonValue>>)
    ensures
        match r {
            Some(o) => exists|k: int|
                0 <= k < msgs@.len() && answers(#[trigger] msgs@[k].jv(), id) && (forall|j: int|
                    0 <= j < k ==> !answers(msgs@[j].jv(), id)) && outcome_view(o) == outcome_v(msgs@[k].jv()),
            None => forall|k: int| 0 <= k < msgs@.len() ==> !answers(#[trigger] msgs@[k].jv(), id),
        },
{
    let mut i: usize = 0;
    while i < msgs.len()
        invariant
            i <= msgs@.len(),
            forall|j: int| 0 <= j < i ==> !answers(#[trigger] msgs@[j].jv(), id),
        decreases msgs@.len() - i,
    {
        match answer_for(&msgs[i], id) {
            Some(o) => {
                assert(answers(msgs@[i as int].jv(), id));
                return Some(o);
            },
            None => {},
        }
        i = i + 1;
    }
    None
}

/// The tools of a `tools/list` result: its `tools` array, or none.
pub open spec fn tools_v(result: JsonV) -> Seq<JsonV> {
    match jget(result, "tools"@) {
        Some(JsonV::Array(items)) => items,
        _ => Seq::empty(),
    }
}

pub fn tools_of(result: &JsonValue) -> (r: Vec<JsonValue>)
    ensures
        items_view(r@) == tools_v(result.jv()),
{
    match result.get("tools") {
        Some(t) => match t.deep_clone() {
            JsonValue::Array(items) => {
                proof {
                    crate::json::lemma_array_view(items);
                }
                items
            },
            _ => {
                let v: Vec<JsonValue> = Vec::new();
                assert(items_view(v@) =~= Seq::<JsonV>::empty());
                v
            },
        },
        None => {
            let v: Vec<JsonValue> = Vec::new();
            assert(items_view(v@) =~= Seq::<JsonV>::empty());
            v
        },
    }
}

/// A line read from a stdio backend, trimmed; `None` for a blank line, which
/// is skipped.
pub fn stdio_line(line: &str) -> (r: Option<String>)
    ensures
        match r {
            Some(t) => t@ == trim_v(line@) && t@.len() > 0,
            None => trim_v(line@).len() == 0,
        },
{
    let t = trim(line);
    if t.as_str().is_empty() {
        None
    } else {
        Some(t)
    }
}

// ---------------------------------------------------------------------------
// Streamable HTTP
// ---------------------------------------------------------------------------

/// The session a backend assigned: the first one it hands out is kept.
pub open spec fn kept_session(current: Option<Seq<char>>, offered: Option<Seq<char>>) -> Option<Seq<char>> {
    match current {
        Some(c) => Some(c),
        None => offered,
    }
}

pub fn keep_session(current: Option<String>, offered: Option<String>) -> (r: Option<String>)
    ensures
        crate::config::opt_str(r) == kept_session(crate::config::opt_str(current), crate::config::opt_str(offered)),
{
    match current {
        Some(c) => Some(c),
        None => offered,
    }
}

/// The protocol version a server negotiated in its `initialize` result.
pub fn negotiated_version(result: &JsonValue) -> (r: Option<String>)
    ensures
        crate::config::opt_str(r) == match jget(result.jv(), "protocolVersion"@) {
            Some(JsonV::Str(s)) => Some(s),
            _ => None::<Seq<char>>,
        },
{
    match result.get("protocolVersion") {
        Some(JsonValue::String(s)) => Some(owned(s.as_str())),
        _ => None,
    }
}

/// The ASCII-lower-cased text (`str::to_ascii_lowercase`).
pub open spec fn lower_v(s: Seq<char>) -> Seq<char> {
    Seq::new(s.len(), |i: int| ascii_lower(s[i]))
}

/// Whether a `Content-Type` announces an event stream (the comparison
/// ignores ASCII case).
pub open spec fn is_event_stream_v(content_type: Seq<char>) -> bool {
    first_occurrence(lower_v(content_type), "text/event-stream"@) is Some
}

pub fn is_event_stream(content_type: &str) -> (r: bool)
    ensures
        r == is_event_stream_v(content_type@),
{
    let v = chars_of(content_type);
    let mut low: Vec<char> = Vec::new();
    let mut i: usize = 0;
    while i < v.len()
        invariant
            v@ == content_type@,
            i <= v@.len(),
            low@ == lower_v(v@).take(i as int),
        decreases v@.len() - i,
    {
        low.push(crate::text::ascii_lower_exec(v[i]));
        assert(low@ =~= lower_v(v@).take(i + 1));
        i = i + 1;
    }
    assert(lower_v(v@).take(i as int) =~= lower_v(v@));
    let pat = chars_of("text/event-stream");
    find_chars(&low, &pat).is_some()
}

/// The text of an HTTP error from a backend: the status, and the body when
/// it is not blank.
pub open spec fn http_error_v(status: Seq<char>, body: Seq<char>) -> Seq<char> {
    "backend returned HTTP "@ + status + if trim_v(body).len() == 0 {
        Seq::empty()
    } else {
        ": "@ + trim_v(body)
    }
}

pub fn http_error_text(status: &str, body: &str) -> (r: String)
    ensures
        r@ == http_error_v(status@, body@),
{
    let mut s = concat("backend returned HTTP ", status);
    let t = trim(body);
    if !t.as_str().is_empty() {
        append_str(&mut s, ": ");
        append_str(&mut s, t.as_str());
    }
    s
}

// ---------------------------------------------------------------------------
// Legacy HTTP+SSE
// ---------------------------------------------------------------------------

/// What `url::Url::parse(base)` and then `join(reference)` give: the
/// serialized URL, or the error's text. One name covers both calls because
/// `join` is a method of the parsed `Url`, a value the library holds no view
/// of; both calls are deterministic, so the pair is a function of the two
/// texts.
pub uninterp spec fn url_join(base: Seq<char>, reference: Seq<char>) -> Result<Seq<char>, Seq<char>>;

/// `Url::parse(base)?.join(reference)?.to_string()`, named by `url_join`.
#[verifier::external_body]
fn join_url(base: &str, reference: &str) -> (r: Result<String, String>)
    ensures
        match r {
            Ok(u) => url_join(base@, reference@) == Ok::<Seq<char>, Seq<char>>(u@),
            Err(e) => url_join(base@, reference@) == Err::<Seq<char>, Seq<char>>(e@),
        },
{
    match url::Url::parse(base).and_then(|b| b.join(reference)) {
        Ok(u) => Ok(u.to_string()),
        Err(e) => Err(e.to_string()),
    }
}

/// Where the legacy transport posts its messages: the path announced by the
/// stream's `endpoint` event, resolved against the stream's URL.
pub fn message_url(stream_url: &str, endpoint: &str) -> (r: Result<String, String>)
    ensures
        match r {
            Ok(u) => url_join(stream_url@, endpoint@) == Ok::<Seq<char>, Seq<char>>(u@),
            Err(e) => url_join(stream_url@, endpoint@) == Err::<Seq<char>, Seq<char>>(e@),
        },
{
    join_url(stream_url, endpoint)
}

} // verus!
