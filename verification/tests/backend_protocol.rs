use meta_mcp::backend::first_answer;
use meta_mcp::backend::{
    answer_for, call_params, extract_result, http_error_text, initialize_params, initialized_notification,
    is_answer_to, is_event_stream, keep_session, launch_of, message_id, message_url, negotiated_version, no_params,
    request, stdio_line, tools_of, url_of, RequestIds,
};
use meta_mcp::config::{ServerEntry, Transport};
use meta_mcp::json::{JsonNumber, JsonValue};

fn s(x: &str) -> String {
    x.to_string()
}

fn obj(members: Vec<(&str, JsonValue)>) -> JsonValue {
    JsonValue::Object(members.into_iter().map(|(k, v)| (k.to_string(), v)).collect())
}

fn text(x: &str) -> JsonValue {
    JsonValue::String(x.to_string())
}

fn num(n: u64) -> JsonValue {
    JsonValue::Number(JsonNumber::PosInt(n))
}

fn entry(transport: Transport, command: Option<&str>, url: Option<&str>) -> ServerEntry {
    ServerEntry {
        id: s("id-1"),
        name: s("Files"),
        transport,
        command: command.map(s),
        args: Some(vec![s("-y"), s("pkg")]),
        env: Some(vec![(s("K"), s("V"))]),
        url: url.map(s),
        headers: None,
        active: true,
    }
}

#[test]
fn launch_needs_a_command() {
    let l = launch_of(&entry(Transport::Stdio, Some("npx"), None)).ok().unwrap();
    assert_eq!(l.program, "npx");
    assert_eq!(l.args, Some(vec![s("-y"), s("pkg")]));
    assert_eq!(l.env, Some(vec![(s("K"), s("V"))]));
    match launch_of(&entry(Transport::Stdio, Some("   "), None)) {
        Err(e) => assert_eq!(e.message(), "stdio server 'Files' has no command"),
        Ok(_) => panic!("blank command"),
    }
    assert!(launch_of(&entry(Transport::Stdio, None, None)).is_err());
}

#[test]
fn remote_entries_need_a_url() {
    assert_eq!(url_of(&entry(Transport::Http, None, Some("http://x/mcp"))).ok().unwrap(), "http://x/mcp");
    match url_of(&entry(Transport::Http, None, Some(""))) {
        Err(e) => assert_eq!(e.message(), "http server 'Files' has no url"),
        Ok(_) => panic!("blank url"),
    }
    match url_of(&entry(Transport::Sse, None, None)) {
        Err(e) => assert_eq!(e.message(), "sse server 'Files' has no url"),
        Ok(_) => panic!("no url"),
    }
}

#[test]
fn ids_count_up() {
    let mut ids = RequestIds::new();
    assert_eq!(ids.next(), 1);
    assert_eq!(ids.next(), 2);
    assert_eq!(ids.last, 2);
}

#[test]
fn request_messages() {
    let r = request(7, "tools/call", call_params("read", obj(vec![("path", text("/tmp"))])));
    assert_eq!(r.get("jsonrpc").unwrap().as_str().unwrap(), "2.0");
    assert_eq!(r.get("id").unwrap().as_i64(), Some(7));
    assert_eq!(r.get("method").unwrap().as_str().unwrap(), "tools/call");
    let p = r.get("params").unwrap();
    assert_eq!(p.get("name").unwrap().as_str().unwrap(), "read");
    assert_eq!(p.get("arguments").unwrap().get("path").unwrap().as_str().unwrap(), "/tmp");
    let init = initialize_params("2024-11-05");
    assert_eq!(init.get("protocolVersion").unwrap().as_str().unwrap(), "2024-11-05");
    assert_eq!(init.get("clientInfo").unwrap().get("name").unwrap().as_str().unwrap(), "meta-mcp");
    assert_eq!(init.get("clientInfo").unwrap().get("version").unwrap().as_str().unwrap(), "0.1.0");
    assert_eq!(init.get("capabilities").unwrap().as_object().unwrap().len(), 0);
    let n = initialized_notification();
    assert!(n.get("id").is_none());
    assert_eq!(n.get("method").unwrap().as_str().unwrap(), "notifications/initialized");
    assert_eq!(no_params().as_object().unwrap().len(), 0);
}

#[test]
fn replies_are_matched_by_id() {
    let reply = obj(vec![("jsonrpc", text("2.0")), ("id", num(3)), ("result", obj(vec![("ok", JsonValue::Bool(true))]))]);
    assert!(is_answer_to(&reply, 3));
    assert!(!is_answer_to(&reply, 4));
    assert_eq!(message_id(&reply), Some(3));
    assert!(answer_for(&reply, 4).is_none());
    match answer_for(&reply, 3) {
        Some(Ok(v)) => assert!(matches!(v.get("ok"), Some(JsonValue::Bool(true)))),
        _ => panic!("expected the result"),
    }
    let note = obj(vec![("method", text("notifications/progress"))]);
    assert!(answer_for(&note, 3).is_none());
    assert_eq!(message_id(&note), None);
    let string_id = obj(vec![("id", text("3"))]);
    assert!(!is_answer_to(&string_id, 3));
}

#[test]
fn outcome_prefers_error() {
    let err = obj(vec![("id", num(1)), ("error", obj(vec![("code", num(1))])), ("result", num(2))]);
    match extract_result(&err) {
        Err(e) => assert_eq!(e.get("code").unwrap().as_i64(), Some(1)),
        Ok(_) => panic!("error expected"),
    }
    match extract_result(&obj(vec![("id", num(1))])) {
        Ok(JsonValue::Null) => {}
        _ => panic!("null result expected"),
    }
}

#[test]
fn tool_lists() {
    let res = obj(vec![("tools", JsonValue::Array(vec![obj(vec![("name", text("a"))]), obj(vec![("name", text("b"))])]))]);
    assert_eq!(tools_of(&res).len(), 2);
    assert!(tools_of(&obj(vec![("tools", text("no"))])).is_empty());
    assert!(tools_of(&JsonValue::Null).is_empty());
}

#[test]
fn stdio_lines_are_trimmed() {
    assert_eq!(stdio_line("  {\"id\":1}\r\n").as_deref(), Some("{\"id\":1}"));
    assert!(stdio_line(" \t\n").is_none());
}

#[test]
fn http_details() {
    assert_eq!(keep_session(Some(s("a")), Some(s("b"))).as_deref(), Some("a"));
    assert_eq!(keep_session(None, Some(s("b"))).as_deref(), Some("b"));
    assert_eq!(keep_session(None, None), None);
    assert_eq!(negotiated_version(&obj(vec![("protocolVersion", text("2025-06-18"))])).as_deref(), Some("2025-06-18"));
    assert_eq!(negotiated_version(&obj(vec![("protocolVersion", num(1))])), None);
    assert!(is_event_stream("Text/Event-Stream; charset=utf-8"));
    assert!(!is_event_stream("application/json"));
    assert!(!is_event_stream(""));
    assert_eq!(http_error_text("500 Internal Server Error", "  boom \n"), "backend returned HTTP 500 Internal Server Error: boom");
    assert_eq!(http_error_text("404 Not Found", " "), "backend returned HTTP 404 Not Found");
}

#[test]
fn message_endpoint_is_resolved() {
    assert_eq!(
        message_url("http://localhost:8000/sse", "/message?sessionId=abc").ok().unwrap(),
        "http://localhost:8000/message?sessionId=abc"
    );
    assert_eq!(message_url("http://h/a/sse", "msg").ok().unwrap(), "http://h/a/msg");
    assert!(message_url("nope", "/m").is_err());
}

#[test]
fn first_answer_in_a_batch() {
    let note = obj(vec![("method", text("notifications/progress"))]);
    let other = obj(vec![("id", num(4)), ("result", text("no"))]);
    let mine = obj(vec![("id", num(3)), ("result", text("yes"))]);
    let again = obj(vec![("id", num(3)), ("result", text("late"))]);
    match first_answer(&vec![note, other, mine, again], 3) {
        Some(Ok(v)) => assert_eq!(v.as_str().unwrap(), "yes"),
        _ => panic!("expected the first answer"),
    }
    assert!(first_answer(&vec![obj(vec![("id", num(4))])], 3).is_none());
    assert!(first_answer(&vec![], 3).is_none());
}
