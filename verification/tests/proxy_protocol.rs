use meta_mcp::jsonrpc::new_session_id;
use meta_mcp::config::{Config, ServerEntry, Transport};
use meta_mcp::endpoints::{boot_status, local_mcp_url, redirect_uri, starting_status, CALLBACK_PORT, PROXY_PORT};
use meta_mcp::import::import_claude_servers;
use meta_mcp::json::{JsonNumber, JsonValue};
use meta_mcp::jsonrpc::{
    batch_items, dispatch, endpoint_event_data, err_response, finish_tool_call, finish_tools_list, health_text,
    is_initialize, ok_response, reply_payload, session_header, Dispatch, METHOD_NOT_FOUND, SERVER_ERROR,
};
use meta_mcp::reconcile::plan_reconcile;

fn s(x: &str) -> String {
    x.to_string()
}

fn obj(members: Vec<(&str, JsonValue)>) -> JsonValue {
    JsonValue::Object(members.into_iter().map(|(k, v)| (k.to_string(), v)).collect())
}

fn text(x: &str) -> JsonValue {
    JsonValue::String(x.to_string())
}

fn num(n: u64) -> JsonValue {
    JsonValue::Number(JsonNumber::PosInt(n))
}

fn server(id: &str, name: &str) -> ServerEntry {
    ServerEntry {
        id: s(id),
        name: s(name),
        transport: Transport::Stdio,
        command: Some(s("x")),
        args: None,
        env: None,
        url: None,
        headers: None,
        active: true,
    }
}

#[test]
fn initialize_echoes_the_version() {
    let req = obj(vec![("jsonrpc", text("2.0")), ("id", num(1)), ("method", text("initialize")), ("params", obj(vec![("protocolVersion", text("2025-06-18"))]))]);
    assert!(is_initialize(&req));
    match dispatch(&req) {
        Dispatch::Reply(r) => {
            let res = r.get("result").unwrap();
            assert_eq!(res.get("protocolVersion").unwrap().as_str().unwrap(), "2025-06-18");
            assert_eq!(res.get("serverInfo").unwrap().get("name").unwrap().as_str().unwrap(), "meta-mcp");
            assert_eq!(r.get("id").unwrap().as_i64(), Some(1));
        }
        _ => panic!("expected a reply"),
    }
    let bare = obj(vec![("id", num(2)), ("method", text("initialize"))]);
    match dispatch(&bare) {
        Dispatch::Reply(r) => assert_eq!(r.get("result").unwrap().get("protocolVersion").unwrap().as_str().unwrap(), "2024-11-05"),
        _ => panic!("expected a reply"),
    }
}

#[test]
fn methods_are_dispatched() {
    assert!(matches!(dispatch(&obj(vec![("method", text("notifications/initialized"))])), Dispatch::NoReply));
    match dispatch(&obj(vec![("id", num(3)), ("method", text("ping"))])) {
        Dispatch::Reply(r) => assert_eq!(r.get("result").unwrap().as_object().unwrap().len(), 0),
        _ => panic!("ping"),
    }
    assert!(matches!(dispatch(&obj(vec![("id", num(4)), ("method", text("tools/list"))])), Dispatch::ListTools { .. }));
    match dispatch(&obj(vec![("id", num(5)), ("method", text("tools/call")), ("params", obj(vec![("name", text("files__read"))]))])) {
        Dispatch::CallTool { name, arguments, .. } => {
            assert_eq!(name, "files__read");
            assert_eq!(arguments.as_object().unwrap().len(), 0);
        }
        _ => panic!("tools/call"),
    }
    match dispatch(&obj(vec![("id", num(6)), ("method", text("prompts/list"))])) {
        Dispatch::Reply(r) => assert_eq!(r.get("result").unwrap().get("prompts").unwrap().as_array().unwrap().len(), 0),
        _ => panic!("prompts/list"),
    }
    match dispatch(&obj(vec![("id", num(7)), ("method", text("foo/bar"))])) {
        Dispatch::Reply(r) => {
            let e = r.get("error").unwrap();
            assert_eq!(e.get("code").unwrap().as_i64(), Some(METHOD_NOT_FOUND));
            assert_eq!(e.get("message").unwrap().as_str().unwrap(), "Method not found: foo/bar");
        }
        _ => panic!("unknown method"),
    }
    assert!(matches!(dispatch(&obj(vec![("method", text("foo/bar"))])), Dispatch::NoReply));
}

#[test]
fn responses_and_batches() {
    let ok = ok_response(None, text("r"));
    assert!(matches!(ok.get("id"), Some(JsonValue::Null)));
    let err = err_response(Some(num(1)), SERVER_ERROR, "boom");
    assert_eq!(err.get("error").unwrap().get("code").unwrap().as_i64(), Some(-32000));
    let call = finish_tool_call(Some(num(2)), Err(s("server 'x' is not connected")));
    assert_eq!(call.get("error").unwrap().get("message").unwrap().as_str().unwrap(), "server 'x' is not connected");
    let list = finish_tools_list(Some(num(3)), vec![text("t")]);
    assert_eq!(list.get("result").unwrap().get("tools").unwrap().as_array().unwrap().len(), 1);
    assert_eq!(batch_items(JsonValue::Array(vec![num(1), num(2)])).len(), 2);
    assert_eq!(batch_items(num(1)).len(), 1);
    assert!(reply_payload(vec![]).is_none());
    assert!(matches!(reply_payload(vec![num(1)]), Some(JsonValue::Number(_))));
    assert!(matches!(reply_payload(vec![num(1), num(2)]), Some(JsonValue::Array(v)) if v.len() == 2));
}

#[test]
fn sessions_and_texts() {
    assert_eq!(session_header(Some(s("abc")), true).as_deref(), Some("abc"));
    assert_eq!(session_header(None, true).unwrap().len(), 36);
    assert!(session_header(None, false).is_none());
    assert_eq!(endpoint_event_data("xyz"), "/message?sessionId=xyz");
    assert_eq!(health_text(), "Meta-MCP proxy is running. Connect MCP clients to /sse or /mcp.");
}

#[test]
fn ports_and_status() {
    assert_eq!(PROXY_PORT, 3663);
    assert_eq!(CALLBACK_PORT, 3669);
    assert_eq!(local_mcp_url(), "http://localhost:3663/mcp");
    assert_eq!(redirect_uri(), "http://127.0.0.1:3669/callback");
    let st = starting_status();
    assert_eq!((st.state.as_str(), st.message.as_str()), ("starting", "Wird gestartet…"));
    let run = boot_status(Some(Ok(())));
    assert_eq!((run.state.as_str(), run.message.as_str()), ("running", "SSE läuft auf :3663"));
    let busy = boot_status(Some(Err(s("Address in use"))));
    assert_eq!(busy.message, "Fehler: Port 3663 belegt (Address in use)");
    let gone = boot_status(None);
    assert_eq!((gone.state.as_str(), gone.message.as_str()), ("error", "Server konnte nicht gestartet werden"));
    let mut st = st;
    st.set("running", "ok");
    assert_eq!((st.state.as_str(), st.message.as_str(), st.port), ("running", "ok", 3663));
}

#[test]
fn reconcile_drops_then_spawns() {
    let servers = vec![server("a", "A"), server("b", "B"), server("c", "C")];
    let plan = plan_reconcile(&vec![s("a"), s("c"), s("zzz")], &vec![s("a"), s("b")], &servers);
    assert_eq!(plan.to_drop, vec![s("b")]);
    let spawn: Vec<&str> = plan.to_spawn.iter().map(|e| e.id.as_str()).collect();
    assert_eq!(spawn, vec!["c"]);
}

#[test]
fn import_skips_known_names() {
    let config = Config { servers: vec![server("a", "github")], profiles: vec![], active_profile: None };
    let doc = obj(vec![(
        "mcpServers",
        obj(vec![
            ("github", obj(vec![("command", text("npx"))])),
            ("fs", obj(vec![("command", text("npx")), ("args", JsonValue::Array(vec![text("-y"), num(3), text("fs")])), ("env", obj(vec![("HOME", text("/h")), ("N", num(1))]))])),
            ("remote", obj(vec![("url", text("http://r/sse")), ("command", text("ignored"))])),
        ]),
    )]);
    let out = import_claude_servers(&config, &doc);
    assert_eq!(out.len(), 2);
    assert_eq!(out[0].name, "fs");
    assert_eq!(out[0].transport, Transport::Stdio);
    assert_eq!(out[0].args, Some(vec![s("-y"), s("fs")]));
    assert_eq!(out[0].env, Some(vec![(s("HOME"), s("/h"))]));
    assert!(!out[0].active);
    assert_eq!(out[0].id.len(), 36);
    assert_eq!(out[1].transport, Transport::Sse);
    assert_eq!(out[1].url.as_deref(), Some("http://r/sse"));
    assert!(out[1].command.is_none());
    assert!(import_claude_servers(&config, &text("x")).is_empty());
}

#[test]
fn session_ids_are_fresh_uuids() {
    let a = new_session_id();
    let b = new_session_id();
    assert_eq!(a.len(), 36);
    assert_eq!(a.as_bytes()[14], b'4');
    assert_ne!(a, b);
}
