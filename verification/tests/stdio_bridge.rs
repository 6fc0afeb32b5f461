use meta_mcp::json::{JsonNumber, JsonValue};
use meta_mcp::bridge::{forward_line, reply_line, request_id_text, startup_step, unreachable_reply, StartupStep, PROBE_RETRIES};
use meta_mcp::endpoints::{health_url, mcp_url};

#[test]
fn bridge_urls() {
    assert_eq!(mcp_url(), "http://127.0.0.1:3663/mcp");
    assert_eq!(health_url(), "http://127.0.0.1:3663/");
}

#[test]
fn lines_are_forwarded_trimmed() {
    assert_eq!(forward_line("  {\"jsonrpc\":\"2.0\"}  ").as_deref(), Some("{\"jsonrpc\":\"2.0\"}"));
    assert!(forward_line("   ").is_none());
    assert!(reply_line("").is_none());
    assert_eq!(reply_line("\n{\"id\":1}\n").as_deref(), Some("{\"id\":1}"));
}

#[test]
fn unreachable_error_line() {
    assert_eq!(
        unreachable_reply("5", "error sending request for url (\"http://127.0.0.1:3663/mcp\")"),
        "{\"jsonrpc\":\"2.0\",\"id\":5,\"error\":{\"code\":-32000,\"message\":\"Meta-MCP proxy unreachable: error sending request for url ('http://127.0.0.1:3663/mcp')\"}}"
    );
    assert_eq!(
        unreachable_reply("\"abc\"", "x"),
        "{\"jsonrpc\":\"2.0\",\"id\":\"abc\",\"error\":{\"code\":-32000,\"message\":\"Meta-MCP proxy unreachable: x\"}}"
    );
}

#[test]
fn startup_waits_a_bounded_time() {
    assert!(matches!(startup_step(0, true), StartupStep::Ready));
    assert!(matches!(startup_step(0, false), StartupStep::Launch));
    assert!(matches!(startup_step(1, false), StartupStep::Wait));
    assert!(matches!(startup_step(PROBE_RETRIES - 1, false), StartupStep::Wait));
    assert!(matches!(startup_step(PROBE_RETRIES, false), StartupStep::GiveUp));
    assert!(matches!(startup_step(PROBE_RETRIES, true), StartupStep::Ready));
    // Count the probes of a proxy that never comes up.
    let mut probes = 0;
    let mut launches = 0;
    let mut attempt = 0;
    loop {
        probes += 1;
        match startup_step(attempt, false) {
            StartupStep::Launch => launches += 1,
            StartupStep::Wait => {}
            StartupStep::GiveUp => break,
            StartupStep::Ready => unreachable!(),
        }
        attempt += 1;
    }
    assert_eq!(probes, 31);
    assert_eq!(launches, 1);
}

#[test]
fn request_ids_as_json_text() {
    let msg = |id: JsonValue| JsonValue::Object(vec![("jsonrpc".to_string(), JsonValue::String("2.0".to_string())), ("id".to_string(), id)]);
    assert_eq!(request_id_text(&msg(JsonValue::Number(JsonNumber::PosInt(5)))).as_deref(), Some("5"));
    assert_eq!(request_id_text(&msg(JsonValue::Number(JsonNumber::NegInt(-7)))).as_deref(), Some("-7"));
    assert_eq!(request_id_text(&msg(JsonValue::String("a\"b\\c\n\u{1}".to_string()))).as_deref(), Some("\"a\\\"b\\\\c\\n\\u0001\""));
    assert_eq!(request_id_text(&msg(JsonValue::Null)).as_deref(), Some("null"));
    let nested = JsonValue::Array(vec![JsonValue::Bool(true), JsonValue::Object(vec![("k".to_string(), JsonValue::Array(vec![]))])]);
    assert_eq!(request_id_text(&msg(nested)).as_deref(), Some("[true,{\"k\":[]}]"));
    assert_eq!(request_id_text(&JsonValue::Object(vec![])), None);
    assert_eq!(
        unreachable_reply(&request_id_text(&msg(JsonValue::Number(JsonNumber::NegInt(i64::MIN)))).unwrap(), "x"),
        "{\"jsonrpc\":\"2.0\",\"id\":-9223372036854775808,\"error\":{\"code\":-32000,\"message\":\"Meta-MCP proxy unreachable: x\"}}"
    );
}
