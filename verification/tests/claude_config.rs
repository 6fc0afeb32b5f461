use meta_mcp::claude::{apply_entry, code_entry, desktop_entry, has_entry, read_obj, status_of};
use meta_mcp::json::{JsonNumber, JsonValue};

fn obj(members: Vec<(&str, JsonValue)>) -> JsonValue {
    JsonValue::Object(members.into_iter().map(|(k, v)| (k.to_string(), v)).collect())
}

fn text(x: &str) -> JsonValue {
    JsonValue::String(x.to_string())
}

fn original() -> JsonValue {
    obj(vec![
        ("numStartups", JsonValue::Number(JsonNumber::PosInt(42))),
        ("theme", text("dark")),
        (
            "mcpServers",
            obj(vec![(
                "github",
                obj(vec![("command", text("npx")), ("args", JsonValue::Array(vec![text("-y"), text("server-github")]))]),
            )]),
        ),
        ("tipsShown", JsonValue::Array(vec![text("a"), text("b")])),
    ])
}

#[test]
fn apply_preserves_other_content() {
    let top = read_obj(Some(original()));
    let entry = obj(vec![("type", text("http")), ("url", text("http://x/mcp"))]);
    let added = apply_entry(top, Some(entry));
    let first_key = added[0].0.clone();
    let v = JsonValue::Object(added);
    assert!(matches!(v.get("numStartups"), Some(JsonValue::Number(JsonNumber::PosInt(42)))));
    assert_eq!(v.get("theme").unwrap().as_str().unwrap(), "dark");
    assert_eq!(v.get("tipsShown").unwrap().as_array().unwrap()[1].as_str().unwrap(), "b");
    let servers = v.get("mcpServers").unwrap();
    assert!(servers.get("github").unwrap().as_object().is_some(), "other server kept");
    assert_eq!(servers.get("meta-mcp").unwrap().get("type").unwrap().as_str().unwrap(), "http");
    // Order kept: the first key stays first.
    assert_eq!(first_key, "numStartups");

    let added = match v {
        JsonValue::Object(m) => m,
        _ => unreachable!(),
    };
    let removed = apply_entry(added, None);
    let v = JsonValue::Object(removed);
    assert!(v.get("mcpServers").unwrap().get("meta-mcp").is_none());
    assert!(v.get("mcpServers").unwrap().get("github").unwrap().as_object().is_some());
    assert!(matches!(v.get("numStartups"), Some(JsonValue::Number(JsonNumber::PosInt(42)))));
}

#[test]
fn apply_creates_or_replaces_servers() {
    let fresh = apply_entry(read_obj(None), Some(text("e")));
    let v = JsonValue::Object(fresh);
    assert_eq!(v.get("mcpServers").unwrap().get("meta-mcp").unwrap().as_str().unwrap(), "e");
    let broken = apply_entry(read_obj(Some(obj(vec![("mcpServers", text("oops"))]))), None);
    let v = JsonValue::Object(broken);
    assert_eq!(v.get("mcpServers").unwrap().as_object().unwrap().len(), 0);
    assert!(read_obj(Some(text("not an object"))).is_empty());
}

#[test]
fn entries_for_both_clients() {
    let c = code_entry();
    assert_eq!(c.get("type").unwrap().as_str().unwrap(), "http");
    assert_eq!(c.get("url").unwrap().as_str().unwrap(), "http://localhost:3663/mcp");
    let d = desktop_entry(Some("/Applications/Meta-MCP.app/Contents/MacOS/meta-mcp".to_string()));
    assert_eq!(d.get("command").unwrap().as_str().unwrap(), "/Applications/Meta-MCP.app/Contents/MacOS/meta-mcp");
    assert_eq!(d.get("args").unwrap().as_array().unwrap()[0].as_str().unwrap(), "--stdio");
    assert_eq!(desktop_entry(None).get("command").unwrap().as_str().unwrap(), "meta-mcp");
}

#[test]
fn registration_status() {
    let with = JsonValue::Object(apply_entry(read_obj(Some(original())), Some(code_entry())));
    assert!(has_entry(Some(with.deep_clone())));
    assert!(!has_entry(Some(original())));
    assert!(!has_entry(None));
    let st = status_of(Some(Some(with)), None);
    assert!(st.code);
    assert!(!st.desktop);
}
