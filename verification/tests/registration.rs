use meta_mcp::config::Transport;
use meta_mcp::register::{default_true, register_entry, RegisterRequest};

fn req(name: &str) -> RegisterRequest {
    RegisterRequest {
        name: name.to_string(),
        transport: Transport::Http,
        command: None,
        args: None,
        env: None,
        url: Some("http://127.0.0.1:7000/mcp".to_string()),
        active: default_true(),
    }
}

#[test]
fn registration_defaults_to_active() {
    assert!(default_true());
    let e = register_entry(req("Notes")).ok().unwrap();
    assert_eq!(e.id, "");
    assert_eq!(e.name, "Notes");
    assert_eq!(e.transport, Transport::Http);
    assert_eq!(e.url.as_deref(), Some("http://127.0.0.1:7000/mcp"));
    assert!(e.headers.is_none());
    assert!(e.active);
}

#[test]
fn blank_name_is_refused() {
    match register_entry(req("  ")) {
        Err(e) => assert_eq!(e.message(), "name is required"),
        Ok(_) => panic!("blank name"),
    }
}
