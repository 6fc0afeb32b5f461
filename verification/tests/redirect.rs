use meta_mcp::callback::{
    callback_response, handle_redirect, handle_request_bytes, not_found_response, path_of_request, query_part, redirect_params,
    CallbackReply, RedirectOutcome,
};

#[test]
fn request_path_is_the_second_word() {
    assert_eq!(path_of_request("GET /callback?code=1&state=2 HTTP/1.1\r\nHost: x\r\n\r\n"), "/callback?code=1&state=2");
    assert_eq!(path_of_request("GET  /favicon.ico   HTTP/1.1"), "/favicon.ico");
    assert_eq!(path_of_request(""), "");
    assert_eq!(path_of_request("GET"), "");
    assert_eq!(query_part("/callback?a=1?b"), "a=1?b");
    assert_eq!(query_part("/callback"), "");
}

#[test]
fn redirect_parameters_last_wins_and_decode() {
    let p = redirect_params("code=a%20b&state=s1&state=s2&error=x+y&other=1");
    assert_eq!(p.code.as_deref(), Some("a b"));
    assert_eq!(p.state.as_deref(), Some("s2"));
    assert_eq!(p.error.as_deref(), Some("x y"));
    let none = redirect_params("");
    assert!(none.code.is_none() && none.state.is_none() && none.error.is_none());
}

#[test]
fn stray_requests_are_ignored() {
    assert!(handle_redirect("GET /favicon.ico HTTP/1.1\r\n\r\n", "st").is_none());
    assert_eq!(not_found_response(), "HTTP/1.1 404 Not Found\r\nContent-Length: 0\r\n\r\n");
}

#[test]
fn matching_state_with_code_completes() {
    let r = handle_redirect("GET /callback?code=abc&state=st HTTP/1.1\r\n\r\n", "st").unwrap();
    assert!(r.ok);
    assert_eq!(r.message, "Meta-MCP: Login erfolgreich. Du kannst dieses Fenster schließen.");
    match r.outcome {
        RedirectOutcome::Code(c) => assert_eq!(c, "abc"),
        _ => panic!("expected the code"),
    }
}

#[test]
fn wrong_state_waits() {
    let r = handle_redirect("GET /callback?code=abc&state=other HTTP/1.1", "st").unwrap();
    assert!(!r.ok);
    assert_eq!(r.message, "Ungültiger state-Parameter.");
    assert!(matches!(r.outcome, RedirectOutcome::Wait));
    let r = handle_redirect("GET /callback?state=st HTTP/1.1", "st").unwrap();
    assert!(!r.ok);
    assert_eq!(r.message, "Kein Authorization-Code erhalten.");
    assert!(matches!(r.outcome, RedirectOutcome::Wait));
}

#[test]
fn error_parameter_denies() {
    let r = handle_redirect("GET /callback?error=access_denied&state=st HTTP/1.1", "st").unwrap();
    assert!(!r.ok);
    assert_eq!(r.message, "Login fehlgeschlagen: access_denied");
    match r.outcome {
        RedirectOutcome::Denied(e) => assert_eq!(e, "access_denied"),
        _ => panic!("expected a denial"),
    }
}

#[test]
fn response_counts_bytes() {
    let reply = CallbackReply { ok: false, message: "ß".to_string(), outcome: RedirectOutcome::Wait };
    let text = callback_response(&reply);
    assert!(text.starts_with("HTTP/1.1 400 Bad Request\r\nContent-Type: text/html; charset=utf-8\r\nContent-Length: "));
    let (head, body) = text.split_once("\r\n\r\n").unwrap();
    let len: usize = head.rsplit("Content-Length: ").next().unwrap().split("\r\n").next().unwrap().parse().unwrap();
    assert_eq!(len, body.len());
    assert!(body.contains("<p style=\"font-size:16px\">ß</p></body>"));
    assert!(head.ends_with("Connection: close"));
    let ok = CallbackReply { ok: true, message: "x".to_string(), outcome: RedirectOutcome::Wait };
    assert!(callback_response(&ok).starts_with("HTTP/1.1 200 OK\r\n"));
}

#[test]
fn request_bytes_are_read_lossily() {
    let r = handle_request_bytes(b"GET /callback?code=c&state=s HTTP/1.1\r\n\xff\xfe\r\n\r\n", "s").unwrap();
    assert!(matches!(r.outcome, RedirectOutcome::Code(c) if c == "c"));
    assert!(handle_request_bytes(b"\xff GET /x", "s").is_none());
}
