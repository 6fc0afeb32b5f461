//! The loopback redirect of the OAuth login: reading the request line the
//! browser sends, deciding what it means for the login, and the page
//! answered.
use vstd::prelude::*;

use crate::config::opt_str;
use crate::text::{
    lossy_utf8, utf8_lossy, append_str, chars_of, concat, dec, decimal, first_index_of, find_char, has_prefix, is_ws, is_ws_exec,
    owned, starts_with_chars, str_eq, string_from_range,
};

verus! {

// ---------------------------------------------------------------------------
// The request line
// ---------------------------------------------------------------------------

/// The first line of a text (`str::lines().next()`, empty when there is
/// none): up to the first `\n`, without a `\r` just before it.
pub open spec fn first_line(req: Seq<char>) -> Seq<char> {
    match first_index_of(req, '\n') {
        Some(i) => {
            let l = req.subrange(0, i);
            if l.len() > 0 && l.last() == '\r' {
                l.drop_last()
            } else {
                l
            }
        },
        None => req,
    }
}

/// `s` without leading whitespace.
pub open spec fn skip_ws(s: Seq<char>) -> Seq<char>
    decreases s.len(),
{
    if s.len() > 0 && is_ws(s[0]) {
        skip_ws(s.drop_first())
    } else {
        s
    }
}

/// The leading run of non-whitespace characters.
pub open spec fn token(s: Seq<char>) -> Seq<char>
    decreases s.len(),
{
    if s.len() == 0 || is_ws(s[0]) {
        Seq::empty()
    } else {
        seq![s[0]] + token(s.drop_first())
    }
}

/// The second whitespace-separated word (`split_whitespace().nth(1)`), empty
/// when there is none.
pub open spec fn second_word(s: Seq<char>) -> Seq<char> {
    let a = skip_ws(s);
    let b = a.subrange(token(a).len() as int, a.len() as int);
    token(skip_ws(b))
}

/// The request path of an HTTP request.
pub open spec fn request_path(req: Seq<char>) -> Seq<char> {
    second_word(first_line(req))
}

/// The query of a path: what follows the first `?`.
pub open spec fn query_of(path: Seq<char>) -> Seq<char> {
    match first_index_of(path, '?') {
        Some(i) => path.subrange(i + 1, path.len() as int),
        None => Seq::empty(),
    }
}

proof fn lemma_skip_ws(s: Seq<char>, k: int)
    requires
        0 <= k <= s.len(),
        forall|j: int| 0 <= j < k ==> is_ws(s[j]),
        k == s.len() || !is_ws(s[k]),
    ensures
        skip_ws(s) == s.subrange(k, s.len() as int),
    decreases k,
{
    if k > 0 {
        assert(skip_ws(s) == skip_ws(s.drop_first()));
        lemma_skip_ws(s.drop_first(), k - 1);
        assert(s.drop_first().subrange(k - 1, s.drop_first().len() as int) =~= s.subrange(k, s.len() as int));
    } else {
        assert(s.subrange(0, s.len() as int) =~= s);
    }
}

proof fn lemma_token(s: Seq<char>, k: int)
    requires
        0 <= k <= s.len(),
        forall|j: int| 0 <= j < k ==> !is_ws(s[j]),
        k == s.len() || is_ws(s[k]),
    ensures
        token(s) == s.subrange(0, k),
    decreases k,
{
    if k == 0 {
        assert(s.subrange(0, 0) =~= Seq::<char>::empty());
    } else {
        lemma_token(s.drop_first(), k - 1);
        assert(seq![s[0]] + s.drop_first().subrange(0, k - 1) =~= s.subrange(0, k));
    }
}

/// Positions `[a, b)` of the second word of `s[from..to]`.
fn second_word_span(s: &Vec<char>, from: usize, to: usize) -> (r: (usize, usize))
    requires
        from <= to <= s@.len(),
    ensures
        r.0 <= r.1 <= to,
        s@.subrange(r.0 as int, r.1 as int) == second_word(s@.subrange(from as int, to as int)),
{
    let ghost line = s@.subrange(from as int, to as int);
    let mut i = from;
    while i < to && is_ws_exec(s[i])
        invariant
            from <= i <= to <= s@.len(),
            forall|j: int| from <= j < i ==> is_ws(s@[j]),
        decreases to - i,
    {
        i = i + 1;
    }
    let a0 = i;
    while i < to && !is_ws_exec(s[i])
        invariant
            a0 <= i <= to <= s@.len(),
            forall|j: int| a0 <= j < i ==> !is_ws(s@[j]),
        decreases to - i,
    {
        i = i + 1;
    }
    let a1 = i;
    while i < to && is_ws_exec(s[i])
        invariant
            a1 <= i <= to <= s@.len(),
            forall|j: int| a1 <= j < i ==> is_ws(s@[j]),
        decreases to - i,
    {
        i = i + 1;
    }
    let b0 = i;
    while i < to && !is_ws_exec(s[i])
        invariant
            b0 <= i <= to <= s@.len(),
            forall|j: int| b0 <= j < i ==> !is_ws(s@[j]),
        decreases to - i,
    {
        i = i + 1;
    }
    proof {
        let a = s@.subrange(a0 as int, to as int);
        lemma_skip_ws(line, (a0 - from) as int);
        assert(line.subrange((a0 - from) as int, line.len() as int) =~= a);
        lemma_token(a, (a1 - a0) as int);
        let b = a.subrange((a1 - a0) as int, a.len() as int);
        assert(b =~= s@.subrange(a1 as int, to as int));
        lemma_skip_ws(b, (b0 - a1) as int);
        let c = s@.subrange(b0 as int, to as int);
        assert(b.subrange((b0 - a1) as int, b.len() as int) =~= c);
        lemma_token(c, (i - b0) as int);
        assert(c.subrange(0, (i - b0) as int) =~= s@.subrange(b0 as int, i as int));
    }
    (b0, i)
}

/// The request path of an HTTP request (`"GET /callback?code=... HTTP/1.1"`
/// gives `/callback?code=...`).
pub fn path_of_request(req: &str) -> (r: String)
    ensures
        r@ == request_path(req@),
{
    let s = chars_of(req);
    let end = match find_char(&s, '\n') {
        Some(i) => {
            if i > 0 && s[i - 1] == '\r' {
                i - 1
            } else {
                i
            }
        },
        None => s.len(),
    };
    proof {
        match first_index_of(s@, '\n') {
            Some(i) => {
                let l = s@.subrange(0, i);
                if l.len() > 0 && l.last() == '\r' {
                    assert(l.drop_last() =~= s@.subrange(0, end as int));
                } else {
                    assert(l =~= s@.subrange(0, end as int));
                }
            },
            None => {
                assert(s@ =~= s@.subrange(0, end as int));
            },
        }
    }
    let (a, b) = second_word_span(&s, 0, end);
    string_from_range(&s, a, b)
}

/// The query of a path.
pub fn query_part(path: &str) -> (r: String)
    ensures
        r@ == query_of(path@),
{
    let s = chars_of(path);
    match find_char(&s, '?') {
        Some(i) => {
            let n = s.len();
            assert(i < n);
            string_from_range(&s, i + 1, n)
        },
        None => String::new(),
    }
}

// ---------------------------------------------------------------------------
// The query
// ---------------------------------------------------------------------------

/// The name/value pairs of an `application/x-www-form-urlencoded` text.
pub uninterp spec fn form_decoded(query: Seq<char>) -> Seq<(Seq<char>, Seq<char>)>;

pub open spec fn pairs_view(v: Seq<(String, String)>) -> Seq<(Seq<char>, Seq<char>)> {
    Seq::new(v.len(), |i: int| (v[i].0@, v[i].1@))
}

/// `url::form_urlencoded::parse(query.as_bytes())`: the pairs, percent- and
/// `+`-decoded, in order; named by `form_decoded`.
#[verifier::external_body]
fn decode_form(query: &str) -> (r: Vec<(String, String)>)
    ensures
        pairs_view(r@) == form_decoded(query@),
{
    url::form_urlencoded::parse(query.as_bytes()).map(|(k, v)| (k.into_owned(), v.into_owned())).collect()
}

/// The value of the last pair with the given name.
pub open spec fn last_value(pairs: Seq<(Seq<char>, Seq<char>)>, name: Seq<char>) -> Option<Seq<char>>
    decreases pairs.len(),
{
    if pairs.len() == 0 {
        None
    } else if pairs.last().0 == name {
        Some(pairs.last().1)
    } else {
        last_value(pairs.drop_last(), name)
    }
}

/// The `code`, `state` and `error` parameters of a redirect.
pub struct RedirectParams {
    pub code: Option<String>,
    pub state: Option<String>,
    pub error: Option<String>,
}

pub fn redirect_params(query: &str) -> (r: RedirectParams)
    ensures
        opt_str(r.code) == last_value(form_decoded(query@), "code"@),
        opt_str(r.state) == last_value(form_decoded(query@), "state"@),
        opt_str(r.error) == last_value(form_decoded(query@), "error"@),
{
    let pairs = decode_form(query);
    let ghost pv = pairs_view(pairs@);
    let mut code: Option<String> = None;
    let mut state: Option<String> = None;
    let mut error: Option<String> = None;
    let mut i: usize = 0;
    while i < pairs.len()
        invariant
            pv == pairs_view(pairs@),
            i <= pairs@.len(),
            opt_str(code) == last_value(pv.take(i as int), "code"@),
            opt_str(state) == last_value(pv.take(i as int), "state"@),
            opt_str(error) == last_value(pv.take(i as int), "error"@),
        decreases pairs@.len() - i,
    {
        proof {
            reveal_strlit("code");
            reveal_strlit("state");
            reveal_strlit("error");
            assert("code"@ != "state"@) by { assert("code"@[0] != "state"@[0]); }
            assert("code"@ != "error"@) by { assert("code"@[0] != "error"@[0]); }
            assert("state"@ != "error"@) by { assert("state"@[0] != "error"@[0]); }
        }
        assert(pv.take(i + 1).drop_last() =~= pv.take(i as int));
        assert(pv.take(i + 1).last() == (pairs@[i as int].0@, pairs@[i as int].1@));
        let k = pairs[i].0.as_str();
        let v = pairs[i].1.as_str();
        if str_eq(k, "code") {
            code = Some(owned(v));
        } else if str_eq(k, "state") {
            state = Some(owned(v));
        } else if str_eq(k, "error") {
            error = Some(owned(v));
        }
        i = i + 1;
    }
    assert(pv.take(i as int) =~= pv);
    RedirectParams { code, state, error }
}

// ---------------------------------------------------------------------------
// The decision
// ---------------------------------------------------------------------------

/// What a redirect means for the login.
pub enum RedirectOutcome {
    /// Keep waiting for another request.
    Wait,
    /// The authorization code.
    Code(String),
    /// The authorization was refused; the `error` parameter.
    Denied(String),
}

/// The answer to a request on the callback path, and what it means.
pub struct CallbackReply {
    /// `200 OK` when true, `400 Bad Request` otherwise.
    pub ok: bool,
    /// The sentence shown in the browser.
    pub message: String,
    pub outcome: RedirectOutcome,
}

pub open spec fn is_denied_with(o: RedirectOutcome, e: Seq<char>) -> bool {
    match o {
        RedirectOutcome::Denied(d) => d@ == e,
        _ => false,
    }
}

pub open spec fn is_code(o: RedirectOutcome, c: Seq<char>) -> bool {
    match o {
        RedirectOutcome::Code(x) => x@ == c,
        _ => false,
    }
}

pub open spec fn callback_path() -> Seq<char> {
    "/callback"@
}

/// The sentence, the status and the outcome of a redirect carrying these
/// parameters, when `expected` is the state the login sent.
pub open spec fn reply_ok(
    code: Option<Seq<char>>,
    state: Option<Seq<char>>,
    error: Option<Seq<char>>,
    expected: Seq<char>,
    r: CallbackReply,
) -> bool {
    match error {
        Some(e) => !r.ok && r.message@ == "Login fehlgeschlagen: "@ + e && is_denied_with(r.outcome, e),
        None => if state != Some(expected) {
            !r.ok && r.message@ == "Ungültiger state-Parameter."@ && r.outcome is Wait
        } else {
            match code {
                Some(c) => r.ok && r.message@ == "Meta-MCP: Login erfolgreich. Du kannst dieses Fenster schließen."@
                    && is_code(r.outcome, c),
                None => !r.ok && r.message@ == "Kein Authorization-Code erhalten."@ && r.outcome is Wait,
            }
        },
    }
}

/// Decide on one request to the loopback listener: `None` for anything but
/// the callback path (answered `404` and ignored); otherwise the reply and
/// the outcome. An `error` parameter ends the login; a matching `state` with
/// a `code` completes it; anything else is answered and waited past.
pub fn handle_redirect(request: &str, expected_state: &str) -> (r: Option<CallbackReply>)
    ensures
        match r {
            None => !has_prefix(request_path(request@), callback_path()),
            Some(reply) => has_prefix(request_path(request@), callback_path()) && {
                let pairs = form_decoded(query_of(request_path(request@)));
                reply_ok(
                    last_value(pairs, "code"@),
                    last_value(pairs, "state"@),
                    last_value(pairs, "error"@),
                    expected_state@,
                    reply,
                )
            },
        },
{
    let path = path_of_request(request);
    let pv = chars_of(path.as_str());
    let cb = chars_of("/callback");
    if !starts_with_chars(&pv, &cb) {
        return None;
    }
    let query = query_part(path.as_str());
    let p = redirect_params(query.as_str());
    let state_ok = match &p.state {
        Some(s) => str_eq(s.as_str(), expected_state),
        None => false,
    };
    let reply = match p.error {
        Some(e) => {
            let message = concat("Login fehlgeschlagen: ", e.as_str());
            CallbackReply { ok: false, message, outcome: RedirectOutcome::Denied(e) }
        },
        None => {
            if !state_ok {
                CallbackReply { ok: false, message: owned("Ungültiger state-Parameter."), outcome: RedirectOutcome::Wait }
            } else {
                match p.code {
                    Some(c) => CallbackReply {
                        ok: true,
                        message: owned("Meta-MCP: Login erfolgreich. Du kannst dieses Fenster schließen."),
                        outcome: RedirectOutcome::Code(c),
                    },
                    None => CallbackReply {
                        ok: false,
                        message: owned("Kein Authorization-Code erhalten."),
                        outcome: RedirectOutcome::Wait,
                    },
                }
            }
        },
    };
    Some(reply)
}

/// Law: a login completes only with the code of a redirect that carries the
/// state the login sent and no error; an error always ends it, whatever the
/// state.
pub proof fn lemma_code_needs_state(
    code: Option<Seq<char>>,
    state: Option<Seq<char>>,
    error: Option<Seq<char>>,
    expected: Seq<char>,
    r: CallbackReply,
)
    requires
        reply_ok(code, state, error, expected, r),
    ensures
        r.outcome is Code ==> error is None && state == Some(expected) && code == Some(r.outcome->Code_0@) && r.ok,
        error is Some ==> r.outcome is Denied,
        r.ok <==> r.outcome is Code,
{
}

/// Decide on the bytes a connection to the loopback listener sent (read as
/// UTF-8, invalid sequences replaced).
pub fn handle_request_bytes(request: &[u8], expected_state: &str) -> (r: Option<CallbackReply>)
    ensures
        match r {
            None => !has_prefix(request_path(lossy_utf8(request@)), callback_path()),
            Some(reply) => has_prefix(request_path(lossy_utf8(request@)), callback_path()) && {
                let pairs = form_decoded(query_of(request_path(lossy_utf8(request@))));
                reply_ok(
                    last_value(pairs, "code"@),
                    last_value(pairs, "state"@),
                    last_value(pairs, "error"@),
                    expected_state@,
                    reply,
                )
            },
        },
{
    let text = utf8_lossy(request);
    handle_redirect(text.as_str(), expected_state)
}

// ---------------------------------------------------------------------------
// The page answered
// ---------------------------------------------------------------------------

pub open spec fn page_head() -> Seq<char> {
    "<!doctype html><meta charset=utf-8><title>Meta-MCP</title><body style=\"font-family:-apple-system,sans-serif;background:#0d0f13;color:#e7e9ef;display:grid;place-items:center;height:100vh;margin:0\"><p style=\"font-size:16px\">"@
}

pub open spec fn page_tail() -> Seq<char> {
    "</p></body>"@
}

/// The HTML page showing a sentence.
pub open spec fn page_v(message: Seq<char>) -> Seq<char> {
    page_head() + message + page_tail()
}

/// The full HTTP response to a callback request.
pub open spec fn callback_response_v(ok: bool, message: Seq<char>) -> Seq<char> {
    "HTTP/1.1 "@ + (if ok { "200 OK"@ } else { "400 Bad Request"@ })
        + "\r\nContent-Type: text/html; charset=utf-8\r\nContent-Length: "@
        + dec(vstd::utf8::encode_utf8(page_v(message)).len()) + "\r\nConnection: close\r\n\r\n"@ + page_v(message)
}

pub fn callback_response(reply: &CallbackReply) -> (r: String)
    ensures
        r@ == callback_response_v(reply.ok, reply.message@),
{
    let mut html = owned("<!doctype html><meta charset=utf-8><title>Meta-MCP</title><body style=\"font-family:-apple-system,sans-serif;background:#0d0f13;color:#e7e9ef;display:grid;place-items:center;height:100vh;margin:0\"><p style=\"font-size:16px\">");
    append_str(&mut html, reply.message.as_str());
    append_str(&mut html, "</p></body>");
    assert(html@ == page_v(reply.message@));
    let len = html.as_str().as_bytes().len();
    assert(len as nat == vstd::utf8::encode_utf8(page_v(reply.message@)).len());
    let status = if reply.ok { "200 OK" } else { "400 Bad Request" };
    let mut out = concat("HTTP/1.1 ", status);
    append_str(&mut out, "\r\nContent-Type: text/html; charset=utf-8\r\nContent-Length: ");
    let digits = decimal(len as u64);
    append_str(&mut out, digits.as_str());
    append_str(&mut out, "\r\nConnection: close\r\n\r\n");
    append_str(&mut out, html.as_str());
    assert(out@ =~= callback_response_v(reply.ok, reply.message@));
    out
}

/// The answer to any other request.
pub fn not_found_response() -> (r: String)
    ensures
        r@ == "HTTP/1.1 404 Not Found\r\nContent-Length: 0\r\n\r\n"@,
{
    owned("HTTP/1.1 404 Not Found\r\nContent-Length: 0\r\n\r\n")
}

} // verus!
