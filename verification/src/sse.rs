//! Server-sent events as the backends send them: the byte stream, already
//! decoded to text chunk by chunk, is cut into lines; `event:` and `data:`
//! lines build up an event, and a blank line ends it. What the two HTTP
//! transports do with the events follows.
use vstd::prelude::*;

use crate::text::{
    lossy_utf8, utf8_lossy, append_str, chars_of, has_prefix, owned, push_char, starts_with_chars, str_eq, string_from_range, trim, trim_v,
};

verus! {

/// The decoder's state: the line read so far, and the event being built.
pub struct SseV {
    pub line: Seq<char>,
    pub event: Seq<char>,
    pub data: Seq<char>,
}

/// An event: its name (empty when none was given) and its data.
pub type EventV = (Seq<char>, Seq<char>);

/// A line without its trailing `\r` and `\n` characters.
pub open spec fn strip_eol(l: Seq<char>) -> Seq<char>
    decreases l.len(),
{
    if l.len() > 0 && (l.last() == '\r' || l.last() == '\n') {
        strip_eol(l.drop_last())
    } else {
        l
    }
}

pub open spec fn event_prefix() -> Seq<char> {
    seq!['e', 'v', 'e', 'n', 't', ':']
}

pub open spec fn data_prefix() -> Seq<char> {
    seq!['d', 'a', 't', 'a', ':']
}

/// The payload of a `data:` line: what follows the prefix, one leading
/// space removed.
pub open spec fn data_payload(l: Seq<char>) -> Seq<char> {
    let rest = l.subrange(5, l.len() as int);
    if rest.len() > 0 && rest[0] == ' ' {
        rest.drop_first()
    } else {
        rest
    }
}

/// Data lines are joined by `\n`.
pub open spec fn add_data(data: Seq<char>, payload: Seq<char>) -> Seq<char> {
    if data.len() > 0 {
        data + seq!['\n'] + payload
    } else {
        payload
    }
}

/// One complete line read: a blank line ends the event (emitted unless it
/// has neither name nor data); `event:` names it (trimmed); `data:` adds to
/// its data; other lines (comments, `id:`, `retry:`) change nothing.
pub open spec fn apply_line(event: Seq<char>, data: Seq<char>, line: Seq<char>) -> (Seq<char>, Seq<char>, Seq<EventV>) {
    let l = strip_eol(line);
    if l.len() == 0 {
        (
            Seq::empty(),
            Seq::empty(),
            if event.len() == 0 && data.len() == 0 {
                Seq::empty()
            } else {
                seq![(event, data)]
            },
        )
    } else if has_prefix(l, event_prefix()) {
        (trim_v(l.subrange(6, l.len() as int)), data, Seq::empty())
    } else if has_prefix(l, data_prefix()) {
        (event, add_data(data, data_payload(l)), Seq::empty())
    } else {
        (event, data, Seq::empty())
    }
}

/// One character read.
pub open spec fn feed_char(s: SseV, c: char) -> (SseV, Seq<EventV>) {
    if c == '\n' {
        let (e, d, out) = apply_line(s.event, s.data, s.line);
        (SseV { line: Seq::empty(), event: e, data: d }, out)
    } else {
        (SseV { line: s.line.push(c), event: s.event, data: s.data }, Seq::empty())
    }
}

/// A text read: the state after it and the events it completed, in order.
pub open spec fn feed_v(s: SseV, text: Seq<char>) -> (SseV, Seq<EventV>)
    decreases text.len(),
{
    if text.len() == 0 {
        (s, Seq::empty())
    } else {
        let (s1, e1) = feed_v(s, text.drop_last());
        let (s2, e2) = feed_char(s1, text.last());
        (s2, e1 + e2)
    }
}

/// The state of a fresh stream.
pub open spec fn start_v() -> SseV {
    SseV { line: Seq::empty(), event: Seq::empty(), data: Seq::empty() }
}

/// Law: how the stream is cut into chunks does not matter. Reading `a` and
/// then `b` leaves the state, and completes the events, that reading `a + b`
/// at once does.
pub proof fn lemma_chunking_invariant(s: SseV, a: Seq<char>, b: Seq<char>)
    ensures
        feed_v(s, a + b) == (feed_v(feed_v(s, a).0, b).0, feed_v(s, a).1 + feed_v(feed_v(s, a).0, b).1),
    decreases b.len(),
{
    if b.len() == 0 {
        assert(a + b =~= a);
        assert(feed_v(s, a).1 + Seq::<EventV>::empty() =~= feed_v(s, a).1);
    } else {
        lemma_chunking_invariant(s, a, b.drop_last());
        assert((a + b).drop_last() =~= a + b.drop_last());
        assert((a + b).last() == b.last());
        let mid = feed_v(s, a).0;
        let (s1, e1) = feed_v(mid, b.drop_last());
        let (s2, e2) = feed_char(s1, b.last());
        assert(feed_v(s, a).1 + e1 + e2 =~= feed_v(s, a).1 + (e1 + e2));
    }
}

/// One completed event.
pub struct SseEvent {
    pub event: String,
    pub data: String,
}

pub open spec fn events_view(v: Seq<SseEvent>) -> Seq<EventV> {
    Seq::new(v.len(), |i: int| (v[i].event@, v[i].data@))
}

/// An incremental decoder of one event stream.
pub struct SseDecoder {
    pub line: Vec<char>,
    pub event: String,
    pub data: String,
}

impl View for SseDecoder {
    type V = SseV;

    open spec fn view(&self) -> SseV {
        SseV { line: self.line@, event: self.event@, data: self.data@ }
    }
}

fn strip_eol_len(l: &Vec<char>) -> (r: usize)
    ensures
        r <= l@.len(),
        l@.subrange(0, r as int) == strip_eol(l@),
{
    let mut n = l.len();
    assert(l@.subrange(0, n as int) =~= l@);
    while n > 0 && (l[n - 1] == '\r' || l[n - 1] == '\n')
        invariant
            n <= l@.len(),
            strip_eol(l@) == strip_eol(l@.subrange(0, n as int)),
        decreases n,
    {
        proof {
            let p = l@.subrange(0, n as int);
            assert(p.drop_last() =~= l@.subrange(0, n - 1));
        }
        n = n - 1;
    }
    proof {
        let p = l@.subrange(0, n as int);
        assert(strip_eol(p) == p);
    }
    n
}

impl SseDecoder {
    /// A decoder at the start of a stream.
    pub fn new() -> (r: SseDecoder)
        ensures
            r@ == start_v(),
    {
        let r = SseDecoder { line: Vec::new(), event: String::new(), data: String::new() };
        assert(r@.line =~= Seq::<char>::empty());
        r
    }

    fn end_line(&mut self, out: &mut Vec<SseEvent>)
        ensures
            final(self)@ == feed_char(old(self)@, '\n').0,
            events_view(final(out)@) == events_view(old(out)@) + feed_char(old(self)@, '\n').1,
    {
        let ghost before = self@;
        let ghost out0 = events_view(out@);
        let n = strip_eol_len(&self.line);
        let l = string_from_range(&self.line, 0, n);
        let lv = chars_of(l.as_str());
        let ghost lg = strip_eol(before.line);
        assert(lv@ == lg);
        let ep = chars_of("event:");
        let dp = chars_of("data:");
        proof {
            reveal_strlit("event:");
            reveal_strlit("data:");
            assert(ep@ =~= event_prefix());
            assert(dp@ =~= data_prefix());
        }
        if n == 0 {
            if !(self.event.as_str().is_empty() && self.data.as_str().is_empty()) {
                let ev = SseEvent { event: owned(self.event.as_str()), data: owned(self.data.as_str()) };
                out.push(ev);
                assert(events_view(out@) =~= out0 + seq![(before.event, before.data)]);
            } else {
                assert(events_view(out@) =~= out0 + Seq::<EventV>::empty());
            }
            self.event = String::new();
            self.data = String::new();
        } else if starts_with_chars(&lv, &ep) {
            let rest = string_from_range(&lv, 6, lv.len());
            self.event = trim(rest.as_str());
            assert(events_view(out@) =~= out0 + Seq::<EventV>::empty());
        } else if starts_with_chars(&lv, &dp) {
            let from: usize = if lv.len() > 5 && lv[5] == ' ' { 6 } else { 5 };
            let payload = string_from_range(&lv, from, lv.len());
            proof {
                let rest = lg.subrange(5, lg.len() as int);
                if rest.len() > 0 && rest[0] == ' ' {
                    assert(rest.drop_first() =~= lg.subrange(6, lg.len() as int));
                } else {
                    assert(rest =~= lg.subrange(5, lg.len() as int));
                }
                assert(payload@ == data_payload(lg));
            }
            if !self.data.as_str().is_empty() {
                push_char(&mut self.data, '\n');
            }
            append_str(&mut self.data, payload.as_str());
            assert(self.data@ =~= add_data(before.data, data_payload(lg)));
            assert(events_view(out@) =~= out0 + Seq::<EventV>::empty());
        } else {
            assert(events_view(out@) =~= out0 + Seq::<EventV>::empty());
        }
        self.line = Vec::new();
        assert(self@.line =~= Seq::<char>::empty());
    }

    /// Read a chunk of the stream; the events it completes, in order.
    pub fn feed(&mut self, chunk: &str) -> (r: Vec<SseEvent>)
        ensures
            (final(self)@, events_view(r@)) == feed_v(old(self)@, chunk@),
    {
        let cs = chars_of(chunk);
        let mut out: Vec<SseEvent> = Vec::new();
        let mut i: usize = 0;
        assert(events_view(out@) =~= Seq::<EventV>::empty());
        assert(cs@.take(0) =~= Seq::<char>::empty());
        while i < cs.len()
            invariant
                cs@ == chunk@,
                i <= cs@.len(),
                (self@, events_view(out@)) == feed_v(old(self)@, cs@.take(i as int)),
            decreases cs@.len() - i,
        {
            let c = cs[i];
            assert(cs@.take(i + 1).drop_last() =~= cs@.take(i as int));
            assert(cs@.take(i + 1).last() == c);
            if c == '\n' {
                self.end_line(&mut out);
            } else {
                self.line.push(c);
                assert(events_view(out@) =~= events_view(out@) + Seq::<EventV>::empty());
            }
            i = i + 1;
        }
        assert(cs@.take(i as int) =~= cs@);
        out
    }

    /// Read a chunk of the stream's bytes, decoded on its own (an invalid or
    /// cut UTF-8 sequence becomes U+FFFD); the events it completes.
    pub fn feed_bytes(&mut self, chunk: &[u8]) -> (r: Vec<SseEvent>)
        ensures
            (final(self)@, events_view(r@)) == feed_v(old(self)@, lossy_utf8(chunk@)),
    {
        let text = utf8_lossy(chunk);
        self.feed(text.as_str())
    }

    /// The data of an event left unfinished when the stream ended.
    pub fn pending_data(&self) -> (r: String)
        ensures
            r@ == self@.data,
    {
        owned(self.data.as_str())
    }
}

// ---------------------------------------------------------------------------
// What the transports do with events
// ---------------------------------------------------------------------------

/// On a Streamable HTTP response stream, an event carries a JSON-RPC message
/// when it has data.
pub fn response_data(ev: &SseEvent) -> (r: Option<String>)
    ensures
        match r {
            Some(d) => d@ == ev.data@ && d@.len() > 0,
            None => ev.data@.len() == 0,
        },
{
    if ev.data.as_str().is_empty() {
        None
    } else {
        Some(owned(ev.data.as_str()))
    }
}

/// What the legacy SSE stream's reader does with an event.
pub enum SseAction {
    /// Nothing.
    Ignore,
    /// The message endpoint was announced (only the first announcement
    /// counts).
    Endpoint(String),
    /// A JSON-RPC message to route to its waiting request.
    Message(String),
}

pub fn classify_event(ev: &SseEvent, endpoint_pending: bool) -> (r: SseAction)
    ensures
        ev.event@ == "endpoint"@ ==> match r {
            SseAction::Endpoint(d) => endpoint_pending && d@ == ev.data@,
            SseAction::Ignore => !endpoint_pending,
            SseAction::Message(_) => false,
        },
        ev.event@ != "endpoint"@ ==> match r {
            SseAction::Message(d) => d@ == ev.data@ && !(ev.event@.len() == 0 && ev.data@.len() == 0),
            SseAction::Ignore => ev.event@.len() == 0 && ev.data@.len() == 0,
            SseAction::Endpoint(_) => false,
        },
{
    if str_eq(ev.event.as_str(), "endpoint") {
        if endpoint_pending {
            SseAction::Endpoint(owned(ev.data.as_str()))
        } else {
            SseAction::Ignore
        }
    } else if ev.event.as_str().is_empty() && ev.data.as_str().is_empty() {
        SseAction::Ignore
    } else {
        SseAction::Message(owned(ev.data.as_str()))
    }
}

} // verus!
