//! The persistent-stream transport's verified core: one incremental event
//! parser that both the endpoint handshake and the background reader use,
//! the endpoint-announcement rules, the classification of a submission
//! response, and correlation of pushed messages by request identifier.
//! Opening the stream, the queue, and the background task live in the
//! unverified shell.

use vstd::prelude::*;
use vstd::string::*;
use crate::json::is_ws;
use crate::rpc::{JsonRpcResponse, RequestId, RequestIdV, decode_response,
    decoded_response};
use crate::text::has_prefix;
use crate::transport::{HttpTransportError, TransportError, auth_value_spec, auth_header_value,
    line_break, strip_cr, copy_range};
use crate::transport::http::{kv_views, opt_view};

verus! {

/// The start of the first blank-line delimiter (`\n\n`) at or after `i`,
/// or `-1` if the text holds none.
pub open spec fn dbl_nl_from(s: Seq<char>, i: int) -> int
    decreases s.len() - i,
{
    if i < 0 {
        -1
    } else if i + 1 >= s.len() {
        -1
    } else if s[i] == '\n' && s[i + 1] == '\n' {
        i
    } else {
        dbl_nl_from(s, i + 1)
    }
}

/// A found delimiter lies within the text, at or after the start.
pub proof fn lemma_dbl_nl_from(s: Seq<char>, i: int)
    requires
        0 <= i,
    ensures
        dbl_nl_from(s, i) == -1 || (i <= dbl_nl_from(s, i) && dbl_nl_from(s, i) + 1 < s.len()),
    decreases s.len() - i,
{
    if i + 1 < s.len() && !(s[i] == '\n' && s[i + 1] == '\n') {
        lemma_dbl_nl_from(s, i + 1);
    }
}

/// Whether a data payload looks like a JSON object.
pub open spec fn json_shaped(p: Seq<char>) -> bool {
    p.len() > 0 && p[0] == '{'
}

/// The JSON-shaped `data: ` payloads of one event's lines, from `i` on.
pub open spec fn event_datas_from(ev: Seq<char>, i: int) -> Seq<Seq<char>>
    decreases ev.len() - i,
{
    if !(0 <= i <= ev.len()) {
        Seq::empty()
    } else {
        let e = line_break(ev, i);
        if !(i <= e <= ev.len()) {
            Seq::empty()
        } else {
            let l = strip_cr(ev.subrange(i, e));
            let this: Seq<Seq<char>> = if has_prefix(l, "data: "@) && json_shaped(l.skip(6)) {
                seq![l.skip(6)]
            } else {
                Seq::empty()
            };
            if e + 1 > ev.len() {
                this
            } else {
                this + event_datas_from(ev, e + 1)
            }
        }
    }
}

/// The JSON-shaped payloads of all complete events in the buffer, and what
/// remains of the buffer after them.
pub open spec fn stream_datas(s: Seq<char>) -> (Seq<Seq<char>>, Seq<char>)
    decreases s.len(),
{
    let j = dbl_nl_from(s, 0);
    if j < 0 || j + 2 > s.len() {
        (Seq::empty(), s)
    } else {
        let ev = s.take(j);
        let rest = s.skip(j + 2);
        if rest.len() >= s.len() {
            (Seq::empty(), s)
        } else {
            let sub = stream_datas(rest);
            (event_datas_from(ev, 0) + sub.0, sub.1)
        }
    }
}

fn find_dbl_nl(s: &Vec<char>, i: usize) -> (r: Option<usize>)
    requires
        i <= s@.len(),
    ensures
        match r {
            Some(j) => dbl_nl_from(s@, i as int) == j as int && i <= j && j + 1 < s@.len(),
            None => dbl_nl_from(s@, i as int) == -1,
        },
{
    let mut j = i;
    loop
        invariant
            i <= j <= s@.len(),
            dbl_nl_from(s@, i as int) == dbl_nl_from(s@, j as int),
        decreases s@.len() - j,
    {
        if s.len() - j < 2 {
            return None;
        }
        if s[j] == '\n' && s[j + 1] == '\n' {
            return Some(j);
        }
        j += 1;
    }
}

fn event_datas_exec(ev: &Vec<char>, i: usize) -> (r: Vec<String>)
    requires
        i <= ev@.len(),
    ensures
        r@.len() == event_datas_from(ev@, i as int).len(),
        forall|k: int|
            0 <= k < r@.len() ==> (#[trigger] r@[k])@ == event_datas_from(ev@, i as int)[k],
    decreases ev@.len() - i,
{
    let mut e = i;
    while e < ev.len() && ev[e] != '\n'
        invariant
            i <= e <= ev@.len(),
            line_break(ev@, i as int) == line_break(ev@, e as int),
        decreases ev@.len() - e,
    {
        e += 1;
    }
    let raw = copy_range(ev, i, e);
    let l = if raw.len() > 0 && raw[raw.len() - 1] == '\r' {
        let ghost orig = raw@;
        let mut raw = raw;
        raw.pop();
        proof {
            assert(raw@ =~= strip_cr(orig));
        }
        raw
    } else {
        raw
    };
    let is_data = data_json_line(&l);
    let rest: Vec<String> = if e >= ev.len() {
        Vec::new()
    } else {
        event_datas_exec(ev, e + 1)
    };
    if is_data {
        proof {
            reveal_strlit("data: ");
        }
        let payload = copy_range(&l, 6, l.len());
        proof {
            assert(payload@ =~= l@.skip(6));
        }
        let ghost pre = rest@;
        let mut out = rest;
        out.insert(0, crate::text::string_of(&payload));
        proof {
            assert(out@.drop_first() =~= pre);
            assert forall|k: int| 0 <= k < out@.len() implies (#[trigger] out@[k])@
                == event_datas_from(ev@, i as int)[k] by {
                if k > 0 {
                    assert(out@[k] == pre[k - 1]);
                }
            }
        }
        out
    } else {
        rest
    }
}

/// Whether the line is a `data: ` line whose payload looks like JSON.
fn data_json_line(l: &Vec<char>) -> (r: bool)
    ensures
        r == (has_prefix(l@, "data: "@) && json_shaped(l@.skip(6))),
{
    proof {
        reveal_strlit("data: ");
    }
    if l.len() < 7 {
        proof {
            if has_prefix(l@, "data: "@) {
                assert(l@.skip(6).len() == l@.len() - 6);
            }
        }
        return false;
    }
    let r = l[0] == 'd' && l[1] == 'a' && l[2] == 't' && l[3] == 'a' && l[4] == ':' && l[5] == ' '
        && l[6] == '{';
    proof {
        if r {
            assert(l@.subrange(0, 6) =~= "data: "@);
            assert(l@.skip(6)[0] == l@[6]);
        } else {
            if has_prefix(l@, "data: "@) && json_shaped(l@.skip(6)) {
                assert(l@.subrange(0, 6)[0] == 'd' && l@.subrange(0, 6)[1] == 'a' && l@.subrange(
                    0,
                    6,
                )[2] == 't' && l@.subrange(0, 6)[3] == 'a' && l@.subrange(0, 6)[4] == ':'
                    && l@.subrange(0, 6)[5] == ' ');
                assert(l@.skip(6)[0] == l@[6]);
            }
        }
    }
    r
}

/// An incremental server-push event parser: both the endpoint handshake
/// and the background reader feed chunks in and take complete events'
/// JSON-shaped payloads out.
pub struct EventParser {
    pub buf: Vec<char>,
}

impl EventParser {
    /// An empty parser.
    pub fn new() -> (r: EventParser)
        ensures
            r.buf@ == Seq::<char>::empty(),
    {
        EventParser { buf: Vec::new() }
    }

    /// Appends a chunk and yields the JSON-shaped payloads of all events
    /// completed by it, keeping the unfinished tail buffered.
    pub fn feed(&mut self, chunk: &str) -> (out: Vec<String>)
        ensures
            final(self).buf@ == stream_datas(old(self).buf@ + chunk@).1,
            out@.len() == stream_datas(old(self).buf@ + chunk@).0.len(),
            forall|k: int|
                0 <= k < out@.len() ==> (#[trigger] out@[k])@ == stream_datas(
                    old(self).buf@ + chunk@,
                ).0[k],
    {
        let more = crate::text::chars_of(chunk);
        let mut k: usize = 0;
        while k < more.len()
            invariant
                k <= more@.len(),
                more@ == chunk@,
                self.buf@ == old(self).buf@ + chunk@.take(k as int),
            decreases more@.len() - k,
        {
            self.buf.push(more[k]);
            assert(self.buf@ =~= old(self).buf@ + chunk@.take(k as int + 1));
            k += 1;
        }
        proof {
            assert(old(self).buf@ + chunk@.take(chunk@.len() as int) =~= old(self).buf@ + chunk@);
        }
        let ghost whole = old(self).buf@ + chunk@;
        let mut out: Vec<String> = Vec::new();
        loop
            invariant
                stream_datas(whole).0 =~= out@.map_values(|x: String| x@) + stream_datas(
                    self.buf@,
                ).0,
                stream_datas(whole).1 == stream_datas(self.buf@).1,
            ensures
                dbl_nl_from(self.buf@, 0) == -1,
            decreases self.buf@.len(),
        {
            let j = match find_dbl_nl(&self.buf, 0) {
                Some(j) => j,
                None => {
                    break ;
                },
            };
            let n = self.buf.len();
            assert(j + 2 <= n);
            let ev = copy_range(&self.buf, 0, j);
            let cut: usize = j + 2;
            let rest = copy_range(&self.buf, cut, n);
            proof {
                assert(ev@ =~= self.buf@.take(j as int));
                assert(rest@ =~= self.buf@.skip(j as int + 2));
                assert(stream_datas(self.buf@).0 == event_datas_from(ev@, 0) + stream_datas(
                    rest@,
                ).0);
                assert(stream_datas(self.buf@).1 == stream_datas(rest@).1);
            }
            let datas = event_datas_exec(&ev, 0);
            let ghost out_pre = out@;
            let mut d: usize = 0;
            while d < datas.len()
                invariant
                    d <= datas@.len(),
                    datas@.len() == event_datas_from(ev@, 0).len(),
                    forall|k2: int|
                        0 <= k2 < datas@.len() ==> (#[trigger] datas@[k2])@ == event_datas_from(
                            ev@,
                            0,
                        )[k2],
                    out@ == out_pre + datas@.take(d as int),
                decreases datas@.len() - d,
            {
                out.push(datas[d].clone());
                assert(out@ =~= out_pre + datas@.take(d as int + 1));
                d += 1;
            }
            proof {
                assert(out@ =~= out_pre + datas@);
                assert(out@.map_values(|x: String| x@) =~= out_pre.map_values(|x: String| x@)
                    + datas@.map_values(|x: String| x@));
                assert(datas@.map_values(|x: String| x@) =~= event_datas_from(ev@, 0));
            }
            self.buf = rest;
        }
        proof {
            assert(stream_datas(self.buf@).0.len() == 0 && stream_datas(self.buf@).1
                == self.buf@) by {
                lemma_dbl_nl_from(self.buf@, 0);
            }
            assert(stream_datas(whole).0 =~= out@.map_values(|x: String| x@));
            assert forall|k2: int| 0 <= k2 < out@.len() implies (#[trigger] out@[k2])@
                == stream_datas(whole).0[k2] by {
                assert(out@.map_values(|x: String| x@)[k2] == out@[k2]@);
            }
        }
        out
    }
}

/// Whether `s` holds `p` as a substring at position `k`.
pub open spec fn contains_at(s: Seq<char>, p: Seq<char>, k: int) -> bool {
    0 <= k && k + p.len() <= s.len() && s.subrange(k, k + p.len()) == p
}

/// Whether `s` holds `p` as a substring.
pub open spec fn contains_seq(s: Seq<char>, p: Seq<char>) -> bool {
    exists|k: int| contains_at(s, p, k)
}

/// Whether the payload announces a session: it mentions `sessionId=` or
/// begins with a slash.
pub open spec fn endpoint_shaped(p: Seq<char>) -> bool {
    contains_seq(p, "sessionId="@) || (p.len() > 0 && p[0] == '/')
}

/// Whether `s` holds `sessionId=` as a substring.
fn contains_session_marker(s: &Vec<char>) -> (r: bool)
    ensures
        r == contains_seq(s@, "sessionId="@),
{
    proof {
        reveal_strlit("sessionId=");
    }
    if s.len() < 10 {
        proof {
            if contains_seq(s@, "sessionId="@) {
                let k = choose|k: int| contains_at(s@, "sessionId="@, k);
                assert(k + 10 <= s@.len());
            }
        }
        return false;
    }
    let mut k: usize = 0;
    while k <= s.len() - 10
        invariant
            10 <= s@.len(),
            k <= s@.len() - 10 + 1,
            forall|k2: int| 0 <= k2 < k ==> !contains_at(s@, "sessionId="@, k2),
        decreases s@.len() - k,
    {
        let hit = s[k] == 's' && s[k + 1] == 'e' && s[k + 2] == 's' && s[k + 3] == 's' && s[k + 4]
            == 'i' && s[k + 5] == 'o' && s[k + 6] == 'n' && s[k + 7] == 'I' && s[k + 8] == 'd'
            && s[k + 9] == '=';
        proof {
            reveal_strlit("sessionId=");
            if hit {
                assert(s@.subrange(k as int, k as int + 10) =~= "sessionId="@);
                assert(contains_at(s@, "sessionId="@, k as int));
            } else {
                if contains_at(s@, "sessionId="@, k as int) {
                    let sub = s@.subrange(k as int, k as int + 10);
                    assert(sub[0] == 's' && sub[1] == 'e' && sub[2] == 's' && sub[3] == 's'
                        && sub[4] == 'i' && sub[5] == 'o' && sub[6] == 'n' && sub[7] == 'I'
                        && sub[8] == 'd' && sub[9] == '=');
                }
            }
        }
        if hit {
            return true;
        }
        k += 1;
    }
    proof {
        reveal_strlit("sessionId=");
        if contains_seq(s@, "sessionId="@) {
            let k2 = choose|k2: int| contains_at(s@, "sessionId="@, k2);
            assert(!contains_at(s@, "sessionId="@, k2));
        }
    }
    false
}

/// The base URL with every trailing `/sse` segment removed.
pub open spec fn strip_stream_suffix(s: Seq<char>) -> Seq<char>
    decreases s.len(),
{
    if s.len() >= 4 && s.subrange(s.len() - 4, s.len() as int) == "/sse"@ {
        strip_stream_suffix(s.take(s.len() - 4))
    } else {
        s
    }
}

fn do_strip_stream_suffix(s: &Vec<char>) -> (r: Vec<char>)
    ensures
        r@ == strip_stream_suffix(s@),
    decreases s@.len(),
{
    proof {
        reveal_strlit("/sse");
    }
    let n = s.len();
    if n >= 4 && s[n - 4] == '/' && s[n - 3] == 's' && s[n - 2] == 's' && s[n - 1] == 'e' {
        proof {
            assert(s@.subrange(n - 4, n as int) =~= "/sse"@);
        }
        let shorter = copy_range(s, 0, n - 4);
        proof {
            assert(shorter@ =~= s@.take(n - 4));
        }
        do_strip_stream_suffix(&shorter)
    } else {
        proof {
            if n >= 4 && s@.subrange(n - 4, n as int) == "/sse"@ {
                assert(s@.subrange(n - 4, n as int)[0] == '/' && s@.subrange(n - 4, n as int)[1]
                    == 's' && s@.subrange(n - 4, n as int)[2] == 's' && s@.subrange(
                    n - 4,
                    n as int,
                )[3] == 'e');
            }
        }
        copy_range(s, 0, n)
    }
}

/// Builds the session submission URL from an endpoint payload: the base
/// URL with its stream suffix removed, then the payload appended.
pub fn endpoint_url(base_url: &str, data: &str) -> (r: String)
    ensures
        r@ == strip_stream_suffix(base_url@) + data@,
{
    let cs = crate::text::chars_of(base_url);
    let stripped = do_strip_stream_suffix(&cs);
    let mut r = crate::text::string_of(&stripped);
    r.append(data);
    r
}

/// Whether a pushed payload announces the submission endpoint.
pub fn is_endpoint_data(data: &str) -> (r: bool)
    ensures
        r == endpoint_shaped(data@),
{
    let cs = crate::text::chars_of(data);
    if contains_session_marker(&cs) {
        return true;
    }
    if cs.len() > 0 && cs[0] == '/' {
        return true;
    }
    false
}

/// Whether a pushed message is the response to the outstanding request.
pub open spec fn msg_matches(m: Seq<char>, want: RequestIdV) -> bool {
    match decoded_response(m) {
        Some(rv) => rv.id == want,
        None => false,
    }
}

/// Decodes a pushed message and yields it only when its identifier matches
/// the outstanding request's; every other message yields nothing.
pub fn match_pushed(data: &str, want: &RequestId) -> (r: Option<JsonRpcResponse>)
    ensures
        match r {
            Some(resp) => {
                &&& msg_matches(data@, want@)
                &&& decoded_response(data@) == Some(resp@)
            },
            None => !msg_matches(data@, want@),
        },
{
    match decode_response(data) {
        Some(resp) => {
            if resp.id == *want {
                Some(resp)
            } else {
                None
            }
        },
        None => None,
    }
}

/// Correlation: scans pushed messages in arrival order, discards every one
/// whose identifier does not match, and yields the first one whose
/// identifier matches, with its position.
pub fn correlate(msgs: &Vec<String>, want: &RequestId) -> (r: Option<(usize, JsonRpcResponse)>)
    ensures
        match r {
            Some((k, resp)) => {
                &&& k < msgs@.len()
                &&& msg_matches(msgs@[k as int]@, want@)
                &&& decoded_response(msgs@[k as int]@) == Some(resp@)
                &&& forall|j: int| 0 <= j < k ==> !msg_matches((#[trigger] msgs@[j])@, want@)
            },
            None => forall|j: int|
                0 <= j < msgs@.len() ==> !msg_matches((#[trigger] msgs@[j])@, want@),
        },
{
    let mut k: usize = 0;
    while k < msgs.len()
        invariant
            k <= msgs@.len(),
            forall|j: int| 0 <= j < k ==> !msg_matches((#[trigger] msgs@[j])@, want@),
        decreases msgs@.len() - k,
    {
        match match_pushed(msgs[k].as_str(), want) {
            Some(resp) => {
                return Some((k, resp));
            },
            None => {},
        }
        k += 1;
    }
    None
}

/// The connection state of a persistent-stream transport.
pub enum SsePhase {
    Disconnected,
    Ready { endpoint: String },
}

/// The persistent-stream transport's configuration and connection state.
pub struct SseTransport {
    pub base_url: String,
    pub access_token: Option<String>,
    pub server_name: String,
    pub phase: SsePhase,
}

/// What one submission response amounts to.
pub enum SseSendStep {
    /// The reply will arrive over the stream; drain it for the matching
    /// identifier.
    AwaitStream,
    /// The server answered directly.
    Reply(JsonRpcResponse),
    Failed(TransportError),
}

/// The payload of a direct (non-streamed) submission response: all `data: `
/// line payloads joined when the body is event-framed, else the body.
pub open spec fn direct_payload(body: Seq<char>) -> Seq<char> {
    if contains_seq(body, "data: "@) {
        all_data_join_from(body, 0)
    } else {
        body
    }
}

/// The concatenation of every `data: ` line payload, from `i` on.
pub open spec fn all_data_join_from(s: Seq<char>, i: int) -> Seq<char>
    decreases s.len() - i,
{
    if !(0 <= i <= s.len()) {
        Seq::empty()
    } else {
        let e = line_break(s, i);
        if !(i <= e <= s.len()) {
            Seq::empty()
        } else {
            let l = strip_cr(s.subrange(i, e));
            let this: Seq<char> = if has_prefix(l, "data: "@) {
                l.skip(6)
            } else {
                Seq::empty()
            };
            if e + 1 > s.len() {
                this
            } else {
                this + all_data_join_from(s, e + 1)
            }
        }
    }
}

fn all_data_join_exec(s: &Vec<char>, i: usize) -> (r: Vec<char>)
    requires
        i <= s@.len(),
    ensures
        r@ == all_data_join_from(s@, i as int),
    decreases s@.len() - i,
{
    let mut e = i;
    while e < s.len() && s[e] != '\n'
        invariant
            i <= e <= s@.len(),
            line_break(s@, i as int) == line_break(s@, e as int),
        decreases s@.len() - e,
    {
        e += 1;
    }
    let raw = copy_range(s, i, e);
    let l = if raw.len() > 0 && raw[raw.len() - 1] == '\r' {
        let ghost orig = raw@;
        let mut raw = raw;
        raw.pop();
        proof {
            assert(raw@ =~= strip_cr(orig));
        }
        raw
    } else {
        raw
    };
    let mut this: Vec<char> = if data_prefixed_line(&l) {
        proof {
            reveal_strlit("data: ");
        }
        let p = copy_range(&l, 6, l.len());
        proof {
            assert(p@ =~= l@.skip(6));
        }
        p
    } else {
        Vec::new()
    };
    if e >= s.len() {
        this
    } else {
        let rest = all_data_join_exec(s, e + 1);
        let ghost this_pre = this@;
        let mut m: usize = 0;
        while m < rest.len()
            invariant
                m <= rest@.len(),
                this@ == this_pre + rest@.take(m as int),
            decreases rest@.len() - m,
        {
            this.push(rest[m]);
            assert(this@ =~= this_pre + rest@.take(m as int + 1));
            m += 1;
        }
        proof {
            assert(this@ =~= this_pre + rest@);
        }
        this
    }
}

/// Whether the line begins with `data: `.
fn data_prefixed_line(l: &Vec<char>) -> (r: bool)
    ensures
        r == has_prefix(l@, "data: "@),
{
    proof {
        reveal_strlit("data: ");
    }
    if l.len() < 6 {
        return false;
    }
    let r = l[0] == 'd' && l[1] == 'a' && l[2] == 't' && l[3] == 'a' && l[4] == ':' && l[5] == ' ';
    proof {
        if r {
            assert(l@.subrange(0, 6) =~= "data: "@);
        } else {
            if has_prefix(l@, "data: "@) {
                assert(l@.subrange(0, 6)[0] == 'd' && l@.subrange(0, 6)[1] == 'a' && l@.subrange(
                    0,
                    6,
                )[2] == 't' && l@.subrange(0, 6)[3] == 'a' && l@.subrange(0, 6)[4] == ':'
                    && l@.subrange(0, 6)[5] == ' ');
            }
        }
    }
    r
}

/// Whether `s` holds `data: ` as a substring.
fn contains_data_marker(s: &Vec<char>) -> (r: bool)
    ensures
        r == contains_seq(s@, "data: "@),
{
    proof {
        reveal_strlit("data: ");
    }
    if s.len() < 6 {
        proof {
            if contains_seq(s@, "data: "@) {
                let k = choose|k: int| contains_at(s@, "data: "@, k);
                assert(k + 6 <= s@.len());
            }
        }
        return false;
    }
    let mut k: usize = 0;
    while k <= s.len() - 6
        invariant
            6 <= s@.len(),
            k <= s@.len() - 6 + 1,
            forall|k2: int| 0 <= k2 < k ==> !contains_at(s@, "data: "@, k2),
        decreases s@.len() - k,
    {
        let hit = s[k] == 'd' && s[k + 1] == 'a' && s[k + 2] == 't' && s[k + 3] == 'a' && s[k + 4]
            == ':' && s[k + 5] == ' ';
        proof {
            reveal_strlit("data: ");
            if hit {
                assert(s@.subrange(k as int, k as int + 6) =~= "data: "@);
                assert(contains_at(s@, "data: "@, k as int));
            } else {
                if contains_at(s@, "data: "@, k as int) {
                    let sub = s@.subrange(k as int, k as int + 6);
                    assert(sub[0] == 'd' && sub[1] == 'a' && sub[2] == 't' && sub[3] == 'a'
                        && sub[4] == ':' && sub[5] == ' ');
                }
            }
        }
        if hit {
            return true;
        }
        k += 1;
    }
    proof {
        reveal_strlit("data: ");
        if contains_seq(s@, "data: "@) {
            let k2 = choose|k2: int| contains_at(s@, "data: "@, k2);
            assert(!contains_at(s@, "data: "@, k2));
        }
    }
    false
}

impl SseTransport {
    /// A transport for one stream URL, with no token, not yet connected.
    pub fn new(url: String, server_name: String) -> (r: SseTransport)
        ensures
            r.base_url == url,
            r.server_name == server_name,
            r.access_token is None,
            r.phase is Disconnected,
    {
        SseTransport { base_url: url, access_token: None, server_name, phase: SsePhase::Disconnected }
    }

    /// The same transport with the given bearer token.
    pub fn with_token(self, token: Option<String>) -> (r: SseTransport)
        ensures
            r.base_url == self.base_url,
            r.server_name == self.server_name,
            r.phase == self.phase,
            r.access_token == token,
    {
        SseTransport { access_token: token, ..self }
    }

    /// The headers of the long-lived GET that opens the stream.
    pub fn connect_headers(&self) -> (r: Vec<(String, String)>)
        ensures
            kv_views(r@) == sse_connect_headers(opt_view(self.access_token)),
    {
        let mut hs: Vec<(String, String)> = Vec::new();
        hs.push(("Accept".to_owned(), "text/event-stream".to_owned()));
        match &self.access_token {
            Some(t) => {
                hs.push(("Authorization".to_owned(), auth_header_value(t.as_str())));
            },
            None => {},
        }
        proof {
            assert(kv_views(hs@) =~= sse_connect_headers(opt_view(self.access_token)));
        }
        hs
    }

    /// Classifies the status of the initial stream connection: 401 demands
    /// authentication, any other non-success status is a remote failure.
    pub fn handle_connect_status(&self, status: u16) -> (r: Result<(), TransportError>)
        ensures
            status == 401 ==> (r matches Err(TransportError::Auth(
                HttpTransportError::AuthRequired { server_name },
            )) && server_name@ == self.server_name@),
            status != 401 && !(200 <= status < 300) ==> (r matches Err(TransportError::Remote {
                status: st,
                body,
            }) && st == status && body@ == Seq::<char>::empty()),
            200 <= status < 300 ==> r is Ok,
    {
        if status == 401 {
            Err(
                TransportError::Auth(
                    HttpTransportError::AuthRequired { server_name: self.server_name.clone() },
                ),
            )
        } else if !(200 <= status && status < 300) {
            Err(TransportError::Remote { status, body: String::new() })
        } else {
            Ok(())
        }
    }

    /// Records the announced submission endpoint; the transport is ready.
    pub fn set_ready(&mut self, endpoint: String)
        ensures
            final(self).base_url == old(self).base_url,
            final(self).access_token == old(self).access_token,
            final(self).server_name == old(self).server_name,
            final(self).phase matches SsePhase::Ready { endpoint: e } && e == endpoint,
    {
        self.phase = SsePhase::Ready { endpoint };
    }

    /// The headers of one POST to the submission endpoint.
    pub fn send_headers(&self) -> (r: Vec<(String, String)>)
        ensures
            kv_views(r@) == sse_send_headers(opt_view(self.access_token)),
    {
        let mut hs: Vec<(String, String)> = Vec::new();
        hs.push(("Content-Type".to_owned(), "application/json".to_owned()));
        match &self.access_token {
            Some(t) => {
                hs.push(("Authorization".to_owned(), auth_header_value(t.as_str())));
            },
            None => {},
        }
        proof {
            assert(kv_views(hs@) =~= sse_send_headers(opt_view(self.access_token)));
        }
        hs
    }

    /// Classifies a submission response: 401 demands authentication; 202
    /// means the reply arrives over the stream; any other non-success
    /// status is a remote failure; any other success is a direct reply
    /// whose de-enveloped payload must be non-empty and decode.
    pub fn classify_send_response(&self, status: u16, body: &str) -> (r: SseSendStep)
        ensures
            match r {
                SseSendStep::AwaitStream => status == 202,
                SseSendStep::Reply(resp) => {
                    &&& 200 <= status < 300
                    &&& status != 202
                    &&& decoded_response(direct_payload(body@)) == Some(resp@)
                },
                SseSendStep::Failed(e) => match e {
                    TransportError::Auth(a) => {
                        &&& status == 401
                        &&& a matches HttpTransportError::AuthRequired { server_name }
                            && server_name@ == self.server_name@
                    },
                    TransportError::Remote { status: st, body: b } => {
                        &&& st == status && b@ == body@
                        &&& status != 401 && status != 202 && !(200 <= status < 300)
                    },
                    TransportError::EmptyBody => {
                        &&& 200 <= status < 300 && status != 202 && status != 401
                        &&& direct_payload(body@).len() == 0
                    },
                    TransportError::Malformed { raw } => {
                        &&& 200 <= status < 300 && status != 202 && status != 401
                        &&& raw@ == direct_payload(body@)
                        &&& decoded_response(direct_payload(body@)) is None
                    },
                    _ => false,
                },
            },
    {
        if status == 401 {
            return SseSendStep::Failed(
                TransportError::Auth(
                    HttpTransportError::AuthRequired { server_name: self.server_name.clone() },
                ),
            );
        }
        if status == 202 {
            return SseSendStep::AwaitStream;
        }
        if !(200 <= status && status < 300) {
            return SseSendStep::Failed(
                TransportError::Remote { status, body: body.to_owned() },
            );
        }
        let cs = crate::text::chars_of(body);
        let payload: Vec<char> = if contains_data_marker(&cs) {
            all_data_join_exec(&cs, 0)
        } else {
            cs
        };
        if payload.len() == 0 {
            return SseSendStep::Failed(TransportError::EmptyBody);
        }
        let text = crate::text::string_of(&payload);
        match decode_response(text.as_str()) {
            Some(resp) => SseSendStep::Reply(resp),
            None => SseSendStep::Failed(TransportError::Malformed { raw: text }),
        }
    }
}

/// The headers of the long-lived GET that opens the stream.
pub open spec fn sse_connect_headers(token: Option<Seq<char>>) -> Seq<(Seq<char>, Seq<char>)> {
    let base = seq![("Accept"@, "text/event-stream"@)];
    match token {
        Some(t) => base + seq![("Authorization"@, auth_value_spec(t))],
        None => base,
    }
}

/// The headers of one POST to the submission endpoint.
pub open spec fn sse_send_headers(token: Option<Seq<char>>) -> Seq<(Seq<char>, Seq<char>)> {
    let base = seq![("Content-Type"@, "application/json"@)];
    match token {
        Some(t) => base + seq![("Authorization"@, auth_value_spec(t))],
        None => base,
    }
}

} // verus!
