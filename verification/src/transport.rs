//! What the three transports share: the error taxonomy of a send, and the
//! exact text manipulations of server-push framing (`data: ` lines, events
//! delimited by blank lines).

pub mod stdio;
pub mod http;
pub mod sse;

use vstd::prelude::*;
use crate::json::{ws_end, is_ws};
use crate::text::has_prefix;

verus! {

/// The distinguished authentication-required condition of the HTTP-family
/// transports: the caller should run the authorization flow for this server.
#[derive(Debug)]
pub enum HttpTransportError {
    AuthRequired { server_name: String },
}

/// A failed send, by cause.
#[derive(Debug)]
pub enum TransportError {
    /// The server demands authentication.
    Auth(HttpTransportError),
    /// The server answered with a non-success status.
    Remote { status: u16, body: String },
    /// The payload did not decode as a JSON-RPC response.
    Malformed { raw: String },
    /// The counterpart closed the connection before answering.
    ConnectionClosed,
    /// The stream never announced a submission endpoint.
    NoEndpoint,
    /// A success response carried no payload at all.
    EmptyBody,
}

/// The first position at or after `i` that holds a line break, or the end.
pub open spec fn line_break(s: Seq<char>, i: int) -> int
    decreases s.len() - i,
{
    if 0 <= i < s.len() && s[i] != '\n' {
        line_break(s, i + 1)
    } else {
        i
    }
}

/// `line_break` never moves backwards and stays within the text.
pub proof fn lemma_line_break(s: Seq<char>, i: int)
    requires
        0 <= i <= s.len(),
    ensures
        i <= line_break(s, i) <= s.len(),
        line_break(s, i) < s.len() ==> s[line_break(s, i)] == '\n',
    decreases s.len() - i,
{
    if i < s.len() && s[i] != '\n' {
        lemma_line_break(s, i + 1);
    }
}

/// A line with a trailing carriage return removed.
pub open spec fn strip_cr(l: Seq<char>) -> Seq<char> {
    if l.len() > 0 && l.last() == '\r' {
        l.drop_last()
    } else {
        l
    }
}

/// The first position at or after `e`, scanning leftwards from `e`, such
/// that everything from it to `e` is whitespace.
pub open spec fn rtrim_end(l: Seq<char>, e: int) -> int
    decreases e,
{
    if 0 < e <= l.len() && is_ws(l[e - 1]) {
        rtrim_end(l, e - 1)
    } else {
        e
    }
}

/// The text with surrounding whitespace removed.
pub open spec fn trim_spec(l: Seq<char>) -> Seq<char> {
    let a = ws_end(l, 0);
    let b = rtrim_end(l, l.len() as int);
    if 0 <= a && a <= b && b <= l.len() {
        l.subrange(a, b)
    } else {
        Seq::empty()
    }
}

/// The trimmed payload of the first `data: ` line at or after `i`, if any.
pub open spec fn first_data_payload_from(s: Seq<char>, i: int) -> Option<Seq<char>>
    decreases s.len() - i,
{
    if !(0 <= i <= s.len()) {
        None
    } else {
        let e = line_break(s, i);
        if !(i <= e <= s.len()) {
            None
        } else {
            let l = strip_cr(s.subrange(i, e));
            if has_prefix(l, "data: "@) {
                Some(trim_spec(l.skip(6)))
            } else if e + 1 > s.len() {
                None
            } else {
                first_data_payload_from(s, e + 1)
            }
        }
    }
}

/// The JSON-RPC payload of an HTTP response body: the trimmed payload of
/// its first `data: ` line when the body is event-framed, otherwise the
/// whole body trimmed.
pub open spec fn http_payload(body: Seq<char>) -> Seq<char> {
    match first_data_payload_from(body, 0) {
        Some(p) => p,
        None => trim_spec(body),
    }
}

/// Skips to the first line break at or after `i`.
fn find_line_break(s: &Vec<char>, i: usize) -> (r: usize)
    requires
        i <= s@.len(),
    ensures
        r == line_break(s@, i as int),
        i <= r <= s@.len(),
{
    let mut j = i;
    while j < s.len() && s[j] != '\n'
        invariant
            i <= j <= s@.len(),
            line_break(s@, i as int) == line_break(s@, j as int),
        decreases s@.len() - j,
    {
        j += 1;
    }
    j
}

/// Copies `s[a..b]`.
pub(crate) fn copy_range(s: &Vec<char>, a: usize, b: usize) -> (r: Vec<char>)
    requires
        a <= b <= s@.len(),
    ensures
        r@ == s@.subrange(a as int, b as int),
{
    let mut out: Vec<char> = Vec::new();
    let mut k = a;
    while k < b
        invariant
            a <= k <= b <= s@.len(),
            out@ == s@.subrange(a as int, k as int),
        decreases b - k,
    {
        out.push(s[k]);
        assert(out@ =~= s@.subrange(a as int, (k + 1) as int));
        k += 1;
    }
    assert(out@ =~= s@.subrange(a as int, b as int));
    out
}

/// Removes a trailing carriage return.
fn do_strip_cr(l: Vec<char>) -> (r: Vec<char>)
    ensures
        r@ == strip_cr(l@),
{
    let ghost orig = l@;
    let mut l = l;
    if l.len() > 0 && l[l.len() - 1] == '\r' {
        l.pop();
        assert(l@ =~= strip_cr(orig));
        l
    } else {
        l
    }
}

/// Removes surrounding whitespace.
pub(crate) fn do_trim(l: &Vec<char>) -> (r: Vec<char>)
    ensures
        r@ == trim_spec(l@),
{
    let mut a: usize = 0;
    while a < l.len() && (l[a] == ' ' || l[a] == '\t' || l[a] == '\n' || l[a] == '\r')
        invariant
            a <= l@.len(),
            ws_end(l@, 0) == ws_end(l@, a as int),
        decreases l@.len() - a,
    {
        a += 1;
    }
    let mut b: usize = l.len();
    while b > a && (l[b - 1] == ' ' || l[b - 1] == '\t' || l[b - 1] == '\n' || l[b - 1] == '\r')
        invariant
            a <= b <= l@.len(),
            a == ws_end(l@, 0),
            a == l@.len() || !is_ws(l@[a as int]),
            forall|k: int| b <= k < l@.len() ==> is_ws(l@[k]),
            rtrim_end(l@, l@.len() as int) == rtrim_end(l@, b as int),
        decreases b,
    {
        b -= 1;
    }
    proof {
        if b > a {
            assert(!is_ws(l@[b - 1]));
            assert(rtrim_end(l@, b as int) == b as int);
            assert(trim_spec(l@) == l@.subrange(a as int, b as int));
        } else {
            assert(b == a);
            if a < l.len() {
                assert(is_ws(l@[a as int]));
                assert(false);
            }
            lemma_rtrim_end(l@, l@.len() as int);
            assert(trim_spec(l@) =~= Seq::<char>::empty());
            assert(l@.subrange(a as int, b as int) =~= Seq::<char>::empty());
        }
    }
    copy_range(l, a, b)
}

/// `rtrim_end` never exceeds its start.
proof fn lemma_rtrim_end(l: Seq<char>, e: int)
    requires
        0 <= e <= l.len(),
    ensures
        0 <= rtrim_end(l, e) <= e,
    decreases e,
{
    if 0 < e && is_ws(l[e - 1]) {
        lemma_rtrim_end(l, e - 1);
    }
}

/// Extracts the JSON-RPC payload from an HTTP response body.
pub fn extract_http_payload(body: &str) -> (r: String)
    ensures
        r@ == http_payload(body@),
{
    let cs = crate::text::chars_of(body);
    match find_data_payload_from(&cs, 0) {
        Some(p) => crate::text::string_of(&p),
        None => {
            let t = do_trim(&cs);
            crate::text::string_of(&t)
        },
    }
}

fn find_data_payload_from(s: &Vec<char>, i: usize) -> (r: Option<Vec<char>>)
    requires
        i <= s@.len(),
    ensures
        match r {
            Some(p) => first_data_payload_from(s@, i as int) == Some(p@),
            None => first_data_payload_from(s@, i as int) is None,
        },
    decreases s@.len() - i,
{
    let e = find_line_break(s, i);
    let raw = copy_range(s, i, e);
    let l = do_strip_cr(raw);
    if data_prefixed(&l) {
        proof {
            reveal_strlit("data: ");
        }
        let payload = copy_range(&l, 6, l.len());
        assert(payload@ =~= l@.skip(6));
        let t = do_trim(&payload);
        Some(t)
    } else if e >= s.len() {
        None
    } else {
        find_data_payload_from(s, e + 1)
    }
}

/// Whether the line begins with `data: `.
fn data_prefixed(l: &Vec<char>) -> (r: bool)
    ensures
        r == has_prefix(l@, "data: "@),
{
    proof {
        reveal_strlit("data: ");
    }
    if l.len() < 6 {
        return false;
    }
    let r = l[0] == 'd' && l[1] == 'a' && l[2] == 't' && l[3] == 'a' && l[4] == ':' && l[5] == ' ';
    proof {
        if r {
            assert(l@.subrange(0, 6) =~= "data: "@);
        } else {
            if has_prefix(l@, "data: "@) {
                assert(l@.subrange(0, 6)[0] == 'd' && l@.subrange(0, 6)[1] == 'a' && l@.subrange(
                    0,
                    6,
                )[2] == 't' && l@.subrange(0, 6)[3] == 'a' && l@.subrange(0, 6)[4] == ':'
                    && l@.subrange(0, 6)[5] == ' ');
            }
        }
    }
    r
}

/// The Authorization header value for a configured token: the token itself
/// when it already carries a scheme prefix, else with `Bearer ` prepended.
pub open spec fn auth_value_spec(t: Seq<char>) -> Seq<char> {
    if has_prefix(t, "Bearer "@) || has_prefix(t, "token "@) || has_prefix(t, "Basic "@) {
        t
    } else {
        "Bearer "@ + t
    }
}

/// Builds the Authorization header value for a token.
pub fn auth_header_value(token: &str) -> (r: String)
    ensures
        r@ == auth_value_spec(token@),
{
    if crate::text::starts_with(token, "Bearer ") || crate::text::starts_with(token, "token ")
        || crate::text::starts_with(token, "Basic ") {
        token.to_owned()
    } else {
        let mut r = String::new();
        r.append("Bearer ");
        r.append(token);
        assert(r@ =~= "Bearer "@ + token@);
        r
    }
}

} // verus!
