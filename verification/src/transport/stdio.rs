//! The subprocess transport's verified core: splitting the configured
//! command line into program and arguments, and the one-JSON-value-per-line
//! framing of requests and responses. Spawning the child and moving the
//! lines is left to the unverified shell.

use vstd::prelude::*;
use vstd::string::*;
use crate::json::{ws_end, is_ws, render};
use crate::rpc::{JsonRpcRequest, JsonRpcResponse, decode_response, decoded_response,
    encode_request, request_jsonv};
use crate::transport::TransportError;

verus! {

/// The first position at or after `i` that holds whitespace, or the end.
pub open spec fn tok_end(s: Seq<char>, i: int) -> int
    decreases s.len() - i,
{
    if 0 <= i < s.len() && !is_ws(s[i]) {
        tok_end(s, i + 1)
    } else {
        i
    }
}

/// `tok_end` never moves backwards and stays within the text.
pub proof fn lemma_tok_end(s: Seq<char>, i: int)
    requires
        0 <= i <= s.len(),
    ensures
        i <= tok_end(s, i) <= s.len(),
    decreases s.len() - i,
{
    if i < s.len() && !is_ws(s[i]) {
        lemma_tok_end(s, i + 1);
    }
}

/// The whitespace-delimited tokens of `s`, starting at `i`.
pub open spec fn tokens_from(s: Seq<char>, i: int) -> Seq<Seq<char>>
    decreases s.len() - i,
{
    if !(0 <= i <= s.len()) {
        Seq::empty()
    } else {
        let j = ws_end(s, i);
        if !(i <= j < s.len()) {
            Seq::empty()
        } else {
            let e = tok_end(s, j);
            if !(j < e <= s.len()) {
                Seq::empty()
            } else {
                seq![s.subrange(j, e)] + tokens_from(s, e)
            }
        }
    }
}

/// The whitespace-delimited tokens of a command line.
pub open spec fn command_tokens(s: Seq<char>) -> Seq<Seq<char>> {
    tokens_from(s, 0)
}

fn find_tok_end(s: &Vec<char>, i: usize) -> (r: usize)
    requires
        i <= s@.len(),
    ensures
        r == tok_end(s@, i as int),
        i <= r <= s@.len(),
{
    let mut j = i;
    while j < s.len() && !(s[j] == ' ' || s[j] == '\t' || s[j] == '\n' || s[j] == '\r')
        invariant
            i <= j <= s@.len(),
            tok_end(s@, i as int) == tok_end(s@, j as int),
        decreases s@.len() - j,
    {
        j += 1;
    }
    j
}

fn tokens_exec(s: &Vec<char>, i: usize) -> (r: Vec<String>)
    requires
        i <= s@.len(),
    ensures
        r@.len() == tokens_from(s@, i as int).len(),
        forall|k: int|
            0 <= k < r@.len() ==> (#[trigger] r@[k])@ == tokens_from(s@, i as int)[k],
    decreases s@.len() - i,
{
    let j = crate::json::skip_ws(s, i);
    if j >= s.len() {
        Vec::new()
    } else {
        proof {
            crate::json::lemma_ws_end_stop(s@, i as int);
        }
        let e = find_tok_end(s, j);
        proof {
            assert(!is_ws(s@[j as int]));
            assert(tok_end(s@, j as int) == tok_end(s@, j as int + 1));
            lemma_tok_end(s@, j as int + 1);
            assert(e > j);
        }
        let tok_chars = crate::transport::copy_range(s, j, e);
        let tok = crate::text::string_of(&tok_chars);
        let rest = tokens_exec(s, e);
        let ghost pre = rest@;
        let mut out = rest;
        out.insert(0, tok);
        proof {
            assert(out@.drop_first() =~= pre);
            assert(tokens_from(s@, i as int) == seq![s@.subrange(j as int, e as int)]
                + tokens_from(s@, e as int));
            assert forall|k: int| 0 <= k < out@.len() implies (#[trigger] out@[k])@
                == tokens_from(s@, i as int)[k] by {
                if k > 0 {
                    assert(out@[k] == pre[k - 1]);
                }
            }
        }
        out
    }
}

/// Splits a command line into its program (the first token) and arguments
/// (the rest). Yields nothing exactly when the command holds no token.
pub fn parse_command(command: &str) -> (r: Option<(String, Vec<String>)>)
    ensures
        match r {
            Some((prog, args)) => {
                &&& command_tokens(command@).len() > 0
                &&& prog@ == command_tokens(command@)[0]
                &&& args@.len() + 1 == command_tokens(command@).len()
                &&& forall|k: int|
                    0 <= k < args@.len() ==> (#[trigger] args@[k])@ == command_tokens(
                        command@,
                    )[k + 1]
            },
            None => command_tokens(command@).len() == 0,
        },
{
    let cs = crate::text::chars_of(command);
    let toks = tokens_exec(&cs, 0);
    if toks.len() == 0 {
        return None;
    }
    let mut args: Vec<String> = Vec::new();
    let mut k: usize = 1;
    let ghost tv = command_tokens(command@);
    while k < toks.len()
        invariant
            1 <= k <= toks@.len(),
            tv == command_tokens(command@),
            toks@.len() == tv.len(),
            forall|i: int| 0 <= i < toks@.len() ==> (#[trigger] toks@[i])@ == tv[i],
            args@.len() == k - 1,
            forall|i: int| 0 <= i < args@.len() ==> (#[trigger] args@[i])@ == tv[i + 1],
        decreases toks@.len() - k,
    {
        args.push(toks[k].clone());
        k += 1;
    }
    let prog = toks[0].clone();
    Some((prog, args))
}

/// Encodes a request as one newline-terminated wire line.
pub fn encode_request_line(req: &JsonRpcRequest) -> (r: String)
    ensures
        r@ == render(request_jsonv(req@)) + "\n"@,
{
    let mut s = encode_request(req);
    s.append("\n");
    s
}

/// Interprets one line read from the counterpart: an empty read means the
/// stream closed; otherwise the line must decode as a response.
pub fn decode_response_line(line: &str) -> (r: Result<JsonRpcResponse, TransportError>)
    ensures
        line@.len() == 0 ==> (r matches Err(TransportError::ConnectionClosed)),
        line@.len() > 0 ==> match r {
            Ok(resp) => decoded_response(line@) == Some(resp@),
            Err(e) => {
                &&& decoded_response(line@) is None
                &&& e matches TransportError::Malformed { raw } && raw@ == line@
            },
        },
{
    if line.unicode_len() == 0 {
        Err(TransportError::ConnectionClosed)
    } else {
        match decode_response(line) {
            Some(resp) => Ok(resp),
            None => Err(TransportError::Malformed { raw: line.to_owned() }),
        }
    }
}

} // verus!
