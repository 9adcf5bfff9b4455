//! The request/response HTTP transport's verified core: the headers of a
//! send, sticky session handling, and the exact classification of every
//! HTTP response — status 401 always becomes the authentication-required
//! condition, whatever the body holds. Performing the POST is left to the
//! unverified shell.

use vstd::prelude::*;
use vstd::string::*;
use crate::json::{JsonV, sp_json};
use crate::rpc::{JsonRpcResponse, JsonRpcResponseV, decode_response, decoded_response,
    obj_lookup};
use crate::transport::{HttpTransportError, TransportError, auth_value_spec, auth_header_value,
    extract_http_payload, http_payload};

verus! {

/// The request/response HTTP transport's configuration and session state.
pub struct HttpTransport {
    pub url: String,
    pub access_token: Option<String>,
    pub server_name: String,
    pub session_id: Option<String>,
}

/// The view of an optional string.
pub open spec fn opt_view(o: Option<String>) -> Option<Seq<char>> {
    match o {
        Some(s) => Some(s@),
        None => None,
    }
}

/// The views of a list of name/value pairs.
pub open spec fn kv_views(s: Seq<(String, String)>) -> Seq<(Seq<char>, Seq<char>)> {
    Seq::new(s.len(), |i: int| (s[i].0@, s[i].1@))
}

/// The headers of one POST: the accept header, the Authorization header
/// when a token is configured, and the session header once one is known.
pub open spec fn post_headers(token: Option<Seq<char>>, session: Option<Seq<char>>) -> Seq<
    (Seq<char>, Seq<char>),
> {
    let base = seq![("Accept"@, "application/json, text/event-stream"@)];
    let with_auth = match token {
        Some(t) => base + seq![("Authorization"@, auth_value_spec(t))],
        None => base,
    };
    match session {
        Some(sid) => with_auth + seq![("Mcp-Session-Id"@, sid)],
        None => with_auth,
    }
}

/// The value of the first header with the given (lower-case) name.
pub open spec fn header_lookup(hs: Seq<(Seq<char>, Seq<char>)>, name: Seq<char>) -> Option<
    Seq<char>,
>
    decreases hs.len(),
{
    if hs.len() == 0 {
        None
    } else if hs[0].0 == name {
        Some(hs[0].1)
    } else {
        header_lookup(hs.drop_first(), name)
    }
}

/// Whether a body is an OAuth-shaped error naming `invalid_token`.
pub open spec fn invalid_token_body(body: Seq<char>) -> bool {
    match sp_json(body) {
        Some(JsonV::Obj(ms)) => obj_lookup(ms, "error"@) == Some(JsonV::Str("invalid_token"@)),
        _ => false,
    }
}

/// What one HTTP response amounts to.
pub enum HttpOutcomeV {
    Reply(JsonRpcResponseV),
    Auth,
    Remote(u16, Seq<char>),
    Malformed(Seq<char>),
}

/// The exact classification of an HTTP response: 401 demands
/// authentication whatever the body holds; any other non-success status is
/// an `invalid_token` error body (authentication) or a remote error; a
/// success body is de-enveloped and must decode as a response.
pub open spec fn http_outcome(status: u16, body: Seq<char>) -> HttpOutcomeV {
    if status == 401 {
        HttpOutcomeV::Auth
    } else if !(200 <= status < 300) {
        if invalid_token_body(body) {
            HttpOutcomeV::Auth
        } else {
            HttpOutcomeV::Remote(status, body)
        }
    } else {
        match decoded_response(http_payload(body)) {
            Some(rv) => HttpOutcomeV::Reply(rv),
            None => HttpOutcomeV::Malformed(body),
        }
    }
}

impl HttpTransport {
    /// A transport for one URL, with no token and no session yet.
    pub fn new(url: String, server_name: String) -> (r: HttpTransport)
        ensures
            r.url == url,
            r.server_name == server_name,
            r.access_token is None,
            r.session_id is None,
    {
        HttpTransport { url, access_token: None, server_name, session_id: None }
    }

    /// The same transport with the given bearer token.
    pub fn with_token(self, token: Option<String>) -> (r: HttpTransport)
        ensures
            r.url == self.url,
            r.server_name == self.server_name,
            r.session_id == self.session_id,
            r.access_token == token,
    {
        HttpTransport { access_token: token, ..self }
    }

    /// The headers of one POST of a request to this transport's URL.
    pub fn post_headers(&self) -> (r: Vec<(String, String)>)
        ensures
            kv_views(r@) == post_headers(
                opt_view(self.access_token),
                opt_view(self.session_id),
            ),
    {
        let mut hs: Vec<(String, String)> = Vec::new();
        hs.push(("Accept".to_owned(), "application/json, text/event-stream".to_owned()));
        match &self.access_token {
            Some(t) => {
                hs.push(("Authorization".to_owned(), auth_header_value(t.as_str())));
            },
            None => {},
        }
        match &self.session_id {
            Some(sid) => {
                hs.push(("Mcp-Session-Id".to_owned(), sid.clone()));
            },
            None => {},
        }
        proof {
            assert(kv_views(hs@) =~= post_headers(
                opt_view(self.access_token),
                opt_view(self.session_id),
            ));
        }
        hs
    }

    /// Records the server-assigned session identifier, if the response
    /// carries one; later sends echo it.
    pub fn note_session(&mut self, headers: &Vec<(String, String)>)
        ensures
            final(self).url == old(self).url,
            final(self).access_token == old(self).access_token,
            final(self).server_name == old(self).server_name,
            opt_view(final(self).session_id) == (match header_lookup(
                kv_views(headers@),
                "mcp-session-id"@,
            ) {
                Some(sid) => Some(sid),
                None => opt_view(old(self).session_id),
            }),
    {
        match find_header(headers, "mcp-session-id") {
            Some(v) => {
                self.session_id = Some(v);
            },
            None => {},
        }
    }

    /// Digests one HTTP response: updates the sticky session, then
    /// classifies the status and body.
    pub fn handle_response(&mut self, status: u16, headers: &Vec<(String, String)>, body: &str)
        -> (r: Result<JsonRpcResponse, TransportError>)
        ensures
            final(self).url == old(self).url,
            final(self).access_token == old(self).access_token,
            final(self).server_name == old(self).server_name,
            opt_view(final(self).session_id) == (match header_lookup(
                kv_views(headers@),
                "mcp-session-id"@,
            ) {
                Some(sid) => Some(sid),
                None => opt_view(old(self).session_id),
            }),
            status == 401 ==> r is Err,
            match r {
                Ok(resp) => http_outcome(status, body@) == HttpOutcomeV::Reply(resp@),
                Err(e) => match e {
                    TransportError::Auth(a) => {
                        &&& http_outcome(status, body@) is Auth
                        &&& a matches HttpTransportError::AuthRequired { server_name }
                            && server_name@ == old(self).server_name@
                    },
                    TransportError::Remote { status: st, body: b } => http_outcome(status, body@)
                        == HttpOutcomeV::Remote(st, b@),
                    TransportError::Malformed { raw } => http_outcome(status, body@)
                        == HttpOutcomeV::Malformed(raw@),
                    _ => false,
                },
            },
    {
        self.note_session(headers);
        if status == 401 {
            return Err(
                TransportError::Auth(
                    HttpTransportError::AuthRequired { server_name: self.server_name.clone() },
                ),
            );
        }
        if !(200 <= status && status < 300) {
            if body_names_invalid_token(body) {
                return Err(
                    TransportError::Auth(
                        HttpTransportError::AuthRequired {
                            server_name: self.server_name.clone(),
                        },
                    ),
                );
            }
            return Err(TransportError::Remote { status, body: body.to_owned() });
        }
        let payload = extract_http_payload(body);
        match decode_response(payload.as_str()) {
            Some(resp) => Ok(resp),
            None => Err(TransportError::Malformed { raw: body.to_owned() }),
        }
    }
}

/// Whether the body is an OAuth-shaped error naming `invalid_token`.
fn body_names_invalid_token(body: &str) -> (r: bool)
    ensures
        r == invalid_token_body(body@),
{
    match crate::json::parse_json_text(body) {
        Some(v) => match &v {
            crate::json::Json::Obj(ms) => match crate::rpc::obj_get(ms, "error") {
                Some(ev) => match ev {
                    crate::json::Json::Str(s) => crate::text::str_eq(s.as_str(), "invalid_token"),
                    _ => false,
                },
                None => false,
            },
            _ => false,
        },
        None => false,
    }
}

/// The value of the first header with the given name.
fn find_header(headers: &Vec<(String, String)>, name: &str) -> (r: Option<String>)
    ensures
        match r {
            Some(v) => header_lookup(kv_views(headers@), name@) == Some(v@),
            None => header_lookup(kv_views(headers@), name@) is None,
        },
{
    proof {
        assert(headers@.skip(0) =~= headers@);
    }
    find_header_at(headers, name, 0)
}

fn find_header_at(headers: &Vec<(String, String)>, name: &str, i: usize) -> (r: Option<String>)
    requires
        i <= headers@.len(),
    ensures
        match r {
            Some(v) => header_lookup(kv_views(headers@.skip(i as int)), name@) == Some(v@),
            None => header_lookup(kv_views(headers@.skip(i as int)), name@) is None,
        },
    decreases headers@.len() - i,
{
    if i >= headers.len() {
        proof {
            assert(headers@.skip(i as int) =~= Seq::<(String, String)>::empty());
            assert(kv_views(headers@.skip(i as int)) =~= Seq::<(Seq<char>, Seq<char>)>::empty());
        }
        None
    } else {
        proof {
            assert(kv_views(headers@.skip(i as int))[0] == (headers@[i as int].0@,
                headers@[i as int].1@));
            assert(kv_views(headers@.skip(i as int)).drop_first() =~= kv_views(
                headers@.skip(i as int + 1),
            ));
        }
        if crate::text::str_eq(headers[i].0.as_str(), name) {
            Some(headers[i].1.clone())
        } else {
            find_header_at(headers, name, i + 1)
        }
    }
}

} // verus!
