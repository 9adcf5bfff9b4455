//! The JSON-RPC 2.0 envelope: request identifiers, requests, responses and
//! error objects, with their exact wire encoding and decoding.

use vstd::prelude::*;
use crate::json::{Json, JsonV, jv, jv_members, lemma_jv_members, render, sp_json};
use crate::text::{dec_digits, dec_val, all_digits, int_lex_val};

verus! {

/// A request identifier: an unsigned integer or a string.
#[derive(Debug)]
pub enum RequestId {
    Number(u64),
    String(String),
}

/// Specification value of a request identifier.
pub enum RequestIdV {
    Number(u64),
    Str(Seq<char>),
}

impl View for RequestId {
    type V = RequestIdV;

    open spec fn view(&self) -> RequestIdV {
        match self {
            RequestId::Number(n) => RequestIdV::Number(*n),
            RequestId::String(s) => RequestIdV::Str(s@),
        }
    }
}

impl RequestId {
    /// A copy of this identifier with the same value.
    pub fn duplicate(&self) -> (r: RequestId)
        ensures
            r@ == self@,
    {
        match self {
            RequestId::Number(n) => RequestId::Number(*n),
            RequestId::String(s) => RequestId::String(s.clone()),
        }
    }
}

impl PartialEq for RequestId {
    fn eq(&self, other: &Self) -> (r: bool) {
        match (self, other) {
            (RequestId::Number(a), RequestId::Number(b)) => a == b,
            (RequestId::String(a), RequestId::String(b)) => *a == *b,
            _ => false,
        }
    }
}

impl vstd::std_specs::cmp::PartialEqSpecImpl for RequestId {
    open spec fn obeys_eq_spec() -> bool {
        true
    }

    open spec fn eq_spec(&self, other: &Self) -> bool {
        self@ == other@
    }
}

impl Eq for RequestId {}

impl From<u64> for RequestId {
    fn from(n: u64) -> (r: Self) {
        RequestId::Number(n)
    }
}

impl vstd::std_specs::convert::FromSpecImpl<u64> for RequestId {
    open spec fn obeys_from_spec() -> bool {
        true
    }

    open spec fn from_spec(n: u64) -> Self {
        RequestId::Number(n)
    }
}

impl From<String> for RequestId {
    fn from(s: String) -> (r: Self) {
        RequestId::String(s)
    }
}

impl vstd::std_specs::convert::FromSpecImpl<String> for RequestId {
    open spec fn obeys_from_spec() -> bool {
        true
    }

    open spec fn from_spec(s: String) -> Self {
        RequestId::String(s)
    }
}

impl<'a> From<&'a str> for RequestId {
    fn from(s: &'a str) -> (r: Self) {
        RequestId::String(s.to_owned())
    }
}

impl<'a> vstd::std_specs::convert::FromSpecImpl<&'a str> for RequestId {
    open spec fn obeys_from_spec() -> bool {
        false
    }

    open spec fn from_spec(s: &'a str) -> Self {
        RequestId::String(vstd::pervasive::arbitrary())
    }
}

/// A JSON-RPC 2.0 request.
pub struct JsonRpcRequest {
    pub jsonrpc: String,
    pub id: RequestId,
    pub method: String,
    pub params: Option<Json>,
}

/// Specification value of a request.
pub struct JsonRpcRequestV {
    pub jsonrpc: Seq<char>,
    pub id: RequestIdV,
    pub method: Seq<char>,
    pub params: Option<JsonV>,
}

impl View for JsonRpcRequest {
    type V = JsonRpcRequestV;

    open spec fn view(&self) -> JsonRpcRequestV {
        JsonRpcRequestV {
            jsonrpc: self.jsonrpc@,
            id: self.id@,
            method: self.method@,
            params: match self.params {
                Some(p) => Some(jv(p)),
                None => None,
            },
        }
    }
}

/// A JSON-RPC 2.0 error object.
pub struct JsonRpcError {
    pub code: i32,
    pub message: String,
    pub data: Option<Json>,
}

/// Specification value of an error object.
pub struct JsonRpcErrorV {
    pub code: i32,
    pub message: Seq<char>,
    pub data: Option<JsonV>,
}

impl View for JsonRpcError {
    type V = JsonRpcErrorV;

    open spec fn view(&self) -> JsonRpcErrorV {
        JsonRpcErrorV {
            code: self.code,
            message: self.message@,
            data: match self.data {
                Some(d) => Some(jv(d)),
                None => None,
            },
        }
    }
}

/// A JSON-RPC 2.0 response. A decoded response always carries exactly one
/// of `result` and `error`.
pub struct JsonRpcResponse {
    pub jsonrpc: String,
    pub id: RequestId,
    pub result: Option<Json>,
    pub error: Option<JsonRpcError>,
}

/// Specification value of a response.
pub struct JsonRpcResponseV {
    pub jsonrpc: Seq<char>,
    pub id: RequestIdV,
    pub result: Option<JsonV>,
    pub error: Option<JsonRpcErrorV>,
}

impl View for JsonRpcResponse {
    type V = JsonRpcResponseV;

    open spec fn view(&self) -> JsonRpcResponseV {
        JsonRpcResponseV {
            jsonrpc: self.jsonrpc@,
            id: self.id@,
            result: match self.result {
                Some(v) => Some(jv(v)),
                None => None,
            },
            error: match self.error {
                Some(e) => Some(e@),
                None => None,
            },
        }
    }
}

impl JsonRpcRequest {
    /// A request with protocol version `2.0`.
    pub fn new(id: RequestId, method: &str, params: Option<Json>) -> (r: JsonRpcRequest)
        ensures
            r@.jsonrpc == "2.0"@,
            r@.id == id@,
            r@.method == method@,
            r@.params == (match params {
                Some(p) => Some(jv(p)),
                None => None::<JsonV>,
            }),
    {
        JsonRpcRequest { jsonrpc: "2.0".to_owned(), id, method: method.to_owned(), params }
    }
}

impl JsonRpcResponse {
    /// Whether the response reports success: a result and no error.
    pub fn is_success(&self) -> (r: bool)
        ensures
            r == (self@.result is Some && self@.error is None),
    {
        self.result.is_some() && self.error.is_none()
    }

    /// Whether the response carries an error object.
    pub fn is_error(&self) -> (r: bool)
        ensures
            r == (self@.error is Some),
    {
        self.error.is_some()
    }
}

/// The JSON value that encodes a request identifier.
pub open spec fn id_jsonv(id: RequestIdV) -> JsonV {
    match id {
        RequestIdV::Number(n) => JsonV::Num(dec_digits(n as nat)),
        RequestIdV::Str(s) => JsonV::Str(s),
    }
}

/// The JSON value that encodes a request.
pub open spec fn request_jsonv(r: JsonRpcRequestV) -> JsonV {
    let base = seq![
        ("jsonrpc"@, JsonV::Str(r.jsonrpc)),
        ("id"@, id_jsonv(r.id)),
        ("method"@, JsonV::Str(r.method)),
    ];
    match r.params {
        Some(p) => JsonV::Obj(base + seq![("params"@, p)]),
        None => JsonV::Obj(base),
    }
}

/// The JSON value that encodes a response.
pub open spec fn error_jsonv(e: JsonRpcErrorV) -> JsonV {
    let base = seq![
        ("code"@, JsonV::Num(int_code_digits(e.code))),
        ("message"@, JsonV::Str(e.message)),
    ];
    match e.data {
        Some(d) => JsonV::Obj(base + seq![("data"@, d)]),
        None => JsonV::Obj(base),
    }
}

/// The decimal digits of an `i32`, with a leading minus sign if negative.
pub open spec fn int_code_digits(v: i32) -> Seq<char> {
    if v < 0 {
        seq!['-'] + dec_digits((-(v as int)) as nat)
    } else {
        dec_digits(v as nat)
    }
}

/// The JSON value that encodes a response.
pub open spec fn response_jsonv(r: JsonRpcResponseV) -> JsonV {
    let base = seq![("jsonrpc"@, JsonV::Str(r.jsonrpc)), ("id"@, id_jsonv(r.id))];
    let with_result = match r.result {
        Some(v) => base + seq![("result"@, v)],
        None => base,
    };
    let with_error = match r.error {
        Some(e) => with_result + seq![("error"@, error_jsonv(e))],
        None => with_result,
    };
    JsonV::Obj(with_error)
}

/// Turns a request identifier into its JSON encoding.
pub fn id_to_json(id: &RequestId) -> (r: Json)
    ensures
        jv(r) == id_jsonv(id@),
{
    match id {
        RequestId::Number(n) => Json::Num(crate::text::dec_u64(*n)),
        RequestId::String(s) => Json::Str(s.clone()),
    }
}

/// Encodes a request as its exact wire text.
pub fn encode_request(req: &JsonRpcRequest) -> (r: String)
    ensures
        r@ == render(request_jsonv(req@)),
{
    let mut ms: Vec<(String, Json)> = Vec::new();
    ms.push(("jsonrpc".to_owned(), Json::Str(req.jsonrpc.clone())));
    ms.push(("id".to_owned(), id_to_json(&req.id)));
    ms.push(("method".to_owned(), Json::Str(req.method.clone())));
    match &req.params {
        Some(p) => {
            ms.push(("params".to_owned(), p.duplicate()));
        },
        None => {},
    }
    let obj = Json::Obj(ms);
    proof {
        lemma_jv_members(obj->Obj_0@);
        let target = (request_jsonv(req@))->Obj_0;
        assert forall|i: int| 0 <= i < obj->Obj_0@.len() implies jv_members(obj->Obj_0@)[i]
            == target[i] by {
            assert(jv_members(obj->Obj_0@)[i] == ((obj->Obj_0@[i]).0@, jv(obj->Obj_0@[i].1)));
        }
        assert(jv_members(obj->Obj_0@) =~= target);
    }
    obj.render_string()
}

/// Encodes a response as its exact wire text.
pub fn encode_response(resp: &JsonRpcResponse) -> (r: String)
    ensures
        r@ == render(response_jsonv(resp@)),
{
    let mut ms: Vec<(String, Json)> = Vec::new();
    ms.push(("jsonrpc".to_owned(), Json::Str(resp.jsonrpc.clone())));
    ms.push(("id".to_owned(), id_to_json(&resp.id)));
    match &resp.result {
        Some(v) => {
            ms.push(("result".to_owned(), v.duplicate()));
        },
        None => {},
    }
    match &resp.error {
        Some(e) => {
            let mut ems: Vec<(String, Json)> = Vec::new();
            ems.push(("code".to_owned(), Json::Num(int_code_to_chars(e.code))));
            ems.push(("message".to_owned(), Json::Str(e.message.clone())));
            match &e.data {
                Some(d) => {
                    ems.push(("data".to_owned(), d.duplicate()));
                },
                None => {},
            }
            let eobj = Json::Obj(ems);
            proof {
                lemma_jv_members(eobj->Obj_0@);
                let etarget = (error_jsonv(e@))->Obj_0;
                assert forall|i: int| 0 <= i < eobj->Obj_0@.len() implies jv_members(
                    eobj->Obj_0@,
                )[i] == etarget[i] by {
                    assert(jv_members(eobj->Obj_0@)[i] == ((eobj->Obj_0@[i]).0@, jv(
                        eobj->Obj_0@[i].1,
                    )));
                }
                assert(jv_members(eobj->Obj_0@) =~= etarget);
                assert(jv(eobj) == error_jsonv(e@));
            }
            ms.push(("error".to_owned(), eobj));
        },
        None => {},
    }
    let obj = Json::Obj(ms);
    proof {
        lemma_jv_members(obj->Obj_0@);
        let target = (response_jsonv(resp@))->Obj_0;
        assert forall|i: int| 0 <= i < obj->Obj_0@.len() implies jv_members(obj->Obj_0@)[i]
            == target[i] by {
            assert(jv_members(obj->Obj_0@)[i] == ((obj->Obj_0@[i]).0@, jv(obj->Obj_0@[i].1)));
        }
        assert(jv_members(obj->Obj_0@) =~= target);
    }
    obj.render_string()
}

/// The decimal text of an `i32`, with a leading minus sign if negative.
pub fn int_code_to_chars(v: i32) -> (r: Vec<char>)
    ensures
        r@ == int_code_digits(v),
{
    if v < 0 {
        let mag: u64 = (-(v as i64)) as u64;
        let mut out: Vec<char> = Vec::new();
        out.push('-');
        crate::text::push_dec_u64(mag, &mut out);
        assert(out@ =~= int_code_digits(v));
        out
    } else {
        let r = crate::text::dec_u64(v as u64);
        r
    }
}

impl Json {
    /// A structurally equal copy of this value.
    pub fn duplicate(&self) -> (r: Json)
        ensures
            jv(r) == jv(*self),
        decreases self,
    {
        match self {
            Json::Null => Json::Null,
            Json::Bool(b) => Json::Bool(*b),
            Json::Num(v) => Json::Num(v.clone()),
            Json::Str(s) => Json::Str(s.clone()),
            Json::Arr(items) => {
                let mut out: Vec<Json> = Vec::new();
                let mut k: usize = 0;
                while k < items.len()
                    invariant
                        k <= items@.len(),
                        self == Json::Arr(*items),
                        out@.len() == k,
                        forall|i: int| 0 <= i < k ==> jv(#[trigger] out@[i]) == jv(items@[i]),
                    decreases items@.len() - k,
                {
                    proof {
                        broadcast use vstd::std_specs::vec::axiom_vec_index_decreases;
                        assert(decreases_to!(*self => (*self)->Arr_0));
                        assert((*self)->Arr_0 == *items);
                        assert(decreases_to!(*items => (*items)[k as int]));
                        assert(decreases_to!(*self => (*items)[k as int]));
                    }
                    let d = items[k].duplicate();
                    out.push(d);
                    k += 1;
                }
                proof {
                    lemma_jv_seq_congruence(out@, items@);
                }
                Json::Arr(out)
            },
            Json::Obj(members) => {
                let mut out: Vec<(String, Json)> = Vec::new();
                let mut k: usize = 0;
                while k < members.len()
                    invariant
                        k <= members@.len(),
                        self == Json::Obj(*members),
                        out@.len() == k,
                        forall|i: int|
                            0 <= i < k ==> (#[trigger] out@[i]).0@ == members@[i].0@ && jv(
                                out@[i].1,
                            ) == jv(members@[i].1),
                    decreases members@.len() - k,
                {
                    proof {
                        broadcast use vstd::std_specs::vec::axiom_vec_index_decreases;
                        assert(decreases_to!(*self => (*self)->Obj_0));
                        assert((*self)->Obj_0 == *members);
                        assert(decreases_to!(*members => (*members)[k as int]));
                        assert(decreases_to!((*members)[k as int] => (*members)[k as int].1));
                        assert(decreases_to!(*self => (*members)[k as int].1));
                    }
                    let key = members[k].0.clone();
                    let d = members[k].1.duplicate();
                    out.push((key, d));
                    k += 1;
                }
                proof {
                    lemma_jv_members_congruence(out@, members@);
                }
                Json::Obj(out)
            },
        }
    }
}

/// The value of the first member with the given key, if any.
pub open spec fn obj_lookup(ms: Seq<(Seq<char>, JsonV)>, key: Seq<char>) -> Option<JsonV>
    decreases ms.len(),
{
    if ms.len() == 0 {
        None
    } else if ms[0].0 == key {
        Some(ms[0].1)
    } else {
        obj_lookup(ms.drop_first(), key)
    }
}

/// Looking up the key of entry `i` finds its value, when no earlier entry
/// shares that key.
pub proof fn lemma_obj_lookup_at(ms: Seq<(Seq<char>, JsonV)>, i: int)
    requires
        0 <= i < ms.len(),
        forall|j: int| 0 <= j < i ==> (#[trigger] ms[j]).0 != ms[i].0,
    ensures
        obj_lookup(ms, ms[i].0) == Some(ms[i].1),
    decreases i,
{
    if i > 0 {
        assert(ms.drop_first()[i - 1] == ms[i]);
        assert forall|j: int| 0 <= j < i - 1 implies (#[trigger] ms.drop_first()[j]).0
            != ms.drop_first()[i - 1].0 by {
            assert(ms.drop_first()[j] == ms[j + 1]);
        }
        lemma_obj_lookup_at(ms.drop_first(), i - 1);
    }
}

/// The request identifier a JSON value stands for: an unsigned decimal
/// number, or a string. Anything else is not an identifier.
pub open spec fn id_of_jsonv(v: JsonV) -> Option<RequestIdV> {
    match v {
        JsonV::Num(lex) => if all_digits(lex) && lex.len() > 0 && dec_val(lex) <= u64::MAX {
            Some(RequestIdV::Number(dec_val(lex) as u64))
        } else {
            None
        },
        JsonV::Str(s) => Some(RequestIdV::Str(s)),
        _ => None,
    }
}

/// The error object a JSON value stands for: an object with an integer
/// `code` that fits an `i32` and a string `message`; `data` is free-form.
pub open spec fn error_of_jsonv(v: JsonV) -> Option<JsonRpcErrorV> {
    match v {
        JsonV::Obj(ms) => match obj_lookup(ms, "code"@) {
            Some(JsonV::Num(lex)) => match int_lex_val(lex) {
                Some(c) => if i32::MIN <= c <= i32::MAX {
                    match obj_lookup(ms, "message"@) {
                        Some(JsonV::Str(msg)) => Some(
                            JsonRpcErrorV {
                                code: c as i32,
                                message: msg,
                                data: obj_lookup(ms, "data"@),
                            },
                        ),
                        _ => None,
                    }
                } else {
                    None
                },
                None => None,
            },
            _ => None,
        },
        _ => None,
    }
}

/// The response a JSON value stands for. The value must be an object with a
/// string `jsonrpc` member, a valid `id`, and exactly one of `result` and
/// `error`; an `error` member must itself be a valid error object.
pub open spec fn response_of_jsonv(v: JsonV) -> Option<JsonRpcResponseV> {
    match v {
        JsonV::Obj(ms) => match obj_lookup(ms, "jsonrpc"@) {
            Some(JsonV::Str(ver)) => match obj_lookup(ms, "id"@) {
                Some(idj) => match id_of_jsonv(idj) {
                    Some(id) => {
                        let res = obj_lookup(ms, "result"@);
                        match obj_lookup(ms, "error"@) {
                            Some(ej) => if res is None {
                                match error_of_jsonv(ej) {
                                    Some(e) => Some(
                                        JsonRpcResponseV {
                                            jsonrpc: ver,
                                            id,
                                            result: None,
                                            error: Some(e),
                                        },
                                    ),
                                    None => None,
                                }
                            } else {
                                None
                            },
                            None => match res {
                                Some(rv) => Some(
                                    JsonRpcResponseV {
                                        jsonrpc: ver,
                                        id,
                                        result: Some(rv),
                                        error: None,
                                    },
                                ),
                                None => None,
                            },
                        }
                    },
                    None => None,
                },
                None => None,
            },
            _ => None,
        },
        _ => None,
    }
}

/// The request a JSON value stands for: an object with a string `jsonrpc`,
/// a valid `id`, and a string `method`; `params` is free-form.
pub open spec fn request_of_jsonv(v: JsonV) -> Option<JsonRpcRequestV> {
    match v {
        JsonV::Obj(ms) => match obj_lookup(ms, "jsonrpc"@) {
            Some(JsonV::Str(ver)) => match obj_lookup(ms, "id"@) {
                Some(idj) => match id_of_jsonv(idj) {
                    Some(id) => match obj_lookup(ms, "method"@) {
                        Some(JsonV::Str(m)) => Some(
                            JsonRpcRequestV {
                                jsonrpc: ver,
                                id,
                                method: m,
                                params: obj_lookup(ms, "params"@),
                            },
                        ),
                        _ => None,
                    },
                    None => None,
                },
                None => None,
            },
            _ => None,
        },
        _ => None,
    }
}

/// What a response wire text decodes to, if anything.
pub open spec fn decoded_response(s: Seq<char>) -> Option<JsonRpcResponseV> {
    match sp_json(s) {
        Some(v) => response_of_jsonv(v),
        None => None,
    }
}

/// What a request wire text decodes to, if anything.
pub open spec fn decoded_request(s: Seq<char>) -> Option<JsonRpcRequestV> {
    match sp_json(s) {
        Some(v) => request_of_jsonv(v),
        None => None,
    }
}

/// A decoded response never carries both a result and an error, nor neither.
pub proof fn lemma_response_exclusive(v: JsonV, rv: JsonRpcResponseV)
    requires
        response_of_jsonv(v) == Some(rv),
    ensures
        (rv.result is Some) != (rv.error is Some),
{
}

/// An object that holds both `result` and `error`, or neither, is rejected.
pub proof fn lemma_response_malformed(ms: Seq<(Seq<char>, JsonV)>)
    requires
        (obj_lookup(ms, "result"@) is Some) == (obj_lookup(ms, "error"@) is Some),
    ensures
        response_of_jsonv(JsonV::Obj(ms)) is None,
{
}

fn obj_get_at<'a>(ms: &'a Vec<(String, Json)>, key: &str, i: usize) -> (r: Option<&'a Json>)
    requires
        i <= ms@.len(),
    ensures
        match r {
            Some(v) => obj_lookup(jv_members(ms@.skip(i as int)), key@) == Some(jv(*v)),
            None => obj_lookup(jv_members(ms@.skip(i as int)), key@) is None,
        },
    decreases ms@.len() - i,
{
    if i >= ms.len() {
        proof {
            assert(ms@.skip(i as int) =~= Seq::<(String, Json)>::empty());
            assert(jv_members(ms@.skip(i as int)).len() == 0) by {
                lemma_jv_members(ms@.skip(i as int));
            }
        }
        None
    } else {
        proof {
            lemma_jv_members(ms@.skip(i as int));
            assert(ms@.skip(i as int)[0] == ms@[i as int]);
            assert(jv_members(ms@.skip(i as int)) == seq![(ms@[i as int].0@, jv(ms@[i as int].1))]
                + jv_members(ms@.skip(i as int).drop_first()));
            assert(ms@.skip(i as int).drop_first() =~= ms@.skip(i as int + 1));
        }
        if crate::text::str_eq(ms[i].0.as_str(), key) {
            proof {
                assert(jv_members(ms@.skip(i as int))[0] == (ms@[i as int].0@, jv(
                    ms@[i as int].1,
                )));
                assert(obj_lookup(jv_members(ms@.skip(i as int)), key@) == Some(jv(
                    ms@[i as int].1,
                )));
            }
            Some(&ms[i].1)
        } else {
            proof {
                assert(jv_members(ms@.skip(i as int))[0] == (ms@[i as int].0@, jv(
                    ms@[i as int].1,
                )));
                assert(jv_members(ms@.skip(i as int)).drop_first() =~= jv_members(
                    ms@.skip(i as int + 1),
                ));
                assert(obj_lookup(jv_members(ms@.skip(i as int)), key@) == obj_lookup(
                    jv_members(ms@.skip(i as int + 1)),
                    key@,
                ));
            }
            obj_get_at(ms, key, i + 1)
        }
    }
}

/// The value of the first member with the given key, if any.
pub fn obj_get<'a>(ms: &'a Vec<(String, Json)>, key: &str) -> (r: Option<&'a Json>)
    ensures
        match r {
            Some(v) => obj_lookup(jv_members(ms@), key@) == Some(jv(*v)),
            None => obj_lookup(jv_members(ms@), key@) is None,
        },
{
    proof {
        assert(ms@.skip(0) =~= ms@);
    }
    obj_get_at(ms, key, 0)
}

/// The request identifier a JSON value stands for, if any.
pub fn id_from_json(v: &Json) -> (r: Option<RequestId>)
    ensures
        match r {
            Some(id) => id_of_jsonv(jv(*v)) == Some(id@),
            None => id_of_jsonv(jv(*v)) is None,
        },
{
    match v {
        Json::Num(lex) => match crate::text::parse_u64_digits(lex) {
            Some(n) => Some(RequestId::Number(n)),
            None => None,
        },
        Json::Str(s) => Some(RequestId::String(s.clone())),
        _ => None,
    }
}

/// The error object a JSON value stands for, if any.
pub fn error_from_json(v: &Json) -> (r: Option<JsonRpcError>)
    ensures
        match r {
            Some(e) => error_of_jsonv(jv(*v)) == Some(e@),
            None => error_of_jsonv(jv(*v)) is None,
        },
{
    let ms = match v {
        Json::Obj(ms) => ms,
        _ => {
            return None;
        },
    };
    let code: i32 = match obj_get(ms, "code") {
        Some(cj) => match cj {
            Json::Num(lex) => match crate::text::parse_i32_lexeme(lex) {
                Some(c) => c,
                None => {
                    return None;
                },
            },
            _ => {
                return None;
            },
        },
        None => {
            return None;
        },
    };
    let message: String = match obj_get(ms, "message") {
        Some(mj) => match mj {
            Json::Str(s) => s.clone(),
            _ => {
                return None;
            },
        },
        None => {
            return None;
        },
    };
    let data: Option<Json> = match obj_get(ms, "data") {
        Some(d) => Some(d.duplicate()),
        None => None,
    };
    Some(JsonRpcError { code, message, data })
}

/// The response a JSON value stands for, if any.
pub fn response_from_json(v: &Json) -> (r: Option<JsonRpcResponse>)
    ensures
        match r {
            Some(resp) => response_of_jsonv(jv(*v)) == Some(resp@),
            None => response_of_jsonv(jv(*v)) is None,
        },
{
    let ms = match v {
        Json::Obj(ms) => ms,
        _ => {
            return None;
        },
    };
    let jsonrpc: String = match obj_get(ms, "jsonrpc") {
        Some(vj) => match vj {
            Json::Str(s) => s.clone(),
            _ => {
                return None;
            },
        },
        None => {
            return None;
        },
    };
    let id: RequestId = match obj_get(ms, "id") {
        Some(idj) => match id_from_json(idj) {
            Some(id) => id,
            None => {
                return None;
            },
        },
        None => {
            return None;
        },
    };
    let result_j = obj_get(ms, "result");
    match obj_get(ms, "error") {
        Some(ej) => {
            if result_j.is_some() {
                return None;
            }
            match error_from_json(ej) {
                Some(e) => Some(
                    JsonRpcResponse { jsonrpc, id, result: None, error: Some(e) },
                ),
                None => None,
            }
        },
        None => match result_j {
            Some(rv) => Some(
                JsonRpcResponse { jsonrpc, id, result: Some(rv.duplicate()), error: None },
            ),
            None => None,
        },
    }
}

/// The request a JSON value stands for, if any.
pub fn request_from_json(v: &Json) -> (r: Option<JsonRpcRequest>)
    ensures
        match r {
            Some(req) => request_of_jsonv(jv(*v)) == Some(req@),
            None => request_of_jsonv(jv(*v)) is None,
        },
{
    let ms = match v {
        Json::Obj(ms) => ms,
        _ => {
            return None;
        },
    };
    let jsonrpc: String = match obj_get(ms, "jsonrpc") {
        Some(vj) => match vj {
            Json::Str(s) => s.clone(),
            _ => {
                return None;
            },
        },
        None => {
            return None;
        },
    };
    let id: RequestId = match obj_get(ms, "id") {
        Some(idj) => match id_from_json(idj) {
            Some(id) => id,
            None => {
                return None;
            },
        },
        None => {
            return None;
        },
    };
    let method: String = match obj_get(ms, "method") {
        Some(mj) => match mj {
            Json::Str(s) => s.clone(),
            _ => {
                return None;
            },
        },
        None => {
            return None;
        },
    };
    let params: Option<Json> = match obj_get(ms, "params") {
        Some(p) => Some(p.duplicate()),
        None => None,
    };
    Some(JsonRpcRequest { jsonrpc, id, method, params })
}

/// Decodes a response from its wire text. Yields nothing exactly when the
/// text is not valid JSON or does not stand for a well-formed response:
/// in particular when `result` and `error` are both present or both absent.
pub fn decode_response(s: &str) -> (r: Option<JsonRpcResponse>)
    ensures
        match r {
            Some(resp) => decoded_response(s@) == Some(resp@),
            None => decoded_response(s@) is None,
        },
{
    match crate::json::parse_json_text(s) {
        Some(v) => response_from_json(&v),
        None => None,
    }
}

/// Decodes a request from its wire text.
pub fn decode_request(s: &str) -> (r: Option<JsonRpcRequest>)
    ensures
        match r {
            Some(req) => decoded_request(s@) == Some(req@),
            None => decoded_request(s@) is None,
        },
{
    match crate::json::parse_json_text(s) {
        Some(v) => request_from_json(&v),
        None => None,
    }
}

/// A request identifier survives its JSON encoding unchanged, whether it
/// is numeric or string-typed.
pub proof fn lemma_id_round_trip(id: RequestIdV)
    ensures
        id_of_jsonv(id_jsonv(id)) == Some(id),
{
    match id {
        RequestIdV::Number(n) => {
            crate::text::lemma_dec_digits(n as nat);
        },
        RequestIdV::Str(_) => {},
    }
}

/// A request survives encoding and decoding unchanged: the whole envelope
/// round-trips at the JSON-value level, the identifier included.
pub proof fn lemma_request_round_trip(rv: JsonRpcRequestV)
    ensures
        request_of_jsonv(request_jsonv(rv)) == Some(rv),
{
    let ms = (request_jsonv(rv))->Obj_0;
    reveal_strlit("jsonrpc");
    reveal_strlit("id");
    reveal_strlit("method");
    reveal_strlit("params");
    assert("jsonrpc"@.len() == 7 && "id"@.len() == 2 && "method"@.len() == 6 && "params"@.len()
        == 6);
    assert("method"@[0] == 'm' && "params"@[0] == 'p');
    match rv.params {
        Some(p) => {
            assert(ms.len() == 4);
            assert(ms[0] == ("jsonrpc"@, JsonV::Str(rv.jsonrpc)));
            assert(ms[1] == ("id"@, id_jsonv(rv.id)));
            assert(ms[2] == ("method"@, JsonV::Str(rv.method)));
            assert(ms[3] == ("params"@, p));
            assert(ms[0].0 != ms[1].0 && ms[0].0 != ms[2].0 && ms[0].0 != ms[3].0);
            assert(ms[1].0 != ms[2].0 && ms[1].0 != ms[3].0);
            assert(ms[2].0 != ms[3].0);
            lemma_obj_lookup_at(ms, 0);
            lemma_obj_lookup_at(ms, 1);
            lemma_obj_lookup_at(ms, 2);
            lemma_obj_lookup_at(ms, 3);
        },
        None => {
            assert(ms.len() == 3);
            assert(ms[0] == ("jsonrpc"@, JsonV::Str(rv.jsonrpc)));
            assert(ms[1] == ("id"@, id_jsonv(rv.id)));
            assert(ms[2] == ("method"@, JsonV::Str(rv.method)));
            assert(ms[0].0 != ms[1].0 && ms[0].0 != ms[2].0);
            assert(ms[1].0 != ms[2].0);
            lemma_obj_lookup_at(ms, 0);
            lemma_obj_lookup_at(ms, 1);
            lemma_obj_lookup_at(ms, 2);
            lemma_obj_lookup_absent(ms, "params"@);
        },
    }
    lemma_id_round_trip(rv.id);
}

/// A key no entry carries is not found.
pub proof fn lemma_obj_lookup_absent(ms: Seq<(Seq<char>, JsonV)>, key: Seq<char>)
    requires
        forall|j: int| 0 <= j < ms.len() ==> (#[trigger] ms[j]).0 != key,
    ensures
        obj_lookup(ms, key) is None,
    decreases ms.len(),
{
    if ms.len() > 0 {
        lemma_obj_lookup_absent(ms.drop_first(), key);
    }
}

/// A response survives encoding and decoding unchanged at the JSON-value
/// level, provided it carries exactly one of result and error.
pub proof fn lemma_response_round_trip(rv: JsonRpcResponseV)
    requires
        (rv.result is Some) != (rv.error is Some),
    ensures
        response_of_jsonv(response_jsonv(rv)) == Some(rv),
{
    let ms = (response_jsonv(rv))->Obj_0;
    reveal_strlit("jsonrpc");
    reveal_strlit("id");
    reveal_strlit("result");
    reveal_strlit("error");
    reveal_strlit("code");
    reveal_strlit("message");
    reveal_strlit("data");
    assert("jsonrpc"@.len() == 7 && "id"@.len() == 2 && "result"@.len() == 6 && "error"@.len()
        == 5);
    lemma_id_round_trip(rv.id);
    match rv.result {
        Some(res) => {
            assert(ms.len() == 3);
            assert(ms[0] == ("jsonrpc"@, JsonV::Str(rv.jsonrpc)));
            assert(ms[1] == ("id"@, id_jsonv(rv.id)));
            assert(ms[2] == ("result"@, res));
            assert(ms[0].0 != ms[1].0 && ms[0].0 != ms[2].0);
            assert(ms[1].0 != ms[2].0);
            lemma_obj_lookup_at(ms, 0);
            lemma_obj_lookup_at(ms, 1);
            lemma_obj_lookup_at(ms, 2);
            lemma_obj_lookup_absent(ms, "error"@);
        },
        None => {
            let e = rv.error->0;
            assert(ms.len() == 3);
            assert(ms[0] == ("jsonrpc"@, JsonV::Str(rv.jsonrpc)));
            assert(ms[1] == ("id"@, id_jsonv(rv.id)));
            assert(ms[2] == ("error"@, error_jsonv(e)));
            assert(ms[0].0 != ms[1].0 && ms[0].0 != ms[2].0);
            assert(ms[1].0 != ms[2].0);
            lemma_obj_lookup_at(ms, 0);
            lemma_obj_lookup_at(ms, 1);
            lemma_obj_lookup_at(ms, 2);
            lemma_obj_lookup_absent(ms, "result"@);
            lemma_error_round_trip(e);
        },
    }
}

/// An error object survives encoding and decoding unchanged.
pub proof fn lemma_error_round_trip(e: JsonRpcErrorV)
    ensures
        error_of_jsonv(error_jsonv(e)) == Some(e),
{
    let ms = (error_jsonv(e))->Obj_0;
    reveal_strlit("code");
    reveal_strlit("message");
    reveal_strlit("data");
    assert("code"@.len() == 4 && "message"@.len() == 7 && "data"@.len() == 4);
    assert("code"@[0] == 'c' && "data"@[0] == 'd');
    lemma_int_code_digits(e.code);
    match e.data {
        Some(d) => {
            assert(ms.len() == 3);
            assert(ms[0] == ("code"@, JsonV::Num(int_code_digits(e.code))));
            assert(ms[1] == ("message"@, JsonV::Str(e.message)));
            assert(ms[2] == ("data"@, d));
            assert(ms[0].0 != ms[1].0 && ms[0].0 != ms[2].0);
            assert(ms[1].0 != ms[2].0);
            lemma_obj_lookup_at(ms, 0);
            lemma_obj_lookup_at(ms, 1);
            lemma_obj_lookup_at(ms, 2);
        },
        None => {
            assert(ms.len() == 2);
            assert(ms[0] == ("code"@, JsonV::Num(int_code_digits(e.code))));
            assert(ms[1] == ("message"@, JsonV::Str(e.message)));
            assert(ms[0].0 != ms[1].0);
            lemma_obj_lookup_at(ms, 0);
            lemma_obj_lookup_at(ms, 1);
            lemma_obj_lookup_absent(ms, "data"@);
        },
    }
}

/// The decimal text of an `i32` evaluates back to the same value, within
/// range.
pub proof fn lemma_int_code_digits(v: i32)
    ensures
        int_lex_val(int_code_digits(v)) == Some(v as int),
{
    if v < 0 {
        crate::text::lemma_dec_digits((-(v as int)) as nat);
        let lex = int_code_digits(v);
        assert(lex[0] == '-');
        assert(lex.drop_first() =~= dec_digits((-(v as int)) as nat));
        assert(lex.len() > 1);
    } else {
        crate::text::lemma_dec_digits(v as nat);
        let lex = int_code_digits(v);
        assert(lex == dec_digits(v as nat));
        assert(lex.len() > 0);
        assert(lex[0] != '-') by {
            assert(crate::text::is_digit(lex[0]));
        }
    }
}

/// Element-wise equal values have equal sequence views.
proof fn lemma_jv_seq_congruence(a: Seq<Json>, b: Seq<Json>)
    requires
        a.len() == b.len(),
        forall|i: int| 0 <= i < a.len() ==> jv(#[trigger] a[i]) == jv(b[i]),
    ensures
        crate::json::jv_seq(a) == crate::json::jv_seq(b),
    decreases a.len(),
{
    crate::json::lemma_jv_seq(a);
    crate::json::lemma_jv_seq(b);
    assert forall|i: int| 0 <= i < a.len() implies crate::json::jv_seq(a)[i]
        == crate::json::jv_seq(b)[i] by {
        assert(jv(a[i]) == jv(b[i]));
    }
    assert(crate::json::jv_seq(a) =~= crate::json::jv_seq(b));
}

/// Element-wise equal members have equal member views.
proof fn lemma_jv_members_congruence(a: Seq<(String, Json)>, b: Seq<(String, Json)>)
    requires
        a.len() == b.len(),
        forall|i: int|
            0 <= i < a.len() ==> (#[trigger] a[i]).0@ == b[i].0@ && jv(a[i].1) == jv(b[i].1),
    ensures
        jv_members(a) == jv_members(b),
{
    lemma_jv_members(a);
    lemma_jv_members(b);
    assert forall|i: int| 0 <= i < a.len() implies jv_members(a)[i] == jv_members(b)[i] by {
        assert((a[i]).0@ == b[i].0@ && jv(a[i].1) == jv(b[i].1));
    }
    assert(jv_members(a) =~= jv_members(b));
}

} // verus!
