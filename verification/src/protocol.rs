//! The protocol's typed payloads: the handshake, tool listing and tool
//! invocation shapes, with their exact JSON encodings and decodings. Field
//! names on the wire follow the protocol's camel-case convention.

use vstd::prelude::*;
use vstd::string::*;
use crate::json::{Json, JsonV, jv, jv_seq, jv_members, lemma_jv_seq, lemma_jv_members};
use crate::rpc::obj_lookup;

verus! {

/// The capabilities this client announces (none).
pub struct ClientCapabilities {}

/// The client identity sent in the handshake.
pub struct ClientInfo {
    pub name: String,
    pub version: String,
}

/// The handshake parameters.
pub struct InitializeParams {
    pub protocol_version: String,
    pub capabilities: ClientCapabilities,
    pub client_info: ClientInfo,
}

/// The server's tool capability advertisement.
pub struct ToolsCapability {
    pub list_changed: bool,
}

/// The capabilities a server advertises.
pub struct ServerCapabilities {
    pub tools: Option<ToolsCapability>,
}

/// The server identity returned by the handshake.
pub struct ServerInfo {
    pub name: String,
    pub version: Option<String>,
}

/// The handshake result.
pub struct InitializeResult {
    pub protocol_version: String,
    pub capabilities: ServerCapabilities,
    pub server_info: ServerInfo,
}

/// One tool a server offers.
pub struct Tool {
    pub name: String,
    pub description: Option<String>,
    pub input_schema: Option<Json>,
}

/// One page of the tool listing.
pub struct ToolsListResult {
    pub tools: Vec<Tool>,
    pub next_cursor: Option<String>,
}

/// The parameters of a tool invocation.
pub struct ToolCallParams {
    pub name: String,
    pub arguments: Vec<(String, Json)>,
}

/// One item of a tool's reply.
pub enum ContentItem {
    Text { text: String },
    Image { data: String, mime_type: String },
    Resource { resource: Json },
}

/// A tool's reply: its content, and whether the tool itself reported
/// failure. A true error flag is data, not a transport fault.
pub struct ToolCallResult {
    pub content: Vec<ContentItem>,
    pub is_error: bool,
}

/// Specification values of the above.
pub struct ServerInfoV {
    pub name: Seq<char>,
    pub version: Option<Seq<char>>,
}

pub struct InitializeResultV {
    pub protocol_version: Seq<char>,
    pub tools_capability: Option<bool>,
    pub server_info: ServerInfoV,
}

pub struct ToolV {
    pub name: Seq<char>,
    pub description: Option<Seq<char>>,
    pub input_schema: Option<JsonV>,
}

pub struct ToolsListResultV {
    pub tools: Seq<ToolV>,
    pub next_cursor: Option<Seq<char>>,
}

pub enum ContentItemV {
    Text { text: Seq<char> },
    Image { data: Seq<char>, mime_type: Seq<char> },
    Resource { resource: JsonV },
}

pub struct ToolCallResultV {
    pub content: Seq<ContentItemV>,
    pub is_error: bool,
}

impl View for ServerInfo {
    type V = ServerInfoV;

    open spec fn view(&self) -> ServerInfoV {
        ServerInfoV {
            name: self.name@,
            version: match self.version {
                Some(v) => Some(v@),
                None => None,
            },
        }
    }
}

impl View for InitializeResult {
    type V = InitializeResultV;

    open spec fn view(&self) -> InitializeResultV {
        InitializeResultV {
            protocol_version: self.protocol_version@,
            tools_capability: match self.capabilities.tools {
                Some(t) => Some(t.list_changed),
                None => None,
            },
            server_info: self.server_info@,
        }
    }
}

impl View for Tool {
    type V = ToolV;

    open spec fn view(&self) -> ToolV {
        ToolV {
            name: self.name@,
            description: match self.description {
                Some(d) => Some(d@),
                None => None,
            },
            input_schema: match self.input_schema {
                Some(s) => Some(jv(s)),
                None => None,
            },
        }
    }
}

/// The views of a sequence of tools.
pub open spec fn tool_views(s: Seq<Tool>) -> Seq<ToolV> {
    Seq::new(s.len(), |i: int| s[i]@)
}

/// The views of a sequence of content items.
pub open spec fn content_views(s: Seq<ContentItem>) -> Seq<ContentItemV> {
    Seq::new(s.len(), |i: int| s[i]@)
}

impl View for ToolsListResult {
    type V = ToolsListResultV;

    open spec fn view(&self) -> ToolsListResultV {
        ToolsListResultV {
            tools: tool_views(self.tools@),
            next_cursor: match self.next_cursor {
                Some(c) => Some(c@),
                None => None,
            },
        }
    }
}

impl View for ContentItem {
    type V = ContentItemV;

    open spec fn view(&self) -> ContentItemV {
        match self {
            ContentItem::Text { text } => ContentItemV::Text { text: text@ },
            ContentItem::Image { data, mime_type } => ContentItemV::Image {
                data: data@,
                mime_type: mime_type@,
            },
            ContentItem::Resource { resource } => ContentItemV::Resource { resource: jv(*resource) },
        }
    }
}

impl View for ToolCallResult {
    type V = ToolCallResultV;

    open spec fn view(&self) -> ToolCallResultV {
        ToolCallResultV {
            content: content_views(self.content@),
            is_error: self.is_error,
        }
    }
}

/// Appending one tool appends its view.
proof fn lemma_tool_views_push(s: Seq<Tool>, t: Tool)
    ensures
        tool_views(s.push(t)) =~= tool_views(s).push(t@),
{
    assert forall|i: int| 0 <= i < s.len() + 1 implies #[trigger] tool_views(s.push(t))[i]
        == tool_views(s).push(t@)[i] by {
        if i < s.len() {
            assert(s.push(t)[i] == s[i]);
        } else {
            assert(s.push(t)[i] == t);
        }
    }
}

/// Appending one content item appends its view.
proof fn lemma_content_views_push(s: Seq<ContentItem>, t: ContentItem)
    ensures
        content_views(s.push(t)) =~= content_views(s).push(t@),
{
    assert forall|i: int| 0 <= i < s.len() + 1 implies #[trigger] content_views(s.push(t))[i]
        == content_views(s).push(t@)[i] by {
        if i < s.len() {
            assert(s.push(t)[i] == s[i]);
        } else {
            assert(s.push(t)[i] == t);
        }
    }
}

/// The JSON value of the handshake parameters.
pub open spec fn initialize_params_jsonv(
    protocol_version: Seq<char>,
    client_name: Seq<char>,
    client_version: Seq<char>,
) -> JsonV {
    JsonV::Obj(
        seq![
            ("protocolVersion"@, JsonV::Str(protocol_version)),
            ("capabilities"@, JsonV::Obj(Seq::empty())),
            ("clientInfo"@, JsonV::Obj(
                seq![
                    ("name"@, JsonV::Str(client_name)),
                    ("version"@, JsonV::Str(client_version)),
                ],
            )),
        ],
    )
}

/// Builds the handshake parameters.
pub fn initialize_params_to_json(p: &InitializeParams) -> (r: Json)
    ensures
        jv(r) == initialize_params_jsonv(
            p.protocol_version@,
            p.client_info.name@,
            p.client_info.version@,
        ),
{
    let mut info: Vec<(String, Json)> = Vec::new();
    info.push(("name".to_owned(), Json::Str(p.client_info.name.clone())));
    info.push(("version".to_owned(), Json::Str(p.client_info.version.clone())));
    let info_obj = Json::Obj(info);
    let mut ms: Vec<(String, Json)> = Vec::new();
    ms.push(("protocolVersion".to_owned(), Json::Str(p.protocol_version.clone())));
    ms.push(("capabilities".to_owned(), Json::Obj(Vec::new())));
    ms.push(("clientInfo".to_owned(), info_obj));
    let obj = Json::Obj(ms);
    proof {
        lemma_obj_members(obj->Obj_0@);
        lemma_obj_members((obj->Obj_0@[2].1)->Obj_0@);
        lemma_obj_members((obj->Obj_0@[1].1)->Obj_0@);
        let target = initialize_params_jsonv(
            p.protocol_version@,
            p.client_info.name@,
            p.client_info.version@,
        );
        assert(jv_members((obj->Obj_0@[1].1)->Obj_0@) =~= Seq::<(Seq<char>, JsonV)>::empty());
        let iv = (obj->Obj_0@[2].1)->Obj_0@;
        assert(jv_members(iv)[0] == (iv[0].0@, jv(iv[0].1)));
        assert(jv_members(iv)[1] == (iv[1].0@, jv(iv[1].1)));
        assert(jv_members(iv) =~= (target->Obj_0[2].1)->Obj_0);
        assert(jv_members(obj->Obj_0@)[0] == (obj->Obj_0@[0].0@, jv(obj->Obj_0@[0].1)));
        assert(jv_members(obj->Obj_0@)[1] == (obj->Obj_0@[1].0@, jv(obj->Obj_0@[1].1)));
        assert(jv_members(obj->Obj_0@)[2] == (obj->Obj_0@[2].0@, jv(obj->Obj_0@[2].1)));
        assert(jv_members(obj->Obj_0@) =~= target->Obj_0);
    }
    obj
}

/// The members of each entry are mapped element-wise by `jv_members`.
proof fn lemma_obj_members(ms: Seq<(String, Json)>)
    ensures
        jv_members(ms).len() == ms.len(),
        forall|i: int|
            0 <= i < ms.len() ==> jv_members(ms)[i] == ((#[trigger] ms[i]).0@, jv(ms[i].1)),
{
    lemma_jv_members(ms);
}

/// The tool-listing parameters for a continuation cursor.
pub open spec fn cursor_params_jsonv(cursor: Seq<char>) -> JsonV {
    JsonV::Obj(seq![("cursor"@, JsonV::Str(cursor))])
}

/// Builds the tool-listing parameters: none for the first page, the
/// cursor object for a continuation.
pub fn tools_list_params(cursor: &Option<String>) -> (r: Option<Json>)
    ensures
        match cursor {
            Some(c) => r matches Some(p) && jv(p) == cursor_params_jsonv(c@),
            None => r is None,
        },
{
    match cursor {
        Some(c) => {
            let mut ms: Vec<(String, Json)> = Vec::new();
            ms.push(("cursor".to_owned(), Json::Str(c.clone())));
            let obj = Json::Obj(ms);
            proof {
                lemma_obj_members(obj->Obj_0@);
                assert(jv_members(obj->Obj_0@) =~= seq![("cursor"@, JsonV::Str(c@))]);
            }
            Some(obj)
        },
        None => None,
    }
}

/// The JSON value of the tool-invocation parameters.
pub open spec fn tool_call_params_jsonv(name: Seq<char>, args: Seq<(Seq<char>, JsonV)>) -> JsonV {
    JsonV::Obj(seq![("name"@, JsonV::Str(name)), ("arguments"@, JsonV::Obj(args))])
}

/// Builds the tool-invocation parameters.
pub fn tool_call_params_to_json(p: ToolCallParams) -> (r: Json)
    ensures
        jv(r) == tool_call_params_jsonv(p.name@, jv_members(p.arguments@)),
{
    let mut ms: Vec<(String, Json)> = Vec::new();
    ms.push(("name".to_owned(), Json::Str(p.name.clone())));
    ms.push(("arguments".to_owned(), Json::Obj(p.arguments)));
    let obj = Json::Obj(ms);
    proof {
        lemma_obj_members(obj->Obj_0@);
        assert(jv_members(obj->Obj_0@) =~= (tool_call_params_jsonv(
            p.name@,
            jv_members(obj->Obj_0@[1].1->Obj_0@),
        ))->Obj_0);
    }
    obj
}

/// A required string member.
pub open spec fn req_str_member(ms: Seq<(Seq<char>, JsonV)>, key: Seq<char>) -> Option<Seq<char>> {
    match obj_lookup(ms, key) {
        Some(JsonV::Str(s)) => Some(s),
        _ => None,
    }
}

/// An optional string member: absent or null yields nothing; a string
/// yields it; anything else is an error (the outer option).
pub open spec fn opt_str_member(ms: Seq<(Seq<char>, JsonV)>, key: Seq<char>) -> Option<
    Option<Seq<char>>,
> {
    match obj_lookup(ms, key) {
        None => Some(None),
        Some(JsonV::Null) => Some(None),
        Some(JsonV::Str(s)) => Some(Some(s)),
        Some(_) => None,
    }
}

/// An optional free-form member: absent or null yields nothing.
pub open spec fn opt_json_member(ms: Seq<(Seq<char>, JsonV)>, key: Seq<char>) -> Option<JsonV> {
    match obj_lookup(ms, key) {
        None => None,
        Some(JsonV::Null) => None,
        Some(v) => Some(v),
    }
}

/// A boolean member that defaults to false when absent; any non-boolean
/// value is an error (the outer option).
pub open spec fn bool_member_default(ms: Seq<(Seq<char>, JsonV)>, key: Seq<char>) -> Option<bool> {
    match obj_lookup(ms, key) {
        None => Some(false),
        Some(JsonV::Bool(b)) => Some(b),
        Some(_) => None,
    }
}

fn get_req_str(ms: &Vec<(String, Json)>, key: &str) -> (r: Option<String>)
    ensures
        match r {
            Some(s) => req_str_member(jv_members(ms@), key@) == Some(s@),
            None => req_str_member(jv_members(ms@), key@) is None,
        },
{
    match crate::rpc::obj_get(ms, key) {
        Some(v) => match v {
            Json::Str(s) => Some(s.clone()),
            _ => None,
        },
        None => None,
    }
}

fn get_opt_str(ms: &Vec<(String, Json)>, key: &str) -> (r: Result<Option<String>, ()>)
    ensures
        match r {
            Ok(o) => opt_str_member(jv_members(ms@), key@) == Some(
                match o {
                    Some(s) => Some(s@),
                    None => None::<Seq<char>>,
                },
            ),
            Err(_) => opt_str_member(jv_members(ms@), key@) is None,
        },
{
    match crate::rpc::obj_get(ms, key) {
        Some(v) => match v {
            Json::Str(s) => Ok(Some(s.clone())),
            Json::Null => Ok(None),
            _ => Err(()),
        },
        None => Ok(None),
    }
}

fn get_opt_json(ms: &Vec<(String, Json)>, key: &str) -> (r: Option<Json>)
    ensures
        match r {
            Some(v) => opt_json_member(jv_members(ms@), key@) == Some(jv(v)),
            None => opt_json_member(jv_members(ms@), key@) is None,
        },
{
    match crate::rpc::obj_get(ms, key) {
        Some(v) => match v {
            Json::Null => None,
            _ => Some(v.duplicate()),
        },
        None => None,
    }
}

fn get_bool_default(ms: &Vec<(String, Json)>, key: &str) -> (r: Option<bool>)
    ensures
        match r {
            Some(b) => bool_member_default(jv_members(ms@), key@) == Some(b),
            None => bool_member_default(jv_members(ms@), key@) is None,
        },
{
    match crate::rpc::obj_get(ms, key) {
        Some(v) => match v {
            Json::Bool(b) => Some(*b),
            _ => None,
        },
        None => Some(false),
    }
}

/// The handshake result a JSON value stands for: `protocolVersion` and
/// `serverInfo.name` are required strings, `capabilities` is a required
/// object whose `tools` member (an object when present) may advertise
/// `listChanged`, and `serverInfo.version` is an optional string.
pub open spec fn initialize_result_of_jsonv(v: JsonV) -> Option<InitializeResultV> {
    match v {
        JsonV::Obj(ms) => match req_str_member(ms, "protocolVersion"@) {
            Some(pv) => match obj_lookup(ms, "capabilities"@) {
                Some(JsonV::Obj(caps)) => {
                    let tools_cap: Option<Option<bool>> = match obj_lookup(caps, "tools"@) {
                        None => Some(None),
                        Some(JsonV::Null) => Some(None),
                        Some(JsonV::Obj(tms)) => match bool_member_default(tms, "listChanged"@) {
                            Some(b) => Some(Some(b)),
                            None => None,
                        },
                        Some(_) => None,
                    };
                    match tools_cap {
                        Some(tc) => match obj_lookup(ms, "serverInfo"@) {
                            Some(JsonV::Obj(sms)) => match req_str_member(sms, "name"@) {
                                Some(sname) => match opt_str_member(sms, "version"@) {
                                    Some(sver) => Some(
                                        InitializeResultV {
                                            protocol_version: pv,
                                            tools_capability: tc,
                                            server_info: ServerInfoV {
                                                name: sname,
                                                version: sver,
                                            },
                                        },
                                    ),
                                    None => None,
                                },
                                None => None,
                            },
                            _ => None,
                        },
                        None => None,
                    }
                },
                _ => None,
            },
            None => None,
        },
        _ => None,
    }
}

/// Parses the handshake result.
pub fn parse_initialize_result(v: &Json) -> (r: Option<InitializeResult>)
    ensures
        match r {
            Some(res) => initialize_result_of_jsonv(jv(*v)) == Some(res@),
            None => initialize_result_of_jsonv(jv(*v)) is None,
        },
{
    let ms = match v {
        Json::Obj(ms) => ms,
        _ => {
            return None;
        },
    };
    let pv = match get_req_str(ms, "protocolVersion") {
        Some(s) => s,
        None => {
            return None;
        },
    };
    let caps = match crate::rpc::obj_get(ms, "capabilities") {
        Some(c) => match c {
            Json::Obj(caps) => caps,
            _ => {
                return None;
            },
        },
        None => {
            return None;
        },
    };
    let tools: Option<ToolsCapability> = match crate::rpc::obj_get(caps, "tools") {
        None => None,
        Some(tv) => match tv {
            Json::Null => None,
            Json::Obj(tms) => match get_bool_default(tms, "listChanged") {
                Some(b) => Some(ToolsCapability { list_changed: b }),
                None => {
                    return None;
                },
            },
            _ => {
                return None;
            },
        },
    };
    let sms = match crate::rpc::obj_get(ms, "serverInfo") {
        Some(s) => match s {
            Json::Obj(sms) => sms,
            _ => {
                return None;
            },
        },
        None => {
            return None;
        },
    };
    let sname = match get_req_str(sms, "name") {
        Some(s) => s,
        None => {
            return None;
        },
    };
    let sver = match get_opt_str(sms, "version") {
        Ok(o) => o,
        Err(_) => {
            return None;
        },
    };
    Some(
        InitializeResult {
            protocol_version: pv,
            capabilities: ServerCapabilities { tools },
            server_info: ServerInfo { name: sname, version: sver },
        },
    )
}

/// The tool a JSON value stands for: a required string `name`, an optional
/// string `description`, an optional free-form `inputSchema`.
pub open spec fn tool_of_jsonv(v: JsonV) -> Option<ToolV> {
    match v {
        JsonV::Obj(ms) => match req_str_member(ms, "name"@) {
            Some(name) => match opt_str_member(ms, "description"@) {
                Some(desc) => Some(
                    ToolV {
                        name,
                        description: desc,
                        input_schema: opt_json_member(ms, "inputSchema"@),
                    },
                ),
                None => None,
            },
            None => None,
        },
        _ => None,
    }
}

pub fn parse_tool(v: &Json) -> (r: Option<Tool>)
    ensures
        match r {
            Some(t) => tool_of_jsonv(jv(*v)) == Some(t@),
            None => tool_of_jsonv(jv(*v)) is None,
        },
{
    let ms = match v {
        Json::Obj(ms) => ms,
        _ => {
            return None;
        },
    };
    let name = match get_req_str(ms, "name") {
        Some(s) => s,
        None => {
            return None;
        },
    };
    let description = match get_opt_str(ms, "description") {
        Ok(o) => o,
        Err(_) => {
            return None;
        },
    };
    let input_schema = get_opt_json(ms, "inputSchema");
    Some(Tool { name, description, input_schema })
}

/// The tools of a JSON array, each a valid tool.
pub open spec fn tools_of_jsonv(items: Seq<JsonV>) -> Option<Seq<ToolV>>
    decreases items.len(),
{
    if items.len() == 0 {
        Some(Seq::empty())
    } else {
        match tool_of_jsonv(items[0]) {
            Some(t) => match tools_of_jsonv(items.drop_first()) {
                Some(ts) => Some(seq![t] + ts),
                None => None,
            },
            None => None,
        }
    }
}

/// The listing page a JSON value stands for: a required `tools` array of
/// valid tools, and an optional string `nextCursor`.
pub open spec fn tools_list_of_jsonv(v: JsonV) -> Option<ToolsListResultV> {
    match v {
        JsonV::Obj(ms) => match obj_lookup(ms, "tools"@) {
            Some(JsonV::Arr(items)) => match tools_of_jsonv(items) {
                Some(ts) => match opt_str_member(ms, "nextCursor"@) {
                    Some(c) => Some(ToolsListResultV { tools: ts, next_cursor: c }),
                    None => None,
                },
                None => None,
            },
            _ => None,
        },
        _ => None,
    }
}

/// Parses one page of the tool listing.
pub fn parse_tools_list(v: &Json) -> (r: Option<ToolsListResult>)
    ensures
        match r {
            Some(res) => tools_list_of_jsonv(jv(*v)) == Some(res@),
            None => tools_list_of_jsonv(jv(*v)) is None,
        },
{
    let ms = match v {
        Json::Obj(ms) => ms,
        _ => {
            return None;
        },
    };
    let items = match crate::rpc::obj_get(ms, "tools") {
        Some(t) => match t {
            Json::Arr(items) => items,
            _ => {
                return None;
            },
        },
        None => {
            return None;
        },
    };
    let mut tools: Vec<Tool> = Vec::new();
    let mut k: usize = 0;
    proof {
        lemma_jv_seq(items@);
        assert(jv_seq(items@).skip(0) =~= jv_seq(items@));
        assert(tool_views(tools@) =~= Seq::<ToolV>::empty());
        match tools_of_jsonv(jv_seq(items@)) {
            Some(all) => {
                assert(tool_views(tools@) + all =~= all);
            },
            None => {},
        }
    }
    while k < items.len()
        invariant
            k <= items@.len(),
            jv(*v) == JsonV::Obj(jv_members(ms@)),
            obj_lookup(jv_members(ms@), "tools"@) == Some(JsonV::Arr(jv_seq(items@))),
            jv_seq(items@).len() == items@.len(),
            forall|i: int| 0 <= i < items@.len() ==> jv_seq(items@)[i] == jv(#[trigger] items@[i]),
            tools@.len() == k,
            tools_of_jsonv(jv_seq(items@).skip(k as int)) is Some ==> (tools_of_jsonv(
                jv_seq(items@),
            ) matches Some(all) && all == tool_views(tools@) + tools_of_jsonv(
                jv_seq(items@).skip(k as int),
            )->0),
            tools_of_jsonv(jv_seq(items@).skip(k as int)) is None ==> tools_of_jsonv(
                jv_seq(items@),
            ) is None,
        decreases items@.len() - k,
    {
        proof {
            lemma_jv_seq(items@);
            assert(jv_seq(items@).skip(k as int)[0] == jv(items@[k as int]));
            assert(jv_seq(items@).skip(k as int).drop_first() =~= jv_seq(items@).skip(
                k as int + 1,
            ));
        }
        let t = match parse_tool(&items[k]) {
            Some(t) => t,
            None => {
                proof {
                    assert(tools_of_jsonv(jv_seq(items@).skip(k as int)) is None);
                }
                return None;
            },
        };
        let ghost pre = tools@;
        tools.push(t);
        proof {
            lemma_tool_views_push(pre, t);
            match tools_of_jsonv(jv_seq(items@).skip(k as int + 1)) {
                Some(sub) => {
                    assert(tool_views(pre) + (seq![t@] + sub) =~= tool_views(pre).push(t@) + sub);
                },
                None => {},
            }
        }
        k += 1;
    }
    proof {
        assert(jv_seq(items@).skip(items@.len() as int) =~= Seq::<JsonV>::empty());
        assert(tools_of_jsonv(Seq::<JsonV>::empty()) == Some(Seq::<ToolV>::empty()));
    }
    let next_cursor = match get_opt_str(ms, "nextCursor") {
        Ok(o) => o,
        Err(_) => {
            return None;
        },
    };
    let result = ToolsListResult { tools, next_cursor };
    proof {
        assert(result@.tools =~= tool_views(result.tools@) + Seq::<ToolV>::empty());
    }
    Some(result)
}

/// The content item a JSON value stands for, by its `type` tag.
pub open spec fn content_item_of_jsonv(v: JsonV) -> Option<ContentItemV> {
    match v {
        JsonV::Obj(ms) => match req_str_member(ms, "type"@) {
            Some(tag) => if tag == "text"@ {
                match req_str_member(ms, "text"@) {
                    Some(t) => Some(ContentItemV::Text { text: t }),
                    None => None,
                }
            } else if tag == "image"@ {
                match req_str_member(ms, "data"@) {
                    Some(d) => match req_str_member(ms, "mimeType"@) {
                        Some(m) => Some(ContentItemV::Image { data: d, mime_type: m }),
                        None => None,
                    },
                    None => None,
                }
            } else if tag == "resource"@ {
                match obj_lookup(ms, "resource"@) {
                    Some(rv) => Some(ContentItemV::Resource { resource: rv }),
                    None => None,
                }
            } else {
                None
            },
            None => None,
        },
        _ => None,
    }
}

pub fn parse_content_item(v: &Json) -> (r: Option<ContentItem>)
    ensures
        match r {
            Some(it) => content_item_of_jsonv(jv(*v)) == Some(it@),
            None => content_item_of_jsonv(jv(*v)) is None,
        },
{
    let ms = match v {
        Json::Obj(ms) => ms,
        _ => {
            return None;
        },
    };
    let tag = match get_req_str(ms, "type") {
        Some(s) => s,
        None => {
            return None;
        },
    };
    if crate::text::str_eq(tag.as_str(), "text") {
        match get_req_str(ms, "text") {
            Some(t) => Some(ContentItem::Text { text: t }),
            None => None,
        }
    } else if crate::text::str_eq(tag.as_str(), "image") {
        match get_req_str(ms, "data") {
            Some(d) => match get_req_str(ms, "mimeType") {
                Some(m) => Some(ContentItem::Image { data: d, mime_type: m }),
                None => None,
            },
            None => None,
        }
    } else if crate::text::str_eq(tag.as_str(), "resource") {
        match crate::rpc::obj_get(ms, "resource") {
            Some(rv) => Some(ContentItem::Resource { resource: rv.duplicate() }),
            None => None,
        }
    } else {
        None
    }
}

/// The JSON value of a content item, tagged by `type`.
pub open spec fn content_item_jsonv(it: ContentItemV) -> JsonV {
    match it {
        ContentItemV::Text { text } => JsonV::Obj(
            seq![("type"@, JsonV::Str("text"@)), ("text"@, JsonV::Str(text))],
        ),
        ContentItemV::Image { data, mime_type } => JsonV::Obj(
            seq![
                ("type"@, JsonV::Str("image"@)),
                ("data"@, JsonV::Str(data)),
                ("mimeType"@, JsonV::Str(mime_type)),
            ],
        ),
        ContentItemV::Resource { resource } => JsonV::Obj(
            seq![("type"@, JsonV::Str("resource"@)), ("resource"@, resource)],
        ),
    }
}

/// Builds the JSON of a content item.
pub fn content_item_to_json(it: &ContentItem) -> (r: Json)
    ensures
        jv(r) == content_item_jsonv(it@),
{
    match it {
        ContentItem::Text { text } => {
            let mut ms: Vec<(String, Json)> = Vec::new();
            ms.push(("type".to_owned(), Json::Str("text".to_owned())));
            ms.push(("text".to_owned(), Json::Str(text.clone())));
            let obj = Json::Obj(ms);
            proof {
                lemma_obj_members(obj->Obj_0@);
                assert forall|i: int| 0 <= i < obj->Obj_0@.len() implies #[trigger] jv_members(
                    obj->Obj_0@,
                )[i] == ((content_item_jsonv(it@))->Obj_0)[i] by {
                    assert(jv_members(obj->Obj_0@)[i] == ((obj->Obj_0@[i]).0@, jv(
                        obj->Obj_0@[i].1,
                    )));
                }
                assert(jv_members(obj->Obj_0@) =~= (content_item_jsonv(it@))->Obj_0);
            }
            obj
        },
        ContentItem::Image { data, mime_type } => {
            let mut ms: Vec<(String, Json)> = Vec::new();
            ms.push(("type".to_owned(), Json::Str("image".to_owned())));
            ms.push(("data".to_owned(), Json::Str(data.clone())));
            ms.push(("mimeType".to_owned(), Json::Str(mime_type.clone())));
            let obj = Json::Obj(ms);
            proof {
                lemma_obj_members(obj->Obj_0@);
                assert forall|i: int| 0 <= i < obj->Obj_0@.len() implies #[trigger] jv_members(
                    obj->Obj_0@,
                )[i] == ((content_item_jsonv(it@))->Obj_0)[i] by {
                    assert(jv_members(obj->Obj_0@)[i] == ((obj->Obj_0@[i]).0@, jv(
                        obj->Obj_0@[i].1,
                    )));
                }
                assert(jv_members(obj->Obj_0@) =~= (content_item_jsonv(it@))->Obj_0);
            }
            obj
        },
        ContentItem::Resource { resource } => {
            let mut ms: Vec<(String, Json)> = Vec::new();
            ms.push(("type".to_owned(), Json::Str("resource".to_owned())));
            ms.push(("resource".to_owned(), resource.duplicate()));
            let obj = Json::Obj(ms);
            proof {
                lemma_obj_members(obj->Obj_0@);
                assert forall|i: int| 0 <= i < obj->Obj_0@.len() implies #[trigger] jv_members(
                    obj->Obj_0@,
                )[i] == ((content_item_jsonv(it@))->Obj_0)[i] by {
                    assert(jv_members(obj->Obj_0@)[i] == ((obj->Obj_0@[i]).0@, jv(
                        obj->Obj_0@[i].1,
                    )));
                }
                assert(jv_members(obj->Obj_0@) =~= (content_item_jsonv(it@))->Obj_0);
            }
            obj
        },
    }
}

/// The content items of a JSON array, each valid.
pub open spec fn content_of_jsonv(items: Seq<JsonV>) -> Option<Seq<ContentItemV>>
    decreases items.len(),
{
    if items.len() == 0 {
        Some(Seq::empty())
    } else {
        match content_item_of_jsonv(items[0]) {
            Some(it) => match content_of_jsonv(items.drop_first()) {
                Some(its) => Some(seq![it] + its),
                None => None,
            },
            None => None,
        }
    }
}

/// The invocation result a JSON value stands for: a required `content`
/// array of valid items, and `isError` defaulting to false.
pub open spec fn tool_call_result_of_jsonv(v: JsonV) -> Option<ToolCallResultV> {
    match v {
        JsonV::Obj(ms) => match obj_lookup(ms, "content"@) {
            Some(JsonV::Arr(items)) => match content_of_jsonv(items) {
                Some(its) => match bool_member_default(ms, "isError"@) {
                    Some(e) => Some(ToolCallResultV { content: its, is_error: e }),
                    None => None,
                },
                None => None,
            },
            _ => None,
        },
        _ => None,
    }
}

/// Parses a tool-invocation result.
pub fn parse_tool_call_result(v: &Json) -> (r: Option<ToolCallResult>)
    ensures
        match r {
            Some(res) => tool_call_result_of_jsonv(jv(*v)) == Some(res@),
            None => tool_call_result_of_jsonv(jv(*v)) is None,
        },
{
    let ms = match v {
        Json::Obj(ms) => ms,
        _ => {
            return None;
        },
    };
    let items = match crate::rpc::obj_get(ms, "content") {
        Some(t) => match t {
            Json::Arr(items) => items,
            _ => {
                return None;
            },
        },
        None => {
            return None;
        },
    };
    let mut content: Vec<ContentItem> = Vec::new();
    let mut k: usize = 0;
    proof {
        lemma_jv_seq(items@);
        assert(jv_seq(items@).skip(0) =~= jv_seq(items@));
        assert(content_views(content@) =~= Seq::<ContentItemV>::empty());
        match content_of_jsonv(jv_seq(items@)) {
            Some(all) => {
                assert(content_views(content@) + all =~= all);
            },
            None => {},
        }
    }
    while k < items.len()
        invariant
            k <= items@.len(),
            jv(*v) == JsonV::Obj(jv_members(ms@)),
            obj_lookup(jv_members(ms@), "content"@) == Some(JsonV::Arr(jv_seq(items@))),
            jv_seq(items@).len() == items@.len(),
            forall|i: int| 0 <= i < items@.len() ==> jv_seq(items@)[i] == jv(#[trigger] items@[i]),
            content@.len() == k,
            content_of_jsonv(jv_seq(items@).skip(k as int)) is Some ==> (content_of_jsonv(
                jv_seq(items@),
            ) matches Some(all) && all == content_views(content@) + content_of_jsonv(
                jv_seq(items@).skip(k as int),
            )->0),
            content_of_jsonv(jv_seq(items@).skip(k as int)) is None ==> content_of_jsonv(
                jv_seq(items@),
            ) is None,
        decreases items@.len() - k,
    {
        proof {
            lemma_jv_seq(items@);
            assert(jv_seq(items@).skip(k as int)[0] == jv(items@[k as int]));
            assert(jv_seq(items@).skip(k as int).drop_first() =~= jv_seq(items@).skip(
                k as int + 1,
            ));
        }
        let it = match parse_content_item(&items[k]) {
            Some(it) => it,
            None => {
                proof {
                    assert(content_of_jsonv(jv_seq(items@).skip(k as int)) is None);
                }
                return None;
            },
        };
        let ghost pre = content@;
        content.push(it);
        proof {
            lemma_content_views_push(pre, it);
            match content_of_jsonv(jv_seq(items@).skip(k as int + 1)) {
                Some(sub) => {
                    assert(content_views(pre) + (seq![it@] + sub) =~= content_views(pre).push(it@)
                        + sub);
                },
                None => {},
            }
        }
        k += 1;
    }
    proof {
        assert(jv_seq(items@).skip(items@.len() as int) =~= Seq::<JsonV>::empty());
        assert(content_of_jsonv(Seq::<JsonV>::empty()) == Some(Seq::<ContentItemV>::empty()));
    }
    let is_error = match get_bool_default(ms, "isError") {
        Some(b) => b,
        None => {
            return None;
        },
    };
    let result = ToolCallResult { content, is_error };
    proof {
        assert(result@.content =~= content_views(result.content@) + Seq::<ContentItemV>::empty());
    }
    Some(result)
}

} // verus!
