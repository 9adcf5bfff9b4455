//! The protocol client core: request construction with a strictly
//! increasing identifier counter, and the interpretation of each method's
//! response. Awaiting the transport happens in the unverified shell, which
//! feeds responses back into these functions.

use vstd::prelude::*;
use crate::json::{Json, jv_members};
use crate::protocol::{InitializeParams, InitializeResult, ClientCapabilities, ClientInfo,
    ServerInfo, Tool, ToolsListResult, ToolCallParams, ToolCallResult, tool_views,
    initialize_params_jsonv, initialize_result_of_jsonv, tools_list_of_jsonv,
    tool_call_result_of_jsonv, cursor_params_jsonv, tool_call_params_jsonv,
    initialize_params_to_json, parse_initialize_result, parse_tools_list,
    parse_tool_call_result, tools_list_params, tool_call_params_to_json};
use crate::rpc::{JsonRpcRequest, JsonRpcResponse, RequestId, RequestIdV};

verus! {

/// Why a method call failed at the protocol level.
#[derive(Debug)]
pub enum ClientError {
    /// The server answered with an error object.
    Rpc { code: i32, message: String },
    /// The response carried neither an error nor a result.
    MissingResult,
    /// The result payload does not have the method's shape.
    BadPayload,
}

/// The protocol client: one identifier counter, never reused, and the
/// server identity cached by the handshake.
pub struct McpClient {
    pub request_id: u64,
    pub server_info: Option<ServerInfo>,
    pub client_version: String,
}

impl McpClient {
    /// A fresh client; the first request will carry identifier 1.
    pub fn new(client_version: String) -> (r: McpClient)
        ensures
            r.request_id == 1,
            r.server_info is None,
            r.client_version == client_version,
    {
        McpClient { request_id: 1, server_info: None, client_version }
    }

    /// Takes the next request identifier; the counter strictly increases.
    pub fn next_id(&mut self) -> (r: u64)
        requires
            old(self).request_id < u64::MAX,
        ensures
            r == old(self).request_id,
            final(self).request_id == old(self).request_id + 1,
            final(self).server_info == old(self).server_info,
            final(self).client_version == old(self).client_version,
    {
        let id = self.request_id;
        self.request_id = self.request_id + 1;
        id
    }

    /// Builds the handshake request, with this client's identity and the
    /// protocol version it speaks.
    pub fn initialize_request(&mut self) -> (r: JsonRpcRequest)
        requires
            old(self).request_id < u64::MAX,
        ensures
            final(self).request_id == old(self).request_id + 1,
            final(self).server_info == old(self).server_info,
            final(self).client_version == old(self).client_version,
            r@.jsonrpc == "2.0"@,
            r@.id == RequestIdV::Number(old(self).request_id),
            r@.method == "initialize"@,
            r@.params == Some(initialize_params_jsonv(
                "2024-11-05"@,
                "relay"@,
                old(self).client_version@,
            )),
    {
        let params = InitializeParams {
            protocol_version: "2024-11-05".to_owned(),
            capabilities: ClientCapabilities {},
            client_info: ClientInfo {
                name: "relay".to_owned(),
                version: self.client_version.clone(),
            },
        };
        let params_json = initialize_params_to_json(&params);
        let id = self.next_id();
        JsonRpcRequest::new(RequestId::Number(id), "initialize", Some(params_json))
    }

    /// Interprets the handshake response: a server error fails loudly with
    /// its code and message; a valid result is cached and returned.
    pub fn handle_initialize_response(&mut self, resp: &JsonRpcResponse) -> (r: Result<
        InitializeResult,
        ClientError,
    >)
        ensures
            final(self).request_id == old(self).request_id,
            final(self).client_version == old(self).client_version,
            match resp@.error {
                Some(e) => {
                    &&& r matches Err(ClientError::Rpc { code, message }) && code == e.code
                        && message@ == e.message
                    &&& final(self).server_info == old(self).server_info
                },
                None => match resp@.result {
                    Some(rv) => match initialize_result_of_jsonv(rv) {
                        Some(res) => {
                            &&& r matches Ok(out) && out@ == res
                            &&& final(self).server_info matches Some(si) && si@ == res.server_info
                        },
                        None => r matches Err(ClientError::BadPayload) && final(self).server_info
                            == old(self).server_info,
                    },
                    None => r matches Err(ClientError::MissingResult) && final(self).server_info
                        == old(self).server_info,
                },
            },
    {
        match &resp.error {
            Some(e) => Err(ClientError::Rpc { code: e.code, message: e.message.clone() }),
            None => match &resp.result {
                Some(rv) => match parse_initialize_result(rv) {
                    Some(res) => {
                        self.server_info = Some(
                            ServerInfo {
                                name: res.server_info.name.clone(),
                                version: match &res.server_info.version {
                                    Some(v) => Some(v.clone()),
                                    None => None,
                                },
                            },
                        );
                        Ok(res)
                    },
                    None => Err(ClientError::BadPayload),
                },
                None => Err(ClientError::MissingResult),
            },
        }
    }

    /// Builds one tool-listing request, for the first page or for the
    /// given continuation cursor.
    pub fn tools_list_request(&mut self, cursor: &Option<String>) -> (r: JsonRpcRequest)
        requires
            old(self).request_id < u64::MAX,
        ensures
            final(self).request_id == old(self).request_id + 1,
            final(self).server_info == old(self).server_info,
            final(self).client_version == old(self).client_version,
            r@.jsonrpc == "2.0"@,
            r@.id == RequestIdV::Number(old(self).request_id),
            r@.method == "tools/list"@,
            r@.params == (match cursor {
                Some(c) => Some(cursor_params_jsonv(c@)),
                None => None,
            }),
    {
        let params = tools_list_params(cursor);
        let id = self.next_id();
        JsonRpcRequest::new(RequestId::Number(id), "tools/list", params)
    }

    /// Interprets one tool-listing response.
    pub fn handle_tools_list_response(resp: &JsonRpcResponse) -> (r: Result<
        ToolsListResult,
        ClientError,
    >)
        ensures
            match resp@.error {
                Some(e) => r matches Err(ClientError::Rpc { code, message }) && code == e.code
                    && message@ == e.message,
                None => match resp@.result {
                    Some(rv) => match tools_list_of_jsonv(rv) {
                        Some(res) => r matches Ok(out) && out@ == res,
                        None => r matches Err(ClientError::BadPayload),
                    },
                    None => r matches Err(ClientError::MissingResult),
                },
            },
    {
        match &resp.error {
            Some(e) => Err(ClientError::Rpc { code: e.code, message: e.message.clone() }),
            None => match &resp.result {
                Some(rv) => match parse_tools_list(rv) {
                    Some(res) => Ok(res),
                    None => Err(ClientError::BadPayload),
                },
                None => Err(ClientError::MissingResult),
            },
        }
    }

    /// Builds one tool-invocation request.
    pub fn call_tool_request(&mut self, name: &str, arguments: Vec<(String, Json)>) -> (r:
        JsonRpcRequest)
        requires
            old(self).request_id < u64::MAX,
        ensures
            final(self).request_id == old(self).request_id + 1,
            final(self).server_info == old(self).server_info,
            final(self).client_version == old(self).client_version,
            r@.jsonrpc == "2.0"@,
            r@.id == RequestIdV::Number(old(self).request_id),
            r@.method == "tools/call"@,
            r@.params == Some(tool_call_params_jsonv(name@, jv_members(arguments@))),
    {
        let params = ToolCallParams { name: name.to_owned(), arguments };
        let params_json = tool_call_params_to_json(params);
        let id = self.next_id();
        JsonRpcRequest::new(RequestId::Number(id), "tools/call", Some(params_json))
    }

    /// Interprets one tool-invocation response. A true error flag inside a
    /// successful result is returned verbatim, never turned into a fault.
    pub fn handle_call_tool_response(resp: &JsonRpcResponse) -> (r: Result<
        ToolCallResult,
        ClientError,
    >)
        ensures
            match resp@.error {
                Some(e) => r matches Err(ClientError::Rpc { code, message }) && code == e.code
                    && message@ == e.message,
                None => match resp@.result {
                    Some(rv) => match tool_call_result_of_jsonv(rv) {
                        Some(res) => r matches Ok(out) && out@ == res,
                        None => r matches Err(ClientError::BadPayload),
                    },
                    None => r matches Err(ClientError::MissingResult),
                },
            },
    {
        match &resp.error {
            Some(e) => Err(ClientError::Rpc { code: e.code, message: e.message.clone() }),
            None => match &resp.result {
                Some(rv) => match parse_tool_call_result(rv) {
                    Some(res) => Ok(res),
                    None => Err(ClientError::BadPayload),
                },
                None => Err(ClientError::MissingResult),
            },
        }
    }

    /// The server identity cached by the handshake, if any.
    pub fn server_info(&self) -> (r: Option<&ServerInfo>)
        ensures
            match r {
                Some(si) => self.server_info matches Some(x) && si@ == x@,
                None => self.server_info is None,
            },
    {
        match &self.server_info {
            Some(si) => Some(si),
            None => None,
        }
    }
}

/// The running accumulation of a paginated tool listing.
pub struct ToolListing {
    pub tools: Vec<Tool>,
    pub cursor: Option<String>,
    pub done: bool,
}

impl ToolListing {
    /// An empty listing: no tools yet, first page next.
    pub fn new() -> (r: ToolListing)
        ensures
            r.tools@.len() == 0,
            r.cursor is None,
            !r.done,
    {
        ToolListing { tools: Vec::new(), cursor: None, done: false }
    }

    /// Absorbs one page: its tools are appended in order, and the listing
    /// is complete exactly when the page carries no continuation cursor.
    pub fn absorb_page(&mut self, page: ToolsListResult)
        ensures
            tool_views(final(self).tools@) == tool_views(old(self).tools@) + page@.tools,
            final(self).done == (page.next_cursor is None),
            match page.next_cursor {
                Some(c) => final(self).cursor matches Some(x) && x@ == c@,
                None => final(self).cursor is None,
            },
    {
        let ghost pre = self.tools@;
        let ghost page_tools = page.tools@;
        let mut incoming = page.tools;
        let n = incoming.len();
        let mut k: usize = 0;
        while k < n
            invariant
                k <= n,
                n == page_tools.len(),
                incoming@ =~= page_tools.skip(k as int),
                self.tools@ =~= pre + page_tools.take(k as int),
            decreases n - k,
        {
            let t = incoming.remove(0);
            self.tools.push(t);
            proof {
                assert(incoming@ =~= page_tools.skip(k as int + 1));
                assert(self.tools@ =~= pre + page_tools.take(k as int + 1));
            }
            k += 1;
        }
        proof {
            assert(self.tools@ =~= pre + page_tools);
            assert forall|i: int| 0 <= i < self.tools@.len() implies #[trigger] tool_views(
                self.tools@,
            )[i] == (tool_views(pre) + tool_views(page_tools))[i] by {
                if i < pre.len() {
                    assert(self.tools@[i] == pre[i]);
                } else {
                    assert(self.tools@[i] == page_tools[i - pre.len()]);
                }
            }
            assert(tool_views(self.tools@) =~= tool_views(pre) + tool_views(page_tools));
        }
        match page.next_cursor {
            Some(c) => {
                self.cursor = Some(c);
                self.done = false;
            },
            None => {
                self.cursor = None;
                self.done = true;
            },
        }
    }
}

} // verus!
