//! The three transports' verified cores: framing, classification, session
//! stickiness, event parsing, and correlation by identifier.

use relay::json::Json;
use relay::rpc::{JsonRpcRequest, RequestId};
use relay::transport::{HttpTransportError, TransportError, auth_header_value,
    extract_http_payload};
use relay::transport::http::HttpTransport;
use relay::transport::sse::{EventParser, SseSendStep, SseTransport, correlate, endpoint_url,
    is_endpoint_data, match_pushed};
use relay::transport::stdio::{decode_response_line, encode_request_line, parse_command};

#[test]
fn test_parse_command_splits_program_and_args() {
    let (prog, args) = parse_command("npx @scope/server --flag value").unwrap();
    assert_eq!(prog, "npx");
    assert_eq!(args, vec!["@scope/server", "--flag", "value"]);
}

#[test]
fn test_parse_command_empty_is_configuration_error() {
    assert!(parse_command("").is_none());
    assert!(parse_command("   ").is_none());
}

#[test]
fn test_stdio_request_line_is_newline_terminated() {
    let req = JsonRpcRequest::new(RequestId::Number(1), "initialize", None);
    let line = encode_request_line(&req);
    assert!(line.ends_with('\n'));
    assert!(line.starts_with("{\"jsonrpc\":\"2.0\",\"id\":1,\"method\":\"initialize\"}"));
}

#[test]
fn test_stdio_empty_read_is_connection_closed() {
    assert!(matches!(decode_response_line(""), Err(TransportError::ConnectionClosed)));
}

#[test]
fn test_stdio_malformed_line_keeps_raw_text() {
    match decode_response_line("not json\n") {
        Err(TransportError::Malformed { raw }) => assert_eq!(raw, "not json\n"),
        _ => panic!("expected a malformed-response error"),
    }
}

#[test]
fn test_stdio_echo_counterpart_round_trip() {
    // The persistent counterpart answers every request with this line; the
    // transport must classify it as success with that exact result payload.
    let line = "{\"jsonrpc\":\"2.0\",\"id\":1,\"result\":{\"echo\":true}}\n";
    let resp = decode_response_line(line).unwrap();
    assert!(resp.is_success());
    assert_eq!(resp.id, RequestId::Number(1));
    let result = resp.result.unwrap();
    assert_eq!(result.render_string(), "{\"echo\":true}");
}

#[test]
fn test_auth_header_value_synthesis() {
    assert_eq!(auth_header_value("abc123"), "Bearer abc123");
    assert_eq!(auth_header_value("Bearer abc"), "Bearer abc");
    assert_eq!(auth_header_value("token xyz"), "token xyz");
    assert_eq!(auth_header_value("Basic dXNlcg=="), "Basic dXNlcg==");
}

#[test]
fn test_http_401_is_authentication_required() {
    let mut t = HttpTransport::new("http://h/mcp".to_string(), "srv".to_string());
    match t.handle_response(401, &vec![], "") {
        Err(TransportError::Auth(HttpTransportError::AuthRequired { server_name })) => {
            assert_eq!(server_name, "srv");
        }
        _ => panic!("expected the authentication-required condition"),
    }
}

#[test]
fn test_http_401_wins_over_any_body() {
    let mut t = HttpTransport::new("http://h/mcp".to_string(), "srv".to_string());
    let body = "{\"jsonrpc\":\"2.0\",\"id\":1,\"result\":{}}";
    assert!(matches!(
        t.handle_response(401, &vec![], body),
        Err(TransportError::Auth(HttpTransportError::AuthRequired { .. }))
    ));
}

#[test]
fn test_http_invalid_token_body_is_authentication_required() {
    let mut t = HttpTransport::new("http://h/mcp".to_string(), "srv".to_string());
    let body = "{\"error\": \"invalid_token\", \"error_description\": \"expired\"}";
    assert!(matches!(
        t.handle_response(403, &vec![], body),
        Err(TransportError::Auth(HttpTransportError::AuthRequired { .. }))
    ));
}

#[test]
fn test_http_other_failure_is_remote_error() {
    let mut t = HttpTransport::new("http://h/mcp".to_string(), "srv".to_string());
    match t.handle_response(500, &vec![], "oops") {
        Err(TransportError::Remote { status, body }) => {
            assert_eq!(status, 500);
            assert_eq!(body, "oops");
        }
        _ => panic!("expected a remote error"),
    }
}

#[test]
fn test_http_success_parses_plain_json_body() {
    let mut t = HttpTransport::new("http://h/mcp".to_string(), "srv".to_string());
    let body = "{\"jsonrpc\":\"2.0\",\"id\":3,\"result\":{\"ok\":true}}";
    let resp = t.handle_response(200, &vec![], body).unwrap();
    assert!(resp.is_success());
    assert_eq!(resp.id, RequestId::Number(3));
}

#[test]
fn test_http_success_unwraps_event_framed_body() {
    let mut t = HttpTransport::new("http://h/mcp".to_string(), "srv".to_string());
    let body = "event: message\ndata: {\"jsonrpc\":\"2.0\",\"id\":4,\"result\":{}}\n\n";
    let resp = t.handle_response(200, &vec![], body).unwrap();
    assert_eq!(resp.id, RequestId::Number(4));
}

#[test]
fn test_http_session_id_is_sticky() {
    let mut t = HttpTransport::new("http://h/mcp".to_string(), "srv".to_string());
    let headers = vec![("mcp-session-id".to_string(), "sess-9".to_string())];
    let body = "{\"jsonrpc\":\"2.0\",\"id\":1,\"result\":{}}";
    t.handle_response(200, &headers, body).unwrap();
    assert_eq!(t.session_id.as_deref(), Some("sess-9"));
    let hs = t.post_headers();
    assert!(hs.iter().any(|(k, v)| k == "Mcp-Session-Id" && v == "sess-9"));
}

#[test]
fn test_extract_http_payload_prefers_first_data_line() {
    assert_eq!(extract_http_payload("data: {\"a\":1}\ndata: {\"b\":2}\n"), "{\"a\":1}");
    assert_eq!(extract_http_payload("  {\"a\":1} \n"), "{\"a\":1}");
}

#[test]
fn test_event_parser_splits_on_blank_lines() {
    let mut p = EventParser::new();
    let out = p.feed("data: {\"a\":1}\n\ndata: {\"b\":2}\n\n");
    assert_eq!(out, vec!["{\"a\":1}", "{\"b\":2}"]);
}

#[test]
fn test_event_parser_buffers_partial_events() {
    let mut p = EventParser::new();
    assert!(p.feed("data: {\"a\"").is_empty());
    assert!(p.feed(":1}\n").is_empty());
    let out = p.feed("\ndata:");
    assert_eq!(out, vec!["{\"a\":1}"]);
    let out2 = p.feed(" {\"b\":2}\n\n");
    assert_eq!(out2, vec!["{\"b\":2}"]);
}

#[test]
fn test_event_parser_ignores_payloads_that_are_not_objects() {
    let mut p = EventParser::new();
    let out = p.feed("data: ping\n\ndata: {\"ok\":1}\n\n");
    assert_eq!(out, vec!["{\"ok\":1}"]);
}

#[test]
fn test_endpoint_detection_and_url() {
    assert!(is_endpoint_data("/messages?sessionId=abc"));
    assert!(is_endpoint_data("anything with sessionId=xyz inside"));
    assert!(!is_endpoint_data("{\"jsonrpc\":\"2.0\"}"));
    assert_eq!(
        endpoint_url("http://h/sse", "/messages?sessionId=abc"),
        "http://h/messages?sessionId=abc"
    );
    assert_eq!(endpoint_url("http://h/mcp", "/m"), "http://h/mcp/m");
}

#[test]
fn test_correlation_discards_non_matching_identifiers() {
    let want = RequestId::Number(2);
    let msgs = vec![
        "{\"jsonrpc\":\"2.0\",\"id\":1,\"result\":{\"n\":1}}".to_string(),
        "not even json".to_string(),
        "{\"jsonrpc\":\"2.0\",\"id\":3,\"result\":{\"n\":3}}".to_string(),
        "{\"jsonrpc\":\"2.0\",\"id\":2,\"result\":{\"n\":2}}".to_string(),
        "{\"jsonrpc\":\"2.0\",\"id\":2,\"result\":{\"n\":99}}".to_string(),
    ];
    let (k, resp) = correlate(&msgs, &want).unwrap();
    assert_eq!(k, 3);
    assert_eq!(resp.id, RequestId::Number(2));
    assert_eq!(resp.result.unwrap().render_string(), "{\"n\":2}");
}

#[test]
fn test_correlation_without_match_yields_nothing() {
    let want = RequestId::Number(9);
    let msgs = vec!["{\"jsonrpc\":\"2.0\",\"id\":1,\"result\":{}}".to_string()];
    assert!(correlate(&msgs, &want).is_none());
    assert!(match_pushed("{\"jsonrpc\":\"2.0\",\"id\":1,\"result\":{}}", &want).is_none());
}

#[test]
fn test_correlation_matches_string_identifiers() {
    let want = RequestId::String("r-1".to_string());
    let resp = match_pushed("{\"jsonrpc\":\"2.0\",\"id\":\"r-1\",\"result\":{}}", &want).unwrap();
    assert!(resp.is_success());
}

#[test]
fn test_sse_connect_status_classification() {
    let t = SseTransport::new("http://h/sse".to_string(), "srv".to_string());
    assert!(matches!(
        t.handle_connect_status(401),
        Err(TransportError::Auth(HttpTransportError::AuthRequired { .. }))
    ));
    assert!(matches!(t.handle_connect_status(500), Err(TransportError::Remote { status: 500, .. })));
    assert!(t.handle_connect_status(200).is_ok());
}

#[test]
fn test_sse_send_classification() {
    let t = SseTransport::new("http://h/sse".to_string(), "srv".to_string());
    assert!(matches!(t.classify_send_response(202, ""), SseSendStep::AwaitStream));
    assert!(matches!(
        t.classify_send_response(401, ""),
        SseSendStep::Failed(TransportError::Auth(_))
    ));
    assert!(matches!(
        t.classify_send_response(500, "bad"),
        SseSendStep::Failed(TransportError::Remote { status: 500, .. })
    ));
    match t.classify_send_response(200, "data: {\"jsonrpc\":\"2.0\",\"id\":1,\"result\":{}}\n") {
        SseSendStep::Reply(resp) => assert_eq!(resp.id, RequestId::Number(1)),
        _ => panic!("expected a direct reply"),
    }
    assert!(matches!(
        t.classify_send_response(200, ""),
        SseSendStep::Failed(TransportError::EmptyBody)
    ));
}

#[test]
fn test_client_core_request_lifecycle() {
    let mut c = relay::client::McpClient::new("0.1.0".to_string());
    let r1 = c.initialize_request();
    assert_eq!(r1.id, RequestId::Number(1));
    assert_eq!(r1.method, "initialize");
    let r2 = c.tools_list_request(&None);
    assert_eq!(r2.id, RequestId::Number(2));
    assert!(r2.params.is_none());
    let r3 = c.tools_list_request(&Some("pg2".to_string()));
    assert_eq!(r3.id, RequestId::Number(3));
    assert_eq!(r3.params.unwrap().render_string(), "{\"cursor\":\"pg2\"}");
    let r4 = c.call_tool_request("echo", vec![
        ("message".to_string(), Json::Str("hi".to_string())),
    ]);
    assert_eq!(r4.id, RequestId::Number(4));
    assert_eq!(
        r4.params.unwrap().render_string(),
        "{\"name\":\"echo\",\"arguments\":{\"message\":\"hi\"}}"
    );
}

#[test]
fn test_client_handles_initialize_response() {
    let mut c = relay::client::McpClient::new("0.1.0".to_string());
    let _ = c.initialize_request();
    let body = "{\"jsonrpc\":\"2.0\",\"id\":1,\"result\":{\"protocolVersion\":\"2024-11-05\",\
        \"capabilities\":{\"tools\":{}},\"serverInfo\":{\"name\":\"mock-server\",\"version\":\"1.0.0\"}}}";
    let resp = relay::rpc::decode_response(body).unwrap();
    let res = c.handle_initialize_response(&resp).unwrap();
    assert_eq!(res.server_info.name, "mock-server");
    assert_eq!(res.server_info.version.as_deref(), Some("1.0.0"));
    assert_eq!(res.protocol_version, "2024-11-05");
    assert!(c.server_info().is_some());
}

#[test]
fn test_client_surfaces_server_error_loudly() {
    let mut c = relay::client::McpClient::new("0.1.0".to_string());
    let body = "{\"jsonrpc\":\"2.0\",\"id\":1,\"error\":{\"code\":-32601,\"message\":\"no\"}}";
    let resp = relay::rpc::decode_response(body).unwrap();
    match c.handle_initialize_response(&resp) {
        Err(relay::client::ClientError::Rpc { code, message }) => {
            assert_eq!(code, -32601);
            assert_eq!(message, "no");
        }
        _ => panic!("expected the server's error to surface"),
    }
}

#[test]
fn test_tool_listing_accumulates_pages() {
    let mut listing = relay::client::ToolListing::new();
    let first_page = relay::protocol::ToolsListResult {
        tools: vec![relay::protocol::Tool {
            name: "a".to_string(),
            description: None,
            input_schema: None,
        }],
        next_cursor: Some("c2".to_string()),
    };
    listing.absorb_page(first_page);
    assert!(!listing.done);
    assert_eq!(listing.cursor.as_deref(), Some("c2"));
    let last_page = relay::protocol::ToolsListResult {
        tools: vec![relay::protocol::Tool {
            name: "b".to_string(),
            description: None,
            input_schema: None,
        }],
        next_cursor: None,
    };
    listing.absorb_page(last_page);
    assert!(listing.done);
    assert_eq!(listing.tools.len(), 2);
    assert_eq!(listing.tools[0].name, "a");
    assert_eq!(listing.tools[1].name, "b");
}
