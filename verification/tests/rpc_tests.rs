//! The JSON-RPC envelope: encoding, decoding, identifiers, and the
//! malformedness rules.

use relay::rpc::{JsonRpcRequest, JsonRpcResponse, RequestId, decode_request, decode_response,
    encode_request, encode_response, JsonRpcError};
use relay::json::Json;

#[test]
fn test_jsonrpc_request_serialization() {
    let req = JsonRpcRequest::new(RequestId::Number(1), "tools/list", None);
    let json = encode_request(&req);
    assert!(json.contains("\"jsonrpc\":\"2.0\""));
    assert!(json.contains("\"method\":\"tools/list\""));
}

#[test]
fn test_jsonrpc_request_with_string_id() {
    let req = JsonRpcRequest::new(RequestId::String("req-123".to_string()), "tools/list", None);
    let json = encode_request(&req);
    assert!(json.contains("\"id\":\"req-123\""));
}

#[test]
fn test_jsonrpc_request_with_number_id() {
    let req = JsonRpcRequest::new(RequestId::Number(42), "tools/call", None);
    let json = encode_request(&req);
    assert!(json.contains("\"id\":42"));
}

#[test]
fn test_request_id_from_conversions() {
    let id1: RequestId = 123u64.into();
    assert_eq!(id1, RequestId::Number(123));

    let id2: RequestId = "test".into();
    assert_eq!(id2, RequestId::String("test".to_string()));

    let id3: RequestId = String::from("hello").into();
    assert_eq!(id3, RequestId::String("hello".to_string()));
}

#[test]
fn test_jsonrpc_response_deserialization_with_number_id() {
    let json = r#"{
        "jsonrpc": "2.0",
        "id": 42,
        "result": {"status": "ok"}
    }"#;

    let response: JsonRpcResponse = decode_response(json).unwrap();
    assert_eq!(response.id, RequestId::Number(42));
    assert!(response.is_success());
    assert!(!response.is_error());
}

#[test]
fn test_jsonrpc_response_deserialization_with_string_id() {
    let json = r#"{
        "jsonrpc": "2.0",
        "id": "request-abc",
        "result": null
    }"#;

    let response: JsonRpcResponse = decode_response(json).unwrap();
    assert_eq!(response.id, RequestId::String("request-abc".to_string()));
}

#[test]
fn test_jsonrpc_response_is_error() {
    let json = r#"{
        "jsonrpc": "2.0",
        "id": 1,
        "error": {"code": -32600, "message": "Invalid Request"}
    }"#;

    let response: JsonRpcResponse = decode_response(json).unwrap();
    assert!(response.is_error());
    assert!(!response.is_success());
    let err = response.error.unwrap();
    assert_eq!(err.code, -32600);
    assert_eq!(err.message, "Invalid Request");
}

#[test]
fn test_request_round_trip_number_id() {
    let req = JsonRpcRequest::new(RequestId::Number(7), "initialize", None);
    let text = encode_request(&req);
    let back = decode_request(&text).unwrap();
    assert_eq!(back.id, RequestId::Number(7));
    assert_eq!(back.method, "initialize");
    assert_eq!(back.jsonrpc, "2.0");
    assert!(back.params.is_none());
}

#[test]
fn test_request_round_trip_string_id() {
    let req = JsonRpcRequest::new(
        RequestId::String("abc-42".to_string()),
        "tools/call",
        Some(Json::Bool(true)),
    );
    let text = encode_request(&req);
    let back = decode_request(&text).unwrap();
    assert_eq!(back.id, RequestId::String("abc-42".to_string()));
    assert_eq!(back.method, "tools/call");
    assert!(matches!(back.params, Some(Json::Bool(true))));
}

#[test]
fn test_response_rejected_when_both_result_and_error_present() {
    let json = r#"{"jsonrpc":"2.0","id":1,"result":{},"error":{"code":1,"message":"x"}}"#;
    assert!(decode_response(json).is_none());
}

#[test]
fn test_response_rejected_when_both_result_and_error_absent() {
    let json = r#"{"jsonrpc":"2.0","id":1}"#;
    assert!(decode_response(json).is_none());
}

#[test]
fn test_response_rejected_without_id() {
    let json = r#"{"jsonrpc":"2.0","result":{}}"#;
    assert!(decode_response(json).is_none());
}

#[test]
fn test_response_rejected_on_invalid_json() {
    assert!(decode_response("{not json").is_none());
    assert!(decode_response("").is_none());
}

#[test]
fn test_encode_response_round_trip_with_error() {
    let resp = JsonRpcResponse {
        jsonrpc: "2.0".to_string(),
        id: RequestId::Number(9),
        result: None,
        error: Some(JsonRpcError { code: -5, message: "boom".to_string(), data: None }),
    };
    let text = encode_response(&resp);
    let back = decode_response(&text).unwrap();
    assert!(back.is_error());
    let e = back.error.unwrap();
    assert_eq!(e.code, -5);
    assert_eq!(e.message, "boom");
}
