//! The JSON codec and the typed protocol payloads.

use relay::json::{Json, parse_json_text};
use relay::protocol::{ContentItem, parse_content_item, parse_tool, parse_tool_call_result,
    parse_tools_list, content_item_to_json};

fn render(v: &Json) -> String {
    v.render_string()
}

#[test]
fn test_json_render_and_parse_simple_values() {
    assert_eq!(render(&Json::Null), "null");
    assert_eq!(render(&Json::Bool(true)), "true");
    assert_eq!(render(&Json::Bool(false)), "false");
    assert_eq!(render(&Json::Str("hi".to_string())), "\"hi\"");
    assert!(matches!(parse_json_text("null").unwrap(), Json::Null));
    assert!(matches!(parse_json_text("true").unwrap(), Json::Bool(true)));
    assert!(matches!(parse_json_text("  false  ").unwrap(), Json::Bool(false)));
}

#[test]
fn test_json_parse_nested_structure() {
    let v = parse_json_text(r#"{"a": [1, 2.5, "x"], "b": {"c": null}}"#).unwrap();
    let text = render(&v);
    assert_eq!(text, r#"{"a":[1,2.5,"x"],"b":{"c":null}}"#);
}

#[test]
fn test_json_parse_string_escapes() {
    let v = parse_json_text(r#""a\"b\\c\ndA""#).unwrap();
    match v {
        Json::Str(s) => assert_eq!(s, "a\"b\\c\ndA"),
        _ => panic!("expected a string"),
    }
}

#[test]
fn test_json_render_escapes_round_trip() {
    let v = Json::Str("line\nquote\"back\\slash".to_string());
    let text = render(&v);
    let back = parse_json_text(&text).unwrap();
    match back {
        Json::Str(s) => assert_eq!(s, "line\nquote\"back\\slash"),
        _ => panic!("expected a string"),
    }
}

#[test]
fn test_json_unicode_escape_ascii_only() {
    match parse_json_text("\"\\u0041\"").unwrap() {
        Json::Str(s) => assert_eq!(s, "A"),
        _ => panic!("expected a string"),
    }
    assert!(parse_json_text("\"\\u00ff\"").is_none());
    assert!(parse_json_text("\"\\uzzzz\"").is_none());
}

#[test]
fn test_json_rejects_malformed_numbers() {
    assert!(parse_json_text("01").is_none());
    assert!(parse_json_text("1.").is_none());
    assert!(parse_json_text("+1").is_none());
    assert!(parse_json_text("1e").is_none());
    assert!(parse_json_text("--2").is_none());
    assert!(parse_json_text("1 2").is_none());
}

#[test]
fn test_json_accepts_number_forms() {
    assert!(parse_json_text("0").is_some());
    assert!(parse_json_text("-0").is_some());
    assert!(parse_json_text("12.75").is_some());
    assert!(parse_json_text("1e3").is_some());
    assert!(parse_json_text("-2.5E-4").is_some());
}

#[test]
fn test_tool_deserialization() {
    let json = r#"{
        "name": "get_weather",
        "description": "Get weather for a location",
        "inputSchema": {
            "type": "object",
            "properties": {
                "location": { "type": "string" }
            },
            "required": ["location"]
        }
    }"#;

    let v = parse_json_text(json).unwrap();
    let tool = parse_tool(&v).unwrap();
    assert_eq!(tool.name, "get_weather");
    assert!(tool.input_schema.is_some());
}

#[test]
fn test_tool_call_result_deserialization() {
    let json = r#"{
        "content": [
            { "type": "text", "text": "Weather: Sunny, 72F" }
        ],
        "isError": false
    }"#;

    let v = parse_json_text(json).unwrap();
    let result = parse_tool_call_result(&v).unwrap();
    assert_eq!(result.content.len(), 1);
    assert!(!result.is_error);
}

#[test]
fn test_content_item_image_mime_type_serialization() {
    let image = ContentItem::Image {
        data: "base64data".to_string(),
        mime_type: "image/png".to_string(),
    };
    let json = render(&content_item_to_json(&image));
    assert!(json.contains("\"mimeType\":\"image/png\""));
    assert!(!json.contains("\"mime_type\""));
}

#[test]
fn test_content_item_image_deserialization() {
    let json = r#"{
        "type": "image",
        "data": "base64data",
        "mimeType": "image/jpeg"
    }"#;

    let v = parse_json_text(json).unwrap();
    let item = parse_content_item(&v).unwrap();
    match item {
        ContentItem::Image { data, mime_type } => {
            assert_eq!(data, "base64data");
            assert_eq!(mime_type, "image/jpeg");
        }
        _ => panic!("Expected Image variant"),
    }
}

#[test]
fn test_tools_list_with_cursor() {
    let json = r#"{"tools": [{"name": "a"}, {"name": "b"}], "nextCursor": "page2"}"#;
    let v = parse_json_text(json).unwrap();
    let page = parse_tools_list(&v).unwrap();
    assert_eq!(page.tools.len(), 2);
    assert_eq!(page.tools[0].name, "a");
    assert_eq!(page.tools[1].name, "b");
    assert_eq!(page.next_cursor.as_deref(), Some("page2"));
}

#[test]
fn test_tools_list_last_page() {
    let json = r#"{"tools": []}"#;
    let v = parse_json_text(json).unwrap();
    let page = parse_tools_list(&v).unwrap();
    assert!(page.tools.is_empty());
    assert!(page.next_cursor.is_none());
}

#[test]
fn test_tool_call_result_error_flag_default() {
    let json = r#"{"content": []}"#;
    let v = parse_json_text(json).unwrap();
    let result = parse_tool_call_result(&v).unwrap();
    assert!(!result.is_error);

    let json2 = r#"{"content": [], "isError": true}"#;
    let v2 = parse_json_text(json2).unwrap();
    let result2 = parse_tool_call_result(&v2).unwrap();
    assert!(result2.is_error);
}

#[test]
fn test_content_item_unknown_type_rejected() {
    let v = parse_json_text(r#"{"type": "audio", "data": "x"}"#).unwrap();
    assert!(parse_content_item(&v).is_none());
}
