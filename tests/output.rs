use mcp_server_middleware::output::{
    build_ping_response, compile_execute_tool_call_response, compile_init_response, compile_tool_calls, frame,
};
use mcp_server_middleware::sql_response::{rows_to_json_array, ColumnValue, SqlResponse};
use mcp_server_middleware::text::{chars_of, push_escaped, push_int, string_of};
use mcp_server_middleware::tool_calls::ToolCallSchemaData;

#[test]
fn framing_wraps_one_record() {
    assert_eq!(frame("{}"), "data: {}\n\n");
    let r = compile_execute_tool_call_response("{\"a\":\"x\\ny\"}", 8);
    assert!(r.starts_with("data: "));
    assert!(r.ends_with("\n\n"));
    assert!(!r[..r.len() - 2].contains('\n'));
}

#[test]
fn ping_with_negative_id() {
    assert_eq!(build_ping_response(-12), "data: {\"jsonrpc\":\"2.0\",\"id\":-12,\"result\":{}}\n\n");
    assert_eq!(build_ping_response(0), "data: {\"jsonrpc\":\"2.0\",\"id\":0,\"result\":{}}\n\n");
}

#[test]
fn init_response_exact() {
    let r = compile_init_response("n", "1", "say \"hi\"", "2025-03-26", 1);
    assert_eq!(r, "data: {\"result\":{\"protocolVersion\":\"2025-03-26\",\"capabilities\":{\"resources\":{\"listChanged\":true},\"tools\":{\"listChanged\":true}},\"serverInfo\":{\"name\":\"n\",\"version\":\"1\"},\"instructions\":\"say \\\"hi\\\"\"},\"jsonrpc\":\"2.0\",\"id\":1}\n\n");
}

#[test]
fn empty_tools_list() {
    let r = compile_tool_calls(&Vec::<ToolCallSchemaData>::new(), 2);
    assert_eq!(r, "data: {\"result\":{\"tools\":[]},\"jsonrpc\":\"2.0\",\"id\":2}\n\n");
}

#[test]
fn escaping_and_integers() {
    let mut s = String::new();
    push_escaped(&mut s, "a\"b\\c\nd\te\r");
    assert_eq!(s, "a\\\"b\\\\c\\nd\\te\\r");
    let mut n = String::new();
    push_int(&mut n, i64::MIN);
    assert_eq!(n, "-9223372036854775808");
    let mut n = String::new();
    push_int(&mut n, 1234567890);
    assert_eq!(n, "1234567890");
}

#[test]
fn characters_and_substrings() {
    let v = chars_of("héllo");
    assert_eq!(v.len(), 5);
    assert_eq!(string_of(&v, 1, 4), "éll");
}

#[test]
fn rows_as_json() {
    let row = SqlResponse::from_columns(&vec![
        ("id".to_string(), ColumnValue::Integer(-3)),
        ("ok".to_string(), ColumnValue::Boolean(true)),
        ("price".to_string(), ColumnValue::Number("1.5".to_string())),
        ("name".to_string(), ColumnValue::Text("a\"b".to_string())),
    ]);
    let empty = SqlResponse::from_columns(&Vec::new());
    assert_eq!(
        rows_to_json_array(vec![row, empty]),
        "[{\"id\":-3,\"ok\":true,\"price\":1.5,\"name\":\"a\\\"b\"},{}]"
    );
    assert_eq!(rows_to_json_array(Vec::new()), "[]");
}

#[test]
fn control_characters_are_escaped() {
    let mut s = String::new();
    push_escaped(&mut s, "a\u{1}b\u{1f}c\u{8}");
    assert_eq!(s, "a\\u0001b\\u001fc\\u0008");
}
