use mcp_server_middleware::payload::{McpInputData, McpInputPayload, ParseError};
use mcp_server_middleware::json_string::unescape_span;
use mcp_server_middleware::text::chars_of;

#[test]
fn test_init_payload() {
    let init_payload = "{\"jsonrpc\":\"2.0\",\"method\":\"initialize\",\"id\":1,\"params\":{\"protocolVersion\":\"2025-03-26\",\"capabilities\":{},\"clientInfo\":{\"name\":\"openai-mcp\",\"version\":\"1.0.0\"}}}";

    let mpc_payload = McpInputPayload::try_parse(init_payload).unwrap();

    println!("Mcp Payload: {:?}", mpc_payload);
}

#[test]
fn init_payload_fields() {
    let body = "{\"jsonrpc\":\"2.0\",\"method\":\"initialize\",\"id\":1,\"params\":{\"protocolVersion\":\"2025-03-26\",\"capabilities\":{},\"clientInfo\":{\"name\":\"openai-mcp\",\"version\":\"1.0.0\"}}}";
    let p = McpInputPayload::try_parse(body).unwrap();
    assert_eq!(p._version, "2.0");
    assert_eq!(p.id, 1);
    match p.data {
        McpInputData::Initialize(c) => assert_eq!(c.protocol_version, "2025-03-26"),
        other => panic!("unexpected {:?}", other),
    }
}

#[test]
fn parser_extracts_fields_as_given() {
    let body = "{ \"id\" : -42 , \"method\":\"ping\", \"jsonrpc\":\"2.0\" }";
    let p = McpInputPayload::try_parse(body).unwrap();
    assert_eq!(p._version, "2.0");
    assert_eq!(p.id, -42);
    assert!(matches!(p.data, McpInputData::Ping));
}

#[test]
fn missing_method_is_refused() {
    let r = McpInputPayload::try_parse("{\"jsonrpc\":\"2.0\",\"id\":3}");
    assert_eq!(r.unwrap_err(), ParseError::MissingMethod);
    let r = McpInputPayload::try_parse("{\"jsonrpc\":\"2.0\",\"method\":null,\"id\":3}");
    assert_eq!(r.unwrap_err(), ParseError::MissingMethod);
}

#[test]
fn missing_version_is_refused() {
    let r = McpInputPayload::try_parse("{\"method\":\"ping\",\"id\":3}");
    assert_eq!(r.unwrap_err(), ParseError::MissingVersion);
}

#[test]
fn missing_id_defaults_to_zero() {
    let p = McpInputPayload::try_parse("{\"jsonrpc\":\"2.0\",\"method\":\"tools/list\"}").unwrap();
    assert_eq!(p.id, 0);
    assert!(matches!(p.data, McpInputData::ToolsList));
}

#[test]
fn id_that_is_no_number_is_refused() {
    let r = McpInputPayload::try_parse("{\"jsonrpc\":\"2.0\",\"method\":\"ping\",\"id\":\"abc\"}");
    assert_eq!(r.unwrap_err(), ParseError::IdNotNumber);
    let r = McpInputPayload::try_parse("{\"jsonrpc\":\"2.0\",\"method\":\"ping\",\"id\":9223372036854775808}");
    assert_eq!(r.unwrap_err(), ParseError::IdNotNumber);
}

#[test]
fn largest_and_smallest_ids() {
    let p = McpInputPayload::try_parse("{\"jsonrpc\":\"2.0\",\"method\":\"ping\",\"id\":9223372036854775807}").unwrap();
    assert_eq!(p.id, i64::MAX);
    let p = McpInputPayload::try_parse("{\"jsonrpc\":\"2.0\",\"method\":\"ping\",\"id\":-9223372036854775808}").unwrap();
    assert_eq!(p.id, i64::MIN);
}

#[test]
fn malformed_bodies_are_refused() {
    assert_eq!(McpInputPayload::try_parse("").unwrap_err(), ParseError::Malformed);
    assert_eq!(McpInputPayload::try_parse("[1,2]").unwrap_err(), ParseError::Malformed);
    assert_eq!(McpInputPayload::try_parse("{\"jsonrpc\":\"2.0\"").unwrap_err(), ParseError::Malformed);
    assert_eq!(McpInputPayload::try_parse("{\"jsonrpc\" \"2.0\"}").unwrap_err(), ParseError::Malformed);
}

#[test]
fn last_member_of_a_name_counts() {
    let p = McpInputPayload::try_parse("{\"jsonrpc\":\"1.0\",\"method\":\"ping\",\"jsonrpc\":\"2.0\"}").unwrap();
    assert_eq!(p._version, "2.0");
}

#[test]
fn tools_call_params_are_decoded() {
    let body = "{\"jsonrpc\":\"2.0\",\"method\":\"tools/call\",\"id\":7,\"params\":{\"name\":\"sql_request\",\"arguments\":{\"sql_request\":\"select \\\"a}\\\" from t\"}}}";
    let p = McpInputPayload::try_parse(body).unwrap();
    match p.data {
        McpInputData::ExecuteToolCall(m) => {
            assert_eq!(m.name, "sql_request");
            assert_eq!(m.arguments, "{\"sql_request\":\"select \\\"a}\\\" from t\"}");
        }
        other => panic!("unexpected {:?}", other),
    }
}

#[test]
fn bad_params_of_known_method_are_refused() {
    let r = McpInputPayload::try_parse("{\"jsonrpc\":\"2.0\",\"method\":\"tools/call\",\"id\":7,\"params\":{\"arguments\":{}}}");
    assert_eq!(r.unwrap_err(), ParseError::InvalidParams);
    let r = McpInputPayload::try_parse("{\"jsonrpc\":\"2.0\",\"method\":\"initialize\",\"id\":7}");
    assert_eq!(r.unwrap_err(), ParseError::InvalidParams);
}

#[test]
fn unknown_method_is_other() {
    let p = McpInputPayload::try_parse("{\"jsonrpc\":\"2.0\",\"method\":\"prompts/list\",\"id\":2,\"params\":{\"a\":[1,2]}}").unwrap();
    match p.data {
        McpInputData::Other { method, data } => {
            assert_eq!(method, "prompts/list");
            assert_eq!(data, "{\"a\":[1,2]}");
        }
        other => panic!("unexpected {:?}", other),
    }
}

#[test]
fn classifier_maps_each_method() {
    assert!(matches!(McpInputData::from_str("notifications/initialized", "").unwrap(), McpInputData::NotificationsInitialize));
    assert!(matches!(McpInputData::from_str("resources/list", "").unwrap(), McpInputData::ResourcesList));
    assert!(matches!(McpInputData::from_str("tools/list", "").unwrap(), McpInputData::ToolsList));
    assert!(matches!(McpInputData::from_str("ping", "").unwrap(), McpInputData::Ping));
}

#[test]
fn parse_error_messages() {
    assert_eq!(ParseError::MissingMethod.message(), "Method is null");
    assert_eq!(ParseError::MissingVersion.message(), "Version is null");
    assert_eq!(ParseError::IdNotNumber.message(), "Id is not number");
    assert_eq!(ParseError::Malformed.message(), "Body is not a json object");
    assert_eq!(ParseError::InvalidParams.message(), "Can not deserialize params");
}

#[test]
fn missing_params_are_an_empty_object() {
    let p = McpInputPayload::try_parse("{\"jsonrpc\":\"2.0\",\"method\":\"prompts/list\",\"id\":2}").unwrap();
    match p.data {
        McpInputData::Other { method, data } => {
            assert_eq!(method, "prompts/list");
            assert_eq!(data, "{}");
        }
        other => panic!("unexpected {:?}", other),
    }
}

#[test]
fn string_params_are_unescaped() {
    let body = "{\"jsonrpc\":\"2.0\",\"method\":\"initialize\",\"id\":1,\"params\":{\"protocolVersion\":\"2025\\/03\\u0041\\u00e9\\n\"}}";
    match McpInputPayload::try_parse(body).unwrap().data {
        McpInputData::Initialize(c) => assert_eq!(c.protocol_version, "2025/03Aé\n"),
        other => panic!("unexpected {:?}", other),
    }
}

#[test]
fn malformed_escapes_are_refused() {
    let r = McpInputPayload::try_parse("{\"jsonrpc\":\"2.0\",\"method\":\"tools/call\",\"params\":{\"name\":\"a\\qb\",\"arguments\":{}}}");
    assert_eq!(r.unwrap_err(), ParseError::InvalidParams);
    let r = McpInputPayload::try_parse("{\"jsonrpc\":\"2.0\",\"method\":\"tools/call\",\"params\":{\"name\":\"\\ud800\",\"arguments\":{}}}");
    assert_eq!(r.unwrap_err(), ParseError::InvalidParams);
    let r = McpInputPayload::try_parse("{\"jsonrpc\":\"2.0\",\"method\":\"tools/call\",\"params\":{\"name\":\"\\u12\",\"arguments\":{}}}");
    assert_eq!(r.unwrap_err(), ParseError::InvalidParams);
}

#[test]
fn unescape_span_decodes() {
    let v = chars_of("x\\u0041\\\"y");
    assert_eq!(unescape_span(&v, 0, v.len()), Some("xA\"y".to_string()));
    assert_eq!(unescape_span(&v, 0, 3), None);
}
