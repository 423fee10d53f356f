use mcp_server_middleware::payload::McpInputPayload;
use mcp_server_middleware::middleware::{equals_ignore_case, stream_headers, HttpMethod, McpMiddleware, McpOutcome, SESSION_HEADER};
use mcp_server_middleware::stream_updates::{stream_step, McpSocketUpdateEvent, StreamStep};
use mcp_server_middleware::tool_calls::{ExecutionError, ToolCallSchemaData};

fn middleware() -> McpMiddleware<u32> {
    McpMiddleware::new("/postgres", "Postgres MCP Server", "0.1.0", "Query the database")
}

fn open_session(m: &mut McpMiddleware<u32>) -> String {
    let body = "{\"jsonrpc\":\"2.0\",\"method\":\"initialize\",\"id\":1,\"params\":{\"protocolVersion\":\"2025-03-26\"}}";
    match m.handle_post_request(None, body, 1000) {
        McpOutcome::Stream { session_id, .. } => session_id,
        _ => panic!("initialize did not answer with a stream"),
    }
}

fn schema(name: &str) -> ToolCallSchemaData {
    ToolCallSchemaData {
        name: name.to_string(),
        description: format!("{} tool", name),
        input: "{\"type\":\"object\"}".to_string(),
        output: "{\"type\":\"string\"}".to_string(),
    }
}

#[test]
fn initialize_opens_session() {
    let mut m = middleware();
    let body = "{\"jsonrpc\":\"2.0\",\"method\":\"initialize\",\"id\":1,\"params\":{\"protocolVersion\":\"2025-03-26\"}}";
    match m.handle_post_request(None, body, 1000) {
        McpOutcome::Stream { body, session_id } => {
            assert!(body.starts_with("data: "));
            assert!(body.ends_with("\n\n"));
            assert!(body.contains("\"protocolVersion\":\"2025-03-26\""));
            assert!(body.contains("\"serverInfo\":{\"name\":\"Postgres MCP Server\",\"version\":\"0.1.0\"}"));
            assert!(body.contains("\"jsonrpc\":\"2.0\",\"id\":1"));
            assert_eq!(session_id.len(), 36);
            assert!(m.sessions_mut().check_session_and_update_last_used(&session_id, 2000));
        }
        _ => panic!("initialize did not answer with a stream"),
    }
}

#[test]
fn ping_with_session() {
    let mut m = middleware();
    let sid = open_session(&mut m);
    let body = "{\"jsonrpc\":\"2.0\",\"method\":\"ping\",\"id\":5}";
    match m.handle_post_request(Some(&sid), body, 2000) {
        McpOutcome::Stream { body, session_id } => {
            assert_eq!(body, "data: {\"jsonrpc\":\"2.0\",\"id\":5,\"result\":{}}\n\n");
            assert_eq!(session_id, sid);
        }
        _ => panic!("ping did not answer with a stream"),
    }
}

#[test]
fn unregistered_tool_is_not_found() {
    let mut m = middleware();
    let sid = open_session(&mut m);
    let body = "{\"jsonrpc\":\"2.0\",\"method\":\"tools/call\",\"id\":9,\"params\":{\"name\":\"nope\",\"arguments\":{}}}";
    match m.handle_post_request(Some(&sid), body, 2000) {
        McpOutcome::Stream { body, .. } => {
            assert!(body.contains("is not found"));
            assert!(body.contains("\"isError\":true"));
            assert!(body.contains("Tool call with name nope is not found"));
        }
        _ => panic!("tools/call did not answer with a stream"),
    }
}

#[test]
fn registered_tool_is_run() {
    let mut m = middleware();
    m.register_tool_call(schema("sql_request"), 77);
    let sid = open_session(&mut m);
    let body = "{\"jsonrpc\":\"2.0\",\"method\":\"tools/call\",\"id\":9,\"params\":{\"name\":\"sql_request\",\"arguments\":{\"sql_request\":\"select 1\"}}}";
    match m.handle_post_request(Some(&sid), body, 2000) {
        McpOutcome::RunTool { tool, arguments, id, session_id } => {
            assert_eq!(*m.tool_calls().handler(tool), 77);
            assert_eq!(arguments, "{\"sql_request\":\"select 1\"}");
            assert_eq!(id, 9);
            assert_eq!(session_id, sid);
        }
        _ => panic!("tools/call did not ask to run the tool"),
    }
}

#[test]
fn get_without_session_is_unauthorized() {
    let mut m = middleware();
    let r = m.handle_request(HttpMethod::Get, "/postgres", None, "", 0);
    assert!(matches!(r, Some(McpOutcome::Unauthorized)));
}

#[test]
fn get_with_unknown_session_is_unauthorized() {
    let mut m = middleware();
    let r = m.handle_request(HttpMethod::Get, "/postgres", Some("no-such-session"), "", 0);
    assert!(matches!(r, Some(McpOutcome::Unauthorized)));
}

#[test]
fn get_stream_ends_on_shutdown() {
    let mut m = middleware();
    let sid = open_session(&mut m);
    let mut receiver = match m.handle_request(HttpMethod::Get, "/postgres", Some(&sid), "", 0) {
        Some(McpOutcome::Subscribe(r)) => r,
        _ => panic!("no stream opened"),
    };
    assert!(receiver.try_recv().is_err());
    assert!(m.sessions_mut().remove_session(&sid));
    let event = receiver.try_recv().ok();
    assert_eq!(event, Some(McpSocketUpdateEvent::Shutdown));
    assert_eq!(stream_step(event), StreamStep::Stop);
}

#[test]
fn other_paths_are_not_handled() {
    let mut m = middleware();
    assert!(m.handle_request(HttpMethod::Get, "/other", None, "", 0).is_none());
    assert!(m.handle_request(HttpMethod::Delete, "/postgres", None, "", 0).is_none());
    assert!(m.handle_request(HttpMethod::Get, "/POSTGRES", None, "", 0).is_some());
}

#[test]
fn post_without_session_is_restricted() {
    let mut m = middleware();
    let r = m.handle_post_request(None, "{\"jsonrpc\":\"2.0\",\"method\":\"ping\",\"id\":1}", 0);
    assert!(matches!(r, McpOutcome::Unauthorized));
    let r = m.handle_post_request(None, "{\"jsonrpc\":\"2.0\",\"method\":\"foo\",\"id\":1,\"params\":{}}", 0);
    match r {
        McpOutcome::Fatal(t) => assert_eq!(t, "Unsupported method: foo. data: {}"),
        _ => panic!("expected a fatal error"),
    }
}

#[test]
fn malformed_post_is_fatal() {
    let mut m = middleware();
    match m.handle_post_request(None, "{\"jsonrpc\":\"2.0\",\"id\":1}", 0) {
        McpOutcome::Fatal(t) => assert_eq!(t, "Can not execute http request. Err: Method is null"),
        _ => panic!("expected a fatal error"),
    }
}

#[test]
fn authorized_simple_operations() {
    let mut m = middleware();
    let sid = open_session(&mut m);
    let r = m.handle_post_request(Some(&sid), "{\"jsonrpc\":\"2.0\",\"method\":\"resources/list\",\"id\":1}", 0);
    assert!(matches!(r, McpOutcome::Empty));
    let r = m.handle_post_request(Some(&sid), "{\"jsonrpc\":\"2.0\",\"method\":\"notifications/initialized\"}", 0);
    assert!(matches!(r, McpOutcome::Accepted));
}

#[test]
fn tools_list_through_dispatcher() {
    let mut m = middleware();
    m.register_tool_call(schema("b_tool"), 2);
    m.register_tool_call(schema("a_tool"), 1);
    let sid = open_session(&mut m);
    match m.handle_post_request(Some(&sid), "{\"jsonrpc\":\"2.0\",\"method\":\"tools/list\",\"id\":4}", 0) {
        McpOutcome::Stream { body, .. } => {
            let a = body.find("a_tool").unwrap();
            let b = body.find("b_tool").unwrap();
            assert!(a < b);
            assert!(body.starts_with("data: {\"result\":{\"tools\":[{\"name\":\"a_tool\",\"description\":\"a_tool tool\",\"inputSchema\":{\"type\":\"object\"},\"outputSchema\":{\"type\":\"string\"}},"));
            assert!(body.ends_with("]},\"jsonrpc\":\"2.0\",\"id\":4}\n\n"));
        }
        _ => panic!("tools/list did not answer with a stream"),
    }
}

#[test]
fn tool_results_are_framed() {
    let m = middleware();
    let ok = m.tool_call_response(Ok("{\"sql_response_as_json\":\"[]\"}".to_string()), 3);
    assert_eq!(ok, "data: {\"jsonrpc\":\"2.0\",\"id\":3,\"result\":{\"content\":[{\"type\":\"text\",\"text\":\"{\\\"sql_response_as_json\\\":\\\"[]\\\"}\"}],\"structuredContent\":{\"sql_response_as_json\":\"[]\"},\"isError\":false}}\n\n");
    let err = m.tool_call_response(Err(ExecutionError::ToolFailed("boom".to_string())), 3);
    assert_eq!(err, "data: {\"jsonrpc\":\"2.0\",\"id\":3,\"result\":{\"content\":[{\"type\":\"text\",\"text\":\"boom\"}],\"isError\":true}}\n\n");
    let err = m.tool_call_response(Err(ExecutionError::InvalidArguments("bad input".to_string())), 3);
    assert!(err.contains("\"text\":\"bad input\""));
}

#[test]
fn path_comparison_ignores_ascii_case() {
    assert!(equals_ignore_case("/Postgres", "/postgres"));
    assert!(!equals_ignore_case("/postgre", "/postgres"));
    assert!(!equals_ignore_case("/postgres1", "/postgres2"));
    assert_eq!(SESSION_HEADER, "mcp-session-id");
}

#[test]
fn event_stream_headers() {
    let h = stream_headers("abc");
    assert_eq!(
        h,
        vec![
            ("mcp-session-id".to_string(), "abc".to_string()),
            ("cache-control".to_string(), "no-cache".to_string()),
            ("content-type".to_string(), "text/event-stream".to_string()),
        ]
    );
}

#[test]
fn authorized_request_answers_directly() {
    let mut m = middleware();
    let sid = open_session(&mut m);
    let p = McpInputPayload::try_parse("{\"jsonrpc\":\"2.0\",\"method\":\"ping\",\"id\":11}").unwrap();
    match m.handle_authorized_request(&sid, p, 5, 11) {
        McpOutcome::Stream { body, session_id } => {
            assert_eq!(body, "data: {\"jsonrpc\":\"2.0\",\"id\":11,\"result\":{}}\n\n");
            assert_eq!(session_id, sid);
        }
        _ => panic!("ping did not answer with a stream"),
    }
    let p = McpInputPayload::try_parse("{\"jsonrpc\":\"2.0\",\"method\":\"tools/call\",\"id\":12,\"params\":{\"name\":\"none\",\"arguments\":{}}}").unwrap();
    match m.handle_authorized_request(&sid, p, 5, 12) {
        McpOutcome::Stream { body, .. } => assert!(body.contains("is not found")),
        _ => panic!("tools/call did not answer with a stream"),
    }
}
