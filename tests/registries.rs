use std::collections::HashSet;

use mcp_server_middleware::sessions::McpSessions;
use mcp_server_middleware::stream_updates::{stream_step, McpSocketUpdateEvent, StreamStep};
use mcp_server_middleware::tool_calls::{ExecutionError, McpToolCalls, ToolCallSchemaData};

fn schema(name: &str, description: &str) -> ToolCallSchemaData {
    ToolCallSchemaData {
        name: name.to_string(),
        description: description.to_string(),
        input: "{}".to_string(),
        output: "{}".to_string(),
    }
}

#[test]
fn session_ids_are_distinct() {
    let mut s = McpSessions::new();
    let mut seen = HashSet::new();
    for i in 0..10_000i64 {
        let id = s.generate_session("2025-03-26".to_string(), i);
        assert_eq!(id.len(), 36);
        assert!(seen.insert(id));
    }
    assert_eq!(s.len(), 10_000);
}

#[test]
fn subscribe_needs_a_session() {
    let mut s = McpSessions::new();
    assert!(s.subscribe_to_notifications("missing").is_none());
    let id = s.generate_session("v".to_string(), 1);
    assert!(s.subscribe_to_notifications(&id).is_some());
    assert!(s.remove_session(&id));
    assert!(s.subscribe_to_notifications(&id).is_none());
    assert!(!s.remove_session(&id));
}

#[test]
fn resubscribe_replaces_channel() {
    let mut s = McpSessions::new();
    let id = s.generate_session("v".to_string(), 1);
    let mut first = s.subscribe_to_notifications(&id).unwrap();
    let mut second = s.subscribe_to_notifications(&id).unwrap();
    assert_eq!(s.len(), 1);
    s.shutdown();
    assert_eq!(s.len(), 0);
    assert_eq!(second.try_recv().ok(), Some(McpSocketUpdateEvent::Shutdown));
    // the replaced channel's sender is gone: it is closed, with nothing in it
    assert!(first.try_recv().is_err());
}

#[test]
fn touch_updates_known_sessions_only() {
    let mut s = McpSessions::new();
    let id = s.generate_session("v".to_string(), 1);
    assert!(s.check_session_and_update_last_used(&id, 5));
    assert!(!s.check_session_and_update_last_used("other", 5));
}

#[test]
fn listing_twice_is_identical_and_ordered() {
    let mut t: McpToolCalls<u8> = McpToolCalls::new();
    t.add(schema("zeta", "z"), 1);
    t.add(schema("alpha", "a"), 2);
    t.add(schema("mid", "m"), 3);
    let first: Vec<(String, String)> = t.get_list().into_iter().map(|x| (x.name, x.description)).collect();
    let second: Vec<(String, String)> = t.get_list().into_iter().map(|x| (x.name, x.description)).collect();
    assert_eq!(first, second);
    let names: Vec<&str> = first.iter().map(|x| x.0.as_str()).collect();
    assert_eq!(names, vec!["alpha", "mid", "zeta"]);
}

#[test]
fn registering_a_name_twice_replaces() {
    let mut t: McpToolCalls<u8> = McpToolCalls::new();
    t.add(schema("sql", "old"), 1);
    t.add(schema("sql", "new"), 2);
    assert_eq!(t.len(), 1);
    let list = t.get_list();
    assert_eq!(list[0].description, "new");
    let i = t.execute("sql").ok().unwrap();
    assert_eq!(*t.handler(i), 2);
}

#[test]
fn prefix_names_sort_first() {
    let mut t: McpToolCalls<u8> = McpToolCalls::new();
    t.add(schema("ab", ""), 1);
    t.add(schema("a", ""), 2);
    t.add(schema("B", ""), 3);
    let names: Vec<String> = t.get_list().into_iter().map(|x| x.name).collect();
    assert_eq!(names, vec!["B", "a", "ab"]);
    assert_eq!(t.find("ab"), Some(2));
}

#[test]
fn unknown_tool_error() {
    let t: McpToolCalls<u8> = McpToolCalls::new();
    match t.execute("x") {
        Err(e) => {
            assert!(matches!(e, ExecutionError::ToolNotFound(_)));
            assert_eq!(e.message(), "Tool call with name x is not found");
        }
        Ok(_) => panic!("found a tool in an empty registry"),
    }
}

#[test]
fn stream_loop_steps() {
    assert_eq!(stream_step(None), StreamStep::Stop);
    assert_eq!(stream_step(Some(McpSocketUpdateEvent::Shutdown)), StreamStep::Stop);
    assert!(McpSocketUpdateEvent::Shutdown.is_shutdown());
}

#[test]
fn subscribed_sessions_are_listed() {
    let mut s = McpSessions::new();
    let a = s.generate_session("v".to_string(), 1);
    let _b = s.generate_session("v".to_string(), 1);
    let c = s.generate_session("v".to_string(), 1);
    assert!(s.subscribed_sessions().is_empty());
    let _ra = s.subscribe_to_notifications(&a).unwrap();
    let _rc = s.subscribe_to_notifications(&c).unwrap();
    assert_eq!(s.subscribed_sessions(), vec![0, 2]);
}
