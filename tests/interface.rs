use std::sync::Arc;

use gopher_gateway::mcp::{tool_error_text, tool_not_found, McpError, McpHandler, McpMethod, Tool};
use gopher_gateway::router::Router;
use gopher_gateway::store::LocalStore;

#[test]
fn methods_are_classified() {
    assert_eq!(McpMethod::classify("initialize"), McpMethod::Initialize);
    assert_eq!(McpMethod::classify("tools/list"), McpMethod::ListTools);
    assert_eq!(McpMethod::classify("tools/call"), McpMethod::CallTool);
    assert_eq!(McpMethod::classify("ping"), McpMethod::Ping);
    assert_eq!(McpMethod::classify("notifications/initialized"), McpMethod::Notification);
    assert_eq!(McpMethod::classify("tools/other"), McpMethod::Unknown);
}

#[test]
fn tools_and_errors() {
    assert_eq!(Tool::from_name("gopher_search"), Some(Tool::Search));
    assert_eq!(Tool::from_name("gopher_publish"), None);
    let e = McpError::method_not_found("x/y");
    assert_eq!(e.code, -32601);
    assert_eq!(e.message, "Method not found: x/y");
    assert_eq!(McpError::invalid_params("Missing tool name").code, -32602);
    assert_eq!(tool_error_text(&tool_not_found("zap")), "Error: Tool not found: zap");
    let h = McpHandler::new(Arc::new(Router::new(LocalStore::new())));
    assert!(h.router.namespaces().is_empty());
}
