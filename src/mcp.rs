//! The decisions of the tool-calling interface: which method a request
//! names, which tool a call names, and the errors it answers with. Framing
//! requests and responses as JSON is the caller's.
use vstd::prelude::*;
use vstd::string::StringExecFns;
use crate::router::Router;
use crate::text::{concat, text_starts_with};
use std::sync::Arc;

verus! {

/// An error answer: a JSON-RPC code and a message.
#[derive(Debug)]
pub struct McpError {
    pub code: i32,
    pub message: String,
}

/// The code of a request for a method that does not exist.
pub const METHOD_NOT_FOUND: i32 = -32601;

/// The code of a request whose parameters are unusable.
pub const INVALID_PARAMS: i32 = -32602;

/// The methods a request can name.
#[derive(Debug, Clone, Copy, PartialEq, Eq, Structural)]
pub enum McpMethod {
    Initialize,
    ListTools,
    CallTool,
    Ping,
    /// A notification, which gets no answer.
    Notification,
    Unknown,
}

pub open spec fn method_named(m: Seq<char>) -> McpMethod {
    if m == "initialize"@ {
        McpMethod::Initialize
    } else if m == "tools/list"@ {
        McpMethod::ListTools
    } else if m == "tools/call"@ {
        McpMethod::CallTool
    } else if m == "ping"@ {
        McpMethod::Ping
    } else if "notifications/"@.is_prefix_of(m) {
        McpMethod::Notification
    } else {
        McpMethod::Unknown
    }
}

impl McpMethod {
    /// The method a request names.
    pub fn classify(method: &str) -> (r: McpMethod)
        ensures
            r == method_named(method@),
    {
        let m = String::from_str(method);
        if m == String::from_str("initialize") {
            McpMethod::Initialize
        } else if m == String::from_str("tools/list") {
            McpMethod::ListTools
        } else if m == String::from_str("tools/call") {
            McpMethod::CallTool
        } else if m == String::from_str("ping") {
            McpMethod::Ping
        } else if text_starts_with(method, "notifications/") {
            McpMethod::Notification
        } else {
            McpMethod::Unknown
        }
    }
}

/// The tools that can be called.
#[derive(Debug, Clone, Copy, PartialEq, Eq, Structural)]
pub enum Tool {
    Browse,
    Fetch,
    Search,
}

pub open spec fn tool_named(name: Seq<char>) -> Option<Tool> {
    if name == "gopher_browse"@ {
        Some(Tool::Browse)
    } else if name == "gopher_fetch"@ {
        Some(Tool::Fetch)
    } else if name == "gopher_search"@ {
        Some(Tool::Search)
    } else {
        None
    }
}

impl Tool {
    /// The tool a call names, if it is one.
    pub fn from_name(name: &str) -> (r: Option<Tool>)
        ensures
            r == tool_named(name@),
    {
        let n = String::from_str(name);
        if n == String::from_str("gopher_browse") {
            Some(Tool::Browse)
        } else if n == String::from_str("gopher_fetch") {
            Some(Tool::Fetch)
        } else if n == String::from_str("gopher_search") {
            Some(Tool::Search)
        } else {
            None
        }
    }
}

impl McpError {
    /// The answer to a request for an unknown method.
    pub fn method_not_found(method: &str) -> (r: McpError)
        ensures
            r.code == METHOD_NOT_FOUND,
            r.message@ == "Method not found: "@ + method@,
    {
        McpError { code: METHOD_NOT_FOUND, message: concat("Method not found: ", method) }
    }

    /// The answer to a tool call whose parameters are unusable.
    pub fn invalid_params(message: &str) -> (r: McpError)
        ensures
            r.code == INVALID_PARAMS,
            r.message@ == message@,
    {
        McpError { code: INVALID_PARAMS, message: String::from_str(message) }
    }
}

/// The text of a tool call's failure.
pub fn tool_error_text(detail: &str) -> (r: String)
    ensures
        r@ == "Error: "@ + detail@,
{
    concat("Error: ", detail)
}

/// The detail of a call to a tool that does not exist.
pub fn tool_not_found(name: &str) -> (r: String)
    ensures
        r@ == "Tool not found: "@ + name@,
{
    concat("Tool not found: ", name)
}

/// Serves tool calls against a router.
pub struct McpHandler {
    pub router: Arc<Router>,
}

impl McpHandler {
    pub fn new(router: Arc<Router>) -> (r: McpHandler)
        ensures
            r.router == router,
    {
        McpHandler { router }
    }
}

} // verus!
