//! The decisions of the MCP server: which JSON-RPC method and which tool a
//! request names, the error it is answered with otherwise, and the counts
//! that the `parse_dxf` tool reports.

use vstd::prelude::*;

use crate::document::DxfDocument;
use crate::text::{push_char, text_eq};

verus! {

/// JSON-RPC 2.0: the method does not exist.
pub const METHOD_NOT_FOUND: i32 = -32601;

/// A tool call failed.
pub const TOOL_ERROR: i32 = -32000;

/// The request is not valid JSON.
pub const PARSE_ERROR: i32 = -32700;

/// The response could not be serialized.
pub const INTERNAL_ERROR: i32 = -32603;

/// The methods the server answers.
#[derive(Debug, Clone, Copy, PartialEq, Eq, Structural)]
pub enum Method {
    Initialize,
    ToolsList,
    ToolsCall,
    /// `notifications/initialized`: answered with an empty result.
    Initialized,
    NotFound,
}

pub open spec fn method_of(m: Seq<char>) -> Method {
    if m == "initialize"@ {
        Method::Initialize
    } else if m == "tools/list"@ {
        Method::ToolsList
    } else if m == "tools/call"@ {
        Method::ToolsCall
    } else if m == "notifications/initialized"@ {
        Method::Initialized
    } else {
        Method::NotFound
    }
}

/// The method that a request's `method` field names.
pub fn route_method(method: &str) -> (r: Method)
    ensures
        r == method_of(method@),
{
    if text_eq(method, "initialize") {
        Method::Initialize
    } else if text_eq(method, "tools/list") {
        Method::ToolsList
    } else if text_eq(method, "tools/call") {
        Method::ToolsCall
    } else if text_eq(method, "notifications/initialized") {
        Method::Initialized
    } else {
        Method::NotFound
    }
}

/// The tools the server offers.
#[derive(Debug, Clone, Copy, PartialEq, Eq, Structural)]
pub enum Tool {
    ParseDxf,
    ExtractFloorplan,
    Unknown,
}

pub open spec fn tool_of(name: Seq<char>) -> Tool {
    if name == "parse_dxf"@ {
        Tool::ParseDxf
    } else if name == "extract_floorplan"@ {
        Tool::ExtractFloorplan
    } else {
        Tool::Unknown
    }
}

/// The tool that a `tools/call` request names.
pub fn route_tool(name: &str) -> (t: Tool)
    ensures
        t == tool_of(name@),
{
    if text_eq(name, "parse_dxf") {
        Tool::ParseDxf
    } else if text_eq(name, "extract_floorplan") {
        Tool::ExtractFloorplan
    } else {
        Tool::Unknown
    }
}

/// A JSON-RPC error object.
#[derive(Debug, Clone)]
pub struct JsonRpcError {
    pub code: i32,
    pub message: String,
}

/// `prefix` followed by `tail`.
fn joined(prefix: &str, tail: &str) -> (r: String)
    ensures
        r@ == prefix@ + tail@,
{
    let mut r = prefix.to_owned();
    let n = tail.unicode_len();
    let mut i: usize = 0;
    while i < n
        invariant
            n == tail@.len(),
            i <= n,
            r@ == prefix@ + tail@.take(i as int),
        decreases n - i,
    {
        push_char(&mut r, tail.get_char(i));
        assert(tail@.take(i + 1) =~= tail@.take(i as int).push(tail@[i as int]));
        i = i + 1;
    }
    assert(tail@.take(n as int) =~= tail@);
    r
}

/// The answer to a method the server does not know.
pub fn method_not_found(method: &str) -> (e: JsonRpcError)
    ensures
        e.code == METHOD_NOT_FOUND,
        e.message@ == "method not found: "@ + method@,
{
    JsonRpcError { code: METHOD_NOT_FOUND, message: joined("method not found: ", method) }
}

/// The message for a tool the server does not offer.
pub fn unknown_tool_message(name: &str) -> (m: String)
    ensures
        m@ == "unknown tool: "@ + name@,
{
    joined("unknown tool: ", name)
}

/// What the `parse_dxf` tool reports of a parsed file.
#[derive(Debug, Clone, Copy, PartialEq, Eq, Structural)]
pub struct ParseCounts {
    pub entities: usize,
    pub blocks: usize,
    pub header_vars: usize,
    pub parse_warnings: usize,
}

pub fn parse_counts(doc: &DxfDocument) -> (c: ParseCounts)
    ensures
        c.entities == doc@.entities.len(),
        c.blocks == doc@.blocks.len(),
        c.header_vars == doc@.header.len(),
        c.parse_warnings == doc@.warnings.len(),
{
    ParseCounts {
        entities: doc.entities.len(),
        blocks: doc.blocks.len(),
        header_vars: doc.header.len(),
        parse_warnings: doc.parse_warnings.len(),
    }
}

} // verus!
