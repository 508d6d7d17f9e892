//! What a manual MCP server reconnect reports, given the connection status
//! the server ended up in.
use vstd::prelude::*;
use crate::text::{push_str, string_from_chars};

verus! {

/// The connection status of an MCP server.
#[derive(Clone, Copy, Debug, PartialEq, Eq)]
pub enum McpServerConnectionType {
    Connected,
    Failed,
    NeedsAuth,
    Pending,
    Disabled,
}

/// The message handed back when a reconnect finishes: `None` stands for a
/// server that is not configured at all.
pub open spec fn reconnect_result_text(server_name: Seq<char>, status: Option<McpServerConnectionType>) -> Seq<char> {
    match status {
        None => "MCP server \""@ + server_name + "\" not found"@,
        Some(McpServerConnectionType::Connected) => "Successfully reconnected to "@ + server_name,
        Some(McpServerConnectionType::NeedsAuth) => server_name
            + " requires authentication. Use /mcp to authenticate."@,
        Some(_) => "Failed to reconnect to "@ + server_name,
    }
}

/// The error shown after a reconnect; a connected server has none.
pub open spec fn reconnect_error_text(server_name: Seq<char>, status: Option<McpServerConnectionType>) -> Option<Seq<char>> {
    match status {
        None => Some("MCP server \""@ + server_name + "\" not found"@),
        Some(McpServerConnectionType::Connected) => None,
        Some(McpServerConnectionType::NeedsAuth) => Some(server_name + " requires authentication"@),
        Some(_) => Some("Failed to reconnect to "@ + server_name),
    }
}

/// The message a finished reconnect reports for `server_name`.
pub fn reconnect_result_from_status(server_name: &str, status: Option<McpServerConnectionType>) -> (r: String)
    ensures
        r@ == reconnect_result_text(server_name@, status),
{
    let mut v: Vec<char> = Vec::new();
    match status {
        None => {
            push_str(&mut v, "MCP server \"");
            push_str(&mut v, server_name);
            push_str(&mut v, "\" not found");
        },
        Some(McpServerConnectionType::Connected) => {
            push_str(&mut v, "Successfully reconnected to ");
            push_str(&mut v, server_name);
        },
        Some(McpServerConnectionType::NeedsAuth) => {
            push_str(&mut v, server_name);
            push_str(&mut v, " requires authentication. Use /mcp to authenticate.");
        },
        Some(McpServerConnectionType::Pending)
        | Some(McpServerConnectionType::Failed)
        | Some(McpServerConnectionType::Disabled) => {
            push_str(&mut v, "Failed to reconnect to ");
            push_str(&mut v, server_name);
        },
    }
    assert(v@ =~= reconnect_result_text(server_name@, status));
    string_from_chars(&v)
}

/// The error a finished reconnect shows for `server_name`, if any.
pub fn reconnect_error_from_status(server_name: &str, status: Option<McpServerConnectionType>) -> (r: Option<String>)
    ensures
        match reconnect_error_text(server_name@, status) {
            None => r is None,
            Some(text) => r matches Some(s) && s@ == text,
        },
{
    let mut v: Vec<char> = Vec::new();
    match status {
        None => {
            push_str(&mut v, "MCP server \"");
            push_str(&mut v, server_name);
            push_str(&mut v, "\" not found");
        },
        Some(McpServerConnectionType::Connected) => {
            return None;
        },
        Some(McpServerConnectionType::NeedsAuth) => {
            push_str(&mut v, server_name);
            push_str(&mut v, " requires authentication");
        },
        Some(McpServerConnectionType::Pending)
        | Some(McpServerConnectionType::Failed)
        | Some(McpServerConnectionType::Disabled) => {
            push_str(&mut v, "Failed to reconnect to ");
            push_str(&mut v, server_name);
        },
    }
    assert(reconnect_error_text(server_name@, status) == Some(v@));
    Some(string_from_chars(&v))
}

/// A reconnect reports an error exactly when it did not end connected, and
/// then the failure message it reports is the error itself, except for a
/// server that needs authentication, whose report adds how to authenticate.
pub proof fn lemma_reconnect_error_matches_result(server_name: Seq<char>, status: Option<McpServerConnectionType>)
    ensures
        reconnect_error_text(server_name, status) is None <==> status == Some(McpServerConnectionType::Connected),
        status != Some(McpServerConnectionType::NeedsAuth) && status != Some(McpServerConnectionType::Connected)
            ==> reconnect_error_text(server_name, status) == Some(reconnect_result_text(server_name, status)),
        status == Some(McpServerConnectionType::NeedsAuth) ==> reconnect_result_text(server_name, status)
            == reconnect_error_text(server_name, status).unwrap() + ". Use /mcp to authenticate."@,
{
    reveal_strlit(" requires authentication. Use /mcp to authenticate.");
    reveal_strlit(" requires authentication");
    reveal_strlit(". Use /mcp to authenticate.");
    if status == Some(McpServerConnectionType::NeedsAuth) {
        assert(" requires authentication. Use /mcp to authenticate."@ =~= " requires authentication"@
            + ". Use /mcp to authenticate."@);
        assert(reconnect_result_text(server_name, status) =~= reconnect_error_text(server_name, status).unwrap()
            + ". Use /mcp to authenticate."@);
    }
}

} // verus!
