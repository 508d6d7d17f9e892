use cometix::mcp_reconnect::{
    reconnect_error_from_status, reconnect_result_from_status, McpServerConnectionType,
};

#[test]
fn mcp_reconnect_results_match_official_safe_branches() {
    assert_eq!(
        reconnect_result_from_status("docs", None),
        "MCP server \"docs\" not found"
    );
    assert_eq!(
        reconnect_result_from_status("docs", Some(McpServerConnectionType::Connected)),
        "Successfully reconnected to docs"
    );
    assert_eq!(
        reconnect_result_from_status("docs", Some(McpServerConnectionType::NeedsAuth)),
        "docs requires authentication. Use /mcp to authenticate."
    );
    assert_eq!(
        reconnect_result_from_status("docs", Some(McpServerConnectionType::Failed)),
        "Failed to reconnect to docs"
    );
    assert_eq!(
        reconnect_error_from_status("docs", Some(McpServerConnectionType::NeedsAuth)),
        Some("docs requires authentication".to_string())
    );
    assert_eq!(
        reconnect_error_from_status("docs", Some(McpServerConnectionType::Connected)),
        None
    );
}

#[test]
fn reconnect_pending_and_disabled_report_failure() {
    for status in [McpServerConnectionType::Pending, McpServerConnectionType::Disabled] {
        assert_eq!(
            reconnect_result_from_status("git", Some(status)),
            "Failed to reconnect to git"
        );
        assert_eq!(
            reconnect_error_from_status("git", Some(status)),
            Some("Failed to reconnect to git".to_string())
        );
    }
    assert_eq!(
        reconnect_error_from_status("git", None),
        Some("MCP server \"git\" not found".to_string())
    );
}

#[test]
fn reconnect_error_is_absent_only_when_connected() {
    let all = [
        None,
        Some(McpServerConnectionType::Connected),
        Some(McpServerConnectionType::Failed),
        Some(McpServerConnectionType::NeedsAuth),
        Some(McpServerConnectionType::Pending),
        Some(McpServerConnectionType::Disabled),
    ];
    for status in all {
        let error = reconnect_error_from_status("srv", status);
        let result = reconnect_result_from_status("srv", status);
        assert_eq!(error.is_none(), status == Some(McpServerConnectionType::Connected));
        match status {
            Some(McpServerConnectionType::Connected) => {}
            Some(McpServerConnectionType::NeedsAuth) => {
                assert_eq!(result, format!("{}. Use /mcp to authenticate.", error.unwrap()));
            }
            _ => assert_eq!(Some(result), error),
        }
    }
}
