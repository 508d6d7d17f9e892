use cometix::resume_conversation::{
    apply_more_result, apply_replace_result, LogListing,
    filtered_logs, load_is_current, log_selector_max_height, more_request_is_live,
    parse_pr_identifier, reload_request, resume_conversation_screen, toggle_all_projects_request,
    ResumeConversationScreen, ResumeFilterByPr, SessionLogLoadRequest, SessionSummary,
};

fn session(id: &str, pr_number: Option<u64>, is_sidechain: bool) -> SessionSummary {
    SessionSummary {
        session_id: id.to_string(),
        display: format!("Session {id}"),
        pr_number,
        is_sidechain,
        project_path: Some("/repo".to_string()),
        file_path: format!("/repo/{id}.jsonl"),
        ..SessionSummary::default()
    }
}

fn ids(logs: &[SessionSummary]) -> Vec<&str> {
    logs.iter().map(|log| log.session_id.as_str()).collect()
}

#[test]
fn parse_pr_identifier_matches_official_number_and_github_url_forms() {
    assert_eq!(parse_pr_identifier("42"), Some(42));
    assert_eq!(
        parse_pr_identifier("https://github.com/acme/rocket/pull/123"),
        Some(123)
    );
    assert_eq!(parse_pr_identifier("0"), None);
    assert_eq!(parse_pr_identifier("not-a-pr"), None);
    assert_eq!(ResumeFilterByPr::from_cli_value(""), ResumeFilterByPr::Any);
    assert_eq!(
        ResumeFilterByPr::from_cli_value("42"),
        ResumeFilterByPr::Number(42)
    );
    assert_eq!(
        ResumeFilterByPr::from_cli_value("not-a-pr"),
        ResumeFilterByPr::Value("not-a-pr".to_string())
    );
}

#[test]
fn filter_resume_logs_matches_official_sidechain_and_pr_filters() {
    let logs = vec![
        session("a", Some(7), false),
        session("b", Some(9), false),
        session("c", None, false),
        session("d", Some(7), true),
    ];

    assert_eq!(
        filtered_logs(&logs, None)
            .iter()
            .map(|log| log.session_id.as_str())
            .collect::<Vec<_>>(),
        vec!["a", "b", "c"]
    );
    assert_eq!(
        filtered_logs(&logs, Some(&ResumeFilterByPr::Any))
            .iter()
            .map(|log| log.session_id.as_str())
            .collect::<Vec<_>>(),
        vec!["a", "b"]
    );
    assert_eq!(
        filtered_logs(&logs, Some(&ResumeFilterByPr::Number(7)))
            .iter()
            .map(|log| log.session_id.as_str())
            .collect::<Vec<_>>(),
        vec!["a"]
    );
    assert_eq!(
        filtered_logs(
            &logs,
            Some(&ResumeFilterByPr::Value(
                "https://github.com/org/repo/pull/9".to_string()
            ))
        )
        .iter()
        .map(|log| log.session_id.as_str())
        .collect::<Vec<_>>(),
        vec!["b"]
    );
}

#[test]
fn pr_identifier_edge_forms() {
    assert_eq!(parse_pr_identifier("  17\t\n"), Some(17));
    assert_eq!(parse_pr_identifier("+8"), Some(8));
    assert_eq!(parse_pr_identifier("-8"), None);
    assert_eq!(parse_pr_identifier(""), None);
    assert_eq!(parse_pr_identifier("\u{3000}5\u{a0}"), Some(5));
    assert_eq!(parse_pr_identifier("18446744073709551615"), Some(u64::MAX));
    assert_eq!(parse_pr_identifier("18446744073709551616"), None);
    assert_eq!(parse_pr_identifier("github.com/o/r/pull/77/files"), Some(77));
    assert_eq!(parse_pr_identifier("github.com/o/r/pull/0"), None);
    assert_eq!(parse_pr_identifier("github.com/o/r/pull/abc"), None);
    assert_eq!(parse_pr_identifier("github.com/o/r/issues/5"), None);
    assert_eq!(parse_pr_identifier("gitlab.com/o/r/pull/5"), None);
    assert_eq!(
        parse_pr_identifier("https://github.com/o/r/pull/99999999999999999999"),
        None
    );
}

#[test]
fn cli_values_become_filters() {
    assert_eq!(ResumeFilterByPr::from_cli_value("   "), ResumeFilterByPr::Any);
    assert_eq!(
        ResumeFilterByPr::from_cli_value(" https://github.com/a/b/pull/3 "),
        ResumeFilterByPr::Number(3)
    );
    assert_eq!(
        ResumeFilterByPr::from_cli_value(" 0 "),
        ResumeFilterByPr::Value(" 0 ".to_string())
    );
}

#[test]
fn cli_filter_lists_what_the_raw_value_lists() {
    let logs = vec![
        session("a", Some(3), false),
        session("b", None, false),
        session("c", Some(4), false),
    ];
    for value in ["3", "https://github.com/a/b/pull/4", "not-a-pr", "0"] {
        let parsed = ResumeFilterByPr::from_cli_value(value);
        let raw = ResumeFilterByPr::Value(value.to_string());
        assert_eq!(
            filtered_logs(&logs, Some(&parsed)),
            filtered_logs(&logs, Some(&raw)),
            "value={value}"
        );
    }
    // a blank value is where the two part ways
    assert_eq!(ids(&filtered_logs(&logs, Some(&ResumeFilterByPr::from_cli_value("")))), vec!["a", "c"]);
    assert_eq!(
        ids(&filtered_logs(&logs, Some(&ResumeFilterByPr::Value(String::new())))),
        vec!["a", "b", "c"]
    );
}

#[test]
fn value_filter_naming_no_pr_filters_nothing_but_sidechains() {
    let logs = vec![session("a", Some(1), false), session("b", None, true)];
    assert_eq!(
        ids(&filtered_logs(&logs, Some(&ResumeFilterByPr::Value("main".to_string())))),
        vec!["a"]
    );
}

#[test]
fn chooser_screen_follows_the_official_priority() {
    assert_eq!(resume_conversation_screen(true, true, true, true, false, true, false), ResumeConversationScreen::Repl);
    assert_eq!(resume_conversation_screen(false, true, true, true, false, true, false), ResumeConversationScreen::ResumeError);
    assert_eq!(
        resume_conversation_screen(false, false, true, true, false, true, false),
        ResumeConversationScreen::CrossProjectCommand
    );
    assert_eq!(
        resume_conversation_screen(false, false, false, true, false, true, false),
        ResumeConversationScreen::LoadingConversations
    );
    assert_eq!(
        resume_conversation_screen(false, false, false, true, true, true, true),
        ResumeConversationScreen::ResumingConversation
    );
    assert_eq!(
        resume_conversation_screen(false, false, false, true, true, false, false),
        ResumeConversationScreen::NoConversations
    );
    assert_eq!(resume_conversation_screen(false, false, false, false, true, false, true), ResumeConversationScreen::LogSelector);
}

#[test]
fn load_requests_and_their_generations() {
    assert_eq!(
        reload_request(true, 4),
        (5, SessionLogLoadRequest::Replace { show_all: true, generation: 5 })
    );
    assert_eq!(
        reload_request(false, u64::MAX),
        (0, SessionLogLoadRequest::Replace { show_all: false, generation: 0 })
    );
    assert_eq!(
        toggle_all_projects_request(false, 1),
        (true, 2, SessionLogLoadRequest::Replace { show_all: true, generation: 2 })
    );
    assert!(more_request_is_live(2, Some(2), 2, 3, 10));
    assert!(!more_request_is_live(2, None, 2, 3, 10));
    assert!(!more_request_is_live(2, Some(1), 2, 3, 10));
    assert!(!more_request_is_live(2, Some(2), 3, 3, 10));
    assert!(!more_request_is_live(2, Some(2), 2, 10, 10));
    assert!(load_is_current(7, 7));
    assert!(!load_is_current(6, 7));
}

#[test]
fn selector_height_is_one_more_than_the_rows() {
    assert_eq!(log_selector_max_height(0), 1);
    assert_eq!(log_selector_max_height(24), 25);
    assert_eq!(log_selector_max_height(u16::MAX), u16::MAX as usize);
}

#[test]
fn filtered_indices_point_at_the_filtered_logs() {
    let logs = vec![
        session("a", Some(7), true),
        session("b", Some(7), false),
        session("c", None, false),
        session("d", Some(7), false),
    ];
    let filter = ResumeFilterByPr::Number(7);
    let indices = cometix::resume_conversation::filtered_log_indices(&logs, Some(&filter));
    assert_eq!(indices, vec![1, 3]);
    let picked: Vec<SessionSummary> = indices.iter().map(|&i| logs[i].clone()).collect();
    assert_eq!(picked, filtered_logs(&logs, Some(&filter)));
    assert!(filtered_logs(&logs, None).iter().all(|log| !log.is_sidechain));
}

#[test]
fn finished_full_loads_apply_only_when_current() {
    let listing = || LogListing { logs: vec!["old"], stored: Some((1u64, 10u32)), loading: true, loading_more: false };
    let next = apply_replace_result(listing(), Some((vec!["a", "b"], 20u32)), 2, 2);
    assert_eq!(next.logs, vec!["a", "b"]);
    assert_eq!(next.stored, Some((2, 20)));
    assert!(!next.loading);
    let stale = apply_replace_result(listing(), Some((vec!["a"], 20u32)), 1, 2);
    assert_eq!(stale.logs, vec!["old"]);
    assert_eq!(stale.stored, Some((1, 10)));
    assert!(stale.loading);
    let failed = apply_replace_result(listing(), None, 2, 2);
    assert_eq!(failed.logs, vec!["old"]);
    assert_eq!(failed.stored, Some((1, 10)));
    assert!(!failed.loading);
}

#[test]
fn finished_enrichments_append_only_new_current_logs() {
    let listing = || LogListing { logs: vec!["a"], stored: None, loading: false, loading_more: true };
    let next = apply_more_result(listing(), Some((7u32, vec!["b", "c"])), 3, 3, 3);
    assert_eq!(next.logs, vec!["a", "b", "c"]);
    assert_eq!(next.stored, Some((3, 7)));
    assert!(!next.loading_more);
    let empty = apply_more_result(listing(), Some((8u32, Vec::new())), 3, 3, 3);
    assert_eq!(empty.logs, vec!["a"]);
    assert_eq!(empty.stored, Some((3, 8)));
    let stale = apply_more_result(listing(), Some((9u32, vec!["z"])), 2, 2, 3);
    assert_eq!(stale.logs, vec!["a"]);
    assert_eq!(stale.stored, Some((2, 9)));
    let failed = apply_more_result(listing(), None, 3, 3, 3);
    assert_eq!(failed.logs, vec!["a"]);
    assert_eq!(failed.stored, None);
    assert!(!failed.loading_more);
}
