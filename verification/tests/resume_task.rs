use cometix::resume_task::{
    classify_lowercase_message, determine_resume_task_error_type, filter_sessions_for_repo,
    resume_task_error_guidance_lines, resume_task_max_visible_options, resume_task_ready_layout,
    resume_task_scroll_position_text, resume_task_session_options, resume_task_table_header,
    resume_task_time_string_at, resume_task_time_string_from_parsed, session_options_from_times,
    sort_sessions_by_keys, sort_sessions_newest_first, CodeSession, CodeSessionRepo,
    ResumeTaskLoadErrorType, SelectOptionData,
};

fn session(id: &str, title: &str, updated_at: &str, repo: Option<(&str, &str)>) -> CodeSession {
    CodeSession {
        id: id.to_string(),
        title: title.to_string(),
        updated_at: updated_at.to_string(),
        repo: repo.map(|(owner, name)| CodeSessionRepo {
            owner_login: owner.to_string(),
            name: name.to_string(),
            default_branch: None,
        }),
    }
}

fn ids(sessions: &[CodeSession]) -> Vec<&str> {
    sessions.iter().map(|s| s.id.as_str()).collect()
}

#[test]
fn resume_task_error_type_detection_matches_official_order() {
    assert_eq!(
        determine_resume_task_error_type("network timeout"),
        ResumeTaskLoadErrorType::Network
    );
    assert_eq!(
        determine_resume_task_error_type("403 not authenticated token"),
        ResumeTaskLoadErrorType::Auth
    );
    assert_eq!(
        determine_resume_task_error_type("API rate limit 529"),
        ResumeTaskLoadErrorType::Api
    );
    assert_eq!(
        determine_resume_task_error_type("unknown failure"),
        ResumeTaskLoadErrorType::Other
    );
}

#[test]
fn resume_task_filters_and_sorts_sessions_like_official_loader() {
    let sessions = vec![
        session(
            "old",
            "Old",
            "2026-01-01T00:00:00Z",
            Some(("acme", "rocket")),
        ),
        session(
            "new",
            "New",
            "2026-01-03T00:00:00Z",
            Some(("acme", "rocket")),
        ),
        session(
            "other",
            "Other",
            "2026-01-02T00:00:00Z",
            Some(("other", "repo")),
        ),
    ];
    let filtered = filter_sessions_for_repo(&sessions, Some("acme/rocket"));
    assert_eq!(filtered.len(), 2);
    let sorted = sort_sessions_newest_first(&filtered);
    assert_eq!(
        sorted.iter().map(|s| s.id.as_str()).collect::<Vec<_>>(),
        vec!["new", "old"]
    );
}

#[test]
fn resume_task_max_visible_options_matches_official_embedded_and_fullscreen_math() {
    assert_eq!(resume_task_max_visible_options(20, 30, true), 5);
    assert_eq!(resume_task_max_visible_options(20, 12, true), 1);
    assert_eq!(resume_task_max_visible_options(20, 20, false), 12);
    assert_eq!(resume_task_max_visible_options(0, 20, false), 1);
}

#[test]
fn resume_task_session_options_pad_updated_column() {
    let now_ms = chrono::DateTime::parse_from_rfc3339("2026-01-03T00:00:00Z")
        .unwrap()
        .timestamp_millis();
    let sessions = vec![
        session("a", "Alpha", "2026-01-02T23:59:00Z", None),
        session("b", "Beta", "2026-01-01T00:00:00Z", None),
    ];
    let options = resume_task_session_options(&sessions, now_ms);
    assert_eq!(options[0].value, "a");
    assert!(
        options[0].label.contains("1m ago   Alpha"),
        "label={}",
        options[0].label
    );
    assert!(
        options[1].label.contains("2d ago   Beta"),
        "label={}",
        options[1].label
    );
}

#[test]
fn error_type_markers_are_case_insensitive() {
    assert_eq!(
        determine_resume_task_error_type("NETWORK unreachable"),
        ResumeTaskLoadErrorType::Network
    );
    assert_eq!(
        determine_resume_task_error_type("Please run /LOGIN"),
        ResumeTaskLoadErrorType::Auth
    );
    assert_eq!(
        determine_resume_task_error_type("Internal Server Error 500"),
        ResumeTaskLoadErrorType::Api
    );
}

#[test]
fn error_type_checks_network_before_auth_before_api() {
    assert_eq!(
        classify_lowercase_message("fetch failed: auth token expired"),
        ResumeTaskLoadErrorType::Network
    );
    assert_eq!(
        classify_lowercase_message("permission denied by api"),
        ResumeTaskLoadErrorType::Auth
    );
    assert_eq!(
        classify_lowercase_message("hit the rate limit"),
        ResumeTaskLoadErrorType::Api
    );
    assert_eq!(classify_lowercase_message(""), ResumeTaskLoadErrorType::Other);
    // the classifier itself does not fold case
    assert_eq!(classify_lowercase_message("NETWORK"), ResumeTaskLoadErrorType::Other);
}

#[test]
fn load_error_kinds_keep_their_official_names() {
    assert_eq!(ResumeTaskLoadErrorType::Network.as_official_str(), "network");
    assert_eq!(ResumeTaskLoadErrorType::Auth.as_official_str(), "auth");
    assert_eq!(ResumeTaskLoadErrorType::Api.as_official_str(), "api");
    assert_eq!(ResumeTaskLoadErrorType::Other.as_official_str(), "other");
}

#[test]
fn error_guidance_lines_for_each_kind() {
    let brand = "Nova";
    assert_eq!(
        resume_task_error_guidance_lines(ResumeTaskLoadErrorType::Network, brand),
        vec!["Check your internet connection"]
    );
    assert_eq!(
        resume_task_error_guidance_lines(ResumeTaskLoadErrorType::Auth, brand),
        vec![
            "Teleport requires a Nova account",
            "Run /login and select \"Nova account with subscription\"",
        ]
    );
    assert_eq!(
        resume_task_error_guidance_lines(ResumeTaskLoadErrorType::Api, brand),
        vec!["Sorry, Nova encountered an error"]
    );
    assert_eq!(
        resume_task_error_guidance_lines(ResumeTaskLoadErrorType::Other, brand),
        vec!["Sorry, Nova Code encountered an error"]
    );
}

#[test]
fn filter_without_repo_keeps_every_session() {
    let sessions = vec![
        session("a", "A", "", None),
        session("b", "B", "", Some(("o", "r"))),
    ];
    assert_eq!(filter_sessions_for_repo(&sessions, None), sessions);
}

#[test]
fn filter_drops_sessions_without_repo_and_near_misses() {
    let sessions = vec![
        session("none", "A", "", None),
        session("swapped", "B", "", Some(("r", "o"))),
        session("hit", "C", "", Some(("o", "r"))),
        session("prefix", "D", "", Some(("o", "r2"))),
    ];
    let kept = filter_sessions_for_repo(&sessions, Some("o/r"));
    assert_eq!(ids(&kept), vec!["hit"]);
}

#[test]
fn sort_breaks_ties_by_id_and_puts_unparsed_times_last() {
    let sessions = vec![
        session("zeta", "Z", "2026-01-02T00:00:00Z", None),
        session("bad", "X", "yesterday", None),
        session("alpha", "A", "2026-01-02T00:00:00Z", None),
        session("late", "L", "2026-01-02T01:00:00+02:00", None),
    ];
    let sorted = sort_sessions_newest_first(&sessions);
    // 01:00+02:00 is 23:00 of the day before, so it is the oldest parsed time
    assert_eq!(ids(&sorted), vec!["alpha", "zeta", "late", "bad"]);
}

#[test]
fn sort_keeps_equal_sessions_in_input_order() {
    let sessions = vec![
        session("same", "first", "2026-01-02T00:00:00Z", None),
        session("same", "second", "2026-01-02T00:00:00Z", None),
    ];
    let sorted = sort_sessions_newest_first(&sessions);
    assert_eq!(sorted[0].title, "first");
    assert_eq!(sorted[1].title, "second");
}

#[test]
fn sort_by_given_keys() {
    let sessions = vec![
        session("a", "A", "", None),
        session("b", "B", "", None),
        session("c", "C", "", None),
    ];
    let sorted = sort_sessions_by_keys(&sessions, &vec![Some(5), None, Some(9)]);
    assert_eq!(ids(&sorted), vec!["c", "a", "b"]);
    let sorted = sort_sessions_by_keys(&sessions, &vec![None, None, None]);
    assert_eq!(ids(&sorted), vec!["a", "b", "c"]);
}

#[test]
fn time_string_reads_rfc3339_or_keeps_text() {
    let now_ms = chrono::DateTime::parse_from_rfc3339("2026-01-03T00:00:00Z")
        .unwrap()
        .timestamp_millis();
    assert_eq!(resume_task_time_string_at("2026-01-02T00:00:00Z", now_ms), "1d ago");
    assert_eq!(resume_task_time_string_at("last week", now_ms), "last week");
    assert_eq!(resume_task_time_string_from_parsed("x", Some(now_ms - 7_200_000), now_ms), "2h ago");
    assert_eq!(resume_task_time_string_from_parsed("x", None, now_ms), "x");
}

#[test]
fn session_options_width_counts_bytes_and_pads_characters() {
    let sessions = vec![session("a", "Alpha", "", None), session("b", "Beta", "", None)];
    let times = vec!["ééééé".to_string(), "1m ago".to_string()];
    let options = session_options_from_times(&sessions, &times);
    assert_eq!(options[0].label, "ééééé       Alpha");
    assert_eq!(options[1].label, "1m ago      Beta");
    assert_eq!(options[1].value, "b");
    let short = session_options_from_times(&sessions, &vec!["x".to_string(), "y".to_string()]);
    assert_eq!(short[0].label, "x        Alpha");
}

#[test]
fn ready_layout_clamps_focus_and_sizes_the_picker() {
    let layout = resume_task_ready_layout(20, 20, false, 30);
    assert_eq!(layout.max_visible, 12);
    assert!(layout.show_scroll_position);
    assert_eq!(layout.focused_index, 19);
    assert_eq!(layout.max_height, 19);
    let layout = resume_task_ready_layout(0, 20, false, 3);
    assert_eq!(layout.max_visible, 1);
    assert!(!layout.show_scroll_position);
    assert_eq!(layout.focused_index, 0);
    let layout = resume_task_ready_layout(3, 40, true, 1);
    assert_eq!(layout.max_visible, 3);
    assert_eq!(layout.focused_index, 1);
    assert_eq!(layout.max_height, 10);
}

#[test]
fn scroll_position_and_table_header_text() {
    assert_eq!(resume_task_scroll_position_text(2, 12), " (3 of 12)");
    let options = vec![
        SelectOptionData { label: "1d ago   Fix MCP".to_string(), value: "a".to_string() },
    ];
    assert_eq!(resume_task_table_header(&options), "Updated  Session Title");
    let wide = vec![
        SelectOptionData { label: "yesterday noon  Fix".to_string(), value: "a".to_string() },
    ];
    assert_eq!(resume_task_table_header(&wide), "Updated         Session Title");
    assert_eq!(resume_task_table_header(&[]), "Updated  Session Title");
}

#[test]
fn session_titles_line_up_when_times_are_ascii() {
    let sessions = vec![
        session("a", "Alpha", "", None),
        session("b", "Beta", "", None),
        session("c", "Gamma", "", None),
    ];
    let times = vec!["1m ago".to_string(), "in 3w".to_string(), "yesterday noon".to_string()];
    let options = session_options_from_times(&sessions, &times);
    let starts: Vec<usize> = options
        .iter()
        .zip(["Alpha", "Beta", "Gamma"])
        .map(|(option, title)| option.label.find(title).unwrap())
        .collect();
    assert_eq!(starts, vec![16, 16, 16]);
}

#[test]
fn newest_first_listing_never_puts_a_newer_session_after_an_older_one() {
    let sessions = vec![
        session("a", "A", "2026-01-01T00:00:00Z", None),
        session("b", "B", "garbage", None),
        session("c", "C", "2026-03-01T00:00:00Z", None),
        session("d", "D", "2026-02-01T00:00:00Z", None),
    ];
    let sorted = sort_sessions_newest_first(&sessions);
    assert_eq!(ids(&sorted), vec!["c", "d", "a", "b"]);
    assert_eq!(sorted.len(), sessions.len());
}

#[test]
fn max_visible_options_near_the_i32_edge() {
    // 2147483656 truncates to i32::MIN + 8: the full-screen arithmetic still fits
    assert_eq!(resume_task_max_visible_options(20, 2147483656, false), 1);
    // 2147483661 truncates to i32::MIN + 13: the embedded arithmetic still fits
    assert_eq!(resume_task_max_visible_options(20, 2147483661, true), 1);
    let layout = resume_task_ready_layout(4, 2147483656, false, 2);
    assert_eq!(layout.max_visible, 1);
    assert!(layout.show_scroll_position);
    assert_eq!(layout.focused_index, 2);
    assert_eq!(layout.max_height, 8);
}
