use cometix::teleport_resume_wrapper::{teleport_resume_loading_lines, TeleportSource};

#[test]
fn teleport_source_preserves_official_strings() {
    assert_eq!(TeleportSource::CliArg.as_official_str(), "cliArg");
    assert_eq!(
        TeleportSource::LocalCommand.as_official_str(),
        "localCommand"
    );
}

#[test]
fn teleport_resume_loading_lines_match_official_copy() {
    assert_eq!(
        teleport_resume_loading_lines("Fix MCP"),
        (
            "Resuming session…".to_string(),
            "Loading \"Fix MCP\"…".to_string()
        )
    );
}

#[test]
fn teleport_source_defaults_to_cli_argument() {
    assert_eq!(TeleportSource::default(), TeleportSource::CliArg);
}

#[test]
fn teleport_resume_loading_lines_keep_unicode_titles() {
    let (title, detail) = teleport_resume_loading_lines("Überarbeitung ✓");
    assert_eq!(title, "Resuming session…");
    assert_eq!(detail, "Loading \"Überarbeitung ✓\"…");
}
