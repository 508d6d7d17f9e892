//! Data and copy of the teleport resume flow around the session picker.
use vstd::prelude::*;
use crate::text::{push_str, string_from_chars};

verus! {

/// Where a teleport resume was started from.
#[derive(Clone, Copy, Debug, Default, PartialEq, Eq)]
pub enum TeleportSource {
    #[default]
    CliArg,
    LocalCommand,
}

impl TeleportSource {
    /// The name this source carries in analytics events.
    pub fn as_official_str(self) -> (r: &'static str)
        ensures
            r@ == (match self {
                TeleportSource::CliArg => "cliArg"@,
                TeleportSource::LocalCommand => "localCommand"@,
            }),
    {
        match self {
            TeleportSource::CliArg => "cliArg",
            TeleportSource::LocalCommand => "localCommand",
        }
    }
}

/// A failed resume, as shown to the user.
#[derive(Clone, Debug, Default, PartialEq, Eq)]
pub struct TeleportResumeError {
    pub message: String,
    pub formatted_message: Option<String>,
    pub is_operation_error: bool,
}

/// The title and detail lines shown while the session titled `session_title`
/// is being resumed.
pub fn teleport_resume_loading_lines(session_title: &str) -> (r: (String, String))
    ensures
        r.0@ == "Resuming session…"@,
        r.1@ == "Loading \""@ + session_title@ + "\"…"@,
{
    let mut title: Vec<char> = Vec::new();
    push_str(&mut title, "Resuming session…");
    let mut detail: Vec<char> = Vec::new();
    push_str(&mut detail, "Loading \"");
    push_str(&mut detail, session_title);
    push_str(&mut detail, "\"…");
    assert(title@ =~= "Resuming session…"@);
    (string_from_chars(&title), string_from_chars(&detail))
}

} // verus!
