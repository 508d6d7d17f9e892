//! The `--resume` conversation chooser: pull-request filters over the saved
//! session logs, and the decisions the chooser takes between renders.
use vstd::prelude::*;
use crate::text::{
    chars_of, find_chars, find_from, lemma_find_from, leading_digits, parse_u64,
    parse_u64_chars, subvec, take_leading_digits, trim, trim_chars,
};

verus! {

// ---------------------------------------------------------------------------
// Pull-request identifiers
// ---------------------------------------------------------------------------

/// A parsed number, kept only when it is positive.
pub open spec fn positive(n: Option<u64>) -> Option<u64> {
    match n {
        Some(k) => if k > 0 {
            Some(k)
        } else {
            None
        },
        None => None,
    }
}

/// The pull-request number of a GitHub URL: the digits right after the first
/// `/pull/` that follows the first `github.com/`.
pub open spec fn pull_request_url_number(s: Seq<char>) -> Option<u64> {
    match find_from(s, "github.com/"@, 0) {
        None => None,
        Some(i) => {
            let path = s.subrange(i + "github.com/"@.len(), s.len() as int);
            match find_from(path, "/pull/"@, 0) {
                None => None,
                Some(j) => {
                    let digits = leading_digits(
                        path.subrange(j + "/pull/"@.len(), path.len() as int),
                    );
                    if digits.len() == 0 {
                        None
                    } else {
                        positive(parse_u64(digits))
                    }
                },
            }
        },
    }
}

/// The pull request that `value` names: a positive number on its own, or
/// else a GitHub pull-request URL; white space around it is ignored.
pub open spec fn pr_identifier(value: Seq<char>) -> Option<u64> {
    let t = trim(value);
    if positive(parse_u64(t)) is Some {
        positive(parse_u64(t))
    } else {
        pull_request_url_number(t)
    }
}

/// Reads a pull request number from `value`: `42`, or a URL such as
/// `https://github.com/org/repo/pull/42`.
pub fn parse_pr_identifier(value: &str) -> (r: Option<u64>)
    ensures
        r == pr_identifier(value@),
        r matches Some(n) ==> n > 0,
{
    let all = chars_of(value);
    let t = trim_chars(&all);
    if let Some(number) = parse_u64_chars(&t) {
        if number > 0 {
            return Some(number);
        }
    }
    let marker = chars_of("github.com/");
    proof {
        lemma_find_from(t@, marker@, 0);
    }
    let i = match find_chars(&t, &marker) {
        None => {
            return None;
        },
        Some(i) => i,
    };
    let path = subvec(&t, i + marker.len(), t.len());
    let pull = chars_of("/pull/");
    proof {
        lemma_find_from(path@, pull@, 0);
    }
    let j = match find_chars(&path, &pull) {
        None => {
            return None;
        },
        Some(j) => j,
    };
    let rest = subvec(&path, j + pull.len(), path.len());
    let digits = take_leading_digits(&rest);
    if digits.len() == 0 {
        return None;
    }
    match parse_u64_chars(&digits) {
        Some(number) => if number > 0 {
            Some(number)
        } else {
            None
        },
        None => None,
    }
}

// ---------------------------------------------------------------------------
// The pull-request filter
// ---------------------------------------------------------------------------

/// How the chooser narrows the logs to pull requests: any log linked to a
/// pull request, one numbered pull request, or the pull request that a raw
/// value names.
#[derive(Debug, PartialEq, Eq)]
pub enum ResumeFilterByPr {
    Any,
    Number(u64),
    Value(String),
}

impl Clone for ResumeFilterByPr {
    fn clone(&self) -> (r: Self)
        ensures
            r == *self,
    {
        match self {
            ResumeFilterByPr::Any => ResumeFilterByPr::Any,
            ResumeFilterByPr::Number(n) => ResumeFilterByPr::Number(*n),
            ResumeFilterByPr::Value(v) => ResumeFilterByPr::Value(v.clone()),
        }
    }
}

/// `filter` is what the command-line value `value` asks for: a blank value
/// asks for any pull request, a value naming a pull request asks for that
/// number, and any other value is kept as it was given.
pub open spec fn is_cli_filter(value: Seq<char>, filter: ResumeFilterByPr) -> bool {
    if trim(value).len() == 0 {
        filter == ResumeFilterByPr::Any
    } else if pr_identifier(value) is Some {
        filter == ResumeFilterByPr::Number(pr_identifier(value).unwrap())
    } else {
        filter matches ResumeFilterByPr::Value(s) && s@ == value
    }
}

impl ResumeFilterByPr {
    /// The filter that the `--from-pr` command-line value asks for.
    pub fn from_cli_value(value: &str) -> (r: Self)
        ensures
            is_cli_filter(value@, r),
    {
        let all = chars_of(value);
        let t = trim_chars(&all);
        if t.len() == 0 {
            ResumeFilterByPr::Any
        } else if let Some(number) = parse_pr_identifier(value) {
            ResumeFilterByPr::Number(number)
        } else {
            ResumeFilterByPr::Value(String::from_str(value))
        }
    }
}

/// A saved conversation as the chooser lists it.
#[derive(Debug, Default, PartialEq, Eq)]
pub struct SessionSummary {
    pub session_id: String,
    pub display: String,
    pub pr_number: Option<u64>,
    pub is_sidechain: bool,
    pub project_path: Option<String>,
    pub file_path: String,
}

fn clone_optional_string(s: &Option<String>) -> (r: Option<String>)
    ensures
        r == *s,
{
    match s {
        Some(text) => Some(text.clone()),
        None => None,
    }
}

impl Clone for SessionSummary {
    fn clone(&self) -> (r: Self)
        ensures
            r == *self,
    {
        SessionSummary {
            session_id: self.session_id.clone(),
            display: self.display.clone(),
            pr_number: self.pr_number,
            is_sidechain: self.is_sidechain,
            project_path: clone_optional_string(&self.project_path),
            file_path: self.file_path.clone(),
        }
    }
}

/// The filter behind an optional reference.
pub open spec fn filter_value(filter: Option<&ResumeFilterByPr>) -> Option<ResumeFilterByPr> {
    match filter {
        Some(f) => Some(*f),
        None => None,
    }
}

/// Whether the chooser lists `log` under `filter`: never a side-chain log,
/// and with a filter only logs of the pull request it asks for. A raw value
/// that names no pull request filters nothing out.
pub open spec fn log_passes_filter(log: SessionSummary, filter: Option<ResumeFilterByPr>) -> bool {
    !log.is_sidechain && match filter {
        None => true,
        Some(ResumeFilterByPr::Any) => log.pr_number is Some,
        Some(ResumeFilterByPr::Number(n)) => log.pr_number == Some(n),
        Some(ResumeFilterByPr::Value(v)) => match pr_identifier(v@) {
            Some(n) => log.pr_number == Some(n),
            None => true,
        },
    }
}

/// The logs the chooser lists under `filter`, in the order they are given.
pub open spec fn listed_logs(logs: Seq<SessionSummary>, filter: Option<ResumeFilterByPr>) -> Seq<
    SessionSummary,
> {
    logs.filter(|log: SessionSummary| log_passes_filter(log, filter))
}

/// The logs the chooser lists, in the order they are given.
pub fn filtered_logs(logs: &[SessionSummary], filter_by_pr: Option<&ResumeFilterByPr>) -> (r: Vec<
    SessionSummary,
>)
    ensures
        r@ == listed_logs(logs@, filter_value(filter_by_pr)),
{
    let ghost filter = filter_value(filter_by_pr);
    let ghost pred = |log: SessionSummary| log_passes_filter(log, filter);
    let value_pr: Option<u64> = match filter_by_pr {
        Some(ResumeFilterByPr::Value(v)) => parse_pr_identifier(v.as_str()),
        _ => None,
    };
    let mut r: Vec<SessionSummary> = Vec::new();
    for i in 0..logs.len()
        invariant
            filter == filter_value(filter_by_pr),
            pred == (|log: SessionSummary| log_passes_filter(log, filter)),
            filter_by_pr matches Some(ResumeFilterByPr::Value(v)) ==> value_pr == pr_identifier(v@),
            r@ == logs@.subrange(0, i as int).filter(pred),
    {
        let log = &logs[i];
        let keep = !log.is_sidechain && match filter_by_pr {
            None => true,
            Some(ResumeFilterByPr::Any) => log.pr_number.is_some(),
            Some(ResumeFilterByPr::Number(n)) => log.pr_number == Some(*n),
            Some(ResumeFilterByPr::Value(_)) => match value_pr {
                Some(n) => log.pr_number == Some(n),
                None => true,
            },
        };
        assert(keep == pred(logs@[i as int]));
        proof {
            let prefix = logs@.subrange(0, i + 1);
            assert(prefix.drop_last() =~= logs@.subrange(0, i as int));
            reveal(Seq::filter);
        }
        if keep {
            r.push(log.clone());
        }
    }
    assert(logs@.subrange(0, logs@.len() as int) =~= logs@);
    r
}

/// The positions of the logs the chooser lists, in increasing order; the logs
/// at these positions are exactly what `filtered_logs` returns.
pub fn filtered_log_indices(logs: &[SessionSummary], filter_by_pr: Option<&ResumeFilterByPr>) -> (r:
    Vec<usize>)
    ensures
        forall|k: int| 0 <= k < r@.len() ==> #[trigger] r@[k] < logs@.len(),
        forall|a: int, b: int| 0 <= a < b < r@.len() ==> #[trigger] r@[a] < #[trigger] r@[b],
        r@.map_values(|i: usize| logs@[i as int]) == listed_logs(logs@, filter_value(filter_by_pr)),
{
    let ghost filter = filter_value(filter_by_pr);
    let ghost pred = |log: SessionSummary| log_passes_filter(log, filter);
    let value_pr: Option<u64> = match filter_by_pr {
        Some(ResumeFilterByPr::Value(v)) => parse_pr_identifier(v.as_str()),
        _ => None,
    };
    let mut r: Vec<usize> = Vec::new();
    for i in 0..logs.len()
        invariant
            filter == filter_value(filter_by_pr),
            pred == (|log: SessionSummary| log_passes_filter(log, filter)),
            filter_by_pr matches Some(ResumeFilterByPr::Value(v)) ==> value_pr == pr_identifier(v@),
            forall|k: int| 0 <= k < r@.len() ==> #[trigger] r@[k] < i,
            forall|a: int, b: int| 0 <= a < b < r@.len() ==> #[trigger] r@[a] < #[trigger] r@[b],
            r@.map_values(|j: usize| logs@[j as int]) == logs@.subrange(0, i as int).filter(pred),
    {
        let log = &logs[i];
        let keep = !log.is_sidechain && match filter_by_pr {
            None => true,
            Some(ResumeFilterByPr::Any) => log.pr_number.is_some(),
            Some(ResumeFilterByPr::Number(n)) => log.pr_number == Some(*n),
            Some(ResumeFilterByPr::Value(_)) => match value_pr {
                Some(n) => log.pr_number == Some(n),
                None => true,
            },
        };
        assert(keep == pred(logs@[i as int]));
        let ghost before = r@;
        proof {
            let prefix = logs@.subrange(0, i + 1);
            assert(prefix.drop_last() =~= logs@.subrange(0, i as int));
            reveal(Seq::filter);
        }
        if keep {
            r.push(i);
            assert(r@.map_values(|j: usize| logs@[j as int]) =~= before.map_values(
                |j: usize| logs@[j as int],
            ).push(logs@[i as int]));
        }
    }
    assert(logs@.subrange(0, logs@.len() as int) =~= logs@);
    r
}

/// The chooser never lists a side-chain log, and every log it lists is one of
/// the given logs, of the pull request the filter asks for.
pub proof fn lemma_filtered_logs_are_main_chain(logs: Seq<SessionSummary>, filter: Option<ResumeFilterByPr>)
    ensures
        forall|k: int|
            0 <= k < listed_logs(logs, filter).len() ==> {
                let log = #[trigger] listed_logs(logs, filter)[k];
                &&& !log.is_sidechain
                &&& logs.contains(log)
                &&& (filter == Some(ResumeFilterByPr::Any) ==> log.pr_number is Some)
                &&& (forall|n: u64| filter == Some(ResumeFilterByPr::Number(n)) ==> log.pr_number == Some(n))
            },
{
    let pred = |log: SessionSummary| log_passes_filter(log, filter);
    let kept = logs.filter(pred);
    assert forall|k: int| 0 <= k < kept.len() implies {
        let log = #[trigger] kept[k];
        &&& !log.is_sidechain
        &&& logs.contains(log)
        &&& (filter == Some(ResumeFilterByPr::Any) ==> log.pr_number is Some)
        &&& (forall|n: u64| filter == Some(ResumeFilterByPr::Number(n)) ==> log.pr_number == Some(n))
    } by {
        logs.lemma_filter_pred(pred, k);
        assert(kept.contains(kept[k]));
        logs.lemma_filter_contains_rev(pred, kept[k]);
    }
}

/// A filter read from the command line lists the same logs as the raw value
/// it was read from, whenever that value is not blank (a blank value asks for
/// any pull request, while the raw blank value filters nothing out).
pub proof fn lemma_cli_filter_agrees_with_raw_value(
    value: Seq<char>,
    parsed: ResumeFilterByPr,
    raw: ResumeFilterByPr,
    log: SessionSummary,
)
    requires
        trim(value).len() > 0,
        is_cli_filter(value, parsed),
        raw matches ResumeFilterByPr::Value(s) && s@ == value,
    ensures
        log_passes_filter(log, Some(parsed)) == log_passes_filter(log, Some(raw)),
{
}

// ---------------------------------------------------------------------------
// Chooser decisions
// ---------------------------------------------------------------------------

/// What the chooser shows.
#[derive(Clone, Copy, Debug, PartialEq, Eq)]
pub enum ResumeConversationScreen {
    /// The chosen conversation, resumed in the REPL.
    Repl,
    /// The error from restoring the chosen conversation.
    ResumeError,
    /// The command that resumes a conversation of another directory.
    CrossProjectCommand,
    /// A spinner while the first logs load.
    LoadingConversations,
    /// A spinner while the chosen conversation is restored.
    ResumingConversation,
    /// The message that there is nothing to resume.
    NoConversations,
    /// The log selector.
    LogSelector,
}

/// The screen for the chooser's state, the first that applies of: a restored
/// conversation, a restore error, a cross-directory command, a first load
/// still running with no logs yet, a restore in progress, no log left after
/// filtering, and otherwise the selector.
pub open spec fn screen_for(
    restored: bool,
    resume_error: bool,
    cross_project_command: bool,
    loading: bool,
    has_logs: bool,
    resuming: bool,
    has_filtered_logs: bool,
) -> ResumeConversationScreen {
    if restored {
        ResumeConversationScreen::Repl
    } else if resume_error {
        ResumeConversationScreen::ResumeError
    } else if cross_project_command {
        ResumeConversationScreen::CrossProjectCommand
    } else if loading && !has_logs {
        ResumeConversationScreen::LoadingConversations
    } else if resuming {
        ResumeConversationScreen::ResumingConversation
    } else if !has_filtered_logs {
        ResumeConversationScreen::NoConversations
    } else {
        ResumeConversationScreen::LogSelector
    }
}

/// Decides what the chooser shows.
pub fn resume_conversation_screen(
    restored: bool,
    resume_error: bool,
    cross_project_command: bool,
    loading: bool,
    has_logs: bool,
    resuming: bool,
    has_filtered_logs: bool,
) -> (r: ResumeConversationScreen)
    ensures
        r == screen_for(
            restored,
            resume_error,
            cross_project_command,
            loading,
            has_logs,
            resuming,
            has_filtered_logs,
        ),
        !loading ==> r != ResumeConversationScreen::LoadingConversations,
        r == ResumeConversationScreen::Repl <==> restored,
{
    if restored {
        ResumeConversationScreen::Repl
    } else if resume_error {
        ResumeConversationScreen::ResumeError
    } else if cross_project_command {
        ResumeConversationScreen::CrossProjectCommand
    } else if loading && !has_logs {
        ResumeConversationScreen::LoadingConversations
    } else if resuming {
        ResumeConversationScreen::ResumingConversation
    } else if !has_filtered_logs {
        ResumeConversationScreen::NoConversations
    } else {
        ResumeConversationScreen::LogSelector
    }
}

/// What each screen of the chooser is shown for: the resumed REPL exactly when
/// a conversation was restored; a restore error, a cross-directory command, a
/// spinner for the first load, a spinner for a restore, the empty message or
/// the selector, each only under its own condition and whenever its condition
/// holds with nothing of higher priority. The loading spinner is shown only
/// while a load runs and no log has arrived; once loading is over and nothing
/// is restored, failed, cross-directory or resuming, an empty filtered list
/// shows the empty message.
pub proof fn lemma_screen_shown_for_its_condition(
    restored: bool,
    resume_error: bool,
    cross_project_command: bool,
    loading: bool,
    has_logs: bool,
    resuming: bool,
    has_filtered_logs: bool,
)
    ensures
        ({
            let s = screen_for(restored, resume_error, cross_project_command, loading, has_logs, resuming, has_filtered_logs);
            &&& (s == ResumeConversationScreen::Repl <==> restored)
            &&& (s == ResumeConversationScreen::ResumeError <==> !restored && resume_error)
            &&& (s == ResumeConversationScreen::CrossProjectCommand <==> !restored && !resume_error
                && cross_project_command)
            &&& (s == ResumeConversationScreen::LoadingConversations <==> !restored && !resume_error
                && !cross_project_command && loading && !has_logs)
            &&& (s == ResumeConversationScreen::ResumingConversation <==> !restored && !resume_error
                && !cross_project_command && !(loading && !has_logs) && resuming)
            &&& (s == ResumeConversationScreen::NoConversations <==> !restored && !resume_error
                && !cross_project_command && !(loading && !has_logs) && !resuming && !has_filtered_logs)
            &&& (s == ResumeConversationScreen::LogSelector <==> !restored && !resume_error
                && !cross_project_command && !(loading && !has_logs) && !resuming && has_filtered_logs)
            &&& (!loading ==> s != ResumeConversationScreen::LoadingConversations)
            &&& (!restored && !resume_error && !cross_project_command && !loading && !resuming
                && !has_filtered_logs ==> s == ResumeConversationScreen::NoConversations)
        }),
{
}

/// A request to the background log loader.
#[derive(Clone, Copy, Debug, PartialEq, Eq)]
pub enum SessionLogLoadRequest {
    /// Load the logs afresh, of this project or of all projects.
    Replace { show_all: bool, generation: u64 },
    /// Enrich `count` more logs of the current listing.
    More { count: usize, generation: u64 },
}

/// The request that reloads the listing, with the generation it starts.
pub fn reload_request(show_all: bool, generation: u64) -> (r: (u64, SessionLogLoadRequest))
    ensures
        r.0 == generation.wrapping_add(1),
        r.1 == (SessionLogLoadRequest::Replace { show_all, generation: r.0 }),
{
    let next = generation.wrapping_add(1);
    (next, SessionLogLoadRequest::Replace { show_all, generation: next })
}

/// Switching between this project and all projects: the new setting, the
/// generation it starts and the request that loads it.
pub fn toggle_all_projects_request(show_all: bool, generation: u64) -> (r: (
    bool,
    u64,
    SessionLogLoadRequest,
))
    ensures
        r.0 == !show_all,
        r.1 == generation.wrapping_add(1),
        r.2 == (SessionLogLoadRequest::Replace { show_all: !show_all, generation: r.1 }),
{
    let next = !show_all;
    let (generation, request) = reload_request(next, generation);
    (next, generation, request)
}

/// Whether a request for more logs still applies: a listing is loaded, the
/// request and the listing belong to the current generation, and the listing
/// has logs left to enrich.
pub fn more_request_is_live(
    request_generation: u64,
    loaded_generation: Option<u64>,
    current_generation: u64,
    next_index: usize,
    total: usize,
) -> (r: bool)
    ensures
        r == (loaded_generation == Some(request_generation) && request_generation
            == current_generation && next_index < total),
{
    match loaded_generation {
        None => false,
        Some(loaded) => request_generation == loaded && request_generation == current_generation
            && next_index < total,
    }
}

/// What the chooser keeps of its listing between loads: the logs shown, the
/// loaded result of generation `stored.0` that further logs are enriched
/// from, and whether a full load or an enrichment is running.
pub struct LogListing<L, R> {
    pub logs: Vec<L>,
    pub stored: Option<(u64, R)>,
    pub loading: bool,
    pub loading_more: bool,
}

/// The listing after a full load of generation `request_generation` finished
/// with `loaded` (its logs and its result; `None` when the load failed),
/// while `current_generation` is current. Only a load of the current
/// generation shows its logs, keeps its result and ends the loading state.
pub fn apply_replace_result<L, R>(
    listing: LogListing<L, R>,
    loaded: Option<(Vec<L>, R)>,
    request_generation: u64,
    current_generation: u64,
) -> (r: LogListing<L, R>)
    ensures
        r.loading_more == listing.loading_more,
        r.loading == (listing.loading && request_generation != current_generation),
        request_generation == current_generation && loaded is Some ==> r.logs == loaded.unwrap().0
            && r.stored == Some((request_generation, loaded.unwrap().1)),
        !(request_generation == current_generation && loaded is Some) ==> r.logs == listing.logs
            && r.stored == listing.stored,
{
    let current = request_generation == current_generation;
    let LogListing { logs, stored, loading, loading_more } = listing;
    let (logs, stored) = match loaded {
        Some((new_logs, result)) => {
            if current {
                (new_logs, Some((request_generation, result)))
            } else {
                (logs, stored)
            }
        },
        None => (logs, stored),
    };
    LogListing { logs, stored, loading: loading && !current, loading_more }
}

/// The listing after an enrichment requested in generation
/// `request_generation` finished with `enriched` (the loaded result with its
/// position advanced, and the newly enriched logs; `None` when it failed).
/// The result is kept again under `stored_generation`, the generation it was
/// loaded in; the new logs are appended only when there are some and the
/// request is of the current generation; the enrichment is over either way.
pub fn apply_more_result<L, R>(
    listing: LogListing<L, R>,
    enriched: Option<(R, Vec<L>)>,
    request_generation: u64,
    stored_generation: u64,
    current_generation: u64,
) -> (r: LogListing<L, R>)
    ensures
        !r.loading_more,
        r.loading == listing.loading,
        enriched is None ==> r.logs == listing.logs && r.stored == listing.stored,
        enriched is Some ==> r.stored == Some((stored_generation, enriched.unwrap().0)) && r.logs@
            == (if enriched.unwrap().1@.len() > 0 && request_generation == current_generation {
            listing.logs@ + enriched.unwrap().1@
        } else {
            listing.logs@
        }),
{
    let LogListing { mut logs, stored, loading, loading_more: _ } = listing;
    match enriched {
        Some((result, mut more)) => {
            if more.len() > 0 && request_generation == current_generation {
                logs.append(&mut more);
            }
            LogListing {
                logs,
                stored: Some((stored_generation, result)),
                loading,
                loading_more: false,
            }
        },
        None => LogListing { logs, stored, loading, loading_more: false },
    }
}

/// Whether a finished load still belongs to the current listing, so that its
/// logs are shown and the loading state ends.
pub fn load_is_current(request_generation: u64, current_generation: u64) -> (r: bool)
    ensures
        r == (request_generation == current_generation),
{
    request_generation == current_generation
}

/// The height handed to the log selector for a terminal of `rows` rows: one
/// more than the rows, at most `u16::MAX`.
pub fn log_selector_max_height(rows: u16) -> (r: usize)
    ensures
        r == (if rows < u16::MAX {
            rows + 1
        } else {
            u16::MAX as int
        }),
{
    let grown = rows.saturating_add(1);
    let height = if grown < 1 {
        1
    } else {
        grown
    };
    height as usize
}

} // verus!
