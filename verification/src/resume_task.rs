//! The teleport session picker: classifying load errors, narrowing and
//! ordering the remote sessions, and the text and layout of their rows.
use vstd::prelude::*;
use crate::relative_time::{
    format_relative_time_ago_millis, lemma_relative_time_text_short, relative_time_text,
};
use crate::sort_order::{
    chars_lex_le, is_arranged_by, is_stable_arrangement, lemma_lex_le_total,
    lemma_lex_le_transitive, lex_le,
};
use crate::text::{
    chars_equal, chars_of, contains_seq, contains_str, decimal_text, find_chars, find_from, occurs_at,
    lemma_find_from, lowercase, pad_right, push_all, push_decimal, push_padded, push_str,
    string_from_chars, subvec, to_lowercase,
};

verus! {

/// The heading of the column of update times.
pub const RESUME_TASK_UPDATED_STRING: &'static str = "Updated";

/// What separates the columns of a session row.
pub const RESUME_TASK_SPACE_BETWEEN_TABLE_COLUMNS: &'static str = "  ";

/// Rows the picker needs besides its session rows.
pub const RESUME_TASK_LAYOUT_OVERHEAD: i32 = 7;

/// The repository a remote session belongs to.
#[derive(Debug, Default, PartialEq, Eq)]
pub struct CodeSessionRepo {
    pub name: String,
    pub owner_login: String,
    pub default_branch: Option<String>,
}

/// A remote session that can be resumed here.
#[derive(Debug, Default, PartialEq, Eq)]
pub struct CodeSession {
    pub id: String,
    pub title: String,
    pub updated_at: String,
    pub repo: Option<CodeSessionRepo>,
}

impl Clone for CodeSessionRepo {
    fn clone(&self) -> (r: Self)
        ensures
            r == *self,
    {
        CodeSessionRepo {
            name: self.name.clone(),
            owner_login: self.owner_login.clone(),
            default_branch: match &self.default_branch {
                Some(branch) => Some(branch.clone()),
                None => None,
            },
        }
    }
}

impl Clone for CodeSession {
    fn clone(&self) -> (r: Self)
        ensures
            r == *self,
    {
        CodeSession {
            id: self.id.clone(),
            title: self.title.clone(),
            updated_at: self.updated_at.clone(),
            repo: match &self.repo {
                Some(repo) => Some(repo.clone()),
                None => None,
            },
        }
    }
}

// ---------------------------------------------------------------------------
// Load errors
// ---------------------------------------------------------------------------

/// Why loading the sessions failed.
#[derive(Clone, Copy, Debug, PartialEq, Eq)]
pub enum ResumeTaskLoadErrorType {
    Network,
    Auth,
    Api,
    Other,
}

impl ResumeTaskLoadErrorType {
    /// The name of the error kind in analytics events.
    pub fn as_official_str(self) -> (r: &'static str)
        ensures
            r@ == (match self {
                ResumeTaskLoadErrorType::Network => "network"@,
                ResumeTaskLoadErrorType::Auth => "auth"@,
                ResumeTaskLoadErrorType::Api => "api"@,
                ResumeTaskLoadErrorType::Other => "other"@,
            }),
    {
        match self {
            ResumeTaskLoadErrorType::Network => "network",
            ResumeTaskLoadErrorType::Auth => "auth",
            ResumeTaskLoadErrorType::Api => "api",
            ResumeTaskLoadErrorType::Other => "other",
        }
    }
}

/// The kind of a load error, read from its lowercase message: the first of
/// network, authentication and API whose marker words the message holds.
pub open spec fn error_type_of_message(m: Seq<char>) -> ResumeTaskLoadErrorType {
    if contains_seq(m, "fetch"@) || contains_seq(m, "network"@) || contains_seq(m, "timeout"@) {
        ResumeTaskLoadErrorType::Network
    } else if contains_seq(m, "auth"@) || contains_seq(m, "token"@) || contains_seq(
        m,
        "permission"@,
    ) || contains_seq(m, "oauth"@) || contains_seq(m, "not authenticated"@) || contains_seq(
        m,
        "/login"@,
    ) || contains_seq(m, "console account"@) || contains_seq(m, "403"@) {
        ResumeTaskLoadErrorType::Auth
    } else if contains_seq(m, "api"@) || contains_seq(m, "rate limit"@) || contains_seq(
        m,
        "500"@,
    ) || contains_seq(m, "529"@) {
        ResumeTaskLoadErrorType::Api
    } else {
        ResumeTaskLoadErrorType::Other
    }
}

/// A network marker word anywhere in the message makes it a network error.
pub proof fn lemma_network_marker_forces_network(m: Seq<char>, w: Seq<char>, i: int)
    requires
        w == "fetch"@ || w == "network"@ || w == "timeout"@,
        0 <= i,
        i + w.len() <= m.len(),
        m.subrange(i, i + w.len()) == w,
    ensures
        error_type_of_message(m) == ResumeTaskLoadErrorType::Network,
{
    assert(occurs_at(m, w, i));
}

/// An authentication marker word makes the message an authentication error,
/// unless a network marker already made it a network error.
pub proof fn lemma_auth_marker_forces_auth(m: Seq<char>, w: Seq<char>, i: int)
    requires
        w == "auth"@ || w == "token"@ || w == "permission"@ || w == "oauth"@ || w == "not authenticated"@ || w == "/login"@ || w == "console account"@ || w == "403"@,
        0 <= i,
        i + w.len() <= m.len(),
        m.subrange(i, i + w.len()) == w,
    ensures
        error_type_of_message(m) == ResumeTaskLoadErrorType::Auth || error_type_of_message(m)
            == ResumeTaskLoadErrorType::Network,
{
    assert(occurs_at(m, w, i));
}

/// An API marker word makes the message an API error, unless a network or
/// authentication marker already decided it.
pub proof fn lemma_api_marker_forces_api(m: Seq<char>, w: Seq<char>, i: int)
    requires
        w == "api"@ || w == "rate limit"@ || w == "500"@ || w == "529"@,
        0 <= i,
        i + w.len() <= m.len(),
        m.subrange(i, i + w.len()) == w,
    ensures
        error_type_of_message(m) == ResumeTaskLoadErrorType::Api || error_type_of_message(m)
            == ResumeTaskLoadErrorType::Auth || error_type_of_message(m)
            == ResumeTaskLoadErrorType::Network,
{
    assert(occurs_at(m, w, i));
}

/// A kind is only given on evidence: a network error holds a network marker,
/// an authentication error an authentication marker and no network marker,
/// an API error an API marker and neither of the others; a message with no
/// marker at all is `Other`.
pub proof fn lemma_error_kind_needs_its_marker(m: Seq<char>)
    ensures
        error_type_of_message(m) == ResumeTaskLoadErrorType::Network ==> (contains_seq(m, "fetch"@) || contains_seq(m, "network"@) || contains_seq(m, "timeout"@)),
        error_type_of_message(m) == ResumeTaskLoadErrorType::Auth ==> !(contains_seq(m, "fetch"@) || contains_seq(m, "network"@) || contains_seq(m, "timeout"@)) && (contains_seq(m, "auth"@) || contains_seq(m, "token"@) || contains_seq(m, "permission"@) || contains_seq(m, "oauth"@) || contains_seq(m, "not authenticated"@) || contains_seq(m, "/login"@) || contains_seq(m, "console account"@) || contains_seq(m, "403"@)),
        error_type_of_message(m) == ResumeTaskLoadErrorType::Api ==> !(contains_seq(m, "fetch"@) || contains_seq(m, "network"@) || contains_seq(m, "timeout"@)) && !(contains_seq(m, "auth"@) || contains_seq(m, "token"@) || contains_seq(m, "permission"@) || contains_seq(m, "oauth"@) || contains_seq(m, "not authenticated"@) || contains_seq(m, "/login"@) || contains_seq(m, "console account"@) || contains_seq(m, "403"@)) && (contains_seq(m, "api"@) || contains_seq(m, "rate limit"@) || contains_seq(m, "500"@) || contains_seq(m, "529"@)),
        !(contains_seq(m, "fetch"@) || contains_seq(m, "network"@) || contains_seq(m, "timeout"@)) && !(contains_seq(m, "auth"@) || contains_seq(m, "token"@) || contains_seq(m, "permission"@) || contains_seq(m, "oauth"@) || contains_seq(m, "not authenticated"@) || contains_seq(m, "/login"@) || contains_seq(m, "console account"@) || contains_seq(m, "403"@)) && !(contains_seq(m, "api"@) || contains_seq(m, "rate limit"@) || contains_seq(m, "500"@) || contains_seq(m, "529"@)) ==> error_type_of_message(m) == ResumeTaskLoadErrorType::Other,
{
}

/// `contains_seq` holds exactly when the needle stands at some position.
pub proof fn lemma_contains_means_occurrence(hay: Seq<char>, needle: Seq<char>, i: int)
    ensures
        (0 <= i && i + needle.len() <= hay.len() && hay.subrange(i, i + needle.len()) == needle)
            ==> contains_seq(hay, needle),
        contains_seq(hay, needle) ==> exists|j: int|
            0 <= j && j + needle.len() <= hay.len() && #[trigger] hay.subrange(j, j + needle.len())
                == needle,
{
    if 0 <= i && i + needle.len() <= hay.len() && hay.subrange(i, i + needle.len()) == needle {
        assert(occurs_at(hay, needle, i));
    }
    if contains_seq(hay, needle) {
        let j = choose|j: int| occurs_at(hay, needle, j);
        assert(hay.subrange(j, j + needle.len()) == needle);
    }
}

/// The kind of a load error whose message, already in lowercase, is `message`.
pub fn classify_lowercase_message(message: &str) -> (r: ResumeTaskLoadErrorType)
    ensures
        r == error_type_of_message(message@),
{
    let m = chars_of(message);
    if contains_str(&m, "fetch") || contains_str(&m, "network") || contains_str(&m, "timeout") {
        return ResumeTaskLoadErrorType::Network;
    }
    if contains_str(&m, "auth") || contains_str(&m, "token") || contains_str(&m, "permission")
        || contains_str(&m, "oauth") || contains_str(&m, "not authenticated") || contains_str(
        &m,
        "/login",
    ) || contains_str(&m, "console account") || contains_str(&m, "403") {
        return ResumeTaskLoadErrorType::Auth;
    }
    if contains_str(&m, "api") || contains_str(&m, "rate limit") || contains_str(&m, "500")
        || contains_str(&m, "529") {
        return ResumeTaskLoadErrorType::Api;
    }
    ResumeTaskLoadErrorType::Other
}

/// The kind of a load error, from its message in any case.
pub fn determine_resume_task_error_type(error_message: &str) -> (r: ResumeTaskLoadErrorType)
    ensures
        r == error_type_of_message(lowercase(error_message@)),
{
    let lower = to_lowercase(error_message);
    classify_lowercase_message(lower.as_str())
}

/// The advice shown under a load error of kind `error_type`; `brand` is the
/// assistant's brand name as the product copy spells it.
pub open spec fn error_guidance_text(error_type: ResumeTaskLoadErrorType, brand: Seq<char>) -> Seq<
    Seq<char>,
> {
    match error_type {
        ResumeTaskLoadErrorType::Network => seq!["Check your internet connection"@],
        ResumeTaskLoadErrorType::Auth => seq![
            "Teleport requires a "@ + brand + " account"@,
            "Run /login and select \""@ + brand + " account with subscription\""@,
        ],
        ResumeTaskLoadErrorType::Api => seq!["Sorry, "@ + brand + " encountered an error"@],
        ResumeTaskLoadErrorType::Other => seq!["Sorry, "@ + brand + " Code encountered an error"@],
    }
}

fn brand_line(before: &str, brand: &str, after: &str) -> (r: String)
    ensures
        r@ == before@ + brand@ + after@,
{
    let mut v: Vec<char> = Vec::new();
    push_str(&mut v, before);
    push_str(&mut v, brand);
    push_str(&mut v, after);
    string_from_chars(&v)
}

/// The advice shown under a load error of kind `error_type`.
pub fn resume_task_error_guidance_lines(error_type: ResumeTaskLoadErrorType, brand: &str) -> (r: Vec<
    String,
>)
    ensures
        r@.map_values(|line: String| line@) == error_guidance_text(error_type, brand@),
{
    let mut lines: Vec<String> = Vec::new();
    match error_type {
        ResumeTaskLoadErrorType::Network => {
            lines.push(String::from_str("Check your internet connection"));
        },
        ResumeTaskLoadErrorType::Auth => {
            lines.push(brand_line("Teleport requires a ", brand, " account"));
            lines.push(brand_line("Run /login and select \"", brand, " account with subscription\""));
        },
        ResumeTaskLoadErrorType::Api => {
            lines.push(brand_line("Sorry, ", brand, " encountered an error"));
        },
        ResumeTaskLoadErrorType::Other => {
            lines.push(brand_line("Sorry, ", brand, " Code encountered an error"));
        },
    }
    assert(lines@.map_values(|line: String| line@) =~= error_guidance_text(error_type, brand@));
    lines
}

// ---------------------------------------------------------------------------
// Narrowing to the current repository
// ---------------------------------------------------------------------------

/// `session` belongs to the repository `owner/name` written as `repo`.
pub open spec fn session_in_repo(session: CodeSession, repo: Seq<char>) -> bool {
    session.repo matches Some(r) && r.owner_login@ + seq!['/'] + r.name@ == repo
}

fn session_matches_repo(session: &CodeSession, repo: &Vec<char>) -> (r: bool)
    ensures
        r == session_in_repo(*session, repo@),
{
    match &session.repo {
        None => false,
        Some(r) => {
            let mut joined = chars_of(r.owner_login.as_str());
            joined.push('/');
            let name = chars_of(r.name.as_str());
            push_all(&mut joined, &name);
            assert(joined@ =~= r.owner_login@ + seq!['/'] + r.name@);
            chars_equal(&joined, repo)
        },
    }
}

/// A session belongs to the repository written `repo` exactly when it has a
/// repository, `repo` starts with that repository's owner, then a `/`, and
/// ends with its name, with nothing else in between.
pub proof fn lemma_session_in_repo_is_owner_slash_name(s: CodeSession, repo: Seq<char>)
    ensures
        session_in_repo(s, repo) <==> (s.repo is Some && {
            let owner = s.repo.unwrap().owner_login@;
            let name = s.repo.unwrap().name@;
            &&& repo.len() == owner.len() + 1 + name.len()
            &&& repo.subrange(0, owner.len() as int) == owner
            &&& repo[owner.len() as int] == '/'
            &&& repo.subrange(owner.len() + 1int, repo.len() as int) == name
        }),
{
    if let Some(r) = s.repo {
        let owner = r.owner_login@;
        let name = r.name@;
        let joined = owner + seq!['/'] + name;
        if repo.len() == owner.len() + 1 + name.len() && repo.subrange(0, owner.len() as int)
            == owner && repo[owner.len() as int] == '/' && repo.subrange(
            owner.len() + 1int,
            repo.len() as int,
        ) == name {
            assert(repo =~= joined);
        }
        if joined == repo {
            assert(repo.subrange(0, owner.len() as int) =~= owner);
            assert(repo.subrange(owner.len() + 1int, repo.len() as int) =~= name);
        }
    }
}

/// The sessions of the current repository, in their order; all of them when
/// no repository is known.
pub fn filter_sessions_for_repo(sessions: &[CodeSession], current_repo: Option<&str>) -> (r: Vec<
    CodeSession,
>)
    ensures
        match current_repo {
            None => r@ == sessions@,
            Some(repo) => r@ == sessions@.filter(|s: CodeSession| session_in_repo(s, repo@)),
        },
        current_repo matches Some(repo) ==> forall|k: int|
            0 <= k < r@.len() ==> ((#[trigger] r@[k]).repo is Some && r@[k].repo.unwrap().owner_login@
                + seq!['/'] + r@[k].repo.unwrap().name@ == repo@),
        current_repo matches Some(repo) ==> forall|i: int|
            (0 <= i < sessions@.len() && (#[trigger] sessions@[i]).repo is Some
                && sessions@[i].repo.unwrap().owner_login@ + seq!['/'] + sessions@[i].repo.unwrap().name@
                == repo@) ==> r@.contains(sessions@[i]),
{
    let r = narrow_sessions_for_repo(sessions, current_repo);
    proof {
        if let Some(repo) = current_repo {
            let pred = |s: CodeSession| session_in_repo(s, repo@);
            assert forall|k: int| 0 <= k < r@.len() implies ((#[trigger] r@[k]).repo is Some
                && r@[k].repo.unwrap().owner_login@ + seq!['/'] + r@[k].repo.unwrap().name@ == repo@) by {
                sessions@.lemma_filter_pred(pred, k);
            }
            assert forall|i: int|
                0 <= i < sessions@.len() && (#[trigger] sessions@[i]).repo is Some
                    && sessions@[i].repo.unwrap().owner_login@ + seq!['/']
                    + sessions@[i].repo.unwrap().name@ == repo@ implies r@.contains(sessions@[i]) by {
                assert(pred(sessions@[i]));
                sessions@.lemma_filter_contains(pred, i);
            }
        }
    }
    r
}

fn narrow_sessions_for_repo(sessions: &[CodeSession], current_repo: Option<&str>) -> (r: Vec<
    CodeSession,
>)
    ensures
        match current_repo {
            None => r@ == sessions@,
            Some(repo) => r@ == sessions@.filter(|s: CodeSession| session_in_repo(s, repo@)),
        },
{
    let mut r: Vec<CodeSession> = Vec::new();
    match current_repo {
        None => {
            for i in 0..sessions.len()
                invariant
                    r@ == sessions@.subrange(0, i as int),
            {
                r.push(sessions[i].clone());
                assert(sessions@.subrange(0, i + 1) =~= sessions@.subrange(0, i as int).push(
                    sessions@[i as int],
                ));
            }
            assert(sessions@.subrange(0, sessions@.len() as int) =~= sessions@);
        },
        Some(repo) => {
            let wanted = chars_of(repo);
            let ghost pred = |s: CodeSession| session_in_repo(s, repo@);
            for i in 0..sessions.len()
                invariant
                    wanted@ == repo@,
                    pred == (|s: CodeSession| session_in_repo(s, repo@)),
                    r@ == sessions@.subrange(0, i as int).filter(pred),
            {
                let keep = session_matches_repo(&sessions[i], &wanted);
                proof {
                    assert(sessions@.subrange(0, i + 1).drop_last() =~= sessions@.subrange(
                        0,
                        i as int,
                    ));
                    reveal(Seq::filter);
                }
                if keep {
                    r.push(sessions[i].clone());
                }
            }
            assert(sessions@.subrange(0, sessions@.len() as int) =~= sessions@);
        },
    }
    r
}

// ---------------------------------------------------------------------------
// Update times
// ---------------------------------------------------------------------------

/// The instant, in milliseconds since the Unix epoch, of an RFC 3339
/// date-time; `None` when the text is not one.
pub uninterp spec fn rfc3339_millis(text: Seq<char>) -> Option<i64>;

/// Calls `chrono::DateTime::parse_from_rfc3339` on `text`; a parsed date-time
/// is handed back as its `timestamp_millis`, a parse error as `None`. The
/// result is the named instant of the text (a pure function of it: the offset
/// is read from the text itself). Nothing more is stated of which texts parse
/// or to what instant.
#[verifier::external_body]
fn parse_rfc3339_millis(text: &str) -> (r: Option<i64>)
    ensures
        r == rfc3339_millis(text@),
{
    match chrono::DateTime::parse_from_rfc3339(text) {
        Ok(date_time) => Some(date_time.timestamp_millis()),
        Err(_) => None,
    }
}

/// The update time of a session as shown: how long ago it was when its
/// instant is known, else the text as it came.
pub open spec fn time_text_from_parsed(updated_at: Seq<char>, parsed: Option<i64>, now_ms: i64) -> Seq<
    char,
> {
    match parsed {
        Some(ms) => relative_time_text(ms as int, now_ms as int),
        None => updated_at,
    }
}

/// The update time shown for the text `updated_at` at the instant `now_ms`.
pub open spec fn session_time_text(updated_at: Seq<char>, now_ms: i64) -> Seq<char> {
    time_text_from_parsed(updated_at, rfc3339_millis(updated_at), now_ms)
}

/// The update time shown for `updated_at`, given its parsed instant.
pub fn resume_task_time_string_from_parsed(updated_at: &str, parsed: Option<i64>, now_ms: i64) -> (r:
    String)
    ensures
        r@ == time_text_from_parsed(updated_at@, parsed, now_ms),
{
    match parsed {
        Some(ms) => format_relative_time_ago_millis(ms, now_ms),
        None => String::from_str(updated_at),
    }
}

/// The update time shown for `updated_at` at the instant `now_ms`.
pub fn resume_task_time_string_at(updated_at: &str, now_ms: i64) -> (r: String)
    ensures
        r@ == session_time_text(updated_at@, now_ms),
{
    let parsed = parse_rfc3339_millis(updated_at);
    resume_task_time_string_from_parsed(updated_at, parsed, now_ms)
}

// ---------------------------------------------------------------------------
// Newest first
// ---------------------------------------------------------------------------

/// The instant `a` is later than `b`, where an unknown instant is earlier
/// than every known one.
pub open spec fn key_newer(a: Option<i64>, b: Option<i64>) -> bool {
    match (a, b) {
        (Some(x), Some(y)) => x > y,
        (Some(_), None) => true,
        _ => false,
    }
}

/// Session `i` may stand before session `j`: it was updated later, or at the
/// same instant with an id that does not sort after `j`'s.
pub open spec fn session_before(keys: Seq<Option<i64>>, sessions: Seq<CodeSession>, i: int, j: int) -> bool {
    key_newer(keys[i], keys[j]) || (keys[i] == keys[j] && lex_le(sessions[i].id@, sessions[j].id@))
}

/// `output` is `input` with the instants `keys`, stably ordered newest first
/// by `perm`.
pub open spec fn newest_first_by(
    input: Seq<CodeSession>,
    keys: Seq<Option<i64>>,
    output: Seq<CodeSession>,
    perm: Seq<int>,
) -> bool {
    &&& is_stable_arrangement(input.len(), perm, |i: int, j: int| session_before(keys, input, i, j))
    &&& is_arranged_by(input, output, perm)
}

/// `output` is `input` stably sorted newest first, by the instants `keys`,
/// and at equal instants by id.
pub open spec fn is_sorted_newest_first(
    input: Seq<CodeSession>,
    keys: Seq<Option<i64>>,
    output: Seq<CodeSession>,
) -> bool {
    exists|perm: Seq<int>| #[trigger] newest_first_by(input, keys, output, perm)
}

proof fn lemma_session_before_total(keys: Seq<Option<i64>>, sessions: Seq<CodeSession>, i: int, j: int)
    ensures
        session_before(keys, sessions, i, j) || session_before(keys, sessions, j, i),
{
    lemma_lex_le_total(sessions[i].id@, sessions[j].id@);
}

proof fn lemma_session_before_transitive(
    keys: Seq<Option<i64>>,
    sessions: Seq<CodeSession>,
    i: int,
    j: int,
    k: int,
)
    requires
        session_before(keys, sessions, i, j),
        session_before(keys, sessions, j, k),
    ensures
        session_before(keys, sessions, i, k),
{
    if keys[i] == keys[j] && keys[j] == keys[k] {
        lemma_lex_le_transitive(sessions[i].id@, sessions[j].id@, sessions[k].id@);
    }
}

fn item_before(keys: &Vec<Option<i64>>, ids: &Vec<Vec<char>>, i: usize, j: usize) -> (r: bool)
    requires
        i < keys@.len(),
        j < keys@.len(),
        ids@.len() == keys@.len(),
    ensures
        r == (key_newer(keys@[i as int], keys@[j as int]) || (keys@[i as int] == keys@[j as int]
            && lex_le(ids@[i as int]@, ids@[j as int]@))),
{
    match (keys[i], keys[j]) {
        (Some(x), Some(y)) => {
            if x > y {
                true
            } else if x == y {
                chars_lex_le(&ids[i], &ids[j])
            } else {
                false
            }
        },
        (Some(_), None) => true,
        (None, Some(_)) => false,
        (None, None) => chars_lex_le(&ids[i], &ids[j]),
    }
}

/// `sessions` stably sorted newest first by the instants `keys` (one per
/// session), and at equal instants by id.
pub fn sort_sessions_by_keys(sessions: &[CodeSession], keys: &Vec<Option<i64>>) -> (r: Vec<
    CodeSession,
>)
    requires
        keys@.len() == sessions@.len(),
    ensures
        is_sorted_newest_first(sessions@, keys@, r@),
{
    let n = sessions.len();
    let ghost before = |i: int, j: int| session_before(keys@, sessions@, i, j);
    let mut ids: Vec<Vec<char>> = Vec::new();
    for i in 0..n
        invariant
            n == sessions@.len(),
            ids@.len() == i,
            forall|k: int| 0 <= k < i ==> (#[trigger] ids@[k])@ == sessions@[k].id@,
    {
        ids.push(chars_of(sessions[i].id.as_str()));
    }
    let mut order: Vec<usize> = Vec::new();
    for i in 0..n
        invariant
            n == sessions@.len() == keys@.len() == ids@.len(),
            forall|k: int| 0 <= k < n ==> (#[trigger] ids@[k])@ == sessions@[k].id@,
            before == (|i: int, j: int| session_before(keys@, sessions@, i, j)),
            order@.len() == i,
            forall|k: int| 0 <= k < i ==> #[trigger] order@[k] < i,
            forall|a: int, b: int| 0 <= a < b < i ==> #[trigger] order@[a] != #[trigger] order@[b],
            forall|a: int, b: int|
                0 <= a < b < i ==> before(#[trigger] order@[a] as int, #[trigger] order@[b] as int),
            forall|a: int, b: int|
                0 <= a < b < i && before(#[trigger] order@[b] as int, #[trigger] order@[a] as int)
                    ==> order@[a] < order@[b],
    {
        let mut pos: usize = i;
        while pos > 0 && !item_before(keys, &ids, order[pos - 1], i)
            invariant
                n == sessions@.len() == keys@.len() == ids@.len(),
                i < n,
                order@.len() == i,
                forall|k: int| 0 <= k < i ==> #[trigger] order@[k] < i,
                forall|k: int| 0 <= k < n ==> (#[trigger] ids@[k])@ == sessions@[k].id@,
                pos <= i,
                forall|k: int| pos <= k < i ==> !session_before(keys@, sessions@, #[trigger] order@[k] as int, i as int),
            decreases pos,
        {
            pos = pos - 1;
        }
        let ghost old_order = order@;
        order.insert(pos, i);
        proof {
            let q = order@;
            assert forall|k: int| 0 <= k < i + 1 implies #[trigger] q[k] < i + 1 by {
                if k < pos {
                    assert(q[k] == old_order[k]);
                } else if k > pos {
                    assert(q[k] == old_order[k - 1]);
                }
            }
            assert forall|a: int, b: int| 0 <= a < b < i + 1 implies #[trigger] q[a] != #[trigger] q[b] by {
                if a != pos && b != pos {
                    let oa = if a < pos { a } else { a - 1 };
                    let ob = if b < pos { b } else { b - 1 };
                    assert(q[a] == old_order[oa] && q[b] == old_order[ob]);
                    assert(old_order[oa] != old_order[ob]);
                } else if a == pos {
                    assert(q[b] == old_order[b - 1]);
                    assert(old_order[b - 1] < i);
                } else {
                    assert(q[a] == old_order[a]);
                    assert(old_order[a] < i);
                }
            }
            assert forall|a: int, b: int| 0 <= a < b < i + 1 implies before(#[trigger] q[a] as int, #[trigger] q[b] as int) by {
                if a != pos && b != pos {
                    let oa = if a < pos { a } else { a - 1 };
                    let ob = if b < pos { b } else { b - 1 };
                    assert(q[a] == old_order[oa] && q[b] == old_order[ob]);
                    assert(before(old_order[oa] as int, old_order[ob] as int));
                } else if b == pos {
                    // every place before the new item holds an item that may precede it
                    assert(q[a] == old_order[a]);
                    assert(session_before(keys@, sessions@, old_order[pos - 1] as int, i as int));
                    if a < pos - 1 {
                        assert(before(old_order[a] as int, old_order[pos - 1] as int));
                        lemma_session_before_transitive(
                            keys@,
                            sessions@,
                            old_order[a] as int,
                            old_order[pos - 1] as int,
                            i as int,
                        );
                    }
                } else {
                    // every place after it holds an item that may not precede it
                    assert(q[b] == old_order[b - 1]);
                    assert(!session_before(keys@, sessions@, old_order[b - 1] as int, i as int));
                    lemma_session_before_total(keys@, sessions@, old_order[b - 1] as int, i as int);
                }
            }
            assert forall|a: int, b: int|
                0 <= a < b < i + 1 && before(#[trigger] q[b] as int, #[trigger] q[a] as int) implies q[a] < q[b] by {
                if a != pos && b != pos {
                    let oa = if a < pos { a } else { a - 1 };
                    let ob = if b < pos { b } else { b - 1 };
                    assert(q[a] == old_order[oa] && q[b] == old_order[ob]);
                    assert(before(old_order[ob] as int, old_order[oa] as int));
                } else if b == pos {
                    assert(q[a] == old_order[a]);
                    assert(old_order[a] < i);
                } else {
                    assert(q[b] == old_order[b - 1]);
                    assert(!session_before(keys@, sessions@, old_order[b - 1] as int, i as int));
                }
            }
        }
    }
    let mut r: Vec<CodeSession> = Vec::new();
    for k in 0..n
        invariant
            n == sessions@.len(),
            order@.len() == n,
            forall|m: int| 0 <= m < n ==> #[trigger] order@[m] < n,
            r@.len() == k,
            forall|m: int| 0 <= m < k ==> #[trigger] r@[m] == sessions@[order@[m] as int],
    {
        r.push(sessions[order[k]].clone());
    }
    let ghost perm = order@.map_values(|x: usize| x as int);
    assert(newest_first_by(sessions@, keys@, r@, perm));
    r
}

/// The instant of a session's update time.
pub open spec fn session_key(s: CodeSession) -> Option<i64> {
    rfc3339_millis(s.updated_at@)
}

/// In a newest-first listing no session stands before one updated later, and
/// every listed session is one of the input.
pub proof fn lemma_newest_first_listing(input: Seq<CodeSession>, output: Seq<CodeSession>)
    requires
        is_sorted_newest_first(input, input.map_values(|s: CodeSession| session_key(s)), output),
    ensures
        output.len() == input.len(),
        forall|i: int, j: int|
            0 <= i < j < output.len() ==> !key_newer(
                session_key(#[trigger] output[j]),
                session_key(#[trigger] output[i]),
            ),
        forall|k: int| 0 <= k < output.len() ==> input.contains(#[trigger] output[k]),
{
    let keys = input.map_values(|s: CodeSession| session_key(s));
    let perm = choose|perm: Seq<int>| #[trigger] newest_first_by(input, keys, output, perm);
    assert forall|i: int, j: int| 0 <= i < j < output.len() implies !key_newer(
        session_key(#[trigger] output[j]),
        session_key(#[trigger] output[i]),
    ) by {
        assert(session_before(keys, input, perm[i], perm[j]));
        assert(output[i] == input[perm[i]] && output[j] == input[perm[j]]);
        assert(keys[perm[i]] == session_key(input[perm[i]]));
        assert(keys[perm[j]] == session_key(input[perm[j]]));
    }
    assert forall|k: int| 0 <= k < output.len() implies input.contains(#[trigger] output[k]) by {
        assert(0 <= perm[k] < input.len());
        assert(output[k] == input[perm[k]]);
    }
}

/// The sessions stably sorted newest first by update time (a time that does
/// not parse counts as older than every time that does), and at equal times
/// by id.
pub fn sort_sessions_newest_first(sessions: &[CodeSession]) -> (r: Vec<CodeSession>)
    ensures
        is_sorted_newest_first(sessions@, sessions@.map_values(|s: CodeSession| session_key(s)), r@),
{
    let mut keys: Vec<Option<i64>> = Vec::new();
    for i in 0..sessions.len()
        invariant
            keys@.len() == i,
            forall|k: int| 0 <= k < i ==> #[trigger] keys@[k] == session_key(sessions@[k]),
    {
        keys.push(parse_rfc3339_millis(sessions[i].updated_at.as_str()));
    }
    assert(keys@ =~= sessions@.map_values(|s: CodeSession| session_key(s)));
    sort_sessions_by_keys(sessions, &keys)
}

// ---------------------------------------------------------------------------
// Rows
// ---------------------------------------------------------------------------

/// One row of a selection list: what it shows and the value it stands for.
#[derive(Clone, Debug, Default, PartialEq, Eq)]
pub struct SelectOptionData {
    pub label: String,
    pub value: String,
}

/// How many rows of sessions the picker shows: what fits in `rows` terminal
/// rows (at most 5 when embedded), at least one and at most the number of
/// sessions, computed in `i32` as the layout code does.
pub open spec fn max_visible_options(session_count: usize, rows: usize, is_embedded: bool) -> int {
    let r = (rows as i32) as int;
    let available = if is_embedded {
        let fit = r - 6 - RESUME_TASK_LAYOUT_OVERHEAD;
        if fit < 5 { fit } else { 5 }
    } else {
        r - 1 - RESUME_TASK_LAYOUT_OVERHEAD
    };
    let count = (session_count as i32) as int;
    let shown = if count < available { count } else { available };
    if shown < 1 { 1 } else { shown }
}

/// How many rows of sessions the picker shows.
pub fn resume_task_max_visible_options(session_count: usize, rows: usize, is_embedded: bool) -> (r: usize)
    requires
        (rows as i32) >= i32::MIN + (if is_embedded { 13int } else { 8int }),
    ensures
        r == max_visible_options(session_count, rows, is_embedded),
        r >= 1,
        r <= i32::MAX,
        is_embedded ==> r <= 5,
        session_count <= i32::MAX ==> r <= (if session_count < 1 { 1 } else { session_count as int }),
{
    #[verifier::truncate]
    let rows_i: i32 = rows as i32;
    let available: i32 = if is_embedded {
        let fit = rows_i - 6 - RESUME_TASK_LAYOUT_OVERHEAD;
        if fit < 5 {
            fit
        } else {
            5
        }
    } else {
        rows_i - 1 - RESUME_TASK_LAYOUT_OVERHEAD
    };
    #[verifier::truncate]
    let count: i32 = session_count as i32;
    let shown = if count < available {
        count
    } else {
        available
    };
    let r = if shown < 1 {
        1
    } else {
        shown
    };
    r as usize
}

/// How the picker lays out its list of sessions.
#[derive(Clone, Copy, Debug, PartialEq, Eq)]
pub struct ResumeTaskReadyLayout {
    /// Session rows shown at once.
    pub max_visible: usize,
    /// Whether the title shows which session is focused, because not all fit.
    pub show_scroll_position: bool,
    /// The focused session, kept within the list.
    pub focused_index: usize,
    /// The height of the whole picker.
    pub max_height: u32,
}

/// The layout of the picker listing `session_count` sessions in a terminal
/// of `rows` rows, with `focused_index` asked to be focused.
pub fn resume_task_ready_layout(
    session_count: usize,
    rows: usize,
    is_embedded: bool,
    focused_index: usize,
) -> (r: ResumeTaskReadyLayout)
    requires
        (rows as i32) >= i32::MIN + (if is_embedded { 13int } else { 8int }),
    ensures
        r.max_visible == max_visible_options(session_count, rows, is_embedded),
        r.show_scroll_position == (session_count > r.max_visible),
        r.focused_index == (if session_count == 0 {
            0
        } else if focused_index < session_count {
            focused_index as int
        } else {
            session_count - 1
        }),
        r.max_height == r.max_visible + RESUME_TASK_LAYOUT_OVERHEAD,
{
    let max_visible = resume_task_max_visible_options(session_count, rows, is_embedded);
    let last = session_count.saturating_sub(1);
    let focused = if focused_index < last {
        focused_index
    } else {
        last
    };
    ResumeTaskReadyLayout {
        max_visible,
        show_scroll_position: session_count > max_visible,
        focused_index: focused,
        max_height: (max_visible as u32) + 7,
    }
}

/// The position shown in the title when not all sessions fit, such as ` (3 of 12)`.
pub fn resume_task_scroll_position_text(focused_index: usize, session_count: usize) -> (r: String)
    requires
        focused_index < session_count,
    ensures
        r@ == " ("@ + decimal_text((focused_index + 1) as nat) + " of "@ + decimal_text(session_count as nat)
            + ")"@,
{
    let mut v: Vec<char> = Vec::new();
    push_str(&mut v, " (");
    push_decimal(&mut v, (focused_index + 1) as u64);
    push_str(&mut v, " of ");
    push_decimal(&mut v, session_count as u64);
    push_str(&mut v, ")");
    string_from_chars(&v)
}

/// The first column of a row label: what stands before the first column gap.
pub open spec fn first_column(label: Seq<char>) -> Seq<char> {
    match find_from(label, seq![' ', ' '], 0) {
        Some(i) => label.subrange(0, i),
        None => label,
    }
}

/// The width of the first column over `labels`: the byte length of the
/// longest, and at least that of the `Updated` heading (7).
pub open spec fn first_column_width(labels: Seq<Seq<char>>) -> nat
    decreases labels.len(),
{
    if labels.len() == 0 {
        7
    } else {
        let rest = first_column_width(labels.drop_last());
        let last = utf8_len(first_column(labels.last()));
        if rest < last { last } else { rest }
    }
}

/// The first column of a label is the text before its first double space:
/// a prefix of the label holding no double space, followed either by the end
/// of the label or by a double space.
pub proof fn lemma_first_column_is_text_before_first_gap(label: Seq<char>)
    ensures
        ({
            let c = first_column(label);
            &&& c.len() <= label.len()
            &&& c == label.subrange(0, c.len() as int)
            &&& (c.len() == label.len() || (c.len() + 2 <= label.len() && label[c.len() as int] == ' '
                && label[c.len() + 1int] == ' '))
            &&& forall|j: int|
                0 <= j < c.len() && j + 1 < label.len() ==> !(#[trigger] label[j] == ' ' && label[j
                    + 1] == ' ')
        }),
{
    let gap = seq![' ', ' '];
    lemma_find_from(label, gap, 0);
    let c = first_column(label);
    assert forall|j: int| 0 <= j < c.len() && j + 1 < label.len() implies !(#[trigger] label[j] == ' '
        && label[j + 1] == ' ') by {
        if label[j] == ' ' && label[j + 1] == ' ' {
            assert(label.subrange(j, j + 2) =~= gap);
            assert(occurs_at(label, gap, j));
        }
    }
    match find_from(label, gap, 0) {
        Some(i) => {
            assert(label.subrange(i, i + 2) == gap);
            assert(label.subrange(i, i + 2)[0] == label[i]);
            assert(label.subrange(i, i + 2)[1] == label[i + 1]);
        },
        None => {
            assert(c =~= label.subrange(0, c.len() as int));
        },
    }
}

/// The heading's first column is as wide as the widest first column of the
/// rows, in bytes, and at least as wide as `Updated` (7): no row's first
/// column is wider, and the width is 7 or the width of some row's.
pub proof fn lemma_first_column_width_is_widest(labels: Seq<Seq<char>>)
    ensures
        first_column_width(labels) >= 7,
        forall|i: int|
            0 <= i < labels.len() ==> utf8_len(first_column(#[trigger] labels[i])) <= first_column_width(labels),
        first_column_width(labels) == 7 || exists|i: int|
            0 <= i < labels.len() && first_column_width(labels) == utf8_len(first_column(#[trigger] labels[i])),
    decreases labels.len(),
{
    if labels.len() > 0 {
        let rest = labels.drop_last();
        lemma_first_column_width_is_widest(rest);
        assert forall|i: int| 0 <= i < labels.len() implies utf8_len(first_column(#[trigger] labels[i]))
            <= first_column_width(labels) by {
            if i < labels.len() - 1 {
                assert(rest[i] == labels[i]);
            }
        }
        if first_column_width(labels) != 7 {
            if first_column_width(labels) == utf8_len(first_column(labels.last())) {
                assert(labels[labels.len() - 1] == labels.last());
            } else {
                let k = choose|i: int|
                    0 <= i < rest.len() && first_column_width(rest) == utf8_len(first_column(#[trigger] rest[i]));
                assert(rest[k] == labels[k]);
            }
        }
    }
}

/// The heading row above the session rows: `Updated` padded to the width of
/// the first column of `options`, the column gap, then `Session Title`.
pub fn resume_task_table_header(options: &[SelectOptionData]) -> (r: String)
    ensures
        r@ == pad_right(
            "Updated"@,
            first_column_width(options@.map_values(|o: SelectOptionData| o.label@)),
        ) + "  Session Title"@,
{
    let ghost labels = options@.map_values(|o: SelectOptionData| o.label@);
    let gap: Vec<char> = vec![' ', ' '];
    let mut width: usize = 7;
    for i in 0..options.len()
        invariant
            labels == options@.map_values(|o: SelectOptionData| o.label@),
            gap@ == seq![' ', ' '],
            width == first_column_width(labels.subrange(0, i as int)),
    {
        let label = chars_of(options[i].label.as_str());
        proof {
            lemma_find_from(label@, gap@, 0);
        }
        let column = match find_chars(&label, &gap) {
            Some(k) => subvec(&label, 0, k),
            None => label,
        };
        assert(column@ == first_column(labels[i as int]));
        let text = string_from_chars(&column);
        let len = utf8_byte_len(text.as_str());
        proof {
            assert(labels.subrange(0, i + 1).drop_last() =~= labels.subrange(0, i as int));
            assert(labels.subrange(0, i + 1).last() == labels[i as int]);
        }
        if width < len {
            width = len;
        }
    }
    assert(labels.subrange(0, options@.len() as int) =~= labels);
    let heading = chars_of("Updated");
    let mut v: Vec<char> = Vec::new();
    push_padded(&mut v, &heading, width);
    push_str(&mut v, "  Session Title");
    string_from_chars(&v)
}

/// The byte length of `s` in UTF-8, as `str::len` gives it.
fn utf8_byte_len(s: &str) -> (n: usize)
    ensures
        n == utf8_len(s@),
{
    broadcast use vstd::slice::group_slice_axioms;

    s.as_bytes().len()
}

/// The byte length of a string in UTF-8, which is `str::len`.
pub open spec fn utf8_len(s: Seq<char>) -> nat {
    vstd::utf8::encode_utf8(s).len()
}

/// The width of the update-time column: the byte length of the longest time,
/// and at least that of the `Updated` heading (7).
pub open spec fn time_column_width(times: Seq<Seq<char>>) -> nat
    decreases times.len(),
{
    if times.len() == 0 {
        7
    } else {
        let rest = time_column_width(times.drop_last());
        let last = utf8_len(times.last());
        if rest < last { last } else { rest }
    }
}

/// The label of a session row: its time padded to the column width, the
/// column gap, then its title.
pub open spec fn session_label(time: Seq<char>, width: nat, title: Seq<char>) -> Seq<char> {
    pad_right(time, width) + seq![' ', ' '] + title
}

/// `options` are the rows of `sessions` with the update times `times`.
pub open spec fn are_session_options(
    sessions: Seq<CodeSession>,
    times: Seq<Seq<char>>,
    options: Seq<SelectOptionData>,
) -> bool {
    &&& options.len() == sessions.len()
    &&& forall|i: int|
        0 <= i < options.len() ==> (#[trigger] options[i]).label@ == session_label(
            times[i],
            time_column_width(times),
            sessions[i].title@,
        ) && options[i].value@ == sessions[i].id@
}

/// The column width is at least as wide, in bytes, as every time.
proof fn lemma_time_column_width_covers(times: Seq<Seq<char>>, i: int)
    requires
        0 <= i < times.len(),
    ensures
        utf8_len(times[i]) <= time_column_width(times),
    decreases times.len(),
{
    if i < times.len() - 1 {
        lemma_time_column_width_covers(times.drop_last(), i);
        assert(times.drop_last()[i] == times[i]);
    }
}

/// The time column is as wide as the widest time, in bytes, and at least as
/// wide as `Updated` (7): no time is wider, and the width is 7 or the width of
/// some time.
pub proof fn lemma_time_column_width_is_widest(times: Seq<Seq<char>>)
    ensures
        time_column_width(times) >= 7,
        forall|i: int| 0 <= i < times.len() ==> utf8_len(#[trigger] times[i]) <= time_column_width(times),
        time_column_width(times) == 7 || exists|i: int|
            0 <= i < times.len() && time_column_width(times) == utf8_len(#[trigger] times[i]),
    decreases times.len(),
{
    assert forall|i: int| 0 <= i < times.len() implies utf8_len(#[trigger] times[i]) <= time_column_width(times) by {
        lemma_time_column_width_covers(times, i);
    }
    if times.len() > 0 {
        let rest = times.drop_last();
        lemma_time_column_width_is_widest(rest);
        if time_column_width(times) != 7 {
            if time_column_width(times) == utf8_len(times.last()) {
                assert(times[times.len() - 1] == times.last());
            } else {
                let k = choose|i: int| 0 <= i < rest.len() && time_column_width(rest) == utf8_len(#[trigger] rest[i]);
                assert(rest[k] == times[k]);
            }
        }
    }
}

/// When every update time is ASCII, the titles of all session rows start at
/// the same column: each label is its time padded to exactly the column width,
/// then the column gap, then the title.
pub proof fn lemma_session_titles_aligned(
    sessions: Seq<CodeSession>,
    times: Seq<Seq<char>>,
    options: Seq<SelectOptionData>,
)
    requires
        are_session_options(sessions, times, options),
        forall|i: int| 0 <= i < times.len() ==> vstd::utf8::is_ascii_chars(#[trigger] times[i]),
        times.len() == sessions.len(),
    ensures
        forall|i: int|
            0 <= i < options.len() ==> {
                let label = (#[trigger] options[i]).label@;
                let width = time_column_width(times);
                &&& label.len() == width + 2 + sessions[i].title@.len()
                &&& label.subrange(0, width as int).len() == width
                &&& label.subrange(width as int, width + 2int) == seq![' ', ' ']
                &&& label.subrange(width + 2int, label.len() as int) == sessions[i].title@
            },
{
    let width = time_column_width(times);
    assert forall|i: int| 0 <= i < options.len() implies {
        let label = (#[trigger] options[i]).label@;
        &&& label.len() == width + 2 + sessions[i].title@.len()
        &&& label.subrange(0, width as int).len() == width
        &&& label.subrange(width as int, width + 2int) == seq![' ', ' ']
        &&& label.subrange(width + 2int, label.len() as int) == sessions[i].title@
    } by {
        lemma_time_column_width_covers(times, i);
        vstd::utf8::is_ascii_chars_encode_utf8(times[i]);
        let padded = pad_right(times[i], width);
        assert(padded.len() == width);
        let label = options[i].label@;
        assert(label == padded + seq![' ', ' '] + sessions[i].title@);
        assert(label.subrange(width as int, width + 2int) =~= seq![' ', ' ']);
        assert(label.subrange(width + 2int, label.len() as int) =~= sessions[i].title@);
    }
}

/// When every session's update time parses, the rows of the picker (as
/// `resume_task_session_options` states them) have all their titles starting
/// at the same column: compact relative times are ASCII.
pub proof fn lemma_parsed_session_titles_aligned(
    sessions: Seq<CodeSession>,
    now_ms: i64,
    options: Seq<SelectOptionData>,
)
    requires
        are_session_options(
            sessions,
            sessions.map_values(|s: CodeSession| session_time_text(s.updated_at@, now_ms)),
            options,
        ),
        forall|i: int| 0 <= i < sessions.len() ==> (#[trigger] session_key(sessions[i])) is Some,
    ensures
        forall|i: int|
            0 <= i < options.len() ==> {
                let label = (#[trigger] options[i]).label@;
                let width = time_column_width(
                    sessions.map_values(|s: CodeSession| session_time_text(s.updated_at@, now_ms)),
                );
                &&& label.len() == width + 2 + sessions[i].title@.len()
                &&& label.subrange(width as int, width + 2int) == seq![' ', ' ']
                &&& label.subrange(width + 2int, label.len() as int) == sessions[i].title@
            },
{
    let times = sessions.map_values(|s: CodeSession| session_time_text(s.updated_at@, now_ms));
    assert forall|i: int| 0 <= i < times.len() implies vstd::utf8::is_ascii_chars(#[trigger] times[i]) by {
        assert(session_key(sessions[i]) is Some);
        lemma_relative_time_text_short(session_key(sessions[i])->0, now_ms);
    }
    lemma_session_titles_aligned(sessions, times, options);
}

/// The rows of `sessions`, whose update times read `times` (one per session).
pub fn session_options_from_times(sessions: &[CodeSession], times: &Vec<String>) -> (r: Vec<
    SelectOptionData,
>)
    requires
        times@.len() == sessions@.len(),
    ensures
        are_session_options(sessions@, times@.map_values(|t: String| t@), r@),
{
    let ghost tv = times@.map_values(|t: String| t@);
    let mut width: usize = 7;
    for i in 0..times.len()
        invariant
            tv == times@.map_values(|t: String| t@),
            width == time_column_width(tv.subrange(0, i as int)),
    {
        let len = utf8_byte_len(times[i].as_str());
        assert(len == utf8_len(tv[i as int]));
        proof {
            assert(tv.subrange(0, i + 1).drop_last() =~= tv.subrange(0, i as int));
            assert(tv.subrange(0, i + 1).last() == times@[i as int]@);
        }
        if width < len {
            width = len;
        }
    }
    assert(tv.subrange(0, times@.len() as int) =~= tv);
    let mut r: Vec<SelectOptionData> = Vec::new();
    for i in 0..sessions.len()
        invariant
            times@.len() == sessions@.len(),
            tv == times@.map_values(|t: String| t@),
            width == time_column_width(tv),
            r@.len() == i,
            forall|k: int|
                0 <= k < i ==> (#[trigger] r@[k]).label@ == session_label(
                    tv[k],
                    time_column_width(tv),
                    sessions@[k].title@,
                ) && r@[k].value@ == sessions@[k].id@,
    {
        let time = chars_of(times[i].as_str());
        let mut label: Vec<char> = Vec::new();
        push_padded(&mut label, &time, width);
        label.push(' ');
        label.push(' ');
        let title = chars_of(sessions[i].title.as_str());
        push_all(&mut label, &title);
        assert(label@ =~= session_label(tv[i as int], time_column_width(tv), sessions@[i as int].title@));
        r.push(SelectOptionData { label: string_from_chars(&label), value: sessions[i].id.clone() });
    }
    r
}

/// The rows of `sessions` at the instant `now_ms`.
pub fn resume_task_session_options(sessions: &[CodeSession], now_ms: i64) -> (r: Vec<SelectOptionData>)
    ensures
        are_session_options(
            sessions@,
            sessions@.map_values(|s: CodeSession| session_time_text(s.updated_at@, now_ms)),
            r@,
        ),
{
    let mut times: Vec<String> = Vec::new();
    for i in 0..sessions.len()
        invariant
            times@.len() == i,
            forall|k: int| 0 <= k < i ==> (#[trigger] times@[k])@ == session_time_text(sessions@[k].updated_at@, now_ms),
    {
        let time = resume_task_time_string_at(sessions[i].updated_at.as_str(), now_ms);
        times.push(time);
    }
    assert(times@.map_values(|t: String| t@) =~= sessions@.map_values(
        |s: CodeSession| session_time_text(s.updated_at@, now_ms),
    ));
    session_options_from_times(sessions, &times)
}

} // verus!
