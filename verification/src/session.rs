//! Sessions: what is stored of a conversation, which session a project
//! continues, and how a stored row is read.

use vstd::prelude::*;

use crate::json::{Json, JsonView};
use crate::message::{Message, MessageView};
use crate::seqs::{group_views, opt_view};
use crate::text::{copy_of, eq_ignore_case, join2, lowered, str_eq};

verus! {

broadcast use group_views;

/// A point in time: seconds since 1970-01-01 UTC and nanoseconds.
#[derive(Debug, Clone, Copy, PartialEq, Eq, Structural)]
pub struct Timestamp {
    pub secs: i64,
    pub nanos: u32,
}

/// Metadata of one session, for the picker.
#[derive(Debug, PartialEq)]
pub struct SessionSummary {
    /// The 128 bits of the session's UUID.
    pub id: u128,
    pub title: String,
    pub created_at: Timestamp,
    pub updated_at: Timestamp,
}

/// What a [`SessionSummary`] stands for.
#[verifier::ext_equal]
pub struct SessionSummaryView {
    pub id: u128,
    pub title: Seq<char>,
    pub created_at: Timestamp,
    pub updated_at: Timestamp,
}

impl View for SessionSummary {
    type V = SessionSummaryView;

    open spec fn view(&self) -> SessionSummaryView {
        SessionSummaryView {
            id: self.id,
            title: self.title@,
            created_at: self.created_at,
            updated_at: self.updated_at,
        }
    }
}

/// How far a recorded tool execution got.
#[derive(Debug, Clone, Copy, PartialEq, Eq, Structural)]
pub enum ToolEventState {
    Started,
    Completed,
    Failed,
}

/// One entry of the execution log.
#[derive(Debug, PartialEq)]
pub struct ToolEvent {
    pub call_id: String,
    pub tool: String,
    pub arguments: Json,
    pub state: ToolEventState,
    pub output: String,
}

/// What a [`ToolEvent`] stands for.
#[verifier::ext_equal]
pub struct ToolEventView {
    pub call_id: Seq<char>,
    pub tool: Seq<char>,
    pub arguments: JsonView,
    pub state: ToolEventState,
    pub output: Seq<char>,
}

impl View for ToolEvent {
    type V = ToolEventView;

    open spec fn view(&self) -> ToolEventView {
        ToolEventView {
            call_id: self.call_id@,
            tool: self.tool@,
            arguments: self.arguments@,
            state: self.state,
            output: self.output@,
        }
    }
}

impl Clone for ToolEvent {
    fn clone(&self) -> (r: Self)
        ensures
            r@ == self@,
    {
        ToolEvent {
            call_id: copy_of(&self.call_id),
            tool: copy_of(&self.tool),
            arguments: self.arguments.clone(),
            state: self.state,
            output: copy_of(&self.output),
        }
    }
}

/// What a permission policy says of a tool call.
#[derive(Debug, Clone, Copy, PartialEq, Eq, Structural)]
pub enum PermissionDecision {
    Allow,
    /// The user has to answer first.
    Ask,
    Deny,
}

/// A policy that decides whether tool calls may run.
pub trait PermissionPolicy {
    /// What the policy says of a call, a denial unless it says otherwise.
    open spec fn decision(&self, tool_name: Seq<char>, arguments: JsonView) -> PermissionDecision {
        PermissionDecision::Deny
    }

    /// Decides on a call.
    fn approve(&self, tool_name: &str, arguments: &Json) -> (r: PermissionDecision)
        ensures
            r == self.decision(tool_name@, arguments@),
    ;
}

/// The policy that allows every call.
#[derive(Debug, Clone, Copy, PartialEq, Eq, Structural)]
pub struct AllowAll;

impl PermissionPolicy for AllowAll {
    open spec fn decision(&self, tool_name: Seq<char>, arguments: JsonView) -> PermissionDecision {
        PermissionDecision::Allow
    }

    fn approve(&self, tool_name: &str, arguments: &Json) -> (r: PermissionDecision) {
        PermissionDecision::Allow
    }
}

/// The name under which a message's kind is stored.
pub open spec fn role_of(m: MessageView) -> Seq<char> {
    match m {
        MessageView::System { .. } => "system"@,
        MessageView::User { .. } => "user"@,
        MessageView::Assistant { .. } => "assistant"@,
        MessageView::ToolResult { .. } => "tool"@,
    }
}

/// The name under which a message's kind is stored.
pub fn message_role(m: &Message) -> (r: &'static str)
    ensures
        r@ == role_of(m@),
{
    match m {
        Message::System { .. } => "system",
        Message::User { .. } => "user",
        Message::Assistant { .. } => "assistant",
        Message::ToolResult { .. } => "tool",
    }
}

/// The address of a database file: forward slashes behind the scheme.
pub open spec fn url_of(path: Seq<char>) -> Seq<char> {
    "sqlite://"@ + Seq::new(
        path.len(),
        |i: int|
            if path[i] == '\\' {
                '/'
            } else {
                path[i]
            },
    )
}

/// The address of a database file.
pub fn sqlite_url(path: &str) -> (r: String)
    ensures
        r@ == url_of(path@),
{
    let mut slashed = String::new();
    for c in it: path.chars()
        invariant
            it.seq() == path@,
            slashed@ == Seq::new(
                it.index() as nat,
                |i: int|
                    if path@[i] == '\\' {
                        '/'
                    } else {
                        path@[i]
                    },
            ),
    {
        slashed.push(if c == '\\' {
            '/'
        } else {
            c
        });
    }
    assert(url_of(path@) =~= "sqlite://"@ + slashed@);
    join2("sqlite://", &slashed)
}

/// The position under which the message `i` of a batch is stored, where
/// `base` is the greatest position in use, or -1.
pub fn ordinal_after(base: i64, i: usize) -> (r: i64)
    requires
        base + 1 + i <= i64::MAX,
        base >= -1,
    ensures
        r == base + 1 + i,
{
    base + 1 + i as i64
}

/// Messages that are appended take positions behind all messages that were
/// stored before, in their own order.
pub proof fn law_appended_messages_come_last(base: int, i: int, j: int, stored: int)
    requires
        stored <= base,
        0 <= i < j,
    ensures
        stored < base + 1 + i < base + 1 + j,
{
}

/// What is known of the project that a session belongs to.
#[derive(Debug, PartialEq)]
pub enum ProjectMarker {
    /// The marker could not be read.
    Unreadable,
    /// The session carries no marker: it is older than markers are.
    Missing,
    /// The marker.
    Value(Json),
}

/// One session and its project marker.
#[derive(Debug, PartialEq)]
pub struct Candidate {
    pub summary: SessionSummary,
    pub marker: ProjectMarker,
}

/// Whether the session is looked at: it has the wanted title, if one is
/// wanted.
pub open spec fn title_fits(c: Candidate, title: Option<Seq<char>>) -> bool {
    match title {
        Some(t) => c.summary.title@ == t,
        None => true,
    }
}

/// Whether the session belongs to the project at `root`; case does not
/// count.
pub open spec fn belongs_to(c: Candidate, root: Seq<char>) -> bool {
    match c.marker {
        ProjectMarker::Value(v) => match v@.text() {
            Some(p) => lowered(p) == lowered(root),
            None => false,
        },
        _ => false,
    }
}

/// Whether the session is looked at and belongs to the project.
pub open spec fn is_match(c: Candidate, root: Seq<char>, title: Option<Seq<char>>) -> bool {
    title_fits(c, title) && belongs_to(c, root)
}

/// Whether the session is looked at and carries no marker.
pub open spec fn is_legacy(c: Candidate, title: Option<Seq<char>>) -> bool {
    title_fits(c, title) && c.marker is Missing
}

fn title_is(c: &Candidate, title: Option<&str>) -> (r: bool)
    ensures
        r == title_fits(*c, opt_view(title)),
{
    match title {
        Some(t) => str_eq(&c.summary.title, t),
        None => true,
    }
}

fn is_of_project(c: &Candidate, root: &str) -> (r: bool)
    ensures
        r == belongs_to(*c, root@),
{
    match &c.marker {
        ProjectMarker::Value(v) => match v.as_str() {
            Some(p) => eq_ignore_case(p, root),
            None => false,
        },
        _ => false,
    }
}

/// The session that a project continues, as an index into `sessions`, which
/// come newest first: the newest that carries the project's marker, else
/// the newest without a marker. `title` narrows the search.
pub fn latest_session_for_project(
    sessions: &Vec<Candidate>,
    project_root: &str,
    title: Option<&str>,
) -> (r: Option<usize>)
    ensures
        match r {
            Some(i) => i < sessions@.len() && if is_match(
                sessions@[i as int],
                project_root@,
                opt_view(title),
            ) {
                forall|j: int|
                    0 <= j < i ==> !is_match(
                        #[trigger] sessions@[j],
                        project_root@,
                        opt_view(title),
                    )
            } else {
                &&& is_legacy(sessions@[i as int], opt_view(title))
                &&& forall|j: int|
                    0 <= j < i ==> !is_legacy(#[trigger] sessions@[j], opt_view(title))
                &&& forall|j: int|
                    0 <= j < sessions@.len() ==> !is_match(
                        #[trigger] sessions@[j],
                        project_root@,
                        opt_view(title),
                    )
            },
            None => forall|j: int|
                0 <= j < sessions@.len() ==> !is_match(
                    #[trigger] sessions@[j],
                    project_root@,
                    opt_view(title),
                ) && !is_legacy(sessions@[j], opt_view(title)),
        },
{
    let n: usize = sessions.len();
    let mut legacy: Option<usize> = None;
    for i in 0..n
        invariant
            n == sessions@.len(),
            forall|j: int|
                0 <= j < i ==> !is_match(
                    #[trigger] sessions@[j],
                    project_root@,
                    opt_view(title),
                ),
            match legacy {
                Some(k) => k < i && is_legacy(sessions@[k as int], opt_view(title)) && forall|j: int|
                    0 <= j < k ==> !is_legacy(#[trigger] sessions@[j], opt_view(title)),
                None => forall|j: int|
                    0 <= j < i ==> !is_legacy(#[trigger] sessions@[j], opt_view(title)),
            },
    {
        if title_is(&sessions[i], title) {
            if is_of_project(&sessions[i], project_root) {
                return Some(i);
            }
            let missing: bool = match &sessions[i].marker {
                ProjectMarker::Missing => true,
                _ => false,
            };
            if missing && legacy.is_none() {
                legacy = Some(i);
            }
        }
    }
    legacy
}

/// The instant that `chrono::DateTime::parse_from_rfc3339` reads from a
/// text, as seconds since 1970 and nanoseconds; nothing where the text is
/// not in that format.
pub uninterp spec fn rfc3339_instant(s: Seq<char>) -> Option<(i64, u32)>;

/// `chrono::DateTime::parse_from_rfc3339`: the instant, taken as its
/// `timestamp` and `timestamp_subsec_nanos`, is a function of the text.
#[verifier::external_body]
fn read_rfc3339(s: &str) -> (r: Option<(i64, u32)>)
    ensures
        r == rfc3339_instant(s@),
{
    chrono::DateTime::parse_from_rfc3339(s).ok().map(
        |d| (d.timestamp(), d.timestamp_subsec_nanos()),
    )
}

/// The instant read from a stored text, where `read` came out of it: the
/// start of 1970 where nothing did.
pub open spec fn instant_or_epoch(read: Option<(i64, u32)>) -> Timestamp {
    match read {
        Some(p) => Timestamp { secs: p.0, nanos: p.1 },
        None => Timestamp { secs: 0, nanos: 0 },
    }
}

/// The instant of a stored text that was read as `read`.
pub fn timestamp_or_epoch(read: Option<(i64, u32)>) -> (r: Timestamp)
    ensures
        r == instant_or_epoch(read),
{
    match read {
        Some(p) => Timestamp { secs: p.0, nanos: p.1 },
        None => Timestamp { secs: 0, nanos: 0 },
    }
}

/// The instant of a stored text.
pub fn parse_ts(s: &str) -> (r: Timestamp)
    ensures
        r == instant_or_epoch(rfc3339_instant(s@)),
{
    timestamp_or_epoch(read_rfc3339(s))
}

/// The bits of the UUID that `uuid::Uuid::parse_str` reads from a text;
/// nothing where the text is no UUID.
pub uninterp spec fn uuid_bits(s: Seq<char>) -> Option<u128>;

/// `uuid::Uuid::parse_str`: the UUID, taken as its `as_u128`, is a function
/// of the text.
#[verifier::external_body]
fn read_uuid(s: &str) -> (r: Option<u128>)
    ensures
        r == uuid_bits(s@),
{
    uuid::Uuid::parse_str(s).ok().map(|u| u.as_u128())
}

/// The text that `Uuid`'s `Display` writes for a UUID.
pub uninterp spec fn uuid_text(bits: u128) -> Seq<char>;

/// `uuid::Uuid::from_u128` and its `to_string`: the text is a function of
/// the bits, and `parse_str` reads the same bits back from it.
#[verifier::external_body]
fn write_uuid(bits: u128) -> (r: String)
    ensures
        r@ == uuid_text(bits),
        uuid_bits(r@) == Some(bits),
{
    uuid::Uuid::from_u128(bits).to_string()
}

/// The text under which a session is stored. The row that is stored under
/// it is read back with the same id.
pub fn session_text(id: u128) -> (r: String)
    ensures
        r@ == uuid_text(id),
        uuid_bits(r@) == Some(id),
{
    write_uuid(id)
}

/// The summary in a stored row; an id that is no UUID counts as the nil
/// UUID.
pub fn row_to_summary(id: &str, title: &str, created_at: &str, updated_at: &str) -> (r:
    SessionSummary)
    ensures
        r@ == (SessionSummaryView {
            id: match uuid_bits(id@) {
                Some(u) => u,
                None => 0,
            },
            title: title@,
            created_at: instant_or_epoch(rfc3339_instant(created_at@)),
            updated_at: instant_or_epoch(rfc3339_instant(updated_at@)),
        }),
{
    let bits: u128 = match read_uuid(id) {
        Some(u) => u,
        None => 0,
    };
    SessionSummary {
        id: bits,
        title: copy_of(title),
        created_at: parse_ts(created_at),
        updated_at: parse_ts(updated_at),
    }
}

/// A project continues a session whose marker is its own root, however it
/// is written as to case; a session of another root, without a readable
/// marker or with one that is no text, is not its own, and a wanted title
/// has to be the session's.
pub proof fn law_sessions_belong_to_their_project(
    c: Candidate,
    root: Seq<char>,
    title: Seq<char>,
)
    ensures
        c.marker matches ProjectMarker::Value(v) ==> v@ matches JsonView::Str(p) ==> (is_match(
            c,
            root,
            None,
        ) <==> lowered(p) == lowered(root)) && (p == root ==> is_match(c, root, None)),
        c.marker matches ProjectMarker::Value(v) ==> !(v@ is Str) ==> !is_match(c, root, None)
            && !is_legacy(c, None),
        c.marker is Missing ==> !is_match(c, root, None) && is_legacy(c, None),
        c.marker is Unreadable ==> !is_match(c, root, None) && !is_legacy(c, None),
        c.marker is Value ==> !is_legacy(c, None),
        is_match(c, root, Some(title)) <==> is_match(c, root, None) && c.summary.title@ == title,
        is_legacy(c, Some(title)) <==> is_legacy(c, None) && c.summary.title@ == title,
{
}

/// Messages of different kinds are stored under different names.
pub proof fn law_roles_tell_messages_apart(m: MessageView, n: MessageView)
    ensures
        role_of(m) == role_of(n) <==> (m is System <==> n is System) && (m is User <==> n is User)
            && (m is Assistant <==> n is Assistant) && (m is ToolResult <==> n is ToolResult),
        m is User <==> role_of(m) == "user"@,
        m is System <==> role_of(m) == "system"@,
        m is Assistant <==> role_of(m) == "assistant"@,
        m is ToolResult <==> role_of(m) == "tool"@,
{
    reveal_strlit("system");
    reveal_strlit("user");
    reveal_strlit("assistant");
    reveal_strlit("tool");
    assert("system"@.len() == 6 && "assistant"@.len() == 9 && "user"@.len() == 4 && "tool"@.len()
        == 4);
    assert("user"@[0] == 'u' && "tool"@[0] == 't');
}

/// The address of a database file is its path behind the scheme, with no
/// backslash left and every other character as it is.
pub proof fn law_address_keeps_the_path(path: Seq<char>)
    ensures
        ({
            let n = "sqlite://"@.len();
            let url = url_of(path);
            &&& url.len() == n + path.len()
            &&& url.take(n as int) == "sqlite://"@
            &&& forall|i: int|
                0 <= i < path.len() ==> url[n + i] != '\\' && (#[trigger] path[i] != '\\'
                    ==> url[n + i] == path[i]) && (path[i] == '\\' ==> url[n + i] == '/')
        }),
{
    assert(url_of(path).take("sqlite://"@.len() as int) =~= "sqlite://"@);
}

/// A stored time is the instant that was read from it, and the start of 1970
/// where none could be.
pub proof fn law_stored_time_is_read(secs: i64, nanos: u32)
    ensures
        instant_or_epoch(Some((secs, nanos))).secs == secs,
        instant_or_epoch(Some((secs, nanos))).nanos == nanos,
        instant_or_epoch(None).secs == 0 && instant_or_epoch(None).nanos == 0,
{
}

} // verus!
