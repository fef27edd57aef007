//! The user interface's state: the transcript, the input, and what the
//! agent's events and the user's commands do to them.

use vstd::prelude::*;

use crate::error::{error_text, Error};
use crate::event::{AgentEvent, AgentEventView};
use crate::message::{Message, MessageView};
use crate::seqs::{group_views, views};
use crate::session::{session_text, uuid_text, SessionSummary, SessionSummaryView};
use crate::text::{
    chars_of,
    contains,
    copy_of,
    decimal_i64,
    decimal_int,
    holds,
    join2,
    join3,
    split,
    split_by,
    str_eq,
    string_of,
    trim,
    trimmed,
};

verus! {

broadcast use group_views;

/// An entry of the transcript.
#[derive(Debug, PartialEq)]
pub enum Line {
    User(String),
    Assistant(String),
    Reasoning(String),
    Tool { command: String, output: String, done: bool },
    System(String),
    Warn(String),
    Error(String),
}

/// What a [`Line`] stands for.
#[verifier::ext_equal]
pub enum LineView {
    User(Seq<char>),
    Assistant(Seq<char>),
    Reasoning(Seq<char>),
    Tool { command: Seq<char>, output: Seq<char>, done: bool },
    System(Seq<char>),
    Warn(Seq<char>),
    Error(Seq<char>),
}

impl View for Line {
    type V = LineView;

    open spec fn view(&self) -> LineView {
        match self {
            Line::User(s) => LineView::User(s@),
            Line::Assistant(s) => LineView::Assistant(s@),
            Line::Reasoning(s) => LineView::Reasoning(s@),
            Line::Tool { command, output, done } => LineView::Tool {
                command: command@,
                output: output@,
                done: *done,
            },
            Line::System(s) => LineView::System(s@),
            Line::Warn(s) => LineView::Warn(s@),
            Line::Error(s) => LineView::Error(s@),
        }
    }
}

/// What is done after the user submits input.
#[derive(Debug, PartialEq)]
pub enum CommandAction {
    /// Send the text to the agent as a task.
    Send(String),
    /// Start a new session.
    NewSession,
    /// Resume the project's session.
    Resume,
    /// Trigger a compaction.
    Compact,
    /// Quit.
    Exit,
    /// Nothing.
    Nothing,
}

/// What a [`CommandAction`] stands for.
#[verifier::ext_equal]
pub enum CommandActionView {
    Send(Seq<char>),
    NewSession,
    Resume,
    Compact,
    Exit,
    Nothing,
}

impl View for CommandAction {
    type V = CommandActionView;

    open spec fn view(&self) -> CommandActionView {
        match self {
            CommandAction::Send(s) => CommandActionView::Send(s@),
            CommandAction::NewSession => CommandActionView::NewSession,
            CommandAction::Resume => CommandActionView::Resume,
            CommandAction::Compact => CommandActionView::Compact,
            CommandAction::Exit => CommandActionView::Exit,
            CommandAction::Nothing => CommandActionView::Nothing,
        }
    }
}

/// A tool call that still receives output.
#[derive(Debug)]
pub struct OpenTool {
    pub call_id: String,
    pub command: String,
    pub output: String,
}

/// What an [`OpenTool`] stands for.
#[verifier::ext_equal]
pub struct OpenToolView {
    pub call_id: Seq<char>,
    pub command: Seq<char>,
    pub output: Seq<char>,
}

impl View for OpenTool {
    type V = OpenToolView;

    open spec fn view(&self) -> OpenToolView {
        OpenToolView {
            call_id: self.call_id@,
            command: self.command@,
            output: self.output@,
        }
    }
}

/// The tool calls that still receive output, each call once.
#[derive(Debug)]
pub struct OpenTools {
    entries: Vec<OpenTool>,
}

impl View for OpenTools {
    type V = Seq<OpenToolView>;

    closed spec fn view(&self) -> Seq<OpenToolView> {
        views(self.entries@)
    }
}

/// The open call with the id, if there is one.
pub open spec fn open_tool(tools: Seq<OpenToolView>, id: Seq<char>) -> Option<OpenToolView>
    decreases tools.len(),
{
    if tools.len() == 0 {
        None
    } else if tools.last().call_id == id {
        Some(tools.last())
    } else {
        open_tool(tools.drop_last(), id)
    }
}

/// The open calls without the one with the id.
pub open spec fn without_tool(tools: Seq<OpenToolView>, id: Seq<char>) -> Seq<OpenToolView>
    decreases tools.len(),
{
    if tools.len() == 0 {
        tools
    } else if tools.last().call_id == id {
        without_tool(tools.drop_last(), id)
    } else {
        without_tool(tools.drop_last(), id).push(tools.last())
    }
}

/// The open calls with the output of the one with the id made longer.
pub open spec fn with_output(
    tools: Seq<OpenToolView>,
    id: Seq<char>,
    chunk: Seq<char>,
) -> Seq<OpenToolView> {
    Seq::new(
        tools.len(),
        |i: int|
            if tools[i].call_id == id {
                OpenToolView { output: tools[i].output + chunk, ..tools[i] }
            } else {
                tools[i]
            },
    )
}

impl OpenTools {
    pub fn new() -> (r: OpenTools)
        ensures
            r@ == Seq::<OpenToolView>::empty(),
    {
        OpenTools { entries: Vec::new() }
    }

    /// The open calls, oldest first.
    pub fn entries(&self) -> (r: &Vec<OpenTool>)
        ensures
            views(r@) == self@,
    {
        &self.entries
    }

    pub fn is_empty(&self) -> (r: bool)
        ensures
            r == (self@.len() == 0),
    {
        self.entries.len() == 0
    }

    /// Opens a call; an open call with the same id gives way.
    pub fn insert(&mut self, call_id: String, text: (String, String))
        ensures
            final(self)@ == without_tool(old(self)@, call_id@).push(
                OpenToolView { call_id: call_id@, command: text.0@, output: text.1@ },
            ),
    {
        let _ = self.remove(&call_id);
        self.entries.push(OpenTool { call_id, command: text.0, output: text.1 });
    }

    /// Closes a call and returns its command and output.
    pub fn remove(&mut self, call_id: &str) -> (r: Option<(String, String)>)
        ensures
            final(self)@ == without_tool(old(self)@, call_id@),
            match r {
                Some(t) => open_tool(old(self)@, call_id@) == Some(
                    OpenToolView { call_id: call_id@, command: t.0@, output: t.1@ },
                ),
                None => open_tool(old(self)@, call_id@) is None,
            },
    {
        let n: usize = self.entries.len();
        let ghost all = self@;
        let mut kept: Vec<OpenTool> = Vec::new();
        let mut taken: Option<(String, String)> = None;
        assert(views(kept@) =~= without_tool(all.take(0), call_id@));
        for i in 0..n
            invariant
                n == self.entries@.len(),
                all == views(self.entries@),
                views(kept@) == without_tool(all.take(i as int), call_id@),
                match taken {
                    Some(t) => open_tool(all.take(i as int), call_id@) == Some(
                        OpenToolView { call_id: call_id@, command: t.0@, output: t.1@ },
                    ),
                    None => open_tool(all.take(i as int), call_id@) is None,
                },
        {
            let e = &self.entries[i];
            assert(all.take(i + 1).drop_last() =~= all.take(i as int));
            if str_eq(&e.call_id, call_id) {
                taken = Some((copy_of(&e.command), copy_of(&e.output)));
            } else {
                kept.push(
                    OpenTool {
                        call_id: copy_of(&e.call_id),
                        command: copy_of(&e.command),
                        output: copy_of(&e.output),
                    },
                );
            }
        }
        assert(all.take(n as int) =~= all);
        self.entries = kept;
        taken
    }

    /// Appends to the output of an open call.
    pub fn append(&mut self, call_id: &str, chunk: &str)
        ensures
            final(self)@ == with_output(old(self)@, call_id@, chunk@),
    {
        let n: usize = self.entries.len();
        let ghost all = self@;
        let mut i: usize = 0;
        while i < n
            invariant
                n == self.entries@.len(),
                n == all.len(),
                i <= n,
                forall|j: int|
                    0 <= j < i ==> #[trigger] self.entries@[j]@ == with_output(
                        all,
                        call_id@,
                        chunk@,
                    )[j],
                forall|j: int| i <= j < n ==> #[trigger] self.entries@[j]@ == all[j],
            decreases n - i,
        {
            assert(self.entries@[i as int]@ == all[i as int]);
            if str_eq(&self.entries[i].call_id, call_id) {
                let longer = OpenTool {
                    call_id: copy_of(&self.entries[i].call_id),
                    command: copy_of(&self.entries[i].command),
                    output: join2(&self.entries[i].output, chunk),
                };
                self.entries.set(i, longer);
            }
            i = i + 1;
        }
        assert(self@ =~= with_output(all, call_id@, chunk@));
    }

    pub fn clear(&mut self)
        ensures
            final(self)@ == Seq::<OpenToolView>::empty(),
    {
        self.entries = Vec::new();
    }
}

/// The user interface's state.
#[derive(Debug)]
pub struct App {
    pub lines: Vec<Line>,
    pub input: String,
    pub busy: bool,
    pub session_id: Option<u128>,
    pub session_title: String,
    /// Rows scrolled up from the bottom; 0 follows the newest output.
    pub scroll_from_bottom: u16,
    /// Text of the answer that is being streamed.
    pub streaming_assistant: String,
    /// Reasoning of the answer that is being streamed.
    pub streaming_reasoning: String,
    /// Tool calls still receiving output.
    pub open_tools: OpenTools,
    pub status: String,
    pub should_quit: bool,
    /// The user asked to cancel; the main loop consumes this and signals
    /// the running turn.
    pub cancel_requested: bool,
    /// A tool call awaits approval: its id, tool and command.
    pub pending_approval: Option<(String, String, String)>,
}

/// What an [`App`] stands for.
#[verifier::ext_equal]
pub struct AppView {
    pub lines: Seq<LineView>,
    pub input: Seq<char>,
    pub busy: bool,
    pub session_id: Option<u128>,
    pub session_title: Seq<char>,
    pub scroll_from_bottom: u16,
    pub assistant: Seq<char>,
    pub reasoning: Seq<char>,
    pub open_tools: Seq<OpenToolView>,
    pub status: Seq<char>,
    pub should_quit: bool,
    pub cancel_requested: bool,
    pub pending: Option<(Seq<char>, Seq<char>, Seq<char>)>,
}

/// The view of an optional triple of texts.
pub open spec fn triple_view(p: Option<(String, String, String)>) -> Option<
    (Seq<char>, Seq<char>, Seq<char>),
> {
    match p {
        Some((a, b, c)) => Some((a@, b@, c@)),
        None => None,
    }
}

impl View for App {
    type V = AppView;

    open spec fn view(&self) -> AppView {
        AppView {
            lines: views(self.lines@),
            input: self.input@,
            busy: self.busy,
            session_id: self.session_id,
            session_title: self.session_title@,
            scroll_from_bottom: self.scroll_from_bottom,
            assistant: self.streaming_assistant@,
            reasoning: self.streaming_reasoning@,
            open_tools: self.open_tools@,
            status: self.status@,
            should_quit: self.should_quit,
            cancel_requested: self.cancel_requested,
            pending: triple_view(self.pending_approval),
        }
    }
}

/// What a line of input stands for: where it begins with a slash, the
/// command is its first word.
pub open spec fn command_word(text: Seq<char>) -> Seq<char> {
    split_by(text.drop_first(), ' ')[0]
}

/// The lines that a stored message shows.
pub open spec fn message_lines(m: MessageView) -> Seq<LineView> {
    match m {
        MessageView::User { content } => seq![LineView::User(content)],
        MessageView::Assistant { content, reasoning, .. } => {
            let thought = match reasoning {
                Some(r) => if r.len() > 0 {
                    seq![LineView::Reasoning(r)]
                } else {
                    Seq::empty()
                },
                None => Seq::empty(),
            };
            let text = if content.len() > 0 {
                seq![LineView::Assistant(content)]
            } else {
                Seq::empty()
            };
            thought + text
        },
        MessageView::ToolResult { content, is_error, .. } => if is_error {
            seq![LineView::Error(content)]
        } else {
            seq![LineView::Tool { command: "(tool result)"@, output: content, done: true }]
        },
        MessageView::System { .. } => Seq::empty(),
    }
}

/// The lines that stored messages show, in order.
pub open spec fn messages_lines(msgs: Seq<MessageView>) -> Seq<LineView>
    decreases msgs.len(),
{
    if msgs.len() == 0 {
        Seq::empty()
    } else {
        messages_lines(msgs.drop_last()) + message_lines(msgs.last())
    }
}

impl AppView {
    /// With one more line.
    pub open spec fn push_line(self, line: LineView) -> AppView {
        AppView { lines: self.lines.push(line), ..self }
    }

    /// With another status.
    pub open spec fn set_status(self, status: Seq<char>) -> AppView {
        AppView { status, ..self }
    }

    /// Streamed text has become part of the transcript.
    pub open spec fn flushed(self) -> AppView {
        let first = if self.reasoning.len() > 0 {
            AppView { reasoning: Seq::empty(), ..self }.push_line(
                LineView::Reasoning(self.reasoning),
            )
        } else {
            self
        };
        if self.assistant.len() > 0 {
            AppView { assistant: Seq::empty(), ..first }.push_line(
                LineView::Assistant(self.assistant),
            )
        } else {
            first
        }
    }

    /// A tool call has started.
    pub open spec fn tool_started(self, call_id: Seq<char>, command: Seq<char>) -> AppView {
        let open = AppView {
            open_tools: without_tool(self.open_tools, call_id).push(
                OpenToolView { call_id, command, output: Seq::empty() },
            ),
            ..self.flushed()
        };
        if self.pending is Some {
            AppView { pending: None, ..open }.set_status("running…"@)
        } else {
            open
        }
    }

    /// A tool call has completed: what was shown of it live stands where its
    /// final output is blank.
    pub open spec fn tool_completed(self, call_id: Seq<char>, output: Seq<char>) -> AppView {
        let closed_tool = AppView {
            open_tools: without_tool(self.open_tools, call_id),
            ..self
        };
        match open_tool(self.open_tools, call_id) {
            Some(t) => closed_tool.push_line(
                LineView::Tool {
                    command: t.command,
                    output: if trimmed(output).len() == 0 {
                        t.output
                    } else {
                        output
                    },
                    done: true,
                },
            ),
            None => closed_tool,
        }
    }

    /// What an event of the agent does.
    pub open spec fn event(self, ev: AgentEventView) -> AppView {
        match ev {
            AgentEventView::TurnStarted => AppView {
                busy: true,
                assistant: Seq::empty(),
                reasoning: Seq::empty(),
                ..self
            }.set_status("thinking…"@),
            AgentEventView::MessageDelta { delta } => AppView {
                assistant: self.assistant + delta,
                ..self
            },
            AgentEventView::ReasoningDelta { delta } => AppView {
                reasoning: self.reasoning + delta,
                ..self
            },
            AgentEventView::ApprovalRequested { call_id, tool, command } => AppView {
                pending: Some((call_id, tool, command)),
                ..self
            }.set_status("approve "@ + tool + "? y/n/a"@).push_line(
                LineView::System(
                    "approval needed: "@ + tool + " "@ + command
                        + " — [y] run once · [a] allow this session · [n] deny"@,
                ),
            ),
            AgentEventView::ToolCallStarted { call_id, command, .. } => self.tool_started(
                call_id,
                command,
            ),
            AgentEventView::ToolCallOutputDelta { call_id, chunk } => AppView {
                open_tools: with_output(self.open_tools, call_id, chunk),
                ..self
            },
            AgentEventView::ToolCallCompleted { call_id, output, .. } => self.tool_completed(
                call_id,
                output,
            ),
            AgentEventView::TokenCountUpdated { used, limit } => self.set_status(
                "tokens ~"@ + decimal_int(used as int) + "/"@ + decimal_int(limit as int),
            ),
            AgentEventView::CompactionStarted => self.push_line(
                LineView::System("compacting context…"@),
            ),
            AgentEventView::CompactionCompleted { tokens_before, tokens_after } => self.push_line(
                LineView::System(
                    "compaction done: ~"@ + decimal_int(tokens_before as int) + " → ~"@
                        + decimal_int(tokens_after as int) + " tokens"@,
                ),
            ),
            AgentEventView::Warning { message } => self.push_line(LineView::Warn(message)),
            AgentEventView::TurnCompleted { .. } => {
                let done = AppView { busy: false, ..self }.flushed();
                if holds(self.status, "error"@) {
                    done
                } else {
                    done.set_status("ready"@)
                }
            },
            AgentEventView::Error { message } => AppView { busy: false, ..self }.push_line(
                LineView::Error(message),
            ).set_status("error"@),
        }
    }

    /// What submitting the input does.
    pub open spec fn submitted(self) -> (AppView, CommandActionView) {
        let text = trimmed(self.input);
        let after = AppView { input: Seq::empty(), ..self };
        if text.len() == 0 {
            (after, CommandActionView::Nothing)
        } else if text[0] == '/' {
            let word = command_word(text);
            if word == "new"@ {
                (after, CommandActionView::NewSession)
            } else if word == "resume"@ {
                (after, CommandActionView::Resume)
            } else if word == "compact"@ {
                (after, CommandActionView::Compact)
            } else if word == "exit"@ || word == "quit"@ {
                (after, CommandActionView::Exit)
            } else if word == "help"@ {
                (
                    after.push_line(
                        LineView::System("commands: /new /resume /compact /exit"@),
                    ),
                    CommandActionView::Nothing,
                )
            } else {
                (
                    after.push_line(LineView::Warn("unknown command: "@ + text)),
                    CommandActionView::Nothing,
                )
            }
        } else {
            (after.push_line(LineView::User(text)), CommandActionView::Send(text))
        }
    }

    /// A stored session is shown. Its own title is kept; one without a title
    /// is named by its id.
    pub open spec fn loaded(self, s: SessionSummaryView, msgs: Seq<MessageView>) -> AppView {
        let title = trimmed(s.title);
        AppView {
            lines: messages_lines(msgs),
            session_id: Some(s.id),
            session_title: if title.len() == 0 {
                "session "@ + uuid_text(s.id)
            } else {
                title
            },
            ..self
        }.set_status("resumed"@)
    }
}

/// The title for a session that begins with the given text; `stamp` names
/// it where there is no text.
pub open spec fn title_for(first_user_text: Seq<char>, stamp: Seq<char>) -> Seq<char> {
    if first_user_text.len() == 0 {
        "session "@ + stamp
    } else if first_user_text.len() <= 40 {
        first_user_text
    } else {
        first_user_text.take(40)
    }
}

impl App {
    /// The state at the start.
    pub fn new() -> (r: App)
        ensures
            r@ == (AppView {
                lines: Seq::empty(),
                input: Seq::empty(),
                busy: false,
                session_id: None,
                session_title: "(new session)"@,
                scroll_from_bottom: 0,
                assistant: Seq::empty(),
                reasoning: Seq::empty(),
                open_tools: Seq::empty(),
                status: "ready"@,
                should_quit: false,
                cancel_requested: false,
                pending: None,
            }),
    {
        let r = App {
            lines: Vec::new(),
            input: String::new(),
            busy: false,
            session_id: None,
            session_title: copy_of("(new session)"),
            scroll_from_bottom: 0,
            streaming_assistant: String::new(),
            streaming_reasoning: String::new(),
            open_tools: OpenTools::new(),
            status: copy_of("ready"),
            should_quit: false,
            cancel_requested: false,
            pending_approval: None,
        };
        assert(r@.input =~= Seq::empty());
        assert(r@.assistant =~= Seq::empty());
        assert(r@.reasoning =~= Seq::empty());
        r
    }

    /// Whether the user asked to cancel; asked once, answered once.
    pub fn take_cancel_request(&mut self) -> (r: bool)
        ensures
            r == old(self)@.cancel_requested,
            final(self)@ == (AppView { cancel_requested: false, ..old(self)@ }),
    {
        let r: bool = self.cancel_requested;
        self.cancel_requested = false;
        r
    }

    /// The call that awaits approval, which then no longer does.
    pub fn take_pending_approval(&mut self) -> (r: Option<(String, String, String)>)
        ensures
            triple_view(r) == old(self)@.pending,
            final(self)@ == (AppView { pending: None, ..old(self)@ }),
    {
        let mut p: Option<(String, String, String)> = None;
        std::mem::swap(&mut p, &mut self.pending_approval);
        p
    }

    /// Drops the transcript and what is being streamed.
    pub fn clear_transient(&mut self)
        ensures
            final(self)@ == (AppView {
                lines: Seq::empty(),
                assistant: Seq::empty(),
                reasoning: Seq::empty(),
                open_tools: Seq::empty(),
                scroll_from_bottom: 0,
                ..old(self)@
            }),
    {
        self.lines = Vec::new();
        self.streaming_assistant = String::new();
        self.streaming_reasoning = String::new();
        self.open_tools.clear();
        self.scroll_from_bottom = 0;
        assert(self.streaming_assistant@ =~= Seq::empty());
        assert(self.streaming_reasoning@ =~= Seq::empty());
    }

    /// Appends a line to the transcript.
    pub fn push_line(&mut self, line: Line)
        ensures
            final(self)@ == old(self)@.push_line(line@),
    {
        self.lines.push(line);
    }

    fn flush_streaming(&mut self)
        ensures
            final(self)@ == old(self)@.flushed(),
    {
        if !self.streaming_reasoning.as_str().is_empty() {
            let mut t = String::new();
            std::mem::swap(&mut t, &mut self.streaming_reasoning);
            self.push_line(Line::Reasoning(t));
            assert(self.streaming_reasoning@ =~= Seq::empty());
        }
        if !self.streaming_assistant.as_str().is_empty() {
            let mut t = String::new();
            std::mem::swap(&mut t, &mut self.streaming_assistant);
            self.push_line(Line::Assistant(t));
            assert(self.streaming_assistant@ =~= Seq::empty());
        }
    }

    fn on_tool_started(&mut self, call_id: String, command: String)
        ensures
            final(self)@ == old(self)@.tool_started(call_id@, command@),
    {
        let waiting: bool = self.pending_approval.is_some();
        self.flush_streaming();
        let nothing = String::new();
        assert(nothing@ =~= Seq::empty());
        self.open_tools.insert(call_id, (command, nothing));
        if waiting {
            self.pending_approval = None;
            self.status = copy_of("running…");
        }
    }

    fn on_tool_completed(&mut self, call_id: String, output: String)
        ensures
            final(self)@ == old(self)@.tool_completed(call_id@, output@),
    {
        match self.open_tools.remove(&call_id) {
            Some((command, live)) => {
                let shown = if trim(&output).as_str().is_empty() {
                    live
                } else {
                    output
                };
                self.push_line(Line::Tool { command, output: shown, done: true });
            },
            None => {},
        }
    }

    /// Takes one event from the agent.
    pub fn on_agent_event(&mut self, ev: AgentEvent)
        ensures
            final(self)@ == old(self)@.event(ev@),
    {
        match ev {
            AgentEvent::TurnStarted => {
                self.busy = true;
                self.streaming_assistant = String::new();
                self.streaming_reasoning = String::new();
                assert(self.streaming_assistant@ =~= Seq::empty());
                assert(self.streaming_reasoning@ =~= Seq::empty());
                self.status = copy_of("thinking…");
            },
            AgentEvent::MessageDelta { delta } => {
                self.streaming_assistant = join2(&self.streaming_assistant, &delta);
            },
            AgentEvent::ReasoningDelta { delta } => {
                self.streaming_reasoning = join2(&self.streaming_reasoning, &delta);
            },
            AgentEvent::ApprovalRequested { call_id, tool, command } => {
                self.status = join3("approve ", &tool, "? y/n/a");
                let head = join3("approval needed: ", &tool, " ");
                let text = join3(
                    &head,
                    &command,
                    " — [y] run once · [a] allow this session · [n] deny",
                );
                self.pending_approval = Some((call_id, tool, command));
                self.push_line(Line::System(text));
            },
            AgentEvent::ToolCallStarted { call_id, name: _, command } => {
                self.on_tool_started(call_id, command);
            },
            AgentEvent::ToolCallOutputDelta { call_id, chunk } => {
                self.open_tools.append(&call_id, &chunk);
            },
            AgentEvent::ToolCallCompleted { call_id, output, .. } => {
                self.on_tool_completed(call_id, output);
            },
            AgentEvent::TokenCountUpdated { used, limit } => {
                let head = join3("tokens ~", &decimal_i64(used), "/");
                self.status = join2(&head, &decimal_i64(limit));
            },
            AgentEvent::CompactionStarted => {
                self.push_line(Line::System(copy_of("compacting context…")));
            },
            AgentEvent::CompactionCompleted { tokens_before, tokens_after } => {
                let head = join3("compaction done: ~", &decimal_i64(tokens_before), " → ~");
                let text = join3(&head, &decimal_i64(tokens_after), " tokens");
                self.push_line(Line::System(text));
            },
            AgentEvent::Warning { message } => {
                self.push_line(Line::Warn(message));
            },
            AgentEvent::TurnCompleted { .. } => {
                self.busy = false;
                self.flush_streaming();
                if !contains(&self.status, "error") {
                    self.status = copy_of("ready");
                }
            },
            AgentEvent::Error { message } => {
                self.push_line(Line::Error(message));
                self.busy = false;
                self.status = copy_of("error");
            },
        }
    }

    /// Takes the input and returns what is to be done.
    pub fn on_submit(&mut self) -> (r: CommandAction)
        ensures
            (final(self)@, r@) == old(self)@.submitted(),
    {
        let text = trim(&self.input);
        self.input = String::new();
        assert(self.input@ =~= Seq::empty());
        if text.as_str().is_empty() {
            return CommandAction::Nothing;
        }
        let v = chars_of(&text);
        if v[0] == '/' {
            let n: usize = v.len();
            let rest = string_of(&v, 1, n);
            assert(rest@ =~= text@.drop_first());
            let parts = split(&rest, ' ');
            proof {
                crate::text::lemma_split_nonempty(rest@, ' ');
                assert(views(parts@).len() == parts@.len());
            }
            let word = &parts[0];
            if str_eq(word, "new") {
                return CommandAction::NewSession;
            }
            if str_eq(word, "resume") {
                return CommandAction::Resume;
            }
            if str_eq(word, "compact") {
                return CommandAction::Compact;
            }
            if str_eq(word, "exit") || str_eq(word, "quit") {
                return CommandAction::Exit;
            }
            if str_eq(word, "help") {
                self.push_line(Line::System(copy_of("commands: /new /resume /compact /exit")));
                return CommandAction::Nothing;
            }
            self.push_line(Line::Warn(join2("unknown command: ", &text)));
            return CommandAction::Nothing;
        }
        self.push_line(Line::User(copy_of(&text)));
        CommandAction::Send(text)
    }

    /// Shows a stored session, given what loading its messages gave.
    pub fn load_session(&mut self, s: &SessionSummary, loaded: Result<Vec<Message>, Error>)
        ensures
            final(self)@ == match loaded {
                Ok(msgs) => old(self)@.loaded(s@, views(msgs@)),
                Err(e) => old(self)@.push_line(
                    LineView::Error("load failed: "@ + error_text(e@)),
                ),
            },
    {
        match loaded {
            Ok(msgs) => {
                self.lines = lines_of(&msgs);
                self.session_id = Some(s.id);
                let title = trim(&s.title);
                self.session_title = if title.as_str().is_empty() {
                    join2("session ", &session_text(s.id))
                } else {
                    title
                };
                self.status = copy_of("resumed");
            },
            Err(e) => {
                self.push_line(Line::Error(join2("load failed: ", &e.message())));
            },
        }
    }

    /// Decides what becomes of an action. Quitting works in the middle of a
    /// turn, which it cancels; everything else waits for the turn's end and
    /// is dropped until then.
    pub fn dispatch(&mut self, action: CommandAction) -> (r: CommandAction)
        ensures
            match action@ {
                CommandActionView::Exit => {
                    &&& r@ == CommandActionView::Nothing
                    &&& final(self)@ == (AppView {
                        should_quit: true,
                        cancel_requested: old(self)@.cancel_requested || old(self)@.busy,
                        ..old(self)@
                    })
                },
                a => {
                    &&& r@ == (if old(self)@.busy {
                        CommandActionView::Nothing
                    } else {
                        a
                    })
                    &&& final(self)@ == old(self)@
                },
            },
    {
        if matches!(action, CommandAction::Exit) {
            self.should_quit = true;
            if self.busy {
                self.cancel_requested = true;
            }
            return CommandAction::Nothing;
        }
        if self.busy {
            CommandAction::Nothing
        } else {
            action
        }
    }

    /// Leaves the session: the next turn belongs to a new one.
    pub fn leave_session(&mut self)
        ensures
            final(self)@ == (AppView {
                lines: Seq::empty(),
                assistant: Seq::empty(),
                reasoning: Seq::empty(),
                open_tools: Seq::empty(),
                scroll_from_bottom: 0,
                session_id: None,
                session_title: "(new session)"@,
                status: "ready"@,
                ..old(self)@
            }),
    {
        self.session_id = None;
        self.clear_transient();
        self.session_title = copy_of("(new session)");
        self.status = copy_of("ready");
    }

    /// Takes over the session that was created under a title, or says why
    /// there is none.
    pub fn on_session_created(&mut self, created: Result<u128, Error>, title: String)
        ensures
            final(self)@ == match created {
                Ok(id) => AppView {
                    session_id: Some(id),
                    session_title: title@,
                    ..old(self)@
                },
                Err(e) => old(self)@.push_line(
                    LineView::Error("session create failed: "@ + error_text(e@)),
                ),
            },
    {
        match created {
            Ok(id) => {
                self.session_id = Some(id);
                self.session_title = title;
            },
            Err(e) => {
                self.push_line(Line::Error(join2("session create failed: ", &e.message())));
            },
        }
    }

    /// Says that there is no session to resume, and why where listing them
    /// failed.
    pub fn on_nothing_to_resume(&mut self, failure: Option<Error>)
        ensures
            final(self)@ == old(self)@.push_line(
                match failure {
                    None => LineView::System("no saved sessions for this project"@),
                    Some(e) => LineView::Error("cannot list sessions: "@ + error_text(e@)),
                },
            ),
    {
        match failure {
            None => {
                self.push_line(Line::System(copy_of("no saved sessions for this project")));
            },
            Some(e) => {
                self.push_line(Line::Error(join2("cannot list sessions: ", &e.message())));
            },
        }
    }

    /// Shows how a compaction that the user asked for ended.
    pub fn on_compacted(&mut self, result: Result<(i64, i64), Error>)
        ensures
            final(self)@ == old(self)@.push_line(
                match result {
                    Ok((before, after)) => LineView::System(
                        "manual compaction: ~"@ + decimal_int(before as int) + " → ~"@
                            + decimal_int(after as int) + " tokens"@,
                    ),
                    Err(e) => LineView::Error(error_text(e@)),
                },
            ),
    {
        match result {
            Ok((before, after)) => {
                let head = join3("manual compaction: ~", &decimal_i64(before), " → ~");
                let text = join3(&head, &decimal_i64(after), " tokens");
                self.push_line(Line::System(text));
            },
            Err(e) => {
                self.push_line(Line::Error(e.message()));
            },
        }
    }

    /// The title for a session that begins with the given text; `stamp`
    /// names it where there is no text.
    pub fn maybe_title(&self, first_user_text: &str, stamp: &str) -> (r: String)
        ensures
            r@ == title_for(first_user_text@, stamp@),
    {
        let v = chars_of(first_user_text);
        let n: usize = v.len();
        if n == 0 {
            join2("session ", stamp)
        } else if n <= 40 {
            copy_of(first_user_text)
        } else {
            let r = string_of(&v, 0, 40);
            assert(r@ =~= first_user_text@.take(40));
            r
        }
    }
}

fn push_message_lines(m: &Message, out: &mut Vec<Line>)
    ensures
        views(final(out)@) == views(old(out)@) + message_lines(m@),
{
    let ghost before = views(out@);
    match m {
        Message::User { content } => {
            out.push(Line::User(copy_of(content)));
        },
        Message::Assistant { content, reasoning, .. } => {
            if let Some(r) = reasoning {
                if !r.as_str().is_empty() {
                    out.push(Line::Reasoning(copy_of(r)));
                }
            }
            if !content.as_str().is_empty() {
                out.push(Line::Assistant(copy_of(content)));
            }
        },
        Message::ToolResult { content, is_error, .. } => {
            if *is_error {
                out.push(Line::Error(copy_of(content)));
            } else {
                out.push(
                    Line::Tool {
                        command: copy_of("(tool result)"),
                        output: copy_of(content),
                        done: true,
                    },
                );
            }
        },
        Message::System { .. } => {},
    }
    assert(views(out@) =~= before + message_lines(m@));
}

fn lines_of(msgs: &Vec<Message>) -> (r: Vec<Line>)
    ensures
        views(r@) == messages_lines(views(msgs@)),
{
    let n: usize = msgs.len();
    let mut r: Vec<Line> = Vec::new();
    for i in 0..n
        invariant
            n == msgs@.len(),
            views(r@) == messages_lines(views(msgs@).take(i as int)),
    {
        push_message_lines(&msgs[i], &mut r);
        assert(views(msgs@).take(i + 1).drop_last() =~= views(msgs@).take(i as int));
    }
    assert(views(msgs@).take(n as int) =~= views(msgs@));
    r
}

/// How the user answers a call that awaits approval.
#[derive(Debug, Clone, Copy, PartialEq, Eq)]
pub enum Answer {
    /// Run the call.
    Once,
    /// Run the call, and its tool from now on in this session.
    Session,
    /// Do not run the call.
    Deny,
}

/// What a key answers.
pub open spec fn answer_of(key: char) -> Option<Answer> {
    if key == 'y' {
        Some(Answer::Once)
    } else if key == 'a' {
        Some(Answer::Session)
    } else if key == 'n' {
        Some(Answer::Deny)
    } else {
        None
    }
}

impl App {
    /// Answers the call that awaits approval, where there is one and the key
    /// is an answer; returns the call's id and tool with it.
    pub fn answer_approval(&mut self, key: char) -> (r: Option<(String, String, Answer)>)
        ensures
            match (old(self)@.pending, answer_of(key)) {
                (Some(p), Some(a)) => {
                    &&& r matches Some((id, tool, answer))
                    &&& id@ == p.0
                    &&& tool@ == p.1
                    &&& answer == a
                    &&& final(self)@ == (AppView { pending: None, ..old(self)@ })
                },
                _ => r is None && final(self)@ == old(self)@,
            },
    {
        if self.pending_approval.is_none() {
            return None;
        }
        let answer = if key == 'y' {
            Answer::Once
        } else if key == 'a' {
            Answer::Session
        } else if key == 'n' {
            Answer::Deny
        } else {
            return None;
        };
        match self.take_pending_approval() {
            Some((id, tool, _)) => Some((id, tool, answer)),
            None => None,
        }
    }
}

/// The interface never stays busy: whatever it showed before, both the end
/// of a turn and an error leave it ready for input.
pub proof fn law_turn_end_clears_busy(app: AppView, ev: AgentEventView)
    requires
        ev is TurnCompleted || ev is Error,
    ensures
        !app.event(ev).busy,
{
}

/// Nothing that was streamed is lost when a turn ends: it stands in the
/// transcript, reasoning before text.
pub proof fn law_streamed_text_is_kept(app: AppView)
    ensures
        app.flushed().reasoning.len() == 0,
        app.flushed().assistant.len() == 0,
        app.reasoning.len() > 0 ==> app.flushed().lines[app.lines.len() as int]
            == LineView::Reasoning(app.reasoning),
        app.assistant.len() > 0 ==> app.flushed().lines.last() == LineView::Assistant(
            app.assistant,
        ),
{
}

/// Each open call has an id of its own.
pub open spec fn distinct(tools: Seq<OpenToolView>) -> bool {
    forall|i: int, j: int|
        0 <= i < j < tools.len() ==> (#[trigger] tools[i]).call_id != (
        #[trigger] tools[j]).call_id
}

proof fn lemma_without_tool(tools: Seq<OpenToolView>, id: Seq<char>)
    requires
        distinct(tools),
    ensures
        distinct(without_tool(tools, id)),
        forall|i: int|
            0 <= i < without_tool(tools, id).len() ==> {
                let t = #[trigger] without_tool(tools, id)[i];
                t.call_id != id && tools.contains(t)
            },
    decreases tools.len(),
{
    if tools.len() > 0 {
        let head = tools.drop_last();
        lemma_without_tool(head, id);
        let kept = without_tool(head, id);
        let n = tools.len() - 1;
        assert forall|i: int| 0 <= i < kept.len() implies kept[i].call_id != tools[n].call_id
            && tools.contains(#[trigger] kept[i]) by {
            let k = choose|k: int| 0 <= k < head.len() && head[k] == kept[i];
            assert(tools[k] == kept[i]);
        }
        if tools.last().call_id != id {
            let r = kept.push(tools.last());
            assert forall|i: int| 0 <= i < r.len() implies {
                let t = #[trigger] r[i];
                t.call_id != id && tools.contains(t)
            } by {
                if i < kept.len() {
                    assert(r[i] == kept[i]);
                } else {
                    assert(r[i] == tools[n]);
                }
            }
        }
    }
}

/// A call is shown once: whatever opens, adds to or closes calls keeps their
/// ids distinct.
pub proof fn law_each_call_is_open_once(
    tools: Seq<OpenToolView>,
    opened: OpenToolView,
    chunk: Seq<char>,
)
    requires
        distinct(tools),
    ensures
        distinct(without_tool(tools, opened.call_id)),
        distinct(without_tool(tools, opened.call_id).push(opened)),
        distinct(with_output(tools, opened.call_id, chunk)),
{
    lemma_without_tool(tools, opened.call_id);
}

/// Output of a call that is open is shown with it, and no other call
/// changes.
pub proof fn law_output_goes_to_its_call(
    tools: Seq<OpenToolView>,
    id: Seq<char>,
    chunk: Seq<char>,
    i: int,
)
    requires
        0 <= i < tools.len(),
    ensures
        with_output(tools, id, chunk)[i].command == tools[i].command,
        with_output(tools, id, chunk)[i].output == if tools[i].call_id == id {
            tools[i].output + chunk
        } else {
            tools[i].output
        },
{
}

/// What is streamed is shown as it grows: each delta goes behind what is
/// there, text to text and reasoning to reasoning, and nothing else changes.
pub proof fn law_deltas_are_appended(app: AppView, delta: Seq<char>)
    ensures
        app.event(AgentEventView::MessageDelta { delta }) == (AppView {
            assistant: app.assistant + delta,
            ..app
        }),
        app.event(AgentEventView::ReasoningDelta { delta }) == (AppView {
            reasoning: app.reasoning + delta,
            ..app
        }),
{
}

/// A turn begins busy and with nothing streamed, and ends ready: what was
/// streamed is then at the end of the transcript, reasoning before text,
/// and the lines before it are as they were. Only an error stays on show.
pub proof fn law_turn_is_framed(app: AppView, usage: crate::message::Usage)
    ensures
        ({
            let started = app.event(AgentEventView::TurnStarted);
            let ended = app.event(AgentEventView::TurnCompleted { usage });
            let n = app.lines.len();
            &&& started.busy && started.assistant.len() == 0 && started.reasoning.len() == 0
            &&& started.lines == app.lines && started.input == app.input
            &&& !ended.busy && ended.assistant.len() == 0 && ended.reasoning.len() == 0
            &&& ended.lines.take(n as int) == app.lines
            &&& ended.lines.len() == n + (if app.reasoning.len() > 0 {
                1int
            } else {
                0int
            }) + (if app.assistant.len() > 0 {
                1int
            } else {
                0int
            })
            &&& app.reasoning.len() > 0 ==> ended.lines[n as int] == LineView::Reasoning(
                app.reasoning,
            )
            &&& app.assistant.len() > 0 ==> ended.lines.last() == LineView::Assistant(
                app.assistant,
            )
            &&& holds(app.status, "error"@) ==> ended.status == app.status
            &&& !holds(app.status, "error"@) ==> ended.status == "ready"@
            &&& ended.input == app.input
        }),
{
    let ended = app.event(AgentEventView::TurnCompleted { usage });
    assert(ended.lines.take(app.lines.len() as int) =~= app.lines);
}

/// Warnings and errors are shown, each as a line of its own at the end; an
/// error also ends the waiting and stays in the status.
pub proof fn law_problems_are_shown(app: AppView, message: Seq<char>)
    ensures
        app.event(AgentEventView::Warning { message }).lines == app.lines.push(
            LineView::Warn(message),
        ),
        app.event(AgentEventView::Error { message }).lines == app.lines.push(
            LineView::Error(message),
        ),
        app.event(AgentEventView::Error { message }).status == "error"@,
        !app.event(AgentEventView::Error { message }).busy,
{
}

/// A call that needs approval waits with its id, tool and command, and the
/// user is shown both the tool and the command.
pub proof fn law_approval_is_asked_for(
    app: AppView,
    call_id: Seq<char>,
    tool: Seq<char>,
    command: Seq<char>,
)
    ensures
        ({
            let after = app.event(AgentEventView::ApprovalRequested { call_id, tool, command });
            &&& after.pending == Some((call_id, tool, command))
            &&& after.lines.len() == app.lines.len() + 1
            &&& after.lines.drop_last() == app.lines
            &&& after.lines.last() matches LineView::System(t) && holds(t, tool + " "@ + command)
            &&& holds(after.status, tool)
            &&& after.busy == app.busy
        }),
{
    let after = app.event(AgentEventView::ApprovalRequested { call_id, tool, command });
    assert(after.lines.drop_last() =~= app.lines);
    let head = "approval needed: "@;
    let tail = " — [y] run once · [a] allow this session · [n] deny"@;
    let t = head + tool + " "@ + command + tail;
    let mid = tool + " "@ + command;
    let k = head.len() as int;
    assert(t.subrange(k, k + mid.len()) =~= mid);
    assert(crate::text::holds_at(t, mid, k));
    let s = after.status;
    let j = "approve "@.len() as int;
    assert(s.subrange(j, j + tool.len()) =~= tool);
    assert(crate::text::holds_at(s, tool, j));
}

proof fn lemma_without_tool_filter(tools: Seq<OpenToolView>, id: Seq<char>)
    ensures
        without_tool(tools, id) == tools.filter(|t: OpenToolView| t.call_id != id),
    decreases tools.len(),
{
    reveal(Seq::filter);
    if tools.len() > 0 {
        lemma_without_tool_filter(tools.drop_last(), id);
    } else {
        assert(tools =~= tools.filter(|t: OpenToolView| t.call_id != id));
    }
}

proof fn lemma_open_tool(tools: Seq<OpenToolView>, id: Seq<char>, i: int)
    requires
        distinct(tools),
        0 <= i < tools.len(),
        tools[i].call_id == id,
    ensures
        open_tool(tools, id) == Some(tools[i]),
    decreases tools.len(),
{
    let n = tools.len() - 1;
    if i < n {
        assert(tools[i].call_id != tools[n].call_id);
        assert(tools.drop_last()[i] == tools[i]);
        lemma_open_tool(tools.drop_last(), id, i);
    }
}

/// A call that starts is shown with its command and without output, behind
/// the calls that are open; what was streamed before it becomes part of the
/// transcript, and a question about it is settled.
pub proof fn law_started_call_is_shown(
    app: AppView,
    call_id: Seq<char>,
    name: Seq<char>,
    command: Seq<char>,
)
    ensures
        ({
            let after = app.event(AgentEventView::ToolCallStarted { call_id, name, command });
            &&& after.open_tools.last().call_id == call_id
            &&& after.open_tools.last().command == command
            &&& after.open_tools.last().output.len() == 0
            &&& after.open_tools.drop_last() == app.open_tools.filter(
                |t: OpenToolView| t.call_id != call_id,
            )
            &&& after.pending is None
            &&& after.assistant.len() == 0 && after.reasoning.len() == 0
            &&& app.assistant.len() > 0 ==> after.lines.last() == LineView::Assistant(
                app.assistant,
            )
            &&& app.assistant.len() == 0 && app.reasoning.len() == 0 ==> after.lines == app.lines
        }),
{
    let after = app.event(AgentEventView::ToolCallStarted { call_id, name, command });
    lemma_without_tool_filter(app.open_tools, call_id);
    assert(after.open_tools.drop_last() =~= without_tool(app.open_tools, call_id));
}

/// A call that is done becomes a line with its command and its output, or
/// what was shown of it live where the output is blank; it is no longer
/// open, and the other calls are.
pub proof fn law_completed_call_is_shown(
    app: AppView,
    i: int,
    exit_code: Option<i32>,
    timed_out: bool,
    duration_ms: u64,
    output: Seq<char>,
)
    requires
        distinct(app.open_tools),
        0 <= i < app.open_tools.len(),
    ensures
        ({
            let t = app.open_tools[i];
            let after = app.event(
                AgentEventView::ToolCallCompleted {
                    call_id: t.call_id,
                    exit_code,
                    timed_out,
                    duration_ms,
                    output,
                },
            );
            &&& after.lines == app.lines.push(
                LineView::Tool {
                    command: t.command,
                    output: if trimmed(output).len() == 0 {
                        t.output
                    } else {
                        output
                    },
                    done: true,
                },
            )
            &&& after.open_tools == app.open_tools.filter(
                |u: OpenToolView| u.call_id != t.call_id,
            )
        }),
{
    let t = app.open_tools[i];
    lemma_open_tool(app.open_tools, t.call_id, i);
    lemma_without_tool_filter(app.open_tools, t.call_id);
}

proof fn lemma_first_word(w: Seq<char>, rest: Seq<char>)
    requires
        !w.contains(' '),
    ensures
        split_by(w, ' ') == seq![w],
        split_by(w.push(' ') + rest, ' ')[0] == w,
        split_by(w.push(' ') + rest, ' ').len() >= 2,
    decreases w.len() + rest.len(),
{
    if rest.len() > 0 {
        let s = w.push(' ') + rest;
        lemma_first_word(w, rest.drop_last());
        assert(s.drop_last() =~= w.push(' ') + rest.drop_last());
    } else {
        if w.len() > 0 {
            let h = w.drop_last();
            assert(!h.contains(' ')) by {
                if h.contains(' ') {
                    let k = choose|k: int| 0 <= k < h.len() && h[k] == ' ';
                    assert(w[k] == ' ');
                }
            }
            assert(w[w.len() - 1] != ' ') by {
                if w[w.len() - 1] == ' ' {
                    assert(w.contains(' '));
                }
            }
            lemma_first_word(h, rest);
            assert(split_by(w, ' ') =~= seq![w]) by {
                assert(h.push(w.last()) =~= w);
            }
        } else {
            assert(w =~= seq![]);
            assert(split_by(w, ' ') =~= seq![w]);
        }
        let s = w.push(' ') + rest;
        assert(s.drop_last() =~= w);
    }
}

/// What the user writes is sent as it is, without the white space around
/// it, and is shown; the input is then empty. Blank input does nothing.
pub proof fn law_input_is_sent(app: AppView)
    ensures
        ({
            let text = trimmed(app.input);
            let (after, action) = app.submitted();
            &&& after.input.len() == 0
            &&& text.len() == 0 ==> action == CommandActionView::Nothing && after.lines
                == app.lines
            &&& text.len() > 0 && text[0] != '/' ==> action == CommandActionView::Send(text)
                && after.lines == app.lines.push(LineView::User(text))
            &&& text.len() > 0 && text[0] == '/' ==> !(action is Send)
            &&& after.busy == app.busy && after.session_id == app.session_id
        }),
{
}

/// A slash and the name of a command stand for that command, with or without
/// words behind it; a name that is none is reported and does nothing.
pub proof fn law_commands_go_by_their_names(app: AppView, word: Seq<char>, rest: Seq<char>)
    requires
        !word.contains(' '),
        ({
            let text = trimmed(app.input);
            ||| text == seq!['/'] + word
            ||| text == (seq!['/'] + word).push(' ') + rest
        }),
    ensures
        ({
            let action = app.submitted().1;
            &&& word == "new"@ <==> action == CommandActionView::NewSession
            &&& word == "resume"@ <==> action == CommandActionView::Resume
            &&& word == "compact"@ <==> action == CommandActionView::Compact
            &&& word == "exit"@ || word == "quit"@ <==> action == CommandActionView::Exit
            &&& word != "new"@ && word != "resume"@ && word != "compact"@ && word != "exit"@
                && word != "quit"@ ==> action == CommandActionView::Nothing
                && app.submitted().0.lines.len() == app.lines.len() + 1
        }),
{
    let text = trimmed(app.input);
    lemma_first_word(word, rest);
    if text == seq!['/'] + word {
        assert(text.drop_first() =~= word);
    } else {
        assert(text.drop_first() =~= word.push(' ') + rest);
    }
    reveal_strlit("new");
    reveal_strlit("resume");
    reveal_strlit("compact");
    reveal_strlit("exit");
    reveal_strlit("quit");
    reveal_strlit("help");
    assert("new"@.len() == 3 && "resume"@.len() == 6 && "compact"@.len() == 7 && "exit"@.len() == 4
        && "quit"@.len() == 4 && "help"@.len() == 4);
    assert("help"@[0] == 'h' && "exit"@[0] == 'e' && "quit"@[0] == 'q');
}

/// A stored conversation is shown message by message, in order: what the
/// user and the model said, what the model thought, and what came of calls;
/// the rules are not shown.
pub proof fn law_each_message_is_shown(msgs: Seq<MessageView>, m: MessageView)
    ensures
        messages_lines(Seq::empty()).len() == 0,
        ({
            let before = messages_lines(msgs);
            let after = messages_lines(msgs.push(m));
            let n = before.len();
            &&& after.take(n as int) == before
            &&& m matches MessageView::User { content } ==> after == before.push(
                LineView::User(content),
            )
            &&& m is System ==> after == before
            &&& m matches MessageView::Assistant { content, reasoning, tool_calls } ==> {
                &&& content.len() > 0 ==> after.len() > n && after.last() == LineView::Assistant(
                    content,
                )
                &&& reasoning matches Some(r) ==> r.len() > 0 ==> after.len() > n && after[n as int]
                    == LineView::Reasoning(r)
                &&& after.len() == n + (if content.len() > 0 {
                    1int
                } else {
                    0int
                }) + (if reasoning is Some && reasoning->0.len() > 0 {
                    1int
                } else {
                    0int
                })
            }
            &&& m matches MessageView::ToolResult { tool_call_id, content, is_error } ==> {
                &&& after.len() == n + 1
                &&& is_error ==> after.last() == LineView::Error(content)
                &&& !is_error ==> (after.last() matches LineView::Tool { output, done, .. }
                    && output == content && done)
            }
        }),
{
    assert(msgs.push(m).drop_last() =~= msgs);
    let before = messages_lines(msgs);
    let after = messages_lines(msgs.push(m));
    assert(after.take(before.len() as int) =~= before);
    match m {
        MessageView::User { content } => {
            assert(after =~= before.push(LineView::User(content)));
        },
        MessageView::System { .. } => {
            assert(after =~= before);
        },
        _ => {},
    }
}

/// A resumed session is the one that was chosen, under its own title, with
/// its messages on show.
pub proof fn law_resumed_session_is_shown(
    app: AppView,
    s: SessionSummaryView,
    msgs: Seq<MessageView>,
)
    ensures
        app.loaded(s, msgs).session_id == Some(s.id),
        app.loaded(s, msgs).lines == messages_lines(msgs),
        trimmed(s.title).len() > 0 ==> app.loaded(s, msgs).session_title == trimmed(s.title),
        app.loaded(s, msgs).busy == app.busy && app.loaded(s, msgs).input == app.input,
{
}

/// A session is named by the beginning of what the user wrote first, at most
/// 40 characters of it.
pub proof fn law_title_is_the_beginning(text: Seq<char>, stamp: Seq<char>)
    ensures
        0 < text.len() <= 40 ==> title_for(text, stamp) == text,
        text.len() > 40 ==> title_for(text, stamp).len() == 40 && title_for(text, stamp)
            == text.take(40),
        text.len() == 0 ==> title_for(text, stamp) == "session "@ + stamp,
{
}

/// The keys mean what the question says: yes once, always in this session,
/// no; any other key answers nothing.
pub proof fn law_keys_answer_the_question(key: char)
    ensures
        key == 'y' <==> answer_of(key) == Some(Answer::Once),
        key == 'a' <==> answer_of(key) == Some(Answer::Session),
        key == 'n' <==> answer_of(key) == Some(Answer::Deny),
{
}

/// Tokens and compactions are shown with their numbers.
pub proof fn law_numbers_are_shown(app: AppView, used: i64, limit: i64)
    ensures
        app.event(AgentEventView::TokenCountUpdated { used, limit }).status == "tokens ~"@
            + decimal_int(used as int) + "/"@ + decimal_int(limit as int),
        app.event(AgentEventView::TokenCountUpdated { used, limit }).lines == app.lines,
        app.event(
            AgentEventView::CompactionCompleted { tokens_before: used, tokens_after: limit },
        ).lines == app.lines.push(
            LineView::System(
                "compaction done: ~"@ + decimal_int(used as int) + " → ~"@ + decimal_int(
                    limit as int,
                ) + " tokens"@,
            ),
        ),
        app.event(AgentEventView::CompactionStarted).lines.len() == app.lines.len() + 1,
{
}

} // verus!
