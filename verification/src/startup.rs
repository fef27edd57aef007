//! How a conversation starts: the agent over a stored transcript, and the
//! headless one-shot mode.

use vstd::prelude::*;

use crate::agent_loop::{Agent, AgentView, EffectView, PhaseView};
use crate::config::Config;
use crate::context::{no_tokens, ContextView};
use crate::error::{error_text, Error};
use crate::event::{AgentEvent, AgentEventView};
use crate::history::{lemma_filter_push, normalized};
use crate::json::Json;
use crate::message::{Message, MessageView};
use crate::seqs::{group_views, opt_view, views};
use crate::text::{
    chars_of,
    copy_of,
    decimal_i64,
    decimal_int,
    join2,
    join3,
    lemma_split_nonempty,
    split,
    split_by,
    str_eq,
    string_of,
};
use crate::traits::ToolSpec;

verus! {

broadcast use group_views;

/// The rules that every conversation begins with.
pub const SYSTEM_PROMPT: &'static str = "You are forge, a pragmatic coding agent running in the user's terminal on Windows (Git Bash).\nYou have one tool: `shell`, which executes a shell command and returns its output.\nUse it freely to read files (cat/ls), search (grep/find), run builds and tests.\nPrefer focused commands; avoid interactive ones. Answer in the user's language. Be concise.";

/// Stored rules are dropped: a conversation begins with fresh ones.
pub open spec fn no_rules(msgs: Seq<MessageView>) -> Seq<MessageView> {
    msgs.filter(|m: MessageView| !(m is System))
}

/// The messages that a conversation over a stored transcript takes over.
pub open spec fn taken_over(msgs: Seq<MessageView>) -> Seq<MessageView> {
    seq![MessageView::System { content: SYSTEM_PROMPT@ }] + no_rules(msgs)
}

/// The context of a conversation over a stored transcript. Messages that a
/// provider would reject are left out; they still count in the estimate.
pub open spec fn restored(
    msgs: Seq<MessageView>,
    cfg: crate::config::ContextConfig,
) -> ContextView {
    ContextView {
        items: normalized(taken_over(msgs)),
        rewrites: 0,
        accounting: no_tokens().with_items(taken_over(msgs)),
        cfg,
    }
}

/// The warning that a stored transcript could not be read.
pub open spec fn unread_warning(e: crate::error::ErrorView) -> Seq<char> {
    "session history failed to load ("@ + error_text(e)
        + "); this conversation runs without saving — the original transcript is untouched"@
}

fn push_stored(agent: &mut Agent, msgs: Vec<Message>)
    ensures
        final(agent)@ == (AgentView {
            context: ContextView {
                items: old(agent)@.context.items + no_rules(views(msgs@)),
                accounting: old(agent)@.context.accounting.with_items(no_rules(views(msgs@))),
                ..old(agent)@.context
            },
            ..old(agent)@
        }),
{
    let ghost before = agent@;
    let ghost all = views(msgs@);
    let n: usize = msgs.len();
    assert(no_rules(all.take(0)) =~= Seq::empty());
    assert(before.context.items + no_rules(all.take(0)) =~= before.context.items);
    for i in 0..n
        invariant
            n == msgs@.len(),
            all == views(msgs@),
            agent@ == (AgentView {
                context: ContextView {
                    items: before.context.items + no_rules(all.take(i as int)),
                    accounting: before.context.accounting.with_items(
                        no_rules(all.take(i as int)),
                    ),
                    ..before.context
                },
                ..before
            }),
    {
        let ghost kept = no_rules(all.take(i as int));
        assert(all.take(i + 1) =~= all.take(i as int).push(all[i as int]));
        proof {
            lemma_filter_push(
                all.take(i as int),
                all[i as int],
                |m: MessageView| !(m is System),
            );
        }
        if !matches!(&msgs[i], Message::System { .. }) {
            let m = msgs[i].clone();
            assert(kept.push(m@).drop_last() =~= kept);
            agent.context.push(m);
            assert(before.context.items + kept.push(m@) =~= (before.context.items + kept).push(
                m@,
            ));
        }
    }
    assert(all.take(n as int) =~= all);
}

/// Builds the agent of a conversation. A session comes with what loading its
/// transcript gave. Where that failed, the conversation has no session, so
/// that saving can never overwrite a transcript that was not read, and the
/// user is warned.
pub fn build_agent(
    cfg: &Config,
    api_key: &str,
    tools: Vec<ToolSpec>,
    session: Option<(u128, Result<Vec<Message>, Error>)>,
) -> (r: (Agent, Option<String>))
    ensures
        match session {
            Some((id, Ok(msgs))) => {
                &&& r.0@.context == restored(views(msgs@), cfg.context)
                &&& r.0@.session_id == Some(id)
                &&& r.0@.history_replaced
                &&& r.1 is None
            },
            Some((_, Err(e))) => {
                &&& r.0@.context == restored(Seq::empty(), cfg.context)
                &&& r.0@.session_id is None
                &&& !r.0@.history_replaced
                &&& opt_view(r.1) == Some(unread_warning(e@))
            },
            None => {
                &&& r.0@.context == restored(Seq::empty(), cfg.context)
                &&& r.0@.session_id is None
                &&& !r.0@.history_replaced
                &&& r.1 is None
            },
        },
        r.0@.tools == views(tools@),
        r.0@.api_key == api_key@,
        r.0@.model == cfg.model.name@,
        r.0@.temperature == opt_view(cfg.model.temperature),
        r.0@.max_tokens == cfg.model.max_tokens,
        r.0@.budget == cfg.budget,
        r.0@.persisted_len == 0,
        !r.0@.persist_failed,
        !r.0@.approvals_enabled,
        r.0@.phase == PhaseView::Idle,
        r.0@.out == Seq::<EffectView>::empty(),
{
    let temperature: Option<Json> = match &cfg.model.temperature {
        Some(t) => Some(t.clone()),
        None => None,
    };
    let mut agent = Agent::new(
        cfg.context.clone(),
        tools,
        copy_of(api_key),
        copy_of(&cfg.model.name),
        temperature,
        cfg.model.max_tokens,
        cfg.budget,
        None,
    );
    let rules = Message::system(SYSTEM_PROMPT);
    let ghost first = seq![rules@];
    assert(first.drop_last() =~= Seq::empty());
    agent.context.push(rules);
    assert(agent@.context.items =~= first);
    assert(no_tokens().with_items(first.drop_last()) == no_tokens());
    assert(agent@.context.accounting == no_tokens().with_items(first));
    let (stored, warning) = match session {
        Some((id, Ok(msgs))) => {
            agent.session_id = Some(id);
            agent.history_replaced = true;
            (msgs, None)
        },
        Some((_, Err(e))) => (
            Vec::new(),
            Some(
                join3(
                    "session history failed to load (",
                    &e.message(),
                    "); this conversation runs without saving — the original transcript is untouched",
                ),
            ),
        ),
        None => (Vec::new(), None),
    };
    let ghost all = views(stored@);
    proof {
        lemma_items_concat(no_tokens(), first, no_rules(all));
        assert(first + no_rules(all) =~= taken_over(all));
        if all.len() == 0 {
            assert(all =~= Seq::empty());
        }
    }
    push_stored(&mut agent, stored);
    agent.context.normalize();
    (agent, warning)
}

/// Estimates add up from left to right.
proof fn lemma_items_concat(
    a: crate::context::TokenAccounting,
    s: Seq<MessageView>,
    t: Seq<MessageView>,
)
    ensures
        a.with_items(s + t) == a.with_items(s).with_items(t),
    decreases t.len(),
{
    if t.len() == 0 {
        assert(s + t =~= s);
    } else {
        assert((s + t).drop_last() =~= s + t.drop_last());
        lemma_items_concat(a, s, t.drop_last());
    }
}

/// The words put together with single spaces.
pub open spec fn spaced(words: Seq<Seq<char>>) -> Seq<char>
    decreases words.len(),
{
    if words.len() == 0 {
        Seq::empty()
    } else if words.len() == 1 {
        words[0]
    } else {
        spaced(words.drop_last()) + " "@ + words.last()
    }
}

/// The prompt of the headless mode, `check` followed by words; nothing where
/// the arguments, of which the program's name is the first, ask for the
/// user interface.
pub fn check_prompt(args: &Vec<String>) -> (r: Option<String>)
    ensures
        opt_view(r) == (if args@.len() >= 3 && args@[1]@ == "check"@ {
            Some(spaced(views(args@).skip(2)))
        } else {
            None
        }),
{
    let n: usize = args.len();
    if n < 3 || !str_eq(&args[1], "check") {
        return None;
    }
    let ghost words = views(args@).skip(2);
    let mut text = copy_of(&args[2]);
    assert(words.take(1)[0] == args@[2]@);
    for i in 3..n
        invariant
            n == args@.len(),
            words == views(args@).skip(2),
            text@ == spaced(words.take(i - 2)),
    {
        text = join3(&text, " ", &args[i]);
        assert(words.take(i - 1).drop_last() =~= words.take(i - 2));
    }
    assert(words.take(n - 2) =~= words);
    Some(text)
}

/// The last line of a text; a line ends at a line feed, or at a carriage
/// return and a line feed.
pub open spec fn last_line(s: Seq<char>) -> Seq<char> {
    let parts = split_by(s, '\n');
    if parts.len() >= 2 && parts.last().len() == 0 {
        let line = parts[parts.len() - 2];
        if line.len() > 0 && line.last() == '\r' {
            line.drop_last()
        } else {
            line
        }
    } else {
        parts.last()
    }
}

/// The last line of a text.
pub fn last_line_of(s: &str) -> (r: String)
    ensures
        r@ == last_line(s@),
{
    let parts = split(s, '\n');
    proof {
        lemma_split_nonempty(s@, '\n');
        assert(views(parts@).len() == parts@.len());
    }
    let n: usize = parts.len();
    if n >= 2 && parts[n - 1].as_str().is_empty() {
        assert(views(parts@)[n - 2] == parts@[n - 2]@);
        let v = chars_of(&parts[n - 2]);
        let m: usize = v.len();
        if m > 0 && v[m - 1] == '\r' {
            let r = string_of(&v, 0, m - 1);
            assert(r@ =~= parts@[n - 2]@.drop_last());
            r
        } else {
            copy_of(&parts[n - 2])
        }
    } else {
        assert(views(parts@)[n - 1] == parts@[n - 1]@);
        copy_of(&parts[n - 1])
    }
}

/// Where the headless mode writes what an event shows.
#[derive(Debug, PartialEq)]
pub enum Print {
    Nothing,
    /// To the standard output, as it is.
    Out(String),
    /// To the standard output, as a line.
    OutLine(String),
    /// To the standard error, as a line.
    ErrLine(String),
}

/// What a [`Print`] stands for.
#[verifier::ext_equal]
pub enum PrintView {
    Nothing,
    Out(Seq<char>),
    OutLine(Seq<char>),
    ErrLine(Seq<char>),
}

impl View for Print {
    type V = PrintView;

    open spec fn view(&self) -> PrintView {
        match self {
            Print::Nothing => PrintView::Nothing,
            Print::Out(s) => PrintView::Out(s@),
            Print::OutLine(s) => PrintView::OutLine(s@),
            Print::ErrLine(s) => PrintView::ErrLine(s@),
        }
    }
}

/// What the headless mode shows of an event.
pub open spec fn shown(ev: AgentEventView) -> PrintView {
    match ev {
        AgentEventView::MessageDelta { delta } => PrintView::Out(delta),
        AgentEventView::ToolCallStarted { command, .. } => PrintView::OutLine(
            "\n[tool] "@ + command,
        ),
        AgentEventView::ToolCallOutputDelta { chunk, .. } => PrintView::Out(chunk),
        AgentEventView::ToolCallCompleted { output, .. } => PrintView::OutLine(
            "[tool done] "@ + last_line(output),
        ),
        AgentEventView::Error { message } => PrintView::ErrLine("\n[error] "@ + message),
        AgentEventView::TokenCountUpdated { used, limit } => PrintView::ErrLine(
            "[tokens ~"@ + decimal_int(used as int) + "/"@ + decimal_int(limit as int) + "]"@,
        ),
        _ => PrintView::Nothing,
    }
}

/// What the headless mode shows of an event.
pub fn print_of(ev: &AgentEvent) -> (r: Print)
    ensures
        r@ == shown(ev@),
{
    match ev {
        AgentEvent::MessageDelta { delta } => Print::Out(copy_of(delta)),
        AgentEvent::ToolCallStarted { command, .. } => Print::OutLine(
            join2("\n[tool] ", command),
        ),
        AgentEvent::ToolCallOutputDelta { chunk, .. } => Print::Out(copy_of(chunk)),
        AgentEvent::ToolCallCompleted { output, .. } => Print::OutLine(
            join2("[tool done] ", &last_line_of(output)),
        ),
        AgentEvent::Error { message } => Print::ErrLine(join2("\n[error] ", message)),
        AgentEvent::TokenCountUpdated { used, limit } => {
            let head = join3("[tokens ~", &decimal_i64(*used), "/");
            Print::ErrLine(join3(&head, &decimal_i64(*limit), "]"))
        },
        _ => Print::Nothing,
    }
}

/// The most characters of the answer that the closing line repeats.
pub const PREVIEW_CHARS: usize = 200;

/// The line with which the headless mode closes.
pub fn closing_line(answer: &str) -> (r: String)
    ensures
        r@ == "=== final answer: "@ + (if answer@.len() <= PREVIEW_CHARS {
            answer@
        } else {
            answer@.take(PREVIEW_CHARS as int)
        }) + " ==="@,
{
    let v = chars_of(answer);
    let n: usize = v.len();
    if n <= PREVIEW_CHARS {
        join3("=== final answer: ", answer, " ===")
    } else {
        let preview = string_of(&v, 0, PREVIEW_CHARS);
        assert(preview@ =~= answer@.take(PREVIEW_CHARS as int));
        join3("=== final answer: ", &preview, " ===")
    }
}

/// A conversation begins with the rules, once, and then holds what was
/// stored, in order, but for stored rules and for messages that a provider
/// would reject.
pub proof fn law_stored_conversation_is_taken_over(msgs: Seq<MessageView>)
    ensures
        taken_over(msgs)[0] == (MessageView::System { content: SYSTEM_PROMPT@ }),
        taken_over(msgs).drop_first() == msgs.filter(|m: MessageView| !(m is System)),
        forall|i: int|
            0 < i < taken_over(msgs).len() ==> !(#[trigger] taken_over(msgs)[i] is System),
{
    let keep = |m: MessageView| !(m is System);
    broadcast use vstd::seq_lib::group_filter_ensures;

    assert(taken_over(msgs).drop_first() =~= msgs.filter(keep));
    assert forall|i: int| 0 < i < taken_over(msgs).len() implies !(#[trigger] taken_over(msgs)[i]
        is System) by {
        assert(keep(msgs.filter(keep)[i - 1]));
    }
}

/// What a conversation over a stored transcript begins with is the rules and
/// the stored messages, without those that a provider would reject; the
/// estimate counts all that was taken over.
pub proof fn law_restored_context_is_what_stays(
    msgs: Seq<MessageView>,
    cfg: crate::config::ContextConfig,
)
    ensures
        ({
            let all = taken_over(msgs);
            let r = restored(msgs, cfg);
            &&& r.items == all.filter(|m: MessageView| crate::history::stays(all, m))
            &&& r.cfg == cfg
            &&& r.rewrites == 0
            &&& r.accounting == no_tokens().with_items(all)
        }),
{
    crate::history::law_normalize_drops_nothing_else(taken_over(msgs));
}

proof fn lemma_spaced(words: Seq<Seq<char>>)
    ensures
        spaced(words) == crate::text::joined(words, ' '),
    decreases words.len(),
{
    if words.len() > 1 {
        lemma_spaced(words.drop_last());
        reveal_strlit(" ");
        assert(" "@ =~= seq![' ']);
        let head = spaced(words.drop_last());
        assert(head + " "@ + words.last() =~= head.push(' ') + words.last());
    }
}

/// The prompt is all the words, in order, with a space between them.
pub proof fn law_prompt_is_all_the_words(words: Seq<Seq<char>>)
    ensures
        spaced(words) == crate::text::joined(words, ' '),
{
    lemma_spaced(words);
}

/// The last line of a text is what stands behind its last line break; a line
/// break at the very end does not count.
pub proof fn law_last_line_is_the_last(before: Seq<char>, line: Seq<char>)
    requires
        !line.contains('\n'),
        line.len() > 0,
        line.last() != '\r',
    ensures
        last_line(line) == line,
        last_line(before.push('\n') + line) == line,
        last_line((before.push('\n') + line).push('\n')) == line,
{
    lemma_last_piece(before, line);
    let s = before.push('\n') + line;
    lemma_split_nonempty(s, '\n');
    assert(s.push('\n').drop_last() =~= s);
    assert(split_by(s.push('\n'), '\n') =~= split_by(s, '\n').push(seq![]));
    assert(split_by(line, '\n') =~= seq![line]);
}

proof fn lemma_last_piece(before: Seq<char>, line: Seq<char>)
    requires
        !line.contains('\n'),
    ensures
        split_by(line, '\n') == seq![line],
        split_by(before.push('\n') + line, '\n').last() == line,
        split_by(before.push('\n') + line, '\n').len() >= 2,
    decreases line.len(),
{
    let s = before.push('\n') + line;
    if line.len() == 0 {
        assert(line =~= seq![]);
        assert(split_by(line, '\n') =~= seq![line]);
        assert(s.drop_last() =~= before);
        lemma_split_nonempty(before, '\n');
    } else {
        let head = line.drop_last();
        assert(!head.contains('\n')) by {
            if head.contains('\n') {
                let k = choose|k: int| 0 <= k < head.len() && head[k] == '\n';
                assert(line[k] == '\n');
            }
        }
        assert(line[line.len() - 1] != '\n') by {
            if line[line.len() - 1] == '\n' {
                assert(line.contains('\n'));
            }
        }
        lemma_last_piece(before, head);
        assert(s.drop_last() =~= before.push('\n') + head);
        assert(head.push(line.last()) =~= line);
        assert(split_by(line, '\n') =~= seq![line]);
    }
}

/// The headless mode prints what the model says as it comes, and what runs,
/// what came of it, errors and tokens; nothing of the answer is withheld.
pub proof fn law_headless_mode_shows_the_answer(
    delta: Seq<char>,
    call_id: Seq<char>,
    name: Seq<char>,
)
    ensures
        shown(AgentEventView::MessageDelta { delta }) == PrintView::Out(delta),
        shown(AgentEventView::ToolCallOutputDelta { call_id, chunk: delta }) == PrintView::Out(
            delta,
        ),
        shown(AgentEventView::ToolCallStarted { call_id, name, command: delta })
            == PrintView::OutLine("\n[tool] "@ + delta),
        shown(AgentEventView::Error { message: delta }) == PrintView::ErrLine(
            "\n[error] "@ + delta,
        ),
{
}

/// What came of a call is shown by the last line of its output, and the
/// tokens by their numbers.
pub proof fn law_headless_mode_shows_results(
    call_id: Seq<char>,
    exit_code: Option<i32>,
    timed_out: bool,
    duration_ms: u64,
    output: Seq<char>,
    used: i64,
    limit: i64,
)
    ensures
        shown(
            AgentEventView::ToolCallCompleted { call_id, exit_code, timed_out, duration_ms, output },
        ) == PrintView::OutLine("[tool done] "@ + last_line(output)),
        shown(AgentEventView::TokenCountUpdated { used, limit }) == PrintView::ErrLine(
            "[tokens ~"@ + decimal_int(used as int) + "/"@ + decimal_int(limit as int) + "]"@,
        ),
{
}

/// Where a transcript could not be read the user is told why, and that the
/// conversation is not saved.
pub proof fn law_unread_transcript_is_reported(e: crate::error::ErrorView)
    ensures
        crate::text::holds(unread_warning(e), error_text(e)),
        unread_warning(e).len() > error_text(e).len(),
{
    let t = unread_warning(e);
    let m = error_text(e);
    let k = "session history failed to load ("@.len() as int;
    assert(t.subrange(k, k + m.len()) =~= m);
    assert(crate::text::holds_at(t, m, k));
    reveal_strlit("session history failed to load (");
}

} // verus!
