//! Per-turn budget: wall clock, tokens, executed tool calls, and the
//! streaks of identical calls and identical failures by which a runaway
//! turn is recognized.

use vstd::prelude::*;

use crate::config::{no_budget, BudgetConfig};
use crate::seqs::opt_view;
use crate::text::{copy_of, decimal, decimal_i64, decimal_int, decimal_u64, join3, str_eq};

verus! {

/// The budget of one turn.
#[derive(Debug)]
pub struct TurnBudget {
    pub cfg: BudgetConfig,
    /// How many tool calls were executed.
    pub tool_calls: u32,
    /// Name and arguments of the last call.
    pub last_call: Option<(String, String)>,
    pub call_streak: u32,
    /// Name and message of the last failure.
    pub last_error: Option<(String, String)>,
    pub error_streak: u32,
}

/// What a [`TurnBudget`] stands for.
#[verifier::ext_equal]
pub struct BudgetView {
    pub cfg: BudgetConfig,
    pub tool_calls: u32,
    pub last_call: Option<(Seq<char>, Seq<char>)>,
    pub call_streak: u32,
    pub last_error: Option<(Seq<char>, Seq<char>)>,
    pub error_streak: u32,
}

/// The view of an optional pair of texts.
pub open spec fn pair_view(p: Option<(String, String)>) -> Option<(Seq<char>, Seq<char>)> {
    match p {
        Some((a, b)) => Some((a@, b@)),
        None => None,
    }
}

impl View for TurnBudget {
    type V = BudgetView;

    open spec fn view(&self) -> BudgetView {
        BudgetView {
            cfg: self.cfg,
            tool_calls: self.tool_calls,
            last_call: pair_view(self.last_call),
            call_streak: self.call_streak,
            last_error: pair_view(self.last_error),
            error_streak: self.error_streak,
        }
    }
}

/// One more, within 32 bits.
pub open spec fn one_more(n: u32) -> u32 {
    if n == u32::MAX {
        n
    } else {
        (n + 1) as u32
    }
}

impl BudgetView {
    /// The budget at the start of a turn.
    pub open spec fn fresh(cfg: BudgetConfig) -> BudgetView {
        BudgetView {
            cfg,
            tool_calls: 0,
            last_call: None,
            call_streak: 0,
            last_error: None,
            error_streak: 0,
        }
    }

    /// Why the turn stops before the next model request, if it does.
    pub open spec fn stop_between_attempts(self, secs: u64, tokens: i64) -> Option<Seq<char>> {
        if self.cfg.max_turn_seconds > 0 && secs >= self.cfg.max_turn_seconds {
            Some(
                "turn time budget reached ("@ + decimal(self.cfg.max_turn_seconds as nat)
                    + "s); send a new message to continue"@,
            )
        } else if self.cfg.max_turn_tokens > 0 && tokens >= self.cfg.max_turn_tokens {
            Some(
                "turn token budget reached (~"@ + decimal_int(tokens as int)
                    + " tokens); send a new message to continue"@,
            )
        } else {
            None
        }
    }

    /// Whether the budget of executed calls is used up.
    pub open spec fn calls_used_up(self) -> bool {
        self.cfg.max_tool_calls > 0 && self.tool_calls >= self.cfg.max_tool_calls
    }

    /// The budget after a call is about to run: the streak of identical
    /// calls is counted, unless the budget of calls is used up.
    pub open spec fn with_call(self, name: Seq<char>, args: Seq<char>) -> BudgetView {
        if self.calls_used_up() || self.cfg.loop_threshold == 0 {
            self
        } else {
            BudgetView {
                last_call: Some((name, args)),
                call_streak: if self.last_call == Some((name, args)) {
                    one_more(self.call_streak)
                } else {
                    1
                },
                ..self
            }
        }
    }

    /// Why a call must not run, if it must not.
    pub open spec fn stop_before_call(self, name: Seq<char>, args: Seq<char>) -> Option<Seq<char>> {
        if self.calls_used_up() {
            Some(
                "tool call budget reached ("@ + decimal(self.cfg.max_tool_calls as nat)
                    + " calls this turn); send a new message to continue"@,
            )
        } else if self.cfg.loop_threshold > 0 && self.with_call(name, args).call_streak
            > self.cfg.loop_threshold {
            Some(
                "tool loop detected: "@ + name + " ran with identical arguments "@ + decimal(
                    (self.with_call(name, args).call_streak - 1) as nat,
                ) + " times; turn stopped"@,
            )
        } else {
            None
        }
    }

    /// The budget after a call failed.
    pub open spec fn with_error(self, name: Seq<char>, message: Seq<char>) -> BudgetView {
        if self.cfg.loop_threshold == 0 {
            self
        } else {
            BudgetView {
                last_error: Some((name, message)),
                error_streak: if self.last_error == Some((name, message)) {
                    one_more(self.error_streak)
                } else {
                    1
                },
                ..self
            }
        }
    }

    /// Why the turn stops after a call failed, if it does.
    pub open spec fn stop_after_error(self, name: Seq<char>, message: Seq<char>) -> Option<
        Seq<char>,
    > {
        if self.cfg.loop_threshold > 0 && self.with_error(name, message).error_streak
            > self.cfg.loop_threshold {
            Some(
                "tool loop detected: "@ + name + " failed with the same error "@ + decimal(
                    (self.with_error(name, message).error_streak - 1) as nat,
                ) + " times; turn stopped"@,
            )
        } else {
            None
        }
    }

    /// The budget after a call succeeded.
    pub open spec fn with_success(self) -> BudgetView {
        BudgetView { error_streak: 0, last_error: None, ..self }
    }

    /// The budget after one more call was executed.
    pub open spec fn with_executed(self) -> BudgetView {
        BudgetView { tool_calls: one_more(self.tool_calls), ..self }
    }
}

fn is_pair(p: &Option<(String, String)>, a: &str, b: &str) -> (r: bool)
    ensures
        r == (pair_view(*p) == Some((a@, b@))),
{
    match p {
        Some((x, y)) => str_eq(x, a) && str_eq(y, b),
        None => false,
    }
}

impl TurnBudget {
    pub fn new(cfg: BudgetConfig) -> (r: TurnBudget)
        ensures
            r@ == BudgetView::fresh(cfg),
    {
        TurnBudget {
            cfg,
            tool_calls: 0,
            last_call: None,
            call_streak: 0,
            last_error: None,
            error_streak: 0,
        }
    }

    /// Why the turn must stop before issuing the next model request, `secs`
    /// seconds into it and with `tokens` tokens used.
    pub fn between_attempts_reason(&self, secs: u64, tokens: i64) -> (r: Option<String>)
        ensures
            opt_view(r) == self@.stop_between_attempts(secs, tokens),
    {
        if self.cfg.max_turn_seconds > 0 && secs >= self.cfg.max_turn_seconds {
            return Some(
                join3(
                    "turn time budget reached (",
                    &decimal_u64(self.cfg.max_turn_seconds),
                    "s); send a new message to continue",
                ),
            );
        }
        if self.cfg.max_turn_tokens > 0 && tokens >= self.cfg.max_turn_tokens {
            return Some(
                join3(
                    "turn token budget reached (~",
                    &decimal_i64(tokens),
                    " tokens); send a new message to continue",
                ),
            );
        }
        None
    }

    /// Why a call must not execute (checked before each tool call). Also
    /// counts the streak of identical calls.
    pub fn before_call_reason(&mut self, name: &str, args_json: &str) -> (r: Option<String>)
        ensures
            final(self)@ == old(self)@.with_call(name@, args_json@),
            opt_view(r) == old(self)@.stop_before_call(name@, args_json@),
    {
        if self.cfg.max_tool_calls > 0 && self.tool_calls >= self.cfg.max_tool_calls {
            return Some(
                join3(
                    "tool call budget reached (",
                    &decimal_u64(self.cfg.max_tool_calls as u64),
                    " calls this turn); send a new message to continue",
                ),
            );
        }
        if self.cfg.loop_threshold > 0 {
            self.call_streak = if is_pair(&self.last_call, name, args_json) {
                self.call_streak.saturating_add(1)
            } else {
                1
            };
            self.last_call = Some((copy_of(name), copy_of(args_json)));
            if self.call_streak > self.cfg.loop_threshold {
                let head = join3("tool loop detected: ", name, " ran with identical arguments ");
                return Some(
                    join3(
                        &head,
                        &decimal_u64((self.call_streak - 1) as u64),
                        " times; turn stopped",
                    ),
                );
            }
        }
        None
    }

    /// Why the turn must stop after a tool just failed identically again.
    /// Also counts the streak of identical failures.
    pub fn note_error(&mut self, name: &str, message: &str) -> (r: Option<String>)
        ensures
            final(self)@ == old(self)@.with_error(name@, message@),
            opt_view(r) == old(self)@.stop_after_error(name@, message@),
    {
        if self.cfg.loop_threshold == 0 {
            return None;
        }
        self.error_streak = if is_pair(&self.last_error, name, message) {
            self.error_streak.saturating_add(1)
        } else {
            1
        };
        self.last_error = Some((copy_of(name), copy_of(message)));
        if self.error_streak > self.cfg.loop_threshold {
            let head = join3("tool loop detected: ", name, " failed with the same error ");
            return Some(
                join3(
                    &head,
                    &decimal_u64((self.error_streak - 1) as u64),
                    " times; turn stopped",
                ),
            );
        }
        None
    }

    /// A tool call succeeded: the streak of failures ends.
    pub fn note_success(&mut self)
        ensures
            final(self)@ == old(self)@.with_success(),
    {
        self.error_streak = 0;
        self.last_error = None;
    }

    /// One more tool call is executed.
    pub fn note_executed(&mut self)
        ensures
            final(self)@ == old(self)@.with_executed(),
    {
        self.tool_calls = self.tool_calls.saturating_add(1);
    }
}

/// The budget after the same call was about to run `n` times in a row.
pub open spec fn after_identical_calls(
    b: BudgetView,
    name: Seq<char>,
    args: Seq<char>,
    n: nat,
) -> BudgetView
    decreases n,
{
    if n == 0 {
        b
    } else {
        after_identical_calls(b, name, args, (n - 1) as nat).with_call(name, args)
    }
}

proof fn lemma_identical_calls(
    cfg: BudgetConfig,
    name: Seq<char>,
    args: Seq<char>,
    n: nat,
)
    requires
        cfg.max_tool_calls == 0,
        0 < cfg.loop_threshold,
        n <= cfg.loop_threshold,
    ensures
        ({
            let b = after_identical_calls(BudgetView::fresh(cfg), name, args, n);
            &&& b.cfg == cfg
            &&& b.call_streak == n
            &&& n > 0 ==> b.last_call == Some((name, args))
            &&& n == 0 ==> b.last_call is None
        }),
    decreases n,
{
    if n > 0 {
        lemma_identical_calls(cfg, name, args, (n - 1) as nat);
    }
}

/// A runaway loop is stopped: from the start of a turn, an identical call
/// may run as often as the threshold says, and is refused the next time.
pub proof fn law_identical_calls_are_stopped(
    cfg: BudgetConfig,
    name: Seq<char>,
    args: Seq<char>,
    n: nat,
)
    requires
        cfg.max_tool_calls == 0,
        0 < cfg.loop_threshold < u32::MAX,
        n <= cfg.loop_threshold,
    ensures
        after_identical_calls(BudgetView::fresh(cfg), name, args, n).stop_before_call(
            name,
            args,
        ) is Some <==> n == cfg.loop_threshold,
{
    lemma_identical_calls(cfg, name, args, n);
}

/// Without limits a turn is never stopped, and nothing is counted against
/// it.
pub proof fn law_no_budget_never_stops(
    b: BudgetView,
    secs: u64,
    tokens: i64,
    name: Seq<char>,
    text: Seq<char>,
)
    requires
        b.cfg == no_budget(),
    ensures
        b.stop_between_attempts(secs, tokens) is None,
        b.stop_before_call(name, text) is None,
        b.stop_after_error(name, text) is None,
        b.with_call(name, text).cfg == b.cfg,
        b.with_error(name, text).cfg == b.cfg,
{
}

/// A turn is stopped between requests exactly where a limit that is set is
/// reached: of seconds or of tokens.
pub proof fn law_turn_limits_are_kept(b: BudgetView, secs: u64, tokens: i64)
    ensures
        b.stop_between_attempts(secs, tokens) is Some <==> (b.cfg.max_turn_seconds != 0 && secs
            >= b.cfg.max_turn_seconds) || (b.cfg.max_turn_tokens > 0 && tokens
            >= b.cfg.max_turn_tokens),
{
}

/// A call is refused exactly where as many calls as are allowed were
/// executed, or where it is about to repeat itself more often than allowed;
/// another call begins a new streak.
pub proof fn law_call_limits_are_kept(b: BudgetView, name: Seq<char>, args: Seq<char>)
    requires
        b.call_streak < u32::MAX,
    ensures
        ({
            let full = b.cfg.max_tool_calls != 0 && b.tool_calls >= b.cfg.max_tool_calls;
            let repeats = b.last_call == Some((name, args));
            let loops = b.cfg.loop_threshold != 0 && (if repeats {
                b.call_streak + 1 > b.cfg.loop_threshold
            } else {
                1 > b.cfg.loop_threshold
            });
            &&& b.stop_before_call(name, args) is Some <==> full || loops
            &&& !full && b.cfg.loop_threshold != 0 ==> {
                &&& b.with_call(name, args).last_call == Some((name, args))
                &&& b.with_call(name, args).call_streak == if repeats {
                    b.call_streak + 1
                } else {
                    1
                }
            }
            &&& b.with_call(name, args).tool_calls == b.tool_calls
        }),
{
}

/// A failure stops the turn exactly where it repeats itself more often than
/// allowed; a success, or another failure, ends the streak.
pub proof fn law_failure_limits_are_kept(b: BudgetView, name: Seq<char>, message: Seq<char>)
    requires
        b.error_streak < u32::MAX,
    ensures
        ({
            let repeats = b.last_error == Some((name, message));
            let streak: int = if repeats {
                b.error_streak + 1
            } else {
                1
            };
            &&& b.stop_after_error(name, message) is Some <==> b.cfg.loop_threshold != 0 && streak
                > b.cfg.loop_threshold
            &&& b.cfg.loop_threshold != 0 ==> b.with_error(name, message).error_streak == streak
                && b.with_error(name, message).last_error == Some((name, message))
            &&& b.with_success().error_streak == 0 && b.with_success().last_error is None
            &&& b.with_success().call_streak == b.call_streak && b.with_success().tool_calls
                == b.tool_calls
        }),
{
}

/// Each executed call counts once.
pub proof fn law_executed_calls_are_counted(b: BudgetView)
    requires
        b.tool_calls < u32::MAX,
    ensures
        b.with_executed().tool_calls == b.tool_calls + 1,
        b.with_executed().cfg == b.cfg,
        BudgetView::fresh(b.cfg).tool_calls == 0,
        BudgetView::fresh(b.cfg).cfg == b.cfg,
{
}

} // verus!
