//! Token accounting and the context that the model sees.

use vstd::prelude::*;

use crate::config::ContextConfig;
use crate::history::History;
use crate::message::{Message, MessageView, Usage};
use crate::seqs::views;
use crate::text::{byte_len, utf8_len};

verus! {

/// Byte-based token heuristic: about 4 bytes per token.
pub const APPROX_BYTES_PER_TOKEN: usize = 4;

/// The number in 64 signed bits that is nearest to `x`.
pub open spec fn clamp64(x: int) -> i64 {
    if x > i64::MAX {
        i64::MAX
    } else if x < i64::MIN {
        i64::MIN
    } else {
        x as i64
    }
}

/// The sum, kept within 64 signed bits.
pub fn sat_sum(a: i64, b: i64) -> (r: i64)
    ensures
        r == clamp64(a + b),
{
    match a.checked_add(b) {
        Some(r) => r,
        None => if b > 0 {
            i64::MAX
        } else {
            i64::MIN
        },
    }
}

/// The tokens of a text: a quarter of its bytes, rounded up.
pub open spec fn text_tokens(text: Seq<char>) -> int {
    (utf8_len(text) + 3) as int / 4
}

/// The estimated tokens of a text.
pub fn approx_token_count(text: &str) -> (r: i64)
    ensures
        r == text_tokens(text@),
{
    let n: usize = byte_len(text);
    let whole: usize = n / APPROX_BYTES_PER_TOKEN;
    if n % APPROX_BYTES_PER_TOKEN == 0 {
        whole as i64
    } else {
        whole as i64 + 1
    }
}

/// The tokens of a message: its bytes and a tenth of them for escapes, by
/// the same heuristic.
pub open spec fn message_tokens(m: MessageView) -> int {
    (m.bytes() + m.bytes() / 10 + 3) as int / 4
}

/// The estimated tokens of a message; the greatest `i64` where there are
/// more.
pub fn approx_tokens_for_message(msg: &Message) -> (r: i64)
    ensures
        r == clamp64(message_tokens(msg@)),
{
    let n: u128 = msg.total_bytes();
    let most: u128 = i64::MAX as u128;
    if n >= 4 * most {
        i64::MAX
    } else {
        let tokens: u128 = (n + n / 10 + 3) / 4;
        if tokens > most {
            i64::MAX
        } else {
            tokens as i64
        }
    }
}

/// Running token accounting. Usage from API responses is authoritative for
/// what the model has already seen; local estimates cover the messages added
/// since the last response. Overflow is a flag of its own and never touches
/// the sums.
#[derive(Debug, Clone, Copy, PartialEq, Eq, Structural)]
pub struct TokenAccounting {
    /// Cumulative total from the last API response.
    pub last_response_total: i64,
    /// Sum of estimates for the messages appended after that response.
    pub local_estimate: i64,
    /// Set when usage is believed to have reached the window.
    pub overflow: bool,
    /// True once at least one API usage value has been recorded.
    pub has_real_usage: bool,
}

/// The window that is used: 95% of the raw one, rounded down.
pub open spec fn effective_window(window: i64) -> int {
    window * 95 / 100
}

/// The threshold at which compaction fires: 90% of the effective window,
/// rounded down, or the configured value where that is lower.
pub open spec fn compact_limit(cfg: ContextConfig) -> int {
    let default = effective_window(cfg.context_window) * 90 / 100;
    match cfg.auto_compact_token_limit {
        Some(v) => if v < default {
            v as int
        } else {
            default
        },
        None => default,
    }
}

/// A percentage of `x`, rounded down.
fn percent_of(x: i64, percent: u64) -> (r: i64)
    requires
        percent <= 100,
    ensures
        r == x * percent / 100,
{
    if x >= 0 {
        let size: u128 = x as u128;
        assert(size * percent <= size * 100) by (nonlinear_arith)
            requires
                percent <= 100,
        ;
        let product: u128 = size * percent as u128;
        (product / 100) as i64
    } else {
        let size: u128 = (-(x as i128)) as u128;
        assert(size * percent <= size * 100) by (nonlinear_arith)
            requires
                percent <= 100,
        ;
        let product: u128 = size * percent as u128;
        let up: u128 = (product + 99) / 100;
        assert(x * percent == -product) by (nonlinear_arith)
            requires
                size == -x,
                product == size * percent,
        ;
        (-(up as i128)) as i64
    }
}

impl TokenAccounting {
    /// The tokens in use: what the last response reported and the estimates
    /// since then.
    pub open spec fn used(self) -> i64 {
        clamp64(self.last_response_total + self.local_estimate)
    }

    /// The accounting after a response reported `usage`.
    pub open spec fn reported(self, usage: Usage) -> TokenAccounting {
        TokenAccounting {
            last_response_total: usage.total_tokens,
            local_estimate: 0,
            overflow: false,
            has_real_usage: true,
        }
    }

    /// The accounting after one more local message.
    pub open spec fn with_item(self, m: MessageView) -> TokenAccounting {
        TokenAccounting {
            local_estimate: clamp64(self.local_estimate + clamp64(message_tokens(m))),
            ..self
        }
    }

    /// The accounting after more local messages.
    pub open spec fn with_items(self, items: Seq<MessageView>) -> TokenAccounting
        decreases items.len(),
    {
        if items.len() == 0 {
            self
        } else {
            self.with_items(items.drop_last()).with_item(items.last())
        }
    }

    /// Whether compaction is due.
    pub open spec fn due(self, cfg: ContextConfig) -> bool {
        self.used() >= compact_limit(cfg) || self.overflow
    }

    /// Takes over the usage that a response reports; estimates start anew.
    pub fn record_response_usage(&mut self, usage: Usage)
        ensures
            *final(self) == old(self).reported(usage),
    {
        self.last_response_total = usage.total_tokens;
        self.local_estimate = 0;
        self.has_real_usage = true;
        self.overflow = false;
    }

    /// Adds the estimate for a message that no response has seen yet.
    pub fn record_local_item(&mut self, msg: &Message)
        ensures
            *final(self) == old(self).with_item(msg@),
    {
        self.local_estimate = sat_sum(self.local_estimate, approx_tokens_for_message(msg));
    }

    /// The tokens in use.
    pub fn current_estimate(&self) -> (r: i64)
        ensures
            r == self.used(),
    {
        sat_sum(self.last_response_total, self.local_estimate)
    }

    /// Whether an API usage value has been recorded.
    pub fn has_real_usage(&self) -> (r: bool)
        ensures
            r == self.has_real_usage,
    {
        self.has_real_usage
    }

    /// Notes that the window is believed to be full; the sums stay.
    pub fn mark_overflow(&mut self)
        ensures
            *final(self) == (TokenAccounting { overflow: true, ..*old(self) }),
    {
        self.overflow = true;
    }

    /// The threshold at which compaction fires: 90% of the effective (95%)
    /// window, or the configured value where that is lower.
    pub fn auto_compact_limit(cfg: &ContextConfig) -> (r: i64)
        ensures
            r == compact_limit(*cfg),
    {
        let default: i64 = percent_of(percent_of(cfg.context_window, 95), 90);
        match cfg.auto_compact_token_limit {
            Some(v) => if v < default {
                v
            } else {
                default
            },
            None => default,
        }
    }

    /// Hard ceiling: the effective window itself.
    pub fn hard_limit(cfg: &ContextConfig) -> (r: i64)
        ensures
            r == effective_window(cfg.context_window),
    {
        percent_of(cfg.context_window, 95)
    }

    /// Whether compaction is due.
    pub fn should_compact(&self, cfg: &ContextConfig) -> (r: bool)
        ensures
            r == self.due(*cfg),
    {
        self.current_estimate() >= Self::auto_compact_limit(cfg) || self.overflow
    }
}

/// The accounting of a fresh context.
pub open spec fn no_tokens() -> TokenAccounting {
    TokenAccounting {
        last_response_total: 0,
        local_estimate: 0,
        overflow: false,
        has_real_usage: false,
    }
}

impl Default for TokenAccounting {
    fn default() -> (r: Self)
        ensures
            r == no_tokens(),
    {
        TokenAccounting {
            last_response_total: 0,
            local_estimate: 0,
            overflow: false,
            has_real_usage: false,
        }
    }
}

/// The history with its token accounting.
#[derive(Debug)]
pub struct ContextManager {
    pub history: History,
    pub accounting: TokenAccounting,
    pub cfg: ContextConfig,
}

/// What a [`ContextManager`] stands for.
#[verifier::ext_equal]
pub struct ContextView {
    pub items: Seq<MessageView>,
    /// How often the transcript was rewritten.
    pub rewrites: u64,
    pub accounting: TokenAccounting,
    pub cfg: ContextConfig,
}

impl ContextView {
    /// The context with one more message.
    pub open spec fn push(self, m: MessageView) -> ContextView {
        ContextView {
            items: self.items.push(m),
            accounting: self.accounting.with_item(m),
            ..self
        }
    }

    /// The context after a response reported `usage`.
    pub open spec fn reported(self, usage: Usage) -> ContextView {
        ContextView { accounting: self.accounting.reported(usage), ..self }
    }

    /// The context with another history, of which no response has seen
    /// anything.
    pub open spec fn replaced(self, items: Seq<MessageView>) -> ContextView {
        ContextView {
            items,
            rewrites: self.rewrites.wrapping_add(1),
            accounting: no_tokens().with_items(items),
            ..self
        }
    }

    /// Whether compaction is due.
    pub open spec fn due(self) -> bool {
        self.accounting.due(self.cfg)
    }

    /// The threshold at which compaction fires.
    pub open spec fn limit(self) -> int {
        compact_limit(self.cfg)
    }
}

impl View for ContextManager {
    type V = ContextView;

    open spec fn view(&self) -> ContextView {
        ContextView {
            items: self.history@,
            rewrites: self.history.rewrites(),
            accounting: self.accounting,
            cfg: self.cfg,
        }
    }
}

impl ContextManager {
    /// A context without messages.
    pub fn new(cfg: ContextConfig) -> (r: ContextManager)
        ensures
            r@ == (ContextView {
                items: Seq::<MessageView>::empty(),
                rewrites: 0,
                accounting: no_tokens(),
                cfg,
            }),
    {
        ContextManager { history: History::new(), accounting: TokenAccounting::default(), cfg }
    }

    /// The parameters that the context was made with.
    pub fn config(&self) -> (r: &ContextConfig)
        ensures
            *r == self@.cfg,
    {
        &self.cfg
    }

    /// The messages, oldest first.
    pub fn items(&self) -> (r: &Vec<Message>)
        ensures
            views(r@) == self@.items,
    {
        self.history.items()
    }

    /// Appends a message and its estimate.
    pub fn push(&mut self, msg: Message)
        ensures
            final(self)@ == old(self)@.push(msg@),
    {
        self.accounting.record_local_item(&msg);
        self.history.push(msg);
    }

    /// Takes over the usage that a response reports.
    pub fn record_usage(&mut self, usage: Usage)
        ensures
            final(self)@ == old(self)@.reported(usage),
    {
        self.accounting.record_response_usage(usage);
    }

    /// Replaces the history; its estimates make up the accounting until the
    /// next response.
    pub fn replace(&mut self, items: Vec<Message>)
        ensures
            final(self)@ == old(self)@.replaced(views(items@)),
            final(self).history.rewrites() == old(self).history.rewrites().wrapping_add(1),
    {
        let n: usize = items.len();
        let mut accounting = TokenAccounting::default();
        for i in 0..n
            invariant
                n == items@.len(),
                accounting == no_tokens().with_items(views(items@).take(i as int)),
        {
            accounting.record_local_item(&items[i]);
            assert(views(items@).take(i + 1).drop_last() =~= views(items@).take(i as int));
        }
        assert(views(items@).take(n as int) =~= views(items@));
        self.history.replace(items);
        self.accounting = accounting;
    }

    /// Removes results whose call is gone and empty assistant messages. The
    /// accounting stays as it is.
    pub fn normalize(&mut self)
        ensures
            final(self)@ == (ContextView {
                items: crate::history::normalized(old(self)@.items),
                ..old(self)@
            }),
    {
        self.history.normalize();
    }

    /// Whether compaction is due. Safe in the middle of a turn.
    pub fn should_compact(&self) -> (r: bool)
        ensures
            r == self@.due(),
    {
        self.accounting.should_compact(&self.cfg)
    }

    /// The tokens in use and the threshold at which compaction fires.
    pub fn token_status(&self) -> (r: (i64, i64))
        ensures
            r.0 == self@.accounting.used(),
            r.1 == self@.limit(),
    {
        (self.accounting.current_estimate(), TokenAccounting::auto_compact_limit(&self.cfg))
    }
}

/// The threshold never exceeds 90% of the effective window, and the
/// effective window never exceeds the raw one.
pub proof fn law_compact_limit_is_below_the_window(cfg: ContextConfig)
    requires
        cfg.context_window >= 0,
    ensures
        compact_limit(cfg) * 100 <= effective_window(cfg.context_window) * 90,
        effective_window(cfg.context_window) <= cfg.context_window,
{
}

/// Usage from a response replaces every estimate: what was estimated before
/// no longer counts.
pub proof fn law_reported_usage_is_authoritative(a: TokenAccounting, usage: Usage)
    ensures
        a.reported(usage).used() == usage.total_tokens,
        !a.reported(usage).overflow,
{
}

/// Overflow is a flag of its own: it makes compaction due without touching
/// the tokens in use.
pub proof fn law_overflow_keeps_the_sums(a: TokenAccounting, cfg: ContextConfig)
    ensures
        (TokenAccounting { overflow: true, ..a }).used() == a.used(),
        (TokenAccounting { overflow: true, ..a }).due(cfg),
{
}

/// The estimate is a quarter of the bytes, rounded up: never less, and less
/// than one token more.
pub proof fn law_estimate_is_a_quarter_of_the_bytes(text: Seq<char>, m: MessageView)
    ensures
        4 * text_tokens(text) >= utf8_len(text),
        4 * text_tokens(text) < utf8_len(text) + 4,
        4 * message_tokens(m) >= m.bytes() + m.bytes() / 10,
        4 * message_tokens(m) < m.bytes() + m.bytes() / 10 + 4,
{
}

/// Each message that is added counts by its own estimate, on top of what
/// the model reported last; nothing else of the context changes.
pub proof fn law_each_message_counts(c: ContextView, m: MessageView)
    requires
        0 <= c.accounting.local_estimate,
        c.accounting.local_estimate + message_tokens(m) <= i64::MAX,
        i64::MIN <= c.accounting.last_response_total + c.accounting.local_estimate
            + message_tokens(m) <= i64::MAX,
        i64::MIN <= c.accounting.last_response_total + c.accounting.local_estimate,
    ensures
        c.push(m).items == c.items.push(m),
        c.push(m).accounting.used() == c.accounting.used() + message_tokens(m),
        c.push(m).accounting.overflow == c.accounting.overflow,
        c.push(m).cfg == c.cfg,
        c.push(m).rewrites == c.rewrites,
{
}

/// Compaction is due as soon as the tokens in use reach the threshold, or
/// the window is known to be full, and not before.
pub proof fn law_compaction_is_due_at_the_threshold(c: ContextView)
    requires
        i64::MIN <= c.accounting.last_response_total + c.accounting.local_estimate <= i64::MAX,
    ensures
        c.due() <==> c.accounting.overflow || c.accounting.last_response_total
            + c.accounting.local_estimate >= c.limit(),
        c.cfg.auto_compact_token_limit is None ==> c.limit() == (c.cfg.context_window * 95 / 100)
            * 90 / 100,
        c.cfg.auto_compact_token_limit matches Some(v) ==> c.limit() <= v && (c.limit() == v
            || c.limit() == (c.cfg.context_window * 95 / 100) * 90 / 100),
{
}

/// The estimates of the messages, added up.
pub open spec fn estimates(items: Seq<MessageView>) -> int
    decreases items.len(),
{
    if items.len() == 0 {
        0
    } else {
        estimates(items.drop_last()) + message_tokens(items.last())
    }
}

proof fn lemma_estimates(t: TokenAccounting, items: Seq<MessageView>)
    requires
        0 <= t.local_estimate,
        t.local_estimate + estimates(items) <= i64::MAX,
    ensures
        t.with_items(items) == (TokenAccounting {
            local_estimate: (t.local_estimate + estimates(items)) as i64,
            ..t
        }),
        estimates(items) >= 0,
    decreases items.len(),
{
    if items.len() > 0 {
        lemma_estimates_nonnegative(items.drop_last());
        lemma_estimates(t, items.drop_last());
    }
}

proof fn lemma_estimates_nonnegative(items: Seq<MessageView>)
    ensures
        estimates(items) >= 0,
    decreases items.len(),
{
    if items.len() > 0 {
        lemma_estimates_nonnegative(items.drop_last());
    }
}

/// A replaced history counts by the estimates of its own messages and by
/// nothing that was counted before.
pub proof fn law_replaced_history_counts_anew(c: ContextView, items: Seq<MessageView>)
    requires
        estimates(items) <= i64::MAX,
    ensures
        c.replaced(items).items == items,
        c.replaced(items).accounting.used() == estimates(items),
        !c.replaced(items).accounting.overflow,
        !c.replaced(items).accounting.has_real_usage,
        c.replaced(items).cfg == c.cfg,
{
    lemma_estimates_nonnegative(items);
    lemma_estimates(no_tokens(), items);
}

/// Sums stay what they are while they fit, and else stop at the nearest
/// number that does.
pub proof fn law_sums_stop_at_the_limits(x: int)
    ensures
        i64::MIN <= x <= i64::MAX ==> clamp64(x) == x,
        x > i64::MAX ==> clamp64(x) == i64::MAX,
        x < i64::MIN ==> clamp64(x) == i64::MIN,
{
}

} // verus!
