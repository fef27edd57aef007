//! Rule-based permission policy.
//!
//! Decisions per tool: allow, ask or deny. Rules come from the
//! configuration, approvals for the session layer on top, and a fallback
//! applies to unlisted tools: the shell asks, everything unknown is denied
//! unless the configuration says otherwise.

use vstd::prelude::*;

use crate::config::PermissionConfig;
use crate::json::{Json, JsonView};
use crate::seqs::opt_view;
use crate::session::{PermissionDecision, PermissionPolicy};
use crate::text::{copy_of, lower, lowered, str_eq, trim, trimmed};

verus! {

/// One rule decision.
#[derive(Debug, Clone, Copy, PartialEq, Eq, Structural)]
pub enum Rule {
    Allow,
    Ask,
    Deny,
}

/// The rule that a text names; white space around it and case do not count.
pub open spec fn rule_named(s: Seq<char>) -> Option<Rule> {
    let t = lowered(trimmed(s));
    if t == "allow"@ {
        Some(Rule::Allow)
    } else if t == "ask"@ {
        Some(Rule::Ask)
    } else if t == "deny"@ {
        Some(Rule::Deny)
    } else {
        None
    }
}

impl Rule {
    /// The rule that a text names.
    pub fn parse(s: &str) -> (r: Option<Rule>)
        ensures
            r == rule_named(s@),
    {
        let t = lower(&trim(s));
        if str_eq(&t, "allow") {
            Some(Rule::Allow)
        } else if str_eq(&t, "ask") {
            Some(Rule::Ask)
        } else if str_eq(&t, "deny") {
            Some(Rule::Deny)
        } else {
            None
        }
    }
}

/// Rules per tool; a later one takes the place of an earlier one.
pub open spec fn rules_view(s: Seq<(String, Rule)>) -> Seq<(Seq<char>, Rule)> {
    Seq::new(s.len(), |i: int| (s[i].0@, s[i].1))
}

/// The rule for a tool, if there is one.
pub open spec fn rule_for(rules: Seq<(Seq<char>, Rule)>, tool: Seq<char>) -> Option<Rule>
    decreases rules.len(),
{
    if rules.len() == 0 {
        None
    } else if rules.last().0 == tool {
        Some(rules.last().1)
    } else {
        rule_for(rules.drop_last(), tool)
    }
}

/// The rules in a configuration; what names no rule is left out.
pub open spec fn configured_rules(tools: Seq<(String, String)>) -> Seq<(Seq<char>, Rule)>
    decreases tools.len(),
{
    if tools.len() == 0 {
        Seq::empty()
    } else {
        let rest = configured_rules(tools.drop_last());
        match rule_named(tools.last().1@) {
            Some(r) => rest.push((tools.last().0@, r)),
            None => rest,
        }
    }
}

/// The fallback in a configuration: what is not listed is denied unless the
/// configuration says otherwise.
pub open spec fn configured_default(default: Option<Seq<char>>) -> Rule {
    match default {
        Some(s) => match rule_named(s) {
            Some(r) => r,
            None => Rule::Deny,
        },
        None => Rule::Deny,
    }
}

/// Configured rules, approvals of the session, and a fallback.
#[derive(Debug)]
pub struct RulePolicy {
    config_rules: Vec<(String, Rule)>,
    /// Fallback for tools without a rule.
    default: Rule,
    /// Approvals for the session, layered on top.
    session_rules: Vec<(String, Rule)>,
}

/// What a [`RulePolicy`] stands for.
#[verifier::ext_equal]
pub struct PolicyView {
    pub config: Seq<(Seq<char>, Rule)>,
    pub default: Rule,
    pub session: Seq<(Seq<char>, Rule)>,
}

impl View for RulePolicy {
    type V = PolicyView;

    closed spec fn view(&self) -> PolicyView {
        PolicyView {
            config: rules_view(self.config_rules@),
            default: self.default,
            session: rules_view(self.session_rules@),
        }
    }
}

impl PolicyView {
    /// The rule that applies to a tool: the session's, else the configured
    /// one, else the shell asks, else the fallback.
    pub open spec fn resolved(self, tool: Seq<char>) -> Rule {
        match rule_for(self.session, tool) {
            Some(r) => r,
            None => match rule_for(self.config, tool) {
                Some(r) => r,
                None => if tool == "shell"@ {
                    Rule::Ask
                } else {
                    self.default
                },
            },
        }
    }
}

/// The decision that a rule stands for.
pub open spec fn decision_of(r: Rule) -> PermissionDecision {
    match r {
        Rule::Allow => PermissionDecision::Allow,
        Rule::Ask => PermissionDecision::Ask,
        Rule::Deny => PermissionDecision::Deny,
    }
}

fn find_rule(rules: &Vec<(String, Rule)>, tool: &str) -> (r: Option<Rule>)
    ensures
        r == rule_for(rules_view(rules@), tool@),
{
    let ghost all = rules_view(rules@);
    let mut i: usize = rules.len();
    assert(all.take(i as int) =~= all);
    while i > 0
        invariant
            i <= rules@.len(),
            all == rules_view(rules@),
            rule_for(all, tool@) == rule_for(all.take(i as int), tool@),
        decreases i,
    {
        i = i - 1;
        assert(all.take(i + 1).drop_last() =~= all.take(i as int));
        if str_eq(&rules[i].0, tool) {
            return Some(rules[i].1);
        }
    }
    None
}

impl RulePolicy {
    /// The policy of a configuration, without approvals.
    pub fn from_config(cfg: &PermissionConfig) -> (r: RulePolicy)
        ensures
            r@ == (PolicyView {
                config: configured_rules(cfg.tools@),
                default: configured_default(opt_view(cfg.default)),
                session: Seq::empty(),
            }),
    {
        let n: usize = cfg.tools.len();
        let mut rules: Vec<(String, Rule)> = Vec::new();
        assert(rules_view(rules@) =~= Seq::empty());
        for i in 0..n
            invariant
                n == cfg.tools@.len(),
                rules_view(rules@) == configured_rules(cfg.tools@.take(i as int)),
        {
            let ghost before = rules_view(rules@);
            assert(cfg.tools@.take(i + 1).drop_last() =~= cfg.tools@.take(i as int));
            if let Some(r) = Rule::parse(&cfg.tools[i].1) {
                rules.push((copy_of(&cfg.tools[i].0), r));
                assert(rules_view(rules@) =~= before.push((cfg.tools@[i as int].0@, r)));
            }
        }
        assert(cfg.tools@.take(n as int) =~= cfg.tools@);
        let default = match &cfg.default {
            Some(s) => match Rule::parse(s) {
                Some(r) => r,
                None => Rule::Deny,
            },
            None => Rule::Deny,
        };
        let r = RulePolicy { config_rules: rules, default, session_rules: Vec::new() };
        assert(rules_view(r.session_rules@) =~= Seq::empty());
        r
    }

    /// Records a rule for the session.
    pub fn set_session_rule(&mut self, tool: &str, rule: Rule)
        ensures
            final(self)@ == (PolicyView {
                session: old(self)@.session.push((tool@, rule)),
                ..old(self)@
            }),
    {
        let ghost before = rules_view(self.session_rules@);
        self.session_rules.push((copy_of(tool), rule));
        assert(rules_view(self.session_rules@) =~= before.push((tool@, rule)));
    }

    /// The rule that applies to a tool.
    pub fn resolve(&self, tool: &str) -> (r: Rule)
        ensures
            r == self@.resolved(tool@),
    {
        match find_rule(&self.session_rules, tool) {
            Some(r) => r,
            None => match find_rule(&self.config_rules, tool) {
                Some(r) => r,
                None => if str_eq(tool, "shell") {
                    Rule::Ask
                } else {
                    self.default
                },
            },
        }
    }
}

impl PermissionPolicy for RulePolicy {
    open spec fn decision(&self, tool_name: Seq<char>, arguments: JsonView) -> PermissionDecision {
        decision_of(self@.resolved(tool_name))
    }

    fn approve(&self, tool_name: &str, arguments: &Json) -> (r: PermissionDecision) {
        match self.resolve(tool_name) {
            Rule::Allow => PermissionDecision::Allow,
            Rule::Ask => PermissionDecision::Ask,
            Rule::Deny => PermissionDecision::Deny,
        }
    }
}

/// A rule for the session overrides whatever applied to its tool, and
/// changes nothing for any other tool.
pub proof fn law_session_rule_overrides(
    p: PolicyView,
    tool: Seq<char>,
    rule: Rule,
    other: Seq<char>,
)
    ensures
        (PolicyView { session: p.session.push((tool, rule)), ..p }).resolved(tool) == rule,
        other != tool ==> (PolicyView {
            session: p.session.push((tool, rule)),
            ..p
        }).resolved(other) == p.resolved(other),
{
    assert(p.session.push((tool, rule)).drop_last() =~= p.session);
}

/// Without any rule the shell asks and every other tool is denied.
pub proof fn law_unlisted_tools_are_not_allowed(tool: Seq<char>)
    ensures
        ({
            let p = PolicyView {
                config: Seq::empty(),
                default: configured_default(None),
                session: Seq::empty(),
            };
            p.resolved(tool) == if tool == "shell"@ {
                Rule::Ask
            } else {
                Rule::Deny
            }
        }),
{
}

/// Whether entry `i` of the configuration is the one that counts for the
/// tool: it names a rule, and no later entry for that tool does.
pub open spec fn counts_for(tools: Seq<(String, String)>, tool: Seq<char>, i: int) -> bool {
    &&& 0 <= i < tools.len()
    &&& tools[i].0@ == tool
    &&& rule_named(tools[i].1@) is Some
    &&& forall|j: int|
        i < j < tools.len() ==> (#[trigger] tools[j]).0@ != tool || rule_named(tools[j].1@) is None
}

proof fn lemma_configured_rule(tools: Seq<(String, String)>, tool: Seq<char>)
    ensures
        forall|i: int| #[trigger]
            counts_for(tools, tool, i) ==> rule_for(configured_rules(tools), tool) == rule_named(
                tools[i].1@,
            ),
        (forall|j: int|
            0 <= j < tools.len() ==> (#[trigger] tools[j]).0@ != tool || rule_named(tools[j].1@)
                is None) ==> rule_for(configured_rules(tools), tool) is None,
    decreases tools.len(),
{
    if tools.len() > 0 {
        let head = tools.drop_last();
        let n = tools.len() - 1;
        lemma_configured_rule(head, tool);
        let rest = configured_rules(head);
        if rule_named(tools[n].1@) is Some {
            assert(configured_rules(tools).drop_last() =~= rest);
        }
        assert forall|i: int| #[trigger] counts_for(tools, tool, i) implies rule_for(
            configured_rules(tools),
            tool,
        ) == rule_named(tools[i].1@) by {
            if i < n {
                assert(tools[n].0@ != tool || rule_named(tools[n].1@) is None);
                assert forall|j: int| i < j < head.len() implies (#[trigger] head[j]).0@ != tool
                    || rule_named(head[j].1@) is None by {
                    assert(head[j] == tools[j]);
                }
                assert(counts_for(head, tool, i));
            }
        }
        if forall|j: int|
            0 <= j < tools.len() ==> (#[trigger] tools[j]).0@ != tool || rule_named(tools[j].1@)
                is None {
            assert(tools[n].0@ != tool || rule_named(tools[n].1@) is None);
            assert forall|j: int| 0 <= j < head.len() implies (#[trigger] head[j]).0@ != tool
                || rule_named(head[j].1@) is None by {
                assert(head[j] == tools[j]);
            }
        }
    }
}

/// A tool is decided on by its own entry in the configuration, the latest
/// that names a rule; a tool without one falls back, and the shell asks.
pub proof fn law_configured_rule_applies(
    tools: Seq<(String, String)>,
    default: Option<Seq<char>>,
    tool: Seq<char>,
)
    ensures
        ({
            let p = PolicyView {
                config: configured_rules(tools),
                default: configured_default(default),
                session: Seq::empty(),
            };
            &&& forall|i: int| #[trigger]
                counts_for(tools, tool, i) ==> Some(p.resolved(tool)) == rule_named(tools[i].1@)
            &&& (forall|j: int|
                0 <= j < tools.len() ==> (#[trigger] tools[j]).0@ != tool || rule_named(
                    tools[j].1@,
                ) is None) ==> p.resolved(tool) == if tool == "shell"@ {
                Rule::Ask
            } else {
                match default {
                    Some(d) => match rule_named(d) {
                        Some(r) => r,
                        None => Rule::Deny,
                    },
                    None => Rule::Deny,
                }
            }
        }),
{
    lemma_configured_rule(tools, tool);
}

/// The words of the configuration, in any case and with white space around
/// them, name the rules that they say; no other text names one.
pub proof fn law_rules_go_by_their_names(s: Seq<char>)
    ensures
        lowered(trimmed(s)) == "allow"@ <==> rule_named(s) == Some(Rule::Allow),
        lowered(trimmed(s)) == "ask"@ <==> rule_named(s) == Some(Rule::Ask),
        lowered(trimmed(s)) == "deny"@ <==> rule_named(s) == Some(Rule::Deny),
{
    reveal_strlit("allow");
    reveal_strlit("ask");
    reveal_strlit("deny");
    assert("allow"@.len() == 5 && "ask"@.len() == 3 && "deny"@.len() == 4);
}

/// A call runs unasked only where the rule for its tool allows it, and is
/// refused unasked only where that rule denies it.
pub proof fn law_decision_follows_the_rule(p: RulePolicy, tool: Seq<char>, arguments: JsonView)
    ensures
        p.decision(tool, arguments) == PermissionDecision::Allow <==> p@.resolved(tool)
            == Rule::Allow,
        p.decision(tool, arguments) == PermissionDecision::Deny <==> p@.resolved(tool)
            == Rule::Deny,
        p.decision(tool, arguments) == PermissionDecision::Ask <==> p@.resolved(tool)
            == Rule::Ask,
{
}

} // verus!
