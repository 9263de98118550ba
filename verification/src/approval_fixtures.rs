//! Scripted answers to approval requests for evaluation runs.
//!
//! A fixture is an ordered list of rules and a default answer. Each rule
//! matches a kind of approval trigger and, when it names an occurrence, only
//! the n-th request that reaches it with a matching trigger. Every handler
//! keeps its own occurrence counters, one per rule.
use vstd::prelude::*;
use crate::json::{JsonValue, JsonView, json_eq, json_equal, members_view, clone_members};
use crate::hitl::{ApprovalRequest, ApprovalResult, ApprovalTrigger};
use crate::text::{str_eq, opt_str_eq, clone_opt_string, clone_strings};

verus! {

/// The condition name under which disambiguation escalations are raised.
pub open spec fn escalation_name() -> Seq<char> {
    "disambiguation_escalation"@
}

/// The trigger a fixture rule matches.
pub enum ApprovalFixtureTrigger {
    /// A call of the named tool, with exactly these arguments when given.
    Tool { name: String, args: Option<JsonValue> },
    /// The named condition (not an escalation), with this matched
    /// expression when given.
    Condition { name: String, matched: Option<String> },
    /// A transition between these states.
    StateTransition { from: Option<String>, to: String },
    /// A disambiguation escalation, for this reason when given.
    DisambiguationEscalation { reason: Option<String> },
}

/// `expected` is absent, or equal to `actual`.
pub open spec fn absent_or_equal(expected: Option<Seq<char>>, actual: Seq<char>) -> bool {
    match expected {
        Some(e) => e == actual,
        None => true,
    }
}

/// Whether a fixture trigger matches the trigger of a request.
pub open spec fn trigger_matches(f: &ApprovalFixtureTrigger, t: &ApprovalTrigger) -> bool {
    match f {
        ApprovalFixtureTrigger::Tool { name, args } => match t {
            ApprovalTrigger::Tool { name: actual_name, args: actual_args } => name@ == actual_name@
                && match args {
                Some(x) => json_eq(x@, actual_args@),
                None => true,
            },
            _ => false,
        },
        ApprovalFixtureTrigger::Condition { name, matched } => match t {
            ApprovalTrigger::Condition { name: actual_name, matched: actual_matched } => name@ != escalation_name()
                && name@ == actual_name@ && absent_or_equal(matched.deep_view(), actual_matched@),
            _ => false,
        },
        ApprovalFixtureTrigger::StateTransition { from, to } => match t {
            ApprovalTrigger::State { from: actual_from, to: actual_to } => from.deep_view() == actual_from.deep_view()
                && to@ == actual_to@,
            _ => false,
        },
        ApprovalFixtureTrigger::DisambiguationEscalation { reason } => match t {
            ApprovalTrigger::Condition { name, matched } => name@ == escalation_name()
                && absent_or_equal(reason.deep_view(), matched@),
            _ => false,
        },
    }
}

fn absent_or_same(expected: &Option<String>, actual: &String) -> (r: bool)
    ensures
        r == absent_or_equal(expected.deep_view(), actual@),
{
    match expected {
        Some(e) => str_eq(e.as_str(), actual.as_str()),
        None => true,
    }
}

impl ApprovalFixtureTrigger {
    /// Whether this fixture trigger matches the trigger of a request.
    pub fn matches(&self, trigger: &ApprovalTrigger) -> (r: bool)
        ensures
            r == trigger_matches(self, trigger),
    {
        proof {
            reveal_strlit("disambiguation_escalation");
        }
        match self {
            ApprovalFixtureTrigger::Tool { name, args } => match trigger {
                ApprovalTrigger::Tool { name: actual_name, args: actual_args } => {
                    str_eq(name.as_str(), actual_name.as_str()) && match args {
                        Some(x) => json_equal(x, actual_args),
                        None => true,
                    }
                },
                _ => false,
            },
            ApprovalFixtureTrigger::Condition { name, matched } => match trigger {
                ApprovalTrigger::Condition { name: actual_name, matched: actual_matched } => {
                    !str_eq(name.as_str(), "disambiguation_escalation") && str_eq(name.as_str(), actual_name.as_str())
                        && absent_or_same(matched, actual_matched)
                },
                _ => false,
            },
            ApprovalFixtureTrigger::StateTransition { from, to } => match trigger {
                ApprovalTrigger::State { from: actual_from, to: actual_to } => {
                    opt_str_eq(from, actual_from) && str_eq(to.as_str(), actual_to.as_str())
                },
                _ => false,
            },
            ApprovalFixtureTrigger::DisambiguationEscalation { reason } => match trigger {
                ApprovalTrigger::Condition { name, matched } => {
                    str_eq(name.as_str(), "disambiguation_escalation") && absent_or_same(reason, matched)
                },
                _ => false,
            },
        }
    }
}

/// The answer a fixture gives.
pub enum ApprovalFixtureOutcome {
    Approve,
    Reject { reason: Option<String> },
    /// Approve with these argument changes.
    Modify { changes: Vec<(String, JsonValue)> },
    Timeout,
    /// No approver is available (the default).
    Unavailable,
}

/// Mathematical form of a fixture answer.
pub enum OutcomeView {
    Approve,
    Reject(Option<Seq<char>>),
    Modify(Seq<(Seq<char>, JsonView)>),
    Timeout,
    Unavailable,
}

impl View for ApprovalFixtureOutcome {
    type V = OutcomeView;

    open spec fn view(&self) -> OutcomeView {
        match self {
            ApprovalFixtureOutcome::Approve => OutcomeView::Approve,
            ApprovalFixtureOutcome::Reject { reason } => OutcomeView::Reject(reason.deep_view()),
            ApprovalFixtureOutcome::Modify { changes } => OutcomeView::Modify(members_view(changes@)),
            ApprovalFixtureOutcome::Timeout => OutcomeView::Timeout,
            ApprovalFixtureOutcome::Unavailable => OutcomeView::Unavailable,
        }
    }
}

impl Default for ApprovalFixtureOutcome {
    fn default() -> (r: Self)
        ensures
            r is Unavailable,
    {
        ApprovalFixtureOutcome::Unavailable
    }
}

/// The reason given when no approver is available.
pub open spec fn unavailable_reason() -> Seq<char> {
    "Approval fixture unavailable"@
}

impl ApprovalFixtureOutcome {
    /// A copy of the answer.
    pub fn copy(&self) -> (r: Self)
        ensures
            r@ == self@,
    {
        match self {
            ApprovalFixtureOutcome::Approve => ApprovalFixtureOutcome::Approve,
            ApprovalFixtureOutcome::Reject { reason } => ApprovalFixtureOutcome::Reject { reason: clone_opt_string(reason) },
            ApprovalFixtureOutcome::Modify { changes } => ApprovalFixtureOutcome::Modify { changes: clone_members(changes) },
            ApprovalFixtureOutcome::Timeout => ApprovalFixtureOutcome::Timeout,
            ApprovalFixtureOutcome::Unavailable => ApprovalFixtureOutcome::Unavailable,
        }
    }

    /// The approval result this answer stands for; an unavailable approver
    /// rejects with a reason that says so.
    pub fn into_approval_result(self) -> (r: ApprovalResult)
        ensures
            match self {
                ApprovalFixtureOutcome::Approve => r is Approved,
                ApprovalFixtureOutcome::Reject { reason } => r matches ApprovalResult::Rejected { reason: x } && x == reason,
                ApprovalFixtureOutcome::Modify { changes } => r matches ApprovalResult::Modified { changes: c } && c == changes,
                ApprovalFixtureOutcome::Timeout => r is Timeout,
                ApprovalFixtureOutcome::Unavailable => r matches ApprovalResult::Rejected { reason: Some(x) }
                    && x@ == unavailable_reason(),
            },
    {
        match self {
            ApprovalFixtureOutcome::Approve => ApprovalResult::approved(),
            ApprovalFixtureOutcome::Reject { reason } => ApprovalResult::rejected(reason),
            ApprovalFixtureOutcome::Modify { changes } => ApprovalResult::modified(changes),
            ApprovalFixtureOutcome::Timeout => ApprovalResult::timeout(),
            ApprovalFixtureOutcome::Unavailable => ApprovalResult::rejected_with_reason("Approval fixture unavailable"),
        }
    }
}

/// One rule: a trigger, optionally the 1-based occurrence it is limited to,
/// and the answer.
pub struct ApprovalFixtureRule {
    pub trigger: ApprovalFixtureTrigger,
    pub occurrence: Option<usize>,
    pub outcome: ApprovalFixtureOutcome,
}

/// The rules, in the order they are tried, and the answer when none fires.
pub struct ApprovalFixtureConfig {
    pub rules: Vec<ApprovalFixtureRule>,
    pub default: ApprovalFixtureOutcome,
    /// The language the approver prefers.
    pub preferred_language: Option<String>,
    /// The languages the approver reads.
    pub supported_languages: Option<Vec<String>>,
}

impl Default for ApprovalFixtureConfig {
    fn default() -> (r: Self)
        ensures
            r.rules@.len() == 0,
            r.default is Unavailable,
            r.preferred_language is None,
            r.supported_languages is None,
    {
        ApprovalFixtureConfig {
            rules: Vec::new(),
            default: ApprovalFixtureOutcome::Unavailable,
            preferred_language: None,
            supported_languages: None,
        }
    }
}

/// A rule fires for a request when its trigger matches and, if it names an
/// occurrence, this is that occurrence (`count` matches came before).
pub open spec fn rule_fires(rule: ApprovalFixtureRule, count: usize, t: &ApprovalTrigger) -> bool {
    trigger_matches(&rule.trigger, t) && match rule.occurrence {
        Some(n) => n == count + 1,
        None => true,
    }
}

/// Rule `i` is the first one that fires.
pub open spec fn fires_first(rules: Seq<ApprovalFixtureRule>, counts: Seq<usize>, t: &ApprovalTrigger, i: int) -> bool {
    0 <= i < rules.len() && rule_fires(rules[i], counts[i], t)
        && forall|j: int| 0 <= j < i ==> !#[trigger] rule_fires(rules[j], counts[j], t)
}

/// No rule fires.
pub open spec fn none_fires(rules: Seq<ApprovalFixtureRule>, counts: Seq<usize>, t: &ApprovalTrigger) -> bool {
    forall|j: int| 0 <= j < rules.len() ==> !#[trigger] rule_fires(rules[j], counts[j], t)
}

/// The counters after a request that was tried against rules `0..=last`:
/// each of them whose trigger matched counts one more.
pub open spec fn counted(rules: Seq<ApprovalFixtureRule>, counts: Seq<usize>, t: &ApprovalTrigger, last: int) -> Seq<usize> {
    Seq::new(counts.len(), |j: int|
        if j <= last && trigger_matches(&rules[j].trigger, t) { (counts[j] + 1) as usize } else { counts[j] })
}

/// At most one rule fires first.
pub proof fn lemma_first_unique(rules: Seq<ApprovalFixtureRule>, counts: Seq<usize>, t: &ApprovalTrigger, i: int, k: int)
    requires
        fires_first(rules, counts, t, i),
        fires_first(rules, counts, t, k),
    ensures
        i == k,
{
    if i < k {
        assert(!rule_fires(rules[i], counts[i], t));
    } else if k < i {
        assert(!rule_fires(rules[k], counts[k], t));
    }
}

/// The counters after one request.
pub open spec fn counts_after(rules: Seq<ApprovalFixtureRule>, counts: Seq<usize>, t: &ApprovalTrigger) -> Seq<usize> {
    if exists|i: int| #[trigger] fires_first(rules, counts, t, i) {
        counted(rules, counts, t, choose|i: int| #[trigger] fires_first(rules, counts, t, i))
    } else {
        counted(rules, counts, t, rules.len() as int)
    }
}

/// The counters after a sequence of requests, in order.
pub open spec fn counts_after_all(rules: Seq<ApprovalFixtureRule>, counts: Seq<usize>, ts: Seq<ApprovalTrigger>) -> Seq<usize>
    decreases ts.len(),
{
    if ts.len() == 0 {
        counts
    } else {
        counts_after(rules, counts_after_all(rules, counts, ts.drop_last()), &ts[ts.len() - 1])
    }
}

/// One request leaves each counter where it was or one higher.
proof fn lemma_step_grows(rules: Seq<ApprovalFixtureRule>, counts: Seq<usize>, t: &ApprovalTrigger)
    requires
        counts.len() == rules.len(),
        forall|j: int| 0 <= j < counts.len() ==> #[trigger] counts[j] < usize::MAX,
    ensures
        counts_after(rules, counts, t).len() == counts.len(),
        forall|j: int| 0 <= j < counts.len() ==> counts[j] <= #[trigger] counts_after(rules, counts, t)[j] <= counts[j] + 1,
{
}

/// After `k` requests each counter has grown by at most `k`, and never
/// shrunk.
proof fn lemma_all_grows(rules: Seq<ApprovalFixtureRule>, counts: Seq<usize>, ts: Seq<ApprovalTrigger>, k: int)
    requires
        counts.len() == rules.len(),
        0 <= k <= ts.len(),
        forall|j: int| 0 <= j < counts.len() ==> #[trigger] counts[j] + ts.len() < usize::MAX,
    ensures
        counts_after_all(rules, counts, ts.take(k)).len() == counts.len(),
        forall|j: int| 0 <= j < counts.len() ==>
            counts[j] <= #[trigger] counts_after_all(rules, counts, ts.take(k))[j] <= counts[j] + k,
    decreases k,
{
    if k > 0 {
        lemma_all_grows(rules, counts, ts, k - 1);
        assert(ts.take(k).drop_last() =~= ts.take(k - 1));
        let before = counts_after_all(rules, counts, ts.take(k - 1));
        lemma_step_grows(rules, before, &ts.take(k)[k - 1]);
    }
}

/// Counters never go down from one request to a later one.
proof fn lemma_all_monotone(rules: Seq<ApprovalFixtureRule>, counts: Seq<usize>, ts: Seq<ApprovalTrigger>, a: int, b: int)
    requires
        counts.len() == rules.len(),
        0 <= a <= b <= ts.len(),
        forall|j: int| 0 <= j < counts.len() ==> #[trigger] counts[j] + ts.len() < usize::MAX,
    ensures
        forall|j: int| 0 <= j < counts.len() ==>
            #[trigger] counts_after_all(rules, counts, ts.take(a))[j] <= counts_after_all(rules, counts, ts.take(b))[j],
    decreases b - a,
{
    if a < b {
        lemma_all_monotone(rules, counts, ts, a, b - 1);
        lemma_all_grows(rules, counts, ts, b - 1);
        assert(ts.take(b).drop_last() =~= ts.take(b - 1));
        let before = counts_after_all(rules, counts, ts.take(b - 1));
        lemma_step_grows(rules, before, &ts.take(b)[b - 1]);
    }
}

/// A rule limited to an occurrence answers at most one request in a
/// handler's life: once it has fired, later requests that reach it only
/// count past its occurrence.
pub proof fn law_numbered_rule_answers_once(
    rules: Seq<ApprovalFixtureRule>,
    counts: Seq<usize>,
    ts: Seq<ApprovalTrigger>,
    i: int,
    a: int,
    b: int,
)
    requires
        counts.len() == rules.len(),
        forall|j: int| 0 <= j < counts.len() ==> #[trigger] counts[j] + ts.len() < usize::MAX,
        0 <= i < rules.len(),
        rules[i].occurrence is Some,
        0 <= a < b < ts.len(),
        fires_first(rules, counts_after_all(rules, counts, ts.take(a)), &ts[a], i),
    ensures
        !fires_first(rules, counts_after_all(rules, counts, ts.take(b)), &ts[b], i),
{
    let ca = counts_after_all(rules, counts, ts.take(a));
    lemma_all_grows(rules, counts, ts, a);
    lemma_all_grows(rules, counts, ts, a + 1);
    assert(ts.take(a + 1).drop_last() =~= ts.take(a));
    assert(ts.take(a + 1)[a] == ts[a]);
    lemma_first_unique(rules, ca, &ts[a], i, choose|k: int| #[trigger] fires_first(rules, ca, &ts[a], k));
    let after = counts_after_all(rules, counts, ts.take(a + 1));
    assert(after[i] == ca[i] + 1);
    lemma_all_monotone(rules, counts, ts, a + 1, b);
    let cb = counts_after_all(rules, counts, ts.take(b));
    assert(after[i] <= cb[i]);
}

/// An approval handler that answers from a fixture.
pub struct FixtureApprovalHandler {
    config: ApprovalFixtureConfig,
    occurrences: Vec<usize>,
}

impl FixtureApprovalHandler {
    /// The fixture's rules.
    pub closed spec fn rules(&self) -> Seq<ApprovalFixtureRule> {
        self.config.rules@
    }

    /// The fixture's default answer.
    pub closed spec fn default_outcome(&self) -> OutcomeView {
        self.config.default@
    }

    /// For each rule, how many requests reached it with a matching trigger.
    pub closed spec fn counts(&self) -> Seq<usize> {
        self.occurrences@
    }

    /// The language the approver prefers.
    pub closed spec fn preferred(&self) -> Option<Seq<char>> {
        self.config.preferred_language.deep_view()
    }

    /// The languages the approver reads.
    pub closed spec fn languages(&self) -> Option<Seq<Seq<char>>> {
        self.config.supported_languages.deep_view()
    }

    /// One counter per rule.
    #[verifier::type_invariant]
    spec fn wf(&self) -> bool {
        self.occurrences@.len() == self.config.rules@.len()
    }

    /// A handler with all counters at zero.
    pub fn new(config: ApprovalFixtureConfig) -> (r: Self)
        ensures
            r.rules() == config.rules@,
            r.default_outcome() == config.default@,
            r.counts() == Seq::new(config.rules@.len(), |i: int| 0usize),
            r.preferred() == config.preferred_language.deep_view(),
            r.languages() == config.supported_languages.deep_view(),
    {
        let n = config.rules.len();
        let mut occurrences: Vec<usize> = Vec::new();
        let mut i: usize = 0;
        while i < n
            invariant
                i <= n,
                occurrences@ == Seq::new(i as nat, |k: int| 0usize),
            decreases n - i,
        {
            occurrences.push(0);
            assert(occurrences@ =~= Seq::new((i + 1) as nat, |k: int| 0usize));
            i = i + 1;
        }
        FixtureApprovalHandler { config, occurrences }
    }

    /// The answer to a request: the rules are tried in order, each one whose
    /// trigger matches counts the request, and the first that fires answers;
    /// when none fires, the default answers.
    pub fn select_outcome(&mut self, request: &ApprovalRequest) -> (r: ApprovalFixtureOutcome)
        requires
            forall|j: int| 0 <= j < old(self).counts().len() ==> #[trigger] old(self).counts()[j] < usize::MAX,
        ensures
            final(self).counts().len() == final(self).rules().len(),
            final(self).rules() == old(self).rules(),
            final(self).default_outcome() == old(self).default_outcome(),
            final(self).preferred() == old(self).preferred(),
            final(self).languages() == old(self).languages(),
            final(self).counts() == counts_after(old(self).rules(), old(self).counts(), &request.trigger),
            forall|i: int| #[trigger] fires_first(old(self).rules(), old(self).counts(), &request.trigger, i) ==> {
                &&& r@ == old(self).rules()[i].outcome@
                &&& final(self).counts() == counted(old(self).rules(), old(self).counts(), &request.trigger, i)
            },
            none_fires(old(self).rules(), old(self).counts(), &request.trigger) ==> {
                &&& r@ == old(self).default_outcome()
                &&& final(self).counts() == counted(
                    old(self).rules(),
                    old(self).counts(),
                    &request.trigger,
                    old(self).rules().len() as int,
                )
            },
    {
        proof {
            use_type_invariant(&*self);
        }
        let ghost rules = self.config.rules@;
        let mut occ: Vec<usize> = self.occurrences.clone();
        assert(occ@ =~= self.occurrences@);
        let ghost start = occ@;
        let ghost t = &request.trigger;
        proof {
            assert(start =~= old(self).counts());
        }
        let mut index: usize = 0;
        while index < self.config.rules.len()
            invariant
                t == &request.trigger,
                self.config.rules@ == rules,
                self.config.default == old(self).config.default,
                self.config.preferred_language == old(self).config.preferred_language,
                self.config.supported_languages == old(self).config.supported_languages,
                occ@.len() == rules.len(),
                start == old(self).occurrences@,
                rules == old(self).config.rules@,
                start.len() == rules.len(),
                forall|j: int| 0 <= j < start.len() ==> #[trigger] start[j] < usize::MAX,
                index <= rules.len(),
                forall|j: int| 0 <= j < index ==> !#[trigger] rule_fires(rules[j], start[j], t),
                forall|j: int| 0 <= j < rules.len() ==> #[trigger] occ@[j]
                    == counted(rules, start, t, index as int - 1)[j],
            decreases rules.len() - index,
        {
            let m = self.config.rules[index].trigger.matches(&request.trigger);
            if m {
                assert(occ@[index as int] == start[index as int]);
                let c = occ[index] + 1;
                occ.set(index, c);
                let fires = match self.config.rules[index].occurrence {
                    Some(n) => n == c,
                    None => true,
                };
                if fires {
                    proof {
                        assert(fires_first(rules, start, t, index as int));
                        assert forall|i: int| #[trigger] fires_first(rules, start, t, i) implies i == index by {
                            if i < index {
                                assert(!rule_fires(rules[i], start[i], t));
                            } else if i > index {
                                assert(!rule_fires(rules[index as int], start[index as int], t));
                            }
                        }
                        assert forall|j: int| 0 <= j < rules.len() implies
                            #[trigger] occ@[j] == counted(rules, start, t, index as int)[j] by {
                            assert(counted(rules, start, t, index as int - 1)[j] == if j == index {
                                start[j]
                            } else {
                                counted(rules, start, t, index as int)[j]
                            });
                        }
                        assert(occ@ =~= counted(rules, start, t, index as int));
                        lemma_first_unique(rules, start, t, index as int, choose|i: int| #[trigger] fires_first(rules, start, t, i));
                    }
                    self.occurrences = occ;
                    return self.config.rules[index].outcome.copy();
                }
            }
            proof {
                assert forall|j: int| 0 <= j < rules.len() implies
                    #[trigger] occ@[j] == counted(rules, start, t, index as int)[j] by {
                    if j != index {
                        assert(counted(rules, start, t, index as int - 1)[j] == counted(rules, start, t, index as int)[j]);
                    }
                }
            }
            index = index + 1;
        }
        proof {
            assert(occ@ =~= counted(rules, start, t, rules.len() as int - 1));
            assert(counted(rules, start, t, rules.len() as int - 1) =~= counted(rules, start, t, rules.len() as int));
        }
        self.occurrences = occ;
        self.config.default.copy()
    }

    /// Whether every counter can count one more request.
    pub fn can_count(&self) -> (r: bool)
        ensures
            r == forall|j: int| 0 <= j < self.counts().len() ==> #[trigger] self.counts()[j] < usize::MAX,
    {
        let mut j: usize = 0;
        while j < self.occurrences.len()
            invariant
                j <= self.occurrences@.len(),
                forall|k: int| 0 <= k < j ==> #[trigger] self.occurrences@[k] < usize::MAX,
            decreases self.occurrences@.len() - j,
        {
            if self.occurrences[j] == usize::MAX {
                assert(self.counts()[j as int] == usize::MAX);
                return false;
            }
            j = j + 1;
        }
        true
    }

    /// The language the approver prefers.
    pub fn preferred_language(&self) -> (r: Option<String>)
        ensures
            r.deep_view() == self.preferred(),
    {
        clone_opt_string(&self.config.preferred_language)
    }

    /// The languages the approver reads.
    pub fn supported_languages(&self) -> (r: Option<Vec<String>>)
        ensures
            r.deep_view() == self.languages(),
    {
        match &self.config.supported_languages {
            Some(v) => Some(clone_strings(v)),
            None => None,
        }
    }
}

} // verus!
