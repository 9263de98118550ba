//! Assertions about a turn: clauses over the state, the response text,
//! disambiguation, tools, skills, persona secrets and orchestration, and
//! their combination with `all`, `any` and `not`.
//!
//! Clauses that need an LLM judge, numeric bounds or values as serde_json
//! writes them are evaluated by the runner; their outcomes are handed in
//! with the assertion and take their places among the other clauses.
use vstd::prelude::*;
use crate::text::{to_owned_string, push_str, str_eq, str_contains, contains_seq, str_is_blank, trim_seq, chars_of};
use crate::json::{JsonValue, JsonView, JsonNumber, get_key, as_str_view, items_view, members_view, jv, member};
use crate::evidence::{DisambiguationStatus, SkillEvidence, PersonaEvidence};
use crate::eval_report::AssertionResultDetail;

verus! {

/// One text, or several.
pub enum StringList {
    One(String),
    Many(Vec<String>),
}

/// The texts of a list.
pub open spec fn list_items(l: &StringList) -> Seq<Seq<char>> {
    match l {
        StringList::One(s) => seq![s@],
        StringList::Many(v) => v.deep_view(),
    }
}

impl StringList {
    /// The texts, in order.
    pub fn items(&self) -> (r: Vec<String>)
        ensures
            r.deep_view() == list_items(self),
    {
        match self {
            StringList::One(s) => {
                let mut v: Vec<String> = Vec::new();
                v.push(s.clone());
                assert(v.deep_view() =~= seq![s@]);
                v
            },
            StringList::Many(values) => {
                let mut v: Vec<String> = Vec::new();
                let mut i: usize = 0;
                while i < values.len()
                    invariant
                        i <= values@.len(),
                        v.deep_view() == values.deep_view().take(i as int),
                    decreases values@.len() - i,
                {
                    let c = values[i].clone();
                    let ghost before = v.deep_view();
                    v.push(c);
                    assert(v.deep_view() =~= before.push(values@[i as int]@));
                    assert(v.deep_view() =~= values.deep_view().take(i + 1));
                    i = i + 1;
                }
                assert(values.deep_view().take(values@.len() as int) =~= values.deep_view());
                v
            },
        }
    }
}

/// The disambiguation outcome a turn is expected to have.
#[derive(Clone, Copy, Debug, PartialEq, Eq, Structural)]
pub enum DisambiguationExpectation {
    Triggered,
    Skipped,
    Clarified,
    Abandoned,
    GiveUp,
    Escalated,
    BestGuess,
    Clear,
}

/// Whether an observed status is the expected one.
pub open spec fn spec_disambiguation_matches(actual: DisambiguationStatus, expected: DisambiguationExpectation) -> bool {
    match (actual, expected) {
        (DisambiguationStatus::Triggered, DisambiguationExpectation::Triggered) => true,
        (DisambiguationStatus::Skipped, DisambiguationExpectation::Skipped) => true,
        (DisambiguationStatus::Clarified, DisambiguationExpectation::Clarified) => true,
        (DisambiguationStatus::Abandoned, DisambiguationExpectation::Abandoned) => true,
        (DisambiguationStatus::GiveUp, DisambiguationExpectation::GiveUp) => true,
        (DisambiguationStatus::Escalated, DisambiguationExpectation::Escalated) => true,
        (DisambiguationStatus::BestGuess, DisambiguationExpectation::BestGuess) => true,
        (DisambiguationStatus::Clear, DisambiguationExpectation::Clear) => true,
        _ => false,
    }
}

/// Whether an observed disambiguation status is the expected one.
pub fn disambiguation_matches(actual: &DisambiguationStatus, expected: &DisambiguationExpectation) -> (r: bool)
    ensures
        r == spec_disambiguation_matches(*actual, *expected),
{
    match (actual, expected) {
        (DisambiguationStatus::Triggered, DisambiguationExpectation::Triggered) => true,
        (DisambiguationStatus::Skipped, DisambiguationExpectation::Skipped) => true,
        (DisambiguationStatus::Clarified, DisambiguationExpectation::Clarified) => true,
        (DisambiguationStatus::Abandoned, DisambiguationExpectation::Abandoned) => true,
        (DisambiguationStatus::GiveUp, DisambiguationExpectation::GiveUp) => true,
        (DisambiguationStatus::Escalated, DisambiguationExpectation::Escalated) => true,
        (DisambiguationStatus::BestGuess, DisambiguationExpectation::BestGuess) => true,
        (DisambiguationStatus::Clear, DisambiguationExpectation::Clear) => true,
        _ => false,
    }
}

/// A persona secret assertion: whether any secret was revealed, or that a
/// given secret was.
pub enum SecretAssertion {
    Bool(bool),
    Id(String),
}

/// Facts expected in actor memory after a turn (checked by the runner).
pub struct FactsAssertion {
    pub actor: Option<String>,
    pub category: Option<String>,
    pub semantic: Option<String>,
}

/// Expectations about orchestration metadata.
pub struct OrchestrationAssertion {
    pub pattern: Option<String>,
    /// The pattern, given under the key `type`.
    pub kind: Option<String>,
    pub final_agent_in: Option<Vec<String>>,
    pub agents_include: Option<Vec<String>>,
    pub stages: Option<usize>,
}

/// What the clauses read of a turn.
pub struct TurnObservation {
    pub state: Option<String>,
    /// State transitions as (from, to).
    pub state_history: Vec<(String, String)>,
    pub disambiguation: Option<DisambiguationStatus>,
    /// Executed tools as (tool id, requested name).
    pub tool_calls: Vec<(String, String)>,
    pub skill: Option<SkillEvidence>,
    pub persona: Option<PersonaEvidence>,
    pub orchestration: Option<JsonValue>,
}

/// Outcomes of clauses that are evaluated outside the library (those with
/// numeric bounds, those that compare values as serde_json writes them,
/// and the LLM judge), each group in its place among the other clauses.
pub struct ExternalOutcomes {
    /// `tool_called`, which follows `no_disambiguation`.
    pub after_disambiguation: Vec<AssertionResultDetail>,
    /// `metadata_contains`, `metadata_path`, `context_path`, `facts_include`
    /// and `relationship`, which follow `skill_triggered`.
    pub after_skill: Vec<AssertionResultDetail>,
    /// `observability` and the judge, which follow `orchestration`.
    pub after_orchestration: Vec<AssertionResultDetail>,
}

impl ExternalOutcomes {
    /// No outcomes from outside.
    pub fn none() -> (r: Self)
        ensures
            r.after_disambiguation@.len() == 0,
            r.after_skill@.len() == 0,
            r.after_orchestration@.len() == 0,
    {
        ExternalOutcomes { after_disambiguation: Vec::new(), after_skill: Vec::new(), after_orchestration: Vec::new() }
    }
}

/// The clauses of an assertion that read the turn directly.
pub struct SimpleAssertion {
    pub state: Option<String>,
    pub state_in: Option<Vec<String>>,
    pub state_not: Option<String>,
    pub state_history_contains: Option<String>,
    pub response_contains: Option<StringList>,
    pub response_contains_any: Option<StringList>,
    pub response_not_contains: Option<StringList>,
    pub response_not_empty: Option<bool>,
    pub disambiguation: Option<DisambiguationExpectation>,
    pub no_disambiguation: Option<bool>,
    pub tool_not_called: Option<String>,
    pub skill_triggered: Option<String>,
    pub persona_secret_revealed: Option<SecretAssertion>,
    pub orchestration: Option<OrchestrationAssertion>,
    /// The judge or the semantic response clause is set (both are judged
    /// outside the library, their outcomes among `external`).
    pub response_judged: bool,
    pub external: ExternalOutcomes,
}

/// A clause's record: its name, whether it passed, the actual and the
/// expected value, and the message of a failure.
pub type Verdict = (Seq<char>, bool, JsonView, JsonView, Option<Seq<char>>);

/// The records of details, in order.
pub open spec fn verdicts(d: Seq<AssertionResultDetail>) -> Seq<Verdict> {
    Seq::new(d.len(), |i: int| (d[i].assertion@, d[i].passed, d[i].actual@, d[i].expected@, d[i].message.deep_view()))
}

/// A passed clause.
pub open spec fn pass_v(name: Seq<char>, actual: JsonView, expected: JsonView) -> Verdict {
    (name, true, actual, expected, None)
}

/// A failed clause with its message.
pub open spec fn fail_v(name: Seq<char>, actual: JsonView, expected: JsonView, message: Seq<char>) -> Verdict {
    (name, false, actual, expected, Some(message))
}

/// A simple clause's record: a failure carries "assertion failed".
pub open spec fn check_v(name: Seq<char>, passed: bool, actual: JsonView, expected: JsonView) -> Verdict {
    if passed { pass_v(name, actual, expected) } else { fail_v(name, actual, expected, "assertion failed"@) }
}

/// One record per text: whether the response contains it (or not), with
/// the response as actual and the text as expected value.
pub open spec fn each_contains(name: Seq<char>, resp: Seq<char>, items: Seq<Seq<char>>, want: bool) -> Seq<Verdict> {
    Seq::new(items.len(), |i: int| check_v(name, contains_seq(resp, items[i]) == want, JsonView::Str(resp), JsonView::Str(items[i])))
}

/// Some string of `v` has the characters of `x`.
pub open spec fn has_text(v: Seq<String>, x: Seq<char>) -> bool {
    exists|i: int| 0 <= i < v.len() && (#[trigger] v[i])@ == x
}

/// The text under the first of `keys` that holds one.
pub open spec fn first_text(v: JsonView, keys: Seq<Seq<char>>) -> Option<Seq<char>>
    decreases keys.len(),
{
    if keys.len() == 0 {
        None
    } else {
        match get_key(v, keys[0]) {
            Some(x) => as_str_view(x),
            None => first_text(v, keys.skip(1)),
        }
    }
}

/// Keys naming an agent in orchestration metadata.
pub open spec fn agent_key(k: Seq<char>) -> bool {
    k == "agent"@ || k == "agent_id"@ || k == "id"@ || k == "final_agent"@ || k == "to_agent"@ || k == "from_agent"@
}

/// The agent names found anywhere in orchestration metadata: strings under
/// agent keys, and strings in arrays.
pub open spec fn agent_strings(v: JsonView) -> Seq<Seq<char>>
    decreases v, 0nat,
{
    match v {
        JsonView::Object(m) => member_agents(m),
        JsonView::Array(items) => item_agents(items),
        _ => Seq::empty(),
    }
}

pub open spec fn member_agents(m: Seq<(Seq<char>, JsonView)>) -> Seq<Seq<char>>
    decreases m, 1nat,
{
    if m.len() == 0 {
        Seq::empty()
    } else {
        let (k, v) = m.last();
        member_agents(m.drop_last())
            + (if agent_key(k) && as_str_view(v) is Some { seq![as_str_view(v)->0] } else { Seq::empty() })
            + agent_strings(v)
    }
}

pub open spec fn item_agents(s: Seq<JsonView>) -> Seq<Seq<char>>
    decreases s, 1nat,
{
    if s.len() == 0 {
        Seq::empty()
    } else {
        let v = s.last();
        item_agents(s.drop_last())
            + (if as_str_view(v) is Some { seq![as_str_view(v)->0] } else { Seq::empty() })
            + agent_strings(v)
    }
}

/// Whether orchestration metadata meets the expectations.
pub open spec fn orchestration_passes(a: &OrchestrationAssertion, v: JsonView) -> bool {
    let pattern = if a.pattern is Some { a.pattern.deep_view() } else { a.kind.deep_view() };
    &&& (pattern is Some ==> first_text(v, seq!["type"@, "pattern"@]) == pattern)
    &&& (a.final_agent_in matches Some(finals) ==> (first_text(v, seq!["final_agent"@, "to_agent"@, "agent"@]) matches Some(f) && has_text(finals@, f)))
    &&& (a.agents_include matches Some(required) ==> forall|i: int| 0 <= i < required@.len() ==> agent_strings(v).contains((#[trigger] required@[i])@))
    &&& (a.stages matches Some(n) ==> n == (match get_key(v, "stages"@) {
            Some(JsonView::Array(items)) => items.len(),
            _ => 0,
        }))
}

/// Whether the persona secret expectation holds.
pub open spec fn secret_passes(a: &SecretAssertion, persona: Option<PersonaEvidence>) -> bool {
    match a {
        SecretAssertion::Bool(expected) => (persona matches Some(p) && p.secret_revealed) == *expected,
        SecretAssertion::Id(id) => persona matches Some(p) && has_text(p.revealed_secret_ids@, id@),
    }
}

/// Whether the skill evidence names `id` as selected or executed.
pub open spec fn skill_passes(skill: Option<SkillEvidence>, id: Seq<char>) -> bool {
    skill matches Some(s) && (s.selected_skill_id.deep_view() == Some(id) || s.executed_skill_id.deep_view() == Some(id))
}

/// Disambiguation counts as having happened for these statuses.
pub open spec fn disambiguation_active(s: Option<DisambiguationStatus>) -> bool {
    s == Some(DisambiguationStatus::Triggered) || s == Some(DisambiguationStatus::Clarified) || s == Some(DisambiguationStatus::BestGuess)
}

pub open spec fn v_state(a: &SimpleAssertion, obs: &TurnObservation) -> Seq<Verdict> {
    match &a.state {
        Some(e) => seq![check_v("state"@, obs.state is Some && obs.state.deep_view() == Some(e@), opt_text_json(obs.state.deep_view()), JsonView::Str(e@))],
        None => Seq::empty(),
    }
}

pub open spec fn v_state_in(a: &SimpleAssertion, obs: &TurnObservation) -> Seq<Verdict> {
    match &a.state_in {
        Some(l) => seq![check_v("state_in"@, obs.state matches Some(s) && has_text(l@, s@), opt_text_json(obs.state.deep_view()), texts_json(l.deep_view()))],
        None => Seq::empty(),
    }
}

pub open spec fn v_state_not(a: &SimpleAssertion, obs: &TurnObservation) -> Seq<Verdict> {
    match &a.state_not {
        Some(e) => seq![check_v("state_not"@, obs.state is None || obs.state.deep_view() != Some(e@), opt_text_json(obs.state.deep_view()), JsonView::Str(e@))],
        None => Seq::empty(),
    }
}

/// Some transition enters or leaves state `e`.
pub open spec fn history_has(h: Seq<(String, String)>, e: Seq<char>) -> bool {
    exists|i: int| 0 <= i < h.len() && ((#[trigger] h[i]).1@ == e || h[i].0@ == e)
}

pub open spec fn v_history(a: &SimpleAssertion, obs: &TurnObservation) -> Seq<Verdict> {
    match &a.state_history_contains {
        Some(e) => seq![check_v("state_history_contains"@, history_has(obs.state_history@, e@), history_json(obs.state_history.deep_view()), JsonView::Str(e@))],
        None => Seq::empty(),
    }
}

pub open spec fn v_contains(a: &SimpleAssertion, resp: Seq<char>) -> Seq<Verdict> {
    match &a.response_contains {
        Some(l) => each_contains("response_contains"@, resp, list_items(l), true),
        None => Seq::empty(),
    }
}

/// Some text of the list occurs in the response.
pub open spec fn contains_any(resp: Seq<char>, items: Seq<Seq<char>>) -> bool {
    exists|i: int| 0 <= i < items.len() && contains_seq(resp, #[trigger] items[i])
}

pub open spec fn v_contains_any(a: &SimpleAssertion, resp: Seq<char>) -> Seq<Verdict> {
    match &a.response_contains_any {
        Some(l) => seq![check_v("response_contains_any"@, contains_any(resp, list_items(l)), JsonView::Str(resp), texts_json(list_items(l)))],
        None => Seq::empty(),
    }
}

pub open spec fn v_not_contains(a: &SimpleAssertion, resp: Seq<char>) -> Seq<Verdict> {
    match &a.response_not_contains {
        Some(l) => each_contains("response_not_contains"@, resp, list_items(l), false),
        None => Seq::empty(),
    }
}

pub open spec fn v_not_empty(a: &SimpleAssertion, resp: Seq<char>) -> Seq<Verdict> {
    match a.response_not_empty {
        Some(e) => seq![check_v("response_not_empty"@, (trim_seq(resp).len() > 0) == e, JsonView::Str(resp), JsonView::Bool(e))],
        None => Seq::empty(),
    }
}

/// A disambiguation status as JSON: its name, or `null`.
pub open spec fn status_json(s: Option<DisambiguationStatus>) -> JsonView {
    match s {
        None => JsonView::Null,
        Some(x) => JsonView::Str(status_name(x)),
    }
}

pub open spec fn v_disambiguation(a: &SimpleAssertion, obs: &TurnObservation) -> Seq<Verdict> {
    match a.disambiguation {
        Some(e) => seq![check_v("disambiguation"@, obs.disambiguation matches Some(s) && spec_disambiguation_matches(s, e), status_json(obs.disambiguation), JsonView::Str(expectation_name(e)))],
        None => Seq::empty(),
    }
}

pub open spec fn v_no_disambiguation(a: &SimpleAssertion, obs: &TurnObservation) -> Seq<Verdict> {
    match a.no_disambiguation {
        Some(e) => seq![check_v("no_disambiguation"@, !disambiguation_active(obs.disambiguation) == e, JsonView::Bool(!disambiguation_active(obs.disambiguation)), JsonView::Bool(e))],
        None => Seq::empty(),
    }
}

/// Some executed tool has `id` as its id or requested name.
pub open spec fn tool_ran(calls: Seq<(String, String)>, id: Seq<char>) -> bool {
    exists|i: int| 0 <= i < calls.len() && ((#[trigger] calls[i]).0@ == id || calls[i].1@ == id)
}

pub open spec fn v_tool_not_called(a: &SimpleAssertion, obs: &TurnObservation) -> Seq<Verdict> {
    match &a.tool_not_called {
        Some(id) => seq![check_v("tool_not_called"@, !tool_ran(obs.tool_calls@, id@), JsonView::Str(id@), JsonView::Str("not called"@))],
        None => Seq::empty(),
    }
}

pub open spec fn v_skill(a: &SimpleAssertion, obs: &TurnObservation) -> Seq<Verdict> {
    match &a.skill_triggered {
        Some(id) => seq![check_v("skill_triggered"@, skill_passes(obs.skill, id@), skill_json(obs.skill), JsonView::Str(id@))],
        None => Seq::empty(),
    }
}

/// Whether the persona revealed a secret (`false` without persona evidence).
pub open spec fn secret_revealed(persona: Option<PersonaEvidence>) -> bool {
    persona matches Some(p) && p.secret_revealed
}

/// A persona secret assertion as JSON.
pub open spec fn secret_json(a: &SecretAssertion) -> JsonView {
    match a {
        SecretAssertion::Bool(b) => JsonView::Bool(*b),
        SecretAssertion::Id(id) => JsonView::Str(id@),
    }
}

pub open spec fn v_secret(a: &SimpleAssertion, obs: &TurnObservation) -> Seq<Verdict> {
    match &a.persona_secret_revealed {
        Some(s) => seq![check_v("persona_secret_revealed"@, secret_passes(s, obs.persona), JsonView::Bool(secret_revealed(obs.persona)), secret_json(s))],
        None => Seq::empty(),
    }
}

pub open spec fn v_orchestration(a: &SimpleAssertion, obs: &TurnObservation) -> Seq<Verdict> {
    match &a.orchestration {
        Some(o) => seq![check_v("orchestration"@, obs.orchestration matches Some(v) && orchestration_passes(o, v@),
            match &obs.orchestration { Some(v) => v@, None => JsonView::Null }, orchestration_json(o))],
        None => Seq::empty(),
    }
}

/// The records of the simple clauses, in the order they are checked.
pub open spec fn clause_verdicts(a: &SimpleAssertion, obs: &TurnObservation, resp: Seq<char>) -> Seq<Verdict> {
    v_state(a, obs) + v_state_in(a, obs) + v_state_not(a, obs) + v_history(a, obs) + v_contains(a, resp)
        + v_contains_any(a, resp) + v_not_contains(a, resp) + v_not_empty(a, resp) + v_disambiguation(a, obs)
        + v_no_disambiguation(a, obs) + verdicts(a.external.after_disambiguation@) + v_tool_not_called(a, obs)
        + v_skill(a, obs) + verdicts(a.external.after_skill@) + v_secret(a, obs) + v_orchestration(a, obs)
        + verdicts(a.external.after_orchestration@)
}

fn json_text(s: &str) -> (r: JsonValue)
    ensures
        r@ == JsonView::Str(s@),
{
    JsonValue::Str(to_owned_string(s))
}

/// An optional text as JSON: the string, or `null`.
pub open spec fn opt_text_json(o: Option<Seq<char>>) -> JsonView {
    match o {
        Some(t) => JsonView::Str(t),
        None => JsonView::Null,
    }
}

/// A list of texts as a JSON array of strings.
pub open spec fn texts_json(v: Seq<Seq<char>>) -> JsonView {
    JsonView::Array(v.map_values(|t: Seq<char>| JsonView::Str(t)))
}

/// An optional list of texts as JSON: the array, or `null`.
pub open spec fn opt_texts_json(o: Option<Seq<Seq<char>>>) -> JsonView {
    match o {
        Some(v) => texts_json(v),
        None => JsonView::Null,
    }
}

fn json_opt_text(o: &Option<String>) -> (r: JsonValue)
    ensures
        r@ == opt_text_json(o.deep_view()),
{
    match o {
        Some(s) => JsonValue::Str(s.clone()),
        None => JsonValue::Null,
    }
}

fn json_texts(v: &Vec<String>) -> (r: JsonValue)
    ensures
        r@ == texts_json(v.deep_view()),
{
    let ghost dv = v.deep_view();
    let mut out: Vec<JsonValue> = Vec::new();
    let mut i: usize = 0;
    while i < v.len()
        invariant
            dv == v.deep_view(),
            i <= v@.len(),
            items_view(out@) == dv.take(i as int).map_values(|t: Seq<char>| JsonView::Str(t)),
        decreases v@.len() - i,
    {
        let ghost before = out@;
        let t = v[i].clone();
        assert(t@ == dv[i as int]);
        let elem = JsonValue::Str(t);
        assert(elem@ == JsonView::Str(dv[i as int]));
        out.push(elem);
        proof {
            assert(out@.drop_last() =~= before);
            assert(items_view(out@) == items_view(before).push(JsonView::Str(dv[i as int])));
            assert(dv.take(i + 1).map_values(|t: Seq<char>| JsonView::Str(t))
                =~= dv.take(i as int).map_values(|t: Seq<char>| JsonView::Str(t)).push(JsonView::Str(dv[i as int])));
        }
        i = i + 1;
    }
    assert(dv.take(i as int) =~= dv);
    JsonValue::Array(out)
}

/// Appends the outcome of one clause.
fn add_verdict(details: &mut Vec<AssertionResultDetail>, name: &str, passed: bool, actual: JsonValue, expected: JsonValue)
    ensures
        verdicts(final(details)@) == verdicts(old(details)@).push(check_v(name@, passed, actual@, expected@)),
{
    let ghost v = check_v(name@, passed, actual@, expected@);
    if passed {
        details.push(AssertionResultDetail::pass(name, actual, expected));
    } else {
        details.push(AssertionResultDetail::fail(name, actual, expected, "assertion failed"));
    }
    assert(verdicts(details@) =~= verdicts(old(details)@).push(v));
}

fn list_has(v: &Vec<String>, x: &str) -> (r: bool)
    ensures
        r == has_text(v@, x@),
{
    let mut i: usize = 0;
    while i < v.len()
        invariant
            i <= v@.len(),
            forall|k: int| 0 <= k < i ==> (#[trigger] v@[k])@ != x@,
        decreases v@.len() - i,
    {
        if str_eq(v[i].as_str(), x) {
            return true;
        }
        i = i + 1;
    }
    false
}

fn history_contains(h: &Vec<(String, String)>, e: &str) -> (r: bool)
    ensures
        r == history_has(h@, e@),
{
    let mut i: usize = 0;
    while i < h.len()
        invariant
            i <= h@.len(),
            forall|k: int| 0 <= k < i ==> !((#[trigger] h@[k]).1@ == e@ || h@[k].0@ == e@),
        decreases h@.len() - i,
    {
        if str_eq(h[i].1.as_str(), e) || str_eq(h[i].0.as_str(), e) {
            return true;
        }
        i = i + 1;
    }
    false
}

fn any_tool(calls: &Vec<(String, String)>, id: &str) -> (r: bool)
    ensures
        r == tool_ran(calls@, id@),
{
    let mut i: usize = 0;
    while i < calls.len()
        invariant
            i <= calls@.len(),
            forall|k: int| 0 <= k < i ==> !((#[trigger] calls@[k]).0@ == id@ || calls@[k].1@ == id@),
        decreases calls@.len() - i,
    {
        if str_eq(calls[i].0.as_str(), id) || str_eq(calls[i].1.as_str(), id) {
            return true;
        }
        i = i + 1;
    }
    false
}

/// One verdict per text of the list: whether the response contains it
/// (`want`) or not.
fn add_each_contains(details: &mut Vec<AssertionResultDetail>, name: &str, response: &str, list: &StringList, want: bool)
    ensures
        verdicts(final(details)@) == verdicts(old(details)@) + each_contains(name@, response@, list_items(list), want),
{
    let items = list.items();
    let ghost start = verdicts(details@);
    let ghost all = each_contains(name@, response@, list_items(list), want);
    let mut i: usize = 0;
    assert(all.take(0) =~= Seq::<Verdict>::empty());
    while i < items.len()
        invariant
            items.deep_view() == list_items(list),
            all == each_contains(name@, response@, list_items(list), want),
            i <= items@.len(),
            verdicts(details@) == start + all.take(i as int),
        decreases items@.len() - i,
    {
        let found = str_contains(response, items[i].as_str());
        add_verdict(details, name, found == want, json_text(response), JsonValue::Str(items[i].clone()));
        assert(all.take(i + 1) =~= all.take(i as int).push(all[i as int]));
        i = i + 1;
    }
    assert(all.take(items@.len() as int) =~= all);
}

fn contains_any_item(response: &str, list: &StringList) -> (r: bool)
    ensures
        r == contains_any(response@, list_items(list)),
{
    let items = list.items();
    let mut i: usize = 0;
    while i < items.len()
        invariant
            items.deep_view() == list_items(list),
            i <= items@.len(),
            forall|k: int| 0 <= k < i ==> !contains_seq(response@, #[trigger] list_items(list)[k]),
        decreases items@.len() - i,
    {
        if str_contains(response, items[i].as_str()) {
            assert(contains_seq(response@, list_items(list)[i as int]));
            return true;
        }
        i = i + 1;
    }
    false
}

fn opt_is(o: &Option<String>, x: &str) -> (r: bool)
    ensures
        r == (o.deep_view() == Some(x@)),
{
    match o {
        Some(s) => str_eq(s.as_str(), x),
        None => false,
    }
}

fn text_under(v: &JsonValue, keys: &Vec<&str>) -> (r: Option<String>)
    ensures
        r.deep_view() == first_text(v@, keys@.map_values(|k: &str| k@)),
{
    let ghost ks = keys@.map_values(|k: &str| k@);
    let mut i: usize = 0;
    assert(ks.skip(0) =~= ks);
    while i < keys.len()
        invariant
            ks == keys@.map_values(|k: &str| k@),
            i <= keys@.len(),
            first_text(v@, ks) == first_text(v@, ks.skip(i as int)),
        decreases keys@.len() - i,
    {
        assert(ks.skip(i as int)[0] == keys@[i as int]@);
        assert(ks.skip(i as int).skip(1) =~= ks.skip(i + 1));
        match v.get(keys[i]) {
            Some(x) => {
                return match x.as_str() {
                    Some(t) => Some(to_owned_string(t)),
                    None => None,
                };
            },
            None => {},
        }
        i = i + 1;
    }
    None
}

fn is_agent_key(k: &str) -> (r: bool)
    ensures
        r == agent_key(k@),
{
    str_eq(k, "agent") || str_eq(k, "agent_id") || str_eq(k, "id") || str_eq(k, "final_agent") || str_eq(k, "to_agent")
        || str_eq(k, "from_agent")
}

/// Collects the agent names in orchestration metadata.
pub fn collect_agent_strings(value: &JsonValue, agents: &mut Vec<String>)
    ensures
        final(agents).deep_view() == old(agents).deep_view() + agent_strings(value@),
    decreases value,
{
    match value {
        JsonValue::Object(members) => {
            let ghost start = agents.deep_view();
            let mut k: usize = 0;
            assert(members@.take(0) =~= Seq::<(String, JsonValue)>::empty());
            proof {
                crate::json::lemma_members_view(members@);
            }
            while k < members.len()
                invariant
                    *value == JsonValue::Object(*members),
                    value@ == JsonView::Object(members_view(members@)),
                    forall|t: int| 0 <= t < members@.len() ==> #[trigger] members_view(members@)[t] == (members@[t].0@, jv(&members@[t].1)),
                    k <= members@.len(),
                    agents.deep_view() == start + member_agents(members_view(members@.take(k as int))),
                decreases members@.len() - k,
            {
                let ghost before = agents.deep_view();
                proof {
                    let t = members@.take(k + 1);
                    assert(t.drop_last() =~= members@.take(k as int));
                    crate::json::lemma_members_view(t);
                    crate::json::lemma_members_view(t.drop_last());
                    assert(members_view(t).drop_last() =~= members_view(t.drop_last()));
                    assert(members_view(t).last() == (members@[k as int].0@, jv(&members@[k as int].1)));
                }
                if is_agent_key(members[k].0.as_str()) {
                    match members[k].1.as_str() {
                        Some(text) => {
                            agents.push(to_owned_string(text));
                            assert(agents.deep_view() =~= before.push(text@));
                        },
                        None => {},
                    }
                }
                let ghost mid = agents.deep_view();
                assert(decreases_to!(value => members@[k as int].1));
                collect_agent_strings(&members[k].1, agents);
                proof {
                    let (kk, vv) = members_view(members@.take(k + 1)).last();
                    assert(mid == before + (if agent_key(kk) && as_str_view(vv) is Some { seq![as_str_view(vv)->0] } else { Seq::empty() }));
                    assert(agents.deep_view() =~= start + member_agents(members_view(members@.take(k + 1))));
                }
                k = k + 1;
            }
            assert(members@.take(members@.len() as int) =~= members@);
        },
        JsonValue::Array(items) => {
            let ghost start = agents.deep_view();
            let mut k: usize = 0;
            assert(items@.take(0) =~= Seq::<JsonValue>::empty());
            proof {
                crate::json::lemma_items_view(items@);
            }
            while k < items.len()
                invariant
                    *value == JsonValue::Array(*items),
                    value@ == JsonView::Array(items_view(items@)),
                    forall|t: int| 0 <= t < items@.len() ==> #[trigger] items_view(items@)[t] == jv(&items@[t]),
                    k <= items@.len(),
                    agents.deep_view() == start + item_agents(items_view(items@.take(k as int))),
                decreases items@.len() - k,
            {
                let ghost before = agents.deep_view();
                proof {
                    let t = items@.take(k + 1);
                    assert(t.drop_last() =~= items@.take(k as int));
                    crate::json::lemma_items_view(t);
                    crate::json::lemma_items_view(t.drop_last());
                    assert(items_view(t).drop_last() =~= items_view(t.drop_last()));
                    assert(items_view(t).last() == jv(&items@[k as int]));
                }
                match items[k].as_str() {
                    Some(text) => {
                        agents.push(to_owned_string(text));
                        assert(agents.deep_view() =~= before.push(text@));
                    },
                    None => {},
                }
                let ghost mid = agents.deep_view();
                assert(decreases_to!(value => items@[k as int]));
                collect_agent_strings(&items[k], agents);
                proof {
                    let vv = items_view(items@.take(k + 1)).last();
                    assert(mid == before + (if as_str_view(vv) is Some { seq![as_str_view(vv)->0] } else { Seq::empty() }));
                    assert(agents.deep_view() =~= start + item_agents(items_view(items@.take(k + 1))));
                }
                k = k + 1;
            }
            assert(items@.take(items@.len() as int) =~= items@);
        },
        _ => {
            assert(agents.deep_view() =~= old(agents).deep_view() + agent_strings(value@));
        },
    }
}

fn orchestration_check(a: &OrchestrationAssertion, v: &JsonValue) -> (r: bool)
    ensures
        r == orchestration_passes(a, v@),
{
    let mut passed = true;
    let pattern: &Option<String> = if a.pattern.is_some() { &a.pattern } else { &a.kind };
    match pattern {
        Some(p) => {
            let mut keys: Vec<&str> = Vec::new();
            keys.push("type");
            keys.push("pattern");
            assert(keys@.map_values(|k: &str| k@) =~= seq!["type"@, "pattern"@]);
            let found = text_under(v, &keys);
            let same = match &found {
                Some(f) => str_eq(f.as_str(), p.as_str()),
                None => false,
            };
            passed = passed && same;
        },
        None => {},
    }
    match &a.final_agent_in {
        Some(finals) => {
            let mut keys: Vec<&str> = Vec::new();
            keys.push("final_agent");
            keys.push("to_agent");
            keys.push("agent");
            assert(keys@.map_values(|k: &str| k@) =~= seq!["final_agent"@, "to_agent"@, "agent"@]);
            let found = text_under(v, &keys);
            let ok = match &found {
                Some(f) => list_has(finals, f.as_str()),
                None => false,
            };
            passed = passed && ok;
        },
        None => {},
    }
    match &a.agents_include {
        Some(required) => {
            let mut agents: Vec<String> = Vec::new();
            collect_agent_strings(v, &mut agents);
            assert(agents.deep_view() =~= agent_strings(v@));
            let mut i: usize = 0;
            let mut all = true;
            while i < required.len() && all
                invariant
                    agents.deep_view() == agent_strings(v@),
                    i <= required@.len(),
                    all ==> forall|k: int| 0 <= k < i ==> agent_strings(v@).contains((#[trigger] required@[k])@),
                    !all ==> !(forall|k: int| 0 <= k < required@.len() ==> agent_strings(v@).contains((#[trigger] required@[k])@)),
                decreases required@.len() - i,
            {
                if !list_has(&agents, required[i].as_str()) {
                    proof {
                        if agent_strings(v@).contains(required@[i as int]@) {
                            let j = choose|j: int| 0 <= j < agent_strings(v@).len() && agent_strings(v@)[j] == required@[i as int]@;
                            assert(agents@[j]@ == agent_strings(v@)[j]);
                        }
                    }
                    all = false;
                } else {
                    proof {
                        let j = choose|j: int| 0 <= j < agents@.len() && (#[trigger] agents@[j])@ == required@[i as int]@;
                        assert(agent_strings(v@)[j] == agents@[j]@);
                    }
                }
                i = i + 1;
            }
            passed = passed && all;
        },
        None => {},
    }
    match a.stages {
        Some(n) => {
            let actual: usize = match v.get("stages") {
                Some(JsonValue::Array(items)) => {
                    proof {
                        crate::json::lemma_items_view(items@);
                    }
                    items.len()
                },
                _ => 0,
            };
            passed = passed && actual == n;
        },
        None => {},
    }
    passed
}

/// The skill evidence as a JSON object, or `null`.
pub open spec fn skill_json(s: Option<SkillEvidence>) -> JsonView {
    match s {
        None => JsonView::Null,
        Some(e) => JsonView::Object(seq![
            ("selected_skill_id"@, opt_text_json(e.selected_skill_id.deep_view())),
            ("executed_skill_id"@, opt_text_json(e.executed_skill_id.deep_view())),
            ("no_match"@, JsonView::Bool(e.no_match)),
            ("clarification_requested"@, JsonView::Bool(e.clarification_requested)),
        ]),
    }
}

fn json_skill(s: &Option<SkillEvidence>) -> (r: JsonValue)
    ensures
        r@ == skill_json(*s),
{
    match s {
        None => JsonValue::Null,
        Some(e) => {
            let mut m: Vec<(String, JsonValue)> = Vec::new();
            m.push((to_owned_string("selected_skill_id"), json_opt_text(&e.selected_skill_id)));
            m.push((to_owned_string("executed_skill_id"), json_opt_text(&e.executed_skill_id)));
            m.push((to_owned_string("no_match"), JsonValue::Bool(e.no_match)));
            m.push((to_owned_string("clarification_requested"), JsonValue::Bool(e.clarification_requested)));
            proof {
                crate::json::lemma_members_view(m@);
            }
            assert(members_view(m@) =~= seq![
                ("selected_skill_id"@, opt_text_json(e.selected_skill_id.deep_view())),
                ("executed_skill_id"@, opt_text_json(e.executed_skill_id.deep_view())),
                ("no_match"@, JsonView::Bool(e.no_match)),
                ("clarification_requested"@, JsonView::Bool(e.clarification_requested)),
            ]);
            JsonValue::Object(m)
        },
    }
}

/// The name a disambiguation status is written under.
pub open spec fn status_name(s: DisambiguationStatus) -> Seq<char> {
    match s {
        DisambiguationStatus::Clear => "clear"@,
        DisambiguationStatus::Skipped => "skipped"@,
        DisambiguationStatus::Triggered => "triggered"@,
        DisambiguationStatus::Clarified => "clarified"@,
        DisambiguationStatus::BestGuess => "best_guess"@,
        DisambiguationStatus::Abandoned => "abandoned"@,
        DisambiguationStatus::GiveUp => "give_up"@,
        DisambiguationStatus::Escalated => "escalated"@,
    }
}

/// The name a disambiguation expectation is written under.
pub open spec fn expectation_name(e: DisambiguationExpectation) -> Seq<char> {
    match e {
        DisambiguationExpectation::Triggered => "triggered"@,
        DisambiguationExpectation::Skipped => "skipped"@,
        DisambiguationExpectation::Clarified => "clarified"@,
        DisambiguationExpectation::Abandoned => "abandoned"@,
        DisambiguationExpectation::GiveUp => "give_up"@,
        DisambiguationExpectation::Escalated => "escalated"@,
        DisambiguationExpectation::BestGuess => "best_guess"@,
        DisambiguationExpectation::Clear => "clear"@,
    }
}

fn json_status(s: &Option<DisambiguationStatus>) -> (r: JsonValue)
    ensures
        r@ == status_json(*s),
{
    let name = match s {
        None => {
            return JsonValue::Null;
        },
        Some(DisambiguationStatus::Clear) => "clear",
        Some(DisambiguationStatus::Skipped) => "skipped",
        Some(DisambiguationStatus::Triggered) => "triggered",
        Some(DisambiguationStatus::Clarified) => "clarified",
        Some(DisambiguationStatus::BestGuess) => "best_guess",
        Some(DisambiguationStatus::Abandoned) => "abandoned",
        Some(DisambiguationStatus::GiveUp) => "give_up",
        Some(DisambiguationStatus::Escalated) => "escalated",
    };
    json_text(name)
}

fn json_expectation(e: DisambiguationExpectation) -> (r: JsonValue)
    ensures
        r@ == JsonView::Str(expectation_name(e)),
{
    let name = match e {
        DisambiguationExpectation::Triggered => "triggered",
        DisambiguationExpectation::Skipped => "skipped",
        DisambiguationExpectation::Clarified => "clarified",
        DisambiguationExpectation::Abandoned => "abandoned",
        DisambiguationExpectation::GiveUp => "give_up",
        DisambiguationExpectation::Escalated => "escalated",
        DisambiguationExpectation::BestGuess => "best_guess",
        DisambiguationExpectation::Clear => "clear",
    };
    json_text(name)
}

/// One state transition as a JSON object.
pub open spec fn transition_json(p: (Seq<char>, Seq<char>)) -> JsonView {
    JsonView::Object(seq![("from"@, JsonView::Str(p.0)), ("to"@, JsonView::Str(p.1))])
}

/// A state history as a JSON array of transitions.
pub open spec fn history_json(h: Seq<(Seq<char>, Seq<char>)>) -> JsonView {
    JsonView::Array(h.map_values(|p: (Seq<char>, Seq<char>)| transition_json(p)))
}

fn json_history(h: &Vec<(String, String)>) -> (r: JsonValue)
    ensures
        r@ == history_json(h.deep_view()),
{
    let ghost dh = h.deep_view();
    let mut out: Vec<JsonValue> = Vec::new();
    let mut i: usize = 0;
    while i < h.len()
        invariant
            dh == h.deep_view(),
            i <= h@.len(),
            items_view(out@) == dh.take(i as int).map_values(|p: (Seq<char>, Seq<char>)| transition_json(p)),
        decreases h@.len() - i,
    {
        let mut m: Vec<(String, JsonValue)> = Vec::new();
        m.push((to_owned_string("from"), JsonValue::Str(h[i].0.clone())));
        m.push((to_owned_string("to"), JsonValue::Str(h[i].1.clone())));
        proof {
            crate::json::lemma_members_view(m@);
            assert(dh[i as int] == (h@[i as int].0@, h@[i as int].1@));
        }
        assert(members_view(m@) =~= seq![("from"@, JsonView::Str(dh[i as int].0)), ("to"@, JsonView::Str(dh[i as int].1))]);
        let ghost before = out@;
        let obj = JsonValue::Object(m);
        assert(obj@ == transition_json(dh[i as int]));
        out.push(obj);
        proof {
            assert(out@.drop_last() =~= before);
            assert(items_view(out@) == items_view(before).push(transition_json(dh[i as int])));
            assert(dh.take(i + 1).map_values(|p: (Seq<char>, Seq<char>)| transition_json(p))
                =~= dh.take(i as int).map_values(|p: (Seq<char>, Seq<char>)| transition_json(p)).push(
                transition_json(dh[i as int]),
            ));
        }
        i = i + 1;
    }
    assert(dh.take(i as int) =~= dh);
    JsonValue::Array(out)
}

fn json_secret(a: &SecretAssertion) -> (r: JsonValue)
    ensures
        r@ == secret_json(a),
{
    match a {
        SecretAssertion::Bool(b) => JsonValue::Bool(*b),
        SecretAssertion::Id(id) => JsonValue::Str(id.clone()),
    }
}

fn json_opt_texts(o: &Option<Vec<String>>) -> (r: JsonValue)
    ensures
        r@ == opt_texts_json(o.deep_view()),
{
    match o {
        Some(v) => json_texts(v),
        None => JsonValue::Null,
    }
}

/// An orchestration assertion as a JSON object.
pub open spec fn orchestration_json(a: &OrchestrationAssertion) -> JsonView {
    JsonView::Object(seq![
        ("pattern"@, opt_text_json(a.pattern.deep_view())),
        ("type"@, opt_text_json(a.kind.deep_view())),
        ("final_agent_in"@, opt_texts_json(a.final_agent_in.deep_view())),
        ("agents_include"@, opt_texts_json(a.agents_include.deep_view())),
        ("stages"@, match a.stages {
            Some(n) => JsonView::Number(JsonNumber::PosInt(n as u64)),
            None => JsonView::Null,
        }),
    ])
}

fn json_orchestration(a: &OrchestrationAssertion) -> (r: JsonValue)
    ensures
        r@ == orchestration_json(a),
{
    let mut m: Vec<(String, JsonValue)> = Vec::new();
    m.push((to_owned_string("pattern"), json_opt_text(&a.pattern)));
    m.push((to_owned_string("type"), json_opt_text(&a.kind)));
    m.push((to_owned_string("final_agent_in"), json_opt_texts(&a.final_agent_in)));
    m.push((to_owned_string("agents_include"), json_opt_texts(&a.agents_include)));
    m.push((to_owned_string("stages"), match a.stages {
        Some(n) => JsonValue::Number(JsonNumber::PosInt(n as u64)),
        None => JsonValue::Null,
    }));
    proof {
        crate::json::lemma_members_view(m@);
    }
    assert(members_view(m@) =~= seq![
        ("pattern"@, opt_text_json(a.pattern.deep_view())),
        ("type"@, opt_text_json(a.kind.deep_view())),
        ("final_agent_in"@, opt_texts_json(a.final_agent_in.deep_view())),
        ("agents_include"@, opt_texts_json(a.agents_include.deep_view())),
        ("stages"@, match a.stages {
            Some(n) => JsonView::Number(JsonNumber::PosInt(n as u64)),
            None => JsonView::Null,
        }),
    ]);
    JsonValue::Object(m)
}

fn check_state(a: &SimpleAssertion, obs: &TurnObservation, response: &str, details: &mut Vec<AssertionResultDetail>)
    ensures
        verdicts(final(details)@) == verdicts(old(details)@) + v_state(a, obs),
{
    match &a.state {
        Some(e) => {
            let ok = match &obs.state {
                Some(s) => str_eq(s.as_str(), e.as_str()),
                None => false,
            };
            add_verdict(details, "state", ok, json_opt_text(&obs.state), JsonValue::Str(e.clone()));
        },
        None => {},
    }
    assert(verdicts(details@) =~= verdicts(old(details)@) + v_state(a, obs));
}

fn check_state_in(a: &SimpleAssertion, obs: &TurnObservation, response: &str, details: &mut Vec<AssertionResultDetail>)
    ensures
        verdicts(final(details)@) == verdicts(old(details)@) + v_state_in(a, obs),
{
    match &a.state_in {
        Some(l) => {
            let ok = match &obs.state {
                Some(s) => list_has(l, s.as_str()),
                None => false,
            };
            add_verdict(details, "state_in", ok, json_opt_text(&obs.state), json_texts(l));
        },
        None => {},
    }
    assert(verdicts(details@) =~= verdicts(old(details)@) + v_state_in(a, obs));
}

fn check_state_not(a: &SimpleAssertion, obs: &TurnObservation, response: &str, details: &mut Vec<AssertionResultDetail>)
    ensures
        verdicts(final(details)@) == verdicts(old(details)@) + v_state_not(a, obs),
{
    match &a.state_not {
        Some(e) => {
            let ok = match &obs.state {
                Some(s) => !str_eq(s.as_str(), e.as_str()),
                None => true,
            };
            add_verdict(details, "state_not", ok, json_opt_text(&obs.state), JsonValue::Str(e.clone()));
        },
        None => {},
    }
    assert(verdicts(details@) =~= verdicts(old(details)@) + v_state_not(a, obs));
}

fn check_history(a: &SimpleAssertion, obs: &TurnObservation, response: &str, details: &mut Vec<AssertionResultDetail>)
    ensures
        verdicts(final(details)@) == verdicts(old(details)@) + v_history(a, obs),
{
    match &a.state_history_contains {
        Some(e) => {
            let ok = history_contains(&obs.state_history, e.as_str());
            add_verdict(details, "state_history_contains", ok, json_history(&obs.state_history), JsonValue::Str(e.clone()));
        },
        None => {},
    }
    assert(verdicts(details@) =~= verdicts(old(details)@) + v_history(a, obs));
}

fn check_contains(a: &SimpleAssertion, obs: &TurnObservation, response: &str, details: &mut Vec<AssertionResultDetail>)
    ensures
        verdicts(final(details)@) == verdicts(old(details)@) + v_contains(a, response@),
{
    match &a.response_contains {
        Some(l) => add_each_contains(details, "response_contains", response, l, true),
        None => {},
    }
    assert(verdicts(details@) =~= verdicts(old(details)@) + v_contains(a, response@));
}

fn check_contains_any(a: &SimpleAssertion, obs: &TurnObservation, response: &str, details: &mut Vec<AssertionResultDetail>)
    ensures
        verdicts(final(details)@) == verdicts(old(details)@) + v_contains_any(a, response@),
{
    match &a.response_contains_any {
        Some(l) => {
            let ok = contains_any_item(response, l);
            let items = l.items();
            add_verdict(details, "response_contains_any", ok, json_text(response), json_texts(&items));
        },
        None => {},
    }
    assert(verdicts(details@) =~= verdicts(old(details)@) + v_contains_any(a, response@));
}

fn check_not_contains(a: &SimpleAssertion, obs: &TurnObservation, response: &str, details: &mut Vec<AssertionResultDetail>)
    ensures
        verdicts(final(details)@) == verdicts(old(details)@) + v_not_contains(a, response@),
{
    match &a.response_not_contains {
        Some(l) => add_each_contains(details, "response_not_contains", response, l, false),
        None => {},
    }
    assert(verdicts(details@) =~= verdicts(old(details)@) + v_not_contains(a, response@));
}

fn check_not_empty(a: &SimpleAssertion, obs: &TurnObservation, response: &str, details: &mut Vec<AssertionResultDetail>)
    ensures
        verdicts(final(details)@) == verdicts(old(details)@) + v_not_empty(a, response@),
{
    match a.response_not_empty {
        Some(e) => {
            let ok = !str_is_blank(response) == e;
            add_verdict(details, "response_not_empty", ok, json_text(response), JsonValue::Bool(e));
        },
        None => {},
    }
    assert(verdicts(details@) =~= verdicts(old(details)@) + v_not_empty(a, response@));
}

fn check_disambiguation(a: &SimpleAssertion, obs: &TurnObservation, response: &str, details: &mut Vec<AssertionResultDetail>)
    ensures
        verdicts(final(details)@) == verdicts(old(details)@) + v_disambiguation(a, obs),
{
    match a.disambiguation {
        Some(e) => {
            let ok = match &obs.disambiguation {
                Some(st) => disambiguation_matches(st, &e),
                None => false,
            };
            add_verdict(details, "disambiguation", ok, json_status(&obs.disambiguation), json_expectation(e));
        },
        None => {},
    }
    assert(verdicts(details@) =~= verdicts(old(details)@) + v_disambiguation(a, obs));
}

fn check_no_disambiguation(a: &SimpleAssertion, obs: &TurnObservation, response: &str, details: &mut Vec<AssertionResultDetail>)
    ensures
        verdicts(final(details)@) == verdicts(old(details)@) + v_no_disambiguation(a, obs),
{
    match a.no_disambiguation {
        Some(e) => {
            let triggered = obs.disambiguation == Some(DisambiguationStatus::Triggered)
                || obs.disambiguation == Some(DisambiguationStatus::Clarified)
                || obs.disambiguation == Some(DisambiguationStatus::BestGuess);
            add_verdict(details, "no_disambiguation", !triggered == e, JsonValue::Bool(!triggered), JsonValue::Bool(e));
        },
        None => {},
    }
    assert(verdicts(details@) =~= verdicts(old(details)@) + v_no_disambiguation(a, obs));
}

fn check_tool_not_called(a: &SimpleAssertion, obs: &TurnObservation, response: &str, details: &mut Vec<AssertionResultDetail>)
    ensures
        verdicts(final(details)@) == verdicts(old(details)@) + v_tool_not_called(a, obs),
{
    match &a.tool_not_called {
        Some(id) => {
            let ok = !any_tool(&obs.tool_calls, id.as_str());
            add_verdict(details, "tool_not_called", ok, JsonValue::Str(id.clone()), json_text("not called"));
        },
        None => {},
    }
    assert(verdicts(details@) =~= verdicts(old(details)@) + v_tool_not_called(a, obs));
}

fn check_skill(a: &SimpleAssertion, obs: &TurnObservation, response: &str, details: &mut Vec<AssertionResultDetail>)
    ensures
        verdicts(final(details)@) == verdicts(old(details)@) + v_skill(a, obs),
{
    match &a.skill_triggered {
        Some(id) => {
            let ok = match &obs.skill {
                Some(sk) => opt_is(&sk.selected_skill_id, id.as_str()) || opt_is(&sk.executed_skill_id, id.as_str()),
                None => false,
            };
            add_verdict(details, "skill_triggered", ok, json_skill(&obs.skill), JsonValue::Str(id.clone()));
        },
        None => {},
    }
    assert(verdicts(details@) =~= verdicts(old(details)@) + v_skill(a, obs));
}

fn check_secret(a: &SimpleAssertion, obs: &TurnObservation, response: &str, details: &mut Vec<AssertionResultDetail>)
    ensures
        verdicts(final(details)@) == verdicts(old(details)@) + v_secret(a, obs),
{
    match &a.persona_secret_revealed {
        Some(sa) => {
            let actual = match &obs.persona {
                Some(p) => p.secret_revealed,
                None => false,
            };
            let ok = match sa {
                SecretAssertion::Bool(expected) => actual == *expected,
                SecretAssertion::Id(id) => match &obs.persona {
                    Some(p) => list_has(&p.revealed_secret_ids, id.as_str()),
                    None => false,
                },
            };
            add_verdict(details, "persona_secret_revealed", ok, JsonValue::Bool(actual), json_secret(sa));
        },
        None => {},
    }
    assert(verdicts(details@) =~= verdicts(old(details)@) + v_secret(a, obs));
}

fn check_orchestration(a: &SimpleAssertion, obs: &TurnObservation, response: &str, details: &mut Vec<AssertionResultDetail>)
    ensures
        verdicts(final(details)@) == verdicts(old(details)@) + v_orchestration(a, obs),
{
    match &a.orchestration {
        Some(o) => {
            match &obs.orchestration {
                Some(v) => {
                    let ok = orchestration_check(o, v);
                    add_verdict(details, "orchestration", ok, v.deep_clone(), json_orchestration(o));
                },
                None => {
                    add_verdict(details, "orchestration", false, JsonValue::Null, json_orchestration(o));
                },
            }
        },
        None => {},
    }
    assert(verdicts(details@) =~= verdicts(old(details)@) + v_orchestration(a, obs));
}

/// Checks the simple clauses of an assertion against a turn and its
/// response, appending one detail per verdict.
pub fn evaluate_clauses(a: &SimpleAssertion, obs: &TurnObservation, response: &str, details: &mut Vec<AssertionResultDetail>)
    ensures
        verdicts(final(details)@) == verdicts(old(details)@) + clause_verdicts(a, obs, response@),
{
    let ghost start = verdicts(details@);
    let ghost r = response@;
    check_state(a, obs, response, details);
    check_state_in(a, obs, response, details);
    check_state_not(a, obs, response, details);
    check_history(a, obs, response, details);
    let ghost g1 = v_state(a, obs) + v_state_in(a, obs) + v_state_not(a, obs) + v_history(a, obs);
    assert(verdicts(details@) =~= start + g1);
    check_contains(a, obs, response, details);
    check_contains_any(a, obs, response, details);
    check_not_contains(a, obs, response, details);
    check_not_empty(a, obs, response, details);
    let ghost g2 = g1 + v_contains(a, r) + v_contains_any(a, r) + v_not_contains(a, r) + v_not_empty(a, r);
    assert(verdicts(details@) =~= start + g2);
    check_disambiguation(a, obs, response, details);
    check_no_disambiguation(a, obs, response, details);
    add_external(details, &a.external.after_disambiguation);
    let ghost g3 = g2 + v_disambiguation(a, obs) + v_no_disambiguation(a, obs) + verdicts(a.external.after_disambiguation@);
    assert(verdicts(details@) =~= start + g3);
    check_tool_not_called(a, obs, response, details);
    check_skill(a, obs, response, details);
    add_external(details, &a.external.after_skill);
    let ghost g4 = g3 + v_tool_not_called(a, obs) + v_skill(a, obs) + verdicts(a.external.after_skill@);
    assert(verdicts(details@) =~= start + g4);
    check_secret(a, obs, response, details);
    check_orchestration(a, obs, response, details);
    add_external(details, &a.external.after_orchestration);
    let ghost g5 = g4 + v_secret(a, obs) + v_orchestration(a, obs) + verdicts(a.external.after_orchestration@);
    assert(verdicts(details@) =~= start + g5);
    assert(g5 =~= clause_verdicts(a, obs, r));
}

/// Appends copies of outcomes computed outside the library.
fn add_external(details: &mut Vec<AssertionResultDetail>, outcomes: &Vec<AssertionResultDetail>)
    ensures
        verdicts(final(details)@) == verdicts(old(details)@) + verdicts(outcomes@),
{
    let ghost start = verdicts(details@);
    let mut i: usize = 0;
    while i < outcomes.len()
        invariant
            i <= outcomes@.len(),
            verdicts(details@) == start + verdicts(outcomes@.take(i as int)),
        decreases outcomes@.len() - i,
    {
        let ghost before = verdicts(details@);
        details.push(outcomes[i].copy());
        assert(verdicts(details@) =~= before.push(verdicts(outcomes@)[i as int]));
        assert(verdicts(outcomes@.take(i + 1)) =~= verdicts(outcomes@.take(i as int)).push(verdicts(outcomes@)[i as int]));
        i = i + 1;
    }
    assert(outcomes@.take(outcomes@.len() as int) =~= outcomes@);
}

/// An assertion: simple clauses, combined with child assertions that must
/// all pass, of which one must pass, or which must fail.
pub struct Assertion {
    pub simple: SimpleAssertion,
    pub all: Option<Vec<Assertion>>,
    pub any: Option<Vec<Assertion>>,
    pub not: Option<Box<Assertion>>,
}

/// The outcome of an assertion, with the details of its clauses.
pub enum AssertionOutcome {
    Passed(Vec<AssertionResultDetail>),
    Failed(Vec<AssertionResultDetail>),
    /// A clause could not be evaluated.
    Error(String),
}

/// Whether no verdict is a failure.
pub open spec fn all_pass(d: Seq<Verdict>) -> bool {
    forall|i: int| 0 <= i < d.len() ==> (#[trigger] d[i]).1
}

/// The record `any` adds: passed when some child passed.
pub open spec fn any_v(found: bool) -> Verdict {
    if found {
        pass_v("any"@, JsonView::Bool(true), JsonView::Bool(true))
    } else {
        fail_v("any"@, JsonView::Bool(false), JsonView::Bool(true), "no branch passed"@)
    }
}

/// The record `not` adds: failed when its child passed.
pub open spec fn not_v(child_passed: bool) -> Verdict {
    if child_passed {
        fail_v("not"@, JsonView::Bool(true), JsonView::Bool(false), "child assertion passed"@)
    } else {
        pass_v("not"@, JsonView::Bool(false), JsonView::Bool(false))
    }
}

/// Whether an assertion passes, and the records it makes: those of the
/// `all` children (up to the first that fails, which ends the evaluation),
/// then those of `any` (the first passing child's, or every failing
/// child's), then `not`, then the simple clauses.
pub open spec fn outcome(a: &Assertion, obs: &TurnObservation, r: Seq<char>) -> (bool, Seq<Verdict>)
    decreases a, 0nat,
{
    let (stopped, d1) = match &a.all {
        Some(cs) => all_scan(cs@, obs, r),
        None => (false, Seq::empty()),
    };
    if stopped {
        (false, d1)
    } else {
        let d2 = match &a.any {
            Some(cs) => d1 + any_scan(cs@, obs, r).1 + seq![any_v(any_scan(cs@, obs, r).0)],
            None => d1,
        };
        let d3 = match &a.not {
            Some(child) => d2 + seq![not_v(outcome(child, obs, r).0)],
            None => d2,
        };
        let d4 = d3 + clause_verdicts(&a.simple, obs, r);
        (all_pass(d4), d4)
    }
}

/// Children that must all pass: stops with the details of the first
/// failing child (`true`), or records every child and `all`.
pub open spec fn all_scan(cs: Seq<Assertion>, obs: &TurnObservation, r: Seq<char>) -> (bool, Seq<Verdict>)
    decreases cs, 1nat,
{
    if cs.len() == 0 {
        (false, seq![pass_v("all"@, JsonView::Bool(true), JsonView::Bool(true))])
    } else {
        let (p, d) = outcome(&cs[0], obs, r);
        if !p {
            (true, d)
        } else {
            let (f, rest) = all_scan(cs.skip(1), obs, r);
            (f, d + rest)
        }
    }
}

/// Children of which one must pass: the details of the first passing
/// child (`true`), or the details of all failing children.
pub open spec fn any_scan(cs: Seq<Assertion>, obs: &TurnObservation, r: Seq<char>) -> (bool, Seq<Verdict>)
    decreases cs, 1nat,
{
    if cs.len() == 0 {
        (false, Seq::empty())
    } else {
        let (p, d) = outcome(&cs[0], obs, r);
        if p {
            (true, d)
        } else {
            let (f, rest) = any_scan(cs.skip(1), obs, r);
            if f { (true, rest) } else { (false, d + rest) }
        }
    }
}

/// Whether an outcome passed, and its verdicts.
pub open spec fn outcome_view(o: &AssertionOutcome) -> (bool, Seq<Verdict>) {
    match o {
        AssertionOutcome::Passed(d) => (true, verdicts(d@)),
        AssertionOutcome::Failed(d) => (false, verdicts(d@)),
        AssertionOutcome::Error(_) => (false, Seq::empty()),
    }
}

fn no_failure(details: &Vec<AssertionResultDetail>) -> (r: bool)
    ensures
        r == all_pass(verdicts(details@)),
{
    let mut i: usize = 0;
    while i < details.len()
        invariant
            i <= details@.len(),
            forall|k: int| 0 <= k < i ==> (#[trigger] details@[k]).passed,
        decreases details@.len() - i,
    {
        if !details[i].passed {
            assert(!verdicts(details@)[i as int].1);
            return false;
        }
        i = i + 1;
    }
    assert forall|k: int| 0 <= k < verdicts(details@).len() implies (#[trigger] verdicts(details@)[k]).1 by {
        assert(details@[k].passed);
    }
    true
}

/// Evaluates an assertion against a turn and its response.
pub fn evaluate_assertion(a: &Assertion, obs: &TurnObservation, response: &str) -> (r: AssertionOutcome)
    ensures
        !(r is Error),
        outcome_view(&r) == outcome(a, obs, response@),
    decreases a,
{
    let mut details: Vec<AssertionResultDetail> = Vec::new();
    let ghost rr = response@;
    match &a.all {
        Some(children) => {
            let ghost cs = children@;
            let mut i: usize = 0;
            assert(cs.skip(0) =~= cs);
            while i < children.len()
                invariant
                    a.all == Some(*children),
                    cs == children@,
                    rr == response@,
                    i <= cs.len(),
                    all_scan(cs, obs, rr) == ({
                        let (f, rest) = all_scan(cs.skip(i as int), obs, rr);
                        (f, verdicts(details@) + rest)
                    }),
                decreases cs.len() - i,
            {
                proof {
                    let ch = a.all->0;
                    assert(decreases_to!(a => a.all));
                    assert(decreases_to!(a.all => ch));
                    assert(decreases_to!(ch => ch@));
                    assert(decreases_to!(ch@ => ch@[i as int]));
                }
                let child = evaluate_assertion(&children[i], obs, response);
                let ghost cv = outcome_view(&child);
                proof {
                    assert(cv == outcome(&cs[i as int], obs, rr));
                    assert(cs.skip(i as int)[0] == cs[i as int]);
                    assert(cs.skip(i as int).skip(1) =~= cs.skip(i + 1));
                }
                match child {
                    AssertionOutcome::Passed(mut d) => {
                        let ghost before = verdicts(details@);
                        let ghost dv = verdicts(d@);
                        details.append(&mut d);
                        assert(verdicts(details@) =~= before + dv);
                        proof {
                            assert(outcome(&cs[i as int], obs, rr) == (true, dv));
                            let (f, rest) = all_scan(cs.skip(i + 1), obs, rr);
                            assert(all_scan(cs.skip(i as int), obs, rr) == (f, dv + rest));
                            assert(before + (dv + rest) =~= (before + dv) + rest);
                        }
                    },
                    AssertionOutcome::Failed(mut d) => {
                        let ghost before = verdicts(details@);
                        let ghost dv = verdicts(d@);
                        details.append(&mut d);
                        assert(verdicts(details@) =~= before + dv);
                        proof {
                            assert(outcome(&cs[i as int], obs, rr) == (false, dv));
                            assert(all_scan(cs.skip(i as int), obs, rr) == (true, dv));
                            assert(outcome(a, obs, rr) == (false, before + dv));
                        }
                        return AssertionOutcome::Failed(details);
                    },
                    AssertionOutcome::Error(e) => {
                        return AssertionOutcome::Error(e);
                    },
                }
                i = i + 1;
            }
            assert(cs.skip(i as int) =~= Seq::<Assertion>::empty());
            let ghost before = verdicts(details@);
            details.push(AssertionResultDetail::pass("all", JsonValue::Bool(true), JsonValue::Bool(true)));
            assert(verdicts(details@) =~= before + seq![pass_v("all"@, JsonView::Bool(true), JsonView::Bool(true))]);
            assert(all_scan(cs, obs, rr) == (false, verdicts(details@)));
        },
        None => {},
    }
    let ghost d1 = verdicts(details@);
    assert((match &a.all {
        Some(cs) => all_scan(cs@, obs, rr),
        None => (false, Seq::<Verdict>::empty()),
    }) == (false, d1));
    match &a.any {
        Some(children) => {
            let ghost cs = children@;
            let mut failures: Vec<AssertionResultDetail> = Vec::new();
            let mut found = false;
            let ghost mut da: Seq<Verdict> = Seq::empty();
            let mut i: usize = 0;
            assert(cs.skip(0) =~= cs);
            while i < children.len() && !found
                invariant
                    a.any == Some(*children),
                    cs == children@,
                    rr == response@,
                    i <= cs.len(),
                    (match &a.all {
                        Some(cs) => all_scan(cs@, obs, rr),
                        None => (false, Seq::<Verdict>::empty()),
                    }) == (false, d1),
                    found ==> any_scan(cs, obs, rr) == (true, da),
                    found ==> verdicts(details@) == d1 + da + seq![any_v(true)],
                    !found ==> verdicts(details@) == d1,
                    !found ==> any_scan(cs, obs, rr) == ({
                        let (f, rest) = any_scan(cs.skip(i as int), obs, rr);
                        if f { (true, rest) } else { (false, verdicts(failures@) + rest) }
                    }),
                decreases cs.len() - i,
            {
                proof {
                    let ch = a.any->0;
                    assert(decreases_to!(a => a.any));
                    assert(decreases_to!(a.any => ch));
                    assert(decreases_to!(ch => ch@));
                    assert(decreases_to!(ch@ => ch@[i as int]));
                }
                let child = evaluate_assertion(&children[i], obs, response);
                let ghost cv = outcome_view(&child);
                proof {
                    assert(cv == outcome(&cs[i as int], obs, rr));
                    assert(cs.skip(i as int)[0] == cs[i as int]);
                    assert(cs.skip(i as int).skip(1) =~= cs.skip(i + 1));
                }
                match child {
                    AssertionOutcome::Passed(mut d) => {
                        let ghost dv = verdicts(d@);
                        proof {
                            assert(outcome(&cs[i as int], obs, rr) == (true, dv));
                            assert(any_scan(cs.skip(i as int), obs, rr) == (true, dv));
                            assert(any_scan(cs, obs, rr) == (true, dv));
                            da = dv;
                        }
                        details.append(&mut d);
                        details.push(AssertionResultDetail::pass("any", JsonValue::Bool(true), JsonValue::Bool(true)));
                        assert(verdicts(details@) =~= d1 + dv + seq![any_v(true)]);
                        found = true;
                    },
                    AssertionOutcome::Failed(mut d) => {
                        let ghost before = verdicts(failures@);
                        let ghost dv = verdicts(d@);
                        failures.append(&mut d);
                        assert(verdicts(failures@) =~= before + dv);
                        proof {
                            assert(outcome(&cs[i as int], obs, rr) == (false, dv));
                            let (f, rest) = any_scan(cs.skip(i + 1), obs, rr);
                            assert(any_scan(cs.skip(i as int), obs, rr) == (if f { (true, rest) } else { (false, dv + rest) }));
                            assert(before + (dv + rest) =~= (before + dv) + rest);
                        }
                    },
                    AssertionOutcome::Error(e) => {
                        proof {
                            assert(false);
                        }
                        return AssertionOutcome::Error(e);
                    },
                }
                i = i + 1;
            }
            if !found {
                assert(cs.skip(i as int) =~= Seq::<Assertion>::empty());
                let ghost fv = verdicts(failures@);
                details.append(&mut failures);
                details.push(AssertionResultDetail::fail("any", JsonValue::Bool(false), JsonValue::Bool(true), "no branch passed"));
                assert(verdicts(details@) =~= d1 + fv + seq![any_v(false)]);
                assert(any_scan(cs, obs, rr) == (false, fv));
            }
        },
        None => {},
    }
    let ghost d2 = verdicts(details@);
    assert(d2 == match &a.any {
        Some(cs) => d1 + any_scan(cs@, obs, rr).1 + seq![any_v(any_scan(cs@, obs, rr).0)],
        None => d1,
    });
    match &a.not {
        Some(child) => {
            proof {
                let ch = a.not->0;
                assert(decreases_to!(a => a.not));
                assert(decreases_to!(a.not => ch));
            }
            match evaluate_assertion(child, obs, response) {
                AssertionOutcome::Passed(_) => {
                    details.push(AssertionResultDetail::fail("not", JsonValue::Bool(true), JsonValue::Bool(false), "child assertion passed"));
                },
                AssertionOutcome::Failed(_) => {
                    details.push(AssertionResultDetail::pass("not", JsonValue::Bool(false), JsonValue::Bool(false)));
                },
                AssertionOutcome::Error(e) => {
                    return AssertionOutcome::Error(e);
                },
            }
            assert(verdicts(details@) =~= d2 + seq![not_v(outcome(child, obs, rr).0)]);
        },
        None => {},
    }
    let ghost d3 = verdicts(details@);
    evaluate_clauses(&a.simple, obs, response, &mut details);
    assert(verdicts(details@) == d3 + clause_verdicts(&a.simple, obs, rr));
    if no_failure(&details) {
        AssertionOutcome::Passed(details)
    } else {
        AssertionOutcome::Failed(details)
    }
}

/// Every child assertion passes.
pub open spec fn every_child_passes(cs: Seq<Assertion>, obs: &TurnObservation, r: Seq<char>) -> bool {
    forall|i: int| 0 <= i < cs.len() ==> (#[trigger] outcome(&cs[i], obs, r)).0
}

/// Some child assertion passes.
pub open spec fn some_child_passes(cs: Seq<Assertion>, obs: &TurnObservation, r: Seq<char>) -> bool {
    exists|i: int| 0 <= i < cs.len() && (#[trigger] outcome(&cs[i], obs, r)).0
}

/// Each part of an assertion holds: all of the `all` children pass, one of
/// the `any` children passes, the `not` child fails, and every simple
/// clause passes.
pub open spec fn parts_hold(a: &Assertion, obs: &TurnObservation, r: Seq<char>) -> bool {
    &&& (a.all matches Some(cs) ==> every_child_passes(cs@, obs, r))
    &&& (a.any matches Some(cs) ==> some_child_passes(cs@, obs, r))
    &&& (a.not matches Some(c) ==> !outcome(&*c, obs, r).0)
    &&& all_pass(clause_verdicts(&a.simple, obs, r))
}

proof fn lemma_all_pass_concat(x: Seq<Verdict>, y: Seq<Verdict>)
    ensures
        all_pass(x + y) == (all_pass(x) && all_pass(y)),
{
    let z = x + y;
    if all_pass(x) && all_pass(y) {
        assert forall|i: int| 0 <= i < z.len() implies (#[trigger] z[i]).1 by {
            if i < x.len() {
                assert(z[i] == x[i]);
            } else {
                assert(z[i] == y[i - x.len()]);
            }
        }
    }
    if all_pass(z) {
        assert forall|i: int| 0 <= i < x.len() implies (#[trigger] x[i]).1 by {
            assert(z[i] == x[i]);
        }
        assert forall|i: int| 0 <= i < y.len() implies (#[trigger] y[i]).1 by {
            assert(z[x.len() + i] == y[i]);
        }
    }
}

/// An assertion passes exactly when none of the records it makes is a
/// failure, and exactly when each of its parts holds.
pub proof fn law_outcome_matches_details(a: &Assertion, obs: &TurnObservation, r: Seq<char>)
    ensures
        outcome(a, obs, r).0 == all_pass(outcome(a, obs, r).1),
        outcome(a, obs, r).0 == parts_hold(a, obs, r),
    decreases a, 0nat,
{
    let (stopped, d1) = match &a.all {
        Some(cs) => all_scan(cs@, obs, r),
        None => (false, Seq::<Verdict>::empty()),
    };
    match &a.all {
        Some(cs) => {
            assert(decreases_to!(a => a.all));
            assert(decreases_to!(a.all => *cs));
            assert(decreases_to!(*cs => cs@));
            lemma_all_scan(cs@, obs, r);
        },
        None => {},
    }
    if !stopped {
        let d2 = match &a.any {
            Some(cs) => d1 + any_scan(cs@, obs, r).1 + seq![any_v(any_scan(cs@, obs, r).0)],
            None => d1,
        };
        match &a.any {
            Some(cs) => {
                assert(decreases_to!(a => a.any));
                assert(decreases_to!(a.any => *cs));
                assert(decreases_to!(*cs => cs@));
                lemma_any_scan(cs@, obs, r);
                let (found, da) = any_scan(cs@, obs, r);
                lemma_all_pass_concat(d1, da);
                lemma_all_pass_concat(d1 + da, seq![any_v(found)]);
                assert(all_pass(seq![any_v(found)]) == found) by {
                    assert(seq![any_v(found)][0] == any_v(found));
                }
                assert(all_pass(d2) == (all_pass(d1) && found));
            },
            None => {},
        }
        let d3 = match &a.not {
            Some(child) => d2 + seq![not_v(outcome(child, obs, r).0)],
            None => d2,
        };
        match &a.not {
            Some(child) => {
                let v = not_v(outcome(child, obs, r).0);
                lemma_all_pass_concat(d2, seq![v]);
                assert(all_pass(seq![v]) == !outcome(child, obs, r).0) by {
                    assert(seq![v][0] == v);
                }
            },
            None => {},
        }
        lemma_all_pass_concat(d3, clause_verdicts(&a.simple, obs, r));
    }
}

/// The scan over children that must all pass stops exactly on a failing
/// child, and its records then hold that child's failure.
pub proof fn lemma_all_scan(cs: Seq<Assertion>, obs: &TurnObservation, r: Seq<char>)
    ensures
        all_scan(cs, obs, r).0 == !all_pass(all_scan(cs, obs, r).1),
        all_scan(cs, obs, r).0 == !every_child_passes(cs, obs, r),
    decreases cs, 1nat,
{
    if cs.len() > 0 {
        let (p, d) = outcome(&cs[0], obs, r);
        law_outcome_matches_details(&cs[0], obs, r);
        if p {
            lemma_all_scan(cs.skip(1), obs, r);
            let (f, rest) = all_scan(cs.skip(1), obs, r);
            lemma_all_pass_concat(d, rest);
            if every_child_passes(cs, obs, r) {
                assert forall|i: int| 0 <= i < cs.skip(1).len() implies (#[trigger] outcome(&cs.skip(1)[i], obs, r)).0 by {
                    assert(cs.skip(1)[i] == cs[i + 1]);
                    assert(outcome(&cs[i + 1], obs, r).0);
                }
            }
            if every_child_passes(cs.skip(1), obs, r) {
                assert forall|i: int| 0 <= i < cs.len() implies (#[trigger] outcome(&cs[i], obs, r)).0 by {
                    if i > 0 {
                        assert(cs[i] == cs.skip(1)[i - 1]);
                        assert(outcome(&cs.skip(1)[i - 1], obs, r).0);
                    }
                }
            }
        } else {
            assert(!outcome(&cs[0], obs, r).0);
        }
    } else {
        let d = seq![pass_v("all"@, JsonView::Bool(true), JsonView::Bool(true))];
        assert(d[0].1);
    }
}

/// The scan over children of which one must pass finds one exactly when
/// some child passes, and then records only passing clauses.
pub proof fn lemma_any_scan(cs: Seq<Assertion>, obs: &TurnObservation, r: Seq<char>)
    ensures
        any_scan(cs, obs, r).0 ==> all_pass(any_scan(cs, obs, r).1),
        any_scan(cs, obs, r).0 == some_child_passes(cs, obs, r),
    decreases cs, 1nat,
{
    if cs.len() > 0 {
        law_outcome_matches_details(&cs[0], obs, r);
        let (p, d) = outcome(&cs[0], obs, r);
        if !p {
            lemma_any_scan(cs.skip(1), obs, r);
            if some_child_passes(cs, obs, r) {
                let k = choose|k: int| 0 <= k < cs.len() && (#[trigger] outcome(&cs[k], obs, r)).0;
                assert(k > 0);
                assert(cs.skip(1)[k - 1] == cs[k]);
                assert(outcome(&cs.skip(1)[k - 1], obs, r).0);
            }
            if some_child_passes(cs.skip(1), obs, r) {
                let k = choose|k: int| 0 <= k < cs.skip(1).len() && (#[trigger] outcome(&cs.skip(1)[k], obs, r)).0;
                assert(cs.skip(1)[k] == cs[k + 1]);
                assert(outcome(&cs[k + 1], obs, r).0);
            }
        } else {
            assert(outcome(&cs[0], obs, r).0);
        }
    }
}

/// An assertion passes exactly when each of its parts holds: every `all`
/// child passes, some `any` child passes, the `not` child fails, and every
/// simple clause passes.
pub proof fn law_passes_iff_parts_hold(a: &Assertion, obs: &TurnObservation, r: Seq<char>)
    ensures
        outcome(a, obs, r).0 == parts_hold(a, obs, r),
{
    law_outcome_matches_details(a, obs, r);
}

/// `not` inverts: an assertion holding only a `not` passes exactly when its
/// child fails.
pub proof fn law_not_inverts(a: &Assertion, obs: &TurnObservation, r: Seq<char>)
    requires
        a.all is None,
        a.any is None,
        a.not is Some,
        clause_verdicts(&a.simple, obs, r).len() == 0,
    ensures
        outcome(a, obs, r).0 == !outcome(&*a.not->0, obs, r).0,
{
    law_outcome_matches_details(a, obs, r);
    assert(all_pass(clause_verdicts(&a.simple, obs, r)));
}

/// The simple clauses read the response.
pub open spec fn simple_uses_response(s: &SimpleAssertion) -> bool {
    s.response_contains is Some || s.response_contains_any is Some || s.response_not_contains is Some
        || s.response_not_empty is Some || s.response_judged
}

/// The assertion, or one of the assertions it combines, reads the response.
pub open spec fn spec_uses_response(a: &Assertion) -> bool
    decreases a, 0nat,
{
    ||| simple_uses_response(&a.simple)
    ||| match &a.all {
        Some(cs) => some_uses_response(cs@),
        None => false,
    }
    ||| match &a.any {
        Some(cs) => some_uses_response(cs@),
        None => false,
    }
    ||| match &a.not {
        Some(c) => spec_uses_response(c),
        None => false,
    }
}

/// One of the assertions reads the response.
pub open spec fn some_uses_response(cs: Seq<Assertion>) -> bool
    decreases cs, 1nat,
{
    if cs.len() == 0 {
        false
    } else {
        spec_uses_response(&cs[0]) || some_uses_response(cs.skip(1))
    }
}

fn children_use_response(a: &Assertion, children: &Vec<Assertion>, is_all: bool) -> (r: bool)
    requires
        (is_all && a.all == Some(*children)) || (!is_all && a.any == Some(*children)),
    ensures
        r == some_uses_response(children@),
    decreases a, 1nat,
{
    let ghost cs = children@;
    let mut i: usize = 0;
    assert(cs.skip(0) =~= cs);
    while i < children.len()
        invariant
            (is_all && a.all == Some(*children)) || (!is_all && a.any == Some(*children)),
            cs == children@,
            i <= cs.len(),
            some_uses_response(cs) == some_uses_response(cs.skip(i as int)),
        decreases cs.len() - i,
    {
        proof {
            if is_all {
                let ch = a.all->0;
                assert(decreases_to!(a => a.all));
                assert(decreases_to!(a.all => ch));
                assert(decreases_to!(ch => ch@));
                assert(decreases_to!(ch@ => ch@[i as int]));
            } else {
                let ch = a.any->0;
                assert(decreases_to!(a => a.any));
                assert(decreases_to!(a.any => ch));
                assert(decreases_to!(ch => ch@));
                assert(decreases_to!(ch@ => ch@[i as int]));
            }
            assert(cs.skip(i as int)[0] == cs[i as int]);
            assert(cs.skip(i as int).skip(1) =~= cs.skip(i + 1));
        }
        if uses_response(&children[i]) {
            return true;
        }
        i = i + 1;
    }
    assert(cs.skip(i as int) =~= Seq::<Assertion>::empty());
    false
}

/// Whether the assertion reads the response: one of its response clauses,
/// or the judge, is set in it or in an assertion it combines.
pub fn uses_response(a: &Assertion) -> (r: bool)
    ensures
        r == spec_uses_response(a),
    decreases a, 2nat,
{
    let s = &a.simple;
    if s.response_contains.is_some() || s.response_contains_any.is_some() || s.response_not_contains.is_some()
        || s.response_not_empty.is_some() || s.response_judged {
        return true;
    }
    if let Some(children) = &a.all {
        if children_use_response(a, children, true) {
            return true;
        }
    }
    if let Some(children) = &a.any {
        if children_use_response(a, children, false) {
            return true;
        }
    }
    match &a.not {
        Some(c) => {
            assert(decreases_to!(a => a.not));
            uses_response(c)
        },
        None => false,
    }
}

/// The record a turn adds when the runtime gave no response: a failed
/// `response_present` when its assertion reads the response.
pub open spec fn presence_v(assertion: Option<&Assertion>, response_present: bool) -> Seq<Verdict> {
    if !response_present && (assertion matches Some(a) && spec_uses_response(a)) {
        seq![fail_v("response_present"@, JsonView::Bool(false), JsonView::Bool(true), "response assertions require a runtime response"@)]
    } else {
        Seq::empty()
    }
}

/// Appends a failed `response_present` when the runtime gave no response
/// and the turn's assertion reads it.
pub fn check_response_presence(details: &mut Vec<AssertionResultDetail>, assertion: Option<&Assertion>, response_present: bool)
    ensures
        verdicts(final(details)@) == verdicts(old(details)@) + presence_v(assertion, response_present),
{
    if !response_present {
        match assertion {
            Some(a) => {
                if uses_response(a) {
                    details.push(AssertionResultDetail::fail(
                        "response_present",
                        JsonValue::Bool(false),
                        JsonValue::Bool(true),
                        "response assertions require a runtime response",
                    ));
                }
            },
            None => {},
        }
    }
    assert(verdicts(details@) =~= verdicts(old(details)@) + presence_v(assertion, response_present));
}

/// The record an expected runtime error adds, and the runtime error left
/// unhandled: an error that contains one of the expected texts is
/// expected; one that contains none fails the turn's expectation and is
/// reported; a turn without an error fails the expectation; without an
/// expectation, the error is reported as it is.
pub open spec fn expected_error_outcome(expected: Option<Seq<Seq<char>>>, error: Option<Seq<char>>) -> (Seq<Verdict>, Option<Seq<char>>) {
    match (expected, error) {
        (Some(items), Some(e)) => if contains_any(e, items) {
            (seq![pass_v("expect_error"@, JsonView::Str(e), texts_json(items))], None)
        } else {
            (
                seq![fail_v("expect_error"@, JsonView::Str(e), texts_json(items), "runtime error did not match any expected substring"@)],
                Some("runtime error did not match expect_error: "@ + e),
            )
        },
        (Some(items), None) => (
            seq![fail_v("expect_error"@, JsonView::Null, texts_json(items), "expected a runtime error but the turn completed"@)],
            None,
        ),
        (None, Some(e)) => (Seq::empty(), Some(e)),
        (None, None) => (Seq::empty(), None),
    }
}

/// Checks a turn's runtime error against the errors it expects, appends
/// the `expect_error` record, and returns the runtime error left unhandled.
pub fn check_expected_error(details: &mut Vec<AssertionResultDetail>, expected: Option<&StringList>, error: Option<&String>) -> (r: Option<String>)
    ensures
        verdicts(final(details)@) == verdicts(old(details)@) + expected_error_outcome(
            match expected { Some(l) => Some(list_items(l)), None => None },
            error.deep_view(),
        ).0,
        r.deep_view() == expected_error_outcome(
            match expected { Some(l) => Some(list_items(l)), None => None },
            error.deep_view(),
        ).1,
{
    let ghost before = verdicts(details@);
    let ghost o = expected_error_outcome(
        match expected { Some(l) => Some(list_items(l)), None => None },
        error.deep_view(),
    );
    match (expected, error) {
        (Some(l), Some(e)) => {
            let items = l.items();
            if contains_any_item(e.as_str(), l) {
                details.push(AssertionResultDetail::pass("expect_error", JsonValue::Str(e.clone()), json_texts(&items)));
                assert(verdicts(details@) =~= before + o.0);
                None
            } else {
                details.push(AssertionResultDetail::fail(
                    "expect_error",
                    JsonValue::Str(e.clone()),
                    json_texts(&items),
                    "runtime error did not match any expected substring",
                ));
                assert(verdicts(details@) =~= before + o.0);
                let mut m = to_owned_string("runtime error did not match expect_error: ");
                push_str(&mut m, e.as_str());
                Some(m)
            }
        },
        (Some(l), None) => {
            let items = l.items();
            details.push(AssertionResultDetail::fail(
                "expect_error",
                JsonValue::Null,
                json_texts(&items),
                "expected a runtime error but the turn completed",
            ));
            assert(verdicts(details@) =~= before + o.0);
            None
        },
        (None, Some(e)) => {
            assert(verdicts(details@) =~= before + o.0);
            Some(e.clone())
        },
        (None, None) => {
            assert(verdicts(details@) =~= before + o.0);
            None
        },
    }
}

/// The record of one detail.
pub open spec fn detail_view(d: AssertionResultDetail) -> Verdict {
    (d.assertion@, d.passed, d.actual@, d.expected@, d.message.deep_view())
}

/// The `judge` record when the judge gave no score: it fails closed, for
/// want of a judge LLM or with the judge's error.
pub fn judge_unscored(error: Option<&str>) -> (r: AssertionResultDetail)
    ensures
        detail_view(r) == match error {
            None => fail_v("judge"@, JsonView::Null, JsonView::Str("judge configured"@), "no judge LLM available"@),
            Some(e) => fail_v("judge"@, JsonView::Str(e@), JsonView::Str("valid judge result"@), "judge failed"@),
        },
{
    match error {
        None => AssertionResultDetail::fail("judge", JsonValue::Null, json_text("judge configured"), "no judge LLM available"),
        Some(e) => AssertionResultDetail::fail("judge", json_text(e), json_text("valid judge result"), "judge failed"),
    }
}

/// The `facts_include` record when the judge could not rule on the
/// semantic fact: it fails for want of a judge LLM, or with its error.
pub fn facts_judge_unscored(semantic: &str, error: Option<&str>) -> (r: AssertionResultDetail)
    ensures
        detail_view(r) == match error {
            None => fail_v("facts_include"@, JsonView::Null, JsonView::Str(semantic@), "semantic fact assertion requires a judge LLM"@),
            Some(e) => fail_v("facts_include"@, JsonView::Str(e@), JsonView::Str(semantic@), "fact semantic judge failed"@),
        },
{
    match error {
        None => AssertionResultDetail::fail(
            "facts_include",
            JsonValue::Null,
            json_text(semantic),
            "semantic fact assertion requires a judge LLM",
        ),
        Some(e) => AssertionResultDetail::fail("facts_include", json_text(e), json_text(semantic), "fact semantic judge failed"),
    }
}

/// `state_history_contains` looks at both ends of every transition: a
/// state some transition enters or leaves is found, and a state no
/// transition touches is not.
pub proof fn law_history_matches_either_end(h: Seq<(String, String)>, e: Seq<char>)
    ensures
        forall|i: int| 0 <= i < h.len() ==> history_has(h, (#[trigger] h[i]).1@) && history_has(h, h[i].0@),
        (forall|i: int| 0 <= i < h.len() ==> (#[trigger] h[i]).0@ != e && h[i].1@ != e) ==> !history_has(h, e),
{
    assert forall|i: int| 0 <= i < h.len() implies history_has(h, (#[trigger] h[i]).1@) && history_has(h, h[i].0@) by {
        assert(h[i].1@ == h[i].1@);
    }
}

/// The `state_history_contains` clause of a turn passes exactly when the
/// expected state is entered or left by some transition of the turn's
/// history; it records the history as its actual value and the state as
/// its expected one.
pub proof fn law_history_clause_verdict(a: &SimpleAssertion, obs: &TurnObservation, e: String, i: int)
    requires
        a.state_history_contains == Some(e),
        0 <= i < obs.state_history@.len(),
        obs.state_history@[i].1@ == e@ || obs.state_history@[i].0@ == e@,
    ensures
        v_history(a, obs).len() == 1,
        v_history(a, obs)[0].0 == "state_history_contains"@,
        v_history(a, obs)[0].1,
        v_history(a, obs)[0].3 == JsonView::Str(e@),
{
    law_history_matches_either_end(obs.state_history@, e@);
}

} // verus!
