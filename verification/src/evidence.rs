//! Evidence gathered about a turn: where tool calls came from, skills and
//! disambiguation, persona secrets, and how approvals were decided.
use vstd::prelude::*;
use crate::text::{str_eq, to_owned_string, clone_opt_string};
use crate::json::{JsonValue, JsonView, JsonNumber, get_key, as_str_view, as_bool_view, members_view, member_of, jv, clone_members};
use crate::hitl::{ApprovalRequest, ApprovalResult, ApprovalTrigger};

verus! {

/// Where a recorded tool execution came from.
#[derive(Clone, Copy, Debug, PartialEq, Eq, Structural)]
pub enum ToolExecutionSource {
    Llm,
    Skill,
    StateAction,
    OnEnter,
    OnExit,
    PostTransition,
    Spawner,
    Orchestration,
    Mock,
}

/// A recorded execution counts as executed unless recorded otherwise.
pub fn default_executed_true() -> (b: bool)
    ensures
        b,
{
    true
}

/// Which skill was chosen and run in a turn.
pub struct SkillEvidence {
    pub selected_skill_id: Option<String>,
    pub executed_skill_id: Option<String>,
    pub no_match: bool,
    pub clarification_requested: bool,
}

/// The outcome of disambiguation in a turn.
#[derive(Clone, Copy, Debug, PartialEq, Eq, Structural)]
pub enum DisambiguationStatus {
    Clear,
    Skipped,
    Triggered,
    Clarified,
    BestGuess,
    Abandoned,
    GiveUp,
    Escalated,
}

/// What a persona revealed in a turn.
pub struct PersonaEvidence {
    pub secret_revealed: bool,
    pub revealed_secret_ids: Vec<String>,
    pub revealed_secret_count: usize,
    pub evolution_events: usize,
}

/// How an approval was decided.
#[derive(Clone, Copy, Debug, PartialEq, Eq, Structural)]
pub enum ApprovalDecision {
    Approved,
    Rejected,
    Modified,
    Timeout,
    Error,
}

/// What asked for an approval, without the tool's arguments.
pub enum ApprovalTriggerEvidence {
    Tool { name: String },
    Condition { name: String, matched: String },
    State { from: Option<String>, to: String },
}

/// The evidence of a trigger names the same tool, condition or transition.
pub open spec fn trigger_recorded(e: &ApprovalTriggerEvidence, t: &ApprovalTrigger) -> bool {
    match (e, t) {
        (ApprovalTriggerEvidence::Tool { name: a }, ApprovalTrigger::Tool { name: b, .. }) => a@ == b@,
        (ApprovalTriggerEvidence::Condition { name: a, matched: m }, ApprovalTrigger::Condition { name: b, matched: n }) => a@ == b@ && m@ == n@,
        (ApprovalTriggerEvidence::State { from: f, to: a }, ApprovalTrigger::State { from: g, to: b }) => f.deep_view() == g.deep_view() && a@ == b@,
        _ => false,
    }
}


impl ApprovalTriggerEvidence {
    /// The evidence of a trigger.
    pub fn from_trigger(trigger: &ApprovalTrigger) -> (r: Self)
        ensures
            trigger_recorded(&r, trigger),
    {
        match trigger {
            ApprovalTrigger::Tool { name, .. } => ApprovalTriggerEvidence::Tool { name: name.clone() },
            ApprovalTrigger::Condition { name, matched } => ApprovalTriggerEvidence::Condition {
                name: name.clone(),
                matched: matched.clone(),
            },
            ApprovalTrigger::State { from, to } => ApprovalTriggerEvidence::State { from: clone_opt_string(from), to: to.clone() },
        }
    }
}

/// How an approval was finally applied.
pub enum ApprovalResolvedOutcome {
    Approved,
    Rejected { reason: Option<String> },
    /// Approved with these argument changes.
    Modified { changes: Vec<(String, JsonValue)> },
    Error { message: String },
}

/// The decision of an approver's answer.
pub open spec fn spec_result_decision(r: &ApprovalResult) -> ApprovalDecision {
    match r {
        ApprovalResult::Approved => ApprovalDecision::Approved,
        ApprovalResult::Rejected { .. } => ApprovalDecision::Rejected,
        ApprovalResult::Modified { .. } => ApprovalDecision::Modified,
        ApprovalResult::Timeout => ApprovalDecision::Timeout,
    }
}

/// The decision of an approver's answer.
pub fn approval_result_decision(result: &ApprovalResult) -> (d: ApprovalDecision)
    ensures
        d == spec_result_decision(result),
{
    match result {
        ApprovalResult::Approved => ApprovalDecision::Approved,
        ApprovalResult::Rejected { .. } => ApprovalDecision::Rejected,
        ApprovalResult::Modified { .. } => ApprovalDecision::Modified,
        ApprovalResult::Timeout => ApprovalDecision::Timeout,
    }
}

/// Position of the last member named `key`.
pub open spec fn last_index(m: Seq<(Seq<char>, JsonView)>, key: Seq<char>) -> Option<int>
    decreases m.len(),
{
    if m.len() == 0 {
        None
    } else if m.last().0 == key {
        Some(m.len() - 1)
    } else {
        last_index(m.drop_last(), key)
    }
}

/// Members with `key` set to `value`: its last occurrence replaced, or the
/// pair appended.
pub open spec fn set_member(m: Seq<(Seq<char>, JsonView)>, key: Seq<char>, value: JsonView) -> Seq<(Seq<char>, JsonView)> {
    match last_index(m, key) {
        Some(i) => m.update(i, (key, value)),
        None => m.push((key, value)),
    }
}

/// Members with each change set in turn.
pub open spec fn set_members(m: Seq<(Seq<char>, JsonView)>, changes: Seq<(Seq<char>, JsonView)>) -> Seq<(Seq<char>, JsonView)>
    decreases changes.len(),
{
    if changes.len() == 0 {
        m
    } else {
        let c = changes.last();
        set_member(set_members(m, changes.drop_last()), c.0, c.1)
    }
}

/// Tool arguments after an approver's changes: the changes set on an
/// object, or the changes alone for arguments that are not an object.
pub open spec fn changed_args(original: JsonView, changes: Seq<(Seq<char>, JsonView)>) -> JsonView {
    match original {
        JsonView::Object(m) => JsonView::Object(set_members(m, changes)),
        _ => JsonView::Object(changes),
    }
}

proof fn lemma_last_index(m: Seq<(Seq<char>, JsonView)>, key: Seq<char>)
    ensures
        last_index(m, key) matches Some(i) ==> 0 <= i < m.len() && m[i].0 == key,
    decreases m.len(),
{
    if m.len() > 0 && m.last().0 != key {
        lemma_last_index(m.drop_last(), key);
    }
}

fn find_last_key(members: &Vec<(String, JsonValue)>, key: &str) -> (r: Option<usize>)
    ensures
        match r {
            Some(i) => last_index(members_view(members@), key@) == Some(i as int),
            None => last_index(members_view(members@), key@) is None,
        },
{
    let mut i: usize = members.len();
    proof {
        crate::json::lemma_members_view(members@);
        assert(members@.take(i as int) =~= members@);
    }
    while i > 0
        invariant
            i <= members@.len(),
            last_index(members_view(members@), key@) == last_index(members_view(members@.take(i as int)), key@),
        decreases i,
    {
        proof {
            let t = members@.take(i as int);
            crate::json::lemma_members_view(t);
            crate::json::lemma_members_view(t.drop_last());
            assert(members_view(t).drop_last() =~= members_view(t.drop_last()));
            assert(t.drop_last() =~= members@.take(i - 1));
            assert(t[i - 1] == members@[i - 1]);
        }
        if str_eq(members[i - 1].0.as_str(), key) {
            return Some(i - 1);
        }
        i = i - 1;
    }
    None
}


/// Sets one member in place.
pub(crate) fn set_in(members: &mut Vec<(String, JsonValue)>, key: &String, value: JsonValue)
    ensures
        members_view(final(members)@) == set_member(members_view(old(members)@), key@, value@),
{
    let ghost before = members@;
    proof {
        crate::json::lemma_members_view(before);
    }
    match find_last_key(members, key.as_str()) {
        Some(i) => {
            proof {
                lemma_last_index(members_view(before), key@);
            }
            members.set(i, (key.clone(), value));
            proof {
                crate::json::lemma_members_view(members@);
                assert(members_view(members@) =~= members_view(before).update(i as int, (key@, jv(&members@[i as int].1))));
            }
        },
        None => {
            members.push((key.clone(), value));
            proof {
                crate::json::lemma_members_view(members@);
                assert(members_view(members@) =~= members_view(before).push((key@, jv(&members@[members@.len() - 1].1))));
            }
        },
    }
}

/// Tool arguments after an approver's changes.
pub fn apply_argument_changes(original: &JsonValue, changes: &Vec<(String, JsonValue)>) -> (r: JsonValue)
    ensures
        r@ == changed_args(original@, members_view(changes@)),
{
    let mut out: Vec<(String, JsonValue)> = match original {
        JsonValue::Object(m) => clone_members(m),
        _ => {
            return JsonValue::Object(clone_members(changes));
        },
    };
    let ghost base = members_view(out@);
    let mut i: usize = 0;
    assert(changes@.take(0) =~= Seq::<(String, JsonValue)>::empty());
    proof {
        crate::json::lemma_members_view(changes@);
    }
    while i < changes.len()
        invariant
            i <= changes@.len(),
            members_view(out@) == set_members(base, members_view(changes@.take(i as int))),
            members_view(changes@).len() == changes@.len(),
            forall|t: int| 0 <= t < changes@.len() ==> #[trigger] members_view(changes@)[t] == (changes@[t].0@, jv(&changes@[t].1)),
        decreases changes@.len() - i,
    {
        let v = changes[i].1.deep_clone();
        set_in(&mut out, &changes[i].0, v);
        proof {
            let t = changes@.take(i + 1);
            crate::json::lemma_members_view(t);
            crate::json::lemma_members_view(t.drop_last());
            assert(t.drop_last() =~= changes@.take(i as int));
            assert(members_view(t).drop_last() =~= members_view(t.drop_last()));
            assert(members_view(t).last() == (changes@[i as int].0@, jv(&changes@[i as int].1)));
        }
        i = i + 1;
    }
    assert(changes@.take(changes@.len() as int) =~= changes@);
    JsonValue::Object(out)
}

/// What is recorded of a resolved approval.
pub struct ApprovalEvidence {
    pub request_id: String,
    pub trigger: ApprovalTriggerEvidence,
    /// What the approver answered.
    pub raw_decision: ApprovalDecision,
    /// What was applied.
    pub effective_decision: ApprovalDecision,
    pub original_args: Option<JsonValue>,
    pub modified_args: Option<JsonValue>,
    /// The arguments the tool ran with, if it ran.
    pub effective_args: Option<JsonValue>,
    pub message: String,
    pub rejection_reason: Option<String>,
    pub error: Option<String>,
}

/// The view of an optional value.
pub open spec fn opt_view(o: Option<JsonValue>) -> Option<JsonView> {
    match o {
        Some(v) => Some(v@),
        None => None,
    }
}

/// The arguments of a tool trigger.
pub open spec fn trigger_args(t: &ApprovalTrigger) -> Option<JsonView> {
    match t {
        ApprovalTrigger::Tool { args, .. } => Some(args@),
        _ => None,
    }
}

/// The decision that was applied.
pub open spec fn applied_decision(o: &ApprovalResolvedOutcome) -> ApprovalDecision {
    match o {
        ApprovalResolvedOutcome::Approved => ApprovalDecision::Approved,
        ApprovalResolvedOutcome::Rejected { .. } => ApprovalDecision::Rejected,
        ApprovalResolvedOutcome::Modified { .. } => ApprovalDecision::Modified,
        ApprovalResolvedOutcome::Error { .. } => ApprovalDecision::Error,
    }
}

/// The modified arguments: the changes applied to the tool's arguments.
pub open spec fn modified_args_of(t: &ApprovalTrigger, o: &ApprovalResolvedOutcome) -> Option<JsonView> {
    match (o, t) {
        (ApprovalResolvedOutcome::Modified { changes }, ApprovalTrigger::Tool { args, .. }) => Some(changed_args(args@, members_view(changes@))),
        _ => None,
    }
}

impl ApprovalEvidence {
    /// Records how an approval request was answered (`raw_result`) and
    /// applied (`effective_result`). Arguments run only when the request
    /// was approved, as they were or as modified.
    pub fn from_resolution(request: &ApprovalRequest, raw_result: &ApprovalResult, effective_result: &ApprovalResolvedOutcome) -> (r: Self)
        ensures
            r.request_id@ == request.id@,
            trigger_recorded(&r.trigger, &request.trigger),
            r.raw_decision == spec_result_decision(raw_result),
            r.effective_decision == applied_decision(effective_result),
            opt_view(r.original_args) == trigger_args(&request.trigger),
            opt_view(r.modified_args) == modified_args_of(&request.trigger, effective_result),
            opt_view(r.effective_args) == (match applied_decision(effective_result) {
                ApprovalDecision::Approved => trigger_args(&request.trigger),
                ApprovalDecision::Modified => modified_args_of(&request.trigger, effective_result),
                _ => None,
            }),
            r.message@ == request.message@,
            r.rejection_reason.deep_view() == (match effective_result {
                ApprovalResolvedOutcome::Rejected { reason } => reason.deep_view(),
                _ => None,
            }),
            r.error.deep_view() == (match effective_result {
                ApprovalResolvedOutcome::Error { message } => Some(message@),
                _ => None,
            }),
    {
        let original_args: Option<JsonValue> = match &request.trigger {
            ApprovalTrigger::Tool { args, .. } => Some(args.deep_clone()),
            _ => None,
        };
        let modified_args: Option<JsonValue> = match (effective_result, &request.trigger) {
            (ApprovalResolvedOutcome::Modified { changes }, ApprovalTrigger::Tool { args, .. }) => Some(apply_argument_changes(args, changes)),
            _ => None,
        };
        let effective_decision = match effective_result {
            ApprovalResolvedOutcome::Approved => ApprovalDecision::Approved,
            ApprovalResolvedOutcome::Rejected { .. } => ApprovalDecision::Rejected,
            ApprovalResolvedOutcome::Modified { .. } => ApprovalDecision::Modified,
            ApprovalResolvedOutcome::Error { .. } => ApprovalDecision::Error,
        };
        let effective_args: Option<JsonValue> = match effective_decision {
            ApprovalDecision::Approved => match &original_args {
                Some(a) => Some(a.deep_clone()),
                None => None,
            },
            ApprovalDecision::Modified => match &modified_args {
                Some(a) => Some(a.deep_clone()),
                None => None,
            },
            _ => None,
        };
        let rejection_reason = match effective_result {
            ApprovalResolvedOutcome::Rejected { reason } => clone_opt_string(reason),
            _ => None,
        };
        let error = match effective_result {
            ApprovalResolvedOutcome::Error { message } => Some(message.clone()),
            _ => None,
        };
        ApprovalEvidence {
            request_id: request.id.clone(),
            trigger: ApprovalTriggerEvidence::from_trigger(&request.trigger),
            raw_decision: approval_result_decision(raw_result),
            effective_decision,
            original_args,
            modified_args,
            effective_args,
            message: request.message.clone(),
            rejection_reason,
            error,
        }
    }
}

/// Arguments run only after an approval: whatever the answers, an approval
/// that was not applied as approved or modified leaves no arguments to
/// run, and approved arguments are the tool's own.
pub proof fn law_rejected_approvals_run_nothing(t: &ApprovalTrigger, o: &ApprovalResolvedOutcome, effective: Option<JsonView>)
    requires
        effective == (match applied_decision(o) {
            ApprovalDecision::Approved => trigger_args(t),
            ApprovalDecision::Modified => modified_args_of(t, o),
            _ => None,
        }),
    ensures
        !(o is Approved || o is Modified) ==> effective is None,
        o is Approved ==> effective == trigger_args(t),
{
}

/// The status named by a disambiguation record: unknown or missing
/// statuses count as triggered.
pub open spec fn status_named(name: Option<Seq<char>>) -> DisambiguationStatus {
    match name {
        Some(n) => if n == "awaiting_clarification"@ {
            DisambiguationStatus::Triggered
        } else if n == "clarified"@ {
            DisambiguationStatus::Clarified
        } else if n == "best_guess"@ {
            DisambiguationStatus::BestGuess
        } else if n == "abandoned"@ {
            DisambiguationStatus::Abandoned
        } else if n == "give_up"@ {
            DisambiguationStatus::GiveUp
        } else if n == "escalated"@ {
            DisambiguationStatus::Escalated
        } else if n == "skipped"@ {
            DisambiguationStatus::Skipped
        } else if n == "clear"@ {
            DisambiguationStatus::Clear
        } else {
            DisambiguationStatus::Triggered
        },
        None => DisambiguationStatus::Triggered,
    }
}

/// The disambiguation status of a turn: from the response metadata's
/// `disambiguation` record, else clarified when the context marks the
/// disambiguation as resolved, else none.
pub open spec fn spec_disambiguation(metadata: Option<JsonView>, context: JsonView) -> Option<DisambiguationStatus> {
    let record = match metadata {
        Some(m) => get_key(m, "disambiguation"@),
        None => None,
    };
    match record {
        Some(d) => Some(status_named(match get_key(d, "status"@) {
            Some(s) => as_str_view(s),
            None => None,
        })),
        None => {
            let resolved = match get_key(context, "disambiguation"@) {
                Some(d) => match get_key(d, "resolved"@) {
                    Some(r) => as_bool_view(r),
                    None => None,
                },
                None => None,
            };
            if resolved == Some(true) { Some(DisambiguationStatus::Clarified) } else { None }
        },
    }
}

fn status_of(name: Option<&str>) -> (r: DisambiguationStatus)
    ensures
        r == status_named(name.deep_view()),
{
    match name {
        Some(n) => {
            if str_eq(n, "awaiting_clarification") {
                DisambiguationStatus::Triggered
            } else if str_eq(n, "clarified") {
                DisambiguationStatus::Clarified
            } else if str_eq(n, "best_guess") {
                DisambiguationStatus::BestGuess
            } else if str_eq(n, "abandoned") {
                DisambiguationStatus::Abandoned
            } else if str_eq(n, "give_up") {
                DisambiguationStatus::GiveUp
            } else if str_eq(n, "escalated") {
                DisambiguationStatus::Escalated
            } else if str_eq(n, "skipped") {
                DisambiguationStatus::Skipped
            } else if str_eq(n, "clear") {
                DisambiguationStatus::Clear
            } else {
                DisambiguationStatus::Triggered
            }
        },
        None => DisambiguationStatus::Triggered,
    }
}

/// Infers the disambiguation status of a turn from its response metadata
/// and runtime context.
pub fn infer_disambiguation(metadata: Option<&JsonValue>, context: &JsonValue) -> (r: Option<DisambiguationStatus>)
    ensures
        r == spec_disambiguation(match metadata { Some(m) => Some(m@), None => None }, context@),
{
    let record = match metadata {
        Some(m) => m.get("disambiguation"),
        None => None,
    };
    match record {
        Some(d) => {
            let name = match d.get("status") {
                Some(s) => s.as_str(),
                None => None,
            };
            Some(status_of(name))
        },
        None => {
            let resolved = match context.get("disambiguation") {
                Some(d) => match d.get("resolved") {
                    Some(x) => x.as_bool(),
                    None => None,
                },
                None => None,
            };
            if resolved == Some(true) {
                Some(DisambiguationStatus::Clarified)
            } else {
                None
            }
        },
    }
}

/// The skill named by response metadata: `skill_id`, else the skill of
/// its disambiguation record.
pub open spec fn metadata_skill(metadata: Option<JsonView>) -> Option<Seq<char>> {
    match metadata {
        None => None,
        Some(m) => {
            let direct = match get_key(m, "skill_id"@) {
                Some(v) => as_str_view(v),
                None => None,
            };
            if direct is Some {
                direct
            } else {
                match get_key(m, "disambiguation"@) {
                    Some(d) => match get_key(d, "skill_id"@) {
                        Some(v) => as_str_view(v),
                        None => None,
                    },
                    None => None,
                }
            }
        },
    }
}

fn text_at(v: &JsonValue, key: &str) -> (r: Option<String>)
    ensures
        r.deep_view() == (match get_key(v@, key@) {
            Some(x) => as_str_view(x),
            None => None,
        }),
{
    match v.get(key) {
        Some(x) => match x.as_str() {
            Some(s) => Some(to_owned_string(s)),
            None => None,
        },
        None => None,
    }
}

/// The skill evidence of a turn: the skill named by the metadata, selected
/// and executed, with a clarification requested when disambiguation was
/// triggered; none when neither a skill nor disambiguation is known.
pub fn infer_skill(metadata: Option<&JsonValue>, disambiguation: Option<DisambiguationStatus>) -> (r: Option<SkillEvidence>)
    ensures
        (metadata_skill(match metadata { Some(m) => Some(m@), None => None }) is None && disambiguation is None) ==> r is None,
        !(metadata_skill(match metadata { Some(m) => Some(m@), None => None }) is None && disambiguation is None) ==> (r matches Some(e)
            && e.selected_skill_id.deep_view() == metadata_skill(match metadata { Some(m) => Some(m@), None => None })
            && e.executed_skill_id.deep_view() == metadata_skill(match metadata { Some(m) => Some(m@), None => None })
            && !e.no_match
            && e.clarification_requested == (disambiguation == Some(DisambiguationStatus::Triggered))),
{
    let skill: Option<String> = match metadata {
        None => None,
        Some(m) => {
            let direct = text_at(m, "skill_id");
            if direct.is_some() {
                direct
            } else {
                match m.get("disambiguation") {
                    Some(d) => text_at(d, "skill_id"),
                    None => None,
                }
            }
        },
    };
    if skill.is_none() && disambiguation.is_none() {
        return None;
    }
    Some(SkillEvidence {
        selected_skill_id: clone_opt_string(&skill),
        executed_skill_id: skill,
        no_match: false,
        clarification_requested: disambiguation == Some(DisambiguationStatus::Triggered),
    })
}

} // verus!
