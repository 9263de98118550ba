//! The parts of turn assertions that select recorded tool executions,
//! compare response metadata, and read the counts of an observability
//! report.
use vstd::prelude::*;
use crate::evidence::ToolExecutionSource;
use crate::json::{JsonValue, JsonView, get_key, json_eq, json_equal, members_view, lemma_members_view};
use crate::text::str_eq;
use crate::hitl_config::{lookup, lookup_pair};

verus! {

/// The name a source is written under.
pub open spec fn source_name(source: ToolExecutionSource) -> Seq<char> {
    match source {
        ToolExecutionSource::Llm => "llm"@,
        ToolExecutionSource::Skill => "skill"@,
        ToolExecutionSource::StateAction => "state_action"@,
        ToolExecutionSource::OnEnter => "on_enter"@,
        ToolExecutionSource::OnExit => "on_exit"@,
        ToolExecutionSource::PostTransition => "post_transition"@,
        ToolExecutionSource::Spawner => "spawner"@,
        ToolExecutionSource::Orchestration => "orchestration"@,
        ToolExecutionSource::Mock => "mock"@,
    }
}

/// The name a source is written under.
pub fn source_label(source: ToolExecutionSource) -> (r: &'static str)
    ensures
        r@ == source_name(source),
{
    match source {
        ToolExecutionSource::Llm => "llm",
        ToolExecutionSource::Skill => "skill",
        ToolExecutionSource::StateAction => "state_action",
        ToolExecutionSource::OnEnter => "on_enter",
        ToolExecutionSource::OnExit => "on_exit",
        ToolExecutionSource::PostTransition => "post_transition",
        ToolExecutionSource::Spawner => "spawner",
        ToolExecutionSource::Orchestration => "orchestration",
        ToolExecutionSource::Mock => "mock",
    }
}

/// What a tool check reads of a recorded execution.
pub struct ToolRecordSummary {
    pub tool_id: String,
    pub requested_name: String,
    pub success: bool,
    pub source: ToolExecutionSource,
}

/// Which executions a tool check looks at, and how many it wants.
pub struct ToolCallFilter {
    /// The tool, by its ID or by the name it was requested under.
    pub id: Option<String>,
    /// Only executions that succeeded, or only those that failed.
    pub success: Option<bool>,
    /// Only executions from these sources (by name).
    pub source_in: Option<Vec<String>>,
    /// Exactly this many executions.
    pub count: Option<usize>,
    /// At least this many executions.
    pub count_gte: Option<usize>,
}

/// A record passes the filter.
pub open spec fn record_selected(r: ToolRecordSummary, f: &ToolCallFilter) -> bool {
    &&& f.id matches Some(id) ==> (r.tool_id@ == id@ || r.requested_name@ == id@)
    &&& f.success matches Some(s) ==> r.success == s
    &&& f.source_in matches Some(sources) ==> sources.deep_view().contains(source_name(r.source))
}

/// The positions of the records that pass the filter, in order.
pub open spec fn selected_positions(records: Seq<ToolRecordSummary>, f: &ToolCallFilter) -> Seq<usize>
    decreases records.len(),
{
    if records.len() == 0 {
        Seq::empty()
    } else {
        let rest = selected_positions(records.drop_last(), f);
        if record_selected(records.last(), f) {
            rest.push((records.len() - 1) as usize)
        } else {
            rest
        }
    }
}

fn source_listed(sources: &Vec<String>, name: &str) -> (r: bool)
    ensures
        r == sources.deep_view().contains(name@),
{
    let mut i: usize = 0;
    while i < sources.len()
        invariant
            i <= sources@.len(),
            forall|k: int| 0 <= k < i ==> sources.deep_view()[k] != name@,
        decreases sources@.len() - i,
    {
        if str_eq(sources[i].as_str(), name) {
            assert(sources.deep_view()[i as int] == name@);
            return true;
        }
        i = i + 1;
    }
    false
}

/// Whether a record passes the filter.
pub fn is_selected(r: &ToolRecordSummary, f: &ToolCallFilter) -> (b: bool)
    ensures
        b == record_selected(*r, f),
{
    if let Some(id) = &f.id {
        if !(str_eq(r.tool_id.as_str(), id.as_str()) || str_eq(r.requested_name.as_str(), id.as_str())) {
            return false;
        }
    }
    if let Some(s) = f.success {
        if r.success != s {
            return false;
        }
    }
    if let Some(sources) = &f.source_in {
        if !source_listed(sources, source_label(r.source)) {
            return false;
        }
    }
    true
}

/// The positions of the recorded executions a tool check looks at.
pub fn select_tool_records(records: &Vec<ToolRecordSummary>, f: &ToolCallFilter) -> (r: Vec<usize>)
    ensures
        r@ == selected_positions(records@, f),
{
    let mut out: Vec<usize> = Vec::new();
    let mut i: usize = 0;
    while i < records.len()
        invariant
            i <= records@.len(),
            out@ == selected_positions(records@.take(i as int), f),
        decreases records@.len() - i,
    {
        proof {
            assert(records@.take(i + 1).drop_last() =~= records@.take(i as int));
            assert(records@.take(i + 1).last() == records@[i as int]);
        }
        if is_selected(&records[i], f) {
            out.push(i);
        }
        i = i + 1;
    }
    assert(records@.take(i as int) =~= records@);
    out
}

/// The count checks: at least one execution, and the wanted numbers.
pub open spec fn count_holds(count: nat, f: &ToolCallFilter) -> bool {
    &&& count > 0
    &&& f.count matches Some(n) ==> count == n
    &&& f.count_gte matches Some(n) ==> count >= n
}

/// Whether the number of executions selected meets the check.
pub fn tool_count_holds(count: usize, f: &ToolCallFilter) -> (b: bool)
    ensures
        b == count_holds(count as nat, f),
{
    count > 0 && match f.count {
        Some(n) => count == n,
        None => true,
    } && match f.count_gte {
        Some(n) => count >= n,
        None => true,
    }
}

/// `m` has a member `key` equal to `v`.
pub open spec fn member_equals(m: JsonView, key: Seq<char>, v: JsonView) -> bool {
    match get_key(m, key) {
        Some(x) => json_eq(x, v),
        None => false,
    }
}

/// The metadata has each expected member with an equal value; no metadata
/// meets an empty expectation.
pub open spec fn spec_metadata_contains(metadata: Option<JsonView>, expected: Seq<(Seq<char>, JsonView)>) -> bool {
    ||| metadata matches Some(m) && forall|i: int| 0 <= i < expected.len()
        ==> #[trigger] member_equals(m, expected[i].0, expected[i].1)
    ||| expected.len() == 0 && metadata is None
}

/// Whether the response metadata contains the expected members.
pub fn metadata_contains(metadata: Option<&JsonValue>, expected: &Vec<(String, JsonValue)>) -> (b: bool)
    ensures
        b == spec_metadata_contains(
            match metadata {
                Some(m) => Some(m@),
                None => None,
            },
            members_view(expected@),
        ),
{
    proof {
        lemma_members_view(expected@);
    }
    let ghost ev = members_view(expected@);
    match metadata {
        None => expected.len() == 0,
        Some(m) => {
            let mut i: usize = 0;
            while i < expected.len()
                invariant
                    metadata == Some(m),
                    ev == members_view(expected@),
                    ev.len() == expected@.len(),
                    forall|t: int| 0 <= t < expected@.len() ==> #[trigger] ev[t] == (expected@[t].0@, expected@[t].1@),
                    i <= expected@.len(),
                    forall|k: int| 0 <= k < i ==> #[trigger] member_equals(m@, ev[k].0, ev[k].1),
                decreases expected@.len() - i,
            {
                let ok = match m.get(expected[i].0.as_str()) {
                    Some(x) => json_equal(x, &expected[i].1),
                    None => false,
                };
                if !ok {
                    assert(!member_equals(m@, ev[i as int].0, ev[i as int].1));
                    return false;
                }
                i = i + 1;
            }
            true
        },
    }
}

/// The totals of a turn's observability report that are counted.
pub struct ObservabilityTotals {
    pub total_llm_calls: u64,
    pub total_tool_calls: u64,
    pub total_tokens: u64,
}

/// The upper bounds an observability check puts on the totals.
pub struct ObservabilityLimits {
    pub total_llm_calls_lte: Option<u64>,
    pub total_tool_calls_lte: Option<u64>,
    pub total_tokens_lte: Option<u64>,
}

/// Each bound that is set holds.
pub open spec fn spec_totals_within(t: &ObservabilityTotals, l: &ObservabilityLimits) -> bool {
    &&& l.total_llm_calls_lte matches Some(m) ==> t.total_llm_calls <= m
    &&& l.total_tool_calls_lte matches Some(m) ==> t.total_tool_calls <= m
    &&& l.total_tokens_lte matches Some(m) ==> t.total_tokens <= m
}

/// Whether the counted totals are within the bounds.
pub fn totals_within(t: &ObservabilityTotals, l: &ObservabilityLimits) -> (b: bool)
    ensures
        b == spec_totals_within(t, l),
{
    (match l.total_llm_calls_lte {
        Some(m) => t.total_llm_calls <= m,
        None => true,
    }) && (match l.total_tool_calls_lte {
        Some(m) => t.total_tool_calls <= m,
        None => true,
    }) && (match l.total_tokens_lte {
        Some(m) => t.total_tokens <= m,
        None => true,
    })
}

/// A count of a report, by its dimensions.
pub struct DimensionCount {
    pub dimensions: Vec<(String, String)>,
    pub count: u64,
}

/// A metric whose dimension `key` is `value`.
pub open spec fn has_dimension(m: DimensionCount, key: Seq<char>, value: Seq<char>) -> bool {
    lookup(m.dimensions.deep_view(), key) == Some(value)
}

/// The count of the first metric whose dimension `key` is `value`; zero
/// when there is none.
pub open spec fn spec_dimension_count(metrics: Seq<DimensionCount>, key: Seq<char>, value: Seq<char>) -> u64
    decreases metrics.len(),
{
    if metrics.len() == 0 {
        0
    } else if has_dimension(metrics[0], key, value) {
        metrics[0].count
    } else {
        spec_dimension_count(metrics.drop_first(), key, value)
    }
}

/// The count of the first metric whose dimension `key` is `value`.
pub fn dimension_count(metrics: &Vec<DimensionCount>, key: &str, value: &str) -> (r: u64)
    ensures
        r == spec_dimension_count(metrics@, key@, value@),
{
    let mut i: usize = 0;
    proof {
        assert(metrics@.skip(0) =~= metrics@);
    }
    while i < metrics.len()
        invariant
            i <= metrics@.len(),
            spec_dimension_count(metrics@, key@, value@) == spec_dimension_count(metrics@.skip(i as int), key@, value@),
        decreases metrics@.len() - i,
    {
        proof {
            assert(metrics@.skip(i as int)[0] == metrics@[i as int]);
            assert(metrics@.skip(i as int).drop_first() =~= metrics@.skip(i + 1));
        }
        let found = match lookup_pair(&metrics[i].dimensions, key) {
            Some(v) => str_eq(v.as_str(), value),
            None => false,
        };
        if found {
            return metrics[i].count;
        }
        i = i + 1;
    }
    assert(metrics@.skip(i as int) =~= Seq::<DimensionCount>::empty());
    0
}

} // verus!
