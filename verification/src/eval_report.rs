//! Results of an evaluation run: per-turn, per-attempt and per-scenario
//! records, their counts, the choice of scenarios to run, the retry policy
//! of a scenario, and the JUnit report.
use vstd::prelude::*;
use crate::text::{to_owned_string, push_str, str_eq, replace_all, str_replace, u64_to_decimal, decimal, clone_strings};
use crate::json::JsonValue;
use crate::eval::{ScenarioStatus, FailureCategory, RedactedString, EvalError, eval_error_text, ResetOptions, ResetProfile, EvalSettings, SkipConfig};
use crate::fixtures::LlmFixtureMode;

verus! {

/// The outcome of one assertion clause.
pub struct AssertionResultDetail {
    /// Name of the clause.
    pub assertion: String,
    pub passed: bool,
    pub actual: JsonValue,
    pub expected: JsonValue,
    /// Why the clause failed.
    pub message: Option<String>,
}

impl AssertionResultDetail {
    /// A copy of the detail.
    pub fn copy(&self) -> (r: Self)
        ensures
            r.assertion@ == self.assertion@,
            r.passed == self.passed,
            r.actual@ == self.actual@,
            r.expected@ == self.expected@,
            r.message.deep_view() == self.message.deep_view(),
    {
        AssertionResultDetail {
            assertion: self.assertion.clone(),
            passed: self.passed,
            actual: self.actual.deep_clone(),
            expected: self.expected.deep_clone(),
            message: match &self.message {
                Some(m) => Some(m.clone()),
                None => None,
            },
        }
    }

    /// A passed clause.
    pub fn pass(name: &str, actual: JsonValue, expected: JsonValue) -> (r: Self)
        ensures
            r.assertion@ == name@,
            r.passed,
            r.actual == actual,
            r.expected == expected,
            r.message is None,
    {
        AssertionResultDetail { assertion: to_owned_string(name), passed: true, actual, expected, message: None }
    }

    /// A failed clause with its message.
    pub fn fail(name: &str, actual: JsonValue, expected: JsonValue, message: &str) -> (r: Self)
        ensures
            r.assertion@ == name@,
            !r.passed,
            r.actual == actual,
            r.expected == expected,
            r.message.deep_view() == Some(message@),
    {
        AssertionResultDetail {
            assertion: to_owned_string(name),
            passed: false,
            actual,
            expected,
            message: Some(to_owned_string(message)),
        }
    }
}

/// The record of one turn. (The full evidence of the turn is kept by the
/// runner beside it.)
pub struct TurnResult {
    /// Position of the turn in its scenario, from zero.
    pub index: usize,
    pub input: RedactedString,
    pub response: RedactedString,
    /// Whether the runtime produced a response at all.
    pub response_present: bool,
    pub runtime_error: Option<RedactedString>,
    pub state: Option<String>,
    pub assertion_results: Vec<AssertionResultDetail>,
    pub latency_ms: u64,
    pub observability_span_id: Option<String>,
}

/// The record of one attempt at a scenario.
pub struct AttemptResult {
    /// Position of the attempt, from zero.
    pub attempt: u32,
    pub turns: Vec<TurnResult>,
    pub status: ScenarioStatus,
    pub duration_ms: u64,
}

/// The record of one scenario.
pub struct ScenarioResult {
    pub id: String,
    pub name: Option<String>,
    pub tags: Vec<String>,
    pub language: Option<String>,
    pub status: ScenarioStatus,
    pub failure_category: Option<FailureCategory>,
    /// Passed, but only after a retry.
    pub flaky: bool,
    pub attempts: Vec<AttemptResult>,
    pub duration_ms: u64,
    pub retries_used: u32,
}

/// Pass, fail and skip counts of one group of scenarios.
#[derive(Clone, Copy, Debug, PartialEq, Eq, Structural)]
pub struct CountMetrics {
    pub total: usize,
    pub passed: usize,
    pub failed: usize,
    pub skipped: usize,
}

impl Default for CountMetrics {
    fn default() -> (r: Self)
        ensures
            r == (CountMetrics { total: 0, passed: 0, failed: 0, skipped: 0 }),
    {
        CountMetrics { total: 0, passed: 0, failed: 0, skipped: 0 }
    }
}

/// Pass and fail counts of one assertion name.
#[derive(Clone, Copy, Debug, PartialEq, Eq, Structural)]
pub struct AssertionMetrics {
    pub total: usize,
    pub passed: usize,
    pub failed: usize,
}

impl Default for AssertionMetrics {
    fn default() -> (r: Self)
        ensures
            r == (AssertionMetrics { total: 0, passed: 0, failed: 0 }),
    {
        AssertionMetrics { total: 0, passed: 0, failed: 0 }
    }
}

/// Counts after one more scenario with `status`: errors count as failures.
pub open spec fn counted(m: CountMetrics, status: &ScenarioStatus) -> CountMetrics {
    match status {
        ScenarioStatus::Passed => CountMetrics { total: (m.total + 1) as usize, passed: (m.passed + 1) as usize, ..m },
        ScenarioStatus::Failed { .. } | ScenarioStatus::Error { .. } => CountMetrics {
            total: (m.total + 1) as usize,
            failed: (m.failed + 1) as usize,
            ..m
        },
        ScenarioStatus::Skipped { .. } => CountMetrics { total: (m.total + 1) as usize, skipped: (m.skipped + 1) as usize, ..m },
    }
}

/// Counts one more scenario.
pub fn update_count(metrics: &mut CountMetrics, status: &ScenarioStatus)
    requires
        old(metrics).total < usize::MAX,
        old(metrics).passed < usize::MAX,
        old(metrics).failed < usize::MAX,
        old(metrics).skipped < usize::MAX,
    ensures
        *final(metrics) == counted(*old(metrics), status),
{
    metrics.total = metrics.total + 1;
    match status {
        ScenarioStatus::Passed => {
            metrics.passed = metrics.passed + 1;
        },
        ScenarioStatus::Failed { .. } | ScenarioStatus::Error { .. } => {
            metrics.failed = metrics.failed + 1;
        },
        ScenarioStatus::Skipped { .. } => {
            metrics.skipped = metrics.skipped + 1;
        },
    }
}

/// Every scenario counted in a group is counted once as passed, failed or
/// skipped: counting keeps `total == passed + failed + skipped`.
pub proof fn law_counts_stay_balanced(m: CountMetrics, status: &ScenarioStatus)
    requires
        m.total == m.passed + m.failed + m.skipped,
        m.total < usize::MAX,
    ensures
        counted(m, status).total == counted(m, status).passed + counted(m, status).failed + counted(m, status).skipped,
{
}

/// The label of a status in reports.
pub open spec fn spec_status_label(status: &ScenarioStatus) -> Seq<char> {
    match status {
        ScenarioStatus::Passed => "passed"@,
        ScenarioStatus::Failed { reason } => "failed: "@ + reason@,
        ScenarioStatus::Skipped { reason } => "skipped: "@ + (match reason {
            Some(r) => r@,
            None => "skipped"@,
        }),
        ScenarioStatus::Error { message } => "error: "@ + message@,
    }
}

/// The label of a status in reports.
pub fn status_label(status: &ScenarioStatus) -> (r: String)
    ensures
        r@ == spec_status_label(status),
{
    match status {
        ScenarioStatus::Passed => to_owned_string("passed"),
        ScenarioStatus::Failed { reason } => {
            let mut s = to_owned_string("failed: ");
            push_str(&mut s, reason.as_str());
            s
        },
        ScenarioStatus::Skipped { reason } => {
            let mut s = to_owned_string("skipped: ");
            match reason {
                Some(r) => push_str(&mut s, r.as_str()),
                None => push_str(&mut s, "skipped"),
            }
            s
        },
        ScenarioStatus::Error { message } => {
            let mut s = to_owned_string("error: ");
            push_str(&mut s, message.as_str());
            s
        },
    }
}

/// A text with `&`, `<`, `>` and `"` written as XML entities (in that
/// order).
pub open spec fn spec_escape_xml(s: Seq<char>) -> Seq<char> {
    replace_all(replace_all(replace_all(replace_all(s, "&"@, "&amp;"@), "<"@, "&lt;"@), ">"@, "&gt;"@), "\""@, "&quot;"@)
}

/// Escapes a text for an XML attribute.
pub fn escape_xml(input: &str) -> (r: String)
    ensures
        r@ == spec_escape_xml(input@),
{
    proof {
        reveal_strlit("&");
        reveal_strlit("<");
        reveal_strlit(">");
        reveal_strlit("\"");
    }
    let a = str_replace(input, "&", "&amp;");
    let b = str_replace(a.as_str(), "<", "&lt;");
    let c = str_replace(b.as_str(), ">", "&gt;");
    str_replace(c.as_str(), "\"", "&quot;")
}

/// The JUnit element of one scenario.
pub open spec fn junit_case(s: &ScenarioResult) -> Seq<char> {
    "  <testcase name=\""@ + spec_escape_xml(s.id@) + "\">\n"@
        + (match &s.status {
            ScenarioStatus::Passed => Seq::empty(),
            ScenarioStatus::Skipped { reason } => "    <skipped message=\""@ + spec_escape_xml(match reason {
                Some(r) => r@,
                None => "skipped"@,
            }) + "\" />\n"@,
            ScenarioStatus::Failed { reason } => "    <failure message=\""@ + spec_escape_xml(reason@) + "\" />\n"@,
            ScenarioStatus::Error { message } => "    <error message=\""@ + spec_escape_xml(message@) + "\" />\n"@,
        })
        + "  </testcase>\n"@
}

/// The JUnit elements of scenarios, in order.
pub open spec fn junit_cases(s: Seq<ScenarioResult>) -> Seq<char>
    decreases s.len(),
{
    if s.len() == 0 {
        Seq::empty()
    } else {
        junit_cases(s.drop_last()) + junit_case(&s.last())
    }
}

/// The JUnit report of a run.
pub open spec fn junit_report(suite: Seq<char>, total: nat, failed: nat, skipped: nat, scenarios: Seq<ScenarioResult>) -> Seq<char> {
    "<testsuite name=\""@ + spec_escape_xml(suite) + "\" tests=\""@ + decimal(total) + "\" failures=\""@
        + decimal(failed) + "\" skipped=\""@ + decimal(skipped) + "\">\n"@ + junit_cases(scenarios) + "</testsuite>\n"@
}

fn push_case(out: &mut String, s: &ScenarioResult)
    ensures
        final(out)@ == old(out)@ + junit_case(s),
{
    push_str(out, "  <testcase name=\"");
    push_str(out, escape_xml(s.id.as_str()).as_str());
    push_str(out, "\">\n");
    match &s.status {
        ScenarioStatus::Passed => {},
        ScenarioStatus::Skipped { reason } => {
            push_str(out, "    <skipped message=\"");
            let text = match reason {
                Some(r) => r.as_str(),
                None => "skipped",
            };
            push_str(out, escape_xml(text).as_str());
            push_str(out, "\" />\n");
        },
        ScenarioStatus::Failed { reason } => {
            push_str(out, "    <failure message=\"");
            push_str(out, escape_xml(reason.as_str()).as_str());
            push_str(out, "\" />\n");
        },
        ScenarioStatus::Error { message } => {
            push_str(out, "    <error message=\"");
            push_str(out, escape_xml(message.as_str()).as_str());
            push_str(out, "\" />\n");
        },
    }
    push_str(out, "  </testcase>\n");
    assert(final(out)@ =~= old(out)@ + junit_case(s));
}

/// Writes the JUnit report of a run.
pub fn render_junit(suite: &str, total: usize, failed: usize, skipped: usize, scenarios: &Vec<ScenarioResult>) -> (r: String)
    ensures
        r@ == junit_report(suite@, total as nat, failed as nat, skipped as nat, scenarios@),
{
    let mut out = to_owned_string("<testsuite name=\"");
    push_str(&mut out, escape_xml(suite).as_str());
    push_str(&mut out, "\" tests=\"");
    push_str(&mut out, u64_to_decimal(total as u64).as_str());
    push_str(&mut out, "\" failures=\"");
    push_str(&mut out, u64_to_decimal(failed as u64).as_str());
    push_str(&mut out, "\" skipped=\"");
    push_str(&mut out, u64_to_decimal(skipped as u64).as_str());
    push_str(&mut out, "\">\n");
    let ghost head = out@;
    let mut i: usize = 0;
    while i < scenarios.len()
        invariant
            i <= scenarios@.len(),
            out@ == head + junit_cases(scenarios@.take(i as int)),
        decreases scenarios@.len() - i,
    {
        push_case(&mut out, &scenarios[i]);
        proof {
            let t = scenarios@.take(i + 1);
            assert(t.drop_last() =~= scenarios@.take(i as int));
            assert(t.last() == scenarios@[i as int]);
        }
        i = i + 1;
    }
    assert(scenarios@.take(scenarios@.len() as int) =~= scenarios@);
    push_str(&mut out, "</testsuite>\n");
    assert(out@ =~= junit_report(suite@, total as nat, failed as nat, skipped as nat, scenarios@));
    out
}

/// Scenario totals of a run.
#[derive(Clone, Copy, Debug, PartialEq, Eq, Structural)]
pub struct RunCounts {
    pub total: usize,
    pub passed: usize,
    /// Failed or errored scenarios.
    pub failed: usize,
    pub skipped: usize,
}

/// Counts of the statuses among `s`.
pub open spec fn count_passed(s: Seq<ScenarioResult>) -> nat
    decreases s.len(),
{
    if s.len() == 0 { 0 } else { count_passed(s.drop_last()) + if s.last().status is Passed { 1nat } else { 0nat } }
}

pub open spec fn count_failed(s: Seq<ScenarioResult>) -> nat
    decreases s.len(),
{
    if s.len() == 0 {
        0
    } else {
        count_failed(s.drop_last()) + if s.last().status is Failed || s.last().status is Error { 1nat } else { 0nat }
    }
}

pub open spec fn count_skipped(s: Seq<ScenarioResult>) -> nat
    decreases s.len(),
{
    if s.len() == 0 { 0 } else { count_skipped(s.drop_last()) + if s.last().status is Skipped { 1nat } else { 0nat } }
}

/// Counts the scenarios of a run by status.
pub fn count_results(results: &Vec<ScenarioResult>) -> (r: RunCounts)
    ensures
        r.total == results@.len(),
        r.passed == count_passed(results@),
        r.failed == count_failed(results@),
        r.skipped == count_skipped(results@),
{
    let mut c = RunCounts { total: results.len(), passed: 0, failed: 0, skipped: 0 };
    let mut i: usize = 0;
    while i < results.len()
        invariant
            i <= results@.len(),
            c.total == results@.len(),
            c.passed == count_passed(results@.take(i as int)),
            c.failed == count_failed(results@.take(i as int)),
            c.skipped == count_skipped(results@.take(i as int)),
            c.passed + c.failed + c.skipped == i,
        decreases results@.len() - i,
    {
        let ghost t = results@.take(i + 1);
        proof {
            assert(t.drop_last() =~= results@.take(i as int));
            assert(t.last() == results@[i as int]);
        }
        match &results[i].status {
            ScenarioStatus::Passed => {
                c.passed = c.passed + 1;
            },
            ScenarioStatus::Failed { .. } | ScenarioStatus::Error { .. } => {
                c.failed = c.failed + 1;
            },
            ScenarioStatus::Skipped { .. } => {
                c.skipped = c.skipped + 1;
            },
        }
        i = i + 1;
    }
    assert(results@.take(results@.len() as int) =~= results@);
    c
}

/// Every scenario of a run is counted exactly once as passed, failed or
/// skipped.
pub proof fn law_run_counts_partition(s: Seq<ScenarioResult>)
    ensures
        count_passed(s) + count_failed(s) + count_skipped(s) == s.len(),
    decreases s.len(),
{
    if s.len() > 0 {
        law_run_counts_partition(s.drop_last());
    }
}

/// Some turn of the attempt has a failed clause named `judge`.
pub open spec fn judge_failed(a: &AttemptResult) -> bool {
    exists|t: int, d: int|
        0 <= t < a.turns@.len() && 0 <= d < (#[trigger] a.turns@[t]).assertion_results@.len()
            && !(#[trigger] a.turns@[t].assertion_results@[d]).passed
            && a.turns@[t].assertion_results@[d].assertion@ == "judge"@
}

/// Why a failed attempt failed: the judge, if a judge clause failed, else
/// an assertion.
pub fn failure_category_for_attempt(attempt: &AttemptResult) -> (r: FailureCategory)
    ensures
        r == (if judge_failed(attempt) { FailureCategory::JudgeError } else { FailureCategory::AssertionFailed }),
{
    let mut t: usize = 0;
    while t < attempt.turns.len()
        invariant
            t <= attempt.turns@.len(),
            forall|x: int, d: int|
                0 <= x < t && 0 <= d < (#[trigger] attempt.turns@[x]).assertion_results@.len() ==>
                    !(!(#[trigger] attempt.turns@[x].assertion_results@[d]).passed
                        && attempt.turns@[x].assertion_results@[d].assertion@ == "judge"@),
        decreases attempt.turns@.len() - t,
    {
        let details = &attempt.turns[t].assertion_results;
        let mut d: usize = 0;
        while d < details.len()
            invariant
                t < attempt.turns@.len(),
                *details == attempt.turns@[t as int].assertion_results,
                d <= details@.len(),
                forall|e: int| 0 <= e < d ==>
                    !(!(#[trigger] details@[e]).passed && details@[e].assertion@ == "judge"@),
            decreases details@.len() - d,
        {
            if !details[d].passed && str_eq(details[d].assertion.as_str(), "judge") {
                assert(!attempt.turns@[t as int].assertion_results@[d as int].passed);
                return FailureCategory::JudgeError;
            }
            d = d + 1;
        }
        t = t + 1;
    }
    FailureCategory::AssertionFailed
}

/// What scenario selection and error records read of a scenario.
pub struct ScenarioMeta {
    pub id: String,
    pub name: Option<String>,
    pub tags: Vec<String>,
    pub language: Option<String>,
}

/// Some string of `list` has the characters of `x`.
pub open spec fn listed(list: Seq<String>, x: Seq<char>) -> bool {
    exists|i: int| 0 <= i < list.len() && (#[trigger] list[i])@ == x
}

/// Whether a scenario passes the filters: its id among `ids`, its language
/// among `languages`, and all (or any) of `tags` among its tags; an empty
/// filter lets every scenario through.
pub open spec fn selected(m: &ScenarioMeta, ids: Seq<String>, tags: Seq<String>, languages: Seq<String>, tag_mode_all: bool) -> bool {
    &&& (ids.len() == 0 || listed(ids, m.id@))
    &&& (languages.len() == 0 || (m.language is Some && listed(languages, m.language->0@)))
    &&& (tags.len() == 0 || (if tag_mode_all {
            forall|i: int| 0 <= i < tags.len() ==> listed(m.tags@, (#[trigger] tags[i])@)
        } else {
            exists|i: int| 0 <= i < tags.len() && listed(m.tags@, (#[trigger] tags[i])@)
        }))
}

fn in_list(list: &Vec<String>, x: &str) -> (r: bool)
    ensures
        r == listed(list@, x@),
{
    let mut i: usize = 0;
    while i < list.len()
        invariant
            i <= list@.len(),
            forall|k: int| 0 <= k < i ==> (#[trigger] list@[k])@ != x@,
        decreases list@.len() - i,
    {
        if str_eq(list[i].as_str(), x) {
            return true;
        }
        i = i + 1;
    }
    false
}

fn is_selected(m: &ScenarioMeta, ids: &Vec<String>, tags: &Vec<String>, languages: &Vec<String>, tag_mode_all: bool) -> (r: bool)
    ensures
        r == selected(m, ids@, tags@, languages@, tag_mode_all),
{
    if ids.len() > 0 && !in_list(ids, m.id.as_str()) {
        return false;
    }
    if languages.len() > 0 {
        match &m.language {
            None => {
                return false;
            },
            Some(l) => {
                if !in_list(languages, l.as_str()) {
                    return false;
                }
            },
        }
    }
    if tags.len() > 0 {
        let mut i: usize = 0;
        if tag_mode_all {
            while i < tags.len()
                invariant
                    i <= tags@.len(),
                    tags@.len() > 0,
                    tag_mode_all,
                    forall|k: int| 0 <= k < i ==> listed(m.tags@, (#[trigger] tags@[k])@),
                decreases tags@.len() - i,
            {
                if !in_list(&m.tags, tags[i].as_str()) {
                    assert(!listed(m.tags@, tags@[i as int]@));
                    assert(!(forall|k: int| 0 <= k < tags@.len() ==> listed(m.tags@, (#[trigger] tags@[k])@)));
                    assert(!selected(m, ids@, tags@, languages@, tag_mode_all));
                    return false;
                }
                i = i + 1;
            }
        } else {
            let mut found = false;
            while i < tags.len() && !found
                invariant
                    i <= tags@.len(),
                    found ==> exists|k: int| 0 <= k < tags@.len() && listed(m.tags@, (#[trigger] tags@[k])@),
                    !found ==> forall|k: int| 0 <= k < i ==> !listed(m.tags@, (#[trigger] tags@[k])@),
                decreases tags@.len() - i,
            {
                if in_list(&m.tags, tags[i].as_str()) {
                    found = true;
                }
                i = i + 1;
            }
            if !found {
                return false;
            }
        }
    }
    true
}

/// The positions of the scenarios that pass the filters, in order.
pub fn filtered_scenarios(
    scenarios: &Vec<ScenarioMeta>,
    ids: &Vec<String>,
    tags: &Vec<String>,
    languages: &Vec<String>,
    tag_mode_all: bool,
) -> (r: Vec<usize>)
    ensures
        forall|k: int| 0 <= k < r@.len() ==> (#[trigger] r@[k]) < scenarios@.len()
            && selected(&scenarios@[r@[k] as int], ids@, tags@, languages@, tag_mode_all),
        forall|k: int, l: int| 0 <= k < l < r@.len() ==> (#[trigger] r@[k]) < (#[trigger] r@[l]),
        forall|i: int| 0 <= i < scenarios@.len() && selected(&(#[trigger] scenarios@[i]), ids@, tags@, languages@, tag_mode_all)
            ==> r@.contains(i as usize),
{
    let mut out: Vec<usize> = Vec::new();
    let mut i: usize = 0;
    while i < scenarios.len()
        invariant
            i <= scenarios@.len(),
            forall|k: int| 0 <= k < out@.len() ==> (#[trigger] out@[k]) < i
                && selected(&scenarios@[out@[k] as int], ids@, tags@, languages@, tag_mode_all),
            forall|k: int, l: int| 0 <= k < l < out@.len() ==> (#[trigger] out@[k]) < (#[trigger] out@[l]),
            forall|j: int| 0 <= j < i && selected(&(#[trigger] scenarios@[j]), ids@, tags@, languages@, tag_mode_all)
                ==> out@.contains(j as usize),
        decreases scenarios@.len() - i,
    {
        let ghost old_out = out@;
        if is_selected(&scenarios[i], ids, tags, languages, tag_mode_all) {
            out.push(i);
            assert(out@[out@.len() - 1] == i);
        }
        proof {
            assert forall|j: int| 0 <= j < i + 1 && selected(&(#[trigger] scenarios@[j]), ids@, tags@, languages@, tag_mode_all)
                implies out@.contains(j as usize) by {
                if j < i {
                    let k = choose|k: int| 0 <= k < old_out.len() && old_out[k] == j as usize;
                    assert(out@[k] == old_out[k]);
                } else {
                    assert(out@[out@.len() - 1] == i);
                }
            }
        }
        i = i + 1;
    }
    out
}

/// The refusal of a suite that asks for real or recording LLMs without
/// the caller asking for them too.
pub open spec fn llm_mode_refusal(suite_mode: LlmFixtureMode) -> Seq<char> {
    if suite_mode == LlmFixtureMode::Real {
        "suite-declared fixtures.llm.mode real requires --real-llm or EvalRunnerOptions.llm_mode = Some(LlmFixtureMode::Real)"@
    } else {
        "suite-declared fixtures.llm.mode record requires --record or EvalRunnerOptions.llm_mode = Some(LlmFixtureMode::Record)"@
    }
}

/// A suite may use real or recording LLMs only when the caller chose the
/// mode; mock and replay modes are always allowed.
pub fn authorize_llm_mode(suite_mode: LlmFixtureMode, override_mode: Option<LlmFixtureMode>) -> (r: Result<(), EvalError>)
    ensures
        (override_mode is Some || suite_mode == LlmFixtureMode::Mock || suite_mode == LlmFixtureMode::Replay) ==> r is Ok,
        !(override_mode is Some || suite_mode == LlmFixtureMode::Mock || suite_mode == LlmFixtureMode::Replay)
            ==> crate::eval::is_eval_config_error(r, llm_mode_refusal(suite_mode)),
{
    if override_mode.is_some() || suite_mode == LlmFixtureMode::Mock || suite_mode == LlmFixtureMode::Replay {
        return Ok(());
    }
    match suite_mode {
        LlmFixtureMode::Real => Err(EvalError::Config(to_owned_string(
            "suite-declared fixtures.llm.mode real requires --real-llm or EvalRunnerOptions.llm_mode = Some(LlmFixtureMode::Real)",
        ))),
        _ => Err(EvalError::Config(to_owned_string(
            "suite-declared fixtures.llm.mode record requires --record or EvalRunnerOptions.llm_mode = Some(LlmFixtureMode::Record)",
        ))),
    }
}

/// Options a caller gives a run, over what the suite declares.
pub struct EvalRunnerOptions {
    /// Agent file of the run, in place of the suite's.
    pub agent: Option<String>,
    /// Scenario file of the run.
    pub scenarios: Option<String>,
    /// Directory the reports are written to.
    pub output: String,
    /// Scenario IDs to run (all when empty).
    pub ids: Vec<String>,
    /// Tags to select scenarios by (all scenarios when empty).
    pub tags: Vec<String>,
    /// Whether a scenario needs every tag rather than one.
    pub tag_mode_all: bool,
    /// Languages to select scenarios by (all when empty).
    pub languages: Vec<String>,
    pub retries: Option<u32>,
    pub timeout_ms: Option<u64>,
    /// Scenarios run at once.
    pub parallel: Option<usize>,
    /// Stop after the first failed or errored scenario.
    pub fail_fast: bool,
    pub observability: bool,
    pub llm_mode: Option<LlmFixtureMode>,
    /// Cassette file for replay or record mode.
    pub cassette: Option<String>,
}

/// The suite settings with the caller's overrides: the retry count and
/// turn timeout when given; a concurrency runs in parallel above one and
/// at least one scenario at a time; fail-fast can only be switched on.
pub fn apply_runner_options(settings: &mut EvalSettings, options: &EvalRunnerOptions)
    ensures
        final(settings).retries == match options.retries { Some(n) => n, None => old(settings).retries },
        final(settings).timeout_per_turn_ms == match options.timeout_ms { Some(t) => t, None => old(settings).timeout_per_turn_ms },
        final(settings).parallel == match options.parallel { Some(p) => p > 1, None => old(settings).parallel },
        final(settings).max_concurrent == match options.parallel {
            Some(p) => if p >= 1 { p } else { 1 },
            None => old(settings).max_concurrent,
        },
        final(settings).fail_fast == (old(settings).fail_fast || options.fail_fast),
        final(settings).seed == old(settings).seed,
        final(settings).timeout_per_scenario_ms == old(settings).timeout_per_scenario_ms,
        final(settings).retry_delay_ms == old(settings).retry_delay_ms,
        final(settings).isolation == old(settings).isolation,
        final(settings).redact_outputs == old(settings).redact_outputs,
{
    match options.retries {
        Some(n) => settings.retries = n,
        None => {},
    }
    match options.timeout_ms {
        Some(t) => settings.timeout_per_turn_ms = t,
        None => {},
    }
    match options.parallel {
        Some(p) => {
            settings.parallel = p > 1;
            settings.max_concurrent = if p >= 1 { p } else { 1 };
        },
        None => {},
    }
    if options.fail_fast {
        settings.fail_fast = true;
    }
}

/// The scenarios a run selects: the positions `filtered_scenarios` gives,
/// or a configuration error when the filters select none.
pub fn select_or_refuse(
    scenarios: &Vec<ScenarioMeta>,
    ids: &Vec<String>,
    tags: &Vec<String>,
    languages: &Vec<String>,
    tag_mode_all: bool,
) -> (r: Result<Vec<usize>, EvalError>)
    ensures
        (forall|i: int| 0 <= i < scenarios@.len() ==> !selected(&(#[trigger] scenarios@[i]), ids@, tags@, languages@, tag_mode_all))
            <==> crate::eval::is_eval_config_error(r, "scenario selection matched zero scenarios"@),
        r matches Ok(v) ==> {
            &&& v@.len() > 0
            &&& forall|k: int| 0 <= k < v@.len() ==> (#[trigger] v@[k]) < scenarios@.len()
                && selected(&scenarios@[v@[k] as int], ids@, tags@, languages@, tag_mode_all)
            &&& forall|k: int, l: int| 0 <= k < l < v@.len() ==> (#[trigger] v@[k]) < (#[trigger] v@[l])
            &&& forall|i: int| 0 <= i < scenarios@.len() && selected(&(#[trigger] scenarios@[i]), ids@, tags@, languages@, tag_mode_all)
                ==> v@.contains(i as usize)
        },
        r is Ok || crate::eval::is_eval_config_error(r, "scenario selection matched zero scenarios"@),
{
    let v = filtered_scenarios(scenarios, ids, tags, languages, tag_mode_all);
    if v.len() == 0 {
        proof {
            assert forall|i: int| 0 <= i < scenarios@.len() implies !selected(&(#[trigger] scenarios@[i]), ids@, tags@, languages@, tag_mode_all) by {
                if selected(&scenarios@[i], ids@, tags@, languages@, tag_mode_all) {
                    assert(v@.contains(i as usize));
                }
            }
        }
        return Err(EvalError::Config(to_owned_string("scenario selection matched zero scenarios")));
    }
    proof {
        let k = v@[0];
        assert(selected(&scenarios@[k as int], ids@, tags@, languages@, tag_mode_all));
    }
    Ok(v)
}

/// The record of a skipped scenario: status skipped with the skip's
/// reason, no attempts, no retries, not flaky.
pub fn skipped_result(scenario: &ScenarioMeta, skip: &SkipConfig) -> (r: ScenarioResult)
    ensures
        r.id@ == scenario.id@,
        r.name.deep_view() == scenario.name.deep_view(),
        r.tags.deep_view() == scenario.tags.deep_view(),
        r.language.deep_view() == scenario.language.deep_view(),
        r.status matches ScenarioStatus::Skipped { reason } && reason.deep_view() == match skip {
            SkipConfig::Bool(_) => None,
            SkipConfig::Reason(s) => Some(s@),
        },
        r.failure_category is None,
        !r.flaky,
        r.attempts@.len() == 0,
        r.duration_ms == 0,
        r.retries_used == 0,
{
    ScenarioResult {
        id: scenario.id.clone(),
        name: match &scenario.name { Some(n) => Some(n.clone()), None => None },
        tags: clone_strings(&scenario.tags),
        language: match &scenario.language { Some(l) => Some(l.clone()), None => None },
        status: ScenarioStatus::Skipped { reason: skip.reason() },
        failure_category: None,
        flaky: false,
        attempts: Vec::new(),
        duration_ms: 0,
        retries_used: 0,
    }
}

/// A piece of a streamed turn as the runner reads it: text, the end
/// marker, an error, another kind of chunk, the stream running out, or the
/// turn's deadline passing.
pub enum StreamEvent {
    Content(String),
    Done,
    Error(String),
    Other,
    End,
    TimedOut,
}

/// What the runner has gathered of a streamed turn.
pub struct StreamFold {
    pub content: String,
    pub content_seen: bool,
    pub runtime_error: Option<String>,
    pub done: bool,
}

/// The outcome of running a turn.
pub struct TurnOperation {
    pub response_content: String,
    pub response_present: bool,
    pub runtime_error: Option<String>,
}

/// The message of a turn that ran past its deadline.
pub open spec fn timeout_message(timeout_ms: u64) -> Seq<char> {
    "turn timed out after "@ + decimal(timeout_ms as nat) + "ms"@
}

/// The first error of a turn is kept.
pub open spec fn keep_first(e: Option<Seq<char>>, m: Seq<char>) -> Option<Seq<char>> {
    if e is None { Some(m) } else { e }
}

impl StreamFold {
    /// Nothing read yet.
    pub fn new() -> (r: Self)
        ensures
            r.content@ == Seq::<char>::empty(),
            !r.content_seen,
            r.runtime_error is None,
            !r.done,
    {
        StreamFold { content: String::new(), content_seen: false, runtime_error: None, done: false }
    }

    /// Takes one event and tells whether reading goes on: text is appended,
    /// the first error is kept, the end marker, the end of the stream and
    /// the deadline stop the reading (the deadline's error kept when there
    /// is none yet).
    pub fn step(&mut self, event: StreamEvent, timeout_ms: u64) -> (more: bool)
        ensures
            match event {
                StreamEvent::Content(t) => {
                    &&& more
                    &&& final(self).content@ == old(self).content@ + t@
                    &&& final(self).content_seen
                    &&& final(self).runtime_error.deep_view() == old(self).runtime_error.deep_view()
                    &&& final(self).done == old(self).done
                },
                StreamEvent::Done => {
                    &&& !more
                    &&& final(self).content@ == old(self).content@
                    &&& final(self).content_seen == old(self).content_seen
                    &&& final(self).runtime_error.deep_view() == old(self).runtime_error.deep_view()
                    &&& final(self).done
                },
                StreamEvent::Error(m) => {
                    &&& more
                    &&& final(self).content@ == old(self).content@
                    &&& final(self).content_seen == old(self).content_seen
                    &&& final(self).runtime_error.deep_view() == keep_first(old(self).runtime_error.deep_view(), m@)
                    &&& final(self).done == old(self).done
                },
                StreamEvent::Other => {
                    &&& more
                    &&& final(self).content@ == old(self).content@
                    &&& final(self).content_seen == old(self).content_seen
                    &&& final(self).runtime_error.deep_view() == old(self).runtime_error.deep_view()
                    &&& final(self).done == old(self).done
                },
                StreamEvent::End => {
                    &&& !more
                    &&& final(self).content@ == old(self).content@
                    &&& final(self).content_seen == old(self).content_seen
                    &&& final(self).runtime_error.deep_view() == old(self).runtime_error.deep_view()
                    &&& final(self).done == old(self).done
                },
                StreamEvent::TimedOut => {
                    &&& !more
                    &&& final(self).content@ == old(self).content@
                    &&& final(self).content_seen == old(self).content_seen
                    &&& final(self).runtime_error.deep_view() == keep_first(old(self).runtime_error.deep_view(), timeout_message(timeout_ms))
                    &&& final(self).done == old(self).done
                },
            },
    {
        match event {
            StreamEvent::Content(t) => {
                self.content_seen = true;
                push_str(&mut self.content, t.as_str());
                true
            },
            StreamEvent::Done => {
                self.done = true;
                false
            },
            StreamEvent::Error(m) => {
                if self.runtime_error.is_none() {
                    self.runtime_error = Some(m);
                }
                true
            },
            StreamEvent::Other => true,
            StreamEvent::End => false,
            StreamEvent::TimedOut => {
                if self.runtime_error.is_none() {
                    let mut m = to_owned_string("turn timed out after ");
                    let n = u64_to_decimal(timeout_ms);
                    push_str(&mut m, n.as_str());
                    push_str(&mut m, "ms");
                    self.runtime_error = Some(m);
                }
                false
            },
        }
    }

    /// The turn's outcome: a stream that stopped without its end marker
    /// and without an error has the error "stream ended before Done"; a
    /// response is present when text came, or when the stream ended
    /// cleanly.
    pub fn finish(self) -> (r: TurnOperation)
        ensures
            r.response_content@ == self.content@,
            r.runtime_error.deep_view() == if !self.done && self.runtime_error is None {
                Some("stream ended before Done"@)
            } else {
                self.runtime_error.deep_view()
            },
            r.response_present == (self.content_seen || (self.done && r.runtime_error is None)),
    {
        let runtime_error = if !self.done && self.runtime_error.is_none() {
            Some(to_owned_string("stream ended before Done"))
        } else {
            self.runtime_error
        };
        let present = self.content_seen || (self.done && runtime_error.is_none());
        TurnOperation { response_content: self.content, response_present: present, runtime_error }
    }
}

/// The record of a scenario whose attempts have run: the status of the
/// last attempt, flaky when it passed after more than one attempt, and one
/// retry used per attempt after the first.
pub fn scenario_result(
    scenario: &ScenarioMeta,
    status: ScenarioStatus,
    failure_category: Option<FailureCategory>,
    attempts: Vec<AttemptResult>,
    duration_ms: u64,
) -> (r: ScenarioResult)
    requires
        attempts@.len() <= u32::MAX as nat + 1,
    ensures
        r.id@ == scenario.id@,
        r.name.deep_view() == scenario.name.deep_view(),
        r.tags.deep_view() == scenario.tags.deep_view(),
        r.language.deep_view() == scenario.language.deep_view(),
        r.status == status,
        r.failure_category == failure_category,
        r.flaky == (status is Passed && attempts@.len() > 1),
        r.attempts == attempts,
        r.duration_ms == duration_ms,
        r.retries_used == if attempts@.len() == 0 { 0 } else { attempts@.len() - 1 },
{
    let n = attempts.len();
    let flaky = status.is_passed() && n > 1;
    let retries_used: u32 = if n == 0 { 0 } else { (n - 1) as u32 };
    ScenarioResult {
        id: scenario.id.clone(),
        name: match &scenario.name { Some(x) => Some(x.clone()), None => None },
        tags: clone_strings(&scenario.tags),
        language: match &scenario.language { Some(l) => Some(l.clone()), None => None },
        status,
        failure_category,
        flaky,
        attempts,
        duration_ms,
        retries_used,
    }
}

/// The error of an attempt that ran past the scenario's deadline.
pub open spec fn attempt_timeout_text(id: Seq<char>, attempt: u32, timeout_ms: u64) -> Seq<char> {
    "scenario '"@ + id + "' attempt "@ + decimal(attempt as nat) + " timed out after "@ + decimal(timeout_ms as nat) + "ms"@
}

/// The error of an attempt that ran past the scenario's deadline.
pub fn attempt_timeout_error(id: &str, attempt: u32, timeout_ms: u64) -> (r: EvalError)
    ensures
        r matches EvalError::Runtime(m) && m@ == attempt_timeout_text(id@, attempt, timeout_ms),
{
    let mut m = to_owned_string("scenario '");
    push_str(&mut m, id);
    push_str(&mut m, "' attempt ");
    let a = u64_to_decimal(attempt as u64);
    push_str(&mut m, a.as_str());
    push_str(&mut m, " timed out after ");
    let t = u64_to_decimal(timeout_ms);
    push_str(&mut m, t.as_str());
    push_str(&mut m, "ms");
    EvalError::Runtime(m)
}

/// The record of a scenario that could not run: an error status with the
/// error's text, the given category and no attempts.
pub fn error_result(scenario: &ScenarioMeta, error: &EvalError, category: FailureCategory) -> (r: ScenarioResult)
    ensures
        r.id@ == scenario.id@,
        r.name.deep_view() == scenario.name.deep_view(),
        r.tags.deep_view() == scenario.tags.deep_view(),
        r.language.deep_view() == scenario.language.deep_view(),
        r.status matches ScenarioStatus::Error { message } && message@ == eval_error_text(error),
        r.failure_category == Some(category),
        !r.flaky,
        r.attempts@.len() == 0,
        r.duration_ms == 0,
        r.retries_used == 0,
{
    let mut tags: Vec<String> = Vec::new();
    let mut i: usize = 0;
    while i < scenario.tags.len()
        invariant
            i <= scenario.tags@.len(),
            tags.deep_view() == scenario.tags.deep_view().take(i as int),
        decreases scenario.tags@.len() - i,
    {
        let c = scenario.tags[i].clone();
        let ghost before = tags.deep_view();
        tags.push(c);
        assert(tags.deep_view() =~= before.push(scenario.tags@[i as int]@));
        assert(tags.deep_view() =~= scenario.tags.deep_view().take(i + 1));
        i = i + 1;
    }
    assert(scenario.tags.deep_view().take(scenario.tags@.len() as int) =~= scenario.tags.deep_view());
    ScenarioResult {
        id: scenario.id.clone(),
        name: match &scenario.name { Some(n) => Some(n.clone()), None => None },
        tags,
        language: match &scenario.language { Some(l) => Some(l.clone()), None => None },
        status: ScenarioStatus::Error { message: error.message() },
        failure_category: Some(category),
        flaky: false,
        attempts: Vec::new(),
        duration_ms: 0,
        retries_used: 0,
    }
}

/// How an attempt at a scenario ended, as the retry policy sees it.
#[derive(Clone, Copy, Debug, PartialEq, Eq, Structural)]
pub enum AttemptVerdict {
    Passed,
    /// The attempt could not run, or ended in a runtime error.
    Errored,
    /// Assertions failed, for the given reason.
    Failed(FailureCategory),
}

/// What to do after an attempt.
#[derive(Clone, Copy, Debug, PartialEq, Eq, Structural)]
pub enum RetryAction {
    /// Wait `delay_ms`, then run attempt `attempt`.
    Retry { attempt: u32, delay_ms: u64 },
    /// The scenario is decided.
    Finish,
}

/// Progress of a scenario through its attempts.
#[derive(Clone, Copy, Debug, PartialEq, Eq, Structural)]
pub struct RetryState {
    /// Attempts allowed: retries plus one.
    pub max_attempts: u64,
    /// Attempts run so far.
    pub attempts: u64,
    /// Whether the last attempt passed.
    pub passed: bool,
    /// Category of the outcome so far.
    pub category: Option<FailureCategory>,
    pub retry_delay_ms: u64,
}

/// The category after an attempt: none for a first-time pass, a flaky pass
/// for a later one, a runtime error for an errored attempt, else the
/// attempt's own reason.
pub open spec fn category_after(verdict: AttemptVerdict, attempt_index: nat) -> Option<FailureCategory> {
    match verdict {
        AttemptVerdict::Passed => if attempt_index > 0 { Some(FailureCategory::FlakyPass) } else { None },
        AttemptVerdict::Errored => Some(FailureCategory::RuntimeError),
        AttemptVerdict::Failed(c) => Some(c),
    }
}

impl RetryState {
    /// A scenario about to run its first attempt.
    pub fn new(retries: u32, retry_delay_ms: u64) -> (r: Self)
        ensures
            r.max_attempts == retries + 1,
            r.attempts == 0,
            !r.passed,
            r.category == Some(FailureCategory::AssertionFailed),
            r.retry_delay_ms == retry_delay_ms,
    {
        RetryState {
            max_attempts: retries as u64 + 1,
            attempts: 0,
            passed: false,
            category: Some(FailureCategory::AssertionFailed),
            retry_delay_ms,
        }
    }

    /// Records the outcome of the attempt just run and says what comes
    /// next: the scenario is decided once an attempt passes, the budget is
    /// exhausted, or no retry is left.
    pub fn record(&mut self, verdict: AttemptVerdict, budget_failed: bool) -> (r: RetryAction)
        requires
            old(self).attempts < old(self).max_attempts,
            old(self).max_attempts <= u32::MAX as u64 + 1,
        ensures
            (*final(self), r) == spec_record(*old(self), verdict, budget_failed),
            final(self).max_attempts == old(self).max_attempts,
            final(self).retry_delay_ms == old(self).retry_delay_ms,
            final(self).attempts == old(self).attempts + 1,
            final(self).passed == (verdict == AttemptVerdict::Passed),
            final(self).category == category_after(verdict, old(self).attempts as nat),
            (verdict == AttemptVerdict::Passed || budget_failed || final(self).attempts == final(self).max_attempts)
                ==> r == RetryAction::Finish,
            !(verdict == AttemptVerdict::Passed || budget_failed || final(self).attempts == final(self).max_attempts)
                ==> r == (RetryAction::Retry { attempt: final(self).attempts as u32, delay_ms: old(self).retry_delay_ms }),
    {
        let index = self.attempts;
        self.attempts = self.attempts + 1;
        match verdict {
            AttemptVerdict::Passed => {
                self.passed = true;
                self.category = if index > 0 { Some(FailureCategory::FlakyPass) } else { None };
                return RetryAction::Finish;
            },
            AttemptVerdict::Errored => {
                self.passed = false;
                self.category = Some(FailureCategory::RuntimeError);
            },
            AttemptVerdict::Failed(c) => {
                self.passed = false;
                self.category = Some(c);
            },
        }
        if budget_failed || self.attempts == self.max_attempts {
            RetryAction::Finish
        } else {
            RetryAction::Retry { attempt: self.attempts as u32, delay_ms: self.retry_delay_ms }
        }
    }

    /// Passed, but only after more than one attempt.
    pub fn flaky(&self) -> (b: bool)
        ensures
            b == (self.passed && self.attempts > 1),
    {
        self.passed && self.attempts > 1
    }
}

/// The state and action after recording an attempt (see
/// `RetryState::record`).
pub open spec fn spec_record(s: RetryState, verdict: AttemptVerdict, budget_failed: bool) -> (RetryState, RetryAction) {
    let n = RetryState {
        attempts: (s.attempts + 1) as u64,
        passed: verdict == AttemptVerdict::Passed,
        category: category_after(verdict, s.attempts as nat),
        ..s
    };
    let action = if verdict == AttemptVerdict::Passed || budget_failed || n.attempts == n.max_attempts {
        RetryAction::Finish
    } else {
        RetryAction::Retry { attempt: n.attempts as u32, delay_ms: s.retry_delay_ms }
    };
    (n, action)
}

/// The state in which a scenario ends when its attempts have the given
/// outcomes (verdict, budget exhausted), attempts being run until the
/// policy finishes.
pub open spec fn run_attempts(s: RetryState, outcomes: Seq<(AttemptVerdict, bool)>) -> RetryState
    decreases outcomes.len(),
{
    if outcomes.len() == 0 || s.attempts >= s.max_attempts {
        s
    } else {
        let (n, action) = spec_record(s, outcomes[0].0, outcomes[0].1);
        if action is Finish {
            n
        } else {
            run_attempts(n, outcomes.skip(1))
        }
    }
}

/// However attempts turn out, a scenario runs at most its retries plus one
/// attempts.
pub proof fn law_retries_bounded(s: RetryState, outcomes: Seq<(AttemptVerdict, bool)>)
    requires
        s.attempts <= s.max_attempts,
    ensures
        run_attempts(s, outcomes).attempts <= s.max_attempts,
        run_attempts(s, outcomes).max_attempts == s.max_attempts,
    decreases outcomes.len(),
{
    if outcomes.len() > 0 && s.attempts < s.max_attempts {
        let (n, action) = spec_record(s, outcomes[0].0, outcomes[0].1);
        if !(action is Finish) {
            law_retries_bounded(n, outcomes.skip(1));
        }
    }
}

/// Whether a finished scenario stops a fail-fast run.
pub fn stops_run(status: &ScenarioStatus, fail_fast: bool) -> (b: bool)
    ensures
        b == (fail_fast && (status is Failed || status is Error)),
{
    fail_fast && (status.is_failed() || status.is_error())
}

/// How an attempt goes on after a turn: a runtime error ends it in error,
/// a failed assertion ends it as failed (naming the turn from one), else
/// it goes on.
pub open spec fn spec_turn_outcome(index: nat, details: Seq<AssertionResultDetail>, runtime_error: Option<Seq<char>>) -> Option<(bool, Seq<char>)> {
    match runtime_error {
        Some(m) => Some((true, m)),
        None => if exists|i: int| 0 <= i < details.len() && !(#[trigger] details[i]).passed {
            Some((false, "turn "@ + decimal(index + 1) + " assertion failed"@))
        } else {
            None
        },
    }
}

/// The status that ends an attempt after the turn at `index`, if any: the
/// turn's runtime error, or its first failed assertion.
pub fn turn_outcome(index: usize, details: &Vec<AssertionResultDetail>, runtime_error: &Option<String>) -> (r: Option<ScenarioStatus>)
    requires
        index < usize::MAX,
    ensures
        match (r, spec_turn_outcome(index as nat, details@, runtime_error.deep_view())) {
            (None, None) => true,
            (Some(ScenarioStatus::Error { message }), Some((true, m))) => message@ == m,
            (Some(ScenarioStatus::Failed { reason }), Some((false, m))) => reason@ == m,
            _ => false,
        },
{
    let ghost rv = runtime_error.deep_view();
    if let Some(message) = runtime_error {
        return Some(ScenarioStatus::Error { message: message.clone() });
    }
    let mut i: usize = 0;
    while i < details.len()
        invariant
            i <= details@.len(),
            index < usize::MAX,
            rv is None,
            rv == runtime_error.deep_view(),
            forall|k: int| 0 <= k < i ==> details@[k].passed,
        decreases details@.len() - i,
    {
        if !details[i].passed {
            assert(!details@[i as int].passed);
            let mut reason = to_owned_string("turn ");
            let n = u64_to_decimal((index + 1) as u64);
            push_str(&mut reason, n.as_str());
            push_str(&mut reason, " assertion failed");
            assert(((index + 1) as u64) as nat == index as nat + 1);
            return Some(ScenarioStatus::Failed { reason });
        }
        i = i + 1;
    }
    None
}

/// What a reset step does to the running attempt.
#[derive(Clone, Copy, Debug, PartialEq, Eq, Structural)]
pub struct ResetPlan {
    /// Empty the attempt's workspace and create it again.
    pub wipe_workspace: bool,
    /// Keep the actor of the agent before the reset.
    pub keep_actor: bool,
    /// Only reset the conversation of the running agent; else build a new
    /// agent.
    pub reset_conversation_only: bool,
    /// Apply the suite's and scenario's context again; else only the
    /// attempt's runtime context.
    pub restore_host_context: bool,
}

/// The plan of a reset: persistence deleted or storage not preserved wipes
/// the workspace; a conversation reset that deletes no persistence keeps
/// the agent.
pub open spec fn spec_reset_plan(o: ResetOptions) -> ResetPlan {
    ResetPlan {
        wipe_workspace: o.delete_persistence || !o.preserve_storage,
        keep_actor: o.preserve_actor_id,
        reset_conversation_only: o.profile == ResetProfile::Conversation && !o.delete_persistence,
        restore_host_context: o.preserve_host_context,
    }
}

/// The plan of a reset with the given options.
pub fn reset_plan(options: &ResetOptions) -> (r: ResetPlan)
    ensures
        r == spec_reset_plan(*options),
{
    ResetPlan {
        wipe_workspace: options.delete_persistence || !options.preserve_storage,
        keep_actor: options.preserve_actor_id,
        reset_conversation_only: options.profile == ResetProfile::Conversation && !options.delete_persistence,
        restore_host_context: options.preserve_host_context,
    }
}

} // verus!
