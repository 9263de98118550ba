//! Evaluation suites: settings and their validation, scenario statuses and
//! failure categories, reset options, and redaction of recorded text.
use vstd::prelude::*;
use crate::text::{to_owned_string, push_str, str_eq, str_is_blank, trim_seq, chars_of, string_from_chars};
use crate::json::{JsonValue, JsonView, items_view, members_view, jv};

verus! {

/// Errors of the evaluation runner.
pub enum EvalError {
    Config(String),
    Runtime(String),
    Assertion(String),
    Judge(String),
    Io(String),
    Yaml(String),
    Json(String),
}

impl EvalError {
    /// The message of the error, prefixed by its kind.
    pub fn message(&self) -> (r: String)
        ensures
            r@ == eval_error_text(self),
    {
        let (prefix, text) = match self {
            EvalError::Config(m) => ("configuration error: ", m),
            EvalError::Runtime(m) => ("runtime error: ", m),
            EvalError::Assertion(m) => ("assertion failed: ", m),
            EvalError::Judge(m) => ("judge error: ", m),
            EvalError::Io(m) => ("io error: ", m),
            EvalError::Yaml(m) => ("yaml error: ", m),
            EvalError::Json(m) => ("json error: ", m),
        };
        let mut out = to_owned_string(prefix);
        push_str(&mut out, text.as_str());
        out
    }
}

/// The text of an evaluation error: its kind, a colon and its message.
pub open spec fn eval_error_text(e: &EvalError) -> Seq<char> {
    match e {
        EvalError::Config(m) => "configuration error: "@ + m@,
        EvalError::Runtime(m) => "runtime error: "@ + m@,
        EvalError::Assertion(m) => "assertion failed: "@ + m@,
        EvalError::Judge(m) => "judge error: "@ + m@,
        EvalError::Io(m) => "io error: "@ + m@,
        EvalError::Yaml(m) => "yaml error: "@ + m@,
        EvalError::Json(m) => "json error: "@ + m@,
    }
}

/// `r` failed with a configuration error whose message is `msg`.
pub open spec fn is_eval_config_error<T>(r: Result<T, EvalError>, msg: Seq<char>) -> bool {
    match r {
        Err(EvalError::Config(m)) => m@ == msg,
        _ => false,
    }
}

/// Final status of a scenario.
pub enum ScenarioStatus {
    Passed,
    Failed { reason: String },
    Skipped { reason: Option<String> },
    Error { message: String },
}

impl ScenarioStatus {
    pub fn is_passed(&self) -> (b: bool)
        ensures
            b == self is Passed,
    {
        match self {
            ScenarioStatus::Passed => true,
            _ => false,
        }
    }

    pub fn is_failed(&self) -> (b: bool)
        ensures
            b == self is Failed,
    {
        match self {
            ScenarioStatus::Failed { .. } => true,
            _ => false,
        }
    }

    pub fn is_error(&self) -> (b: bool)
        ensures
            b == self is Error,
    {
        match self {
            ScenarioStatus::Error { .. } => true,
            _ => false,
        }
    }
}

/// Why a scenario did not pass cleanly.
#[derive(Clone, Copy, Debug, PartialEq, Eq, Structural, Hash)]
pub enum FailureCategory {
    ConfigError,
    RuntimeError,
    AssertionFailed,
    JudgeError,
    FlakyPass,
}

/// The key of a failure category in reports.
pub open spec fn spec_category_key(c: FailureCategory) -> Seq<char> {
    match c {
        FailureCategory::ConfigError => "config_error"@,
        FailureCategory::RuntimeError => "runtime_error"@,
        FailureCategory::AssertionFailed => "assertion_failed"@,
        FailureCategory::JudgeError => "judge_error"@,
        FailureCategory::FlakyPass => "flaky_pass"@,
    }
}

/// The key of a failure category in reports.
pub fn category_key(category: &FailureCategory) -> (r: String)
    ensures
        r@ == spec_category_key(*category),
{
    let k = match category {
        FailureCategory::ConfigError => "config_error",
        FailureCategory::RuntimeError => "runtime_error",
        FailureCategory::AssertionFailed => "assertion_failed",
        FailureCategory::JudgeError => "judge_error",
        FailureCategory::FlakyPass => "flaky_pass",
    };
    to_owned_string(k)
}

/// Whether a scenario is skipped: a flag, or a reason (which skips).
pub enum SkipConfig {
    Bool(bool),
    Reason(String),
}

impl Default for SkipConfig {
    fn default() -> (r: Self)
        ensures
            r matches SkipConfig::Bool(b) && !b,
    {
        SkipConfig::Bool(false)
    }
}

impl SkipConfig {
    pub fn is_skipped(&self) -> (b: bool)
        ensures
            b == match self {
                SkipConfig::Bool(v) => *v,
                SkipConfig::Reason(_) => true,
            },
    {
        match self {
            SkipConfig::Bool(v) => *v,
            SkipConfig::Reason(_) => true,
        }
    }

    pub fn reason(&self) -> (r: Option<String>)
        ensures
            r.deep_view() == match self {
                SkipConfig::Bool(_) => None,
                SkipConfig::Reason(s) => Some(s@),
            },
    {
        match self {
            SkipConfig::Bool(_) => None,
            SkipConfig::Reason(s) => Some(s.clone()),
        }
    }
}

/// How much runtime state scenarios and turns share.
#[derive(Clone, Copy, Debug, PartialEq, Eq, Structural)]
pub enum IsolationMode {
    Turn,
    Scenario,
    Suite,
    /// No isolation at all (`none`).
    Off,
}

impl Default for IsolationMode {
    fn default() -> (r: Self)
        ensures
            r == IsolationMode::Scenario,
    {
        IsolationMode::Scenario
    }
}

/// Default timeout of one turn, in milliseconds.
pub fn default_turn_timeout() -> (n: u64)
    ensures
        n == 30000,
{
    30000
}

/// Default delay between retries, in milliseconds.
pub fn default_retry_delay() -> (n: u64)
    ensures
        n == 1000,
{
    1000
}

/// Default number of scenarios run at once.
pub fn default_max_concurrent() -> (n: usize)
    ensures
        n == 4,
{
    4
}

/// The default of every switch that is on unless configured.
pub fn default_true() -> (b: bool)
    ensures
        b,
{
    true
}

/// Execution settings of a suite. (The sampling temperature, a float, is
/// carried beside these by the runner.)
pub struct EvalSettings {
    pub seed: Option<u64>,
    pub timeout_per_turn_ms: u64,
    pub timeout_per_scenario_ms: Option<u64>,
    pub retries: u32,
    pub retry_delay_ms: u64,
    pub isolation: IsolationMode,
    pub parallel: bool,
    pub max_concurrent: usize,
    pub fail_fast: bool,
    pub redact_outputs: bool,
}

impl Default for EvalSettings {
    fn default() -> (r: Self)
        ensures
            r.seed is None,
            r.timeout_per_turn_ms == 30000,
            r.timeout_per_scenario_ms is None,
            r.retries == 0,
            r.retry_delay_ms == 1000,
            r.isolation == IsolationMode::Scenario,
            !r.parallel,
            r.max_concurrent == 4,
            !r.fail_fast,
            r.redact_outputs,
    {
        EvalSettings {
            seed: None,
            timeout_per_turn_ms: default_turn_timeout(),
            timeout_per_scenario_ms: None,
            retries: 0,
            retry_delay_ms: default_retry_delay(),
            isolation: IsolationMode::Scenario,
            parallel: false,
            max_concurrent: default_max_concurrent(),
            fail_fast: false,
            redact_outputs: default_true(),
        }
    }
}

/// What suite validation reads of a scenario.
pub struct ScenarioOutline {
    pub id: String,
    /// Whether the scenario sets environment variables.
    pub has_env: bool,
    pub skip: SkipConfig,
    pub turn_count: usize,
    pub step_count: usize,
}

/// What suite validation reads of a suite.
pub struct SuiteOutline {
    pub name: String,
    /// Whether the suite names its agent file.
    pub has_agent: bool,
    pub settings: EvalSettings,
    pub scenarios: Vec<ScenarioOutline>,
}

/// Whether a scenario is skipped.
pub open spec fn skipped(s: &ScenarioOutline) -> bool {
    match s.skip {
        SkipConfig::Bool(v) => v,
        SkipConfig::Reason(_) => true,
    }
}

/// Some scenario before position `i` has the same id as scenario `i`.
pub open spec fn repeats_earlier(s: Seq<ScenarioOutline>, i: int) -> bool {
    exists|j: int| 0 <= j < i && (#[trigger] s[j]).id@ == s[i].id@
}

/// The first problem of scenario `i`, if any: a blank id, an id seen
/// before, or no turns or steps in a scenario that is not skipped.
pub open spec fn scenario_problem(s: Seq<ScenarioOutline>, i: int) -> Option<Seq<char>> {
    if trim_seq(s[i].id@).len() == 0 {
        Some("scenario id must not be empty"@)
    } else if repeats_earlier(s, i) {
        Some("duplicate scenario id: "@ + s[i].id@)
    } else if !skipped(&s[i]) && s[i].turn_count == 0 && s[i].step_count == 0 {
        Some("scenario '"@ + s[i].id@ + "' must define turns or steps"@)
    } else {
        None
    }
}

/// The problem of the first scenario that has one, among those from `i` on.
pub open spec fn first_scenario_problem(s: Seq<ScenarioOutline>, i: int) -> Option<Seq<char>>
    decreases s.len() - i,
{
    if i < 0 || i >= s.len() {
        None
    } else if scenario_problem(s, i) is Some {
        scenario_problem(s, i)
    } else {
        first_scenario_problem(s, i + 1)
    }
}

/// The first problem of a suite, if any, in the order in which it is
/// checked.
pub open spec fn suite_problem(suite: &SuiteOutline, cli_agent: bool) -> Option<Seq<char>> {
    if trim_seq(suite.name@).len() == 0 {
        Some("eval suite name must not be empty"@)
    } else if !cli_agent && !suite.has_agent {
        Some("agent path is required in suite or CLI"@)
    } else if suite.settings.max_concurrent == 0 {
        Some("settings.max_concurrent must be greater than zero"@)
    } else if suite.settings.timeout_per_turn_ms == 0 {
        Some("settings.timeout_per_turn_ms must be greater than zero"@)
    } else if suite.settings.isolation == IsolationMode::Suite || suite.settings.isolation == IsolationMode::Off {
        Some("settings.isolation currently supports scenario or turn"@)
    } else if suite.settings.parallel && suite.settings.isolation != IsolationMode::Scenario {
        Some("settings.parallel currently requires isolation: scenario"@)
    } else if suite.settings.parallel && exists|i: int| 0 <= i < suite.scenarios@.len() && (#[trigger] suite.scenarios@[i]).has_env {
        Some("scenario.env cannot be used with parallel execution"@)
    } else {
        first_scenario_problem(suite.scenarios@, 0)
    }
}

impl SuiteOutline {
    /// Checks a suite before it runs; `cli_agent` says whether an agent
    /// file was given on the command line.
    #[verifier::loop_isolation(false)]
    pub fn validate(&self, cli_agent: bool) -> (r: Result<(), EvalError>)
        ensures
            suite_problem(self, cli_agent) is None ==> r is Ok,
            suite_problem(self, cli_agent) is Some ==> is_eval_config_error(r, suite_problem(self, cli_agent)->0),
    {
        if str_is_blank(self.name.as_str()) {
            return Err(EvalError::Config(to_owned_string("eval suite name must not be empty")));
        }
        if !cli_agent && !self.has_agent {
            return Err(EvalError::Config(to_owned_string("agent path is required in suite or CLI")));
        }
        if self.settings.max_concurrent == 0 {
            return Err(EvalError::Config(to_owned_string("settings.max_concurrent must be greater than zero")));
        }
        if self.settings.timeout_per_turn_ms == 0 {
            return Err(EvalError::Config(to_owned_string("settings.timeout_per_turn_ms must be greater than zero")));
        }
        if self.settings.isolation == IsolationMode::Suite || self.settings.isolation == IsolationMode::Off {
            return Err(EvalError::Config(to_owned_string("settings.isolation currently supports scenario or turn")));
        }
        if self.settings.parallel && self.settings.isolation != IsolationMode::Scenario {
            return Err(EvalError::Config(to_owned_string("settings.parallel currently requires isolation: scenario")));
        }
        let n = self.scenarios.len();
        if self.settings.parallel {
            let mut i: usize = 0;
            while i < n
                invariant
                    n == self.scenarios@.len(),
                    i <= n,
                    forall|k: int| 0 <= k < i ==> !(#[trigger] self.scenarios@[k]).has_env,
                decreases n - i,
            {
                if self.scenarios[i].has_env {
                    assert(self.scenarios@[i as int].has_env);
                    return Err(EvalError::Config(to_owned_string("scenario.env cannot be used with parallel execution")));
                }
                i = i + 1;
            }
        }
        let ghost s = self.scenarios@;
        let mut i: usize = 0;
        while i < n
            invariant
                n == s.len(),
                s == self.scenarios@,
                i <= n,
                first_scenario_problem(s, 0) == first_scenario_problem(s, i as int),
            decreases n - i,
        {
            let sc = &self.scenarios[i];
            if str_is_blank(sc.id.as_str()) {
                return Err(EvalError::Config(to_owned_string("scenario id must not be empty")));
            }
            let mut j: usize = 0;
            while j < i
                invariant
                    n == s.len(),
                    s == self.scenarios@,
                    i < n,
                    j <= i,
                    forall|k: int| 0 <= k < j ==> (#[trigger] s[k]).id@ != s[i as int].id@,
                decreases i - j,
            {
                if str_eq(self.scenarios[j].id.as_str(), self.scenarios[i].id.as_str()) {
                    let mut m = to_owned_string("duplicate scenario id: ");
                    push_str(&mut m, self.scenarios[i].id.as_str());
                    proof {
                        assert(repeats_earlier(s, i as int));
                    }
                    return Err(EvalError::Config(m));
                }
                j = j + 1;
            }
            if !sc.skip.is_skipped() && sc.turn_count == 0 && sc.step_count == 0 {
                let mut m = to_owned_string("scenario '");
                push_str(&mut m, sc.id.as_str());
                push_str(&mut m, "' must define turns or steps");
                return Err(EvalError::Config(m));
            }
            i = i + 1;
        }
        Ok(())
    }
}

/// Preset reset strategies.
#[derive(Clone, Copy, Debug, PartialEq, Eq, Structural)]
pub enum ResetProfile {
    Conversation,
    Session,
    FullRuntime,
    EvalAttempt,
    Persistence,
}

/// Default reset profile: the full runtime.
pub fn default_profile() -> (p: ResetProfile)
    ensures
        p == ResetProfile::FullRuntime,
{
    ResetProfile::FullRuntime
}

/// Options of a reset step.
#[derive(Clone, Copy, Debug, PartialEq, Eq, Structural)]
pub struct ResetOptions {
    pub profile: ResetProfile,
    pub preserve_host_context: bool,
    pub preserve_actor_id: bool,
    pub preserve_storage: bool,
    pub reset_spawner_registry: bool,
    pub reset_observability: bool,
    pub delete_persistence: bool,
}

/// The options a reset step has by default.
pub open spec fn default_reset_options() -> ResetOptions {
    ResetOptions {
        profile: ResetProfile::FullRuntime,
        preserve_host_context: false,
        preserve_actor_id: false,
        preserve_storage: true,
        reset_spawner_registry: true,
        reset_observability: true,
        delete_persistence: false,
    }
}

impl Default for ResetOptions {
    fn default() -> (r: Self)
        ensures
            r == default_reset_options(),
    {
        ResetOptions {
            profile: default_profile(),
            preserve_host_context: false,
            preserve_actor_id: false,
            preserve_storage: default_true(),
            reset_spawner_registry: default_true(),
            reset_observability: default_true(),
            delete_persistence: false,
        }
    }
}

/// A reset step: a flag, or options.
#[derive(Clone, Copy, Debug, PartialEq, Eq, Structural)]
pub enum ResetStepConfig {
    Bool(bool),
    Options(ResetOptions),
}

/// The options of a reset step: none when it is switched off, the
/// defaults when it is switched on.
pub fn reset_options(config: &ResetStepConfig) -> (r: Option<ResetOptions>)
    ensures
        r == match *config {
            ResetStepConfig::Bool(false) => None,
            ResetStepConfig::Bool(true) => Some(default_reset_options()),
            ResetStepConfig::Options(o) => Some(o),
        },
{
    match config {
        ResetStepConfig::Bool(false) => None,
        ResetStepConfig::Bool(true) => Some(ResetOptions::default()),
        ResetStepConfig::Options(o) => Some(*o),
    }
}

/// A recorded text and whether it was redacted.
pub struct RedactedString {
    pub value: String,
    pub redacted: bool,
}

impl RedactedString {
    /// A text kept as it is.
    pub fn plain(value: &str) -> (r: Self)
        ensures
            r.value@ == value@,
            !r.redacted,
    {
        RedactedString { value: to_owned_string(value), redacted: false }
    }

    /// A text already redacted.
    pub fn redacted(value: &str) -> (r: Self)
        ensures
            r.value@ == value@,
            r.redacted,
    {
        RedactedString { value: to_owned_string(value), redacted: true }
    }
}

/// The redacted form of a text: `[redacted]` when no character may be
/// shown, else its first `max_chars` characters, followed by `...` when
/// some were cut.
pub open spec fn redacted_text(text: Seq<char>, max_chars: nat) -> Seq<char> {
    if max_chars == 0 {
        "[redacted]"@
    } else if text.len() > max_chars {
        text.take(max_chars as int) + "..."@
    } else {
        text
    }
}

/// Redacts a text when `enabled`.
pub fn redact_text(text: &str, enabled: bool, max_chars: usize) -> (r: RedactedString)
    ensures
        !enabled ==> r.value@ == text@ && !r.redacted,
        enabled ==> r.value@ == redacted_text(text@, max_chars as nat) && r.redacted,
{
    if !enabled {
        return RedactedString::plain(text);
    }
    if max_chars == 0 {
        return RedactedString::redacted("[redacted]");
    }
    let chars = chars_of(text);
    if chars.len() > max_chars {
        let mut preview: Vec<char> = Vec::new();
        let mut i: usize = 0;
        while i < max_chars
            invariant
                i <= max_chars,
                max_chars < chars@.len(),
                preview@ == chars@.take(i as int),
            decreases max_chars - i,
        {
            preview.push(chars[i]);
            i = i + 1;
            assert(preview@ =~= chars@.take(i as int));
        }
        let mut out = string_from_chars(preview.as_slice());
        push_str(&mut out, "...");
        RedactedString { value: out, redacted: true }
    } else {
        RedactedString::redacted(text)
    }
}

/// A value with every string redacted, inside arrays and objects too.
pub open spec fn redacted_value(v: JsonView, max_chars: nat) -> JsonView
    decreases v, 0nat,
{
    match v {
        JsonView::Str(s) => JsonView::Str(redacted_text(s, max_chars)),
        JsonView::Array(items) => JsonView::Array(redacted_items(items, max_chars)),
        JsonView::Object(members) => JsonView::Object(redacted_members(members, max_chars)),
        other => other,
    }
}

/// Every item redacted.
pub open spec fn redacted_items(s: Seq<JsonView>, max_chars: nat) -> Seq<JsonView>
    decreases s, 1nat,
{
    if s.len() == 0 {
        Seq::empty()
    } else {
        redacted_items(s.drop_last(), max_chars).push(redacted_value(s.last(), max_chars))
    }
}

/// Every member value redacted, keys kept.
pub open spec fn redacted_members(s: Seq<(Seq<char>, JsonView)>, max_chars: nat) -> Seq<(Seq<char>, JsonView)>
    decreases s, 1nat,
{
    if s.len() == 0 {
        Seq::empty()
    } else {
        redacted_members(s.drop_last(), max_chars).push((s.last().0, redacted_value(s.last().1, max_chars)))
    }
}

fn redact_all(value: &JsonValue, max_chars: usize) -> (r: JsonValue)
    ensures
        r@ == redacted_value(value@, max_chars as nat),
    decreases value,
{
    match value {
        JsonValue::Str(s) => {
            let t = redact_text(s.as_str(), true, max_chars);
            JsonValue::Str(t.value)
        },
        JsonValue::Array(items) => {
            let ghost orig = items@;
            let mut out: Vec<JsonValue> = Vec::new();
            let mut k: usize = 0;
            assert(orig.take(0) =~= Seq::<JsonValue>::empty());
            proof {
                crate::json::lemma_items_view(items@);
            }
            while k < items.len()
                invariant
                    *value == JsonValue::Array(*items),
                    value@ == JsonView::Array(items_view(items@)),
                    forall|t: int| 0 <= t < items@.len() ==> #[trigger] items_view(items@)[t] == jv(&items@[t]),
                    orig == items@,
                    k <= orig.len(),
                    items_view(out@) == redacted_items(items_view(orig.take(k as int)), max_chars as nat),
                decreases orig.len() - k,
            {
                assert(0 <= k < items@.len());
                assert(items@[k as int] == orig[k as int]);
                assert(decreases_to!(value => items@[k as int]));
                let red = redact_all(&items[k], max_chars);
                let ghost before = out@;
                out.push(red);
                proof {
                    assert(out@.drop_last() =~= before);
                    let t = orig.take(k + 1);
                    assert(t.drop_last() =~= orig.take(k as int));
                    crate::json::lemma_items_view(t);
                    crate::json::lemma_items_view(t.drop_last());
                    assert(items_view(t).drop_last() =~= items_view(t.drop_last()));
                    assert(items_view(t).last() == jv(&orig[k as int]));
                }
                k = k + 1;
            }
            assert(orig.take(k as int) =~= orig);
            JsonValue::Array(out)
        },
        JsonValue::Object(members) => {
            let ghost orig = members@;
            let mut out: Vec<(String, JsonValue)> = Vec::new();
            let mut k: usize = 0;
            assert(orig.take(0) =~= Seq::<(String, JsonValue)>::empty());
            proof {
                crate::json::lemma_members_view(members@);
            }
            while k < members.len()
                invariant
                    *value == JsonValue::Object(*members),
                    value@ == JsonView::Object(members_view(members@)),
                    forall|t: int| 0 <= t < members@.len() ==> #[trigger] members_view(members@)[t] == (members@[t].0@, jv(&members@[t].1)),
                    orig == members@,
                    k <= orig.len(),
                    members_view(out@) == redacted_members(members_view(orig.take(k as int)), max_chars as nat),
                decreases orig.len() - k,
            {
                assert(0 <= k < members@.len());
                assert(members@[k as int] == orig[k as int]);
                assert(decreases_to!(value => members@[k as int].1));
                let red = redact_all(&members[k].1, max_chars);
                let key = members[k].0.clone();
                let ghost before = out@;
                out.push((key, red));
                proof {
                    assert(out@.drop_last() =~= before);
                    let t = orig.take(k + 1);
                    assert(t.drop_last() =~= orig.take(k as int));
                    crate::json::lemma_members_view(t);
                    crate::json::lemma_members_view(t.drop_last());
                    assert(members_view(t).drop_last() =~= members_view(t.drop_last()));
                    assert(members_view(t).last() == (orig[k as int].0@, jv(&orig[k as int].1)));
                }
                k = k + 1;
            }
            assert(orig.take(k as int) =~= orig);
            JsonValue::Object(out)
        },
        JsonValue::Null => JsonValue::Null,
        JsonValue::Bool(b) => JsonValue::Bool(*b),
        JsonValue::Number(n) => JsonValue::Number(*n),
    }
}

/// Redacts every string of a value when `enabled`.
pub fn redact_value(value: JsonValue, enabled: bool, max_chars: usize) -> (r: JsonValue)
    ensures
        !enabled ==> r == value,
        enabled ==> r@ == redacted_value(value@, max_chars as nat),
{
    if !enabled {
        return value;
    }
    redact_all(&value, max_chars)
}

} // verus!
