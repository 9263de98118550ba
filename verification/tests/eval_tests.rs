use ai_agents::assertion::{
    uses_response, judge_unscored, facts_judge_unscored, check_response_presence, check_expected_error, collect_agent_strings, disambiguation_matches, evaluate_assertion, evaluate_clauses, Assertion, AssertionOutcome,
    ExternalOutcomes,
    DisambiguationExpectation, OrchestrationAssertion, SecretAssertion, SimpleAssertion, StringList, TurnObservation,
};
use ai_agents::eval::{
    category_key, redact_text, redact_value, reset_options, EvalError, EvalSettings, FailureCategory, IsolationMode,
    ResetOptions, ResetProfile, ResetStepConfig, ScenarioOutline, ScenarioStatus, SkipConfig, SuiteOutline,
};
use ai_agents::eval_report::{
    select_or_refuse, skipped_result, scenario_result, attempt_timeout_error, StreamEvent, StreamFold,
    apply_runner_options, EvalRunnerOptions,
    authorize_llm_mode, count_results, error_result, escape_xml, failure_category_for_attempt, filtered_scenarios,
    render_junit, reset_plan, status_label, stops_run, turn_outcome, update_count, AssertionResultDetail, AttemptResult,
    AttemptVerdict, CountMetrics, ResetPlan, RetryAction, RetryState, ScenarioMeta, ScenarioResult,
    TurnResult,
};
use ai_agents::metrics::compute_metrics;
use ai_agents::eval::RedactedString;
use ai_agents::evidence::{
    apply_argument_changes, infer_disambiguation, infer_skill, ApprovalDecision, ApprovalEvidence,
    ApprovalResolvedOutcome, DisambiguationStatus, PersonaEvidence, SkillEvidence,
};
use ai_agents::fixtures::{
    plan_tools, ToolSlot,
    hash_request, header_value, interpolate_fixture_string, split_stream_content, AttemptFixtureContext, LlmFixtureConfig,
    LlmFixtureMode, LlmFixtureOutcome,
};
use ai_agents::hitl::{ApprovalRequest, ApprovalResult, ApprovalTrigger};
use ai_agents::json::{JsonNumber, JsonValue};
use ai_agents::budget::{
    estimate_chars, estimate_message_tokens, estimate_tool_usage, estimate_usage, reservation_for, stream_fallback_usage,
    upper_bound_message_tokens, BudgetLimits, BudgetUsage,
    CostVerdict, ReserveOutcome,
};
use ai_agents::chat::ChatMessage;
use ai_agents::json_path::{check_path_value, get_path, PathChecks, PathVerdict};
use ai_agents::tool_checks::{
    dimension_count, metadata_contains, select_tool_records, source_label, tool_count_holds, totals_within,
    DimensionCount, ObservabilityLimits, ObservabilityTotals, ToolCallFilter, ToolRecordSummary,
};
use ai_agents::evidence::ToolExecutionSource;
use ai_agents::memory_checks::{
    check_relationship, dimension_value, select_facts, FactsCheck, FactsSelection, RelationshipCheck,
    RelationshipEvidenceView, RelationshipVerdict,
};

fn s(x: &str) -> JsonValue {
    JsonValue::Str(x.to_string())
}

fn n(x: u64) -> JsonValue {
    JsonValue::Number(JsonNumber::PosInt(x))
}

fn obj(members: Vec<(&str, JsonValue)>) -> JsonValue {
    JsonValue::Object(members.into_iter().map(|(k, v)| (k.to_string(), v)).collect())
}

fn error_text(e: EvalError) -> String {
    e.message()
}

fn scenario(id: &str) -> ScenarioOutline {
    ScenarioOutline { id: id.to_string(), has_env: false, skip: SkipConfig::default(), turn_count: 1, step_count: 0 }
}

fn suite() -> SuiteOutline {
    SuiteOutline {
        name: "suite".to_string(),
        has_agent: true,
        settings: EvalSettings::default(),
        scenarios: vec![scenario("scenario-1")],
    }
}

#[test]
fn validation_accepts_minimal_suite() {
    assert!(suite().validate(false).is_ok());
}

#[test]
fn validation_rejects_duplicate_ids() {
    let mut suite = suite();
    suite.scenarios.push(scenario("scenario-1"));
    let error = error_text(suite.validate(false).err().unwrap());
    assert!(error.contains("duplicate scenario id"));
}

#[test]
fn validation_rejects_parallel_env() {
    let mut suite = suite();
    suite.settings.parallel = true;
    suite.scenarios[0].has_env = true;
    let error = error_text(suite.validate(false).err().unwrap());
    assert!(error.contains("scenario.env"));
}

#[test]
fn validation_checks_in_order() {
    let mut s1 = suite();
    s1.name = "   ".to_string();
    assert_eq!(error_text(s1.validate(true).err().unwrap()), "configuration error: eval suite name must not be empty");
    let mut s2 = suite();
    s2.has_agent = false;
    assert!(s2.validate(true).is_ok());
    assert!(error_text(s2.validate(false).err().unwrap()).contains("agent path is required"));
    let mut s3 = suite();
    s3.settings.isolation = IsolationMode::Off;
    assert!(error_text(s3.validate(false).err().unwrap()).contains("settings.isolation"));
    let mut s4 = suite();
    s4.settings.parallel = true;
    s4.settings.isolation = IsolationMode::Turn;
    assert!(error_text(s4.validate(false).err().unwrap()).contains("requires isolation: scenario"));
    let mut s5 = suite();
    s5.scenarios[0].turn_count = 0;
    assert_eq!(
        error_text(s5.validate(false).err().unwrap()),
        "configuration error: scenario 'scenario-1' must define turns or steps"
    );
    s5.scenarios[0].skip = SkipConfig::Reason("later".to_string());
    assert!(s5.validate(false).is_ok());
    let mut s6 = suite();
    s6.settings.max_concurrent = 0;
    assert!(error_text(s6.validate(false).err().unwrap()).contains("max_concurrent"));
}

#[test]
fn settings_defaults() {
    let s = EvalSettings::default();
    assert_eq!(s.timeout_per_turn_ms, 30000);
    assert_eq!(s.retry_delay_ms, 1000);
    assert_eq!(s.max_concurrent, 4);
    assert_eq!(s.isolation, IsolationMode::Scenario);
    assert!(s.redact_outputs);
}

#[test]
fn skip_config_reports_reason() {
    assert!(!SkipConfig::default().is_skipped());
    assert!(SkipConfig::Bool(true).is_skipped());
    assert_eq!(SkipConfig::Reason("flaky".to_string()).reason(), Some("flaky".to_string()));
    assert_eq!(SkipConfig::Bool(true).reason(), None);
}

#[test]
fn statuses_and_categories() {
    assert!(ScenarioStatus::Passed.is_passed());
    assert!(ScenarioStatus::Failed { reason: "x".to_string() }.is_failed());
    assert!(ScenarioStatus::Error { message: "x".to_string() }.is_error());
    assert_eq!(category_key(&FailureCategory::FlakyPass), "flaky_pass");
    assert_eq!(category_key(&FailureCategory::ConfigError), "config_error");
}

#[test]
fn reset_options_follow_the_step() {
    assert_eq!(reset_options(&ResetStepConfig::Bool(false)), None);
    let d = reset_options(&ResetStepConfig::Bool(true)).unwrap();
    assert_eq!(d, ResetOptions::default());
    assert_eq!(d.profile, ResetProfile::FullRuntime);
    assert!(d.preserve_storage && d.reset_spawner_registry && d.reset_observability);
    assert!(!d.delete_persistence);
    let custom = ResetOptions { profile: ResetProfile::Session, ..ResetOptions::default() };
    assert_eq!(reset_options(&ResetStepConfig::Options(custom)), Some(custom));
}

#[test]
fn redaction_of_text() {
    let plain = redact_text("secret", false, 2);
    assert_eq!(plain.value, "secret");
    assert!(!plain.redacted);
    assert_eq!(redact_text("secret", true, 0).value, "[redacted]");
    assert_eq!(redact_text("secret", true, 3).value, "sec...");
    assert_eq!(redact_text("abc", true, 3).value, "abc");
    assert_eq!(redact_text("héllo", true, 2).value, "hé...");
}

#[test]
fn redaction_of_values_reaches_nested_strings() {
    let v = obj(vec![("a", s("secret")), ("b", JsonValue::Array(vec![s("hidden"), n(3)]))]);
    let r = redact_value(v, true, 0);
    assert_eq!(r.get("a").and_then(|x| x.as_str()), Some("[redacted]"));
    match r.get("b") {
        Some(JsonValue::Array(items)) => {
            assert_eq!(items[0].as_str(), Some("[redacted]"));
            assert_eq!(items[1].as_u64(), Some(3));
        },
        _ => panic!("array expected"),
    }
    let kept = redact_value(s("keep"), false, 0);
    assert_eq!(kept.as_str(), Some("keep"));
}

fn turn(details: Vec<AssertionResultDetail>, latency: u64) -> TurnResult {
    TurnResult {
        index: 0,
        input: RedactedString::redacted("[redacted]"),
        response: RedactedString::redacted("[redacted]"),
        response_present: true,
        runtime_error: None,
        state: None,
        assertion_results: details,
        latency_ms: latency,
        observability_span_id: None,
    }
}

fn result(id: &str, status: ScenarioStatus) -> ScenarioResult {
    ScenarioResult {
        id: id.to_string(),
        name: None,
        tags: vec!["smoke".to_string()],
        language: Some("en".to_string()),
        status,
        failure_category: None,
        flaky: false,
        attempts: Vec::new(),
        duration_ms: 1,
        retries_used: 0,
    }
}

fn scenario_with_turn(id: &str, status: ScenarioStatus, latency: u64) -> ScenarioResult {
    let mut r = result(id, status);
    let detail = AssertionResultDetail::pass("response_not_empty", JsonValue::Bool(true), JsonValue::Bool(true));
    r.attempts = vec![AttemptResult {
        attempt: 0,
        turns: vec![turn(vec![detail], latency)],
        status: ScenarioStatus::Passed,
        duration_ms: latency,
    }];
    r.duration_ms = latency;
    r
}

fn entry<V: Copy>(entries: &[(String, V)], key: &str) -> V {
    entries.iter().find(|(k, _)| k == key).map(|(_, v)| *v).unwrap()
}

#[test]
fn computes_counts_and_latency() {
    let results = vec![
        scenario_with_turn("pass", ScenarioStatus::Passed, 10),
        scenario_with_turn("fail", ScenarioStatus::Failed { reason: "assertion".to_string() }, 30),
    ];
    let metrics = compute_metrics(&results);
    let counts = count_results(&results);
    assert_eq!(counts.passed as f64 / counts.total as f64, 0.5);
    assert_eq!(metrics.total_turns, 2);
    assert_eq!(metrics.latencies.iter().sum::<u64>() as f64 / metrics.latencies.len() as f64, 20.0);
    assert_eq!(entry(&metrics.by_tag, "smoke").total, 2);
    assert_eq!(entry(&metrics.by_language, "en").total, 2);
    assert_eq!(entry(&metrics.by_assertion, "response_not_empty").passed, 2);
    let mut by_tag = CountMetrics::default();
    for r in &results {
        update_count(&mut by_tag, &r.status);
    }
    assert_eq!(by_tag, CountMetrics { total: 2, passed: 1, failed: 1, skipped: 0 });
}

#[test]
fn retained_errored_turns_count_toward_latency() {
    let mut r = scenario_with_turn("error", ScenarioStatus::Error { message: "[redacted]".to_string() }, 25);
    r.attempts[0].turns[0].response_present = false;
    r.attempts[0].turns[0].runtime_error = Some(RedactedString::redacted("[redacted]"));
    let metrics = compute_metrics(&vec![r]);
    assert_eq!(metrics.errors, 1);
    assert_eq!(metrics.total_turns, 1);
    assert_eq!(metrics.latencies, vec![25]);
}

#[test]
fn metrics_group_by_category_and_count_flaky_passes() {
    let mut a = scenario_with_turn("a", ScenarioStatus::Passed, 5);
    a.flaky = true;
    a.failure_category = Some(FailureCategory::FlakyPass);
    a.tags = vec!["x".to_string(), "x".to_string()];
    let mut b = scenario_with_turn("b", ScenarioStatus::Skipped { reason: None }, 7);
    b.language = None;
    b.failure_category = Some(FailureCategory::FlakyPass);
    let metrics = compute_metrics(&vec![a, b]);
    assert_eq!(metrics.flaky, 1);
    assert_eq!(entry(&metrics.by_failure_category, "flaky_pass"), 2);
    assert_eq!(entry(&metrics.by_tag, "x"), CountMetrics { total: 2, passed: 2, failed: 0, skipped: 0 });
    assert_eq!(entry(&metrics.by_tag, "smoke"), CountMetrics { total: 1, passed: 0, failed: 0, skipped: 1 });
    assert_eq!(entry(&metrics.by_language, "en").total, 1);
    assert_eq!(metrics.latencies, vec![5, 7]);
}

#[test]
fn turn_outcomes_end_attempts() {
    let ok = vec![AssertionResultDetail::pass("state", JsonValue::Null, JsonValue::Null)];
    assert!(turn_outcome(0, &ok, &None).is_none());
    let failed = vec![
        AssertionResultDetail::pass("state", JsonValue::Null, JsonValue::Null),
        AssertionResultDetail::fail("response_contains", JsonValue::Null, JsonValue::Null, "assertion failed"),
    ];
    match turn_outcome(2, &failed, &None) {
        Some(ScenarioStatus::Failed { reason }) => assert_eq!(reason, "turn 3 assertion failed"),
        _ => panic!("a failed clause fails the attempt"),
    }
    match turn_outcome(0, &failed, &Some("boom".to_string())) {
        Some(ScenarioStatus::Error { message }) => assert_eq!(message, "boom"),
        _ => panic!("a runtime error ends the attempt in error"),
    }
}

#[test]
fn reset_plans_follow_their_options() {
    let defaults = ResetOptions::default();
    let plan = reset_plan(&defaults);
    assert_eq!(
        plan,
        ResetPlan { wipe_workspace: false, keep_actor: false, reset_conversation_only: false, restore_host_context: false }
    );
    let conversation = ResetOptions { profile: ResetProfile::Conversation, preserve_storage: false, ..defaults };
    let plan = reset_plan(&conversation);
    assert!(plan.wipe_workspace);
    assert!(plan.reset_conversation_only);
    let wipe = ResetOptions { delete_persistence: true, ..conversation };
    assert!(!reset_plan(&wipe).reset_conversation_only);
}

#[test]
fn labels_and_xml() {
    assert_eq!(status_label(&ScenarioStatus::Passed), "passed");
    assert_eq!(status_label(&ScenarioStatus::Skipped { reason: None }), "skipped: skipped");
    assert_eq!(status_label(&ScenarioStatus::Failed { reason: "bad".to_string() }), "failed: bad");
    assert_eq!(escape_xml("a<b>&\"c\""), "a&lt;b&gt;&amp;&quot;c&quot;");
}

#[test]
fn junit_report_lists_scenarios() {
    let results = vec![
        result("ok", ScenarioStatus::Passed),
        result("x<y", ScenarioStatus::Error { message: "boom".to_string() }),
    ];
    let xml = render_junit("suite", 2, 1, 0, &results);
    assert_eq!(
        xml,
        "<testsuite name=\"suite\" tests=\"2\" failures=\"1\" skipped=\"0\">\n  <testcase name=\"ok\">\n  </testcase>\n  <testcase name=\"x&lt;y\">\n    <error message=\"boom\" />\n  </testcase>\n</testsuite>\n"
    );
}

#[test]
fn judge_failures_are_categorised() {
    let judge = AssertionResultDetail::fail("judge", JsonValue::Null, JsonValue::Null, "judge failed");
    let other = AssertionResultDetail::fail("state", JsonValue::Null, JsonValue::Null, "assertion failed");
    let a = AttemptResult { attempt: 0, turns: vec![turn(vec![other, judge], 1)], status: ScenarioStatus::Passed, duration_ms: 1 };
    assert_eq!(failure_category_for_attempt(&a), FailureCategory::JudgeError);
    let b = AttemptResult { attempt: 0, turns: vec![turn(Vec::new(), 1)], status: ScenarioStatus::Passed, duration_ms: 1 };
    assert_eq!(failure_category_for_attempt(&b), FailureCategory::AssertionFailed);
}

fn meta(id: &str, tags: &[&str], language: Option<&str>) -> ScenarioMeta {
    ScenarioMeta {
        id: id.to_string(),
        name: None,
        tags: tags.iter().map(|t| t.to_string()).collect(),
        language: language.map(|l| l.to_string()),
    }
}

#[test]
fn scenario_filters() {
    let all = vec![meta("a", &["smoke", "fast"], Some("en")), meta("b", &["smoke"], Some("ko")), meta("c", &[], None)];
    let none: Vec<String> = Vec::new();
    assert_eq!(filtered_scenarios(&all, &none, &none, &none, false), vec![0, 1, 2]);
    assert_eq!(filtered_scenarios(&all, &vec!["b".to_string()], &none, &none, false), vec![1]);
    assert_eq!(filtered_scenarios(&all, &none, &none, &vec!["en".to_string()], false), vec![0]);
    let tags = vec!["smoke".to_string(), "fast".to_string()];
    assert_eq!(filtered_scenarios(&all, &none, &tags, &none, false), vec![0, 1]);
    assert_eq!(filtered_scenarios(&all, &none, &tags, &none, true), vec![0]);
}

#[test]
fn real_and_record_modes_require_explicit_authorization() {
    assert!(authorize_llm_mode(LlmFixtureMode::Mock, None).is_ok());
    assert!(authorize_llm_mode(LlmFixtureMode::Replay, None).is_ok());
    assert!(authorize_llm_mode(LlmFixtureMode::Real, Some(LlmFixtureMode::Real)).is_ok());
    let real = error_text(authorize_llm_mode(LlmFixtureMode::Real, None).err().unwrap());
    assert!(real.contains("--real-llm"));
    let record = error_text(authorize_llm_mode(LlmFixtureMode::Record, None).err().unwrap());
    assert!(record.contains("--record"));
}

#[test]
fn error_results_carry_the_error_text() {
    let r = error_result(&meta("s", &["t"], None), &EvalError::Runtime("boom".to_string()), FailureCategory::RuntimeError);
    assert!(matches!(r.status, ScenarioStatus::Error { ref message } if message == "runtime error: boom"));
    assert_eq!(r.tags, vec!["t".to_string()]);
    assert_eq!(r.failure_category, Some(FailureCategory::RuntimeError));
}

#[test]
fn retries_stop_on_pass_or_when_exhausted() {
    let mut st = RetryState::new(2, 10);
    assert_eq!(st.record(AttemptVerdict::Failed(FailureCategory::AssertionFailed), false), RetryAction::Retry { attempt: 1, delay_ms: 10 });
    assert_eq!(st.record(AttemptVerdict::Passed, false), RetryAction::Finish);
    assert!(st.flaky());
    assert_eq!(st.category, Some(FailureCategory::FlakyPass));
    let mut st = RetryState::new(1, 0);
    assert_eq!(st.record(AttemptVerdict::Errored, false), RetryAction::Retry { attempt: 1, delay_ms: 0 });
    assert_eq!(st.record(AttemptVerdict::Errored, false), RetryAction::Finish);
    assert_eq!(st.attempts, 2);
    assert_eq!(st.category, Some(FailureCategory::RuntimeError));
    let mut st = RetryState::new(5, 0);
    assert_eq!(st.record(AttemptVerdict::Failed(FailureCategory::JudgeError), true), RetryAction::Finish);
    let mut st = RetryState::new(0, 0);
    assert_eq!(st.record(AttemptVerdict::Passed, false), RetryAction::Finish);
    assert!(!st.flaky());
    assert_eq!(st.category, None);
    assert!(stops_run(&ScenarioStatus::Error { message: String::new() }, true));
    assert!(!stops_run(&ScenarioStatus::Passed, true));
}

#[test]
fn normalizes_modified_approval_and_keeps_sensitive_values_in_memory() {
    let args = obj(vec![("amount", n(100)), ("currency", s("USD"))]);
    let request = ApprovalRequest::new(ApprovalTrigger::tool("transfer", args), "Approve this transfer?");
    let changes = vec![("amount".to_string(), n(25))];
    let raw = ApprovalResult::modified(vec![("amount".to_string(), n(25))]);
    let evidence = ApprovalEvidence::from_resolution(&request, &raw, &ApprovalResolvedOutcome::Modified { changes });
    assert_eq!(evidence.raw_decision, ApprovalDecision::Modified);
    assert_eq!(evidence.effective_decision, ApprovalDecision::Modified);
    let original = evidence.original_args.as_ref().unwrap();
    assert_eq!(original.get("amount").and_then(|v| v.as_u64()), Some(100));
    let modified = evidence.modified_args.as_ref().unwrap();
    assert_eq!(modified.get("amount").and_then(|v| v.as_u64()), Some(25));
    assert_eq!(modified.get("currency").and_then(|v| v.as_str()), Some("USD"));
    let effective = evidence.effective_args.as_ref().unwrap();
    assert_eq!(effective.get("amount").and_then(|v| v.as_u64()), Some(25));
    assert_eq!(evidence.message, "Approve this transfer?");
}

#[test]
fn normalizes_timeout_to_effective_error_without_executable_arguments() {
    let request = ApprovalRequest::new(ApprovalTrigger::tool("delete", obj(vec![("path", s("/private"))])), "Delete file?");
    let evidence = ApprovalEvidence::from_resolution(
        &request,
        &ApprovalResult::timeout(),
        &ApprovalResolvedOutcome::Error { message: "approval timed out".to_string() },
    );
    assert_eq!(evidence.raw_decision, ApprovalDecision::Timeout);
    assert_eq!(evidence.effective_decision, ApprovalDecision::Error);
    assert_eq!(evidence.error.as_deref(), Some("approval timed out"));
    assert!(evidence.effective_args.is_none());
}

#[test]
fn argument_changes_replace_or_add_members() {
    let original = obj(vec![("a", n(1)), ("b", n(2))]);
    let changed = apply_argument_changes(&original, &vec![("b".to_string(), n(5)), ("c".to_string(), n(7))]);
    match changed {
        JsonValue::Object(m) => {
            let keys: Vec<&str> = m.iter().map(|(k, _)| k.as_str()).collect();
            assert_eq!(keys, vec!["a", "b", "c"]);
            assert_eq!(m[1].1.as_u64(), Some(5));
        },
        _ => panic!("object expected"),
    }
    let not_object = apply_argument_changes(&s("x"), &vec![("k".to_string(), n(1))]);
    assert_eq!(not_object.get("k").and_then(|v| v.as_u64()), Some(1));
}

#[test]
fn disambiguation_and_skill_are_inferred() {
    let meta_v = obj(vec![("disambiguation", obj(vec![("status", s("best_guess")), ("skill_id", s("refund"))]))]);
    let status = infer_disambiguation(Some(&meta_v), &JsonValue::Null);
    assert_eq!(status, Some(DisambiguationStatus::BestGuess));
    let skill = infer_skill(Some(&meta_v), status).unwrap();
    assert_eq!(skill.selected_skill_id.as_deref(), Some("refund"));
    assert!(!skill.clarification_requested);
    let unknown = obj(vec![("disambiguation", obj(vec![("status", s("odd"))]))]);
    assert_eq!(infer_disambiguation(Some(&unknown), &JsonValue::Null), Some(DisambiguationStatus::Triggered));
    let ctx = obj(vec![("disambiguation", obj(vec![("resolved", JsonValue::Bool(true))]))]);
    assert_eq!(infer_disambiguation(None, &ctx), Some(DisambiguationStatus::Clarified));
    assert_eq!(infer_disambiguation(None, &JsonValue::Null), None);
    assert!(infer_skill(None, None).is_none());
}

fn to_json(v: &serde_json::Value) -> JsonValue {
    match v {
        serde_json::Value::Null => JsonValue::Null,
        serde_json::Value::Bool(b) => JsonValue::Bool(*b),
        serde_json::Value::Number(x) => {
            if let Some(u) = x.as_u64() {
                JsonValue::Number(JsonNumber::PosInt(u))
            } else if let Some(i) = x.as_i64() {
                JsonValue::Number(JsonNumber::NegInt(i))
            } else {
                JsonValue::Number(JsonNumber::Float(x.as_f64().unwrap().to_bits()))
            }
        }
        serde_json::Value::String(t) => JsonValue::Str(t.clone()),
        serde_json::Value::Array(items) => JsonValue::Array(items.iter().map(to_json).collect()),
        serde_json::Value::Object(m) => JsonValue::Object(m.iter().map(|(k, v)| (k.clone(), to_json(v))).collect()),
    }
}

fn from_json(v: &JsonValue) -> serde_json::Value {
    match v {
        JsonValue::Null => serde_json::Value::Null,
        JsonValue::Bool(b) => serde_json::Value::Bool(*b),
        JsonValue::Number(JsonNumber::PosInt(u)) => serde_json::Value::Number((*u).into()),
        JsonValue::Number(JsonNumber::NegInt(i)) => serde_json::Value::Number((*i).into()),
        JsonValue::Number(JsonNumber::Float(bits)) => {
            serde_json::Value::Number(serde_json::Number::from_f64(f64::from_bits(*bits)).unwrap())
        }
        JsonValue::Str(t) => serde_json::Value::String(t.clone()),
        JsonValue::Array(items) => serde_json::Value::Array(items.iter().map(from_json).collect()),
        JsonValue::Object(m) => serde_json::Value::Object(m.iter().map(|(k, v)| (k.clone(), from_json(v))).collect()),
    }
}

fn parse_json(text: &String) -> Option<JsonValue> {
    serde_json::from_str::<serde_json::Value>(text).ok().map(|v| to_json(&v))
}

fn write_json(value: &JsonValue) -> String {
    serde_json::to_string(&from_json(value)).unwrap()
}

#[test]
fn attempt_context_interpolates_only_exact_tokens_json_safely() {
    let context = AttemptFixtureContext {
        isolation_id: "attempt-one".to_string(),
        workspace: r"C:\eval\attempt".to_string(),
        mock_server_base_url: Some("http://127.0.0.1:43123".to_string()),
    };
    let config = LlmFixtureConfig {
        mode: LlmFixtureMode::Mock,
        responses: vec![
            r#"{"{{ eval.workspace }}":{"workspace":"{{ eval.workspace }}"},"nested":{"workspace":"{{ eval.workspace }}"},"items":["{{ mock_server.base_url }}/ok",7]}"#.to_string(),
            "keep {{ unrelated.template }} and {{eval.workspace}}".to_string(),
        ],
        responses_by_alias: vec![("worker".to_string(), vec!["write to {{ eval.workspace }}".to_string()])],
        outcomes_by_alias: vec![(
            "critic".to_string(),
            vec![
                LlmFixtureOutcome::Error { message: "keep {{ eval.workspace }} literal".to_string(), status: None },
                LlmFixtureOutcome::Response { content: "review {{ eval.workspace }}".to_string() },
            ],
        )],
        ..Default::default()
    };

    let rewritten = context.interpolate_llm_fixture(&config, &parse_json, &write_json).ok().unwrap();
    let json: serde_json::Value = serde_json::from_str(&rewritten.responses[0]).unwrap();
    assert_eq!(json["nested"]["workspace"], serde_json::Value::String(r"C:\eval\attempt".to_string()));
    assert!(json.get(r"C:\eval\attempt").is_some());
    assert_eq!(json["items"][0], serde_json::Value::String("http://127.0.0.1:43123/ok".to_string()));
    assert_eq!(rewritten.responses[1], "keep {{ unrelated.template }} and {{eval.workspace}}");
    assert_eq!(rewritten.responses_by_alias[0].0, "worker");
    assert_eq!(rewritten.responses_by_alias[0].1[0], r"write to C:\eval\attempt");
    assert_eq!(rewritten.outcomes_by_alias[0].0, "critic");
    assert!(matches!(
        &rewritten.outcomes_by_alias[0].1[0],
        LlmFixtureOutcome::Error { message, status: None } if message == "keep {{ eval.workspace }} literal"
    ));
    assert!(matches!(
        &rewritten.outcomes_by_alias[0].1[1],
        LlmFixtureOutcome::Response { content } if content == r"review C:\eval\attempt"
    ));
}

#[test]
fn attempt_context_rejects_mock_server_token_without_server() {
    let context = AttemptFixtureContext {
        isolation_id: "attempt-one".to_string(),
        workspace: "/tmp/attempt-one".to_string(),
        mock_server_base_url: None,
    };
    let config = LlmFixtureConfig {
        mode: LlmFixtureMode::Mock,
        responses: vec!["{{ mock_server.base_url }}/missing".to_string()],
        ..Default::default()
    };
    let error = context.interpolate_llm_fixture(&config, &parse_json, &write_json).err().unwrap();
    assert!(error_text(error).contains("without an enabled fixtures.mock_server"));
}

#[test]
fn scripted_outcomes_name_the_mock_server_only_when_it_runs() {
    let without = AttemptFixtureContext {
        isolation_id: "a".to_string(),
        workspace: "/w".to_string(),
        mock_server_base_url: None,
    };
    let config = LlmFixtureConfig {
        outcomes_by_alias: vec![(
            "x".to_string(),
            vec![
                LlmFixtureOutcome::Error { message: "{{ mock_server.base_url }} in an error is kept".to_string(), status: Some(503) },
                LlmFixtureOutcome::Response { content: "{{ mock_server.base_url }}/call".to_string() },
            ],
        )],
        delays_by_alias: vec![("x".to_string(), 5)],
        errors_by_alias: vec![("y".to_string(), "down".to_string())],
        ..Default::default()
    };
    assert!(without.interpolate_llm_fixture(&config, &parse_json, &write_json).is_err());
    let with = AttemptFixtureContext { mock_server_base_url: Some("http://m".to_string()), ..without };
    let rewritten = with.interpolate_llm_fixture(&config, &parse_json, &write_json).ok().unwrap();
    assert!(matches!(
        &rewritten.outcomes_by_alias[0].1[0],
        LlmFixtureOutcome::Error { message, status: Some(503) } if message == "{{ mock_server.base_url }} in an error is kept"
    ));
    assert!(matches!(
        &rewritten.outcomes_by_alias[0].1[1],
        LlmFixtureOutcome::Response { content } if content == "http://m/call"
    ));
    assert_eq!(rewritten.delays_by_alias, vec![("x".to_string(), 5)]);
    assert_eq!(rewritten.errors_by_alias, vec![("y".to_string(), "down".to_string())]);
}

#[test]
fn runtime_context_exposes_workspace_and_server() {
    let context = AttemptFixtureContext {
        isolation_id: "i".to_string(),
        workspace: "/w".to_string(),
        mock_server_base_url: Some("http://m".to_string()),
    };
    let values = context.runtime_context();
    assert_eq!(values.len(), 2);
    assert_eq!(values[0].1.get("workspace").and_then(|v| v.as_str()), Some("/w"));
    assert_eq!(values[1].1.get("base_url").and_then(|v| v.as_str()), Some("http://m"));
}

#[test]
fn fixture_strings_fill_placeholders() {
    assert_eq!(interpolate_fixture_string("{{ eval.workspace }}/x {{ mock_server.base_url }}", "/w", None), "/w/x {{ mock_server.base_url }}");
    assert_eq!(interpolate_fixture_string("{{ mock_server.base_url }}", "/w", Some("http://m")), "http://m");
}

#[test]
fn stream_content_splits_on_words() {
    let chunks = split_stream_content("Streaming hello from the mocked provider.");
    assert!(chunks.len() > 1);
    assert_eq!(chunks[1], " hello");
    assert_eq!(chunks.join(""), "Streaming hello from the mocked provider.");
}

#[test]
fn mock_streaming_splits_single_word_response() {
    let chunks = split_stream_content("Hello");
    assert!(chunks.len() > 1);
    assert_eq!(chunks.join(""), "Hello");
}

#[test]
fn stream_chunks_of_short_and_empty_texts() {
    assert!(split_stream_content("").is_empty());
    assert_eq!(split_stream_content("a"), vec!["a".to_string()]);
    assert_eq!(split_stream_content("abcdefghij"), vec!["abcd", "efgh", "ij"]);
    assert_eq!(split_stream_content("abc"), vec!["ab", "c"]);
}

#[test]
fn headers_match_without_case() {
    let headers = vec![("Content-Type".to_string(), "text/plain".to_string())];
    assert_eq!(header_value(&headers, "content-type"), Some("text/plain"));
    assert_eq!(header_value(&headers, "accept"), None);
}

#[test]
fn request_hashes_are_sha256_hex() {
    assert_eq!(hash_request(b"abc"), "sha256-v1:ba7816bf8f01cfea414140de5dae2223b00361a396177a9cb410ff61f20015ad");
}

fn observation() -> TurnObservation {
    TurnObservation {
        state: Some("greeting".to_string()),
        state_history: vec![("start".to_string(), "greeting".to_string())],
        disambiguation: None,
        tool_calls: vec![("lookup_order".to_string(), "lookup".to_string())],
        skill: Some(SkillEvidence { selected_skill_id: Some("refund".to_string()), executed_skill_id: None, no_match: false, clarification_requested: false }),
        persona: Some(PersonaEvidence { secret_revealed: true, revealed_secret_ids: vec!["s1".to_string()], revealed_secret_count: 1, evolution_events: 0 }),
        orchestration: Some(obj(vec![
            ("type", s("pipeline")),
            ("final_agent", s("editor")),
            ("stages", JsonValue::Array(vec![obj(vec![("agent", s("writer"))]), obj(vec![("agent", s("editor"))])])),
        ])),
    }
}

fn empty_simple() -> SimpleAssertion {
    SimpleAssertion {
        state: None,
        state_in: None,
        state_not: None,
        state_history_contains: None,
        response_contains: None,
        response_contains_any: None,
        response_not_contains: None,
        response_not_empty: None,
        disambiguation: None,
        no_disambiguation: None,
        tool_not_called: None,
        skill_triggered: None,
        persona_secret_revealed: None,
        orchestration: None,
        response_judged: false,
        external: ExternalOutcomes::none(),
    }
}

fn leaf(simple: SimpleAssertion) -> Assertion {
    Assertion { simple, all: None, any: None, not: None }
}

#[test]
fn evaluates_structured_assertions() {
    let mut simple = empty_simple();
    simple.state = Some("greeting".to_string());
    simple.state_history_contains = Some("start".to_string());
    simple.response_contains = Some(StringList::Many(vec!["Hello".to_string(), "there".to_string()]));
    simple.response_not_empty = Some(true);
    simple.tool_not_called = Some("delete".to_string());
    simple.skill_triggered = Some("refund".to_string());
    simple.persona_secret_revealed = Some(SecretAssertion::Id("s1".to_string()));
    simple.no_disambiguation = Some(true);
    simple.orchestration = Some(OrchestrationAssertion {
        pattern: Some("pipeline".to_string()),
        kind: None,
        final_agent_in: Some(vec!["editor".to_string()]),
        agents_include: Some(vec!["writer".to_string(), "editor".to_string()]),
        stages: Some(2),
    });
    match evaluate_assertion(&leaf(simple), &observation(), "Hello there") {
        AssertionOutcome::Passed(details) => {
            assert_eq!(details.len(), 10);
            assert!(details.iter().all(|d| d.passed));
        },
        _ => panic!("assertion should pass"),
    }
}

#[test]
fn failing_clauses_and_combinators() {
    let mut wrong = empty_simple();
    wrong.tool_not_called = Some("lookup".to_string());
    let mut right = empty_simple();
    right.response_contains_any = Some(StringList::One("there".to_string()));
    let any = Assertion { simple: empty_simple(), all: None, any: Some(vec![leaf(wrong), leaf(right)]), not: None };
    match evaluate_assertion(&any, &observation(), "Hello there") {
        AssertionOutcome::Passed(details) => {
            assert_eq!(details.last().unwrap().assertion, "any");
        },
        _ => panic!("any should pass"),
    }
    let mut bad = empty_simple();
    bad.state_not = Some("greeting".to_string());
    let not = Assertion { simple: empty_simple(), all: None, any: None, not: Some(Box::new(leaf(bad))) };
    assert!(matches!(evaluate_assertion(&not, &observation(), "x"), AssertionOutcome::Passed(_)));
    let mut bad2 = empty_simple();
    bad2.response_not_contains = Some(StringList::One("Hello".to_string()));
    let all = Assertion { simple: empty_simple(), all: Some(vec![leaf(bad2)]), any: None, not: None };
    match evaluate_assertion(&all, &observation(), "Hello") {
        AssertionOutcome::Failed(details) => assert_eq!(details.len(), 1),
        _ => panic!("all should fail"),
    }
}

#[test]
fn passing_any_child_still_checks_not_and_clauses() {
    let both = Assertion {
        simple: empty_simple(),
        all: None,
        any: Some(vec![leaf(empty_simple())]),
        not: Some(Box::new(leaf(empty_simple()))),
    };
    match evaluate_assertion(&both, &observation(), "Hello") {
        AssertionOutcome::Failed(details) => {
            let names: Vec<&str> = details.iter().map(|d| d.assertion.as_str()).collect();
            assert_eq!(names, vec!["any", "not"]);
            assert!(details[0].passed);
            assert!(!details[1].passed);
            assert_eq!(details[1].message.as_deref(), Some("child assertion passed"));
        },
        _ => panic!("a passing not child fails the assertion"),
    }
    let mut blank = empty_simple();
    blank.response_not_empty = Some(true);
    let with_clause = Assertion { simple: blank, all: None, any: Some(vec![leaf(empty_simple())]), not: None };
    match evaluate_assertion(&with_clause, &observation(), "  ") {
        AssertionOutcome::Failed(details) => {
            let names: Vec<&str> = details.iter().map(|d| d.assertion.as_str()).collect();
            assert_eq!(names, vec!["any", "response_not_empty"]);
        },
        _ => panic!("a failing clause fails the assertion"),
    }
}

#[test]
fn clause_details_carry_actual_and_expected() {
    let mut simple = empty_simple();
    simple.response_not_empty = Some(true);
    let mut details = Vec::new();
    evaluate_clauses(&simple, &observation(), " ", &mut details);
    assert_eq!(details.len(), 1);
    assert_eq!(details[0].assertion, "response_not_empty");
    assert!(!details[0].passed);
    assert!(matches!(&details[0].actual, JsonValue::Str(t) if t == " "));
    assert!(matches!(details[0].expected, JsonValue::Bool(true)));
    assert_eq!(details[0].message.as_deref(), Some("assertion failed"));

    let mut listed = empty_simple();
    listed.response_contains = Some(StringList::Many(vec!["Hello".to_string(), "bye".to_string()]));
    listed.no_disambiguation = Some(true);
    let mut details = Vec::new();
    evaluate_clauses(&listed, &observation(), "Hello there", &mut details);
    assert_eq!(details.len(), 3);
    assert!(details[0].passed);
    assert!(matches!(&details[0].expected, JsonValue::Str(t) if t == "Hello"));
    assert!(matches!(&details[0].actual, JsonValue::Str(t) if t == "Hello there"));
    assert!(!details[1].passed);
    assert!(matches!(&details[1].expected, JsonValue::Str(t) if t == "bye"));
    assert_eq!(details[2].assertion, "no_disambiguation");
    assert!(details[2].message.is_none());
}

#[test]
fn missing_response_fails_response_assertions() {
    let mut reads = empty_simple();
    reads.response_contains = Some(StringList::One("hi".to_string()));
    let reading = leaf(reads);
    let mut details = Vec::new();
    check_response_presence(&mut details, Some(&reading), false);
    assert_eq!(details.len(), 1);
    assert_eq!(details[0].assertion, "response_present");
    assert!(!details[0].passed);
    assert_eq!(details[0].message.as_deref(), Some("response assertions require a runtime response"));
    let mut details = Vec::new();
    check_response_presence(&mut details, Some(&reading), true);
    assert!(details.is_empty());
    let mut state_only = empty_simple();
    state_only.state = Some("greeting".to_string());
    check_response_presence(&mut details, Some(&leaf(state_only)), false);
    check_response_presence(&mut details, None, false);
    assert!(details.is_empty());
}

#[test]
fn expected_runtime_errors() {
    let expected = StringList::Many(vec!["timeout".to_string(), "provider exploded".to_string()]);
    let error = "mock provider exploded".to_string();
    let mut details = Vec::new();
    assert_eq!(check_expected_error(&mut details, Some(&expected), Some(&error)), None);
    assert_eq!(details[0].assertion, "expect_error");
    assert!(details[0].passed);

    let other = StringList::One("permission denied".to_string());
    let mut details = Vec::new();
    let left = check_expected_error(&mut details, Some(&other), Some(&error));
    assert_eq!(left.as_deref(), Some("runtime error did not match expect_error: mock provider exploded"));
    assert!(!details[0].passed);

    let mut details = Vec::new();
    assert_eq!(check_expected_error(&mut details, Some(&StringList::One("timeout".to_string())), None), None);
    assert!(!details[0].passed);
    assert!(matches!(details[0].actual, JsonValue::Null));
    assert_eq!(details[0].message.as_deref(), Some("expected a runtime error but the turn completed"));

    let mut details = Vec::new();
    assert_eq!(check_expected_error(&mut details, None, Some(&error)), Some(error.clone()));
    assert_eq!(check_expected_error(&mut details, None, None), None);
    assert!(details.is_empty());
}

#[test]
fn clauses_append_in_order() {
    let mut simple = empty_simple();
    simple.state_in = Some(vec!["other".to_string()]);
    simple.disambiguation = Some(DisambiguationExpectation::Clear);
    let mut details = Vec::new();
    evaluate_clauses(&simple, &observation(), "", &mut details);
    let names: Vec<&str> = details.iter().map(|d| d.assertion.as_str()).collect();
    assert_eq!(names, vec!["state_in", "disambiguation"]);
    assert!(details.iter().all(|d| !d.passed));
    assert!(disambiguation_matches(&DisambiguationStatus::GiveUp, &DisambiguationExpectation::GiveUp));
    assert!(!disambiguation_matches(&DisambiguationStatus::GiveUp, &DisambiguationExpectation::Abandoned));
}

#[test]
fn agent_strings_are_collected_from_nested_metadata() {
    let mut agents = Vec::new();
    collect_agent_strings(&observation().orchestration.unwrap(), &mut agents);
    assert!(agents.contains(&"editor".to_string()));
    assert!(agents.contains(&"writer".to_string()));
    assert!(!agents.contains(&"pipeline".to_string()));
}

#[test]
fn string_lists_give_their_items() {
    assert_eq!(StringList::One("a".to_string()).items(), vec!["a".to_string()]);
    assert_eq!(StringList::Many(vec!["a".to_string(), "b".to_string()]).items().len(), 2);
}

fn limits(calls: Option<u64>, tokens: Option<u64>) -> BudgetLimits {
    BudgetLimits { max_llm_calls: calls, max_total_tokens: tokens }
}

#[test]
fn budget_call_limit_refuses_and_stays_refused() {
    let l = limits(Some(1), None);
    let mut u = BudgetUsage::new();
    assert!(matches!(u.reserve(&l, 10, CostVerdict::WithinLimit), ReserveOutcome::Reserved(10)));
    match u.reserve(&l, 10, CostVerdict::WithinLimit) {
        ReserveOutcome::Refused(m) => assert_eq!(m, "eval budget exceeded: max_llm_calls=1; blocked provider call 2"),
        ReserveOutcome::Reserved(_) => panic!("second call must be refused"),
    }
    assert!(u.has_failed());
    let roomy = limits(None, None);
    match u.reserve(&roomy, 1, CostVerdict::WithinLimit) {
        ReserveOutcome::Refused(m) => assert_eq!(m, "eval budget exceeded: max_llm_calls=1; blocked provider call 2"),
        ReserveOutcome::Reserved(_) => panic!("a refusal is sticky"),
    }
    assert_eq!(u.llm_calls, 1);
}

#[test]
fn budget_token_limit_counts_reservations_and_usage() {
    let l = limits(None, Some(100));
    let mut u = BudgetUsage::new();
    assert!(matches!(u.reserve(&l, 60, CostVerdict::WithinLimit), ReserveOutcome::Reserved(60)));
    match u.reserve(&l, 50, CostVerdict::WithinLimit) {
        ReserveOutcome::Refused(m) => assert_eq!(m, "eval budget exceeded: max_total_tokens=100; projected reserved total=110"),
        ReserveOutcome::Reserved(_) => panic!("over the token limit"),
    }
    let mut v = BudgetUsage::new();
    assert!(matches!(v.reserve(&l, 60, CostVerdict::WithinLimit), ReserveOutcome::Reserved(60)));
    assert!(v.finish(&l, 60, 20, CostVerdict::WithinLimit).is_ok());
    assert_eq!((v.tokens_used, v.tokens_reserved), (20, 0));
    assert!(matches!(v.reserve(&l, 70, CostVerdict::WithinLimit), ReserveOutcome::Reserved(70)));
    assert_eq!(
        v.finish(&l, 70, 90, CostVerdict::WithinLimit).unwrap_err(),
        "eval budget exceeded: max_total_tokens=100; actual and reserved total=110"
    );
    assert!(v.has_failed());
}

#[test]
fn budget_unknown_outcome_charges_the_reservation() {
    let l = limits(None, None);
    let mut u = BudgetUsage::new();
    assert!(matches!(u.reserve(&l, 30, CostVerdict::WithinLimit), ReserveOutcome::Reserved(30)));
    u.finish_unknown(30);
    assert_eq!((u.tokens_used, u.tokens_reserved, u.llm_calls), (30, 0, 1));
}

#[test]
fn budget_cost_verdicts_from_the_caller() {
    let l = limits(None, None);
    let mut u = BudgetUsage::new();
    match u.reserve(&l, 5, CostVerdict::PricingMissing("no pricing for model x".to_string())) {
        ReserveOutcome::Refused(m) => assert_eq!(m, "no pricing for model x"),
        ReserveOutcome::Reserved(_) => panic!("missing pricing refuses"),
    }
    let mut v = BudgetUsage::new();
    match v.reserve(&l, 5, CostVerdict::Exceeded("cost over".to_string())) {
        ReserveOutcome::Refused(m) => assert_eq!(m, "cost over"),
        ReserveOutcome::Reserved(_) => panic!("exceeded cost refuses"),
    }
    assert_eq!(v.llm_calls, 0);
}

#[test]
fn budget_token_estimates() {
    let msgs = vec![ChatMessage::user("héllo"), ChatMessage::system("")];
    assert_eq!(upper_bound_message_tokens(&msgs), 6 + 16 + 16);
    assert_eq!(estimate_chars(0), 1);
    assert_eq!(estimate_chars(4), 1);
    assert_eq!(estimate_chars(5), 2);
    assert_eq!(estimate_message_tokens(&msgs), 2 + 1);
    assert_eq!(reservation_for(&msgs, 10, 100), 38 + 10 + 100);
}

#[test]
fn outside_outcomes_take_their_places_and_decide_with_the_rest() {
    let mut simple = empty_simple();
    simple.state = Some("greeting".to_string());
    simple.skill_triggered = Some("nope".to_string());
    simple.external.after_disambiguation =
        vec![AssertionResultDetail::pass("tool_called", JsonValue::Null, JsonValue::Null)];
    simple.external.after_orchestration =
        vec![AssertionResultDetail::fail("judge", JsonValue::Null, JsonValue::Null, "assertion failed")];
    let obs = observation();
    let mut details = Vec::new();
    evaluate_clauses(&simple, &obs, "Hello", &mut details);
    let names: Vec<&str> = details.iter().map(|d| d.assertion.as_str()).collect();
    assert_eq!(names, vec!["state", "tool_called", "skill_triggered", "judge"]);
    let failed_only_outside = {
        let mut s2 = empty_simple();
        s2.external.after_skill =
            vec![AssertionResultDetail::fail("metadata_path", JsonValue::Null, JsonValue::Null, "assertion failed")];
        leaf(s2)
    };
    let negated = Assertion { simple: empty_simple(), all: None, any: None, not: Some(Box::new(failed_only_outside)) };
    assert!(matches!(evaluate_assertion(&negated, &obs, "Hello"), AssertionOutcome::Passed(_)));
}

#[test]
fn estimated_usage_rounds_up_and_holds_at_u32_max() {
    let messages = vec![ChatMessage::user("hello"), ChatMessage::assistant("")];
    let usage = estimate_usage(&messages, "four");
    assert_eq!((usage.prompt_tokens, usage.completion_tokens, usage.total_tokens), (3, 1, 4));
    let tools = estimate_tool_usage(&messages, 9, "abc", 6);
    assert_eq!((tools.prompt_tokens, tools.completion_tokens, tools.total_tokens), (6, 3, 9));
    let fallback = stream_fallback_usage(u64::MAX, 8);
    assert_eq!((fallback.prompt_tokens, fallback.completion_tokens, fallback.total_tokens), (u32::MAX, 2, u32::MAX));
    let small = stream_fallback_usage(10, 0);
    assert_eq!((small.prompt_tokens, small.completion_tokens, small.total_tokens), (10, 1, 11));
}

fn no_checks() -> PathChecks {
    PathChecks { eq: None, neq: None, in_values: None, contains: None, exists: None }
}

#[test]
fn dot_paths_read_members_and_checks_compare_json() {
    let root = obj(vec![("a", obj(vec![("b", n(3)), ("", s("blank"))])), ("list", JsonValue::Array(vec![n(1), s("x")]))]);
    assert!(matches!(get_path(&root, "a.b"), Some(JsonValue::Number(JsonNumber::PosInt(3)))));
    assert!(matches!(get_path(&root, "a."), Some(JsonValue::Str(t)) if t == "blank"));
    assert!(get_path(&root, "a.c").is_none());
    assert!(get_path(&root, "list.0").is_none());
    assert!(matches!(get_path(&root, ""), Some(JsonValue::Object(_))));

    let found = get_path(&root, "a.b");
    assert_eq!(check_path_value(found, &PathChecks { eq: Some(n(3)), ..no_checks() }), PathVerdict::NumbersDecide);
    assert_eq!(check_path_value(found, &PathChecks { neq: Some(n(3)), ..no_checks() }), PathVerdict::Fails);
    assert_eq!(
        check_path_value(found, &PathChecks { in_values: Some(vec![n(1), n(3)]), ..no_checks() }),
        PathVerdict::NumbersDecide
    );
    assert_eq!(check_path_value(None, &PathChecks { exists: Some(false), ..no_checks() }), PathVerdict::Holds);
    assert_eq!(check_path_value(None, &no_checks()), PathVerdict::Fails);
    assert_eq!(check_path_value(found, &PathChecks { exists: Some(false), ..no_checks() }), PathVerdict::Fails);
    let list = get_path(&root, "list");
    assert_eq!(check_path_value(list, &PathChecks { contains: Some(s("x")), ..no_checks() }), PathVerdict::NumbersDecide);
    assert_eq!(check_path_value(list, &PathChecks { contains: Some(n(2)), ..no_checks() }), PathVerdict::Fails);
    let text = s("hello world");
    assert_eq!(check_path_value(Some(&text), &PathChecks { contains: Some(s("lo w")), ..no_checks() }), PathVerdict::NumbersDecide);
    assert_eq!(check_path_value(Some(&text), &PathChecks { contains: Some(n(1)), ..no_checks() }), PathVerdict::Fails);
}

fn record(id: &str, name: &str, success: bool, source: ToolExecutionSource) -> ToolRecordSummary {
    ToolRecordSummary { tool_id: id.to_string(), requested_name: name.to_string(), success, source }
}

#[test]
fn tool_checks_select_by_id_outcome_and_source() {
    let records = vec![
        record("http", "fetch", true, ToolExecutionSource::Llm),
        record("calc", "calc", true, ToolExecutionSource::Skill),
        record("http", "http", false, ToolExecutionSource::StateAction),
        record("web", "fetch", true, ToolExecutionSource::Mock),
    ];
    let by_name = ToolCallFilter { id: Some("fetch".to_string()), success: None, source_in: None, count: None, count_gte: None };
    assert_eq!(select_tool_records(&records, &by_name), vec![0, 3]);
    let failed_http = ToolCallFilter { id: Some("http".to_string()), success: Some(false), ..by_name };
    assert_eq!(select_tool_records(&records, &failed_http), vec![2]);
    let sources = ToolCallFilter {
        id: None,
        success: None,
        source_in: Some(vec!["skill".to_string(), "mock".to_string()]),
        count: Some(2),
        count_gte: None,
    };
    assert_eq!(select_tool_records(&records, &sources), vec![1, 3]);
    assert!(tool_count_holds(2, &sources));
    assert!(!tool_count_holds(1, &sources));
    let at_least = ToolCallFilter { id: None, success: None, source_in: None, count: None, count_gte: Some(3) };
    assert!(!tool_count_holds(0, &ToolCallFilter { count_gte: Some(0), ..at_least }));
    assert!(tool_count_holds(3, &ToolCallFilter { id: None, success: None, source_in: None, count: None, count_gte: Some(3) }));
    assert_eq!(source_label(ToolExecutionSource::PostTransition), "post_transition");
}

#[test]
fn metadata_contains_compares_members_as_json() {
    let metadata = obj(vec![("model", s("m")), ("usage", obj(vec![("in", n(3))]))]);
    assert!(metadata_contains(Some(&metadata), &vec![("usage".to_string(), obj(vec![("in", n(3))]))]));
    assert!(!metadata_contains(Some(&metadata), &vec![("model".to_string(), s("other"))]));
    assert!(!metadata_contains(Some(&metadata), &vec![("missing".to_string(), JsonValue::Null)]));
    assert!(metadata_contains(Some(&metadata), &Vec::new()));
    assert!(metadata_contains(None, &Vec::new()));
    assert!(!metadata_contains(None, &vec![("model".to_string(), s("m"))]));
}

#[test]
fn fact_checks_select_by_actor_and_category_suffix() {
    let actor = Some("u1".to_string());
    let categories = vec![Some("preference".to_string()), Some("user_preference".to_string()), None, Some("fact".to_string())];
    let check = FactsCheck { actor: Some("u1".to_string()), category: Some("preference".to_string()) };
    match select_facts(Some(&actor), &categories, &check) {
        FactsSelection::Selected(p) => assert_eq!(p, vec![0, 1]),
        _ => panic!("facts expected"),
    }
    assert!(matches!(select_facts(None, &categories, &check), FactsSelection::NoEvidence));
    let other = Some("u2".to_string());
    assert!(matches!(select_facts(Some(&other), &categories, &check), FactsSelection::OtherActor));
    assert!(matches!(select_facts(Some(&None), &categories, &check), FactsSelection::OtherActor));
    let any = FactsCheck { actor: None, category: None };
    match select_facts(Some(&None), &categories, &any) {
        FactsSelection::Selected(p) => assert_eq!(p, vec![0, 1, 2, 3]),
        _ => panic!("facts expected"),
    }
}

#[test]
fn relationship_checks_follow_their_order() {
    let current = obj(vec![
        ("interaction_count", n(4)),
        ("notable_events", JsonValue::Array(vec![s("met"), s("argued")])),
        ("dimensions", obj(vec![("trust", JsonValue::Number(JsonNumber::Float(0.5f64.to_bits())))])),
    ]);
    let actor = Some("u1".to_string());
    let available = vec!["agent_to_actor".to_string(), "mutual".to_string()];
    let view = || RelationshipEvidenceView { actor_id: &actor, current: Some(&current), available_perspectives: &available };
    let check = RelationshipCheck {
        actor: Some("u1".to_string()),
        exists: Some(true),
        perspective: None,
        interaction_count_gte: Some(4),
        notable_event_count_gte: Some(2),
    };
    assert_eq!(check_relationship(Some(view()), &check), RelationshipVerdict::Checked { passed: true });
    let more = RelationshipCheck { interaction_count_gte: Some(5), ..check };
    assert_eq!(check_relationship(Some(view()), &more), RelationshipVerdict::Checked { passed: false });
    let perceived = RelationshipCheck {
        actor: None,
        exists: None,
        perspective: Some("perceived_actor_to_agent".to_string()),
        interaction_count_gte: None,
        notable_event_count_gte: None,
    };
    assert_eq!(check_relationship(Some(view()), &perceived), RelationshipVerdict::PerspectiveUnavailable);
    let absent = RelationshipCheck { actor: None, exists: Some(false), perspective: None, interaction_count_gte: None, notable_event_count_gte: None };
    assert_eq!(check_relationship(None, &absent), RelationshipVerdict::NoEvidence { passed: true });
    let stranger = RelationshipCheck { actor: Some("u9".to_string()), ..absent };
    assert_eq!(check_relationship(Some(view()), &stranger), RelationshipVerdict::OtherActor);
    assert!(matches!(dimension_value(Some(&current), "mutual", "trust"), Some(JsonValue::Number(_))));
    assert!(dimension_value(Some(&current), "perceived_actor_to_agent", "trust").is_none());
    assert!(dimension_value(Some(&current), "sideways", "trust").is_none());
    assert!(dimension_value(None, "mutual", "trust").is_none());
}

#[test]
fn observability_totals_and_dimension_counts() {
    let totals = ObservabilityTotals { total_llm_calls: 3, total_tool_calls: 1, total_tokens: 500 };
    let limits = ObservabilityLimits { total_llm_calls_lte: Some(3), total_tool_calls_lte: None, total_tokens_lte: Some(499) };
    assert!(!totals_within(&totals, &limits));
    assert!(totals_within(&totals, &ObservabilityLimits { total_tokens_lte: Some(500), ..limits }));
    let metric = |purpose: &str, count: u64| DimensionCount {
        dimensions: vec![("purpose".to_string(), purpose.to_string())],
        count,
    };
    let metrics = vec![metric("chat", 2), metric("tool", 5), metric("chat", 9)];
    assert_eq!(dimension_count(&metrics, "purpose", "chat"), 2);
    assert_eq!(dimension_count(&metrics, "purpose", "tool"), 5);
    assert_eq!(dimension_count(&metrics, "purpose", "judge"), 0);
    assert_eq!(dimension_count(&metrics, "status", "chat"), 0);
}

#[test]
fn response_use_is_found_in_nested_assertions() {
    let plain = leaf(empty_simple());
    assert!(!uses_response(&plain));
    let reads = leaf(SimpleAssertion { response_not_empty: Some(true), ..empty_simple() });
    let judged = leaf(SimpleAssertion { response_judged: true, ..empty_simple() });
    let nested = Assertion {
        simple: empty_simple(),
        all: Some(vec![leaf(empty_simple())]),
        any: Some(vec![leaf(empty_simple()), reads]),
        not: None,
    };
    assert!(uses_response(&nested));
    let negated = Assertion { simple: empty_simple(), all: None, any: None, not: Some(Box::new(judged)) };
    assert!(uses_response(&negated));
    let none_inside = Assertion { simple: empty_simple(), all: Some(vec![leaf(empty_simple())]), any: Some(vec![]), not: Some(Box::new(plain)) };
    assert!(!uses_response(&none_inside));
}

#[test]
fn approval_request_ids_are_random_uuids() {
    let first = ApprovalRequest::new(ApprovalTrigger::tool("delete", obj(vec![])), "Delete?");
    let second = ApprovalRequest::new(ApprovalTrigger::tool("delete", obj(vec![])), "Delete?");
    for request in [&first, &second] {
        let id: Vec<char> = request.id.chars().collect();
        assert_eq!(id.len(), 36);
        for (i, c) in id.iter().enumerate() {
            if [8, 13, 18, 23].contains(&i) {
                assert_eq!(*c, '-');
            } else {
                assert!(c.is_ascii_digit() || ('a'..='f').contains(c));
            }
        }
        assert_eq!(id[14], '4');
        assert!(['8', '9', 'a', 'b'].contains(&id[19]));
    }
    assert_ne!(first.id, second.id);
}

#[test]
fn runner_options_override_suite_settings() {
    let mut settings = EvalSettings::default();
    let options = EvalRunnerOptions {
        agent: None,
        scenarios: None,
        output: "out".to_string(),
        ids: vec![],
        tags: vec![],
        tag_mode_all: false,
        languages: vec![],
        retries: Some(2),
        timeout_ms: Some(500),
        parallel: Some(0),
        fail_fast: true,
        observability: false,
        llm_mode: None,
        cassette: None,
    };
    apply_runner_options(&mut settings, &options);
    assert_eq!(settings.retries, 2);
    assert_eq!(settings.timeout_per_turn_ms, 500);
    assert!(!settings.parallel);
    assert_eq!(settings.max_concurrent, 1);
    assert!(settings.fail_fast);
    let mut settings = EvalSettings::default();
    let options = EvalRunnerOptions { parallel: Some(3), fail_fast: false, retries: None, timeout_ms: None, ..options };
    apply_runner_options(&mut settings, &options);
    assert!(settings.parallel);
    assert_eq!(settings.max_concurrent, 3);
    assert_eq!(settings.retries, 0);
    assert_eq!(settings.timeout_per_turn_ms, 30000);
    assert!(!settings.fail_fast);
}

fn fold_stream(events: Vec<StreamEvent>, timeout_ms: u64) -> ai_agents::eval_report::TurnOperation {
    let mut fold = StreamFold::new();
    let mut events = events.into_iter();
    while fold.step(events.next().unwrap_or(StreamEvent::End), timeout_ms) {}
    fold.finish()
}

#[test]
fn streaming_error_retains_partial_content_and_consumes_until_done() {
    let operation = fold_stream(
        vec![
            StreamEvent::Content("before ".to_string()),
            StreamEvent::Error("stream failed".to_string()),
            StreamEvent::Content("after".to_string()),
            StreamEvent::Done,
        ],
        1_000,
    );
    assert_eq!(operation.response_content, "before after");
    assert!(operation.response_present);
    assert_eq!(operation.runtime_error.as_deref(), Some("stream failed"));
}

#[test]
fn stream_endings_set_the_runtime_error() {
    let cut = fold_stream(vec![StreamEvent::Other], 1_000);
    assert_eq!(cut.runtime_error.as_deref(), Some("stream ended before Done"));
    assert!(!cut.response_present);
    let late = fold_stream(vec![StreamEvent::Content("x".to_string()), StreamEvent::TimedOut], 250);
    assert_eq!(late.runtime_error.as_deref(), Some("turn timed out after 250ms"));
    assert!(late.response_present);
    let clean = fold_stream(vec![StreamEvent::Done], 1_000);
    assert!(clean.response_present);
    assert!(clean.runtime_error.is_none());
    assert_eq!(clean.response_content, "");
}

#[test]
fn zero_selected_scenarios_is_an_error() {
    let scenarios = vec![meta("a", &[], None)];
    match select_or_refuse(&scenarios, &vec!["missing".to_string()], &vec![], &vec![], false) {
        Err(EvalError::Config(m)) => assert!(m.contains("matched zero scenarios")),
        _ => panic!("an empty selection is refused"),
    }
    assert_eq!(select_or_refuse(&scenarios, &vec!["a".to_string()], &vec![], &vec![], false).ok(), Some(vec![0]));
}

#[test]
fn skipped_scenarios_have_no_attempts() {
    let result = skipped_result(&meta("s", &["smoke"], Some("en")), &SkipConfig::Reason("flaky upstream".to_string()));
    assert!(matches!(&result.status, ScenarioStatus::Skipped { reason: Some(r) } if r == "flaky upstream"));
    assert!(result.attempts.is_empty() && !result.flaky && result.retries_used == 0 && result.failure_category.is_none());
    assert_eq!(result.tags, vec!["smoke".to_string()]);
    let plain = skipped_result(&meta("s", &[], None), &SkipConfig::Bool(true));
    assert!(matches!(plain.status, ScenarioStatus::Skipped { reason: None }));
}

#[test]
fn judge_fails_closed_without_a_score() {
    let none = judge_unscored(None);
    assert_eq!(none.assertion, "judge");
    assert!(!none.passed);
    assert!(matches!(none.actual, JsonValue::Null));
    assert_eq!(none.message.as_deref(), Some("no judge LLM available"));
    let failed = judge_unscored(Some("timeout"));
    assert!(matches!(&failed.actual, JsonValue::Str(t) if t == "timeout"));
    assert_eq!(failed.message.as_deref(), Some("judge failed"));
    let facts = facts_judge_unscored("likes tea", None);
    assert_eq!(facts.assertion, "facts_include");
    assert!(matches!(&facts.expected, JsonValue::Str(t) if t == "likes tea"));
    assert_eq!(facts.message.as_deref(), Some("semantic fact assertion requires a judge LLM"));
}

#[test]
fn tool_plan_mocks_replace_builtins_and_fixture_replaces_web_fetch() {
    let mocked = vec!["read_file".to_string()];
    let builtin = vec!["read_file".to_string(), "web_fetch".to_string(), "calculator".to_string()];
    let plan = plan_tools(&mocked, &builtin, true);
    assert_eq!(
        plan,
        vec![
            ("read_file".to_string(), ToolSlot::Mock),
            ("web_fetch".to_string(), ToolSlot::WebFetchFixture),
            ("calculator".to_string(), ToolSlot::Builtin),
        ]
    );
    let plain = plan_tools(&vec![], &builtin, false);
    assert!(plain.iter().all(|(_, slot)| *slot == ToolSlot::Builtin));
    assert_eq!(plain.len(), 3);
}

#[test]
fn scenario_results_count_retries_and_flakiness() {
    let attempt = |i: u32, status: ScenarioStatus| AttemptResult { attempt: i, turns: vec![], status, duration_ms: 1 };
    let flaky = scenario_result(
        &meta("s", &[], None),
        ScenarioStatus::Passed,
        Some(FailureCategory::FlakyPass),
        vec![attempt(0, ScenarioStatus::Failed { reason: "x".to_string() }), attempt(1, ScenarioStatus::Passed)],
        12,
    );
    assert!(flaky.flaky);
    assert_eq!(flaky.retries_used, 1);
    assert_eq!(flaky.duration_ms, 12);
    let first = scenario_result(&meta("s", &[], None), ScenarioStatus::Passed, None, vec![attempt(0, ScenarioStatus::Passed)], 3);
    assert!(!first.flaky);
    assert_eq!(first.retries_used, 0);
    let failed = scenario_result(
        &meta("s", &[], None),
        ScenarioStatus::Failed { reason: "y".to_string() },
        Some(FailureCategory::AssertionFailed),
        vec![attempt(0, ScenarioStatus::Failed { reason: "y".to_string() }), attempt(1, ScenarioStatus::Failed { reason: "y".to_string() })],
        3,
    );
    assert!(!failed.flaky);
    assert_eq!(failed.retries_used, 1);
    match attempt_timeout_error("checkout", 2, 500) {
        EvalError::Runtime(m) => assert_eq!(m, "scenario 'checkout' attempt 2 timed out after 500ms"),
        _ => panic!("a runtime error"),
    }
}
