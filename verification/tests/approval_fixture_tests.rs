use ai_agents::approval_fixtures::{
    ApprovalFixtureConfig, ApprovalFixtureOutcome, ApprovalFixtureRule, ApprovalFixtureTrigger,
    FixtureApprovalHandler,
};
use ai_agents::hitl::{ApprovalRequest, ApprovalResult, ApprovalTrigger};
use ai_agents::json::{json_equal, JsonNumber, JsonValue};

fn num(n: u64) -> JsonValue {
    JsonValue::Number(JsonNumber::PosInt(n))
}

fn object(members: Vec<(&str, JsonValue)>) -> JsonValue {
    JsonValue::Object(members.into_iter().map(|(k, v)| (k.to_string(), v)).collect())
}

fn answer(handler: &mut FixtureApprovalHandler, trigger: ApprovalTrigger, message: &str) -> ApprovalResult {
    assert!(handler.can_count());
    handler.select_outcome(&ApprovalRequest::new(trigger, message)).into_approval_result()
}

#[test]
fn approval_handler_matches_order_occurrence_and_default() {
    let config = ApprovalFixtureConfig {
        rules: vec![
            ApprovalFixtureRule {
                trigger: ApprovalFixtureTrigger::Tool {
                    name: "transfer".to_string(),
                    args: Some(object(vec![("amount", num(10))])),
                },
                occurrence: Some(2),
                outcome: ApprovalFixtureOutcome::Modify { changes: vec![("amount".to_string(), num(5))] },
            },
            ApprovalFixtureRule {
                trigger: ApprovalFixtureTrigger::Tool { name: "transfer".to_string(), args: None },
                occurrence: None,
                outcome: ApprovalFixtureOutcome::Reject { reason: Some("fallback rule".to_string()) },
            },
        ],
        default: ApprovalFixtureOutcome::Timeout,
        preferred_language: Some("ja".to_string()),
        supported_languages: Some(vec!["ja".to_string(), "en".to_string()]),
    };
    let mut handler = FixtureApprovalHandler::new(config);
    let request = || ApprovalTrigger::tool("transfer", object(vec![("amount", num(10))]));

    assert!(matches!(
        answer(&mut handler, request(), "Approve transfer?"),
        ApprovalResult::Rejected { reason: Some(reason) } if reason == "fallback rule"
    ));
    match answer(&mut handler, request(), "Approve transfer?") {
        ApprovalResult::Modified { changes } => {
            assert_eq!(changes.len(), 1);
            assert_eq!(changes[0].0, "amount");
            assert!(json_equal(&changes[0].1, &num(5)));
        }
        _ => panic!("expected the numbered rule to modify the second transfer"),
    }
    assert!(matches!(
        answer(&mut handler, ApprovalTrigger::tool("email", object(vec![])), "Approve email?"),
        ApprovalResult::Timeout
    ));
    assert_eq!(handler.preferred_language(), Some("ja".to_string()));
    assert_eq!(handler.supported_languages(), Some(vec!["ja".to_string(), "en".to_string()]));
}

#[test]
fn approval_handler_matches_condition_state_and_escalation() {
    let config = ApprovalFixtureConfig {
        rules: vec![
            ApprovalFixtureRule {
                trigger: ApprovalFixtureTrigger::Condition {
                    name: "high_value".to_string(),
                    matched: Some("threshold".to_string()),
                },
                occurrence: None,
                outcome: ApprovalFixtureOutcome::Approve,
            },
            ApprovalFixtureRule {
                trigger: ApprovalFixtureTrigger::StateTransition {
                    from: Some("review".to_string()),
                    to: "complete".to_string(),
                },
                occurrence: None,
                outcome: ApprovalFixtureOutcome::Reject { reason: None },
            },
            ApprovalFixtureRule {
                trigger: ApprovalFixtureTrigger::DisambiguationEscalation { reason: Some("unclear".to_string()) },
                occurrence: None,
                outcome: ApprovalFixtureOutcome::Timeout,
            },
        ],
        default: ApprovalFixtureOutcome::Unavailable,
        preferred_language: None,
        supported_languages: None,
    };
    let mut handler = FixtureApprovalHandler::new(config);

    let condition = answer(&mut handler, ApprovalTrigger::condition("high_value", "threshold"), "condition");
    let state = answer(&mut handler, ApprovalTrigger::state(Some("review".to_string()), "complete"), "state");
    let escalation = answer(
        &mut handler,
        ApprovalTrigger::condition("disambiguation_escalation", "unclear"),
        "escalation",
    );
    let unavailable = answer(
        &mut handler,
        ApprovalTrigger::condition("disambiguation_escalation", "other"),
        "other escalation",
    );

    assert!(matches!(condition, ApprovalResult::Approved));
    assert!(matches!(state, ApprovalResult::Rejected { reason: None }));
    assert!(matches!(escalation, ApprovalResult::Timeout));
    assert!(matches!(
        unavailable,
        ApprovalResult::Rejected { reason: Some(reason) } if reason == "Approval fixture unavailable"
    ));
}

fn numbered_transfer_config() -> ApprovalFixtureConfig {
    ApprovalFixtureConfig {
        rules: vec![ApprovalFixtureRule {
            trigger: ApprovalFixtureTrigger::Tool { name: "transfer".to_string(), args: None },
            occurrence: Some(2),
            outcome: ApprovalFixtureOutcome::Approve,
        }],
        default: ApprovalFixtureOutcome::Reject { reason: None },
        preferred_language: None,
        supported_languages: None,
    }
}

#[test]
fn approval_handler_instances_have_fresh_concurrent_state() {
    let mut first = FixtureApprovalHandler::new(numbered_transfer_config());
    let mut second = FixtureApprovalHandler::new(numbered_transfer_config());
    let request = || ApprovalTrigger::tool("transfer", object(vec![]));

    let first_result = answer(&mut first, request(), "transfer");
    let second_result = answer(&mut first, request(), "transfer");
    let approved = usize::from(first_result.is_approved()) + usize::from(second_result.is_approved());
    assert_eq!(approved, 1);
    assert!(answer(&mut second, request(), "transfer").is_rejected());
    assert!(answer(&mut second, request(), "transfer").is_approved());
}

#[test]
fn numbered_rule_answers_only_its_occurrence() {
    let mut handler = FixtureApprovalHandler::new(numbered_transfer_config());
    let request = || ApprovalTrigger::tool("transfer", object(vec![]));
    let approvals: Vec<bool> = (0..5).map(|_| answer(&mut handler, request(), "transfer").is_approved()).collect();
    assert_eq!(approvals, vec![false, true, false, false, false]);
}

#[test]
fn condition_rules_do_not_match_escalations() {
    let config = ApprovalFixtureConfig {
        rules: vec![ApprovalFixtureRule {
            trigger: ApprovalFixtureTrigger::Condition { name: "disambiguation_escalation".to_string(), matched: None },
            occurrence: None,
            outcome: ApprovalFixtureOutcome::Approve,
        }],
        ..ApprovalFixtureConfig::default()
    };
    let mut handler = FixtureApprovalHandler::new(config);
    let result = answer(&mut handler, ApprovalTrigger::condition("disambiguation_escalation", "x"), "m");
    assert!(result.is_rejected());
}

#[test]
fn tool_arguments_compare_as_json_maps() {
    let trigger = ApprovalFixtureTrigger::Tool {
        name: "transfer".to_string(),
        args: Some(object(vec![("amount", num(10)), ("currency", JsonValue::Str("USD".to_string()))])),
    };
    let reordered = ApprovalTrigger::tool(
        "transfer",
        object(vec![("currency", JsonValue::Str("USD".to_string())), ("amount", num(10))]),
    );
    let missing = ApprovalTrigger::tool("transfer", object(vec![("amount", num(10))]));
    let float_ten = ApprovalTrigger::tool(
        "transfer",
        object(vec![("amount", JsonValue::Number(JsonNumber::Float(10.0f64.to_bits()))), ("currency", JsonValue::Str("USD".to_string()))]),
    );
    assert!(trigger.matches(&reordered));
    assert!(!trigger.matches(&missing));
    assert!(!trigger.matches(&float_ten));
}

#[test]
fn json_equality_follows_value_semantics() {
    let zero = JsonValue::Number(JsonNumber::Float(0.0f64.to_bits()));
    let minus_zero = JsonValue::Number(JsonNumber::Float((-0.0f64).to_bits()));
    let nan = JsonValue::Number(JsonNumber::Float(f64::NAN.to_bits()));
    assert!(json_equal(&zero, &minus_zero));
    assert!(!json_equal(&nan, &nan));
    let shadowed = object(vec![("a", num(1)), ("a", num(2))]);
    assert!(json_equal(&shadowed, &object(vec![("a", num(2))])));
    assert!(!json_equal(&shadowed, &object(vec![("a", num(1))])));
    assert!(json_equal(&JsonValue::Array(vec![num(1), num(2)]), &JsonValue::Array(vec![num(1), num(2)])));
    assert!(!json_equal(&JsonValue::Array(vec![num(1), num(2)]), &JsonValue::Array(vec![num(2), num(1)])));
    assert!(!json_equal(&num(1), &JsonValue::Number(JsonNumber::NegInt(-1))));
}
