use ai_agents::hitl::{
    generated_message, get_user_language, plan_message, plan_tool_message, render_template, resolve_best_language,
    value_text, ApprovalRequest, ApprovalResult, ApprovalTrigger, HITLCheckResult, MessagePlan, WaitDuration,
};
use ai_agents::hitl_config::{
    default_fallback_chain, ApprovalMessage, HITLConfig, LanguageTexts, LlmGenerateConfig, MessageLanguageConfig,
    MessageLanguageStrategy, TimeoutAction, ToolApprovalConfig,
};
use ai_agents::json::{JsonNumber, JsonValue};

fn pairs(items: &[(&str, &str)]) -> Vec<(String, String)> {
    items.iter().map(|(k, v)| (k.to_string(), v.to_string())).collect()
}

fn text(s: &str) -> JsonValue {
    JsonValue::Str(s.to_string())
}

fn config(strategy: MessageLanguageStrategy, fallback: Vec<MessageLanguageStrategy>, explicit: Option<&str>) -> MessageLanguageConfig {
    MessageLanguageConfig { strategy, fallback, explicit: explicit.map(|s| s.to_string()), llm_generate: None }
}

fn rendered(plan: MessagePlan, context: &Vec<(String, String)>) -> String {
    match plan {
        MessagePlan::Render(t) => render_template(&t, context),
        MessagePlan::Final(t) => t,
        MessagePlan::Generate => panic!("no LLM in these tests"),
    }
}

#[test]
fn test_hitl_config_default() {
    let config = HITLConfig::default();
    assert_eq!(config.default_timeout_seconds, 300);
    assert_eq!(config.on_timeout, TimeoutAction::Reject);
    assert!(config.tools.is_empty());
    assert!(config.conditions.is_empty());
    assert!(config.states.is_empty());
    assert_eq!(config.message_language.strategy, MessageLanguageStrategy::Auto);
}

#[test]
fn test_approval_message_simple() {
    let msg = ApprovalMessage::simple("Approve?");
    assert_eq!(msg.get("en"), Some("Approve?".to_string()));
    assert_eq!(msg.get("ko"), Some("Approve?".to_string()));
    assert!(msg.description().is_none());
    assert!(!msg.is_empty());
}

#[test]
fn test_approval_message_multi_language() {
    let messages = pairs(&[("en", "Approve?"), ("ko", "승인?")]);
    let msg = ApprovalMessage::multi_language(messages).with_description("Test approval");
    assert_eq!(msg.get("en"), Some("Approve?".to_string()));
    assert_eq!(msg.get("ko"), Some("승인?".to_string()));
    assert_eq!(msg.get("ja"), None);
    assert_eq!(msg.description(), Some("Test approval"));
    assert!(!msg.is_empty());
    let langs = msg.available_languages();
    assert!(langs.contains(&"en".to_string()));
    assert!(langs.contains(&"ko".to_string()));
}

#[test]
fn test_approval_message_get_any() {
    let msg = ApprovalMessage::simple("Test");
    assert_eq!(msg.get_any(), Some("Test".to_string()));
    let empty = ApprovalMessage::simple("");
    assert_eq!(empty.get_any(), None);
    let msg = ApprovalMessage::multi_language(pairs(&[("ko", "한국어")]));
    assert_eq!(msg.get_any(), Some("한국어".to_string()));
    let msg = ApprovalMessage::multi_language(pairs(&[("en", "English"), ("ko", "한국어")]));
    assert_eq!(msg.get_any(), Some("English".to_string()));
}

#[test]
fn test_tool_approval_config_default() {
    let config = ToolApprovalConfig::default();
    assert!(!config.require_approval);
    assert!(config.approval_context.is_empty());
    assert!(config.approval_message.is_empty());
    assert!(config.message_language.is_none());
    assert!(config.timeout_seconds.is_none());
}

#[test]
fn test_default_fallback_chain() {
    let chain = default_fallback_chain();
    assert_eq!(chain.len(), 4);
    assert_eq!(chain[0], MessageLanguageStrategy::Approver);
    assert_eq!(chain[1], MessageLanguageStrategy::User);
    assert_eq!(chain[2], MessageLanguageStrategy::Explicit);
    assert_eq!(chain[3], MessageLanguageStrategy::LlmGenerate);
}

#[test]
fn test_llm_generate_config_defaults() {
    let config = LlmGenerateConfig::default();
    assert_eq!(config.llm, "router");
    assert!(config.include_context);
}

#[test]
fn test_render_template_basic() {
    let context = pairs(&[("amount", "1000"), ("currency", "USD")]);
    let result = render_template("Approve {{ amount }} {{ currency }}?", &context);
    assert_eq!(result, "Approve 1000 USD?");
}

#[test]
fn test_render_template_no_placeholders() {
    let result = render_template("Simple message", &Vec::new());
    assert_eq!(result, "Simple message");
}

#[test]
fn test_get_user_language_from_user_language() {
    let context = vec![("user.language".to_string(), text("ko"))];
    assert_eq!(get_user_language(&context), Some("ko".to_string()));
}

#[test]
fn test_get_user_language_from_detected() {
    let context = vec![("input.detected.language".to_string(), text("ja"))];
    assert_eq!(get_user_language(&context), Some("ja".to_string()));
}

#[test]
fn test_get_user_language_priority() {
    let context = vec![
        ("user.language".to_string(), text("ko")),
        ("input.detected.language".to_string(), text("ja")),
    ];
    assert_eq!(get_user_language(&context), Some("ko".to_string()));
}

#[test]
fn test_get_user_language_none() {
    assert_eq!(get_user_language(&Vec::new()), None);
}

#[test]
fn test_resolve_best_language_approver_preferred() {
    let msg = ApprovalMessage::multi_language(pairs(&[("en", "English"), ("ko", "한국어")]));
    assert_eq!(resolve_best_language(&msg, Some("ko"), &Vec::new()), Some("ko".to_string()));
}

#[test]
fn test_resolve_best_language_user_fallback() {
    let msg = ApprovalMessage::multi_language(pairs(&[("en", "English"), ("ja", "日本語")]));
    let context = vec![("user.language".to_string(), text("ja"))];
    assert_eq!(resolve_best_language(&msg, Some("ko"), &context), Some("ja".to_string()));
}

#[test]
fn test_resolve_best_language_english_default() {
    let msg = ApprovalMessage::multi_language(pairs(&[("en", "English"), ("fr", "Français")]));
    assert_eq!(resolve_best_language(&msg, Some("ko"), &Vec::new()), Some("en".to_string()));
}

#[test]
fn resolve_approver_strategy_picks_the_approvers_language() {
    let cfg = config(MessageLanguageStrategy::Approver, vec![], None);
    let msg = ApprovalMessage::multi_language(pairs(&[("en", "English message"), ("ko", "한국어 메시지")]));
    let plan = plan_message(&msg, &cfg, Some("ko"), &Vec::new(), false);
    assert_eq!(rendered(plan, &Vec::new()), "한국어 메시지");
}

#[test]
fn resolve_user_strategy_reads_the_context_language() {
    let cfg = config(MessageLanguageStrategy::User, vec![], None);
    let msg = ApprovalMessage::multi_language(pairs(&[("en", "English message"), ("ja", "日本語メッセージ")]));
    let context = vec![("user.language".to_string(), text("ja"))];
    let plan = plan_message(&msg, &cfg, None, &context, false);
    assert_eq!(rendered(plan, &Vec::new()), "日本語メッセージ");
}

#[test]
fn resolve_explicit_strategy_uses_the_configured_language() {
    let cfg = config(MessageLanguageStrategy::Explicit, vec![], Some("en"));
    let msg = ApprovalMessage::multi_language(pairs(&[("en", "English message"), ("ko", "한국어 메시지")]));
    let plan = plan_message(&msg, &cfg, Some("ko"), &Vec::new(), false);
    assert_eq!(rendered(plan, &Vec::new()), "English message");
}

#[test]
fn resolve_fallback_chain_moves_on_until_a_text_is_found() {
    let cfg = config(
        MessageLanguageStrategy::Approver,
        vec![MessageLanguageStrategy::User, MessageLanguageStrategy::Explicit],
        Some("en"),
    );
    let msg = ApprovalMessage::multi_language(pairs(&[("en", "English fallback")]));
    let plan = plan_message(&msg, &cfg, Some("ko"), &Vec::new(), false);
    assert_eq!(rendered(plan, &Vec::new()), "English fallback");
}

#[test]
fn resolve_simple_message_is_used_for_any_language() {
    let cfg = MessageLanguageConfig::default();
    let msg = ApprovalMessage::simple("Simple approval message");
    let plan = plan_message(&msg, &cfg, Some("ko"), &Vec::new(), false);
    assert_eq!(rendered(plan, &Vec::new()), "Simple approval message");
}

#[test]
fn resolve_with_template_fills_placeholders() {
    let cfg = config(MessageLanguageStrategy::Explicit, vec![], Some("en"));
    let msg = ApprovalMessage::multi_language(pairs(&[("en", "Approve {{ amount }} {{ currency }}?")]));
    let context = vec![
        ("amount".to_string(), JsonValue::Number(JsonNumber::PosInt(500))),
        ("currency".to_string(), text("USD")),
    ];
    let texts: Vec<(String, String)> =
        context.iter().map(|(k, v)| (k.clone(), value_text(v).unwrap())).collect();
    let plan = plan_message(&msg, &cfg, None, &context, false);
    assert_eq!(rendered(plan, &texts), "Approve 500 USD?");
}

#[test]
fn resolve_uses_local_configuration_over_the_global_one() {
    let local = config(MessageLanguageStrategy::Explicit, vec![], Some("ja"));
    let msg = ApprovalMessage::multi_language(pairs(&[("en", "English"), ("ja", "日本語")]));
    let plan = plan_message(&msg, &local, Some("en"), &Vec::new(), false);
    assert_eq!(rendered(plan, &Vec::new()), "日本語");
}

#[test]
fn resolve_tool_message_without_message_names_the_tool() {
    let tool = ToolApprovalConfig::default();
    let global = MessageLanguageConfig::default();
    let plan = plan_tool_message(&tool, "test_tool", &global, None, &Vec::new(), false);
    assert_eq!(rendered(plan, &Vec::new()), "Approve execution of tool 'test_tool'?");
}

#[test]
fn resolve_tool_message_with_its_own_configuration() {
    let tool = ToolApprovalConfig {
        require_approval: true,
        approval_context: vec![],
        approval_message: ApprovalMessage::multi_language(pairs(&[("en", "Approve test?")])),
        message_language: Some(config(MessageLanguageStrategy::Explicit, vec![], Some("en"))),
        timeout_seconds: None,
    };
    let global = MessageLanguageConfig::default();
    let plan = plan_tool_message(&tool, "test_tool", &global, None, &Vec::new(), false);
    assert_eq!(rendered(plan, &Vec::new()), "Approve test?");
}

#[test]
fn plan_asks_for_generation_when_an_llm_is_available() {
    let cfg = config(MessageLanguageStrategy::LlmGenerate, vec![], None);
    let msg = ApprovalMessage::simple("x");
    assert!(matches!(plan_message(&msg, &cfg, None, &Vec::new(), true), MessagePlan::Generate));
    assert!(matches!(plan_message(&msg, &cfg, None, &Vec::new(), false), MessagePlan::Final(_)));
}

#[test]
fn plan_falls_back_to_description_then_default_text() {
    let cfg = config(MessageLanguageStrategy::Auto, vec![], None);
    let msg = ApprovalMessage::multi_language(Vec::new()).with_description("Describe");
    assert_eq!(rendered(plan_message(&msg, &cfg, None, &Vec::new(), false), &Vec::new()), "Describe");
    let msg = ApprovalMessage::multi_language(Vec::new());
    assert_eq!(rendered(plan_message(&msg, &cfg, None, &Vec::new(), false), &Vec::new()), "Approval required");
}

#[test]
fn value_text_of_scalars() {
    assert_eq!(value_text(&JsonValue::Number(JsonNumber::NegInt(-42))), Some("-42".to_string()));
    assert_eq!(value_text(&JsonValue::Bool(true)), Some("true".to_string()));
    assert_eq!(value_text(&JsonValue::Null), Some("null".to_string()));
    assert_eq!(value_text(&JsonValue::Array(Vec::new())), None);
}

#[test]
fn generated_message_is_trimmed() {
    assert_eq!(generated_message("  Approve now?\n"), "Approve now?");
}

#[test]
fn test_approval_request_new() {
    let trigger = ApprovalTrigger::tool("test_tool", JsonValue::Object(vec![("key".to_string(), text("value"))]));
    let request = ApprovalRequest::new(trigger, "Test message");
    assert!(!request.id.is_empty());
    assert_eq!(request.id.len(), 36);
    assert_eq!(request.message, "Test message");
    assert!(request.context.is_empty());
    assert!(request.timeout.is_none());
}

#[test]
fn test_approval_request_with_timeout() {
    let trigger = ApprovalTrigger::tool("test", JsonValue::Object(Vec::new()));
    let request = ApprovalRequest::new(trigger, "Test").with_timeout_seconds(60);
    assert_eq!(request.timeout, Some(WaitDuration::from_secs(60)));
}

#[test]
fn test_approval_trigger_tool() {
    let trigger = ApprovalTrigger::tool(
        "send_payment",
        JsonValue::Object(vec![("amount".to_string(), JsonValue::Number(JsonNumber::PosInt(100)))]),
    );
    assert_eq!(trigger.trigger_type(), "tool");
    if let ApprovalTrigger::Tool { name, args } = trigger {
        assert_eq!(name, "send_payment");
        assert_eq!(args.get("amount").and_then(|v| v.as_u64()), Some(100));
    } else {
        panic!("Expected Tool trigger");
    }
}

#[test]
fn test_approval_trigger_condition() {
    let trigger = ApprovalTrigger::condition("high_value", "amount > 1000");
    assert_eq!(trigger.trigger_type(), "condition");
}

#[test]
fn test_approval_trigger_state() {
    let trigger = ApprovalTrigger::state(Some("greeting".to_string()), "escalation");
    assert_eq!(trigger.trigger_type(), "state");
}

#[test]
fn test_approval_result_approved() {
    let result = ApprovalResult::approved();
    assert!(result.is_approved());
    assert!(!result.is_rejected());
    assert!(!result.is_timeout());
}

#[test]
fn test_approval_result_rejected() {
    let result = ApprovalResult::rejected_with_reason("User declined");
    assert!(!result.is_approved());
    assert!(result.is_rejected());
}

#[test]
fn test_approval_result_modified() {
    let changes = vec![("amount".to_string(), JsonValue::Number(JsonNumber::PosInt(500)))];
    let result = ApprovalResult::modified(changes);
    assert!(result.is_approved());
    assert!(!result.is_rejected());
}

#[test]
fn test_hitl_check_result_not_required() {
    let result = HITLCheckResult::not_required();
    assert!(!result.is_required());
    assert!(result.into_request().is_none());
}

#[test]
fn test_hitl_check_result_required() {
    let trigger = ApprovalTrigger::tool("test", JsonValue::Object(Vec::new()));
    let result = HITLCheckResult::required(trigger, Vec::new(), "Approve?", Some(60));
    assert!(result.is_required());
    let request = result.into_request().unwrap();
    assert_eq!(request.message, "Approve?");
    assert_eq!(request.timeout, Some(WaitDuration::from_secs(60)));
}

#[test]
fn request_ids_are_hyphenated_and_fresh() {
    let a = ApprovalRequest::new(ApprovalTrigger::condition("c", "m"), "x");
    let b = ApprovalRequest::new(ApprovalTrigger::condition("c", "m"), "x");
    for id in [&a.id, &b.id] {
        let chars: Vec<char> = id.chars().collect();
        assert_eq!(chars.len(), 36);
        for i in [8, 13, 18, 23] {
            assert_eq!(chars[i], '-');
        }
    }
    assert_ne!(a.id, b.id);
}

#[test]
fn language_texts_keep_each_language_once() {
    let texts = LanguageTexts::from_pairs(pairs(&[("en", "Old"), ("ko", "한국어"), ("en", "New")]));
    assert_eq!(texts.pairs(), &pairs(&[("en", "New"), ("ko", "한국어")]));
    let msg = ApprovalMessage::multi_language(pairs(&[("en", "Old"), ("ko", "한국어"), ("en", "New")]));
    assert_eq!(msg.get("en"), Some("New".to_string()));
    assert_eq!(msg.available_languages(), vec!["en".to_string(), "ko".to_string()]);
}
