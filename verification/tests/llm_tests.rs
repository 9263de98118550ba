use ai_agents::chat::{ChatMessage, FinishReason, LLMError, LLMFeature, Role, ToolChoice};
use ai_agents::google::{
    classify_finish, find_sse_frame_end, google_supports, google_supports_tool_choice, is_valid_function_name,
    optional_u32, parse_usage, validate_function_name, validate_json_numbers, validate_model_name,
};
use ai_agents::google_response::parse_response;
use ai_agents::registry::LLMRegistry;
use ai_agents::json::{JsonNumber, JsonValue};
use ai_agents::provider::{
    estimate_tokens, extract_system_and_messages, local_supports, map_finish_reason, map_provider_error,
    messages_to_prompt, ModelInfo, ProviderBuilder, ProviderSettings, ProviderType,
};
use std::str::FromStr;

fn obj(members: Vec<(&str, JsonValue)>) -> JsonValue {
    JsonValue::Object(members.into_iter().map(|(k, v)| (k.to_string(), v)).collect())
}

fn num(n: u64) -> JsonValue {
    JsonValue::Number(JsonNumber::PosInt(n))
}

fn provider(provider_type: ProviderType) -> ProviderSettings {
    let base_url = if provider_type == ProviderType::OpenAICompatible {
        Some("http://localhost:1234/v1".to_string())
    } else {
        None
    };
    ProviderSettings::from_spec_config(provider_type, "model", Some("key".to_string()), base_url, &Vec::new())
        .ok()
        .unwrap()
}

fn message_of(e: LLMError) -> String {
    match e {
        LLMError::Config(m) | LLMError::Network(m) | LLMError::ContentFiltered(m) | LLMError::Serialization(m)
        | LLMError::Other(m) => m,
        LLMError::API { message, .. } => message,
        LLMError::RateLimit { .. } => String::new(),
    }
}

#[test]
fn test_model_info_builder() {
    let info = ModelInfo::new("llama-2-7b", "llama")
        .with_parameters(7_000_000_000)
        .with_quantization("Q4_K_M")
        .with_context_length(4096);
    assert_eq!(info.model_name, "llama-2-7b");
    assert_eq!(info.model_type, "llama");
    assert_eq!(info.parameters, Some(7_000_000_000));
    assert_eq!(info.quantization, Some("Q4_K_M".to_string()));
    assert_eq!(info.context_length, Some(4096));
}

#[test]
fn test_messages_to_prompt() {
    let messages = vec![ChatMessage::system("You are helpful."), ChatMessage::user("Hello")];
    let prompt = messages_to_prompt(&messages);
    assert!(prompt.contains("System: You are helpful."));
    assert!(prompt.contains("User: Hello"));
    assert!(prompt.ends_with("Assistant: "));
}

#[test]
fn test_estimate_tokens() {
    let text = "This is a test string with some words";
    let tokens = estimate_tokens(text);
    assert!(tokens > 0);
    assert_eq!(tokens, (text.len() / 4) as u32);
}

#[test]
fn test_openai_compatible_from_str() {
    assert_eq!(ProviderType::from_str("openai-compatible").unwrap(), ProviderType::OpenAICompatible);
    assert_eq!(ProviderType::from_str("openai_compatible").unwrap(), ProviderType::OpenAICompatible);
}

#[test]
fn test_openai_compatible_no_api_key_required() {
    assert!(ProviderType::OpenAICompatible.api_key_env_var().is_none());
}

#[test]
fn test_openrouter_from_str() {
    assert_eq!(ProviderType::from_str("openrouter").unwrap(), ProviderType::OpenRouter);
}

#[test]
fn test_openrouter_api_key_env() {
    assert_eq!(ProviderType::OpenRouter.api_key_env_var(), Some("OPENROUTER_API_KEY"));
}

#[test]
fn provider_names_parse_in_any_case() {
    assert_eq!(ProviderType::from_str("OpenAI").unwrap(), ProviderType::OpenAI);
    assert_eq!(ProviderType::from_str("unknown"), Err("unknown provider type"));
}

#[test]
fn test_builder() {
    let provider = ProviderBuilder::new()
        .provider(ProviderType::OpenAI)
        .model("gpt-4")
        .api_key("XXXXXXXXXX")
        .build(&Vec::new())
        .ok()
        .unwrap();
    assert_eq!(provider.provider_name(), "openai");
    assert_eq!(provider.model_name(), "gpt-4");
}

#[test]
fn test_builder_missing_fields() {
    let result = ProviderBuilder::new().model("gpt-4").build(&Vec::new());
    let message = message_of(result.err().unwrap());
    assert!(message.contains("Provider type not set"));
}

#[test]
fn builder_reads_the_named_key_variable() {
    let env = vec![("MY_KEY".to_string(), "secret".to_string())];
    let built = ProviderBuilder::new().provider(ProviderType::Anthropic).model("m").api_key_env("MY_KEY").build(&env);
    assert_eq!(built.ok().unwrap().api_key, Some("secret".to_string()));
    let missing = ProviderBuilder::new().provider(ProviderType::Anthropic).model("m").api_key_env("OTHER").build(&env);
    assert_eq!(message_of(missing.err().unwrap()), "API key environment variable not found");
}

#[test]
fn provider_key_comes_from_its_variable() {
    let env = vec![("OPENAI_API_KEY".to_string(), "k1".to_string())];
    let s = ProviderSettings::from_spec_config(ProviderType::OpenAI, "gpt", None, None, &env).ok().unwrap();
    assert_eq!(s.api_key, Some("k1".to_string()));
    let err = ProviderSettings::from_spec_config(ProviderType::Groq, "m", None, None, &env).err().unwrap();
    assert_eq!(message_of(err), "API key not found in environment variable GROQ_API_KEY");
}

#[test]
fn test_openai_compatible_requires_base_url() {
    let result = ProviderSettings::from_spec_config(ProviderType::OpenAICompatible, "local-model", None, None, &Vec::new());
    assert!(message_of(result.err().unwrap()).contains("base_url"));
}

#[test]
fn test_openai_compatible_with_base_url() {
    let result = ProviderSettings::from_spec_config(
        ProviderType::OpenAICompatible,
        "local-model",
        None,
        Some("http://localhost:1234/v1".to_string()),
        &Vec::new(),
    );
    let provider = result.ok().unwrap();
    assert_eq!(provider.provider_name(), "openai-compatible");
    assert_eq!(provider.base_url(), Some("http://localhost:1234/v1"));
}

#[test]
fn ollama_gets_its_default_endpoint() {
    let s = ProviderSettings::from_spec_config(ProviderType::Ollama, "llama3.1", None, None, &Vec::new()).ok().unwrap();
    assert_eq!(s.base_url(), Some("http://localhost:11434"));
    assert_eq!(s.api_key, Some(String::new()));
}

#[test]
fn test_feature_override_enables_function_calling() {
    let p = provider(ProviderType::OpenAICompatible).with_feature_override(LLMFeature::FunctionCalling, true);
    assert!(p.supports(LLMFeature::FunctionCalling));
}

#[test]
fn test_feature_override_disables_vision() {
    let p = provider(ProviderType::OpenAI).with_feature_override(LLMFeature::Vision, false);
    assert!(!p.supports(LLMFeature::Vision));
}

#[test]
fn test_native_tool_choice_support_matrix() {
    for provider_type in [ProviderType::OpenAI, ProviderType::Anthropic, ProviderType::OpenRouter] {
        let p = provider(provider_type);
        assert!(p.supports_tool_choice(&ToolChoice::Auto));
        assert!(p.supports_tool_choice(&ToolChoice::Required));
        assert!(p.supports_tool_choice(&ToolChoice::Specific("tool".to_string())));
        assert!(p.supports_tool_choice(&ToolChoice::NoTools));
    }
    let disabled = provider(ProviderType::OpenAI).with_feature_override(LLMFeature::FunctionCalling, false);
    assert!(!disabled.supports_tool_choice(&ToolChoice::Auto));
    assert!(!disabled.supports_tool_choice(&ToolChoice::Required));
    let google = provider(ProviderType::Google);
    assert!(google.supports_tool_choice(&ToolChoice::Auto));
    assert!(!google.supports_tool_choice(&ToolChoice::Required));
    assert!(!google.supports_tool_choice(&ToolChoice::NoTools));
    let compatible = provider(ProviderType::OpenAICompatible);
    assert!(!compatible.supports_tool_choice(&ToolChoice::Auto));
    let compatible = compatible.with_feature_override(LLMFeature::FunctionCalling, true);
    assert!(compatible.supports_tool_choice(&ToolChoice::Auto));
    assert!(compatible.supports_tool_choice(&ToolChoice::Required));
    for provider_type in [
        ProviderType::Ollama,
        ProviderType::DeepSeek,
        ProviderType::XAI,
        ProviderType::Phind,
        ProviderType::Groq,
        ProviderType::Cohere,
        ProviderType::Mistral,
    ] {
        let p = if provider_type == ProviderType::Ollama {
            ProviderSettings::from_spec_config(provider_type, "m", None, None, &Vec::new()).ok().unwrap()
        } else {
            provider(provider_type)
        };
        assert!(!p.supports_tool_choice(&ToolChoice::Auto));
    }
}

#[test]
fn test_configured_tool_choice_is_reported() {
    let p = provider(ProviderType::OpenAI).with_tool_choice(ToolChoice::Specific("calculator".to_string()));
    assert!(matches!(p.tool_choice, Some(ToolChoice::Specific(ref name)) if name == "calculator"));
}

#[test]
fn test_extract_system_messages() {
    let messages = vec![
        ChatMessage::system("You are a helpful assistant."),
        ChatMessage::system("Be concise."),
        ChatMessage::user("Hello"),
    ];
    let (system_prompt, non_system) = extract_system_and_messages(&messages);
    assert_eq!(system_prompt, Some("You are a helpful assistant.\nBe concise.".to_string()));
    assert_eq!(non_system.len(), 1);
    assert_eq!(non_system[0].role, Role::User);
}

#[test]
fn test_extract_no_system_messages() {
    let messages = vec![ChatMessage::user("Hello"), ChatMessage::assistant("Hi there!")];
    let (system_prompt, non_system) = extract_system_and_messages(&messages);
    assert!(system_prompt.is_none());
    assert_eq!(non_system.len(), 2);
}

#[test]
fn test_ollama_error_connection_refused() {
    let err = map_provider_error(ProviderType::Ollama, "llama3.1", None, "connection refused");
    assert!(message_of(err).contains("ollama serve"));
}

#[test]
fn test_ollama_error_model_not_found() {
    let msg = message_of(map_provider_error(ProviderType::Ollama, "llama3.1", None, "model not found"));
    assert!(msg.contains("ollama pull"));
    assert!(msg.contains("llama3.1"));
}

#[test]
fn provider_errors_of_other_services_are_api_errors() {
    let err = map_provider_error(ProviderType::OpenAI, "gpt", None, "Connection Refused");
    assert!(matches!(err, LLMError::API { ref message, status: None } if message == "LLM provider error: Connection Refused"));
    let err = map_provider_error(ProviderType::Ollama, "m", Some("http://h:1"), "OS Error 111");
    assert_eq!(message_of(err), "Cannot connect to Ollama at http://h:1. Is Ollama running? Start it with: ollama serve");
}

#[test]
fn finish_reasons_of_the_client() {
    assert_eq!(map_finish_reason("end_turn"), FinishReason::Stop);
    assert_eq!(map_finish_reason("max_tokens"), FinishReason::Length);
    assert_eq!(map_finish_reason("function_call"), FinishReason::ToolCall);
    assert_eq!(map_finish_reason("content_filter"), FinishReason::ContentFilter);
    assert_eq!(map_finish_reason("weird"), FinishReason::Other);
}

#[test]
fn local_models_stream_and_take_system_messages_only() {
    assert!(local_supports(LLMFeature::Streaming));
    assert!(local_supports(LLMFeature::SystemMessages));
    assert!(!local_supports(LLMFeature::Vision));
}

#[test]
fn usage_includes_thought_tokens_without_recomputing_reported_total() {
    let v = obj(vec![
        ("promptTokenCount", num(10)),
        ("candidatesTokenCount", num(4)),
        ("thoughtsTokenCount", num(6)),
        ("totalTokenCount", num(20)),
    ]);
    let usage = parse_usage(Some(&v)).ok().unwrap().unwrap();
    assert_eq!(usage.prompt_tokens, 10);
    assert_eq!(usage.completion_tokens, 10);
    assert_eq!(usage.total_tokens, 20);
}

#[test]
fn usage_without_counts_or_with_bad_counts() {
    assert!(parse_usage(None).ok().unwrap().is_none());
    let partial = obj(vec![("promptTokenCount", num(10))]);
    assert!(parse_usage(Some(&partial)).ok().unwrap().is_none());
    let summed = obj(vec![("promptTokenCount", num(3)), ("candidatesTokenCount", num(4))]);
    assert_eq!(parse_usage(Some(&summed)).ok().unwrap().unwrap().total_tokens, 7);
    let big = obj(vec![("promptTokenCount", num(1 << 40)), ("candidatesTokenCount", num(4))]);
    assert_eq!(
        message_of(parse_usage(Some(&big)).err().unwrap()),
        "Google provider protocol error: Google promptTokenCount exceeds the supported range"
    );
    let negative = obj(vec![("x", JsonValue::Number(JsonNumber::NegInt(-1)))]);
    assert_eq!(
        message_of(optional_u32(&negative, "x").err().unwrap()),
        "Google provider protocol error: Google x must be a non-negative integer"
    );
    let overflow = obj(vec![("promptTokenCount", num(4294967295)), ("candidatesTokenCount", num(1))]);
    assert_eq!(
        message_of(parse_usage(Some(&overflow)).err().unwrap()),
        "Google provider protocol error: Google total token count overflow"
    );
}

#[test]
fn google_struct_numbers_reject_integers_that_cannot_round_trip_through_double() {
    assert!(validate_json_numbers(&num(1 << 53), "fixture").is_ok());
    let error = validate_json_numbers(&num((1 << 53) + 1), "fixture").err().unwrap();
    assert!(matches!(error, LLMError::Serialization(_)));
    let nested = JsonValue::Array(vec![obj(vec![("n", JsonValue::Number(JsonNumber::NegInt(-(1 << 54))))])]);
    assert_eq!(
        message_of(validate_json_numbers(&nested, "args").err().unwrap()),
        "args contains a number that Google Struct cannot represent exactly"
    );
}

#[test]
fn finish_reasons_preserve_length_and_reject_blocked_or_malformed_calls() {
    assert_eq!(classify_finish("STOP", false).ok().unwrap(), FinishReason::Stop);
    assert_eq!(classify_finish("STOP", true).ok().unwrap(), FinishReason::ToolCall);
    assert_eq!(classify_finish("MAX_TOKENS", false).ok().unwrap(), FinishReason::Length);
    assert!(matches!(classify_finish("SAFETY", false).err().unwrap(), LLMError::ContentFiltered(_)));
    assert!(matches!(classify_finish("MALFORMED_FUNCTION_CALL", true).err().unwrap(), LLMError::Serialization(_)));
    assert_eq!(
        message_of(classify_finish("OTHER", false).err().unwrap()),
        "Google provider protocol error: unsupported Google finishReason 'OTHER'"
    );
    assert_eq!(
        message_of(classify_finish("NEW", false).err().unwrap()),
        "Google provider protocol error: unknown Google finishReason 'NEW'"
    );
    let response = obj(vec![(
        "candidates",
        JsonValue::Array(vec![obj(vec![("finishReason", JsonValue::Str("SAFETY".to_string()))])]),
    )]);
    let filtered = parse_response(&response, "gemini-2.5-flash", false, &Vec::new()).err().unwrap();
    assert!(matches!(filtered, LLMError::ContentFiltered(_)));
}

#[test]
fn function_and_model_names() {
    assert!(is_valid_function_name("lookup_order.v2:x-y"));
    assert!(!is_valid_function_name(""));
    assert!(!is_valid_function_name("has space"));
    assert!(!is_valid_function_name(&"a".repeat(129)));
    assert!(is_valid_function_name(&"a".repeat(128)));
    assert_eq!(message_of(validate_function_name("bad name").err().unwrap()), "Google function name 'bad name' is invalid");
    assert!(validate_model_name("gemini-2.5-flash").is_ok());
    assert!(validate_model_name("models/gemini").is_err());
    assert!(validate_model_name("").is_err());
}

#[test]
fn sse_frames_end_at_the_first_blank_line() {
    assert_eq!(find_sse_frame_end(b"data: 1\n\ndata: 2"), Some((7, 2)));
    assert_eq!(find_sse_frame_end(b"data: 1\r\n\r\ndata: 2\n\n"), Some((7, 4)));
    assert_eq!(find_sse_frame_end(b"data: 1\r\n"), None);
}

#[test]
fn google_feature_support() {
    assert!(google_supports(&Vec::new(), LLMFeature::JsonMode));
    assert!(!google_supports(&Vec::new(), LLMFeature::Vision));
    assert!(google_supports(&vec![(LLMFeature::Vision, true)], LLMFeature::Vision));
    assert!(google_supports_tool_choice(&Vec::new(), &ToolChoice::Auto));
    assert!(!google_supports_tool_choice(&vec![(LLMFeature::FunctionCalling, false)], &ToolChoice::Auto));
}

struct MockProvider {
    name: String,
}

impl MockProvider {
    fn provider_name(&self) -> &str {
        &self.name
    }
}

#[test]
fn test_registry_basic() {
    let mut registry = LLMRegistry::new();
    let provider = MockProvider { name: "test".into() };
    registry.register("default", provider);
    assert!(registry.has("default"));
    assert!(!registry.has("unknown"));
    assert_eq!(registry.len(), 1);
}

#[test]
fn test_registry_default_and_router() {
    let mut registry = LLMRegistry::new();
    registry.register("main", MockProvider { name: "main".into() });
    registry.register("router", MockProvider { name: "router".into() });
    registry.set_default("main");
    registry.set_router("router");
    assert!(registry.default().is_ok());
    assert!(registry.router().is_ok());
    assert_eq!(registry.default().ok().unwrap().provider_name(), "main");
    assert_eq!(registry.router().ok().unwrap().provider_name(), "router");
}

#[test]
fn test_registry_router_fallback() {
    let mut registry = LLMRegistry::new();
    registry.register("default", MockProvider { name: "default".into() });
    let router = registry.router().ok().unwrap();
    assert_eq!(router.provider_name(), "default");
}

#[test]
fn test_registry_missing_alias() {
    let registry: LLMRegistry<MockProvider> = LLMRegistry::new();
    assert!(registry.get("nonexistent").is_err());
}

#[test]
fn registry_replaces_a_provider_under_the_same_alias() {
    let mut registry = LLMRegistry::new();
    registry.register("a", MockProvider { name: "first".into() });
    registry.register("b", MockProvider { name: "other".into() });
    registry.register("a", MockProvider { name: "second".into() });
    assert_eq!(registry.len(), 2);
    assert_eq!(registry.get("a").ok().unwrap().provider_name(), "second");
    let mut aliases = registry.aliases();
    aliases.sort();
    assert_eq!(aliases, vec!["a".to_string(), "b".to_string()]);
    assert!(!registry.is_empty());
    match registry.get("zzz") {
        Err(e) => assert_eq!(message_of(e), "LLM alias not found: zzz"),
        Ok(_) => panic!("missing alias must fail"),
    }
    let empty: LLMRegistry<MockProvider> = LLMRegistry::new();
    assert!(empty.is_empty());
    assert!(empty.default().is_err());
}
