use ai_agents::chat::{FinishReason, LLMError, TokenUsage};
use ai_agents::google_request::{
    build_request, effective_reasoning, effective_timeout, generation_config, map_tool_definitions, normalize_tool_schema,
    reject_unsupported_transport_settings, thinking_config, validate_extra_body, GenerationSettings, SamplingValue,
    ToolDefinition,
};
use ai_agents::google_response::{
    parse_function_calls, parse_optional_function_call_id, parse_response, validate_required_signatures, visible_text,
};
use ai_agents::google_stream::{frame_data, next_frame, sse_event, sse_json_error, SseEvent, SseState, StreamOutput};
use ai_agents::json::{JsonNumber, JsonValue};
use ai_agents::google::{map_http_error, map_transport_error};
use ai_agents::google_exchange::{flush_pending, readable_calls, unsigned_exchange, CallMarker, PendingCall, PendingExchange, ToolResult};
use ai_agents::hitl::WaitDuration;
use ai_agents::text::{parse_u64, str_replace};

fn j(text: &str) -> serde_json::Value {
    serde_json::from_str(text).unwrap()
}

fn to_json(v: &serde_json::Value) -> JsonValue {
    match v {
        serde_json::Value::Null => JsonValue::Null,
        serde_json::Value::Bool(b) => JsonValue::Bool(*b),
        serde_json::Value::Number(n) => {
            if let Some(u) = n.as_u64() {
                JsonValue::Number(JsonNumber::PosInt(u))
            } else if let Some(i) = n.as_i64() {
                JsonValue::Number(JsonNumber::NegInt(i))
            } else {
                JsonValue::Number(JsonNumber::Float(n.as_f64().unwrap().to_bits()))
            }
        }
        serde_json::Value::String(s) => JsonValue::Str(s.clone()),
        serde_json::Value::Array(items) => JsonValue::Array(items.iter().map(to_json).collect()),
        serde_json::Value::Object(m) => JsonValue::Object(m.iter().map(|(k, v)| (k.clone(), to_json(v))).collect()),
    }
}

fn from_json(v: &JsonValue) -> serde_json::Value {
    match v {
        JsonValue::Null => serde_json::Value::Null,
        JsonValue::Bool(b) => serde_json::Value::Bool(*b),
        JsonValue::Number(JsonNumber::PosInt(u)) => serde_json::Value::Number((*u).into()),
        JsonValue::Number(JsonNumber::NegInt(i)) => serde_json::Value::Number((*i).into()),
        JsonValue::Number(JsonNumber::Float(bits)) => {
            serde_json::Value::Number(serde_json::Number::from_f64(f64::from_bits(*bits)).unwrap())
        }
        JsonValue::Str(s) => serde_json::Value::String(s.clone()),
        JsonValue::Array(items) => serde_json::Value::Array(items.iter().map(from_json).collect()),
        JsonValue::Object(m) => {
            serde_json::Value::Object(m.iter().map(|(k, v)| (k.clone(), from_json(v))).collect())
        }
    }
}

fn members(v: &serde_json::Value) -> Vec<(String, JsonValue)> {
    match to_json(v) {
        JsonValue::Object(m) => m,
        _ => panic!("not an object"),
    }
}

fn settings() -> GenerationSettings {
    GenerationSettings {
        max_tokens: None,
        temperature: None,
        top_p: None,
        top_k: None,
        timeout_seconds: None,
        reasoning: None,
        reasoning_effort: None,
        reasoning_budget_tokens: None,
        extra: Vec::new(),
    }
}

fn message_of(e: LLMError) -> String {
    match e {
        LLMError::Config(m) | LLMError::Network(m) | LLMError::ContentFiltered(m) | LLMError::Serialization(m)
        | LLMError::Other(m) => m,
        LLMError::API { message, .. } => message,
        LLMError::RateLimit { .. } => String::new(),
    }
}

fn object_of(members: Vec<(String, JsonValue)>) -> serde_json::Value {
    from_json(&JsonValue::Object(members))
}

#[test]
fn generation_config_carries_sampling_and_limits() {
    let mut s = settings();
    s.max_tokens = Some(256);
    s.temperature = Some(SamplingValue::Finite(0.5f64.to_bits()));
    s.top_k = Some(40);
    let config = object_of(generation_config(&s, "gemini-2.0-flash").unwrap());
    assert_eq!(config, j(r#"{"maxOutputTokens":256,"temperature":0.5,"topK":40}"#));
    assert!(generation_config(&settings(), "gemini-2.0-flash").unwrap().is_empty());
}

#[test]
fn generation_config_rejects_non_finite_sampling() {
    let mut s = settings();
    s.top_p = Some(SamplingValue::NonFinite);
    let e = generation_config(&s, "gemini-2.5-flash").unwrap_err();
    assert!(matches!(e, LLMError::Config(_)));
    assert_eq!(message_of(e), "Google top_p must be finite");
}

#[test]
fn reasoning_effort_maps_to_level_or_budget_by_model() {
    let mut s = settings();
    s.reasoning_effort = Some("High".to_string());
    let three = object_of(thinking_config(&s, "gemini-3-pro").unwrap());
    assert_eq!(three, j(r#"{"thinkingLevel":"high"}"#));
    let two = object_of(thinking_config(&s, "gemini-2.5-flash").unwrap());
    assert_eq!(two, j(r#"{"thinkingBudget":24576}"#));
    let e = thinking_config(&s, "gemini-1.5-pro").unwrap_err();
    assert_eq!(message_of(e), "Google reasoning_effort is unsupported for model 'gemini-1.5-pro'");
    s.reasoning_effort = Some("max".to_string());
    let e = thinking_config(&s, "gemini-3-pro").unwrap_err();
    assert_eq!(message_of(e), "invalid Google reasoning_effort 'max'; expected low, medium, or high");
}

#[test]
fn reasoning_budget_and_switch() {
    let mut s = settings();
    s.reasoning_budget_tokens = Some(2048);
    assert_eq!(object_of(thinking_config(&s, "gemini-2.5-flash").unwrap()), j(r#"{"thinkingBudget":2048}"#));
    let e = thinking_config(&s, "gemini-3-flash").unwrap_err();
    assert_eq!(message_of(e), "Google Gemini 3 models require reasoning_effort instead of reasoning_budget_tokens");
    s.reasoning_effort = Some("low".to_string());
    let e = thinking_config(&s, "gemini-2.5-flash").unwrap_err();
    assert_eq!(message_of(e), "Google reasoning_effort and reasoning_budget_tokens cannot be sent together");

    let mut off = settings();
    off.reasoning = Some(false);
    assert_eq!(object_of(thinking_config(&off, "gemini-2.5-flash").unwrap()), j(r#"{"thinkingBudget":0}"#));
    let e = thinking_config(&off, "gemini-2.5-pro").unwrap_err();
    assert_eq!(message_of(e), "Google model 'gemini-2.5-pro' does not support disabling thinking");
    off.reasoning = Some(true);
    assert!(thinking_config(&off, "gemini-2.5-pro").unwrap().is_empty());
}

#[test]
fn free_form_settings_are_read_with_their_types() {
    let mut s = settings();
    s.extra = members(&j(r#"{"reasoning_effort":"medium","timeout_seconds":30}"#));
    assert_eq!(object_of(thinking_config(&s, "gemini-2.5-flash").unwrap()), j(r#"{"thinkingBudget":8192}"#));
    assert_eq!(effective_timeout(&s).unwrap(), Some(30));
    s.extra = members(&j(r#"{"reasoning":"yes","timeout_seconds":-1}"#));
    assert_eq!(message_of(effective_reasoning(&s).unwrap_err()), "Google reasoning must be a boolean");
    assert_eq!(message_of(effective_timeout(&s).unwrap_err()), "Google timeout_seconds must be a u64");
    s.extra = members(&j(r#"{"reasoning_budget_tokens":5000000000}"#));
    assert_eq!(
        message_of(thinking_config(&s, "gemini-2.5-flash").unwrap_err()),
        "Google reasoning_budget_tokens must fit in u32"
    );
    s.timeout_seconds = Some(5);
    assert_eq!(effective_timeout(&s).unwrap(), Some(5));
}

#[test]
fn resilient_transport_settings_are_refused() {
    let mut s = settings();
    assert!(reject_unsupported_transport_settings(&s).is_ok());
    s.extra = members(&j(r#"{"normalize_response":true,"resilient_jitter":0.1}"#));
    assert_eq!(
        message_of(reject_unsupported_transport_settings(&s).unwrap_err()),
        "Google setting 'resilient_jitter' is not supported by the first-party adapter"
    );
}

#[test]
fn extra_body_may_set_only_generation_and_safety_settings() {
    let ok = members(&j(r#"{"generationConfig":{"candidateCount":1},"safetySettings":[]}"#));
    let out = validate_extra_body(&ok).unwrap();
    assert_eq!(object_of(out), object_of(ok));
    let owned = members(&j(r#"{"tools":[]}"#));
    assert_eq!(
        message_of(validate_extra_body(&owned).unwrap_err()),
        "Google extra_body cannot override framework-owned field 'tools'"
    );
    let unknown = members(&j(r#"{"cachedContent":"x"}"#));
    assert_eq!(message_of(validate_extra_body(&unknown).unwrap_err()), "unsupported Google extra_body field 'cachedContent'");
}

#[test]
fn tool_schemas_are_normalized() {
    let empty = normalize_tool_schema(&to_json(&j(r#"{}"#))).unwrap();
    assert_eq!(from_json(&empty), j(r#"{"type":"object","properties":{}}"#));
    let with_dialect = to_json(&j(r#"{"$schema":"https://json-schema.org/draft/2020-12/schema","type":"object"}"#));
    assert_eq!(from_json(&normalize_tool_schema(&with_dialect).unwrap()), j(r#"{"type":"object"}"#));
    let not_object = to_json(&j(r#"{"type":"string"}"#));
    assert_eq!(
        message_of(normalize_tool_schema(&not_object).unwrap_err()),
        "Google tool input_schema must describe an object"
    );
    let e = normalize_tool_schema(&to_json(&j(r#"[1]"#))).unwrap_err();
    assert_eq!(message_of(e), "Google tool input_schema must be a JSON object");
    let big = to_json(&j(r#"{"type":"object","maximum":9007199254740993}"#));
    assert!(matches!(normalize_tool_schema(&big).unwrap_err(), LLMError::Serialization(_)));
}

#[test]
fn tool_schema_uses_parameters_json_schema_without_dropping_constraints() {
    let schema = j(r#"{"type":"object","properties":{"items":{"type":"array","items":{"type":"integer"}}},"required":["items"],"additionalProperties":false}"#);
    let value = map_tool_definitions(&vec![ToolDefinition {
        name: "calculate".to_string(),
        description: "Calculate".to_string(),
        input_schema: to_json(&schema),
    }])
    .unwrap();
    let value = from_json(&value);
    let declaration = &value[0]["functionDeclarations"][0];
    assert_eq!(declaration["parametersJsonSchema"], schema);
    assert!(declaration.get("parameters").is_none());
}

#[test]
fn invalid_tool_names_are_refused() {
    let e = map_tool_definitions(&vec![ToolDefinition {
        name: "bad name".to_string(),
        description: String::new(),
        input_schema: to_json(&j(r#"{}"#)),
    }])
    .unwrap_err();
    assert_eq!(message_of(e), "Google function name 'bad name' is invalid");
}

#[test]
fn request_body_merges_generated_settings_over_extra_body() {
    let mut s = settings();
    s.max_tokens = Some(100);
    s.extra = members(&j(r#"{"extra_body":{"generationConfig":{"candidateCount":1,"maxOutputTokens":5},"safetySettings":[]}}"#));
    let contents = vec![to_json(&j(r#"{"role":"user","parts":[{"text":"hi"}]}"#))];
    let system = Some(to_json(&j(r#"{"parts":[{"text":"be brief"}]}"#)));
    let tools = vec![ToolDefinition {
        name: "lookup".to_string(),
        description: "Look up a value".to_string(),
        input_schema: to_json(&j(r#"{"type":"object"}"#)),
    }];
    let body = from_json(&build_request(&s, Ok((system, contents)), Some(&tools), "gemini-2.0-flash").unwrap());
    assert_eq!(body["generationConfig"], j(r#"{"candidateCount":1,"maxOutputTokens":100}"#));
    assert_eq!(body["safetySettings"], j(r#"[]"#));
    assert_eq!(body["contents"][0]["parts"][0]["text"], "hi");
    assert_eq!(body["systemInstruction"]["parts"][0]["text"], "be brief");
    assert_eq!(body["tools"][0]["functionDeclarations"][0]["name"], "lookup");

    let e = build_request(&settings(), Err(LLMError::Serialization("bad marker".to_string())), None, "gemini-2.0-flash")
        .unwrap_err();
    assert_eq!(message_of(e), "bad marker");
    let mut bad = settings();
    bad.extra = members(&j(r#"{"extra_body":{"generationConfig":3}}"#));
    let e = build_request(&bad, Ok((None, Vec::new())), None, "gemini-2.0-flash").unwrap_err();
    assert_eq!(message_of(e), "Google extra_body.generationConfig must be an object");
    bad.extra = members(&j(r#"{"extra_body":[1]}"#));
    let e = build_request(&bad, Ok((None, Vec::new())), None, "gemini-2.0-flash").unwrap_err();
    assert_eq!(message_of(e), "Google extra_body must be a JSON object");
}

fn part_list(v: serde_json::Value) -> Vec<JsonValue> {
    match to_json(&v) {
        JsonValue::Array(items) => items,
        _ => panic!("not an array"),
    }
}

#[test]
fn visible_text_leaves_out_thoughts() {
    let p = part_list(j(r#"[{"text":"thinking...","thought":true},{"text":"Hello"},{"functionCall":{"name":"x"}},{"text":", world"}]"#));
    assert_eq!(visible_text(&p).unwrap(), "Hello, world");
    let bad = part_list(j(r#"[{"text":5}]"#));
    assert_eq!(
        message_of(visible_text(&bad).unwrap_err()),
        "Google provider protocol error: Google text part must contain a string"
    );
}

#[test]
fn gemini_three_requires_signature_on_the_first_function_call_part() {
    let parts = part_list(j(r#"[{"functionCall":{"name":"lookup","args":{}}}]"#));
    let calls = parse_function_calls(&parts, &Vec::new()).unwrap();
    let error = validate_required_signatures("gemini-3.7-flash", &parts, &calls).unwrap_err();
    assert!(matches!(error, LLMError::Serialization(_)));
    validate_required_signatures("gemini-2.5-flash", &parts, &calls).unwrap();
}

#[test]
fn repeated_provider_id_gets_a_fresh_runtime_id_without_changing_wire_identity() {
    let parts = part_list(j(r#"[{"functionCall":{"id":"provider-call","name":"lookup","args":{}},"thoughtSignature":"fixture"}]"#));
    let existing = vec!["provider-call".to_string()];
    let calls = parse_function_calls(&parts, &existing).unwrap();
    assert_ne!(calls[0].id, "provider-call");
    assert_eq!(calls[0].provider_id.as_deref(), Some("provider-call"));
    assert_eq!(from_json(&parts[0])["functionCall"]["id"], "provider-call");
}

#[test]
fn non_string_function_call_id_is_rejected_before_execution_projection() {
    for id in [j(r#"null"#), j(r#"7"#), j(r#"true"#), j(r#"{"bad":true}"#)] {
        let parts = part_list(j(&format!(r#"[{{"functionCall":{{"id":{},"name":"lookup","args":{{}}}}}}]"#, id)));
        let error = match parse_function_calls(&parts, &Vec::new()) {
            Ok(_) => panic!("non-string functionCall id must fail"),
            Err(error) => error,
        };
        assert!(matches!(error, LLMError::Serialization(_)));
    }
}

#[test]
fn function_calls_keep_provider_ids_and_make_up_missing_ones() {
    let parts = part_list(j(r#"[{"functionCall":{"id":"a","name":"one","args":{"x":1}}},{"text":"between"},{"functionCall":{"name":"two"}}]"#));
    let calls = parse_function_calls(&parts, &Vec::new()).unwrap();
    assert_eq!(calls.len(), 2);
    assert_eq!(calls[0].id, "a");
    assert_eq!(calls[0].part_index, 0);
    assert_eq!(from_json(&calls[0].arguments), j(r#"{"x":1}"#));
    assert_eq!(calls[1].part_index, 2);
    assert!(calls[1].id.starts_with("ai-google-call-"));
    assert_eq!(from_json(&calls[1].arguments), j(r#"{}"#));
    let dup = parts_dup();
    assert_eq!(
        message_of(parse_function_calls(&dup, &Vec::new()).unwrap_err()),
        "Google provider protocol error: duplicate Google functionCall id"
    );
    let no_name = part_list(j(r#"[{"functionCall":{"name":""}}]"#));
    assert_eq!(
        message_of(parse_function_calls(&no_name, &Vec::new()).unwrap_err()),
        "Google provider protocol error: functionCall name is missing"
    );
    let bad_args = part_list(j(r#"[{"functionCall":{"name":"f","args":[1]}}]"#));
    assert_eq!(
        message_of(parse_function_calls(&bad_args, &Vec::new()).unwrap_err()),
        "Google provider protocol error: functionCall args must be an object when present"
    );
}

fn parts_dup() -> Vec<JsonValue> {
    part_list(j(r#"[{"functionCall":{"id":"same","name":"one"}},{"functionCall":{"id":"same","name":"two"}}]"#))
}

#[test]
fn optional_call_ids() {
    assert_eq!(parse_optional_function_call_id(&to_json(&j(r#"{"name":"f"}"#))).unwrap(), None);
    assert_eq!(
        parse_optional_function_call_id(&to_json(&j(r#"{"id":"c1"}"#))).unwrap(),
        Some("c1".to_string())
    );
    assert!(parse_optional_function_call_id(&to_json(&j(r#"{"id":""}"#))).is_err());
}

#[test]
fn responses_are_read_with_usage_calls_and_version() {
    let resp = to_json(&j(r#"{"candidates":[{"finishReason":"STOP","content":{"role":"model","parts":[{"text":"Sure. "},{"functionCall":{"name":"lookup","args":{"q":"x"}}}]}}],"usageMetadata":{"promptTokenCount":3,"candidatesTokenCount":2},"modelVersion":"gemini-2.5-flash-001"}"#));
    let r = parse_response(&resp, "gemini-2.5-flash", true, &Vec::new()).ok().unwrap();
    assert_eq!(r.content, "Sure. ");
    assert_eq!(r.finish_reason, FinishReason::ToolCall);
    assert_eq!(r.usage, Some(TokenUsage { prompt_tokens: 3, completion_tokens: 2, total_tokens: 5 }));
    assert_eq!(r.model, "gemini-2.5-flash");
    assert_eq!(r.model_version.as_deref(), Some("gemini-2.5-flash-001"));
    assert_eq!(r.calls.len(), 1);
    assert_eq!(r.calls[0].name, "lookup");
    let e = parse_response(&resp, "gemini-2.5-flash", false, &Vec::new()).err().unwrap();
    assert_eq!(
        message_of(e),
        "Google provider protocol error: Google returned a function call when no native tools were exposed"
    );
    let blocked = to_json(&j(r#"{"promptFeedback":{"blockReason":"OTHER"}}"#));
    let e = parse_response(&blocked, "m", false, &Vec::new()).err().unwrap();
    assert!(matches!(&e, LLMError::ContentFiltered(m) if m == "Google blocked the prompt (OTHER)"));
    let empty = to_json(&j(r#"{"candidates":[]}"#));
    assert_eq!(
        message_of(parse_response(&empty, "m", false, &Vec::new()).err().unwrap()),
        "Google provider protocol error: Google returned no candidates"
    );
    let cut = to_json(&j(r#"{"candidates":[{"finishReason":"MAX_TOKENS","content":{"parts":[]}}]}"#));
    let r = parse_response(&cut, "m", false, &Vec::new()).ok().unwrap();
    assert_eq!(r.finish_reason, FinishReason::Length);
    assert_eq!(r.content, "");
}

#[test]
fn stream_buffers_yield_frames_at_blank_lines() {
    let mut pending = b"data: {}\n\ndata: x".to_vec();
    let frame = next_frame(&mut pending).unwrap().unwrap();
    assert_eq!(frame, b"data: {}".to_vec());
    assert_eq!(pending, b"data: x".to_vec());
    assert!(next_frame(&mut pending).unwrap().is_none());
    let mut big = vec![b'a'; 1048577];
    let e = next_frame(&mut big).unwrap_err();
    assert_eq!(message_of(e), "Google provider protocol error: Google SSE frame exceeds the size limit");
}

#[test]
fn frame_data_joins_data_lines() {
    assert_eq!(frame_data(b"event: x\r\ndata: {\"a\":\r\ndata:1}\r").unwrap(), Some("{\"a\":\n1}".to_string()));
    assert_eq!(frame_data(b": comment").unwrap(), None);
    assert_eq!(
        message_of(frame_data(&[0xff, 0xfe]).unwrap_err()),
        "Google provider protocol error: Google SSE frame is not valid UTF-8"
    );
}

fn event_of(frame: &[u8]) -> Option<SseEvent> {
    let data = frame_data(frame).unwrap().unwrap();
    let value: serde_json::Value = serde_json::from_str(&data).unwrap();
    sse_event(&to_json(&value)).ok().unwrap()
}

#[test]
fn sse_parser_keeps_usage_only_frames_separate_from_finish() {
    let usage = event_of(
        br#"data: {"usageMetadata":{"promptTokenCount":10,"candidatesTokenCount":4,"thoughtsTokenCount":6,"totalTokenCount":20}}"#,
    )
    .unwrap();
    assert!(usage.finish_reason.is_none());
    assert_eq!(usage.usage.unwrap().completion_tokens, 10);
}

#[test]
fn stream_emits_text_then_one_final_chunk() {
    let mut state = SseState::new();
    let first = event_of(br#"data: {"candidates":[{"content":{"parts":[{"text":"Hel"}]}}]}"#).unwrap();
    let out = state.on_event(first);
    assert!(matches!(&out[..], [StreamOutput::Text(t)] if t == "Hel"));
    let last = event_of(
        br#"data: {"candidates":[{"content":{"parts":[{"text":"lo"}]},"finishReason":"STOP"}],"usageMetadata":{"promptTokenCount":1,"candidatesTokenCount":2}}"#,
    )
    .unwrap();
    let out = state.on_event(last);
    assert!(matches!(&out[..], [StreamOutput::Text(t)] if t == "lo"));
    match state.finish(b"\r\n") {
        StreamOutput::Final { reason, usage } => {
            assert_eq!(reason, FinishReason::Stop);
            assert_eq!(usage.unwrap().total_tokens, 3);
        }
        _ => panic!("expected the final chunk"),
    }
    let late = event_of(br#"data: {"candidates":[{"content":{"parts":[{"text":"more"}]}}]}"#).unwrap();
    let out = state.on_event(late);
    assert!(matches!(&out[..], [StreamOutput::Fail(e)] if message_of(clone_error(e)).ends_with("emitted content after its terminal candidate")));
}

fn clone_error(e: &LLMError) -> LLMError {
    match e {
        LLMError::Config(m) => LLMError::Config(m.clone()),
        LLMError::Network(m) => LLMError::Network(m.clone()),
        LLMError::ContentFiltered(m) => LLMError::ContentFiltered(m.clone()),
        LLMError::Serialization(m) => LLMError::Serialization(m.clone()),
        LLMError::RateLimit { retry_after } => LLMError::RateLimit { retry_after: *retry_after },
        LLMError::Other(m) => LLMError::Other(m.clone()),
        LLMError::API { message, status } => LLMError::API { message: message.clone(), status: *status },
    }
}

#[test]
fn stream_ends_with_errors_when_incomplete() {
    let state = SseState::new();
    assert!(matches!(state.finish(b""), StreamOutput::Fail(e) if message_of(clone_error(&e)).ends_with("ended before a terminal finishReason")));
    assert!(matches!(state.finish(b"data"), StreamOutput::Fail(e) if message_of(clone_error(&e)).ends_with("ended with an incomplete frame")));
    let mut s = SseState::new();
    let call = event_of(br#"data: {"candidates":[{"content":{"parts":[{"functionCall":{"name":"f"}}]},"finishReason":"STOP"}]}"#).unwrap();
    let out = s.on_event(call);
    assert!(matches!(&out[..], [StreamOutput::Fail(e)] if message_of(clone_error(e)).ends_with("returned an unexpected function call")));
    assert_eq!(message_of(sse_json_error("eof")), "Google provider protocol error: invalid Google SSE JSON: eof");
}

#[test]
fn http_errors_are_rate_limits_or_summarized_api_errors() {
    match map_http_error(429, Some("30"), None, Some("Too Many Requests")) {
        LLMError::RateLimit { retry_after } => assert_eq!(retry_after, Some(WaitDuration { secs: 30, subsec_nanos: 0 })),
        _ => panic!("429 is a rate limit"),
    }
    assert!(matches!(map_http_error(429, Some("soon"), None, None), LLMError::RateLimit { retry_after: None }));
    assert!(matches!(map_http_error(429, None, None, None), LLMError::RateLimit { retry_after: None }));

    let body = to_json(&j(r#"{"error":{"code":400,"status":"INVALID_ARGUMENT","message":"bad"}}"#));
    match map_http_error(400, None, Some(&body), Some("Bad Request")) {
        LLMError::API { message, status } => {
            assert_eq!(message, "Google API request failed: INVALID_ARGUMENT");
            assert_eq!(status, Some(400));
        }
        _ => panic!("400 is an API error"),
    }
    match map_http_error(503, None, Some(&to_json(&j(r#"{"error":{"status":7}}"#))), Some("Service Unavailable")) {
        LLMError::API { message, status } => {
            assert_eq!(message, "Google API request failed: Service Unavailable");
            assert_eq!(status, Some(503));
        }
        _ => panic!("503 is an API error"),
    }
    match map_http_error(599, None, None, None) {
        LLMError::API { message, .. } => assert_eq!(message, "Google API request failed: HTTP error"),
        _ => panic!("599 is an API error"),
    }
    assert_eq!(message_of(map_transport_error(true, "deadline")), "Google request timed out");
    assert_eq!(message_of(map_transport_error(false, "connection reset")), "Google request failed: connection reset");
}

#[test]
fn decimal_parsing_follows_str_parse() {
    for text in ["0", "7", "+42", "0012", "18446744073709551615", "", "+", "-1", " 1", "1 ", "1_000", "18446744073709551616", "99999999999999999999x"] {
        assert_eq!(parse_u64(text), text.parse::<u64>().ok(), "{text}");
    }
}

#[test]
fn replace_follows_std() {
    assert_eq!(str_replace("a&b&&c", "&", "&amp;"), "a&amp;b&amp;&amp;c");
    assert_eq!(str_replace("aaa", "aa", "b"), "ba");
    assert_eq!(str_replace("abc", "", "-"), "-a-b-c-");
    assert_eq!(str_replace("", "", "-"), "-");
}

fn write_json(v: &JsonValue) -> String {
    serde_json::to_string(&from_json(v)).unwrap()
}

#[test]
fn result_values_are_wrapped_in_google_response_objects() {
    for output in [j(r#"{"ok": true}"#), j(r#""text""#), j("[1, 2]"), j("1"), j("true"), serde_json::Value::Null] {
        let pending = PendingExchange {
            model_content: to_json(&j("{}")),
            calls: vec![PendingCall {
                call_id: "call-1".to_string(),
                name: "lookup".to_string(),
                provider_id: Some("provider-1".to_string()),
            }],
            results: vec![ToolResult { id: "call-1".to_string(), tool: "lookup".to_string(), output: to_json(&output) }],
            signed: true,
            readable_projection: "calls".to_string(),
        };
        let mut contents = Vec::new();
        flush_pending(&mut contents, Some(pending), false, &write_json).unwrap();
        let second = from_json(&contents[1]);
        assert_eq!(second["parts"][0]["functionResponse"]["response"]["content"], output);
        assert!(second["parts"][0]["functionResponse"]["response"].is_object());
        assert_eq!(second["parts"][0]["functionResponse"]["id"], j(r#""provider-1""#));
        assert_eq!(second["role"], j(r#""user""#));
    }
}

fn signed_exchange_without_results() -> PendingExchange {
    let model_content = j(r#"{
        "role": "model",
        "parts": [{
            "functionCall": { "name": "lookup", "args": {} },
            "thoughtSignature": "secret-fixture-signature"
        }]
    }"#);
    let markers = vec![CallMarker { id: "call-1".to_string(), name: "lookup".to_string(), arguments: to_json(&j("{}")) }];
    let projection = readable_calls(&markers, &write_json);
    PendingExchange {
        model_content: to_json(&model_content),
        calls: vec![PendingCall { call_id: "call-1".to_string(), name: "lookup".to_string(), provider_id: None }],
        results: vec![],
        signed: true,
        readable_projection: projection,
    }
}

#[test]
fn incomplete_signed_exchange_is_terminal_only_in_the_current_user_turn() {
    let mut contents = vec![to_json(&j(r#"{"role": "user", "parts": [{"text": "old request"}]}"#))];
    let error = flush_pending(&mut contents, Some(signed_exchange_without_results()), false, &write_json).unwrap_err();
    assert!(matches!(error, LLMError::Serialization(_)));
    assert_eq!(contents.len(), 1);

    let mut contents = vec![to_json(&j(r#"{"role": "user", "parts": [{"text": "old request"}]}"#))];
    flush_pending(&mut contents, Some(signed_exchange_without_results()), true, &write_json).unwrap();
    contents.push(to_json(&j(r#"{"role": "user", "parts": [{"text": "new request"}]}"#)));
    let serialized = serde_json::to_string(&contents.iter().map(from_json).collect::<Vec<_>>()).unwrap();
    assert!(!serialized.contains("secret-fixture-signature"));
    assert!(serialized.contains("incomplete"));
    assert!(serialized.contains("new request"));
    assert!(serialized.contains("native_tool_calls"));
}

#[test]
fn flush_refuses_malformed_exchanges() {
    let call = |id: &str, name: &str| PendingCall { call_id: id.to_string(), name: name.to_string(), provider_id: None };
    let result = |id: &str, tool: &str| ToolResult { id: id.to_string(), tool: tool.to_string(), output: JsonValue::Null };
    let exchange = |calls: Vec<PendingCall>, results: Vec<ToolResult>, signed: bool| PendingExchange {
        model_content: to_json(&j(r#"{"role": "model"}"#)),
        calls,
        results,
        signed,
        readable_projection: String::new(),
    };
    let message = |r: Result<(), LLMError>| match r {
        Err(LLMError::Serialization(m)) => m,
        _ => panic!("expected a protocol error"),
    };
    let mut contents = Vec::new();
    assert!(flush_pending(&mut contents, None, false, &write_json).is_ok());
    assert!(contents.is_empty());
    let m = message(flush_pending(&mut contents, Some(exchange(vec![], vec![result("a", "t")], false)), false, &write_json));
    assert!(m.contains("no preceding call batch"));
    assert!(contents.is_empty());
    flush_pending(&mut contents, Some(exchange(vec![call("a", "t"), call("b", "t")], vec![result("a", "t")], false)), false, &write_json).unwrap();
    assert_eq!(contents.len(), 1);
    let mut contents = Vec::new();
    let m = message(flush_pending(&mut contents, Some(exchange(vec![call("a", "t"), call("b", "t")], vec![result("a", "t"), result("a", "t")], false)), false, &write_json));
    assert!(m.contains("duplicate or extra results"));
    assert_eq!(contents.len(), 1);
    let mut contents = Vec::new();
    let m = message(flush_pending(&mut contents, Some(exchange(vec![call("a", "t")], vec![result("b", "t")], false)), false, &write_json));
    assert!(m.contains("missing a result"));
    let mut contents = Vec::new();
    let m = message(flush_pending(&mut contents, Some(exchange(vec![call("a", "t")], vec![result("a", "u")], false)), false, &write_json));
    assert!(m.contains("does not match its call"));
    let mut contents = Vec::new();
    flush_pending(&mut contents, Some(exchange(vec![call("a", "t"), call("b", "s")], vec![result("b", "s"), result("a", "t")], false)), false, &write_json).unwrap();
    let user = from_json(&contents[1]);
    assert_eq!(user["parts"][0]["functionResponse"]["name"], j(r#""t""#));
    assert_eq!(user["parts"][1]["functionResponse"]["name"], j(r#""s""#));
}

#[test]
fn unsigned_exchange_calls_each_tool() {
    let markers = vec![
        CallMarker { id: "c1".to_string(), name: "lookup".to_string(), arguments: to_json(&j(r#"{"q": 1}"#)) },
        CallMarker { id: "c2".to_string(), name: "save".to_string(), arguments: to_json(&j("{}")) },
    ];
    let pending = unsigned_exchange(&markers, "calls".to_string());
    let content = from_json(&pending.model_content);
    assert_eq!(content["role"], j(r#""model""#));
    assert_eq!(content["parts"][0]["functionCall"]["name"], j(r#""lookup""#));
    assert_eq!(content["parts"][0]["functionCall"]["args"], j(r#"{"q": 1}"#));
    assert_eq!(pending.calls[1].call_id, "c2");
    assert!(pending.results.is_empty() && !pending.signed);
    assert_eq!(readable_calls(&markers, &write_json), r#"{"native_tool_calls":[{"arguments":{"q":1},"id":"c1","tool":"lookup"},{"arguments":{},"id":"c2","tool":"save"}]}"#);
}
