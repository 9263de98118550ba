use ai_agents::chat::{ChatMessage, FinishReason, LLMChunk, LLMError, LLMFeature, LLMResponse};
use ai_agents::mock_llm::MockLLMProvider;

fn complete(mock: &mut MockLLMProvider<()>, messages: &Vec<ChatMessage>) -> Result<LLMResponse, LLMError> {
    assert!(mock.can_answer());
    mock.complete(messages, None)
}

fn content(mock: &mut MockLLMProvider<()>, messages: &Vec<ChatMessage>) -> String {
    complete(mock, messages).ok().unwrap().content
}

fn error_message(e: LLMError) -> String {
    match e {
        LLMError::Other(m) => m,
        _ => panic!("expected the mock's error"),
    }
}

#[test]
fn test_mock_provider_basic() {
    let mut mock: MockLLMProvider<()> = MockLLMProvider::new("test");
    mock.set_response("Mock response");
    let messages = vec![ChatMessage::user("Hello")];
    let response = complete(&mut mock, &messages).ok().unwrap();
    assert_eq!(response.content, "Mock response");
    assert_eq!(response.finish_reason, FinishReason::Stop);

    mock.add_response(LLMResponse::new("Added response", FinishReason::Stop));
    let response2 = complete(&mut mock, &messages).ok().unwrap();
    assert_eq!(response2.content, "Added response");
    assert_eq!(response2.finish_reason, FinishReason::Stop);
}

#[test]
fn test_multiple_responses() {
    let mut mock: MockLLMProvider<()> = MockLLMProvider::new("test");
    mock.set_responses(vec!["First".to_string(), "Second".to_string(), "Third".to_string()], false);
    let messages = vec![ChatMessage::user("Hello")];
    assert_eq!(content(&mut mock, &messages), "First");
    assert_eq!(content(&mut mock, &messages), "Second");
    assert_eq!(content(&mut mock, &messages), "Third");
    assert_eq!(content(&mut mock, &messages), "Third");
}

#[test]
fn test_cycle_responses() {
    let mut mock: MockLLMProvider<()> = MockLLMProvider::new("test");
    mock.set_responses(vec!["A".to_string(), "B".to_string()], true);
    let messages = vec![ChatMessage::user("Hello")];
    assert_eq!(content(&mut mock, &messages), "A");
    assert_eq!(content(&mut mock, &messages), "B");
    assert_eq!(content(&mut mock, &messages), "A");
    assert_eq!(content(&mut mock, &messages), "B");
}

#[test]
fn test_error_handling() {
    let mut mock: MockLLMProvider<()> = MockLLMProvider::new("test");
    mock.set_error("Test error");
    let messages = vec![ChatMessage::user("Hello")];
    let result = complete(&mut mock, &messages);
    assert!(result.is_err());
    assert!(error_message(result.err().unwrap()).contains("Test error"));
}

#[test]
fn test_clear_error() {
    let mut mock: MockLLMProvider<()> = MockLLMProvider::new("test");
    mock.set_error("Test error");
    mock.clear_error();
    let messages = vec![ChatMessage::user("Hello")];
    assert!(complete(&mut mock, &messages).is_ok());
}

#[test]
fn test_call_history() {
    let mut mock: MockLLMProvider<()> = MockLLMProvider::new("test");
    mock.set_response("test");
    assert_eq!(mock.call_count(), 0);
    let messages1 = vec![ChatMessage::user("First")];
    complete(&mut mock, &messages1).ok().unwrap();
    assert_eq!(mock.call_count(), 1);
    let messages2 = vec![ChatMessage::user("Second")];
    complete(&mut mock, &messages2).ok().unwrap();
    assert_eq!(mock.call_count(), 2);
    assert_eq!(mock.call_history().len(), 2);
    let last = mock.last_call().unwrap();
    assert_eq!(last.messages[0].content, "Second");
}

#[test]
fn test_clear_history() {
    let mut mock: MockLLMProvider<()> = MockLLMProvider::new("test");
    mock.set_response("test");
    let messages = vec![ChatMessage::user("Hello")];
    complete(&mut mock, &messages).ok().unwrap();
    assert_eq!(mock.call_count(), 1);
    mock.clear_history();
    assert_eq!(mock.call_count(), 0);
}

#[test]
fn test_reset() {
    let mut mock: MockLLMProvider<()> = MockLLMProvider::new("test");
    mock.set_response("Custom");
    mock.set_error("Error");
    mock.set_latency(100);
    let messages = vec![ChatMessage::user("Hello")];
    let _ = complete(&mut mock, &messages);
    mock.reset();
    mock.set_response("Mock response");
    assert_eq!(mock.call_count(), 0);
    assert_eq!(mock.latency_ms(), 0);
    assert_eq!(content(&mut mock, &messages), "Mock response");
}

#[test]
fn test_token_estimation() {
    let mut mock: MockLLMProvider<()> = MockLLMProvider::new("test");
    mock.set_response("test");
    let messages = vec![ChatMessage::user("Hello world"), ChatMessage::assistant("Hi there")];
    let response = complete(&mut mock, &messages).ok().unwrap();
    assert!(response.usage.is_some());
    let usage = response.usage.unwrap();
    assert!(usage.prompt_tokens > 0);
    assert!(usage.completion_tokens > 0);
    assert_eq!(usage.total_tokens, usage.prompt_tokens + usage.completion_tokens);
    assert_eq!(usage.prompt_tokens, (11 + 8) / 4);
    assert_eq!(usage.completion_tokens, 1);
}

#[test]
fn test_streaming() {
    let mut mock: MockLLMProvider<()> = MockLLMProvider::new("test");
    mock.set_response("Hello world test");
    let messages = vec![ChatMessage::user("Hi")];
    assert!(mock.can_answer());
    let chunks: Vec<LLMChunk> = mock.complete_stream(&messages, None).ok().unwrap();
    assert!(!chunks.is_empty());
    let deltas: Vec<&str> = chunks.iter().map(|c| c.delta.as_str()).collect();
    assert_eq!(deltas, vec!["Hello", " world", " test"]);
    let last = chunks.last().unwrap();
    assert!(last.is_final);
    assert_eq!(last.finish_reason, Some(FinishReason::Stop));
    assert!(last.usage.is_some());
    assert!(chunks[..2].iter().all(|c| !c.is_final && c.usage.is_none()));
}

#[test]
fn features_can_be_switched() {
    let mut mock: MockLLMProvider<()> = MockLLMProvider::new("test");
    assert!(mock.supports(LLMFeature::Streaming));
    assert!(!mock.supports(LLMFeature::Vision));
    mock.set_feature_support(LLMFeature::Vision, true);
    mock.set_feature_support(LLMFeature::Vision, true);
    assert!(mock.supports(LLMFeature::Vision));
    mock.set_feature_support(LLMFeature::Streaming, false);
    assert!(!mock.supports(LLMFeature::Streaming));
    mock.reset();
    assert!(mock.supports(LLMFeature::Vision));
    assert_eq!(mock.provider_name(), "mock");
}

#[test]
fn added_response_after_long_text_script_cannot_answer() {
    let mut mock: MockLLMProvider<()> = MockLLMProvider::new("test");
    mock.set_responses(vec!["a".to_string(), "b".to_string(), "c".to_string()], false);
    let messages = vec![ChatMessage::user("x")];
    content(&mut mock, &messages);
    content(&mut mock, &messages);
    mock.add_response(LLMResponse::new("only", FinishReason::Stop));
    assert!(!mock.can_answer());
}

#[test]
fn empty_answers_stream_no_chunks_and_mock_text_by_default() {
    let mut mock: MockLLMProvider<()> = MockLLMProvider::new("test");
    let messages = vec![ChatMessage::user("x")];
    let response = complete(&mut mock, &messages).ok().unwrap();
    assert_eq!(response.content, "Mock response");
    assert_eq!(response.model.as_deref(), Some("mock-model"));
    mock.set_response("   ");
    assert!(mock.complete_stream(&messages, None).ok().unwrap().is_empty());
}
