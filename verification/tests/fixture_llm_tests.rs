use ai_agents::chat::LLMError;
use ai_agents::fixture_llm::{
    find_key, find_recorded, fixture_outcomes_for_alias, fixture_responses_for_alias, stream_deltas, CassetteKey,
    FixtureResponse, FixtureSequence, ReplayFixture, SequenceOutcome,
};
use ai_agents::fixtures::{LlmFixtureConfig, LlmFixtureMode, LlmFixtureOutcome};

fn text_of(r: Result<FixtureResponse, LLMError>) -> String {
    match r {
        Ok(FixtureResponse::Text(t)) => t,
        Ok(FixtureResponse::Recorded(i)) => format!("recorded #{i}"),
        Err(_) => panic!("expected a response"),
    }
}

fn api_message(r: Result<FixtureResponse, LLMError>) -> (String, Option<u16>) {
    match r {
        Err(LLMError::API { message, status }) => (message, status),
        _ => panic!("expected an API error"),
    }
}

#[test]
fn sequence_provider_mixes_outcomes_with_independent_alias_cursors() {
    let config = LlmFixtureConfig {
        mode: LlmFixtureMode::Mock,
        outcomes_by_alias: vec![
            (
                "alpha".to_string(),
                vec![
                    LlmFixtureOutcome::Error { message: "retry alpha".to_string(), status: None },
                    LlmFixtureOutcome::Response { content: "alpha recovered".to_string() },
                ],
            ),
            (
                "beta".to_string(),
                vec![
                    LlmFixtureOutcome::Response { content: "beta first".to_string() },
                    LlmFixtureOutcome::Response { content: "beta second".to_string() },
                ],
            ),
        ],
        ..Default::default()
    };
    let fallback = vec![FixtureResponse::Text("fallback".to_string())];
    let mut alpha = FixtureSequence::new(fixture_outcomes_for_alias(&config, "alpha", &fallback));
    let mut beta = FixtureSequence::new(fixture_outcomes_for_alias(&config, "beta", &fallback));

    assert_eq!(api_message(alpha.next_outcome()), ("retry alpha".to_string(), None));
    assert_eq!(text_of(beta.next_outcome()), "beta first");
    assert_eq!(text_of(alpha.next_outcome()), "alpha recovered");
    assert_eq!(text_of(beta.next_outcome()), "beta second");
    assert_eq!(text_of(alpha.next_outcome()), "alpha recovered");
    assert_eq!(text_of(beta.next_outcome()), "beta second");
}

#[test]
fn sequence_provider_stream_errors_advance_to_recovery() {
    let mut provider = FixtureSequence::new(vec![
        SequenceOutcome::Error { message: "stream retry".to_string(), status: None },
        SequenceOutcome::Response(FixtureResponse::Text("stream recovered".to_string())),
    ]);
    assert_eq!(api_message(provider.next_outcome()), ("stream retry".to_string(), None));
    assert_eq!(text_of(provider.next_outcome()), "stream recovered");
}

#[test]
fn sequence_provider_preserves_legacy_responses_and_errors() {
    let config = LlmFixtureConfig {
        mode: LlmFixtureMode::Mock,
        responses: vec!["global".to_string()],
        responses_by_alias: vec![("worker".to_string(), vec!["first".to_string(), "second".to_string()])],
        errors_by_alias: vec![("failing".to_string(), "permanent failure".to_string())],
        ..Default::default()
    };
    let no_records: Vec<String> = Vec::new();
    let worker_responses = fixture_responses_for_alias(&config, &no_records, "worker");
    let failing_responses = fixture_responses_for_alias(&config, &no_records, "failing");
    let mut worker = FixtureSequence::new(fixture_outcomes_for_alias(&config, "worker", &worker_responses));
    let mut failing = FixtureSequence::new(fixture_outcomes_for_alias(&config, "failing", &failing_responses));

    assert_eq!(text_of(worker.next_outcome()), "first");
    assert_eq!(text_of(worker.next_outcome()), "second");
    assert_eq!(text_of(worker.next_outcome()), "second");
    for _ in 0..2 {
        assert_eq!(api_message(failing.next_outcome()), ("permanent failure".to_string(), None));
    }
}

#[test]
fn responses_combine_texts_and_recordings_of_the_alias() {
    let config = LlmFixtureConfig { responses: vec!["shared".to_string()], ..Default::default() };
    let records = vec!["worker".to_string(), "other".to_string(), "worker".to_string()];
    let responses = fixture_responses_for_alias(&config, &records, "worker");
    assert_eq!(responses.len(), 3);
    assert!(matches!(&responses[0], FixtureResponse::Text(t) if t == "shared"));
    assert!(matches!(responses[1], FixtureResponse::Recorded(0)));
    assert!(matches!(responses[2], FixtureResponse::Recorded(2)));

    let empty = LlmFixtureConfig::default();
    let fallback = fixture_responses_for_alias(&empty, &Vec::new(), "anyone");
    assert_eq!(fallback.len(), 1);
    assert!(matches!(&fallback[0], FixtureResponse::Text(t) if t == "Mock response"));
    let mut sequence = FixtureSequence::new(Vec::new());
    assert_eq!(text_of(sequence.next_outcome()), "Mock response");
}

#[test]
fn empty_scripted_outcomes_fall_back_to_the_alias_error() {
    let config = LlmFixtureConfig {
        outcomes_by_alias: vec![("a".to_string(), Vec::new())],
        errors_by_alias: vec![("a".to_string(), "first".to_string()), ("a".to_string(), "last".to_string())],
        ..Default::default()
    };
    let outcomes = fixture_outcomes_for_alias(&config, "a", &Vec::new());
    assert_eq!(outcomes.len(), 1);
    assert!(matches!(&outcomes[0], SequenceOutcome::Error { message, status: None } if message == "last"));
    assert_eq!(find_key(&config.errors_by_alias, "a"), Some(1));
    assert_eq!(find_key(&config.errors_by_alias, "b"), None);
}

#[test]
fn replay_prefers_recordings_then_falls_back_in_order() {
    let key = |alias: &str, model: &str, hash: &str| CassetteKey {
        alias: alias.to_string(),
        model: model.to_string(),
        request_hash: hash.to_string(),
    };
    let records = vec![key("other", "m", "h1"), key("agent", "", "h1"), key("agent", "m", "h2")];
    assert_eq!(find_recorded(&records, "agent", "m", "h1"), Some(1));
    assert_eq!(find_recorded(&records, "agent", "x", "h2"), None);
    let mut replay = ReplayFixture::new(
        "agent".to_string(),
        "m".to_string(),
        records,
        vec![FixtureResponse::Text("one".to_string()), FixtureResponse::Text("two".to_string())],
    );
    assert!(matches!(replay.response_for("h2"), FixtureResponse::Recorded(2)));
    assert!(matches!(replay.response_for("unknown"), FixtureResponse::Text(t) if t == "one"));
    assert!(matches!(replay.response_for("h1"), FixtureResponse::Recorded(1)));
    assert!(matches!(replay.response_for("unknown"), FixtureResponse::Text(t) if t == "two"));
    assert!(matches!(replay.response_for("unknown"), FixtureResponse::Text(t) if t == "two"));
}

#[test]
fn mock_streaming_splits_response_into_multiple_chunks() {
    let chunks = stream_deltas("Streaming hello from the mocked provider.");
    assert!(chunks.len() > 1);
    let mut reconstructed = String::new();
    for (index, (delta, is_final)) in chunks.iter().enumerate() {
        if index == 0 {
            assert!(!is_final);
        }
        reconstructed.push_str(delta);
        assert_eq!(*is_final, index == chunks.len() - 1);
    }
    assert_eq!(reconstructed, "Streaming hello from the mocked provider.");
    assert_eq!(stream_deltas(""), vec![(String::new(), true)]);
}
