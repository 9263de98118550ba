use ai_agents::facts::{
    deduplicate_exact, extract_json_array, format_for_context, levenshtein, normalize, parse_category, plan_fact_write,
    FactCategory, FactWritePlan, KeyFact,
};
use ai_agents::facts_config::{
    ActorMemoryConfig, CategoryDefinition, DedupConfig, DedupMethod, FactsConfig, IdentificationMethod, InjectionMode,
    SessionConfig,
};
use ai_agents::fact_prompt::{build_prompt, category_label};
use ai_agents::chat::{ChatMessage, Role};

fn make_fact(category: FactCategory, content: &str) -> KeyFact {
    KeyFact { id: "fact".to_string(), actor_id: Some("test".to_string()), category, content: content.to_string() }
}

#[test]
fn test_actor_memory_config_default() {
    let config = ActorMemoryConfig::default();
    assert!(!config.enabled);
    assert_eq!(config.identification.method, IdentificationMethod::Explicit);
    assert_eq!(config.injection.mode, InjectionMode::All);
    assert_eq!(config.injection.max_tokens, 800);
    assert!(config.privacy.allow_deletion);
}

#[test]
fn test_facts_config_default() {
    let config = FactsConfig::default();
    assert!(!config.enabled);
    assert!(config.auto_extract);
    assert!(config.inject_in_context);
    assert_eq!(config.max_facts, 50);
    assert!(config.dedup.enabled);
    assert_eq!(config.dedup.method, DedupMethod::Exact);
}

#[test]
fn test_session_config_default() {
    let config = SessionConfig::default();
    assert!(config.tags.is_empty());
    assert!(config.ttl_seconds.is_none());
}

#[test]
fn test_normalize() {
    assert_eq!(normalize("  Hello   World  "), "hello world");
    assert_eq!(normalize("ABC"), "abc");
    assert_eq!(normalize(""), "");
}

#[test]
fn test_levenshtein_identical() {
    assert_eq!(levenshtein("hello", "hello"), 0);
}

#[test]
fn test_levenshtein_different() {
    assert_eq!(levenshtein("kitten", "sitting"), 3);
}

#[test]
fn test_levenshtein_empty() {
    assert_eq!(levenshtein("", "abc"), 3);
    assert_eq!(levenshtein("abc", ""), 3);
    assert_eq!(levenshtein("", ""), 0);
}

#[test]
fn test_deduplicate_exact_removes_duplicates() {
    let existing = vec![make_fact(FactCategory::UserPreference, "Actor is vegetarian")];
    let new_facts = vec![
        make_fact(FactCategory::UserPreference, "Actor is vegetarian"),
        make_fact(FactCategory::Decision, "Chose premium plan"),
    ];
    let result = deduplicate_exact(&new_facts, &existing);
    assert_eq!(result.len(), 1);
    assert_eq!(result[0].content, "Chose premium plan");
}

#[test]
fn test_deduplicate_exact_keeps_different_category_when_content_differs() {
    let existing = vec![make_fact(FactCategory::UserPreference, "User likes vegetarian food")];
    let new_facts = vec![make_fact(FactCategory::Decision, "User chose plan A")];
    let result = deduplicate_exact(&new_facts, &existing);
    assert_eq!(result.len(), 1);
}

#[test]
fn test_deduplicate_exact_drops_cross_category_duplicate() {
    let existing = vec![make_fact(FactCategory::UserContext, "User name is Jay")];
    let new_facts = vec![make_fact(FactCategory::UserPreference, "User name is Jay")];
    let result = deduplicate_exact(&new_facts, &existing);
    assert!(result.is_empty(), "identical content across categories must be deduped");
}

#[test]
fn test_deduplicate_exact_drops_same_category_near_duplicate() {
    let existing = vec![make_fact(FactCategory::UserContext, "User works as an AI engineer")];
    let new_facts = vec![make_fact(FactCategory::UserContext, "User works as a AI engineer")];
    let result = deduplicate_exact(&new_facts, &existing);
    assert!(result.is_empty(), "same-category near-duplicates must be deduped");
}

#[test]
fn test_deduplicate_exact_no_existing() {
    let new_facts = vec![
        make_fact(FactCategory::UserPreference, "Likes coffee"),
        make_fact(FactCategory::Decision, "Chose plan B"),
    ];
    let result = deduplicate_exact(&new_facts, &Vec::new());
    assert_eq!(result.len(), 2);
}

#[test]
fn test_parse_category() {
    assert_eq!(parse_category("user_preference"), FactCategory::UserPreference);
    assert_eq!(parse_category("preference"), FactCategory::UserPreference);
    assert_eq!(parse_category("user_context"), FactCategory::UserContext);
    assert_eq!(parse_category("decision"), FactCategory::Decision);
    assert_eq!(parse_category("agreement"), FactCategory::Agreement);
    assert_eq!(parse_category("suspicion"), FactCategory::Custom("suspicion".to_string()));
}

#[test]
fn test_extract_json_array_direct() {
    let input = r#"[{"category":"decision","content":"Chose plan A","confidence":0.9,"actor_id":null}]"#;
    let result = extract_json_array(input);
    assert!(result.is_some());
}

#[test]
fn test_extract_json_array_fenced() {
    let input = "Here are the facts:\n```json\n[{\"category\":\"decision\",\"content\":\"test\",\"confidence\":0.8}]\n```\n";
    let result = extract_json_array(input);
    assert!(result.is_some());
}

#[test]
fn test_extract_json_array_embedded() {
    let input = "The extracted facts are: [{\"category\":\"decision\",\"content\":\"test\",\"confidence\":0.8}] and that is all.";
    let result = extract_json_array(input);
    assert!(result.is_some());
}

#[test]
fn test_extract_json_array_empty() {
    let input = "[]";
    let result = extract_json_array(input);
    assert!(result.is_some());
    assert_eq!(result.unwrap(), "[]");
}

#[test]
fn test_extract_json_array_no_array() {
    let input = "No facts found in this conversation.";
    let result = extract_json_array(input);
    assert!(result.is_none());
}

#[test]
fn test_format_for_context_basic() {
    let facts = vec![
        make_fact(FactCategory::UserPreference, "Likes coffee"),
        make_fact(FactCategory::Decision, "Chose plan A"),
    ];
    let result = format_for_context(&facts, 1000);
    assert!(result.contains("- Likes coffee."));
    assert!(result.contains("- Chose plan A."));
    assert!(!result.contains("[preference]"));
    assert!(!result.contains("confidence"));
}

#[test]
fn test_format_for_context_strips_redundant_punctuation() {
    let facts = vec![
        make_fact(FactCategory::UserContext, "User name is Jay."),
        make_fact(FactCategory::UserContext, "User works as engineer"),
    ];
    let result = format_for_context(&facts, 1000);
    assert!(result.contains("- User name is Jay.\n"));
    assert!(result.contains("- User works as engineer.\n"));
    assert!(!result.contains(".."));
}

#[test]
fn test_format_for_context_respects_budget() {
    let facts = vec![
        make_fact(FactCategory::UserPreference, "Fact one content here that is somewhat long to use tokens"),
        make_fact(FactCategory::Decision, "Fact two content here that is also somewhat long"),
        make_fact(FactCategory::Agreement, "Fact three content here"),
    ];
    let result = format_for_context(&facts, 5);
    let lines: Vec<&str> = result.trim().lines().collect();
    assert!(lines.len() <= 2);
}

#[test]
fn test_format_for_context_empty() {
    let result = format_for_context(&Vec::new(), 1000);
    assert!(result.is_empty());
}

#[test]
fn levenshtein_counts_unicode_characters() {
    assert_eq!(levenshtein("café", "cafe"), 1);
    assert_eq!(levenshtein("flaw", "lawn"), 2);
}

#[test]
fn dedup_keeps_a_fact_that_differs_enough() {
    let existing = vec![make_fact(FactCategory::UserContext, "User lives in Paris")];
    let new_facts = vec![make_fact(FactCategory::UserContext, "User travels to Tokyo often")];
    assert_eq!(deduplicate_exact(&new_facts, &existing).len(), 1);
}

#[test]
fn dedup_does_not_compare_new_facts_with_each_other() {
    let new_facts = vec![
        make_fact(FactCategory::Decision, "Chose plan B"),
        make_fact(FactCategory::Decision, "Chose plan B"),
    ];
    assert_eq!(deduplicate_exact(&new_facts, &Vec::new()).len(), 2);
}

#[test]
fn format_for_context_zero_budget_is_empty() {
    let facts = vec![make_fact(FactCategory::Decision, "Chose plan A")];
    assert_eq!(format_for_context(&facts, 0), "");
}

#[test]
fn test_build_prompt_contains_anti_noise_rules() {
    let prompt = build_prompt(&FactsConfig::default(), &Vec::new(), &Vec::new(), &Vec::new());
    assert!(
        prompt.contains("Do NOT extract statements about what the assistant knows"),
        "prompt must forbid extracting assistant-capability statements"
    );
    assert!(prompt.contains("Do NOT extract the assistant's capabilities"), "prompt must forbid extracting assistant limitations");
    assert!(prompt.contains("Only extract concrete facts about the user"), "prompt must restrict extraction to user facts");
}

#[test]
fn test_build_prompt_exact_dedup_includes_existing_facts() {
    let config = FactsConfig::default();
    let existing = vec![KeyFact {
        id: "id-1".to_string(),
        actor_id: Some("user_1".to_string()),
        category: FactCategory::UserContext,
        content: "The user's name is Jay".to_string(),
    }];
    let prompt = build_prompt(&config, &Vec::new(), &existing, &Vec::new());
    assert!(
        prompt.contains("The user's name is Jay"),
        "exact dedup prompt must list existing fact content so LLM avoids paraphrases"
    );
    assert!(
        prompt.contains("do not extract duplicates or paraphrases"),
        "exact dedup prompt must instruct the LLM to skip paraphrases"
    );
}

#[test]
fn test_build_prompt_llm_dedup_includes_existing_facts() {
    let mut config = FactsConfig::default();
    config.dedup = DedupConfig { enabled: true, method: DedupMethod::Llm };
    let existing = vec![KeyFact {
        id: "id-2".to_string(),
        actor_id: Some("user_1".to_string()),
        category: FactCategory::UserContext,
        content: "Jay works as an AI engineer".to_string(),
    }];
    let prompt = build_prompt(&config, &Vec::new(), &existing, &Vec::new());
    assert!(prompt.contains("Jay works as an AI engineer"), "llm dedup prompt must list existing fact content");
    assert!(prompt.contains("do not duplicate or paraphrase"), "llm dedup prompt must instruct the LLM to skip paraphrases");
}

#[test]
fn prompt_sections_come_in_order() {
    let mut config = FactsConfig::default();
    config.categories = vec!["decision".to_string(), "mood".to_string()];
    let custom = vec![CategoryDefinition { name: "hobby".to_string(), description: "Hobbies".to_string() }];
    let existing = vec![make_fact(FactCategory::Custom("hobby".to_string()), "Plays chess")];
    let messages = vec![ChatMessage::user("I like chess"), ChatMessage::assistant("Noted"), ChatMessage::new(Role::Tool, "ok")];
    let prompt = build_prompt(&config, &messages, &existing, &custom);
    assert!(prompt.starts_with("You are a fact extraction assistant.\nExtract key facts from the conversation below.\n\nCategories to look for:\n- decision: Decisions the user made during the conversation\n- hobby: Hobbies\n\nFor each fact"));
    assert!(!prompt.contains("- mood:"));
    assert!(!prompt.contains("- user_preference:"));
    assert!(prompt.contains("- [hobby] Plays chess\n"));
    assert!(prompt.ends_with("\nConversation:\nUser: I like chess\nAssistant: Noted\nOther: ok\n\nOutput JSON array only. No explanation.\n"));
}

#[test]
fn prompt_lists_all_builtins_without_configured_categories() {
    let mut config = FactsConfig::default();
    config.categories = Vec::new();
    let prompt = build_prompt(&config, &Vec::new(), &Vec::new(), &Vec::new());
    assert!(prompt.contains("- user_preference: Preferences, likes, dislikes, and choices the actor expressed\n- user_context: "));
    assert!(prompt.contains("- agreement: Things the user agreed to or confirmed\n\nFor each fact"));
    assert!(!prompt.contains("Existing facts"));
    config.extraction_prompt = Some("custom".to_string());
    assert_eq!(build_prompt(&config, &Vec::new(), &Vec::new(), &Vec::new()), "custom");
    assert_eq!(category_label(&FactCategory::UserPreference), "user_preference");
}

fn ids(values: &[&str]) -> Vec<String> {
    values.iter().map(|v| v.to_string()).collect()
}

#[test]
fn test_add_facts_durable_eviction() {
    // Five new facts for an actor with none stored, at most three kept: the
    // three ranked highest are kept, and nothing stored needs deleting.
    let ranked = ids(&["a", "b", "c", "d", "e"]);
    match plan_fact_write(&Vec::new(), 5, 3, &ranked) {
        FactWritePlan::Trim { keep, evict } => {
            assert_eq!(keep, 3);
            assert!(evict.is_empty());
        }
        _ => panic!("a trim was expected"),
    }
}

#[test]
fn fact_writes_evict_stored_facts_that_rank_out() {
    let stored = ids(&["s1", "s2", "s3"]);
    let ranked = ids(&["n1", "s2", "s1", "s3", "n2"]);
    match plan_fact_write(&stored, 2, 3, &ranked) {
        FactWritePlan::Trim { keep, evict } => {
            assert_eq!(keep, 3);
            assert_eq!(evict, ids(&["s3"]));
        }
        _ => panic!("a trim was expected"),
    }
    assert!(matches!(plan_fact_write(&stored, 0, 3, &ranked), FactWritePlan::ReadBack));
    assert!(matches!(plan_fact_write(&stored, 1, 4, &ranked), FactWritePlan::SaveNew));
}

#[test]
fn levenshtein_is_symmetric_and_bounded_by_length_gap() {
    assert_eq!(levenshtein("sitting", "kitten"), levenshtein("kitten", "sitting"));
    assert_eq!(levenshtein("flaw", "lawn"), 2);
    assert_eq!(levenshtein("lawn", "flaw"), 2);
    assert!(levenshtein("a", "abcdef") >= 5);
    assert!(levenshtein("abc", "abd") > 0);
}

#[test]
fn normalize_leaves_single_spaces() {
    let n = normalize("\tA \u{3000}\n b\u{00A0}\u{2003}c ");
    assert_eq!(n, "a b c");
    let chars: Vec<char> = n.chars().collect();
    for w in chars.windows(2) {
        assert!(!(w[0].is_whitespace() && w[1].is_whitespace()));
    }
}
