//! Verified core of an AI-agent framework: configuration models, fact
//! deduplication, approval messaging, evaluation bookkeeping and provider
//! helpers.
pub mod text;
pub mod facts;
pub mod facts_config;
pub mod fact_prompt;
pub mod chat;
pub mod budget;
pub mod json;
pub mod hitl_config;
pub mod hitl;
pub mod provider;
pub mod registry;
pub mod google;
pub mod google_request;
pub mod google_response;
pub mod google_stream;
pub mod google_exchange;
pub mod eval;
pub mod eval_report;
pub mod metrics;
pub mod evidence;
pub mod fixtures;
pub mod assertion;
pub mod approval_fixtures;
pub mod fixture_llm;
pub mod mock_llm;
pub mod json_path;
pub mod tool_checks;
pub mod memory_checks;
