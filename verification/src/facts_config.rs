//! Configuration of actor memory, key-fact extraction and sessions, with
//! the defaults that an omitted YAML field takes.
use vstd::prelude::*;

verus! {

/// `memory.actor_memory` block.
pub struct ActorMemoryConfig {
    pub enabled: bool,
    pub identification: IdentificationConfig,
    pub injection: InjectionConfig,
    pub privacy: PrivacyConfig,
}

/// How the current actor ID is resolved.
pub struct IdentificationConfig {
    /// `explicit` (set through the API) or `from_context` (read from a context path).
    pub method: IdentificationMethod,
    /// Context path holding the actor ID when the method is `from_context`.
    pub context_path: Option<String>,
}

#[derive(Debug, PartialEq, Eq, Structural)]
pub enum IdentificationMethod {
    Explicit,
    FromContext,
}

/// Default identification method: explicit.
pub fn default_explicit() -> (m: IdentificationMethod)
    ensures
        m == IdentificationMethod::Explicit,
{
    IdentificationMethod::Explicit
}

impl Default for IdentificationConfig {
    fn default() -> (r: Self)
        ensures
            r.method == IdentificationMethod::Explicit,
            r.context_path is None,
    {
        IdentificationConfig { method: IdentificationMethod::Explicit, context_path: None }
    }
}

/// How facts are injected into the prompt context.
pub struct InjectionConfig {
    /// `all`, `category` (only listed categories) or `on_demand` (no automatic injection).
    pub mode: InjectionMode,
    /// Token budget for injected facts.
    pub max_tokens: usize,
    /// Categories injected in `category` mode.
    pub categories: Vec<String>,
}

#[derive(Debug, PartialEq, Eq, Structural)]
pub enum InjectionMode {
    All,
    Category,
    OnDemand,
}

/// Default injection mode: all facts.
pub fn default_all() -> (m: InjectionMode)
    ensures
        m == InjectionMode::All,
{
    InjectionMode::All
}

/// Default token budget for injected facts.
pub fn default_injection_tokens() -> (n: usize)
    ensures
        n == 800,
{
    800
}

impl Default for InjectionConfig {
    fn default() -> (r: Self)
        ensures
            r.mode == InjectionMode::All,
            r.max_tokens == 800,
            r.categories@.len() == 0,
    {
        InjectionConfig { mode: InjectionMode::All, max_tokens: 800, categories: Vec::new() }
    }
}

/// Privacy and retention settings.
pub struct PrivacyConfig {
    /// Days actor facts are kept; none means no expiry.
    pub retention_days: Option<u32>,
    /// Whether actors may ask for all their data to be deleted.
    pub allow_deletion: bool,
}

/// The default of every boolean switch that is on unless configured.
pub fn default_true() -> (b: bool)
    ensures
        b,
{
    true
}

impl Default for PrivacyConfig {
    fn default() -> (r: Self)
        ensures
            r.retention_days is None,
            r.allow_deletion,
    {
        PrivacyConfig { retention_days: None, allow_deletion: true }
    }
}

impl Default for ActorMemoryConfig {
    fn default() -> (r: Self)
        ensures
            !r.enabled,
            r.identification.method == IdentificationMethod::Explicit,
            r.identification.context_path is None,
            r.injection.mode == InjectionMode::All,
            r.injection.max_tokens == 800,
            r.injection.categories@.len() == 0,
            r.privacy.retention_days is None,
            r.privacy.allow_deletion,
    {
        ActorMemoryConfig {
            enabled: false,
            identification: IdentificationConfig::default(),
            injection: InjectionConfig::default(),
            privacy: PrivacyConfig::default(),
        }
    }
}

/// `memory.facts` block.
pub struct FactsConfig {
    pub enabled: bool,
    pub extractor_llm: Option<String>,
    pub auto_extract: bool,
    pub categories: Vec<String>,
    pub custom_categories: Vec<CategoryDefinition>,
    pub inject_in_context: bool,
    pub max_facts: usize,
    pub dedup: DedupConfig,
    /// Custom extraction prompt; none uses the built-in prompt.
    pub extraction_prompt: Option<String>,
}

/// Default cap on stored facts per actor.
pub fn default_max_facts() -> (n: usize)
    ensures
        n == 50,
{
    50
}

impl Default for FactsConfig {
    fn default() -> (r: Self)
        ensures
            !r.enabled,
            r.extractor_llm is None,
            r.auto_extract,
            r.categories@.len() == 0,
            r.custom_categories@.len() == 0,
            r.inject_in_context,
            r.max_facts == 50,
            r.dedup.enabled,
            r.dedup.method == DedupMethod::Exact,
            r.extraction_prompt is None,
    {
        FactsConfig {
            enabled: false,
            extractor_llm: None,
            auto_extract: true,
            categories: Vec::new(),
            custom_categories: Vec::new(),
            inject_in_context: true,
            max_facts: 50,
            dedup: DedupConfig::default(),
            extraction_prompt: None,
        }
    }
}

/// A user-defined category with the description shown to the extractor.
pub struct CategoryDefinition {
    pub name: String,
    pub description: String,
}

/// Deduplication of extracted facts.
pub struct DedupConfig {
    pub enabled: bool,
    /// `exact` (normalized string comparison) or `llm` (semantic, by the model).
    pub method: DedupMethod,
}

#[derive(Debug, PartialEq, Eq, Structural)]
pub enum DedupMethod {
    Llm,
    Exact,
}

/// Default deduplication method: exact.
pub fn default_dedup_method() -> (m: DedupMethod)
    ensures
        m == DedupMethod::Exact,
{
    DedupMethod::Exact
}

impl Default for DedupConfig {
    fn default() -> (r: Self)
        ensures
            r.enabled,
            r.method == DedupMethod::Exact,
    {
        DedupConfig { enabled: true, method: DedupMethod::Exact }
    }
}

/// `memory.session` block.
pub struct SessionConfig {
    pub tags: Vec<String>,
    pub ttl_seconds: Option<u64>,
}

impl Default for SessionConfig {
    fn default() -> (r: Self)
        ensures
            r.tags@.len() == 0,
            r.ttl_seconds is None,
    {
        SessionConfig { tags: Vec::new(), ttl_seconds: None }
    }
}

} // verus!
