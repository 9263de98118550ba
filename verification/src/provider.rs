//! LLM provider selection and settings: provider kinds, their API-key
//! variables and default endpoints, feature support, error mapping, and
//! the conversion of a conversation into a prompt.
//!
//! Environment variables reach these functions as a list of
//! (name, value) pairs read by the caller.
use vstd::prelude::*;
use crate::text::{to_owned_string, push_str, push_char, str_eq, str_contains, contains_seq, to_lowercase, lowercase, join_seq, ascii_lower, to_ascii_lowercase};
use crate::chat::{ChatMessage, Role, LLMFeature, ToolChoice, LLMError, FinishReason, feature_override, find_override, is_config_error, ErrorView};
use crate::hitl_config::{lookup, lookup_pair};

verus! {

/// The LLM service a provider talks to.
#[derive(Clone, Copy, Debug, PartialEq, Eq, Structural, Hash)]
pub enum ProviderType {
    OpenAI,
    Anthropic,
    Ollama,
    DeepSeek,
    XAI,
    Phind,
    Groq,
    Google,
    Cohere,
    Mistral,
    /// Any server speaking the OpenAI protocol.
    OpenAICompatible,
    OpenRouter,
}

/// The environment variable holding a provider's API key.
pub open spec fn spec_api_key_env_var(p: ProviderType) -> Option<Seq<char>> {
    match p {
        ProviderType::OpenAI => Some("OPENAI_API_KEY"@),
        ProviderType::Anthropic => Some("ANTHROPIC_API_KEY"@),
        ProviderType::DeepSeek => Some("DEEPSEEK_API_KEY"@),
        ProviderType::XAI => Some("XAI_API_KEY"@),
        ProviderType::Phind => Some("PHIND_API_KEY"@),
        ProviderType::Groq => Some("GROQ_API_KEY"@),
        ProviderType::Google => Some("GOOGLE_API_KEY"@),
        ProviderType::Cohere => Some("COHERE_API_KEY"@),
        ProviderType::Mistral => Some("MISTRAL_API_KEY"@),
        ProviderType::OpenRouter => Some("OPENROUTER_API_KEY"@),
        ProviderType::Ollama => None,
        ProviderType::OpenAICompatible => None,
    }
}

/// The endpoint used when none is configured.
pub open spec fn spec_default_base_url(p: ProviderType) -> Option<Seq<char>> {
    match p {
        ProviderType::Ollama => Some("http://localhost:11434"@),
        _ => None,
    }
}

/// The provider named by a lowercase name.
pub open spec fn spec_parse_provider(lower: Seq<char>) -> Option<ProviderType> {
    if lower == "openai"@ {
        Some(ProviderType::OpenAI)
    } else if lower == "anthropic"@ {
        Some(ProviderType::Anthropic)
    } else if lower == "ollama"@ {
        Some(ProviderType::Ollama)
    } else if lower == "deepseek"@ {
        Some(ProviderType::DeepSeek)
    } else if lower == "xai"@ {
        Some(ProviderType::XAI)
    } else if lower == "phind"@ {
        Some(ProviderType::Phind)
    } else if lower == "groq"@ {
        Some(ProviderType::Groq)
    } else if lower == "google"@ {
        Some(ProviderType::Google)
    } else if lower == "cohere"@ {
        Some(ProviderType::Cohere)
    } else if lower == "mistral"@ {
        Some(ProviderType::Mistral)
    } else if lower == "openai-compatible"@ || lower == "openai_compatible"@ {
        Some(ProviderType::OpenAICompatible)
    } else if lower == "openrouter"@ {
        Some(ProviderType::OpenRouter)
    } else {
        None
    }
}

/// The name a provider reports.
pub open spec fn spec_provider_name(p: ProviderType) -> Seq<char> {
    match p {
        ProviderType::OpenAI => "openai"@,
        ProviderType::Anthropic => "anthropic"@,
        ProviderType::Ollama => "ollama"@,
        ProviderType::DeepSeek => "deepseek"@,
        ProviderType::XAI => "xai"@,
        ProviderType::Phind => "phind"@,
        ProviderType::Groq => "groq"@,
        ProviderType::Google => "google"@,
        ProviderType::Cohere => "cohere"@,
        ProviderType::Mistral => "mistral"@,
        ProviderType::OpenAICompatible => "openai-compatible"@,
        ProviderType::OpenRouter => "openrouter"@,
    }
}

impl ProviderType {
    /// The environment variable holding the API key; none for providers
    /// that need no key (Ollama) or take it from configuration
    /// (OpenAI-compatible servers).
    pub fn api_key_env_var(&self) -> (r: Option<&'static str>)
        ensures
            r.deep_view() == spec_api_key_env_var(*self),
    {
        match self {
            ProviderType::OpenAI => Some("OPENAI_API_KEY"),
            ProviderType::Anthropic => Some("ANTHROPIC_API_KEY"),
            ProviderType::DeepSeek => Some("DEEPSEEK_API_KEY"),
            ProviderType::XAI => Some("XAI_API_KEY"),
            ProviderType::Phind => Some("PHIND_API_KEY"),
            ProviderType::Groq => Some("GROQ_API_KEY"),
            ProviderType::Google => Some("GOOGLE_API_KEY"),
            ProviderType::Cohere => Some("COHERE_API_KEY"),
            ProviderType::Mistral => Some("MISTRAL_API_KEY"),
            ProviderType::OpenRouter => Some("OPENROUTER_API_KEY"),
            ProviderType::Ollama => None,
            ProviderType::OpenAICompatible => None,
        }
    }

    /// The endpoint used when none is configured: only Ollama has one.
    pub fn default_base_url(&self) -> (r: Option<&'static str>)
        ensures
            r.deep_view() == spec_default_base_url(*self),
    {
        match self {
            ProviderType::Ollama => Some("http://localhost:11434"),
            _ => None,
        }
    }

    /// The provider named by an already lowercase name.
    pub fn parse_lowercase(lower: &str) -> (r: Result<ProviderType, &'static str>)
        ensures
            match r {
                Ok(p) => spec_parse_provider(lower@) == Some(p),
                Err(e) => spec_parse_provider(lower@) is None && e@ == "unknown provider type"@,
            },
    {
        if str_eq(lower, "openai") {
            Ok(ProviderType::OpenAI)
        } else if str_eq(lower, "anthropic") {
            Ok(ProviderType::Anthropic)
        } else if str_eq(lower, "ollama") {
            Ok(ProviderType::Ollama)
        } else if str_eq(lower, "deepseek") {
            Ok(ProviderType::DeepSeek)
        } else if str_eq(lower, "xai") {
            Ok(ProviderType::XAI)
        } else if str_eq(lower, "phind") {
            Ok(ProviderType::Phind)
        } else if str_eq(lower, "groq") {
            Ok(ProviderType::Groq)
        } else if str_eq(lower, "google") {
            Ok(ProviderType::Google)
        } else if str_eq(lower, "cohere") {
            Ok(ProviderType::Cohere)
        } else if str_eq(lower, "mistral") {
            Ok(ProviderType::Mistral)
        } else if str_eq(lower, "openai-compatible") || str_eq(lower, "openai_compatible") {
            Ok(ProviderType::OpenAICompatible)
        } else if str_eq(lower, "openrouter") {
            Ok(ProviderType::OpenRouter)
        } else {
            Err("unknown provider type")
        }
    }

    /// The provider named by `s`, in any letter case.
    pub fn parse(s: &str) -> (r: Result<ProviderType, &'static str>)
        ensures
            match r {
                Ok(p) => spec_parse_provider(lowercase(s@)) == Some(p),
                Err(e) => spec_parse_provider(lowercase(s@)) is None && e@ == "unknown provider type"@,
            },
    {
        let lower = to_lowercase(s);
        ProviderType::parse_lowercase(lower.as_str())
    }

    /// The name the provider reports.
    pub fn name(&self) -> (r: &'static str)
        ensures
            r@ == spec_provider_name(*self),
    {
        match self {
            ProviderType::OpenAI => "openai",
            ProviderType::Anthropic => "anthropic",
            ProviderType::Ollama => "ollama",
            ProviderType::DeepSeek => "deepseek",
            ProviderType::XAI => "xai",
            ProviderType::Phind => "phind",
            ProviderType::Groq => "groq",
            ProviderType::Google => "google",
            ProviderType::Cohere => "cohere",
            ProviderType::Mistral => "mistral",
            ProviderType::OpenAICompatible => "openai-compatible",
            ProviderType::OpenRouter => "openrouter",
        }
    }
}

impl std::str::FromStr for ProviderType {
    type Err = &'static str;

    fn from_str(s: &str) -> Result<ProviderType, &'static str> {
        ProviderType::parse(s)
    }
}

/// The settings of a provider: which service, which model, how to reach it
/// and which features and tool choice are forced.
pub struct ProviderSettings {
    pub provider_type: ProviderType,
    pub model: String,
    pub api_key: Option<String>,
    pub base_url: Option<String>,
    /// `(feature, enabled)` overrides; the last one for a feature wins.
    pub feature_overrides: Vec<(LLMFeature, bool)>,
    pub tool_choice: Option<ToolChoice>,
}

/// The API key a provider gets: the given one, else the value of its key
/// variable, else the empty key for providers without a key variable.
/// None when the key variable is unset.
pub open spec fn resolved_key(p: ProviderType, api_key: Option<Seq<char>>, env: Seq<(Seq<char>, Seq<char>)>) -> Option<Seq<char>> {
    if api_key is Some {
        api_key
    } else if spec_api_key_env_var(p) is Some {
        lookup(env, spec_api_key_env_var(p)->0)
    } else {
        Some(Seq::empty())
    }
}

/// The endpoint a provider gets: the given one, else its default.
pub open spec fn resolved_base_url(p: ProviderType, base_url: Option<Seq<char>>) -> Option<Seq<char>> {
    if base_url is Some { base_url } else { spec_default_base_url(p) }
}

/// Whether a provider reports `feature` when nothing overrides it.
pub open spec fn builtin_support(p: ProviderType, feature: LLMFeature) -> bool {
    match feature {
        LLMFeature::Streaming => true,
        LLMFeature::SystemMessages => true,
        LLMFeature::FunctionCalling | LLMFeature::Vision => p == ProviderType::OpenAI || p == ProviderType::Anthropic
            || p == ProviderType::Google || p == ProviderType::OpenRouter,
        LLMFeature::JsonMode => p == ProviderType::OpenAI || p == ProviderType::Google || p == ProviderType::OpenRouter,
    }
}

/// Whether a provider supports a feature: an override decides, else the
/// provider's built-in support.
pub open spec fn spec_supports(p: ProviderType, overrides: Seq<(LLMFeature, bool)>, feature: LLMFeature) -> bool {
    match feature_override(overrides, feature) {
        Some(b) => b,
        None => builtin_support(p, feature),
    }
}

/// Whether a provider can honour a tool choice natively.
pub open spec fn spec_supports_tool_choice(p: ProviderType, overrides: Seq<(LLMFeature, bool)>, choice: ToolChoice) -> bool {
    if feature_override(overrides, LLMFeature::FunctionCalling) == Some(false) {
        false
    } else {
        match p {
            ProviderType::OpenAI | ProviderType::Anthropic | ProviderType::OpenRouter => true,
            ProviderType::Google => choice is Auto,
            ProviderType::OpenAICompatible => feature_override(overrides, LLMFeature::FunctionCalling) == Some(true),
            _ => false,
        }
    }
}

/// The message of a missing key variable.
pub open spec fn missing_key_message(var: Seq<char>) -> Seq<char> {
    "API key not found in environment variable "@ + var
}

impl ProviderSettings {
    /// Settings for a provider and model. The API key is the given one, else
    /// the value of the provider's key variable in `env`; the endpoint is the
    /// given one, else the provider's default. Fails when the key variable
    /// is unset, or when an OpenAI-compatible provider has no endpoint.
    pub fn from_spec_config(
        provider_type: ProviderType,
        model: &str,
        api_key: Option<String>,
        base_url: Option<String>,
        env: &Vec<(String, String)>,
    ) -> (r: Result<ProviderSettings, LLMError>)
        ensures
            match r {
                Ok(s) => {
                    &&& resolved_key(provider_type, api_key.deep_view(), env.deep_view()) is Some
                    &&& !(provider_type == ProviderType::OpenAICompatible
                        && resolved_base_url(provider_type, base_url.deep_view()) is None)
                    &&& s.provider_type == provider_type
                    &&& s.model@ == model@
                    &&& s.api_key.deep_view() == resolved_key(provider_type, api_key.deep_view(), env.deep_view())
                    &&& s.base_url.deep_view() == resolved_base_url(provider_type, base_url.deep_view())
                    &&& s.feature_overrides@.len() == 0
                    &&& s.tool_choice is None
                },
                Err(LLMError::Config(m)) => {
                    if resolved_key(provider_type, api_key.deep_view(), env.deep_view()) is None {
                        m@ == missing_key_message(spec_api_key_env_var(provider_type)->0)
                    } else {
                        &&& provider_type == ProviderType::OpenAICompatible
                        &&& resolved_base_url(provider_type, base_url.deep_view()) is None
                        &&& m@ == "provider 'openai-compatible' requires a base_url"@
                    }
                },
                Err(_) => false,
            },
    {
        let key: String = match api_key {
            Some(k) => k,
            None => match provider_type.api_key_env_var() {
                Some(var) => match lookup_pair(env, var) {
                    Some(v) => v.clone(),
                    None => {
                        let mut m = to_owned_string("API key not found in environment variable ");
                        push_str(&mut m, var);
                        return Err(LLMError::Config(m));
                    },
                },
                None => String::new(),
            },
        };
        let url: Option<String> = match base_url {
            Some(u) => Some(u),
            None => match provider_type.default_base_url() {
                Some(d) => Some(to_owned_string(d)),
                None => None,
            },
        };
        if provider_type == ProviderType::OpenAICompatible && url.is_none() {
            return Err(LLMError::Config(to_owned_string("provider 'openai-compatible' requires a base_url")));
        }
        Ok(ProviderSettings {
            provider_type,
            model: to_owned_string(model),
            api_key: Some(key),
            base_url: url,
            feature_overrides: Vec::new(),
            tool_choice: None,
        })
    }

    pub fn provider_type(&self) -> (r: ProviderType)
        ensures
            r == self.provider_type,
    {
        self.provider_type
    }

    /// The name the provider reports.
    pub fn provider_name(&self) -> (r: &'static str)
        ensures
            r@ == spec_provider_name(self.provider_type),
    {
        self.provider_type.name()
    }

    pub fn model_name(&self) -> (r: &str)
        ensures
            r@ == self.model@,
    {
        self.model.as_str()
    }

    pub fn base_url(&self) -> (r: Option<&str>)
        ensures
            r.deep_view() == self.base_url.deep_view(),
    {
        match &self.base_url {
            Some(u) => Some(u.as_str()),
            None => None,
        }
    }

    /// Forces a feature on or off.
    pub fn with_feature_override(self, feature: LLMFeature, enabled: bool) -> (r: Self)
        ensures
            r.feature_overrides@ == self.feature_overrides@.push((feature, enabled)),
            r.provider_type == self.provider_type,
            r.model == self.model,
            r.api_key == self.api_key,
            r.base_url == self.base_url,
            r.tool_choice == self.tool_choice,
    {
        let mut s = self;
        s.feature_overrides.push((feature, enabled));
        s
    }

    /// Forces several features on or off, later pairs winning.
    pub fn with_feature_overrides(self, overrides: Vec<(LLMFeature, bool)>) -> (r: Self)
        ensures
            r.feature_overrides@ == self.feature_overrides@ + overrides@,
            r.provider_type == self.provider_type,
            r.model == self.model,
            r.api_key == self.api_key,
            r.base_url == self.base_url,
            r.tool_choice == self.tool_choice,
    {
        let mut s = self;
        let ghost start = s.feature_overrides@;
        let mut i: usize = 0;
        while i < overrides.len()
            invariant
                i <= overrides@.len(),
                s.feature_overrides@ == start + overrides@.take(i as int),
                s.provider_type == self.provider_type,
                s.model == self.model,
                s.api_key == self.api_key,
                s.base_url == self.base_url,
                s.tool_choice == self.tool_choice,
            decreases overrides@.len() - i,
        {
            s.feature_overrides.push(overrides[i]);
            assert(overrides@.take(i + 1) =~= overrides@.take(i as int).push(overrides@[i as int]));
            i = i + 1;
        }
        assert(overrides@.take(overrides@.len() as int) =~= overrides@);
        s
    }

    /// Forces a tool choice.
    pub fn with_tool_choice(self, choice: ToolChoice) -> (r: Self)
        ensures
            r.tool_choice == Some(choice),
            r.feature_overrides == self.feature_overrides,
            r.provider_type == self.provider_type,
            r.model == self.model,
            r.api_key == self.api_key,
            r.base_url == self.base_url,
    {
        ProviderSettings { tool_choice: Some(choice), ..self }
    }

    /// Whether the provider supports a feature.
    pub fn supports(&self, feature: LLMFeature) -> (r: bool)
        ensures
            r == spec_supports(self.provider_type, self.feature_overrides@, feature),
    {
        match find_override(&self.feature_overrides, feature) {
            Some(b) => b,
            None => match feature {
                LLMFeature::Streaming => true,
                LLMFeature::SystemMessages => true,
                LLMFeature::FunctionCalling | LLMFeature::Vision => {
                    let p = self.provider_type;
                    p == ProviderType::OpenAI || p == ProviderType::Anthropic || p == ProviderType::Google
                        || p == ProviderType::OpenRouter
                },
                LLMFeature::JsonMode => {
                    let p = self.provider_type;
                    p == ProviderType::OpenAI || p == ProviderType::Google || p == ProviderType::OpenRouter
                },
            },
        }
    }

    /// Whether the provider can honour a tool choice natively.
    pub fn supports_tool_choice(&self, choice: &ToolChoice) -> (r: bool)
        ensures
            r == spec_supports_tool_choice(self.provider_type, self.feature_overrides@, *choice),
    {
        let fc = find_override(&self.feature_overrides, LLMFeature::FunctionCalling);
        if fc == Some(false) {
            return false;
        }
        match self.provider_type {
            ProviderType::OpenAI | ProviderType::Anthropic | ProviderType::OpenRouter => true,
            ProviderType::Google => match choice {
                ToolChoice::Auto => true,
                _ => false,
            },
            ProviderType::OpenAICompatible => fc == Some(true),
            _ => false,
        }
    }
}

/// A provider request under construction.
pub struct ProviderBuilder {
    pub provider_type: Option<ProviderType>,
    pub model: Option<String>,
    pub api_key: Option<String>,
    /// Name of the environment variable holding the API key.
    pub api_key_env: Option<String>,
    pub base_url: Option<String>,
}

/// The key a builder passes on: the given one, else the value of its key
/// variable (none when that variable is unset, `Some(None)` when no
/// variable is named).
pub open spec fn builder_key(
    api_key: Option<Seq<char>>,
    api_key_env: Option<Seq<char>>,
    env: Seq<(Seq<char>, Seq<char>)>,
) -> Option<Option<Seq<char>>> {
    if api_key is Some {
        Some(api_key)
    } else if api_key_env is Some {
        if lookup(env, api_key_env->0) is Some { Some(lookup(env, api_key_env->0)) } else { None }
    } else {
        Some(None)
    }
}

impl ProviderBuilder {
    /// A builder with nothing set.
    pub fn new() -> (r: Self)
        ensures
            r.provider_type is None,
            r.model is None,
            r.api_key is None,
            r.api_key_env is None,
            r.base_url is None,
    {
        ProviderBuilder { provider_type: None, model: None, api_key: None, api_key_env: None, base_url: None }
    }

    pub fn provider(self, provider_type: ProviderType) -> (r: Self)
        ensures
            r.provider_type == Some(provider_type),
            r.model == self.model,
            r.api_key == self.api_key,
            r.api_key_env == self.api_key_env,
            r.base_url == self.base_url,
    {
        ProviderBuilder { provider_type: Some(provider_type), ..self }
    }

    pub fn model(self, model: &str) -> (r: Self)
        ensures
            r.model.deep_view() == Some(model@),
            r.provider_type == self.provider_type,
            r.api_key == self.api_key,
            r.api_key_env == self.api_key_env,
            r.base_url == self.base_url,
    {
        ProviderBuilder { model: Some(to_owned_string(model)), ..self }
    }

    pub fn api_key(self, api_key: &str) -> (r: Self)
        ensures
            r.api_key.deep_view() == Some(api_key@),
            r.provider_type == self.provider_type,
            r.model == self.model,
            r.api_key_env == self.api_key_env,
            r.base_url == self.base_url,
    {
        ProviderBuilder { api_key: Some(to_owned_string(api_key)), ..self }
    }

    pub fn api_key_env(self, env_var: &str) -> (r: Self)
        ensures
            r.api_key_env.deep_view() == Some(env_var@),
            r.provider_type == self.provider_type,
            r.model == self.model,
            r.api_key == self.api_key,
            r.base_url == self.base_url,
    {
        ProviderBuilder { api_key_env: Some(to_owned_string(env_var)), ..self }
    }

    pub fn base_url(self, base_url: &str) -> (r: Self)
        ensures
            r.base_url.deep_view() == Some(base_url@),
            r.provider_type == self.provider_type,
            r.model == self.model,
            r.api_key == self.api_key,
            r.api_key_env == self.api_key_env,
    {
        ProviderBuilder { base_url: Some(to_owned_string(base_url)), ..self }
    }

    /// The provider settings: the provider type and model must be set, and
    /// a named key variable must be present in `env`.
    pub fn build(self, env: &Vec<(String, String)>) -> (r: Result<ProviderSettings, LLMError>)
        ensures
            self.provider_type is None ==> is_config_error(r, "Provider type not set"@),
            self.provider_type is Some && self.model is None ==> is_config_error(r, "Model not set"@),
            self.provider_type is Some && self.model is Some
                && builder_key(self.api_key.deep_view(), self.api_key_env.deep_view(), env.deep_view()) is None
                ==> is_config_error(r, "API key environment variable not found"@),
            self.provider_type is Some && self.model is Some
                && builder_key(self.api_key.deep_view(), self.api_key_env.deep_view(), env.deep_view()) is Some ==> {
                let p = self.provider_type->0;
                let key = builder_key(self.api_key.deep_view(), self.api_key_env.deep_view(), env.deep_view())->0;
                let base = self.base_url.deep_view();
                match r {
                    Ok(s) => {
                        &&& resolved_key(p, key, env.deep_view()) is Some
                        &&& !(p == ProviderType::OpenAICompatible && resolved_base_url(p, base) is None)
                        &&& s.provider_type == p
                        &&& s.model@ == self.model->0@
                        &&& s.api_key.deep_view() == resolved_key(p, key, env.deep_view())
                        &&& s.base_url.deep_view() == resolved_base_url(p, base)
                        &&& s.feature_overrides@.len() == 0
                        &&& s.tool_choice is None
                    },
                    Err(LLMError::Config(m)) => {
                        if resolved_key(p, key, env.deep_view()) is None {
                            m@ == missing_key_message(spec_api_key_env_var(p)->0)
                        } else {
                            &&& p == ProviderType::OpenAICompatible
                            &&& resolved_base_url(p, base) is None
                            &&& m@ == "provider 'openai-compatible' requires a base_url"@
                        }
                    },
                    Err(_) => false,
                }
            },
    {
        let provider_type = match self.provider_type {
            Some(p) => p,
            None => {
                return Err(LLMError::Config(to_owned_string("Provider type not set")));
            },
        };
        let model = match self.model {
            Some(m) => m,
            None => {
                return Err(LLMError::Config(to_owned_string("Model not set")));
            },
        };
        let key: Option<String> = match self.api_key {
            Some(k) => Some(k),
            None => match self.api_key_env {
                Some(var) => match lookup_pair(env, var.as_str()) {
                    Some(v) => Some(v.clone()),
                    None => {
                        return Err(LLMError::Config(to_owned_string("API key environment variable not found")));
                    },
                },
                None => None,
            },
        };
        ProviderSettings::from_spec_config(provider_type, model.as_str(), key, self.base_url, env)
    }
}

impl Default for ProviderBuilder {
    fn default() -> (r: Self)
        ensures
            r.provider_type is None,
            r.model is None,
            r.api_key is None,
            r.api_key_env is None,
            r.base_url is None,
    {
        ProviderBuilder::new()
    }
}

/// The error reported for a failure of the underlying client. Ollama
/// failures are explained: an unreachable server, or a model that was not
/// pulled.
pub open spec fn spec_provider_error(p: ProviderType, model: Seq<char>, base_url: Option<Seq<char>>, err: Seq<char>) -> ErrorView {
    if p != ProviderType::Ollama {
        ErrorView::API("LLM provider error: "@ + err, None)
    } else {
        let base = if base_url is Some { base_url->0 } else { "http://localhost:11434"@ };
        let lower = ascii_lower(err);
        if contains_seq(lower, "connection refused"@) || contains_seq(lower, "failed to connect"@)
            || contains_seq(lower, "error sending request"@) || contains_seq(lower, "os error 111"@) {
            ErrorView::Network("Cannot connect to Ollama at "@ + base + ". Is Ollama running? Start it with: ollama serve"@)
        } else if contains_seq(lower, "model"@) && contains_seq(lower, "not found"@) {
            ErrorView::API("Model '"@ + model + "' not found in Ollama. Pull it with: ollama pull "@ + model, None)
        } else {
            ErrorView::API("Ollama provider error: "@ + err, None)
        }
    }
}

/// Maps a client failure, given by its text, to a provider error.
pub fn map_provider_error(provider_type: ProviderType, model: &str, base_url: Option<&str>, err: &str) -> (r: LLMError)
    ensures
        r@ == spec_provider_error(provider_type, model@, base_url.deep_view(), err@),
{
    if provider_type != ProviderType::Ollama {
        let mut m = to_owned_string("LLM provider error: ");
        push_str(&mut m, err);
        return LLMError::API { message: m, status: None };
    }
    let base = match base_url {
        Some(b) => b,
        None => "http://localhost:11434",
    };
    let lower = to_ascii_lowercase(err);
    let l = lower.as_str();
    if str_contains(l, "connection refused") || str_contains(l, "failed to connect")
        || str_contains(l, "error sending request") || str_contains(l, "os error 111") {
        let mut m = to_owned_string("Cannot connect to Ollama at ");
        push_str(&mut m, base);
        push_str(&mut m, ". Is Ollama running? Start it with: ollama serve");
        return LLMError::Network(m);
    }
    if str_contains(l, "model") && str_contains(l, "not found") {
        let mut m = to_owned_string("Model '");
        push_str(&mut m, model);
        push_str(&mut m, "' not found in Ollama. Pull it with: ollama pull ");
        push_str(&mut m, model);
        return LLMError::API { message: m, status: None };
    }
    let mut m = to_owned_string("Ollama provider error: ");
    push_str(&mut m, err);
    LLMError::API { message: m, status: None }
}

/// The finish reason named by a provider's stop reason.
pub open spec fn spec_finish_reason(reason: Seq<char>) -> FinishReason {
    if reason == "stop"@ || reason == "end_turn"@ {
        FinishReason::Stop
    } else if reason == "length"@ || reason == "max_tokens"@ {
        FinishReason::Length
    } else if reason == "tool_calls"@ || reason == "function_call"@ {
        FinishReason::ToolCall
    } else if reason == "content_filter"@ {
        FinishReason::ContentFilter
    } else {
        FinishReason::Other
    }
}

/// Maps a provider's stop reason to a finish reason.
pub fn map_finish_reason(reason: &str) -> (r: FinishReason)
    ensures
        r == spec_finish_reason(reason@),
{
    if str_eq(reason, "stop") || str_eq(reason, "end_turn") {
        FinishReason::Stop
    } else if str_eq(reason, "length") || str_eq(reason, "max_tokens") {
        FinishReason::Length
    } else if str_eq(reason, "tool_calls") || str_eq(reason, "function_call") {
        FinishReason::ToolCall
    } else if str_eq(reason, "content_filter") {
        FinishReason::ContentFilter
    } else {
        FinishReason::Other
    }
}

/// The contents of the system messages, in order.
pub open spec fn system_contents(msgs: Seq<ChatMessage>) -> Seq<Seq<char>>
    decreases msgs.len(),
{
    if msgs.len() == 0 {
        Seq::empty()
    } else if msgs.last().role == Role::System {
        system_contents(msgs.drop_last()).push(msgs.last().content@)
    } else {
        system_contents(msgs.drop_last())
    }
}

/// The messages that are not system messages, in order.
pub open spec fn non_system(msgs: Seq<ChatMessage>) -> Seq<ChatMessage>
    decreases msgs.len(),
{
    if msgs.len() == 0 {
        Seq::empty()
    } else if msgs.last().role == Role::System {
        non_system(msgs.drop_last())
    } else {
        non_system(msgs.drop_last()).push(msgs.last())
    }
}

/// Splits a conversation into its system prompt (the system messages
/// joined by line breaks; none without system messages) and the other
/// messages.
pub fn extract_system_and_messages(messages: &Vec<ChatMessage>) -> (r: (Option<String>, Vec<&ChatMessage>))
    ensures
        system_contents(messages@).len() == 0 ==> r.0 is None,
        system_contents(messages@).len() > 0 ==> r.0.deep_view() == Some(join_seq(system_contents(messages@), "\n"@)),
        r.1@.map_values(|m: &ChatMessage| *m) == non_system(messages@),
{
    let mut prompt = String::new();
    let mut any = false;
    let mut rest: Vec<&ChatMessage> = Vec::new();
    let mut i: usize = 0;
    proof {
        reveal_strlit("\n");
    }
    while i < messages.len()
        invariant
            i <= messages@.len(),
            any == (system_contents(messages@.take(i as int)).len() > 0),
            any ==> prompt@ == join_seq(system_contents(messages@.take(i as int)), "\n"@),
            !any ==> prompt@.len() == 0,
            rest@.map_values(|m: &ChatMessage| *m) == non_system(messages@.take(i as int)),
            "\n"@ == seq!['\n'],
        decreases messages@.len() - i,
    {
        let ghost t = messages@.take(i + 1);
        let ghost prev = system_contents(messages@.take(i as int));
        proof {
            assert(t.drop_last() =~= messages@.take(i as int));
            assert(t.last() == messages@[i as int]);
        }
        if messages[i].role == Role::System {
            let ghost before = prompt@;
            if any {
                push_char(&mut prompt, '\n');
            }
            push_str(&mut prompt, messages[i].content.as_str());
            proof {
                let parts = system_contents(t);
                assert(parts == prev.push(messages@[i as int].content@));
                assert(parts.drop_last() =~= prev);
                if any {
                    assert(prompt@ =~= join_seq(prev, "\n"@) + "\n"@ + parts.last());
                } else {
                    assert(prev.len() == 0);
                    assert(parts.len() == 1);
                    assert(prompt@ =~= parts[0]);
                }
            }
            any = true;
        } else {
            let ghost before = rest@;
            rest.push(&messages[i]);
            assert(rest@.map_values(|m: &ChatMessage| *m) =~= before.map_values(|m: &ChatMessage| *m).push(messages@[i as int]));
        }
        i = i + 1;
    }
    assert(messages@.take(messages@.len() as int) =~= messages@);
    if any {
        (Some(prompt), rest)
    } else {
        (None, rest)
    }
}

/// The prefix of a message in a plain-text prompt.
pub open spec fn role_prefix(role: Role) -> Seq<char> {
    match role {
        Role::System => "System: "@,
        Role::User => "User: "@,
        Role::Assistant => "Assistant: "@,
        Role::Function => "Function: "@,
        Role::Tool => "Tool: "@,
    }
}

/// The lines of a conversation, each `Role: content`.
pub open spec fn prompt_lines(msgs: Seq<ChatMessage>) -> Seq<char>
    decreases msgs.len(),
{
    if msgs.len() == 0 {
        Seq::empty()
    } else {
        prompt_lines(msgs.drop_last()) + role_prefix(msgs.last().role) + msgs.last().content@ + seq!['\n']
    }
}

fn prefix_of(role: Role) -> (r: &'static str)
    ensures
        r@ == role_prefix(role),
{
    match role {
        Role::System => "System: ",
        Role::User => "User: ",
        Role::Assistant => "Assistant: ",
        Role::Function => "Function: ",
        Role::Tool => "Tool: ",
    }
}

/// A plain-text prompt for a local model: one line per message, then the
/// cue `Assistant: `.
pub fn messages_to_prompt(messages: &Vec<ChatMessage>) -> (r: String)
    ensures
        r@ == prompt_lines(messages@) + "Assistant: "@,
{
    let mut prompt = String::new();
    let mut i: usize = 0;
    while i < messages.len()
        invariant
            i <= messages@.len(),
            prompt@ == prompt_lines(messages@.take(i as int)),
        decreases messages@.len() - i,
    {
        let ghost t = messages@.take(i + 1);
        proof {
            assert(t.drop_last() =~= messages@.take(i as int));
            assert(t.last() == messages@[i as int]);
        }
        push_str(&mut prompt, prefix_of(messages[i].role));
        push_str(&mut prompt, messages[i].content.as_str());
        push_char(&mut prompt, '\n');
        i = i + 1;
    }
    assert(messages@.take(messages@.len() as int) =~= messages@);
    push_str(&mut prompt, "Assistant: ");
    prompt
}

/// A rough token count: a quarter of the length in bytes, truncated to 32
/// bits.
pub fn estimate_tokens(text: &str) -> (r: u32)
    ensures
        r == (text.len() / 4) as u32,
{
    (text.len() / 4) as u32
}

/// Whether a local model reports a feature: streaming and system messages
/// only.
pub fn local_supports(feature: LLMFeature) -> (r: bool)
    ensures
        r == (feature == LLMFeature::Streaming || feature == LLMFeature::SystemMessages),
{
    match feature {
        LLMFeature::Streaming => true,
        LLMFeature::SystemMessages => true,
        _ => false,
    }
}

/// Facts about a locally run model.
pub struct ModelInfo {
    pub model_name: String,
    pub model_type: String,
    /// Number of parameters.
    pub parameters: Option<u64>,
    pub quantization: Option<String>,
    /// Context window, in tokens.
    pub context_length: Option<usize>,
}

impl ModelInfo {
    pub fn new(model_name: &str, model_type: &str) -> (r: Self)
        ensures
            r.model_name@ == model_name@,
            r.model_type@ == model_type@,
            r.parameters is None,
            r.quantization is None,
            r.context_length is None,
    {
        ModelInfo {
            model_name: to_owned_string(model_name),
            model_type: to_owned_string(model_type),
            parameters: None,
            quantization: None,
            context_length: None,
        }
    }

    pub fn with_parameters(self, params: u64) -> (r: Self)
        ensures
            r.parameters == Some(params),
            r.model_name == self.model_name,
            r.model_type == self.model_type,
            r.quantization == self.quantization,
            r.context_length == self.context_length,
    {
        ModelInfo { parameters: Some(params), ..self }
    }

    pub fn with_quantization(self, quant: &str) -> (r: Self)
        ensures
            r.quantization.deep_view() == Some(quant@),
            r.model_name == self.model_name,
            r.model_type == self.model_type,
            r.parameters == self.parameters,
            r.context_length == self.context_length,
    {
        ModelInfo { quantization: Some(to_owned_string(quant)), ..self }
    }

    pub fn with_context_length(self, length: usize) -> (r: Self)
        ensures
            r.context_length == Some(length),
            r.model_name == self.model_name,
            r.model_type == self.model_type,
            r.parameters == self.parameters,
            r.quantization == self.quantization,
    {
        ModelInfo { context_length: Some(length), ..self }
    }
}

} // verus!
