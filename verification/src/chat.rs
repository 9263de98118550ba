//! Chat messages and the small vocabulary shared by LLM providers: roles,
//! finish reasons, token usage, features and tool choices.
use vstd::prelude::*;
use crate::text::to_owned_string;
use crate::hitl::WaitDuration;
use crate::json::{JsonValue, JsonView, members_view, clone_members};

verus! {

/// Author of a chat message.
#[derive(Clone, Copy, Debug, PartialEq, Eq, Structural)]
pub enum Role {
    System,
    User,
    Assistant,
    Function,
    Tool,
}

/// One message of a conversation.
pub struct ChatMessage {
    pub role: Role,
    pub content: String,
    pub name: Option<String>,
}

impl ChatMessage {
    /// A message with the given role and content and no name.
    pub fn new(role: Role, content: &str) -> (m: ChatMessage)
        ensures
            m.role == role,
            m.content@ == content@,
            m.name is None,
    {
        ChatMessage { role, content: to_owned_string(content), name: None }
    }

    /// A system message.
    pub fn system(content: &str) -> (m: ChatMessage)
        ensures
            m.role == Role::System,
            m.content@ == content@,
            m.name is None,
    {
        ChatMessage::new(Role::System, content)
    }

    /// A user message.
    pub fn user(content: &str) -> (m: ChatMessage)
        ensures
            m.role == Role::User,
            m.content@ == content@,
            m.name is None,
    {
        ChatMessage::new(Role::User, content)
    }

    /// An assistant message.
    pub fn assistant(content: &str) -> (m: ChatMessage)
        ensures
            m.role == Role::Assistant,
            m.content@ == content@,
            m.name is None,
    {
        ChatMessage::new(Role::Assistant, content)
    }

    /// A copy of the message.
    pub fn copy(&self) -> (m: ChatMessage)
        ensures
            m.role == self.role,
            m.content@ == self.content@,
            m.name.deep_view() == self.name.deep_view(),
    {
        ChatMessage { role: self.role, content: self.content.clone(), name: crate::text::clone_opt_string(&self.name) }
    }
}

/// Why a completion stopped.
#[derive(Clone, Copy, Debug, PartialEq, Eq, Structural)]
pub enum FinishReason {
    Stop,
    Length,
    ToolCall,
    ContentFilter,
    Other,
}

/// Token counts reported for one completion.
#[derive(Clone, Copy, Debug, PartialEq, Eq, Structural)]
pub struct TokenUsage {
    pub prompt_tokens: u32,
    pub completion_tokens: u32,
    pub total_tokens: u32,
}

/// The usage of `prompt` and `completion` tokens; the total is their sum,
/// held at `u32::MAX`.
pub open spec fn usage_of(prompt: u32, completion: u32) -> TokenUsage {
    TokenUsage {
        prompt_tokens: prompt,
        completion_tokens: completion,
        total_tokens: if prompt + completion > u32::MAX { u32::MAX } else { (prompt + completion) as u32 },
    }
}

impl TokenUsage {
    /// Usage of `prompt_tokens` and `completion_tokens` (see `usage_of`).
    pub fn new(prompt_tokens: u32, completion_tokens: u32) -> (r: TokenUsage)
        ensures
            r == usage_of(prompt_tokens, completion_tokens),
    {
        TokenUsage { prompt_tokens, completion_tokens, total_tokens: prompt_tokens.saturating_add(completion_tokens) }
    }
}

/// A completion.
pub struct LLMResponse {
    pub content: String,
    pub finish_reason: FinishReason,
    pub usage: Option<TokenUsage>,
    /// The model that answered, when known.
    pub model: Option<String>,
    /// Provider-specific details.
    pub metadata: Vec<(String, JsonValue)>,
}

/// Mathematical form of a completion.
pub struct CompletionView {
    pub content: Seq<char>,
    pub finish_reason: FinishReason,
    pub usage: Option<TokenUsage>,
    pub model: Option<Seq<char>>,
    pub metadata: Seq<(Seq<char>, JsonView)>,
}

impl View for LLMResponse {
    type V = CompletionView;

    open spec fn view(&self) -> CompletionView {
        CompletionView {
            content: self.content@,
            finish_reason: self.finish_reason,
            usage: self.usage,
            model: self.model.deep_view(),
            metadata: members_view(self.metadata@),
        }
    }
}

impl LLMResponse {
    /// A completion with this content and finish reason and nothing more.
    pub fn new(content: &str, finish_reason: FinishReason) -> (r: LLMResponse)
        ensures
            r@ == (CompletionView {
                content: content@,
                finish_reason,
                usage: None,
                model: None,
                metadata: Seq::empty(),
            }),
    {
        let r = LLMResponse { content: to_owned_string(content), finish_reason, usage: None, model: None, metadata: Vec::new() };
        assert(members_view(r.metadata@) =~= Seq::empty());
        r
    }

    /// A copy of the completion.
    pub fn copy(&self) -> (r: LLMResponse)
        ensures
            r@ == self@,
    {
        LLMResponse {
            content: self.content.clone(),
            finish_reason: self.finish_reason,
            usage: self.usage,
            model: crate::text::clone_opt_string(&self.model),
            metadata: clone_members(&self.metadata),
        }
    }
}

/// One piece of a streamed completion.
pub struct LLMChunk {
    pub delta: String,
    pub is_final: bool,
    /// Set on the final piece.
    pub finish_reason: Option<FinishReason>,
    /// Set on the final piece, when known.
    pub usage: Option<TokenUsage>,
}

impl LLMChunk {
    /// A piece that is not the last.
    pub fn new(delta: String, is_final: bool) -> (r: LLMChunk)
        ensures
            r.delta == delta,
            r.is_final == is_final,
            r.finish_reason is None,
            r.usage is None,
    {
        LLMChunk { delta, is_final, finish_reason: None, usage: None }
    }

    /// The last piece, with why the completion stopped and its usage.
    pub fn final_chunk(delta: String, finish_reason: FinishReason, usage: Option<TokenUsage>) -> (r: LLMChunk)
        ensures
            r.delta == delta,
            r.is_final,
            r.finish_reason == Some(finish_reason),
            r.usage == usage,
    {
        LLMChunk { delta, is_final: true, finish_reason: Some(finish_reason), usage }
    }
}

/// Optional capabilities a provider may offer.
#[derive(Clone, Copy, Debug, PartialEq, Eq, Structural)]
pub enum LLMFeature {
    Streaming,
    FunctionCalling,
    Vision,
    JsonMode,
    SystemMessages,
}

/// How the model may use the tools offered to it.
pub enum ToolChoice {
    Auto,
    Required,
    Specific(String),
    /// The model must not call tools (`none`).
    NoTools,
}

/// A per-feature override: `(feature, enabled)` pairs, the last one for a
/// feature winning.
pub open spec fn feature_override(overrides: Seq<(LLMFeature, bool)>, feature: LLMFeature) -> Option<bool>
    decreases overrides.len(),
{
    if overrides.len() == 0 {
        None
    } else if overrides.last().0 == feature {
        Some(overrides.last().1)
    } else {
        feature_override(overrides.drop_last(), feature)
    }
}

/// Looks up the override for a feature.
pub fn find_override(overrides: &Vec<(LLMFeature, bool)>, feature: LLMFeature) -> (r: Option<bool>)
    ensures
        r == feature_override(overrides@, feature),
{
    let mut k: usize = overrides.len();
    assert(overrides@.take(k as int) =~= overrides@);
    while k > 0
        invariant
            k <= overrides@.len(),
            feature_override(overrides@, feature) == feature_override(overrides@.take(k as int), feature),
        decreases k,
    {
        assert(overrides@.take(k as int).drop_last() =~= overrides@.take(k - 1));
        let (f, enabled) = overrides[k - 1];
        if f == feature {
            return Some(enabled);
        }
        k = k - 1;
    }
    None
}

/// Errors reported by LLM providers.
#[derive(Debug)]
pub enum LLMError {
    /// Invalid or missing configuration.
    Config(String),
    /// An error reported by the provider's API.
    API { message: String, status: Option<u16> },
    Network(String),
    /// Generation stopped by a content filter.
    ContentFiltered(String),
    /// A malformed request or response body.
    Serialization(String),
    /// Too many requests; retry after this long, when the provider says.
    RateLimit { retry_after: Option<WaitDuration> },
    Other(String),
}

/// `r` is a configuration error with message `msg`.
pub open spec fn is_config_error<T>(r: Result<T, LLMError>, msg: Seq<char>) -> bool {
    match r {
        Err(LLMError::Config(m)) => m@ == msg,
        _ => false,
    }
}

/// Mathematical form of an LLM error.
pub enum ErrorView {
    Config(Seq<char>),
    API(Seq<char>, Option<u16>),
    Network(Seq<char>),
    ContentFiltered(Seq<char>),
    Serialization(Seq<char>),
    RateLimit(Option<WaitDuration>),
    Other(Seq<char>),
}

impl View for LLMError {
    type V = ErrorView;

    open spec fn view(&self) -> ErrorView {
        match self {
            LLMError::Config(m) => ErrorView::Config(m@),
            LLMError::API { message, status } => ErrorView::API(message@, *status),
            LLMError::Network(m) => ErrorView::Network(m@),
            LLMError::ContentFiltered(m) => ErrorView::ContentFiltered(m@),
            LLMError::Serialization(m) => ErrorView::Serialization(m@),
            LLMError::RateLimit { retry_after } => ErrorView::RateLimit(*retry_after),
            LLMError::Other(m) => ErrorView::Other(m@),
        }
    }
}

/// The error of a result, by its view; none for a success.
pub open spec fn error_of<T>(r: Result<T, LLMError>) -> Option<ErrorView> {
    match r {
        Ok(_) => None,
        Err(e) => Some(e@),
    }
}

} // verus!
