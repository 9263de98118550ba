//! Settings of a Gemini `generateContent` request: the generation
//! configuration and its thinking settings, the request timeout, and the
//! settings and body fields the adapter refuses.
use vstd::prelude::*;
use crate::text::{to_owned_string, push_str, str_eq, str_starts_with, has_prefix, to_ascii_lowercase, ascii_lower};
use crate::json::{JsonValue, JsonView, JsonNumber, member, members_view, member_of, as_str_view, as_u64_view, as_bool_view, lemma_members_view, jv, items_view};
use crate::chat::{LLMError, ErrorView, error_of};
use crate::google::{numbers_exact, validate_json_numbers, valid_function_name, validate_function_name};
use vstd::utf8::encode_utf8;

verus! {

/// A float sampling setting, by what the request needs of it: its value
/// widened to `f64` (by its bit pattern), or that it is not finite.
#[derive(Clone, Copy, Debug, PartialEq, Eq, Structural)]
pub enum SamplingValue {
    Finite(u64),
    NonFinite,
}

/// The per-request settings that shape a Gemini request.
pub struct GenerationSettings {
    pub max_tokens: Option<u32>,
    pub temperature: Option<SamplingValue>,
    pub top_p: Option<SamplingValue>,
    pub top_k: Option<u32>,
    pub timeout_seconds: Option<u64>,
    pub reasoning: Option<bool>,
    pub reasoning_effort: Option<String>,
    pub reasoning_budget_tokens: Option<u32>,
    /// Free-form settings by key; a key read finds its last occurrence.
    pub extra: Vec<(String, JsonValue)>,
}

/// The free-form setting `key`.
pub open spec fn extra_value(s: &GenerationSettings, key: Seq<char>) -> Option<JsonView> {
    member(members_view(s.extra@), key)
}

/// A result and its mathematical form agree.
pub open spec fn agrees<T>(r: Result<T, LLMError>, v: Result<T, ErrorView>) -> bool {
    match (r, v) {
        (Ok(a), Ok(b)) => a == b,
        (Err(e), Err(w)) => e@ == w,
        _ => false,
    }
}

fn config_error(message: &str) -> (r: LLMError)
    ensures
        r@ == ErrorView::Config(message@),
{
    LLMError::Config(to_owned_string(message))
}

fn extra_get<'a>(s: &'a GenerationSettings, key: &str) -> (r: Option<&'a JsonValue>)
    ensures
        match r {
            Some(v) => extra_value(s, key@) == Some(v@),
            None => extra_value(s, key@) is None,
        },
{
    member_of(&s.extra, key)
}

/// The request timeout in seconds: the setting, else the free-form
/// `timeout_seconds`, which must then be a non-negative integer.
pub open spec fn spec_effective_timeout(s: &GenerationSettings) -> Result<Option<u64>, ErrorView> {
    match s.timeout_seconds {
        Some(v) => Ok(Some(v)),
        None => match extra_value(s, "timeout_seconds"@) {
            None => Ok(None),
            Some(v) => match as_u64_view(v) {
                Some(n) => Ok(Some(n)),
                None => Err(ErrorView::Config("Google timeout_seconds must be a u64"@)),
            },
        },
    }
}

/// The request timeout in seconds, if any.
pub fn effective_timeout(s: &GenerationSettings) -> (r: Result<Option<u64>, LLMError>)
    ensures
        agrees(r, spec_effective_timeout(s)),
{
    match s.timeout_seconds {
        Some(v) => Ok(Some(v)),
        None => match extra_get(s, "timeout_seconds") {
            None => Ok(None),
            Some(v) => match v.as_u64() {
                Some(n) => Ok(Some(n)),
                None => Err(config_error("Google timeout_seconds must be a u64")),
            },
        },
    }
}

/// Whether thinking is switched on or off: the setting, else the
/// free-form `reasoning`, which must then be a boolean.
pub open spec fn spec_effective_reasoning(s: &GenerationSettings) -> Result<Option<bool>, ErrorView> {
    match s.reasoning {
        Some(v) => Ok(Some(v)),
        None => match extra_value(s, "reasoning"@) {
            None => Ok(None),
            Some(v) => match as_bool_view(v) {
                Some(b) => Ok(Some(b)),
                None => Err(ErrorView::Config("Google reasoning must be a boolean"@)),
            },
        },
    }
}

/// Whether thinking is switched on or off, if said.
pub fn effective_reasoning(s: &GenerationSettings) -> (r: Result<Option<bool>, LLMError>)
    ensures
        agrees(r, spec_effective_reasoning(s)),
{
    match s.reasoning {
        Some(v) => Ok(Some(v)),
        None => match extra_get(s, "reasoning") {
            None => Ok(None),
            Some(v) => match v.as_bool() {
                Some(b) => Ok(Some(b)),
                None => Err(config_error("Google reasoning must be a boolean")),
            },
        },
    }
}

/// The reasoning effort: the setting, else the free-form
/// `reasoning_effort`, which must then be a string.
pub open spec fn spec_effort(s: &GenerationSettings) -> Result<Option<Seq<char>>, ErrorView> {
    match s.reasoning_effort {
        Some(e) => Ok(Some(e@)),
        None => match extra_value(s, "reasoning_effort"@) {
            None => Ok(None),
            Some(v) => match as_str_view(v) {
                Some(t) => Ok(Some(t)),
                None => Err(ErrorView::Config("Google reasoning_effort must be a string"@)),
            },
        },
    }
}

fn reasoning_effort(s: &GenerationSettings) -> (r: Result<Option<String>, LLMError>)
    ensures
        match (r, spec_effort(s)) {
            (Ok(Some(a)), Ok(Some(b))) => a@ == b,
            (Ok(None), Ok(None)) => true,
            (Err(e), Err(w)) => e@ == w,
            _ => false,
        },
{
    match &s.reasoning_effort {
        Some(e) => Ok(Some(e.clone())),
        None => match extra_get(s, "reasoning_effort") {
            None => Ok(None),
            Some(v) => match v.as_str() {
                Some(t) => Ok(Some(to_owned_string(t))),
                None => Err(config_error("Google reasoning_effort must be a string")),
            },
        },
    }
}

/// The thinking token budget: the setting, else the free-form
/// `reasoning_budget_tokens`, which must then be an integer that fits in
/// `u32`.
pub open spec fn spec_budget(s: &GenerationSettings) -> Result<Option<u32>, ErrorView> {
    match s.reasoning_budget_tokens {
        Some(b) => Ok(Some(b)),
        None => match extra_value(s, "reasoning_budget_tokens"@) {
            None => Ok(None),
            Some(v) => match as_u64_view(v) {
                Some(n) => if n <= u32::MAX {
                    Ok(Some(n as u32))
                } else {
                    Err(ErrorView::Config("Google reasoning_budget_tokens must fit in u32"@))
                },
                None => Err(ErrorView::Config("Google reasoning_budget_tokens must fit in u32"@)),
            },
        },
    }
}

fn reasoning_budget(s: &GenerationSettings) -> (r: Result<Option<u32>, LLMError>)
    ensures
        agrees(r, spec_budget(s)),
{
    match s.reasoning_budget_tokens {
        Some(b) => Ok(Some(b)),
        None => match extra_get(s, "reasoning_budget_tokens") {
            None => Ok(None),
            Some(v) => match v.as_u64() {
                Some(n) => if n <= 0xffff_ffffu64 {
                    Ok(Some(n as u32))
                } else {
                    Err(config_error("Google reasoning_budget_tokens must fit in u32"))
                },
                None => Err(config_error("Google reasoning_budget_tokens must fit in u32")),
            },
        },
    }
}

/// An integer member, when the setting is present.
pub open spec fn integer_member(name: Seq<char>, v: Option<u32>) -> Seq<(Seq<char>, JsonView)> {
    match v {
        None => Seq::empty(),
        Some(n) => seq![(name, JsonView::Number(JsonNumber::PosInt(n as u64)))],
    }
}

/// A float member, when the setting is present; an error when it is not
/// finite.
pub open spec fn sampling_member(name: Seq<char>, field: Seq<char>, v: Option<SamplingValue>)
    -> Result<Seq<(Seq<char>, JsonView)>, ErrorView>
{
    match v {
        None => Ok(Seq::empty()),
        Some(SamplingValue::Finite(bits)) => Ok(seq![(name, JsonView::Number(JsonNumber::Float(bits)))]),
        Some(SamplingValue::NonFinite) => Err(ErrorView::Config("Google "@ + field + " must be finite"@)),
    }
}

/// The thinking level named by an effort, compared without ASCII case.
pub open spec fn effort_level(effort: Seq<char>) -> Option<Seq<char>> {
    let l = ascii_lower(effort);
    if l == "low"@ || l == "medium"@ || l == "high"@ {
        Some(l)
    } else {
        None
    }
}

/// The token budget that stands for a thinking level on Gemini 2.5.
pub open spec fn level_budget(level: Seq<char>) -> u64 {
    if level == "low"@ {
        1024
    } else if level == "medium"@ {
        8192
    } else {
        24576
    }
}

/// A `thinkingBudget` member.
pub open spec fn budget_member(n: u64) -> Seq<(Seq<char>, JsonView)> {
    seq![("thinkingBudget"@, JsonView::Number(JsonNumber::PosInt(n)))]
}

/// The members of `thinkingConfig` for a model.
///
/// An effort and a budget cannot both be given. An effort becomes a
/// `thinkingLevel` on Gemini 3 and a `thinkingBudget` on Gemini 2.5 and is
/// refused elsewhere; a budget is refused on Gemini 3; with neither, thinking
/// switched off becomes a zero budget, refused on Gemini 3 and 2.5 Pro.
pub open spec fn spec_thinking(s: &GenerationSettings, model: Seq<char>) -> Result<Seq<(Seq<char>, JsonView)>, ErrorView> {
    match spec_effort(s) {
        Err(e) => Err(e),
        Ok(effort) => match spec_budget(s) {
            Err(e) => Err(e),
            Ok(budget) => if effort is Some && budget is Some {
                Err(ErrorView::Config("Google reasoning_effort and reasoning_budget_tokens cannot be sent together"@))
            } else {
                match effort {
                    Some(eff) => match effort_level(eff) {
                        None => Err(ErrorView::Config(
                            "invalid Google reasoning_effort '"@ + eff + "'; expected low, medium, or high"@)),
                        Some(level) => if has_prefix(model, "gemini-3"@) {
                            Ok(seq![("thinkingLevel"@, JsonView::Str(level))])
                        } else if has_prefix(model, "gemini-2.5"@) {
                            Ok(budget_member(level_budget(level)))
                        } else {
                            Err(ErrorView::Config("Google reasoning_effort is unsupported for model '"@ + model + "'"@))
                        },
                    },
                    None => match budget {
                        Some(b) => if has_prefix(model, "gemini-3"@) {
                            Err(ErrorView::Config(
                                "Google Gemini 3 models require reasoning_effort instead of reasoning_budget_tokens"@))
                        } else {
                            Ok(budget_member(b as u64))
                        },
                        None => match spec_effective_reasoning(s) {
                            Err(e) => Err(e),
                            Ok(on) => if on == Some(false) {
                                if has_prefix(model, "gemini-3"@) || has_prefix(model, "gemini-2.5-pro"@) {
                                    Err(ErrorView::Config(
                                        "Google model '"@ + model + "' does not support disabling thinking"@))
                                } else {
                                    Ok(budget_member(0))
                                }
                            } else {
                                Ok(Seq::empty())
                            },
                        },
                    },
                }
            },
        },
    }
}

/// The `generationConfig` members for a model: `maxOutputTokens`,
/// `temperature`, `topP`, `topK` and `thinkingConfig`, each only when set.
pub open spec fn spec_generation_config(s: &GenerationSettings, model: Seq<char>) -> Result<Seq<(Seq<char>, JsonView)>, ErrorView> {
    match sampling_member("temperature"@, "temperature"@, s.temperature) {
        Err(e) => Err(e),
        Ok(t) => match sampling_member("topP"@, "top_p"@, s.top_p) {
            Err(e) => Err(e),
            Ok(p) => match spec_thinking(s, model) {
                Err(e) => Err(e),
                Ok(th) => Ok(integer_member("maxOutputTokens"@, s.max_tokens) + t + p
                    + integer_member("topK"@, s.top_k)
                    + if th.len() == 0 {
                        Seq::<(Seq<char>, JsonView)>::empty()
                    } else {
                        seq![("thinkingConfig"@, JsonView::Object(th))]
                    }),
            },
        },
    }
}

/// A result of member lists and its mathematical form agree.
pub open spec fn members_agree(r: Result<Vec<(String, JsonValue)>, LLMError>, v: Result<Seq<(Seq<char>, JsonView)>, ErrorView>) -> bool {
    match (r, v) {
        (Ok(m), Ok(w)) => members_view(m@) == w,
        (Err(e), Err(w)) => e@ == w,
        _ => false,
    }
}

fn member_pair(name: &str, value: JsonValue) -> (r: (String, JsonValue))
    ensures
        r.0@ == name@,
        r.1 == value,
{
    (to_owned_string(name), value)
}

fn budget_members(n: u64) -> (r: Vec<(String, JsonValue)>)
    ensures
        members_view(r@) == budget_member(n),
{
    let mut v: Vec<(String, JsonValue)> = Vec::new();
    v.push(member_pair("thinkingBudget", JsonValue::Number(JsonNumber::PosInt(n))));
    proof {
        lemma_members_view(v@);
        assert(members_view(v@) =~= budget_member(n));
    }
    v
}

fn level_of(effort: &str) -> (r: Option<&'static str>)
    ensures
        match r {
            Some(l) => effort_level(effort@) == Some(l@),
            None => effort_level(effort@) is None,
        },
{
    let lower = to_ascii_lowercase(effort);
    let l = lower.as_str();
    if str_eq(l, "low") {
        Some("low")
    } else if str_eq(l, "medium") {
        Some("medium")
    } else if str_eq(l, "high") {
        Some("high")
    } else {
        None
    }
}

fn thinking_for_effort(effort: &str, model: &str) -> (r: Result<Vec<(String, JsonValue)>, LLMError>)
    ensures
        members_agree(r, match effort_level(effort@) {
            None => Err(ErrorView::Config(
                "invalid Google reasoning_effort '"@ + effort@ + "'; expected low, medium, or high"@)),
            Some(level) => if has_prefix(model@, "gemini-3"@) {
                Ok(seq![("thinkingLevel"@, JsonView::Str(level))])
            } else if has_prefix(model@, "gemini-2.5"@) {
                Ok(budget_member(level_budget(level)))
            } else {
                Err(ErrorView::Config("Google reasoning_effort is unsupported for model '"@ + model@ + "'"@))
            },
        }),
{
    match level_of(effort) {
        None => {
            let mut m = to_owned_string("invalid Google reasoning_effort '");
            push_str(&mut m, effort);
            push_str(&mut m, "'; expected low, medium, or high");
            Err(LLMError::Config(m))
        },
        Some(level) => {
            if str_starts_with(model, "gemini-3") {
                let mut v: Vec<(String, JsonValue)> = Vec::new();
                v.push(member_pair("thinkingLevel", JsonValue::string(level)));
                proof {
                    lemma_members_view(v@);
                    assert(members_view(v@) =~= seq![("thinkingLevel"@, JsonView::Str(level@))]);
                }
                Ok(v)
            } else if str_starts_with(model, "gemini-2.5") {
                let n: u64 = if str_eq(level, "low") {
                    1024
                } else if str_eq(level, "medium") {
                    8192
                } else {
                    24576
                };
                Ok(budget_members(n))
            } else {
                let mut m = to_owned_string("Google reasoning_effort is unsupported for model '");
                push_str(&mut m, model);
                push_str(&mut m, "'");
                Err(LLMError::Config(m))
            }
        },
    }
}

fn thinking_without_effort(s: &GenerationSettings, budget: Option<u32>, model: &str) -> (r: Result<Vec<(String, JsonValue)>, LLMError>)
    ensures
        members_agree(r, match budget {
            Some(b) => if has_prefix(model@, "gemini-3"@) {
                Err(ErrorView::Config(
                    "Google Gemini 3 models require reasoning_effort instead of reasoning_budget_tokens"@))
            } else {
                Ok(budget_member(b as u64))
            },
            None => match spec_effective_reasoning(s) {
                Err(e) => Err(e),
                Ok(on) => if on == Some(false) {
                    if has_prefix(model@, "gemini-3"@) || has_prefix(model@, "gemini-2.5-pro"@) {
                        Err(ErrorView::Config("Google model '"@ + model@ + "' does not support disabling thinking"@))
                    } else {
                        Ok(budget_member(0))
                    }
                } else {
                    Ok(Seq::empty())
                },
            },
        }),
{
    match budget {
        Some(b) => {
            if str_starts_with(model, "gemini-3") {
                Err(config_error("Google Gemini 3 models require reasoning_effort instead of reasoning_budget_tokens"))
            } else {
                Ok(budget_members(b as u64))
            }
        },
        None => {
            let on = effective_reasoning(s)?;
            if on == Some(false) {
                if str_starts_with(model, "gemini-3") || str_starts_with(model, "gemini-2.5-pro") {
                    let mut m = to_owned_string("Google model '");
                    push_str(&mut m, model);
                    push_str(&mut m, "' does not support disabling thinking");
                    Err(LLMError::Config(m))
                } else {
                    Ok(budget_members(0))
                }
            } else {
                let v: Vec<(String, JsonValue)> = Vec::new();
                proof {
                    assert(members_view(v@) =~= Seq::<(Seq<char>, JsonView)>::empty());
                }
                Ok(v)
            }
        },
    }
}

/// The members of `thinkingConfig` for `model`.
pub fn thinking_config(s: &GenerationSettings, model: &str) -> (r: Result<Vec<(String, JsonValue)>, LLMError>)
    ensures
        members_agree(r, spec_thinking(s, model@)),
{
    let effort = reasoning_effort(s)?;
    let budget = reasoning_budget(s)?;
    if effort.is_some() && budget.is_some() {
        return Err(config_error("Google reasoning_effort and reasoning_budget_tokens cannot be sent together"));
    }
    match effort {
        Some(e) => thinking_for_effort(e.as_str(), model),
        None => thinking_without_effort(s, budget, model),
    }
}

fn push_integer(out: &mut Vec<(String, JsonValue)>, name: &str, v: Option<u32>)
    ensures
        members_view(final(out)@) == members_view(old(out)@) + integer_member(name@, v),
{
    proof {
        lemma_members_view(old(out)@);
    }
    if let Some(n) = v {
        out.push(member_pair(name, JsonValue::Number(JsonNumber::PosInt(n as u64))));
    }
    proof {
        lemma_members_view(out@);
        assert(members_view(out@) =~= members_view(old(out)@) + integer_member(name@, v));
    }
}

fn push_sampling(out: &mut Vec<(String, JsonValue)>, name: &str, field: &str, v: Option<SamplingValue>) -> (r: Result<(), LLMError>)
    ensures
        match sampling_member(name@, field@, v) {
            Ok(m) => r is Ok && members_view(final(out)@) == members_view(old(out)@) + m,
            Err(e) => match r {
                Err(x) => x@ == e,
                Ok(_) => false,
            },
        },
{
    proof {
        lemma_members_view(old(out)@);
    }
    match v {
        None => {
            assert(members_view(out@) =~= members_view(old(out)@) + Seq::<(Seq<char>, JsonView)>::empty());
            Ok(())
        },
        Some(SamplingValue::Finite(bits)) => {
            out.push(member_pair(name, JsonValue::Number(JsonNumber::Float(bits))));
            proof {
                lemma_members_view(out@);
                assert(members_view(out@) =~= members_view(old(out)@)
                    + seq![(name@, JsonView::Number(JsonNumber::Float(bits)))]);
            }
            Ok(())
        },
        Some(SamplingValue::NonFinite) => {
            let mut m = to_owned_string("Google ");
            push_str(&mut m, field);
            push_str(&mut m, " must be finite");
            Err(LLMError::Config(m))
        },
    }
}

/// The `generationConfig` members for `model`, or the error that the
/// settings give.
pub fn generation_config(s: &GenerationSettings, model: &str) -> (r: Result<Vec<(String, JsonValue)>, LLMError>)
    ensures
        members_agree(r, spec_generation_config(s, model@)),
{
    let mut out: Vec<(String, JsonValue)> = Vec::new();
    proof {
        assert(members_view(out@) =~= Seq::<(Seq<char>, JsonView)>::empty());
    }
    push_integer(&mut out, "maxOutputTokens", s.max_tokens);
    push_sampling(&mut out, "temperature", "temperature", s.temperature)?;
    push_sampling(&mut out, "topP", "top_p", s.top_p)?;
    push_integer(&mut out, "topK", s.top_k);
    let thinking = thinking_config(s, model)?;
    let ghost before = out@;
    proof {
        lemma_members_view(thinking@);
    }
    if thinking.len() > 0 {
        let ghost th = members_view(thinking@);
        out.push(member_pair("thinkingConfig", JsonValue::Object(thinking)));
        proof {
            lemma_members_view(before);
            lemma_members_view(out@);
            assert(members_view(out@) =~= members_view(before) + seq![("thinkingConfig"@, JsonView::Object(th))]);
        }
    } else {
        proof {
            lemma_members_view(thinking@);
            assert(members_view(out@) =~= members_view(before) + Seq::<(Seq<char>, JsonView)>::empty());
        }
    }
    proof {
        let ghost sv = spec_generation_config(s, model@);
        assert(sv is Ok);
    }
    Ok(out)
}

/// The first free-form setting, in a fixed order, that only the resilient
/// transport understands.
pub open spec fn first_unsupported(s: &GenerationSettings) -> Option<Seq<char>> {
    if extra_value(s, "resilient"@) is Some {
        Some("resilient"@)
    } else if extra_value(s, "resilient_attempts"@) is Some {
        Some("resilient_attempts"@)
    } else if extra_value(s, "resilient_base_delay_ms"@) is Some {
        Some("resilient_base_delay_ms"@)
    } else if extra_value(s, "resilient_max_delay_ms"@) is Some {
        Some("resilient_max_delay_ms"@)
    } else if extra_value(s, "resilient_jitter"@) is Some {
        Some("resilient_jitter"@)
    } else if extra_value(s, "normalize_response"@) is Some {
        Some("normalize_response"@)
    } else {
        None
    }
}

fn unsupported_setting(key: &str) -> (r: LLMError)
    ensures
        r@ == ErrorView::Config("Google setting '"@ + key@ + "' is not supported by the first-party adapter"@),
{
    let mut m = to_owned_string("Google setting '");
    push_str(&mut m, key);
    push_str(&mut m, "' is not supported by the first-party adapter");
    LLMError::Config(m)
}

/// Refuses the settings of the resilient transport, naming the first one set.
pub fn reject_unsupported_transport_settings(s: &GenerationSettings) -> (r: Result<(), LLMError>)
    ensures
        match first_unsupported(s) {
            None => r is Ok,
            Some(k) => error_of(r) == Some(ErrorView::Config(
                "Google setting '"@ + k + "' is not supported by the first-party adapter"@)),
        },
{
    if extra_get(s, "resilient").is_some() {
        Err(unsupported_setting("resilient"))
    } else if extra_get(s, "resilient_attempts").is_some() {
        Err(unsupported_setting("resilient_attempts"))
    } else if extra_get(s, "resilient_base_delay_ms").is_some() {
        Err(unsupported_setting("resilient_base_delay_ms"))
    } else if extra_get(s, "resilient_max_delay_ms").is_some() {
        Err(unsupported_setting("resilient_max_delay_ms"))
    } else if extra_get(s, "resilient_jitter").is_some() {
        Err(unsupported_setting("resilient_jitter"))
    } else if extra_get(s, "normalize_response").is_some() {
        Err(unsupported_setting("normalize_response"))
    } else {
        Ok(())
    }
}

/// Body fields that the adapter writes itself.
pub open spec fn owned_field(k: Seq<char>) -> bool {
    k == "contents"@ || k == "systemInstruction"@ || k == "tools"@ || k == "toolConfig"@
}

/// Body fields that `extra_body` may set.
pub open spec fn allowed_field(k: Seq<char>) -> bool {
    k == "generationConfig"@ || k == "safetySettings"@
}

/// The error for the first member of `extra_body` that it may not set.
pub open spec fn body_field_error(m: Seq<(Seq<char>, JsonView)>) -> Option<ErrorView>
    decreases m.len(),
{
    if m.len() == 0 {
        None
    } else if owned_field(m[0].0) {
        Some(ErrorView::Config("Google extra_body cannot override framework-owned field '"@ + m[0].0 + "'"@))
    } else if !allowed_field(m[0].0) {
        Some(ErrorView::Config("unsupported Google extra_body field '"@ + m[0].0 + "'"@))
    } else {
        body_field_error(m.drop_first())
    }
}

/// The members of a prefix are the prefix of the members.
pub proof fn lemma_members_view_take(s: Seq<(String, JsonValue)>, i: int)
    requires
        0 <= i <= s.len(),
    ensures
        members_view(s.take(i)) == members_view(s).take(i),
{
    lemma_members_view(s);
    lemma_members_view(s.take(i));
    assert(members_view(s.take(i)) =~= members_view(s).take(i));
}

/// The members of `extra_body`, each checked in order: fields the adapter
/// owns and fields it does not know are refused.
pub fn validate_extra_body(extra: &Vec<(String, JsonValue)>) -> (r: Result<Vec<(String, JsonValue)>, LLMError>)
    ensures
        match body_field_error(members_view(extra@)) {
            None => match r {
                Ok(out) => members_view(out@) == members_view(extra@),
                Err(_) => false,
            },
            Some(e) => error_of(r) == Some(e),
        },
{
    let ghost mv = members_view(extra@);
    let mut out: Vec<(String, JsonValue)> = Vec::new();
    let mut i: usize = 0;
    proof {
        lemma_members_view(extra@);
        assert(mv.subrange(0, mv.len() as int) =~= mv);
        assert(members_view(out@) =~= mv.take(0));
    }
    while i < extra.len()
        invariant
            mv == members_view(extra@),
            mv.len() == extra@.len(),
            forall|t: int| 0 <= t < extra@.len() ==> #[trigger] mv[t] == (extra@[t].0@, crate::json::jv(&extra@[t].1)),
            i <= extra@.len(),
            body_field_error(mv) == body_field_error(mv.subrange(i as int, mv.len() as int)),
            members_view(out@) == mv.take(i as int),
        decreases extra@.len() - i,
    {
        let key = extra[i].0.as_str();
        let ghost rest = mv.subrange(i as int, mv.len() as int);
        proof {
            assert(rest[0] == mv[i as int]);
            assert(rest.drop_first() =~= mv.subrange(i + 1, mv.len() as int));
        }
        if str_eq(key, "contents") || str_eq(key, "systemInstruction") || str_eq(key, "tools") || str_eq(key, "toolConfig") {
            let mut m = to_owned_string("Google extra_body cannot override framework-owned field '");
            push_str(&mut m, key);
            push_str(&mut m, "'");
            return Err(LLMError::Config(m));
        }
        if !(str_eq(key, "generationConfig") || str_eq(key, "safetySettings")) {
            let mut m = to_owned_string("unsupported Google extra_body field '");
            push_str(&mut m, key);
            push_str(&mut m, "'");
            return Err(LLMError::Config(m));
        }
        let k = extra[i].0.clone();
        let v = extra[i].1.deep_clone();
        let ghost before = out@;
        out.push((k, v));
        proof {
            lemma_members_view(before);
            lemma_members_view(out@);
            assert(members_view(out@) =~= mv.take(i + 1));
        }
        i = i + 1;
    }
    proof {
        assert(mv.take(mv.len() as int) =~= mv);
        assert(mv.subrange(mv.len() as int, mv.len() as int) =~= Seq::<(Seq<char>, JsonView)>::empty());
    }
    Ok(out)
}

/// The members without those named `key`.
pub open spec fn without_key(m: Seq<(Seq<char>, JsonView)>, key: Seq<char>) -> Seq<(Seq<char>, JsonView)>
    decreases m.len(),
{
    if m.len() == 0 {
        m
    } else if m.last().0 == key {
        without_key(m.drop_last(), key)
    } else {
        without_key(m.drop_last(), key).push(m.last())
    }
}

/// A copy of the members without those named `key` (`Map::remove`).
pub fn remove_key(m: &Vec<(String, JsonValue)>, key: &str) -> (r: Vec<(String, JsonValue)>)
    ensures
        members_view(r@) == without_key(members_view(m@), key@),
{
    let ghost mv = members_view(m@);
    let mut out: Vec<(String, JsonValue)> = Vec::new();
    let mut i: usize = 0;
    proof {
        lemma_members_view(m@);
        assert(mv.take(0) =~= Seq::<(Seq<char>, JsonView)>::empty());
        assert(members_view(out@) =~= Seq::<(Seq<char>, JsonView)>::empty());
    }
    while i < m.len()
        invariant
            mv == members_view(m@),
            mv.len() == m@.len(),
            forall|t: int| 0 <= t < m@.len() ==> #[trigger] mv[t] == (m@[t].0@, crate::json::jv(&m@[t].1)),
            i <= m@.len(),
            members_view(out@) == without_key(mv.take(i as int), key@),
        decreases m@.len() - i,
    {
        proof {
            assert(mv.take(i + 1).drop_last() =~= mv.take(i as int));
            assert(mv.take(i + 1).last() == mv[i as int]);
        }
        if !str_eq(m[i].0.as_str(), key) {
            let k = m[i].0.clone();
            let v = m[i].1.deep_clone();
            let ghost before = out@;
            out.push((k, v));
            proof {
                lemma_members_view(before);
                lemma_members_view(out@);
                assert(members_view(out@) =~= members_view(before).push(mv[i as int]));
            }
        }
        i = i + 1;
    }
    proof {
        assert(mv.take(mv.len() as int) =~= mv);
    }
    out
}

/// A tool's input schema as Gemini takes it: an object schema (an empty one
/// becomes the schema of an object without properties), without `$schema`,
/// whose `type` is `object` and whose numbers Gemini can carry exactly.
pub open spec fn spec_normalize_schema(v: JsonView) -> Result<JsonView, ErrorView> {
    match v {
        JsonView::Object(m) => {
            let base = if m.len() == 0 {
                seq![("type"@, JsonView::Str("object"@)), ("properties"@, JsonView::Object(Seq::empty()))]
            } else {
                m
            };
            let n = without_key(base, "$schema"@);
            if member(n, "type"@) != Some(JsonView::Str("object"@)) {
                Err(ErrorView::Config("Google tool input_schema must describe an object"@))
            } else if !numbers_exact(JsonView::Object(n)) {
                Err(ErrorView::Serialization("tool schema"@ + " contains a number that Google Struct cannot represent exactly"@))
            } else {
                Ok(JsonView::Object(n))
            }
        },
        _ => Err(ErrorView::Config("Google tool input_schema must be a JSON object"@)),
    }
}

/// Normalizes a tool's input schema for Gemini.
pub fn normalize_tool_schema(schema: &JsonValue) -> (r: Result<JsonValue, LLMError>)
    ensures
        match (r, spec_normalize_schema(schema@)) {
            (Ok(a), Ok(b)) => a@ == b,
            (Err(e), Err(w)) => e@ == w,
            _ => false,
        },
{
    let members = match schema {
        JsonValue::Object(m) => m,
        _ => {
            return Err(config_error("Google tool input_schema must be a JSON object"));
        },
    };
    let ghost mv = members_view(members@);
    let n: Vec<(String, JsonValue)> = if members.len() == 0 {
        let mut base: Vec<(String, JsonValue)> = Vec::new();
        base.push(member_pair("type", JsonValue::string("object")));
        base.push(member_pair("properties", JsonValue::empty_object()));
        proof {
            lemma_members_view(base@);
            assert(members_view(base@) =~= seq![("type"@, JsonView::Str("object"@)),
                ("properties"@, JsonView::Object(Seq::empty()))]);
        }
        remove_key(&base, "$schema")
    } else {
        proof {
            lemma_members_view(members@);
        }
        remove_key(members, "$schema")
    };
    let typed = match member_of(&n, "type") {
        Some(t) => match t.as_str() {
            Some(x) => str_eq(x, "object"),
            None => false,
        },
        None => false,
    };
    if !typed {
        proof {
            let nv = members_view(n@);
            if member(nv, "type"@) == Some(JsonView::Str("object"@)) {
                assert(as_str_view(JsonView::Str("object"@)) == Some("object"@));
            }
        }
        return Err(config_error("Google tool input_schema must describe an object"));
    }
    let out = JsonValue::Object(n);
    validate_json_numbers(&out, "tool schema")?;
    Ok(out)
}

/// A tool offered to the model.
pub struct ToolDefinition {
    pub name: String,
    pub description: String,
    pub input_schema: JsonValue,
}

/// The function declaration of a tool, given its normalized schema.
pub open spec fn declaration(d: ToolDefinition, schema: JsonView) -> JsonView {
    JsonView::Object(seq![
        ("name"@, JsonView::Str(d.name@)),
        ("description"@, JsonView::Str(d.description@)),
        ("parametersJsonSchema"@, schema),
    ])
}

/// The declarations of the tools, in order; the error of the first tool
/// whose name or schema Gemini refuses.
pub open spec fn spec_declarations(defs: Seq<ToolDefinition>) -> Result<Seq<JsonView>, ErrorView>
    decreases defs.len(),
{
    if defs.len() == 0 {
        Ok(Seq::empty())
    } else if !valid_function_name(encode_utf8(defs[0].name@)) {
        Err(ErrorView::Config("Google function name '"@ + defs[0].name@ + "' is invalid"@))
    } else {
        match spec_normalize_schema(jv(&defs[0].input_schema)) {
            Err(e) => Err(e),
            Ok(schema) => match spec_declarations(defs.drop_first()) {
                Err(e) => Err(e),
                Ok(rest) => Ok(seq![declaration(defs[0], schema)] + rest),
            },
        }
    }
}

/// The `tools` field: one entry holding the function declarations.
pub open spec fn spec_tools_field(defs: Seq<ToolDefinition>) -> Result<JsonView, ErrorView> {
    match spec_declarations(defs) {
        Err(e) => Err(e),
        Ok(d) => Ok(JsonView::Array(seq![JsonView::Object(seq![("functionDeclarations"@, JsonView::Array(d))])])),
    }
}

/// The declarations already made, followed by those still to come.
pub open spec fn prepend(done: Seq<JsonView>, r: Result<Seq<JsonView>, ErrorView>) -> Result<Seq<JsonView>, ErrorView> {
    match r {
        Err(e) => Err(e),
        Ok(rest) => Ok(done + rest),
    }
}

fn declaration_of(d: &ToolDefinition, schema: JsonValue) -> (r: JsonValue)
    ensures
        r@ == declaration(*d, schema@),
{
    let mut m: Vec<(String, JsonValue)> = Vec::new();
    m.push(member_pair("name", JsonValue::Str(d.name.clone())));
    m.push(member_pair("description", JsonValue::Str(d.description.clone())));
    m.push(member_pair("parametersJsonSchema", schema));
    proof {
        lemma_members_view(m@);
        assert(members_view(m@) =~= seq![
            ("name"@, JsonView::Str(d.name@)),
            ("description"@, JsonView::Str(d.description@)),
            ("parametersJsonSchema"@, schema@),
        ]);
    }
    JsonValue::Object(m)
}

/// The `tools` field of a request for the given tools.
pub fn map_tool_definitions(defs: &Vec<ToolDefinition>) -> (r: Result<JsonValue, LLMError>)
    ensures
        match (r, spec_tools_field(defs@)) {
            (Ok(a), Ok(b)) => a@ == b,
            (Err(e), Err(w)) => e@ == w,
            _ => false,
        },
{
    let n = defs.len();
    let mut decls: Vec<JsonValue> = Vec::new();
    let mut i: usize = 0;
    proof {
        assert(defs@.subrange(0, n as int) =~= defs@);
        assert(items_view(decls@) =~= Seq::<JsonView>::empty());
        assert(Seq::<JsonView>::empty() + spec_declarations(defs@)->Ok_0 =~= spec_declarations(defs@)->Ok_0);
    }
    while i < n
        invariant
            n == defs@.len(),
            i <= n,
            spec_declarations(defs@) == prepend(items_view(decls@), spec_declarations(defs@.subrange(i as int, n as int))),
        decreases n - i,
    {
        let d = &defs[i];
        let ghost sub = defs@.subrange(i as int, n as int);
        let ghost done = items_view(decls@);
        proof {
            assert(sub[0] == defs@[i as int]);
            assert(sub.drop_first() =~= defs@.subrange(i + 1, n as int));
        }
        validate_function_name(d.name.as_str())?;
        let schema = normalize_tool_schema(&d.input_schema)?;
        let ghost sv = schema@;
        let decl = declaration_of(d, schema);
        let ghost before = decls@;
        decls.push(decl);
        proof {
            assert(decls@.drop_last() =~= before);
            assert(items_view(decls@) == items_view(decls@.drop_last()).push(jv(&decls@.last())));
            assert(items_view(decls@) == done.push(declaration(*d, sv)));
            let rest = spec_declarations(defs@.subrange(i + 1, n as int));
            match rest {
                Ok(x) => {
                    assert(done + (seq![declaration(*d, sv)] + x) =~= done.push(declaration(*d, sv)) + x);
                },
                Err(_) => {},
            }
        }
        i = i + 1;
    }
    proof {
        assert(defs@.subrange(n as int, n as int) =~= Seq::<ToolDefinition>::empty());
        assert(items_view(decls@) + Seq::<JsonView>::empty() =~= items_view(decls@));
    }
    let mut wrapper: Vec<(String, JsonValue)> = Vec::new();
    let ghost dv = items_view(decls@);
    wrapper.push(member_pair("functionDeclarations", JsonValue::Array(decls)));
    let mut out: Vec<JsonValue> = Vec::new();
    proof {
        lemma_members_view(wrapper@);
        assert(members_view(wrapper@) =~= seq![("functionDeclarations"@, JsonView::Array(dv))]);
    }
    let ghost wv = members_view(wrapper@);
    out.push(JsonValue::Object(wrapper));
    proof {
        assert(out@.drop_last() =~= Seq::<JsonValue>::empty());
        assert(items_view(out@.drop_last()) =~= Seq::<JsonView>::empty());
        assert(jv(&out@.last()) == JsonView::Object(wv));
        assert(items_view(out@) == items_view(out@.drop_last()).push(jv(&out@.last())));
        assert(items_view(out@) =~= seq![JsonView::Object(seq![("functionDeclarations"@, JsonView::Array(dv))])]);
    }
    Ok(JsonValue::Array(out))
}

/// `Map::insert`: the members with `key` set to `v`.
pub open spec fn insert_member(m: Seq<(Seq<char>, JsonView)>, key: Seq<char>, v: JsonView) -> Seq<(Seq<char>, JsonView)> {
    without_key(m, key).push((key, v))
}

/// `base` with each member of `added` inserted in turn.
pub open spec fn merge_members(base: Seq<(Seq<char>, JsonView)>, added: Seq<(Seq<char>, JsonView)>) -> Seq<(Seq<char>, JsonView)>
    decreases added.len(),
{
    if added.len() == 0 {
        base
    } else {
        insert_member(merge_members(base, added.drop_last()), added.last().0, added.last().1)
    }
}

fn insert_into(m: &Vec<(String, JsonValue)>, key: &str, v: JsonValue) -> (r: Vec<(String, JsonValue)>)
    ensures
        members_view(r@) == insert_member(members_view(m@), key@, v@),
{
    let mut r = remove_key(m, key);
    let ghost before = r@;
    let ghost vv = v@;
    r.push(member_pair(key, v));
    proof {
        lemma_members_view(before);
        lemma_members_view(r@);
        assert(members_view(r@) =~= members_view(before).push((key@, vv)));
    }
    r
}

/// A member that is present and not an object.
pub open spec fn present_non_object(o: Option<JsonView>) -> bool {
    match o {
        Some(JsonView::Object(_)) => false,
        Some(_) => true,
        None => false,
    }
}

/// The body fields taken from `extra_body`, which must be an object whose
/// fields may all be set there.
pub open spec fn spec_body_base(s: &GenerationSettings) -> Result<Seq<(Seq<char>, JsonView)>, ErrorView> {
    match extra_value(s, "extra_body"@) {
        None => Ok(Seq::empty()),
        Some(JsonView::Object(m)) => match body_field_error(m) {
            Some(e) => Err(e),
            None => Ok(m),
        },
        Some(_) => Err(ErrorView::Config("Google extra_body must be a JSON object"@)),
    }
}

/// The body fields from `extra_body` with the messages in place.
pub open spec fn request_start(s: &GenerationSettings, system: Option<JsonView>, contents: Seq<JsonView>)
    -> Result<Seq<(Seq<char>, JsonView)>, ErrorView>
{
    match spec_body_base(s) {
        Err(e) => Err(e),
        Ok(b0) => if present_non_object(member(b0, "generationConfig"@)) {
            Err(ErrorView::Config("Google extra_body.generationConfig must be an object"@))
        } else {
            let b1 = insert_member(b0, "contents"@, JsonView::Array(contents));
            Ok(match system {
                Some(x) => insert_member(b1, "systemInstruction"@, x),
                None => b1,
            })
        },
    }
}

/// The body with the tool declarations, when tools are offered.
pub open spec fn with_tools(b: Seq<(Seq<char>, JsonView)>, tools: Option<Seq<ToolDefinition>>) -> Result<Seq<(Seq<char>, JsonView)>, ErrorView> {
    match tools {
        Some(t) => if t.len() > 0 {
            match spec_tools_field(t) {
                Err(e) => Err(e),
                Ok(f) => Ok(insert_member(b, "tools"@, f)),
            }
        } else {
            Ok(b)
        },
        None => Ok(b),
    }
}

/// The body with the generated settings merged over those `extra_body`
/// gave in `generationConfig`.
pub open spec fn with_generation(b: Seq<(Seq<char>, JsonView)>, generated: Seq<(Seq<char>, JsonView)>) -> Seq<(Seq<char>, JsonView)> {
    if generated.len() == 0 {
        b
    } else {
        let existing = match member(b, "generationConfig"@) {
            Some(JsonView::Object(m)) => m,
            _ => Seq::empty(),
        };
        insert_member(b, "generationConfig"@, JsonView::Object(merge_members(existing, generated)))
    }
}

/// The body of a `generateContent` request, given the messages as already
/// converted (the system instruction and the contents) or the error of
/// their conversion.
pub open spec fn spec_request_body(
    s: &GenerationSettings,
    converted: Result<(Option<JsonView>, Seq<JsonView>), ErrorView>,
    tools: Option<Seq<ToolDefinition>>,
    model: Seq<char>,
) -> Result<JsonView, ErrorView> {
    match first_unsupported(s) {
        Some(k) => Err(ErrorView::Config("Google setting '"@ + k + "' is not supported by the first-party adapter"@)),
        None => match converted {
            Err(e) => Err(e),
            Ok((system, contents)) => match request_start(s, system, contents) {
                Err(e) => Err(e),
                Ok(b) => match with_tools(b, tools) {
                    Err(e) => Err(e),
                    Ok(b3) => match spec_generation_config(s, model) {
                        Err(e) => Err(e),
                        Ok(generated) => {
                            let body = JsonView::Object(with_generation(b3, generated));
                            if numbers_exact(body) {
                                Ok(body)
                            } else {
                                Err(ErrorView::Serialization(
                                    "Google request"@ + " contains a number that Google Struct cannot represent exactly"@))
                            }
                        },
                    },
                },
            },
        },
    }
}

/// The mathematical form of converted messages.
pub open spec fn converted_view(c: Result<(Option<JsonValue>, Vec<JsonValue>), LLMError>) -> Result<(Option<JsonView>, Seq<JsonView>), ErrorView> {
    match c {
        Err(e) => Err(e@),
        Ok((system, contents)) => Ok((match system {
            Some(x) => Some(jv(&x)),
            None => None,
        }, items_view(contents@))),
    }
}

/// The mathematical form of the offered tools.
pub open spec fn tools_view(t: Option<&Vec<ToolDefinition>>) -> Option<Seq<ToolDefinition>> {
    match t {
        Some(v) => Some(v@),
        None => None,
    }
}

fn clone_object_members(v: &JsonValue) -> (r: Vec<(String, JsonValue)>)
    ensures
        match v@ {
            JsonView::Object(m) => members_view(r@) == m,
            _ => members_view(r@) == Seq::<(Seq<char>, JsonView)>::empty(),
        },
{
    match v.deep_clone() {
        JsonValue::Object(m) => m,
        _ => {
            let e: Vec<(String, JsonValue)> = Vec::new();
            assert(members_view(e@) =~= Seq::<(Seq<char>, JsonView)>::empty());
            e
        },
    }
}

fn merge_into(base: Vec<(String, JsonValue)>, generated: &Vec<(String, JsonValue)>) -> (r: Vec<(String, JsonValue)>)
    ensures
        members_view(r@) == merge_members(members_view(base@), members_view(generated@)),
{
    let ghost gv = members_view(generated@);
    let ghost bv = members_view(base@);
    let mut out = base;
    let mut i: usize = 0;
    proof {
        lemma_members_view(generated@);
        assert(gv.take(0) =~= Seq::<(Seq<char>, JsonView)>::empty());
    }
    while i < generated.len()
        invariant
            gv == members_view(generated@),
            gv.len() == generated@.len(),
            forall|t: int| 0 <= t < generated@.len() ==> #[trigger] gv[t] == (generated@[t].0@, jv(&generated@[t].1)),
            i <= generated@.len(),
            members_view(out@) == merge_members(bv, gv.take(i as int)),
        decreases generated@.len() - i,
    {
        proof {
            assert(gv.take(i + 1).drop_last() =~= gv.take(i as int));
            assert(gv.take(i + 1).last() == gv[i as int]);
        }
        let v = generated[i].1.deep_clone();
        out = insert_into(&out, generated[i].0.as_str(), v);
        i = i + 1;
    }
    proof {
        assert(gv.take(gv.len() as int) =~= gv);
    }
    out
}

fn start_body(s: &GenerationSettings, system: Option<JsonValue>, contents: Vec<JsonValue>) -> (r: Result<Vec<(String, JsonValue)>, LLMError>)
    ensures
        members_agree(r, request_start(s, match system {
            Some(x) => Some(jv(&x)),
            None => None,
        }, items_view(contents@))),
{
    let body: Vec<(String, JsonValue)> = match extra_get(s, "extra_body") {
        None => {
            let e: Vec<(String, JsonValue)> = Vec::new();
            assert(members_view(e@) =~= Seq::<(Seq<char>, JsonView)>::empty());
            e
        },
        Some(JsonValue::Object(m)) => {
            proof {
                assert(extra_value(s, "extra_body"@) == Some(JsonView::Object(members_view(m@))));
            }
            validate_extra_body(m)?
        },
        Some(_) => {
            return Err(config_error("Google extra_body must be a JSON object"));
        },
    };
    let bad = match member_of(&body, "generationConfig") {
        Some(JsonValue::Object(_)) => false,
        Some(_) => true,
        None => false,
    };
    if bad {
        return Err(config_error("Google extra_body.generationConfig must be an object"));
    }
    let ghost cv = items_view(contents@);
    let body = insert_into(&body, "contents", JsonValue::Array(contents));
    match system {
        Some(x) => Ok(insert_into(&body, "systemInstruction", x)),
        None => Ok(body),
    }
}

/// The body of a `generateContent` request: the settings checked, the
/// converted messages, the tool declarations when tools are offered, and
/// the generation settings merged into `generationConfig`.
pub fn build_request(
    s: &GenerationSettings,
    converted: Result<(Option<JsonValue>, Vec<JsonValue>), LLMError>,
    tools: Option<&Vec<ToolDefinition>>,
    model: &str,
) -> (r: Result<JsonValue, LLMError>)
    ensures
        match (r, spec_request_body(s, converted_view(converted), tools_view(tools), model@)) {
            (Ok(a), Ok(b)) => a@ == b,
            (Err(e), Err(w)) => e@ == w,
            _ => false,
        },
{
    reject_unsupported_transport_settings(s)?;
    let (system, contents) = match converted {
        Ok(c) => c,
        Err(e) => {
            return Err(e);
        },
    };
    let mut body = start_body(s, system, contents)?;
    match tools {
        Some(t) => {
            if t.len() > 0 {
                let f = map_tool_definitions(t)?;
                body = insert_into(&body, "tools", f);
            }
        },
        None => {},
    }
    let generated = generation_config(s, model)?;
    if generated.len() > 0 {
        proof {
            lemma_members_view(generated@);
        }
        let existing = match member_of(&body, "generationConfig") {
            Some(g) => clone_object_members(g),
            None => {
                let e: Vec<(String, JsonValue)> = Vec::new();
                assert(members_view(e@) =~= Seq::<(Seq<char>, JsonView)>::empty());
                e
            },
        };
        let merged = merge_into(existing, &generated);
        body = insert_into(&body, "generationConfig", JsonValue::Object(merged));
    } else {
        proof {
            lemma_members_view(generated@);
        }
    }
    let out = JsonValue::Object(body);
    validate_json_numbers(&out, "Google request")?;
    Ok(out)
}

proof fn lemma_member_without(m: Seq<(Seq<char>, JsonView)>, drop: Seq<char>, k: Seq<char>)
    ensures
        member(without_key(m, drop), k) == if k == drop { None } else { member(m, k) },
    decreases m.len(),
{
    if m.len() > 0 {
        lemma_member_without(m.drop_last(), drop, k);
        let r = without_key(m.drop_last(), drop);
        if m.last().0 != drop {
            assert(without_key(m, drop) == r.push(m.last()));
            assert(r.push(m.last()).drop_last() =~= r);
        }
    }
}

/// Reading a member after `Map::insert`.
pub proof fn lemma_member_insert(m: Seq<(Seq<char>, JsonView)>, key: Seq<char>, v: JsonView, k: Seq<char>)
    ensures
        member(insert_member(m, key, v), k) == if k == key { Some(v) } else { member(m, k) },
{
    lemma_member_without(m, key, k);
    assert(insert_member(m, key, v).drop_last() =~= without_key(m, key));
}

/// Law: in `generationConfig`, the settings the adapter generates win over
/// those `extra_body` gave, and the others given there stay.
pub proof fn law_generated_settings_win(existing: Seq<(Seq<char>, JsonView)>, generated: Seq<(Seq<char>, JsonView)>, k: Seq<char>)
    ensures
        member(merge_members(existing, generated), k) == match member(generated, k) {
            Some(v) => Some(v),
            None => member(existing, k),
        },
    decreases generated.len(),
{
    if generated.len() > 0 {
        law_generated_settings_win(existing, generated.drop_last(), k);
        lemma_member_insert(merge_members(existing, generated.drop_last()), generated.last().0, generated.last().1, k);
    }
}

} // verus!