//! Checks and interpretations of the Gemini API: names it accepts, numbers
//! it can carry exactly, finish reasons, token usage, and the framing of
//! its server-sent event stream.
use vstd::prelude::*;
use vstd::string::StringSliceAdditionalSpecFns;
use crate::text::{to_owned_string, push_str, str_eq, parse_u64, parsed_u64};
use crate::hitl::WaitDuration;
use crate::json::{JsonValue, JsonView, JsonNumber, get_key, as_str_view, as_u64_view, items_view, members_view, jv};
use crate::chat::{LLMError, ErrorView, FinishReason, TokenUsage, LLMFeature, ToolChoice, feature_override, find_override, error_of};

verus! {

/// The error of a malformed exchange with the Gemini API.
pub open spec fn protocol_error_view(message: Seq<char>) -> ErrorView {
    ErrorView::Serialization("Google provider protocol error: "@ + message)
}

/// The error for a malformed exchange with the Gemini API.
pub fn protocol_error(message: &str) -> (r: LLMError)
    ensures
        r@ == protocol_error_view(message@),
{
    let mut m = to_owned_string("Google provider protocol error: ");
    push_str(&mut m, message);
    LLMError::Serialization(m)
}

/// The characters of an optional text.
pub open spec fn opt_text(o: Option<&str>) -> Option<Seq<char>> {
    match o {
        Some(t) => Some(t@),
        None => None,
    }
}

/// The `error.status` text of an error body.
pub open spec fn body_error_status(body: Option<JsonView>) -> Option<Seq<char>> {
    match body {
        Some(b) => match get_key(b, "error"@) {
            Some(e) => match get_key(e, "status"@) {
                Some(s) => as_str_view(s),
                None => None,
            },
            None => None,
        },
        None => None,
    }
}

/// The error for an HTTP status that is not a success. `429` is a rate
/// limit, to be retried after the `Retry-After` seconds when that header
/// holds a number. Any other status is an API error that carries the
/// status and is summed up by the body's `error.status`, else by the
/// status's reason phrase, else by `HTTP error`.
pub open spec fn http_error_view(
    status: u16,
    retry_after: Option<Seq<char>>,
    body: Option<JsonView>,
    reason: Option<Seq<char>>,
) -> ErrorView {
    if status == 429 {
        ErrorView::RateLimit(match retry_after {
            Some(h) => match parsed_u64(h) {
                Some(n) => Some(WaitDuration { secs: n, subsec_nanos: 0 }),
                None => None,
            },
            None => None,
        })
    } else {
        let summary = match body_error_status(body) {
            Some(s) => s,
            None => match reason {
                Some(r) => r,
                None => "HTTP error"@,
            },
        };
        ErrorView::API("Google API request failed: "@ + summary, Some(status))
    }
}

/// Maps an unsuccessful HTTP response to an error: `retry_after` is the
/// `Retry-After` header as text, `body` the response body read as JSON
/// when it is JSON, and `canonical_reason` the status's reason phrase.
pub fn map_http_error(
    status: u16,
    retry_after: Option<&str>,
    body: Option<&JsonValue>,
    canonical_reason: Option<&str>,
) -> (r: LLMError)
    ensures
        r@ == http_error_view(
            status,
            opt_text(retry_after),
            match body {
                Some(b) => Some(b@),
                None => None,
            },
            opt_text(canonical_reason),
        ),
{
    if status == 429 {
        let wait = match retry_after {
            Some(h) => match parse_u64(h) {
                Some(n) => Some(WaitDuration::from_secs(n)),
                None => None,
            },
            None => None,
        };
        return LLMError::RateLimit { retry_after: wait };
    }
    let from_body = match body {
        Some(b) => match b.get("error") {
            Some(e) => match e.get("status") {
                Some(s) => s.as_str(),
                None => None,
            },
            None => None,
        },
        None => None,
    };
    let mut message = to_owned_string("Google API request failed: ");
    match from_body {
        Some(s) => push_str(&mut message, s),
        None => match canonical_reason {
            Some(r) => push_str(&mut message, r),
            None => push_str(&mut message, "HTTP error"),
        },
    }
    proof {
        reveal_strlit("HTTP error");
    }
    LLMError::API { message, status: Some(status) }
}

/// The error for a request that got no response: a timeout, or another
/// failure described by `description`.
pub fn map_transport_error(timed_out: bool, description: &str) -> (r: LLMError)
    ensures
        r@ == if timed_out {
            ErrorView::Network("Google request timed out"@)
        } else {
            ErrorView::Network("Google request failed: "@ + description@)
        },
{
    if timed_out {
        LLMError::Network(to_owned_string("Google request timed out"))
    } else {
        let mut message = to_owned_string("Google request failed: ");
        push_str(&mut message, description);
        LLMError::Network(message)
    }
}

/// ASCII letter or digit.
pub open spec fn ascii_alnum(b: u8) -> bool {
    (48 <= b && b <= 57) || (65 <= b && b <= 90) || (97 <= b && b <= 122)
}

/// A byte allowed in a function name: ASCII letters and digits, `_`, `-`,
/// `.` and `:`.
pub open spec fn function_name_byte(b: u8) -> bool {
    ascii_alnum(b) || b == 95 || b == 45 || b == 46 || b == 58
}

/// A byte allowed in a model name: ASCII letters and digits, `-`, `_` and `.`.
pub open spec fn model_name_byte(b: u8) -> bool {
    ascii_alnum(b) || b == 45 || b == 95 || b == 46
}

/// Function names: 1 to 128 bytes, each allowed.
pub open spec fn valid_function_name(b: Seq<u8>) -> bool {
    b.len() > 0 && b.len() <= 128 && forall|i: int| 0 <= i < b.len() ==> function_name_byte(#[trigger] b[i])
}

/// Model names: at least one byte, each allowed.
pub open spec fn valid_model_name(b: Seq<u8>) -> bool {
    b.len() > 0 && forall|i: int| 0 <= i < b.len() ==> model_name_byte(#[trigger] b[i])
}

fn is_function_name_byte(b: u8) -> (r: bool)
    ensures
        r == function_name_byte(b),
{
    (48 <= b && b <= 57) || (65 <= b && b <= 90) || (97 <= b && b <= 122) || b == 95 || b == 45 || b == 46 || b == 58
}

fn is_model_name_byte(b: u8) -> (r: bool)
    ensures
        r == model_name_byte(b),
{
    (48 <= b && b <= 57) || (65 <= b && b <= 90) || (97 <= b && b <= 122) || b == 45 || b == 95 || b == 46
}

/// Whether Gemini accepts `name` as a function name.
pub fn is_valid_function_name(name: &str) -> (r: bool)
    ensures
        r == valid_function_name(name.spec_bytes()),
{
    let bytes = name.as_bytes();
    let n = bytes.len();
    if n == 0 || n > 128 {
        return false;
    }
    let mut i: usize = 0;
    while i < n
        invariant
            n == bytes@.len(),
            bytes@ == name.spec_bytes(),
            i <= n,
            forall|k: int| 0 <= k < i ==> function_name_byte(#[trigger] bytes@[k]),
        decreases n - i,
    {
        if !is_function_name_byte(bytes[i]) {
            return false;
        }
        i = i + 1;
    }
    true
}

/// The function name, or a configuration error naming it.
pub fn validate_function_name(name: &str) -> (r: Result<(), LLMError>)
    ensures
        valid_function_name(name.spec_bytes()) ==> r is Ok,
        !valid_function_name(name.spec_bytes()) ==> error_of(r)
            == Some(ErrorView::Config("Google function name '"@ + name@ + "' is invalid"@)),
{
    if !is_valid_function_name(name) {
        let mut m = to_owned_string("Google function name '");
        push_str(&mut m, name);
        push_str(&mut m, "' is invalid");
        return Err(LLMError::Config(m));
    }
    Ok(())
}

/// Accepts a model name that can stand in a request path.
pub fn validate_model_name(model: &str) -> (r: Result<(), LLMError>)
    ensures
        valid_model_name(model.spec_bytes()) ==> r is Ok,
        !valid_model_name(model.spec_bytes()) ==> error_of(r) == Some(ErrorView::Config(
            "Google model names must contain only ASCII letters, digits, '.', '_' or '-'"@)),
{
    let bytes = model.as_bytes();
    let n = bytes.len();
    let mut ok = n > 0;
    let mut i: usize = 0;
    while i < n && ok
        invariant
            n == bytes@.len(),
            bytes@ == model.spec_bytes(),
            i <= n,
            ok ==> n > 0,
            ok ==> forall|k: int| 0 <= k < i ==> model_name_byte(#[trigger] bytes@[k]),
            !ok ==> !valid_model_name(model.spec_bytes()),
        decreases n - i,
    {
        if !is_model_name_byte(bytes[i]) {
            ok = false;
        }
        i = i + 1;
    }
    if !ok {
        return Err(LLMError::Config(to_owned_string(
            "Google model names must contain only ASCII letters, digits, '.', '_' or '-'",
        )));
    }
    Ok(())
}

/// Stop reasons by which Gemini reports blocked content.
pub open spec fn blocked_reason(r: Seq<char>) -> bool {
    r == "SAFETY"@ || r == "RECITATION"@ || r == "BLOCKLIST"@ || r == "PROHIBITED_CONTENT"@
        || r == "SPII"@ || r == "IMAGE_SAFETY"@
}

/// The outcome of a candidate's `finishReason`, given whether it returned
/// function calls.
pub open spec fn spec_classify_finish(reason: Seq<char>, has_calls: bool) -> Result<FinishReason, ErrorView> {
    if reason == "STOP"@ {
        Ok(if has_calls { FinishReason::ToolCall } else { FinishReason::Stop })
    } else if reason == "MAX_TOKENS"@ {
        if has_calls {
            Err(protocol_error_view("Google stopped at the token limit while returning function calls"@))
        } else {
            Ok(FinishReason::Length)
        }
    } else if blocked_reason(reason) {
        Err(ErrorView::ContentFiltered("Google stopped generation ("@ + reason + ")"@))
    } else if reason == "MALFORMED_FUNCTION_CALL"@ {
        Err(protocol_error_view("Google reported a malformed function call"@))
    } else if reason == "LANGUAGE"@ || reason == "OTHER"@ || reason == "FINISH_REASON_UNSPECIFIED"@ {
        Err(protocol_error_view("unsupported Google finishReason '"@ + reason + "'"@))
    } else {
        Err(protocol_error_view("unknown Google finishReason '"@ + reason + "'"@))
    }
}

/// Interprets a candidate's `finishReason`.
pub fn classify_finish(reason: &str, has_calls: bool) -> (r: Result<FinishReason, LLMError>)
    ensures
        match (r, spec_classify_finish(reason@, has_calls)) {
            (Ok(a), Ok(b)) => a == b,
            (Err(e), Err(v)) => e@ == v,
            _ => false,
        },
{
    if str_eq(reason, "STOP") {
        if has_calls {
            Ok(FinishReason::ToolCall)
        } else {
            Ok(FinishReason::Stop)
        }
    } else if str_eq(reason, "MAX_TOKENS") {
        if has_calls {
            Err(protocol_error("Google stopped at the token limit while returning function calls"))
        } else {
            Ok(FinishReason::Length)
        }
    } else if str_eq(reason, "SAFETY") || str_eq(reason, "RECITATION") || str_eq(reason, "BLOCKLIST")
        || str_eq(reason, "PROHIBITED_CONTENT") || str_eq(reason, "SPII") || str_eq(reason, "IMAGE_SAFETY") {
        let mut m = to_owned_string("Google stopped generation (");
        push_str(&mut m, reason);
        push_str(&mut m, ")");
        Err(LLMError::ContentFiltered(m))
    } else if str_eq(reason, "MALFORMED_FUNCTION_CALL") {
        Err(protocol_error("Google reported a malformed function call"))
    } else if str_eq(reason, "LANGUAGE") || str_eq(reason, "OTHER") || str_eq(reason, "FINISH_REASON_UNSPECIFIED") {
        let mut m = to_owned_string("unsupported Google finishReason '");
        push_str(&mut m, reason);
        push_str(&mut m, "'");
        Err(protocol_error(m.as_str()))
    } else {
        let mut m = to_owned_string("unknown Google finishReason '");
        push_str(&mut m, reason);
        push_str(&mut m, "'");
        Err(protocol_error(m.as_str()))
    }
}

/// Reading an optional count: absent, a count that fits in 32 bits, or an
/// error.
pub open spec fn spec_optional_u32(v: JsonView, field: Seq<char>) -> Result<Option<u32>, ErrorView> {
    match get_key(v, field) {
        None => Ok(None),
        Some(raw) => match as_u64_view(raw) {
            None => Err(protocol_error_view("Google "@ + field + " must be a non-negative integer"@)),
            Some(n) => if n <= u32::MAX {
                Ok(Some(n as u32))
            } else {
                Err(protocol_error_view("Google "@ + field + " exceeds the supported range"@))
            },
        },
    }
}

/// Reads an optional non-negative 32-bit count from an object.
pub fn optional_u32(value: &JsonValue, field: &str) -> (r: Result<Option<u32>, LLMError>)
    ensures
        match (r, spec_optional_u32(value@, field@)) {
            (Ok(a), Ok(b)) => a == b,
            (Err(e), Err(v)) => e@ == v,
            _ => false,
        },
{
    match value.get(field) {
        None => Ok(None),
        Some(raw) => match raw.as_u64() {
            None => {
                let mut m = to_owned_string("Google ");
                push_str(&mut m, field);
                push_str(&mut m, " must be a non-negative integer");
                Err(protocol_error(m.as_str()))
            },
            Some(n) => {
                if n <= 4294967295u64 {
                    Ok(Some(n as u32))
                } else {
                    let mut m = to_owned_string("Google ");
                    push_str(&mut m, field);
                    push_str(&mut m, " exceeds the supported range");
                    Err(protocol_error(m.as_str()))
                }
            },
        },
    }
}

/// The token usage reported in `usageMetadata`: none without it or without
/// prompt and candidate counts; thought tokens count as completion tokens;
/// a reported total is kept, a missing one is the sum.
pub open spec fn spec_parse_usage(value: Option<JsonView>) -> Result<Option<TokenUsage>, ErrorView> {
    match value {
        None => Ok(None),
        Some(v) => {
            let prompt = spec_optional_u32(v, "promptTokenCount"@);
            let candidates = spec_optional_u32(v, "candidatesTokenCount"@);
            let thoughts = spec_optional_u32(v, "thoughtsTokenCount"@);
            let total = spec_optional_u32(v, "totalTokenCount"@);
            if prompt is Err {
                Err(prompt->Err_0)
            } else if candidates is Err {
                Err(candidates->Err_0)
            } else if thoughts is Err {
                Err(thoughts->Err_0)
            } else if prompt->Ok_0 is None || candidates->Ok_0 is None {
                Ok(None)
            } else {
                let p = prompt->Ok_0->0;
                let c = candidates->Ok_0->0;
                let t: u32 = match thoughts->Ok_0 { Some(x) => x, None => 0 };
                if c + t > u32::MAX {
                    Err(protocol_error_view("Google completion token count overflow"@))
                } else if total is Err {
                    Err(total->Err_0)
                } else if total->Ok_0 is Some {
                    Ok(Some(TokenUsage { prompt_tokens: p, completion_tokens: (c + t) as u32, total_tokens: total->Ok_0->0 }))
                } else if p + c + t > u32::MAX {
                    Err(protocol_error_view("Google total token count overflow"@))
                } else {
                    Ok(Some(TokenUsage { prompt_tokens: p, completion_tokens: (c + t) as u32, total_tokens: (p + c + t) as u32 }))
                }
            }
        },
    }
}

/// Reads the token usage of a response.
pub fn parse_usage(value: Option<&JsonValue>) -> (r: Result<Option<TokenUsage>, LLMError>)
    ensures
        match (r, spec_parse_usage(match value { Some(v) => Some(v@), None => None })) {
            (Ok(a), Ok(b)) => a == b,
            (Err(e), Err(v)) => e@ == v,
            _ => false,
        },
{
    let v = match value {
        None => {
            return Ok(None);
        },
        Some(v) => v,
    };
    let prompt = match optional_u32(v, "promptTokenCount") {
        Ok(x) => x,
        Err(e) => {
            return Err(e);
        },
    };
    let candidates = match optional_u32(v, "candidatesTokenCount") {
        Ok(x) => x,
        Err(e) => {
            return Err(e);
        },
    };
    let thoughts: u32 = match optional_u32(v, "thoughtsTokenCount") {
        Ok(Some(x)) => x,
        Ok(None) => 0,
        Err(e) => {
            return Err(e);
        },
    };
    let (p, c) = match (prompt, candidates) {
        (Some(p), Some(c)) => (p, c),
        _ => {
            return Ok(None);
        },
    };
    let completion = match c.checked_add(thoughts) {
        Some(x) => x,
        None => {
            return Err(protocol_error("Google completion token count overflow"));
        },
    };
    let total = match optional_u32(v, "totalTokenCount") {
        Ok(Some(x)) => x,
        Ok(None) => match p.checked_add(completion) {
            Some(x) => x,
            None => {
                return Err(protocol_error("Google total token count overflow"));
            },
        },
        Err(e) => {
            return Err(e);
        },
    };
    Ok(Some(TokenUsage { prompt_tokens: p, completion_tokens: completion, total_tokens: total }))
}

/// 2^53: the largest integer magnitude a double holds with all smaller ones.
pub open spec fn max_exact_integer() -> nat {
    9007199254740992
}

/// Whether float bits encode a finite number (exponent not all ones).
pub open spec fn finite_bits(bits: u64) -> bool {
    (bits >> 52u64) & 0x7ffu64 != 0x7ffu64
}

/// Whether every number in a value survives a round trip through a double.
pub open spec fn numbers_exact(v: JsonView) -> bool
    decreases v, 0nat,
{
    match v {
        JsonView::Number(JsonNumber::PosInt(n)) => n <= max_exact_integer(),
        JsonView::Number(JsonNumber::NegInt(n)) => -max_exact_integer() <= n && n <= max_exact_integer(),
        JsonView::Number(JsonNumber::Float(bits)) => finite_bits(bits),
        JsonView::Array(items) => items_exact(items),
        JsonView::Object(members) => members_exact(members),
        _ => true,
    }
}

/// Every item passes `numbers_exact`.
pub open spec fn items_exact(s: Seq<JsonView>) -> bool
    decreases s, 1nat,
{
    if s.len() == 0 {
        true
    } else {
        items_exact(s.drop_last()) && numbers_exact(s.last())
    }
}

/// Every member value passes `numbers_exact`.
pub open spec fn members_exact(s: Seq<(Seq<char>, JsonView)>) -> bool
    decreases s, 1nat,
{
    if s.len() == 0 {
        true
    } else {
        members_exact(s.drop_last()) && numbers_exact(s.last().1)
    }
}

/// A prefix of items that are all exact is exact.
proof fn lemma_items_exact_prefix(s: Seq<JsonView>, a: int, b: int)
    requires
        0 <= a <= b <= s.len(),
        items_exact(s.take(b)),
    ensures
        items_exact(s.take(a)),
    decreases b - a,
{
    if a < b {
        assert(s.take(b).drop_last() =~= s.take(b - 1));
        lemma_items_exact_prefix(s, a, b - 1);
    }
}

/// A prefix of members that are all exact is exact.
proof fn lemma_members_exact_prefix(s: Seq<(Seq<char>, JsonView)>, a: int, b: int)
    requires
        0 <= a <= b <= s.len(),
        members_exact(s.take(b)),
    ensures
        members_exact(s.take(a)),
    decreases b - a,
{
    if a < b {
        assert(s.take(b).drop_last() =~= s.take(b - 1));
        lemma_members_exact_prefix(s, a, b - 1);
    }
}

fn number_exact(n: &JsonNumber) -> (r: bool)
    ensures
        r == numbers_exact(JsonView::Number(*n)),
{
    match n {
        JsonNumber::PosInt(x) => *x <= 9007199254740992u64,
        JsonNumber::NegInt(x) => -9007199254740992i64 <= *x && *x <= 9007199254740992i64,
        JsonNumber::Float(bits) => (*bits >> 52u64) & 0x7ffu64 != 0x7ffu64,
    }
}

fn all_numbers_exact(value: &JsonValue) -> (r: bool)
    ensures
        r == numbers_exact(value@),
    decreases value,
{
    match value {
        JsonValue::Number(n) => number_exact(n),
        JsonValue::Array(items) => {
            let ghost sv = items_view(items@);
            proof {
                crate::json::lemma_items_view(items@);
                assert(sv.take(0) =~= Seq::<JsonView>::empty());
            }
            let mut i: usize = 0;
            while i < items.len()
                invariant
                    i <= items@.len(),
                    *value == JsonValue::Array(*items),
                    sv == items_view(items@),
                    value@ == JsonView::Array(sv),
                    sv.len() == items@.len(),
                    forall|k: int| 0 <= k < items@.len() ==> #[trigger] sv[k] == jv(&items@[k]),
                    items_exact(sv.take(i as int)),
                decreases items@.len() - i,
            {
                assert(decreases_to!(value => items@[i as int]));
                let ok = all_numbers_exact(&items[i]);
                proof {
                    assert(sv.take(i + 1).drop_last() =~= sv.take(i as int));
                    assert(sv.take(i + 1).last() == sv[i as int]);
                }
                if !ok {
                    proof {
                        if items_exact(sv) {
                            assert(sv.take(sv.len() as int) =~= sv);
                            lemma_items_exact_prefix(sv, i + 1, sv.len() as int);
                        }
                    }
                    return false;
                }
                i = i + 1;
            }
            assert(sv.take(sv.len() as int) =~= sv);
            true
        },
        JsonValue::Object(members) => {
            let ghost sv = members_view(members@);
            proof {
                crate::json::lemma_members_view(members@);
                assert(sv.take(0) =~= Seq::<(Seq<char>, JsonView)>::empty());
            }
            let mut i: usize = 0;
            while i < members.len()
                invariant
                    i <= members@.len(),
                    *value == JsonValue::Object(*members),
                    sv == members_view(members@),
                    value@ == JsonView::Object(sv),
                    sv.len() == members@.len(),
                    forall|k: int| 0 <= k < members@.len() ==> #[trigger] sv[k] == (members@[k].0@, jv(&members@[k].1)),
                    members_exact(sv.take(i as int)),
                decreases members@.len() - i,
            {
                assert(decreases_to!(value => members@[i as int].1));
                let ok = all_numbers_exact(&members[i].1);
                proof {
                    assert(sv.take(i + 1).drop_last() =~= sv.take(i as int));
                    assert(sv.take(i + 1).last() == sv[i as int]);
                }
                if !ok {
                    proof {
                        if members_exact(sv) {
                            assert(sv.take(sv.len() as int) =~= sv);
                            lemma_members_exact_prefix(sv, i + 1, sv.len() as int);
                        }
                    }
                    return false;
                }
                i = i + 1;
            }
            assert(sv.take(sv.len() as int) =~= sv);
            true
        },
        _ => true,
    }
}

/// Accepts a value whose numbers all survive a round trip through a double
/// (integers up to 2^53 in magnitude, finite floats); `context` names the
/// value in the error.
pub fn validate_json_numbers(value: &JsonValue, context: &str) -> (r: Result<(), LLMError>)
    ensures
        numbers_exact(value@) ==> r is Ok,
        !numbers_exact(value@) ==> error_of(r) == Some(ErrorView::Serialization(
            context@ + " contains a number that Google Struct cannot represent exactly"@)),
{
    if all_numbers_exact(value) {
        Ok(())
    } else {
        let mut m = to_owned_string(context);
        push_str(&mut m, " contains a number that Google Struct cannot represent exactly");
        Err(LLMError::Serialization(m))
    }
}

/// The first position at or after `from` where `pat` occurs in `b`.
pub open spec fn first_from(b: Seq<u8>, pat: Seq<u8>, from: int) -> Option<int>
    decreases b.len() + 1 - from,
{
    if from < 0 || from + pat.len() > b.len() {
        None
    } else if b.subrange(from, from + pat.len()) == pat {
        Some(from)
    } else {
        first_from(b, pat, from + 1)
    }
}

/// The end of the first event in a stream buffer: the position and length
/// of the earliest blank line, `\r\n\r\n` winning a tie with `\n\n`.
pub open spec fn spec_frame_end(b: Seq<u8>) -> Option<(int, int)> {
    let crlf = first_from(b, seq![13u8, 10u8, 13u8, 10u8], 0);
    let lf = first_from(b, seq![10u8, 10u8], 0);
    if crlf is Some && lf is Some {
        if crlf->0 <= lf->0 { Some((crlf->0, 4)) } else { Some((lf->0, 2)) }
    } else if crlf is Some {
        Some((crlf->0, 4))
    } else if lf is Some {
        Some((lf->0, 2))
    } else {
        None
    }
}

fn find_pattern(bytes: &[u8], pat: &[u8]) -> (r: Option<usize>)
    requires
        pat@.len() > 0,
    ensures
        match r {
            Some(i) => first_from(bytes@, pat@, 0) == Some(i as int),
            None => first_from(bytes@, pat@, 0) is None,
        },
{
    let n = bytes.len();
    let m = pat.len();
    if m > n {
        assert(first_from(bytes@, pat@, 0) is None);
        return None;
    }
    let mut i: usize = 0;
    while i <= n - m
        invariant
            n == bytes@.len(),
            m == pat@.len(),
            m > 0,
            m <= n,
            i <= n,
            first_from(bytes@, pat@, 0) == first_from(bytes@, pat@, i as int),
        decreases n - i,
    {
        let mut k: usize = 0;
        let mut same = true;
        while k < m
            invariant
                n == bytes@.len(),
                m == pat@.len(),
                i + m <= n,
                k <= m,
                same == (forall|t: int| 0 <= t < k ==> bytes@[i + t] == pat@[t]),
            decreases m - k,
        {
            if bytes[i + k] != pat[k] {
                same = false;
            }
            k = k + 1;
        }
        if same {
            assert(bytes@.subrange(i as int, i + m) =~= pat@);
            return Some(i);
        } else {
            assert(bytes@.subrange(i as int, i + m) != pat@) by {
                let t = choose|t: int| 0 <= t < m && bytes@[i + t] != pat@[t];
                assert(bytes@.subrange(i as int, i + m)[t] == bytes@[i + t]);
            }
        }
        i = i + 1;
    }
    assert(first_from(bytes@, pat@, i as int) is None);
    None
}

/// Finds the end of the first complete event in a stream buffer: the
/// position of the blank line that ends it and that line's length.
pub fn find_sse_frame_end(bytes: &[u8]) -> (r: Option<(usize, usize)>)
    ensures
        match (r, spec_frame_end(bytes@)) {
            (Some((a, b)), Some((c, d))) => a == c && b == d,
            (None, None) => true,
            _ => false,
        },
{
    let crlf_pat: [u8; 4] = [13u8, 10u8, 13u8, 10u8];
    let lf_pat: [u8; 2] = [10u8, 10u8];
    assert(crlf_pat@ =~= seq![13u8, 10u8, 13u8, 10u8]);
    assert(lf_pat@ =~= seq![10u8, 10u8]);
    let crlf = find_pattern(bytes, &crlf_pat);
    let lf = find_pattern(bytes, &lf_pat);
    match (crlf, lf) {
        (Some(a), Some(b)) => if a <= b { Some((a, 4)) } else { Some((b, 2)) },
        (Some(a), None) => Some((a, 4)),
        (None, Some(b)) => Some((b, 2)),
        (None, None) => None,
    }
}

/// Whether the Gemini provider supports a feature: an override decides,
/// else streaming, system messages, function calling and JSON mode are
/// supported.
pub fn google_supports(overrides: &Vec<(LLMFeature, bool)>, feature: LLMFeature) -> (r: bool)
    ensures
        r == match feature_override(overrides@, feature) {
            Some(b) => b,
            None => feature != LLMFeature::Vision,
        },
{
    match find_override(overrides, feature) {
        Some(b) => b,
        None => match feature {
            LLMFeature::Vision => false,
            _ => true,
        },
    }
}

/// Whether the Gemini provider honours a tool choice: only `auto`, and not
/// when function calling is switched off.
pub fn google_supports_tool_choice(overrides: &Vec<(LLMFeature, bool)>, choice: &ToolChoice) -> (r: bool)
    ensures
        r == (feature_override(overrides@, LLMFeature::FunctionCalling) != Some(false) && *choice is Auto),
{
    let fc = find_override(overrides, LLMFeature::FunctionCalling);
    if fc == Some(false) {
        return false;
    }
    match choice {
        ToolChoice::Auto => true,
        _ => false,
    }
}

} // verus!
