//! Reading a Gemini `generateContent` response: the visible text, the
//! function calls with the IDs they run under, and the checks on the
//! candidate that decide whether the response is usable.
use vstd::prelude::*;
use vstd::utf8::encode_utf8;
use crate::text::{chars_of, string_from_chars, to_owned_string, push_str, str_eq, str_starts_with, has_prefix};
use crate::json::{JsonValue, JsonView, get_key, as_str_view, as_bool_view, items_view, members_view, jv, lemma_items_view, lemma_members_view};
use crate::chat::{LLMError, ErrorView, FinishReason, TokenUsage};
use crate::google::{protocol_error, protocol_error_view, numbers_exact, valid_function_name, is_valid_function_name,
    validate_json_numbers, spec_classify_finish, classify_finish, spec_parse_usage, parse_usage};
use crate::hitl::new_request_id;

verus! {

/// A part marked as a thought.
pub open spec fn is_thought(p: JsonView) -> bool {
    match get_key(p, "thought"@) {
        Some(t) => as_bool_view(t) == Some(true),
        None => false,
    }
}

/// The text of the parts that are not thoughts, in order; a `text` that
/// is not a string is an error.
pub open spec fn spec_visible_text(parts: Seq<JsonView>) -> Result<Seq<char>, ErrorView>
    decreases parts.len(),
{
    if parts.len() == 0 {
        Ok(Seq::empty())
    } else {
        match spec_visible_text(parts.drop_last()) {
            Err(e) => Err(e),
            Ok(prev) => {
                let p = parts.last();
                if is_thought(p) {
                    Ok(prev)
                } else {
                    match get_key(p, "text"@) {
                        None => Ok(prev),
                        Some(t) => match as_str_view(t) {
                            Some(x) => Ok(prev + x),
                            None => Err(protocol_error_view("Google text part must contain a string"@)),
                        },
                    }
                }
            },
        }
    }
}

/// A prefix of the parts that fails fails the whole.
proof fn lemma_visible_prefix_err(s: Seq<JsonView>, i: int)
    requires
        0 <= i <= s.len(),
        spec_visible_text(s.take(i)) is Err,
    ensures
        spec_visible_text(s) == spec_visible_text(s.take(i)),
    decreases s.len() - i,
{
    if i < s.len() {
        assert(s.take(s.len() as int) =~= s);
        assert(s.drop_last().take(i) =~= s.take(i));
        lemma_visible_prefix_err(s.drop_last(), i);
    } else {
        assert(s.take(i) =~= s);
    }
}

/// The text a model shows, leaving out its thoughts.
pub fn visible_text(parts: &Vec<JsonValue>) -> (r: Result<String, LLMError>)
    ensures
        match (r, spec_visible_text(items_view(parts@))) {
            (Ok(a), Ok(b)) => a@ == b,
            (Err(e), Err(w)) => e@ == w,
            _ => false,
        },
{
    let ghost pv = items_view(parts@);
    let mut out = String::new();
    let mut i: usize = 0;
    proof {
        lemma_items_view(parts@);
        assert(pv.take(0) =~= Seq::<JsonView>::empty());
    }
    while i < parts.len()
        invariant
            pv == items_view(parts@),
            pv.len() == parts@.len(),
            forall|t: int| 0 <= t < parts@.len() ==> #[trigger] pv[t] == jv(&parts@[t]),
            i <= parts@.len(),
            spec_visible_text(pv.take(i as int)) == Ok::<Seq<char>, ErrorView>(out@),
        decreases parts@.len() - i,
    {
        let part = &parts[i];
        proof {
            assert(pv.take(i + 1).drop_last() =~= pv.take(i as int));
            assert(pv.take(i + 1).last() == part@);
        }
        let thought = match part.get("thought") {
            Some(t) => t.as_bool() == Some(true),
            None => false,
        };
        if !thought {
            match part.get("text") {
                None => {},
                Some(t) => match t.as_str() {
                    Some(x) => {
                        push_str(&mut out, x);
                    },
                    None => {
                        proof {
                            lemma_visible_prefix_err(pv, i + 1);
                            assert(pv.take(parts@.len() as int) =~= pv);
                        }
                        return Err(protocol_error("Google text part must contain a string"));
                    },
                },
            }
        }
        i = i + 1;
    }
    proof {
        assert(pv.take(parts@.len() as int) =~= pv);
    }
    Ok(out)
}

/// The optional provider ID of a function call: a non-empty string when
/// present.
pub open spec fn spec_call_id(call: JsonView) -> Result<Option<Seq<char>>, ErrorView> {
    match get_key(call, "id"@) {
        None => Ok(None),
        Some(JsonView::Str(s)) => if s.len() > 0 {
            Ok(Some(s))
        } else {
            Err(protocol_error_view("functionCall id must be a non-empty string when present"@))
        },
        Some(_) => Err(protocol_error_view("functionCall id must be a non-empty string when present"@)),
    }
}

/// Reads the optional provider ID of a function call.
pub fn parse_optional_function_call_id(call: &JsonValue) -> (r: Result<Option<String>, LLMError>)
    ensures
        match (r, spec_call_id(call@)) {
            (Ok(Some(a)), Ok(Some(b))) => a@ == b,
            (Ok(None), Ok(None)) => true,
            (Err(e), Err(w)) => e@ == w,
            _ => false,
        },
{
    match call.get("id") {
        None => Ok(None),
        Some(JsonValue::Str(s)) => {
            if chars_of(s.as_str()).len() > 0 {
                Ok(Some(s.clone()))
            } else {
                Err(protocol_error("functionCall id must be a non-empty string when present"))
            }
        },
        Some(_) => Err(protocol_error("functionCall id must be a non-empty string when present")),
    }
}

/// The arguments of a function call: `args`, or an empty object.
pub open spec fn call_args(call: JsonView) -> JsonView {
    match get_key(call, "args"@) {
        Some(a) => a,
        None => JsonView::Object(Seq::empty()),
    }
}

/// The name of a function call, when it is a non-empty string.
pub open spec fn call_name(call: JsonView) -> Option<Seq<char>> {
    match get_key(call, "name"@) {
        Some(JsonView::Str(name)) => if name.len() > 0 { Some(name) } else { None },
        _ => None,
    }
}

/// The name, arguments and provider ID of a `functionCall` value, or the
/// first of its faults.
pub open spec fn spec_call_fields(call: JsonView) -> Result<(Seq<char>, JsonView, Option<Seq<char>>), ErrorView> {
    if !(call is Object) {
        Err(protocol_error_view("functionCall must be an object"@))
    } else {
        match call_name(call) {
            Some(name) => {
                if !valid_function_name(encode_utf8(name)) {
                    Err(protocol_error_view("functionCall name is invalid"@))
                } else {
                    let args = call_args(call);
                    if !(args is Object) {
                        Err(protocol_error_view("functionCall args must be an object when present"@))
                    } else if !numbers_exact(args) {
                        Err(ErrorView::Serialization(
                            "functionCall args"@ + " contains a number that Google Struct cannot represent exactly"@))
                    } else {
                        match spec_call_id(call) {
                            Err(e) => Err(e),
                            Ok(id) => Ok((name, args, id)),
                        }
                    }
                }
            },
            None => Err(protocol_error_view("functionCall name is missing"@)),
        }
    }
}

/// A function call read from a part: the part's index, the provider's ID
/// of the call, the name and the arguments.
pub type CallView = (int, Option<Seq<char>>, Seq<char>, JsonView);

/// Whether an earlier call of the response carried the provider ID `id`.
pub open spec fn provider_id_taken(calls: Seq<CallView>, id: Seq<char>) -> bool {
    exists|j: int| 0 <= j < calls.len() && calls[j].1 == Some(id)
}

/// The function calls of the parts, in order, or the first fault: a
/// malformed call or a provider ID given twice.
pub open spec fn spec_parse_calls(parts: Seq<JsonView>) -> Result<Seq<CallView>, ErrorView>
    decreases parts.len(),
{
    if parts.len() == 0 {
        Ok(Seq::empty())
    } else {
        match spec_parse_calls(parts.drop_last()) {
            Err(e) => Err(e),
            Ok(prev) => match get_key(parts.last(), "functionCall"@) {
                None => Ok(prev),
                Some(c) => match spec_call_fields(c) {
                    Err(e) => Err(e),
                    Ok((name, args, id)) => match id {
                        Some(p) => if provider_id_taken(prev, p) {
                            Err(protocol_error_view("duplicate Google functionCall id"@))
                        } else {
                            Ok(prev.push((parts.len() - 1, id, name, args)))
                        },
                        None => Ok(prev.push((parts.len() - 1, id, name, args))),
                    },
                },
            },
        }
    }
}

proof fn lemma_calls_prefix_err(s: Seq<JsonView>, i: int)
    requires
        0 <= i <= s.len(),
        spec_parse_calls(s.take(i)) is Err,
    ensures
        spec_parse_calls(s) == spec_parse_calls(s.take(i)),
    decreases s.len() - i,
{
    if i < s.len() {
        assert(s.drop_last().take(i) =~= s.take(i));
        lemma_calls_prefix_err(s.drop_last(), i);
    } else {
        assert(s.take(i) =~= s);
    }
}

/// A function call of a response, with the ID it runs under.
#[derive(Debug)]
pub struct ParsedCall {
    pub part_index: usize,
    pub provider_id: Option<String>,
    pub id: String,
    pub name: String,
    pub arguments: JsonValue,
}

/// The characters of an optional string.
pub open spec fn text_opt(o: Option<String>) -> Option<Seq<char>> {
    match o {
        Some(p) => Some(p@),
        None => None,
    }
}

/// The read form of a parsed call, without the ID it runs under.
pub open spec fn call_view(c: ParsedCall) -> CallView {
    (c.part_index as int, text_opt(c.provider_id), c.name@, jv(&c.arguments))
}

/// Whether some string of `v` holds the characters `x`.
pub open spec fn holds_text(v: Seq<Seq<char>>, x: Seq<char>) -> bool {
    exists|j: int| 0 <= j < v.len() && v[j] == x
}

/// Prefix of the IDs made up for calls.
pub open spec fn call_id_prefix() -> Seq<char> {
    "ai-google-call-"@
}

/// The ID a call runs under, given the IDs already in use: the provider's
/// ID when it is not in use, else a new ID with the prefix of made-up IDs.
/// Either way it is not in use.
pub open spec fn id_rule(used: Seq<Seq<char>>, provider_id: Option<Seq<char>>, id: Seq<char>) -> bool {
    &&& !holds_text(used, id)
    &&& match provider_id {
        Some(p) => if !holds_text(used, p) { id == p } else { has_prefix(id, call_id_prefix()) },
        None => has_prefix(id, call_id_prefix()),
    }
}

/// The IDs in use before call `k`: those of earlier turns, then those of
/// the calls before it.
pub open spec fn used_before(existing: Seq<Seq<char>>, calls: Seq<ParsedCall>, k: int) -> Seq<Seq<char>> {
    existing + Seq::new(k as nat, |j: int| calls[j].id@)
}

/// Every call runs under an ID chosen by the rule.
pub open spec fn ids_follow_rule(existing: Seq<Seq<char>>, calls: Seq<ParsedCall>) -> bool {
    forall|k: int| 0 <= k < calls.len() ==> #[trigger] id_rule(used_before(existing, calls, k), text_opt(calls[k].provider_id), calls[k].id@)
}

/// The strings' characters.
pub open spec fn texts(v: Seq<String>) -> Seq<Seq<char>> {
    Seq::new(v.len(), |j: int| v[j]@)
}

fn list_has(v: &Vec<String>, x: &str) -> (r: bool)
    ensures
        r == holds_text(texts(v@), x@),
{
    let mut i: usize = 0;
    while i < v.len()
        invariant
            i <= v@.len(),
            forall|j: int| 0 <= j < i ==> v@[j]@ != x@,
        decreases v@.len() - i,
    {
        if str_eq(v[i].as_str(), x) {
            assert(texts(v@)[i as int] == x@);
            return true;
        }
        i = i + 1;
    }
    assert forall|j: int| 0 <= j < texts(v@).len() implies texts(v@)[j] != x@ by {
        assert(texts(v@)[j] == v@[j]@);
    }
    false
}

/// A string with `id` as a prefix, longer than every string in use.
fn pad_past(id: String, used: &Vec<String>) -> (r: String)
    ensures
        has_prefix(r@, id@),
        !holds_text(texts(used@), r@),
{
    let mut longest: usize = 0;
    let mut i: usize = 0;
    while i < used.len()
        invariant
            i <= used@.len(),
            forall|j: int| 0 <= j < i ==> used@[j]@.len() <= longest,
            longest < usize::MAX,
        decreases used@.len() - i,
    {
        let c = chars_of(used[i].as_str());
        if c.len() > longest {
            longest = c.len();
        }
        i = i + 1;
    }
    let mut c = chars_of(id.as_str());
    let ghost start = c@;
    while c.len() <= longest
        invariant
            longest < usize::MAX,
            start == id@,
            c@.len() >= start.len(),
            c@.subrange(0, start.len() as int) == start,
        decreases longest + 1 - c@.len(),
    {
        let ghost before = c@;
        c.push('0');
        assert(c@.subrange(0, start.len() as int) =~= before.subrange(0, start.len() as int));
    }
    let r = string_from_chars(c.as_slice());
    assert forall|j: int| 0 <= j < texts(used@).len() implies texts(used@)[j] != r@ by {
        assert(texts(used@)[j] == used@[j]@);
    }
    r
}

/// The ID a call runs under, given the IDs in use.
fn runtime_id(provider_id: &Option<String>, used: &Vec<String>) -> (r: String)
    ensures
        id_rule(texts(used@), text_opt(*provider_id), r@),
{
    match provider_id {
        Some(p) => {
            if !list_has(used, p.as_str()) {
                return p.clone();
            }
        },
        None => {},
    }
    let mut id = to_owned_string("ai-google-call-");
    let u = new_request_id();
    push_str(&mut id, u.as_str());
    let ghost idv = id@;
    proof {
        assert(idv.subrange(0, call_id_prefix().len() as int) =~= call_id_prefix());
    }
    if !list_has(used, id.as_str()) {
        return id;
    }
    let r = pad_past(id, used);
    proof {
        assert(r@.subrange(0, call_id_prefix().len() as int) =~= idv.subrange(0, call_id_prefix().len() as int));
    }
    r
}

/// The name, arguments and provider ID of a `functionCall` value.
fn call_fields(c: &JsonValue) -> (r: Result<(String, JsonValue, Option<String>), LLMError>)
    ensures
        match (r, spec_call_fields(c@)) {
            (Ok((n, a, i)), Ok((n2, a2, i2))) => n@ == n2 && a@ == a2 && text_opt(i) == i2,
            (Err(e), Err(w)) => e@ == w,
            _ => false,
        },
{
    match c {
        JsonValue::Object(_) => {},
        _ => {
            return Err(protocol_error("functionCall must be an object"));
        },
    }
    let name = match c.get("name") {
        Some(JsonValue::Str(n)) => {
            if chars_of(n.as_str()).len() == 0 {
                return Err(protocol_error("functionCall name is missing"));
            }
            n
        },
        _ => {
            return Err(protocol_error("functionCall name is missing"));
        },
    };
    if !is_valid_function_name(name.as_str()) {
        return Err(protocol_error("functionCall name is invalid"));
    }
    let args = match c.get("args") {
        Some(a) => a.deep_clone(),
        None => JsonValue::empty_object(),
    };
    match &args {
        JsonValue::Object(_) => {},
        _ => {
            return Err(protocol_error("functionCall args must be an object when present"));
        },
    }
    validate_json_numbers(&args, "functionCall args")?;
    let id = parse_optional_function_call_id(c)?;
    Ok((name.clone(), args, id))
}

/// The read forms of the calls.
pub open spec fn call_views(calls: Seq<ParsedCall>) -> Seq<CallView> {
    Seq::new(calls.len(), |k: int| call_view(calls[k]))
}

fn provider_id_used(calls: &Vec<ParsedCall>, id: &str) -> (r: bool)
    ensures
        r == provider_id_taken(call_views(calls@), id@),
{
    let mut j: usize = 0;
    while j < calls.len()
        invariant
            j <= calls@.len(),
            forall|t: int| 0 <= t < j ==> call_views(calls@)[t].1 != Some(id@),
        decreases calls@.len() - j,
    {
        match &calls[j].provider_id {
            Some(p) => {
                if str_eq(p.as_str(), id) {
                    assert(call_views(calls@)[j as int].1 == Some(id@));
                    return true;
                }
            },
            None => {},
        }
        assert(call_views(calls@)[j as int].1 == text_opt(calls@[j as int].provider_id));
        j = j + 1;
    }
    false
}

fn copy_texts(v: &Vec<String>) -> (r: Vec<String>)
    ensures
        texts(r@) == texts(v@),
{
    let mut out: Vec<String> = Vec::new();
    let mut i: usize = 0;
    while i < v.len()
        invariant
            i <= v@.len(),
            out@.len() == i,
            forall|j: int| 0 <= j < i ==> out@[j]@ == v@[j]@,
        decreases v@.len() - i,
    {
        out.push(v[i].clone());
        i = i + 1;
    }
    assert(texts(out@) =~= texts(v@));
    out
}

/// The function calls of a response's parts, each with the ID it runs
/// under, given the IDs of calls from earlier turns.
pub fn parse_function_calls(parts: &Vec<JsonValue>, existing: &Vec<String>) -> (r: Result<Vec<ParsedCall>, LLMError>)
    ensures
        match spec_parse_calls(items_view(parts@)) {
            Err(e) => match r {
                Err(x) => x@ == e,
                Ok(_) => false,
            },
            Ok(cv) => match r {
                Ok(calls) => call_views(calls@) == cv && ids_follow_rule(texts(existing@), calls@),
                Err(_) => false,
            },
        },
{
    let ghost pv = items_view(parts@);
    let ghost ex = texts(existing@);
    let mut calls: Vec<ParsedCall> = Vec::new();
    let mut used = copy_texts(existing);
    let mut i: usize = 0;
    proof {
        lemma_items_view(parts@);
        assert(pv.take(0) =~= Seq::<JsonView>::empty());
        assert(call_views(calls@) =~= Seq::<CallView>::empty());
        assert(used_before(ex, calls@, 0) =~= ex);
    }
    while i < parts.len()
        invariant
            pv == items_view(parts@),
            pv.len() == parts@.len(),
            forall|t: int| 0 <= t < parts@.len() ==> #[trigger] pv[t] == jv(&parts@[t]),
            i <= parts@.len(),
            ex == texts(existing@),
            spec_parse_calls(pv.take(i as int)) == Ok::<Seq<CallView>, ErrorView>(call_views(calls@)),
            texts(used@) == used_before(ex, calls@, calls@.len() as int),
            ids_follow_rule(ex, calls@),
            forall|k: int| 0 <= k < calls@.len() ==> calls@[k].part_index < i,
        decreases parts@.len() - i,
    {
        let part = &parts[i];
        proof {
            assert(pv.take(i + 1).drop_last() =~= pv.take(i as int));
            assert(pv.take(i + 1).last() == part@);
            assert(pv.take(i + 1).len() - 1 == i);
        }
        match part.get("functionCall") {
            None => {},
            Some(c) => {
                let fields = call_fields(c);
                let (name, args, provider_id) = match fields {
                    Ok(f) => f,
                    Err(e) => {
                        proof {
                            lemma_calls_prefix_err(pv, i + 1);
                            assert(pv.take(parts@.len() as int) =~= pv);
                        }
                        return Err(e);
                    },
                };
                let dup = match &provider_id {
                    Some(p) => provider_id_used(&calls, p.as_str()),
                    None => false,
                };
                if dup {
                    proof {
                        lemma_calls_prefix_err(pv, i + 1);
                        assert(pv.take(parts@.len() as int) =~= pv);
                    }
                    return Err(protocol_error("duplicate Google functionCall id"));
                }
                let id = runtime_id(&provider_id, &used);
                let ghost old_calls = calls@;
                let ghost old_used = used@;
                let ghost av = args@;
                used.push(id.clone());
                calls.push(ParsedCall { part_index: i, provider_id, id, name, arguments: args });
                proof {
                    let n = old_calls.len() as int;
                    assert(texts(used@) =~= texts(old_used).push(calls@[n].id@));
                    assert(used_before(ex, calls@, n + 1) =~= used_before(ex, old_calls, n).push(calls@[n].id@));
                    assert(call_views(calls@) =~= call_views(old_calls).push(call_view(calls@[n])));
                    assert forall|k: int| 0 <= k < calls@.len() implies #[trigger] id_rule(used_before(ex, calls@, k), text_opt(calls@[k].provider_id), calls@[k].id@) by {
                        assert(used_before(ex, calls@, k) =~= used_before(ex, old_calls, k));
                        if k < n {
                            assert(calls@[k] == old_calls[k]);
                        }
                    }
                }
            },
        }
        i = i + 1;
    }
    proof {
        assert(pv.take(parts@.len() as int) =~= pv);
    }
    Ok(calls)
}


/// The first candidate of a response, when `candidates` is a non-empty
/// array.
pub open spec fn first_candidate(resp: JsonView) -> Option<JsonView> {
    match get_key(resp, "candidates"@) {
        Some(JsonView::Array(c)) => if c.len() > 0 { Some(c[0]) } else { None },
        _ => None,
    }
}

/// Why the prompt was blocked, when the response says so.
pub open spec fn block_reason(resp: JsonView) -> Option<Seq<char>> {
    match get_key(resp, "promptFeedback"@) {
        Some(f) => match get_key(f, "blockReason"@) {
            Some(r) => as_str_view(r),
            None => None,
        },
        None => None,
    }
}

/// The parts of a candidate's content, when they are an array.
pub open spec fn parts_of(content: JsonView) -> Option<Seq<JsonView>> {
    match get_key(content, "parts"@) {
        Some(JsonView::Array(p)) => Some(p),
        _ => None,
    }
}

/// Gemini 3 returned calls whose first part carries no thought signature.
pub open spec fn signature_missing(model: Seq<char>, parts: Seq<JsonView>, calls: Seq<CallView>) -> bool {
    &&& has_prefix(model, "gemini-3"@)
    &&& calls.len() > 0
    &&& match get_key(parts[calls[0].0], "thoughtSignature"@) {
        Some(JsonView::Str(sig)) => sig.len() == 0,
        _ => true,
    }
}

/// The read form of a response: its visible text, why it stopped, its
/// token usage, the model version it reports, the candidate's content and
/// its function calls.
pub type ResponseView = (Seq<char>, FinishReason, Option<TokenUsage>, Option<Seq<char>>, JsonView, Seq<CallView>);

/// The model version a response reports.
pub open spec fn model_version(resp: JsonView) -> Option<Seq<char>> {
    match get_key(resp, "modelVersion"@) {
        Some(v) => as_str_view(v),
        None => None,
    }
}

/// What the candidate's content gives, once its finish reason is known to
/// be `STOP` or `MAX_TOKENS`.
pub open spec fn spec_read_content(content: JsonView, finish: Seq<char>, model: Seq<char>, tools_exposed: bool)
    -> Result<(Seq<char>, FinishReason, Seq<CallView>), ErrorView>
{
    match parts_of(content) {
        None => Err(protocol_error_view("Google candidate content has no parts"@)),
        Some(parts) => match spec_visible_text(parts) {
            Err(e) => Err(e),
            Ok(text) => match spec_parse_calls(parts) {
                Err(e) => Err(e),
                Ok(calls) => if signature_missing(model, parts, calls) {
                    Err(protocol_error_view("Gemini 3 functionCall response is missing its required thoughtSignature"@))
                } else {
                    match spec_classify_finish(finish, calls.len() > 0) {
                        Err(e) => Err(e),
                        Ok(reason) => if !tools_exposed && calls.len() > 0 {
                            Err(protocol_error_view("Google returned a function call when no native tools were exposed"@))
                        } else {
                            Ok((text, reason, calls))
                        },
                    }
                },
            },
        },
    }
}

/// The reading of a whole response.
pub open spec fn spec_parse_response(resp: JsonView, model: Seq<char>, tools_exposed: bool) -> Result<ResponseView, ErrorView> {
    match spec_parse_usage(get_key(resp, "usageMetadata"@)) {
        Err(e) => Err(e),
        Ok(usage) => match first_candidate(resp) {
            None => match block_reason(resp) {
                Some(r) => Err(ErrorView::ContentFiltered("Google blocked the prompt ("@ + r + ")"@)),
                None => Err(protocol_error_view("Google returned no candidates"@)),
            },
            Some(c) => match get_key(c, "finishReason"@) {
                Some(JsonView::Str(finish)) => if !(finish == "STOP"@ || finish == "MAX_TOKENS"@) {
                    match spec_classify_finish(finish, false) {
                        Err(e) => Err(e),
                        Ok(_) => Err(protocol_error_view("Google returned an unsupported terminal candidate"@)),
                    }
                } else {
                    match get_key(c, "content"@) {
                        None => Err(protocol_error_view("Google candidate has no content"@)),
                        Some(content) => match spec_read_content(content, finish, model, tools_exposed) {
                            Err(e) => Err(e),
                            Ok((text, reason, calls)) => Ok((text, reason, usage, model_version(resp), content, calls)),
                        },
                    }
                },
                _ => Err(protocol_error_view("Google candidate has no finishReason"@)),
            },
        },
    }
}

/// A response read from Gemini.
#[derive(Debug)]
pub struct ParsedResponse {
    pub content: String,
    pub finish_reason: FinishReason,
    pub usage: Option<TokenUsage>,
    /// The model that was asked for.
    pub model: String,
    /// The model version that the response reports.
    pub model_version: Option<String>,
    /// The candidate's content, as the model returned it.
    pub model_content: JsonValue,
    pub calls: Vec<ParsedCall>,
}

/// Gemini 3 must sign the first part that holds a function call.
pub fn validate_required_signatures(model: &str, parts: &Vec<JsonValue>, calls: &Vec<ParsedCall>) -> (r: Result<(), LLMError>)
    requires
        forall|k: int| 0 <= k < calls@.len() ==> calls@[k].part_index < parts@.len(),
    ensures
        signature_missing(model@, items_view(parts@), call_views(calls@)) ==> error_of_is(r,
            protocol_error_view("Gemini 3 functionCall response is missing its required thoughtSignature"@)),
        !signature_missing(model@, items_view(parts@), call_views(calls@)) ==> r is Ok,
{
    proof {
        lemma_items_view(parts@);
    }
    if !str_starts_with(model, "gemini-3") || calls.len() == 0 {
        return Ok(());
    }
    let first = &parts[calls[0].part_index];
    proof {
        assert(call_views(calls@)[0].0 == calls@[0].part_index as int);
        assert(items_view(parts@)[calls@[0].part_index as int] == first@);
    }
    let missing = match first.get("thoughtSignature") {
        Some(JsonValue::Str(sig)) => chars_of(sig.as_str()).len() == 0,
        _ => true,
    };
    if missing {
        return Err(protocol_error("Gemini 3 functionCall response is missing its required thoughtSignature"));
    }
    Ok(())
}

/// The error of a result is the given one.
pub open spec fn error_of_is<T>(r: Result<T, LLMError>, e: ErrorView) -> bool {
    match r {
        Err(x) => x@ == e,
        Ok(_) => false,
    }
}

/// What the content of a candidate gives: its text, why it stopped and its
/// calls.
fn read_content(content: &JsonValue, finish: &str, model: &str, tools_exposed: bool, existing: &Vec<String>)
    -> (r: Result<(String, FinishReason, Vec<ParsedCall>), LLMError>)
    ensures
        match spec_read_content(content@, finish@, model@, tools_exposed) {
            Err(e) => error_of_is(r, e),
            Ok((text, reason, cv)) => match r {
                Ok((t, f, calls)) => t@ == text && f == reason && call_views(calls@) == cv
                    && ids_follow_rule(texts(existing@), calls@),
                Err(_) => false,
            },
        },
{
    let parts = match content.get("parts") {
        Some(JsonValue::Array(p)) => p,
        _ => {
            return Err(protocol_error("Google candidate content has no parts"));
        },
    };
    let text = visible_text(parts)?;
    let calls = parse_function_calls(parts, existing)?;
    proof {
        lemma_items_view(parts@);
        let pv = items_view(parts@);
        lemma_call_indices(pv);
        assert(spec_parse_calls(pv) is Ok);
        assert forall|k: int| 0 <= k < calls@.len() implies calls@[k].part_index < parts@.len() by {
            assert(spec_parse_calls(pv)->Ok_0[k] == call_views(calls@)[k]);
            assert(0 <= spec_parse_calls(pv)->Ok_0[k].0 < pv.len());
        }
    }
    validate_required_signatures(model, parts, &calls)?;
    let reason = classify_finish(finish, calls.len() > 0)?;
    if !tools_exposed && calls.len() > 0 {
        return Err(protocol_error("Google returned a function call when no native tools were exposed"));
    }
    Ok((text, reason, calls))
}

/// The calls read from parts point into the parts.
proof fn lemma_call_indices(parts: Seq<JsonView>)
    ensures
        spec_parse_calls(parts) is Ok ==> forall|k: int| 0 <= k < spec_parse_calls(parts)->Ok_0.len()
            ==> 0 <= #[trigger] spec_parse_calls(parts)->Ok_0[k].0 < parts.len(),
    decreases parts.len(),
{
    if parts.len() > 0 {
        lemma_call_indices(parts.drop_last());
    }
}

/// Reads a `generateContent` response for `model`; `tools_exposed` says
/// whether tools were offered, and `existing` holds the IDs of calls from
/// earlier turns.
pub fn parse_response(resp: &JsonValue, model: &str, tools_exposed: bool, existing: &Vec<String>) -> (r: Result<ParsedResponse, LLMError>)
    ensures
        match spec_parse_response(resp@, model@, tools_exposed) {
            Err(e) => error_of_is(r, e),
            Ok((text, reason, usage, version, content, cv)) => match r {
                Ok(p) => p.content@ == text && p.finish_reason == reason && p.usage == usage
                    && p.model@ == model@ && text_opt(p.model_version) == version
                    && p.model_content@ == content && call_views(p.calls@) == cv
                    && ids_follow_rule(texts(existing@), p.calls@),
                Err(_) => false,
            },
        },
{
    let usage = parse_usage(resp.get("usageMetadata"))?;
    let candidate = match resp.get("candidates") {
        Some(JsonValue::Array(c)) => {
            if c.len() > 0 {
                proof {
                    lemma_items_view(c@);
                }
                Some(&c[0])
            } else {
                proof {
                    lemma_items_view(c@);
                }
                None
            }
        },
        _ => None,
    };
    let c = match candidate {
        Some(c) => c,
        None => {
            let reason = match resp.get("promptFeedback") {
                Some(f) => match f.get("blockReason") {
                    Some(r) => r.as_str(),
                    None => None,
                },
                None => None,
            };
            match reason {
                Some(r) => {
                    let mut m = to_owned_string("Google blocked the prompt (");
                    push_str(&mut m, r);
                    push_str(&mut m, ")");
                    return Err(LLMError::ContentFiltered(m));
                },
                None => {
                    return Err(protocol_error("Google returned no candidates"));
                },
            }
        },
    };
    let finish = match c.get("finishReason") {
        Some(JsonValue::Str(f)) => f.as_str(),
        _ => {
            return Err(protocol_error("Google candidate has no finishReason"));
        },
    };
    if !(str_eq(finish, "STOP") || str_eq(finish, "MAX_TOKENS")) {
        return match classify_finish(finish, false) {
            Err(e) => Err(e),
            Ok(_) => Err(protocol_error("Google returned an unsupported terminal candidate")),
        };
    }
    let content = match c.get("content") {
        Some(x) => x,
        None => {
            return Err(protocol_error("Google candidate has no content"));
        },
    };
    let (text, reason, calls) = read_content(content, finish, model, tools_exposed, existing)?;
    let version = match resp.get("modelVersion") {
        Some(v) => match v.as_str() {
            Some(t) => Some(to_owned_string(t)),
            None => None,
        },
        None => None,
    };
    Ok(ParsedResponse {
        content: text,
        finish_reason: reason,
        usage,
        model: to_owned_string(model),
        model_version: version,
        model_content: content.deep_clone(),
        calls,
    })
}

/// Law: the IDs calls run under are all different, and none of them is
/// the ID of a call from an earlier turn.
pub proof fn law_runtime_ids_are_fresh(existing: Seq<Seq<char>>, calls: Seq<ParsedCall>, j: int, k: int)
    requires
        ids_follow_rule(existing, calls),
        0 <= j < k < calls.len(),
    ensures
        calls[j].id@ != calls[k].id@,
        !holds_text(existing, calls[k].id@),
        !holds_text(existing, calls[j].id@),
{
    assert(id_rule(used_before(existing, calls, k), text_opt(calls[k].provider_id), calls[k].id@));
    assert(id_rule(used_before(existing, calls, j), text_opt(calls[j].provider_id), calls[j].id@));
    let u = used_before(existing, calls, k);
    assert(u[existing.len() + j] == calls[j].id@);
    if calls[j].id@ == calls[k].id@ {
        assert(holds_text(u, calls[k].id@));
    }
    if holds_text(existing, calls[k].id@) {
        let i = choose|i: int| 0 <= i < existing.len() && existing[i] == calls[k].id@;
        assert(u[i] == existing[i]);
    }
    let w = used_before(existing, calls, j);
    if holds_text(existing, calls[j].id@) {
        let i = choose|i: int| 0 <= i < existing.len() && existing[i] == calls[j].id@;
        assert(w[i] == existing[i]);
    }
}

} // verus!