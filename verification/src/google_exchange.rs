//! Tool exchanges in a Gemini conversation: the model turn that called
//! tools and the results those calls got, flushed together into the
//! request's `contents`.
use vstd::prelude::*;
use crate::text::{to_owned_string, str_eq};
use crate::json::{JsonValue, JsonView, items_view, members_view};
use crate::chat::{LLMError, ErrorView, error_of};
use crate::google::{protocol_error, protocol_error_view};

verus! {

/// A tool call of the model's turn, with the id its result answers and
/// the id Gemini gave the call, if any.
pub struct PendingCall {
    pub call_id: String,
    pub name: String,
    pub provider_id: Option<String>,
}

/// The result of a tool call.
pub struct ToolResult {
    pub id: String,
    pub tool: String,
    pub output: JsonValue,
}

/// A model turn that called tools, waiting for its results.
pub struct PendingExchange {
    /// The model turn as it goes into `contents`.
    pub model_content: JsonValue,
    pub calls: Vec<PendingCall>,
    pub results: Vec<ToolResult>,
    /// The model turn carries Gemini's signed state.
    pub signed: bool,
    /// The calls written as readable text.
    pub readable_projection: String,
}

/// Mathematical form of a call.
pub struct CallView {
    pub call_id: Seq<char>,
    pub name: Seq<char>,
    pub provider_id: Option<Seq<char>>,
}

/// Mathematical form of a result.
pub struct ResultView {
    pub id: Seq<char>,
    pub tool: Seq<char>,
    pub output: JsonView,
}

/// Mathematical form of a pending exchange.
pub struct ExchangeView {
    pub model_content: JsonView,
    pub calls: Seq<CallView>,
    pub results: Seq<ResultView>,
    pub signed: bool,
    pub readable_projection: Seq<char>,
}

impl View for PendingCall {
    type V = CallView;

    open spec fn view(&self) -> CallView {
        CallView { call_id: self.call_id@, name: self.name@, provider_id: self.provider_id.deep_view() }
    }
}

impl View for ToolResult {
    type V = ResultView;

    open spec fn view(&self) -> ResultView {
        ResultView { id: self.id@, tool: self.tool@, output: self.output@ }
    }
}

impl View for PendingExchange {
    type V = ExchangeView;

    open spec fn view(&self) -> ExchangeView {
        ExchangeView {
            model_content: self.model_content@,
            calls: self.calls@.map_values(|c: PendingCall| c@),
            results: self.results@.map_values(|r: ToolResult| r@),
            signed: self.signed,
            readable_projection: self.readable_projection@,
        }
    }
}

/// A turn of `role` holding one text part.
pub open spec fn text_content(role: Seq<char>, text: Seq<char>) -> JsonView {
    JsonView::Object(seq![
        ("role"@, JsonView::Str(role)),
        ("parts"@, JsonView::Array(seq![JsonView::Object(seq![("text"@, JsonView::Str(text))])])),
    ])
}

/// A result as JSON: its id, tool and output.
pub open spec fn result_json(r: ResultView) -> JsonView {
    JsonView::Object(seq![("id"@, JsonView::Str(r.id)), ("tool"@, JsonView::Str(r.tool)), ("output"@, r.output)])
}

/// The results of an incomplete exchange, marked incomplete.
pub open spec fn incomplete_results(p: ExchangeView) -> JsonView {
    JsonView::Object(seq![
        ("native_tool_results"@, JsonView::Array(p.results.map_values(|r: ResultView| result_json(r)))),
        ("status"@, JsonView::Str("incomplete"@)),
    ])
}

/// Two results answer the same id.
pub open spec fn duplicate_ids(rs: Seq<ResultView>) -> bool {
    exists|i: int, j: int| 0 <= i < j < rs.len() && (#[trigger] rs[i]).id == (#[trigger] rs[j]).id
}

/// The last result that answers `id`.
pub open spec fn result_for(rs: Seq<ResultView>, id: Seq<char>) -> Option<ResultView>
    decreases rs.len(),
{
    if rs.len() == 0 {
        None
    } else if rs.last().id == id {
        Some(rs.last())
    } else {
        result_for(rs.drop_last(), id)
    }
}

/// The error of the first call, in order, that has no result or whose
/// result names another tool.
pub open spec fn first_unanswered(calls: Seq<CallView>, rs: Seq<ResultView>) -> Option<ErrorView>
    decreases calls.len(),
{
    if calls.len() == 0 {
        None
    } else {
        match result_for(rs, calls[0].call_id) {
            None => Some(protocol_error_view("Google tool exchange is missing a result"@)),
            Some(r) => if r.tool != calls[0].name {
                Some(protocol_error_view("Google tool result name does not match its call"@))
            } else {
                first_unanswered(calls.skip(1), rs)
            },
        }
    }
}

/// The `functionResponse` part answering a call with `output`: the call's
/// Gemini id when it has one, its name, and the output wrapped in an
/// object with the name.
pub open spec fn function_response(c: CallView, output: JsonView) -> JsonView {
    let id_member = match c.provider_id {
        Some(id) => seq![("id"@, JsonView::Str(id))],
        None => Seq::empty(),
    };
    JsonView::Object(seq![(
        "functionResponse"@,
        JsonView::Object(id_member + seq![
            ("name"@, JsonView::Str(c.name)),
            ("response"@, JsonView::Object(seq![("name"@, JsonView::Str(c.name)), ("content"@, output)])),
        ]),
    )])
}

/// One `functionResponse` part per call, in the order of the calls.
pub open spec fn response_parts(p: ExchangeView) -> Seq<JsonView> {
    p.calls.map_values(|c: CallView| function_response(c, result_for(p.results, c.call_id)->0.output))
}

/// Flushing needs the written results of an incomplete signed exchange.
pub open spec fn needs_projection(p: ExchangeView, past_user_turn: bool) -> bool {
    &&& !(p.calls.len() == 0 && p.results.len() > 0)
    &&& p.results.len() != p.calls.len()
    &&& p.signed
    &&& past_user_turn
}

/// The error (none on success) and the contents after flushing `p`;
/// `text` is the written form of the incomplete results.
///
/// Results without calls are refused. When the results do not answer the
/// calls one for one, a signed exchange of the current user turn is
/// refused; one of an earlier turn is replaced by the readable calls and
/// the results marked incomplete; an unsigned one keeps only the model
/// turn. Otherwise the model turn goes in, and then, unless two results
/// share an id or a call has no result or one naming another tool, a user
/// turn with one `functionResponse` part per call.
pub open spec fn spec_flush(contents: Seq<JsonView>, p: ExchangeView, past_user_turn: bool, text: Seq<char>) -> (Option<ErrorView>, Seq<JsonView>) {
    if p.calls.len() == 0 && p.results.len() > 0 {
        (Some(protocol_error_view("native tool results have no preceding call batch"@)), contents)
    } else if p.results.len() != p.calls.len() {
        if p.signed && !past_user_turn {
            (Some(protocol_error_view("current Google tool exchange does not have exactly one result per call"@)), contents)
        } else if p.signed {
            (None, contents + seq![text_content("model"@, p.readable_projection), text_content("user"@, text)])
        } else {
            (None, contents.push(p.model_content))
        }
    } else if duplicate_ids(p.results) {
        (Some(protocol_error_view("Google tool exchange contains duplicate or extra results"@)), contents.push(p.model_content))
    } else {
        match first_unanswered(p.calls, p.results) {
            Some(e) => (Some(e), contents.push(p.model_content)),
            None => (None, contents.push(p.model_content).push(JsonView::Object(seq![
                ("role"@, JsonView::Str("user"@)),
                ("parts"@, JsonView::Array(response_parts(p))),
            ]))),
        }
    }
}

/// `write` gives the text the flush uses, and the outcome is `spec_flush`
/// with it.
pub open spec fn flushed<W: Fn(&JsonValue) -> String>(
    contents: Seq<JsonView>,
    p: ExchangeView,
    past_user_turn: bool,
    outcome: (Option<ErrorView>, Seq<JsonView>),
    write: W,
) -> bool {
    if needs_projection(p, past_user_turn) {
        exists|v: JsonValue, t: String|
            v@ == incomplete_results(p) && #[trigger] call_ensures(write, (&v,), t) && outcome == spec_flush(
                contents,
                p,
                past_user_turn,
                t@,
            )
    } else {
        outcome == spec_flush(contents, p, past_user_turn, Seq::empty())
    }
}

/// A refused exchange adds at most its model turn to the contents, never
/// a user turn.
pub proof fn law_refused_exchange_adds_no_user_turn(contents: Seq<JsonView>, p: ExchangeView, past_user_turn: bool, text: Seq<char>)
    requires
        spec_flush(contents, p, past_user_turn, text).0 is Some,
    ensures
        spec_flush(contents, p, past_user_turn, text).1 == contents
            || spec_flush(contents, p, past_user_turn, text).1 == contents.push(p.model_content),
{
}

/// An accepted exchange whose results answer its calls one for one adds
/// its model turn and then a user turn with one `functionResponse` part
/// per call, each carrying the output of the result with the call's id.
pub proof fn law_complete_exchange_answers_each_call(contents: Seq<JsonView>, p: ExchangeView, past_user_turn: bool, text: Seq<char>)
    requires
        p.results.len() == p.calls.len(),
        !(p.calls.len() == 0 && p.results.len() > 0),
        spec_flush(contents, p, past_user_turn, text).0 is None,
    ensures
        spec_flush(contents, p, past_user_turn, text).1.len() == contents.len() + 2,
        spec_flush(contents, p, past_user_turn, text).1[contents.len() as int] == p.model_content,
        forall|i: int| 0 <= i < p.calls.len() ==> {
            &&& result_for(p.results, (#[trigger] p.calls[i]).call_id) is Some
            &&& result_for(p.results, p.calls[i].call_id)->0.tool == p.calls[i].name
            &&& response_parts(p)[i] == function_response(p.calls[i], result_for(p.results, p.calls[i].call_id)->0.output)
        },
{
    lemma_first_unanswered_none(p.calls, p.results);
}

proof fn lemma_first_unanswered_none(calls: Seq<CallView>, rs: Seq<ResultView>)
    requires
        first_unanswered(calls, rs) is None,
    ensures
        forall|i: int| 0 <= i < calls.len() ==> {
            &&& result_for(rs, (#[trigger] calls[i]).call_id) is Some
            &&& result_for(rs, calls[i].call_id)->0.tool == calls[i].name
        },
    decreases calls.len(),
{
    if calls.len() > 0 {
        lemma_first_unanswered_none(calls.skip(1), rs);
        assert forall|i: int| 0 <= i < calls.len() implies {
            &&& result_for(rs, (#[trigger] calls[i]).call_id) is Some
            &&& result_for(rs, calls[i].call_id)->0.tool == calls[i].name
        } by {
            if i > 0 {
                assert(calls[i] == calls.skip(1)[i - 1]);
            }
        }
    }
}

fn json_str(s: &str) -> (r: JsonValue)
    ensures
        r@ == JsonView::Str(s@),
{
    JsonValue::Str(to_owned_string(s))
}

fn text_content_value(role: &str, text: String) -> (r: JsonValue)
    ensures
        r@ == text_content(role@, text@),
{
    let mut part: Vec<(String, JsonValue)> = Vec::new();
    part.push((to_owned_string("text"), JsonValue::Str(text)));
    proof {
        crate::json::lemma_members_view(part@);
    }
    assert(members_view(part@) =~= seq![("text"@, JsonView::Str(text@))]);
    let part_value = JsonValue::Object(part);
    assert(part_value@ == JsonView::Object(seq![("text"@, JsonView::Str(text@))]));
    let mut parts: Vec<JsonValue> = Vec::new();
    parts.push(part_value);
    proof {
        crate::json::lemma_items_view(parts@);
    }
    assert(items_view(parts@) =~= seq![JsonView::Object(seq![("text"@, JsonView::Str(text@))])]);
    let mut m: Vec<(String, JsonValue)> = Vec::new();
    m.push((to_owned_string("role"), json_str(role)));
    m.push((to_owned_string("parts"), JsonValue::Array(parts)));
    proof {
        crate::json::lemma_members_view(m@);
    }
    assert(members_view(m@) =~= seq![
        ("role"@, JsonView::Str(role@)),
        ("parts"@, JsonView::Array(seq![JsonView::Object(seq![("text"@, JsonView::Str(text@))])])),
    ]);
    JsonValue::Object(m)
}

fn result_value(r: &ToolResult) -> (v: JsonValue)
    ensures
        v@ == result_json(r@),
{
    let mut m: Vec<(String, JsonValue)> = Vec::new();
    m.push((to_owned_string("id"), JsonValue::Str(r.id.clone())));
    m.push((to_owned_string("tool"), JsonValue::Str(r.tool.clone())));
    m.push((to_owned_string("output"), r.output.deep_clone()));
    proof {
        crate::json::lemma_members_view(m@);
    }
    assert(members_view(m@) =~= seq![("id"@, JsonView::Str(r.id@)), ("tool"@, JsonView::Str(r.tool@)), ("output"@, r.output@)]);
    JsonValue::Object(m)
}

/// The results of an exchange marked incomplete, as JSON.
pub fn incomplete_results_value(p: &PendingExchange) -> (v: JsonValue)
    ensures
        v@ == incomplete_results(p@),
{
    let ghost rv = p@.results;
    let mut items: Vec<JsonValue> = Vec::new();
    let mut i: usize = 0;
    while i < p.results.len()
        invariant
            rv == p@.results,
            i <= p.results@.len(),
            items_view(items@) == rv.take(i as int).map_values(|r: ResultView| result_json(r)),
        decreases p.results@.len() - i,
    {
        let ghost before = items@;
        let item = result_value(&p.results[i]);
        items.push(item);
        proof {
            assert(items@.drop_last() =~= before);
            assert(rv[i as int] == p.results@[i as int]@);
            assert(rv.take(i + 1).map_values(|r: ResultView| result_json(r))
                =~= rv.take(i as int).map_values(|r: ResultView| result_json(r)).push(result_json(rv[i as int])));
        }
        i = i + 1;
    }
    assert(rv.take(i as int) =~= rv);
    let mut m: Vec<(String, JsonValue)> = Vec::new();
    m.push((to_owned_string("native_tool_results"), JsonValue::Array(items)));
    m.push((to_owned_string("status"), json_str("incomplete")));
    proof {
        crate::json::lemma_members_view(m@);
    }
    assert(members_view(m@) =~= seq![
        ("native_tool_results"@, JsonView::Array(rv.map_values(|r: ResultView| result_json(r)))),
        ("status"@, JsonView::Str("incomplete"@)),
    ]);
    JsonValue::Object(m)
}

/// Whether two results share an id.
pub fn has_duplicate_ids(rs: &Vec<ToolResult>) -> (r: bool)
    ensures
        r == duplicate_ids(rs@.map_values(|x: ToolResult| x@)),
{
    let ghost v = rs@.map_values(|x: ToolResult| x@);
    let mut j: usize = 0;
    while j < rs.len()
        invariant
            v == rs@.map_values(|x: ToolResult| x@),
            j <= rs@.len(),
            forall|a: int, b: int| 0 <= a < b < j ==> (#[trigger] v[a]).id != (#[trigger] v[b]).id,
        decreases rs@.len() - j,
    {
        let mut i: usize = 0;
        while i < j
            invariant
                v == rs@.map_values(|x: ToolResult| x@),
                i <= j < rs@.len(),
                forall|a: int| 0 <= a < i ==> (#[trigger] v[a]).id != v[j as int].id,
            decreases j - i,
        {
            if str_eq(rs[i].id.as_str(), rs[j].id.as_str()) {
                assert(v[i as int].id == v[j as int].id);
                return true;
            }
            i = i + 1;
        }
        j = j + 1;
    }
    false
}

/// The position of the last result answering `id`.
fn find_result(rs: &Vec<ToolResult>, id: &str) -> (r: Option<usize>)
    ensures
        match r {
            Some(k) => k < rs@.len() && result_for(rs@.map_values(|x: ToolResult| x@), id@) == Some(rs@[k as int]@),
            None => result_for(rs@.map_values(|x: ToolResult| x@), id@) is None,
        },
{
    let ghost v = rs@.map_values(|x: ToolResult| x@);
    let mut i: usize = rs.len();
    assert(v.take(i as int) =~= v);
    while i > 0
        invariant
            v == rs@.map_values(|x: ToolResult| x@),
            i <= rs@.len(),
            result_for(v, id@) == result_for(v.take(i as int), id@),
        decreases i,
    {
        let ghost t = v.take(i as int);
        assert(t.drop_last() =~= v.take(i - 1));
        assert(t.last() == rs@[i - 1]@);
        if str_eq(rs[i - 1].id.as_str(), id) {
            return Some(i - 1);
        }
        i = i - 1;
    }
    None
}

fn function_response_value(c: &PendingCall, output: &JsonValue) -> (v: JsonValue)
    ensures
        v@ == function_response(c@, output@),
{
    let mut inner: Vec<(String, JsonValue)> = Vec::new();
    inner.push((to_owned_string("name"), JsonValue::Str(c.name.clone())));
    inner.push((to_owned_string("content"), output.deep_clone()));
    proof {
        crate::json::lemma_members_view(inner@);
    }
    assert(members_view(inner@) =~= seq![("name"@, JsonView::Str(c.name@)), ("content"@, output@)]);
    let mut fr: Vec<(String, JsonValue)> = Vec::new();
    match &c.provider_id {
        Some(id) => {
            fr.push((to_owned_string("id"), JsonValue::Str(id.clone())));
        },
        None => {},
    }
    let ghost id_member = fr@;
    fr.push((to_owned_string("name"), JsonValue::Str(c.name.clone())));
    fr.push((to_owned_string("response"), JsonValue::Object(inner)));
    proof {
        crate::json::lemma_members_view(fr@);
        crate::json::lemma_members_view(id_member);
    }
    let ghost ids = match c@.provider_id {
        Some(id) => seq![("id"@, JsonView::Str(id))],
        None => Seq::<(Seq<char>, JsonView)>::empty(),
    };
    assert(members_view(id_member) =~= ids);
    assert(members_view(fr@) =~= ids + seq![
        ("name"@, JsonView::Str(c.name@)),
        ("response"@, JsonView::Object(seq![("name"@, JsonView::Str(c.name@)), ("content"@, output@)])),
    ]);
    let mut outer: Vec<(String, JsonValue)> = Vec::new();
    outer.push((to_owned_string("functionResponse"), JsonValue::Object(fr)));
    proof {
        crate::json::lemma_members_view(outer@);
    }
    assert(members_view(outer@) =~= seq![(
        "functionResponse"@,
        JsonView::Object(ids + seq![
            ("name"@, JsonView::Str(c.name@)),
            ("response"@, JsonView::Object(seq![("name"@, JsonView::Str(c.name@)), ("content"@, output@)])),
        ]),
    )]);
    JsonValue::Object(outer)
}

/// Flushes a pending tool exchange into `contents` (see `spec_flush`);
/// `past_user_turn` tells whether a user turn follows it, and `write`
/// writes a JSON value as text.
pub fn flush_pending<W: Fn(&JsonValue) -> String>(
    contents: &mut Vec<JsonValue>,
    pending: Option<PendingExchange>,
    past_user_turn: bool,
    write: &W,
) -> (r: Result<(), LLMError>)
    requires
        forall|v: &JsonValue| #[trigger] call_requires(*write, (v,)),
    ensures
        pending is None ==> r is Ok && final(contents)@ == old(contents)@,
        pending matches Some(p) ==> flushed(items_view(old(contents)@), p@, past_user_turn, (error_of(r), items_view(final(contents)@)), *write),
{
    let p = match pending {
        None => {
            return Ok(());
        },
        Some(p) => p,
    };
    let ghost pv = p@;
    let ghost start = items_view(contents@);
    let n_calls = p.calls.len();
    let n_results = p.results.len();
    if n_calls == 0 && n_results > 0 {
        return Err(protocol_error("native tool results have no preceding call batch"));
    }
    if n_results != n_calls {
        if p.signed && !past_user_turn {
            return Err(protocol_error("current Google tool exchange does not have exactly one result per call"));
        }
        if p.signed {
            let projection = incomplete_results_value(&p);
            let text = write(&projection);
            let ghost t = text@;
            let model = text_content_value("model", p.readable_projection);
            let user = text_content_value("user", text);
            contents.push(model);
            contents.push(user);
            proof {
                assert(items_view(contents@) =~= start + seq![text_content("model"@, pv.readable_projection), text_content("user"@, t)]) by {
                    assert(contents@.drop_last().drop_last() =~= old(contents)@);
                    assert(items_view(contents@) == items_view(contents@.drop_last()).push(text_content("user"@, t)));
                    assert(items_view(contents@.drop_last()) == start.push(text_content("model"@, pv.readable_projection)));
                }
            }
            return Ok(());
        }
        contents.push(p.model_content);
        assert(contents@.drop_last() =~= old(contents)@);
        return Ok(());
    }
    let ghost mc = pv.model_content;
    contents.push(p.model_content);
    assert(contents@.drop_last() =~= old(contents)@);
    assert(items_view(contents@) == start.push(mc));
    if has_duplicate_ids(&p.results) {
        return Err(protocol_error("Google tool exchange contains duplicate or extra results"));
    }
    let mut parts: Vec<JsonValue> = Vec::new();
    let mut i: usize = 0;
    let ghost cs1 = contents@;
    assert(pv.calls.skip(0) =~= pv.calls);
    while i < p.calls.len()
        invariant
            pending is Some,
            pv == p@,
            pv == pending->0@,
            !needs_projection(pv, past_user_turn),
            pv.results.len() == pv.calls.len(),
            !(pv.calls.len() == 0 && pv.results.len() > 0),
            !duplicate_ids(pv.results),
            start == items_view(old(contents)@),
            mc == pv.model_content,
            contents@ == cs1,
            i <= p.calls@.len(),
            items_view(contents@) == start.push(mc),
            first_unanswered(pv.calls, pv.results) == first_unanswered(pv.calls.skip(i as int), pv.results),
            items_view(parts@) == response_parts(pv).take(i as int),
        decreases p.calls@.len() - i,
    {
        let ghost c = pv.calls[i as int];
        proof {
            assert(pv.calls.skip(i as int)[0] == c);
            assert(pv.calls.skip(i as int).skip(1) =~= pv.calls.skip(i + 1));
            assert(c == p.calls@[i as int]@);
        }
        let found = find_result(&p.results, p.calls[i].call_id.as_str());
        let k = match found {
            None => {
                return Err(protocol_error("Google tool exchange is missing a result"));
            },
            Some(k) => k,
        };
        if !str_eq(p.results[k].tool.as_str(), p.calls[i].name.as_str()) {
            return Err(protocol_error("Google tool result name does not match its call"));
        }
        let part = function_response_value(&p.calls[i], &p.results[k].output);
        let ghost before = parts@;
        parts.push(part);
        proof {
            assert(parts@.drop_last() =~= before);
            assert(response_parts(pv)[i as int] == function_response(c, p.results@[k as int]@.output));
            assert(response_parts(pv).take(i + 1) =~= response_parts(pv).take(i as int).push(response_parts(pv)[i as int]));
        }
        i = i + 1;
    }
    assert(pv.calls.skip(i as int) =~= Seq::<CallView>::empty());
    assert(response_parts(pv).take(i as int) =~= response_parts(pv));
    let mut m: Vec<(String, JsonValue)> = Vec::new();
    m.push((to_owned_string("role"), json_str("user")));
    m.push((to_owned_string("parts"), JsonValue::Array(parts)));
    proof {
        crate::json::lemma_members_view(m@);
    }
    let ghost user_view = JsonView::Object(seq![("role"@, JsonView::Str("user"@)), ("parts"@, JsonView::Array(response_parts(pv)))]);
    assert(members_view(m@) =~= seq![("role"@, JsonView::Str("user"@)), ("parts"@, JsonView::Array(response_parts(pv)))]);
    let user = JsonValue::Object(m);
    assert(user@ == user_view);
    contents.push(user);
    proof {
        assert(contents@[contents@.len() - 1]@ == user_view);
        assert(contents@.drop_last() =~= cs1);
        assert(items_view(contents@.drop_last()) == start.push(mc));
        assert(items_view(contents@) =~= start.push(mc).push(user_view));
    }
    Ok(())
}

/// A tool call read back from the conversation: its id, tool name and
/// arguments.
pub struct CallMarker {
    pub id: String,
    pub name: String,
    pub arguments: JsonValue,
}

/// Mathematical form of a call marker.
pub open spec fn marker_view(m: CallMarker) -> (Seq<char>, Seq<char>, JsonView) {
    (m.id@, m.name@, m.arguments@)
}

/// A call as JSON: its id, tool and arguments.
pub open spec fn marker_json_view(m: (Seq<char>, Seq<char>, JsonView)) -> JsonView {
    JsonView::Object(seq![("id"@, JsonView::Str(m.0)), ("tool"@, JsonView::Str(m.1)), ("arguments"@, m.2)])
}

/// A call as a `functionCall` part: its name and arguments.
pub open spec fn call_part_view(m: (Seq<char>, Seq<char>, JsonView)) -> JsonView {
    JsonView::Object(seq![("functionCall"@, JsonView::Object(seq![("name"@, JsonView::Str(m.1)), ("args"@, m.2)]))])
}

/// The calls as JSON, for readable text, under `native_tool_calls`.
pub open spec fn readable_calls_json(ms: Seq<(Seq<char>, Seq<char>, JsonView)>) -> JsonView {
    JsonView::Object(seq![(
        "native_tool_calls"@,
        JsonView::Array(ms.map_values(|m: (Seq<char>, Seq<char>, JsonView)| marker_json_view(m))),
    )])
}

/// The calls of an unsigned model turn: one `functionCall` part per call.
pub open spec fn unsigned_model_content(ms: Seq<(Seq<char>, Seq<char>, JsonView)>) -> JsonView {
    JsonView::Object(seq![
        ("role"@, JsonView::Str("model"@)),
        ("parts"@, JsonView::Array(ms.map_values(|m: (Seq<char>, Seq<char>, JsonView)| call_part_view(m)))),
    ])
}

fn marker_json(m: &CallMarker) -> (v: JsonValue)
    ensures
        v@ == marker_json_view(marker_view(*m)),
{
    let mut o: Vec<(String, JsonValue)> = Vec::new();
    o.push((to_owned_string("id"), JsonValue::Str(m.id.clone())));
    o.push((to_owned_string("tool"), JsonValue::Str(m.name.clone())));
    o.push((to_owned_string("arguments"), m.arguments.deep_clone()));
    proof {
        crate::json::lemma_members_view(o@);
    }
    assert(members_view(o@) =~= seq![("id"@, JsonView::Str(m.id@)), ("tool"@, JsonView::Str(m.name@)), ("arguments"@, m.arguments@)]);
    JsonValue::Object(o)
}

fn call_part(m: &CallMarker) -> (v: JsonValue)
    ensures
        v@ == call_part_view(marker_view(*m)),
{
    let mut c: Vec<(String, JsonValue)> = Vec::new();
    c.push((to_owned_string("name"), JsonValue::Str(m.name.clone())));
    c.push((to_owned_string("args"), m.arguments.deep_clone()));
    proof {
        crate::json::lemma_members_view(c@);
    }
    assert(members_view(c@) =~= seq![("name"@, JsonView::Str(m.name@)), ("args"@, m.arguments@)]);
    let mut o: Vec<(String, JsonValue)> = Vec::new();
    o.push((to_owned_string("functionCall"), JsonValue::Object(c)));
    proof {
        crate::json::lemma_members_view(o@);
    }
    assert(members_view(o@) =~= seq![("functionCall"@, JsonView::Object(seq![("name"@, JsonView::Str(m.name@)), ("args"@, m.arguments@)]))]);
    JsonValue::Object(o)
}

/// The calls written as readable text by `write`.
pub fn readable_calls<W: Fn(&JsonValue) -> String>(markers: &Vec<CallMarker>, write: &W) -> (r: String)
    requires
        forall|v: &JsonValue| #[trigger] call_requires(*write, (v,)),
    ensures
        exists|v: JsonValue| v@ == readable_calls_json(markers@.map_values(|m: CallMarker| marker_view(m)))
            && #[trigger] call_ensures(*write, (&v,), r),
{
    let ghost ms = markers@.map_values(|m: CallMarker| marker_view(m));
    let mut items: Vec<JsonValue> = Vec::new();
    let mut i: usize = 0;
    while i < markers.len()
        invariant
            ms == markers@.map_values(|m: CallMarker| marker_view(m)),
            i <= markers@.len(),
            items_view(items@) == ms.take(i as int).map_values(|m: (Seq<char>, Seq<char>, JsonView)| marker_json_view(m)),
        decreases markers@.len() - i,
    {
        let ghost before = items@;
        let it = marker_json(&markers[i]);
        assert(ms[i as int] == marker_view(markers@[i as int]));
        assert(it@ == marker_json_view(ms[i as int]));
        items.push(it);
        proof {
            assert(items@.drop_last() =~= before);
            assert(items_view(items@) == items_view(before).push(marker_json_view(ms[i as int])));
            assert(ms.take(i + 1).map_values(|m: (Seq<char>, Seq<char>, JsonView)| marker_json_view(m)) =~= ms.take(i as int).map_values(|m: (Seq<char>, Seq<char>, JsonView)| marker_json_view(m)).push(marker_json_view(ms[i as int])));
        }
        i = i + 1;
    }
    assert(ms.take(i as int) =~= ms);
    let mut o: Vec<(String, JsonValue)> = Vec::new();
    o.push((to_owned_string("native_tool_calls"), JsonValue::Array(items)));
    proof {
        crate::json::lemma_members_view(o@);
    }
    assert(members_view(o@) =~= seq![("native_tool_calls"@, JsonView::Array(ms.map_values(|m: (Seq<char>, Seq<char>, JsonView)| marker_json_view(m))))]);
    let v = JsonValue::Object(o);
    assert(v@ == readable_calls_json(ms));
    write(&v)
}

/// The exchange of an unsigned model turn that called these tools: its
/// model content holds one `functionCall` part per call, each call answers
/// to its own id, and no result has come yet.
pub fn unsigned_exchange(markers: &Vec<CallMarker>, readable_projection: String) -> (r: PendingExchange)
    ensures
        r@.model_content == unsigned_model_content(markers@.map_values(|m: CallMarker| marker_view(m))),
        r@.calls == markers@.map_values(|m: CallMarker| CallView { call_id: m.id@, name: m.name@, provider_id: None }),
        r@.results.len() == 0,
        !r@.signed,
        r@.readable_projection == readable_projection@,
{
    let ghost ms = markers@.map_values(|m: CallMarker| marker_view(m));
    let ghost cv = markers@.map_values(|m: CallMarker| CallView { call_id: m.id@, name: m.name@, provider_id: None });
    let mut parts: Vec<JsonValue> = Vec::new();
    let mut calls: Vec<PendingCall> = Vec::new();
    let mut i: usize = 0;
    while i < markers.len()
        invariant
            ms == markers@.map_values(|m: CallMarker| marker_view(m)),
            cv == markers@.map_values(|m: CallMarker| CallView { call_id: m.id@, name: m.name@, provider_id: None }),
            i <= markers@.len(),
            items_view(parts@) == ms.take(i as int).map_values(|m: (Seq<char>, Seq<char>, JsonView)| call_part_view(m)),
            calls@.map_values(|c: PendingCall| c@) == cv.take(i as int),
        decreases markers@.len() - i,
    {
        let ghost before = parts@;
        let ghost cbefore = calls@;
        let part = call_part(&markers[i]);
        assert(ms[i as int] == marker_view(markers@[i as int]));
        assert(part@ == call_part_view(ms[i as int]));
        parts.push(part);
        calls.push(PendingCall { call_id: markers[i].id.clone(), name: markers[i].name.clone(), provider_id: None });
        proof {
            assert(parts@.drop_last() =~= before);
            assert(items_view(parts@) == items_view(before).push(call_part_view(ms[i as int])));
            assert(ms.take(i + 1).map_values(|m: (Seq<char>, Seq<char>, JsonView)| call_part_view(m)) =~= ms.take(i as int).map_values(|m: (Seq<char>, Seq<char>, JsonView)| call_part_view(m)).push(call_part_view(ms[i as int])));
            assert(calls@.map_values(|c: PendingCall| c@) =~= cbefore.map_values(|c: PendingCall| c@).push(cv[i as int]));
            assert(cv.take(i + 1) =~= cv.take(i as int).push(cv[i as int]));
        }
        i = i + 1;
    }
    assert(ms.take(i as int) =~= ms);
    assert(cv.take(i as int) =~= cv);
    let mut o: Vec<(String, JsonValue)> = Vec::new();
    o.push((to_owned_string("role"), json_str("model")));
    o.push((to_owned_string("parts"), JsonValue::Array(parts)));
    proof {
        crate::json::lemma_members_view(o@);
    }
    assert(members_view(o@) =~= seq![("role"@, JsonView::Str("model"@)), ("parts"@, JsonView::Array(ms.map_values(|m: (Seq<char>, Seq<char>, JsonView)| call_part_view(m))))]);
    let r = PendingExchange {
        model_content: JsonValue::Object(o),
        calls,
        results: Vec::new(),
        signed: false,
        readable_projection,
    };
    assert(r@.results =~= Seq::<ResultView>::empty());
    r
}

} // verus!
