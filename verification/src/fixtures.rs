//! Deterministic fixtures of an evaluation: placeholders filled with the
//! attempt's workspace and mock server, scripted LLM outcomes, streamed
//! chunks of a canned response, HTTP header lookup, and request hashing for
//! recorded cassettes.
use vstd::prelude::*;
use sha2::Digest;
use crate::text::{
    to_owned_string, push_str, push_char, str_eq, str_replace, replace_all, str_contains, contains_seq, chars_of,
    string_from_chars, char_is_whitespace, is_whitespace_char, eq_ignore_ascii_case, ascii_lower,
};
use crate::json::{JsonValue, JsonView, items_view, members_view, jv};
use crate::eval::EvalError;
use crate::evidence::{set_member, set_in};

verus! {

/// The workspace placeholder.
pub open spec fn workspace_token() -> Seq<char> {
    "{{ eval.workspace }}"@
}

/// The mock-server placeholder.
pub open spec fn mock_server_token() -> Seq<char> {
    "{{ mock_server.base_url }}"@
}

/// A text with the workspace placeholder replaced, then the mock-server
/// placeholder when a mock server runs.
pub open spec fn interpolated(value: Seq<char>, workspace: Seq<char>, mock_server: Option<Seq<char>>) -> Seq<char> {
    let v = replace_all(value, workspace_token(), workspace);
    match mock_server {
        Some(url) => replace_all(v, mock_server_token(), url),
        None => v,
    }
}

/// Fills the fixture placeholders of a text.
pub fn interpolate_fixture_string(value: &str, workspace: &str, mock_server: Option<&str>) -> (r: String)
    ensures
        r@ == interpolated(value@, workspace@, mock_server.deep_view()),
{
    proof {
        reveal_strlit("{{ eval.workspace }}");
        reveal_strlit("{{ mock_server.base_url }}");
    }
    let v = str_replace(value, "{{ eval.workspace }}", workspace);
    match mock_server {
        Some(url) => str_replace(v.as_str(), "{{ mock_server.base_url }}", url),
        None => v,
    }
}

/// A value with the placeholders filled in every string and object key.
pub open spec fn interpolated_value(v: JsonView, w: Seq<char>, m: Option<Seq<char>>) -> JsonView
    decreases v, 0nat,
{
    match v {
        JsonView::Str(s) => JsonView::Str(interpolated(s, w, m)),
        JsonView::Array(items) => JsonView::Array(interpolated_items(items, w, m)),
        JsonView::Object(members) => JsonView::Object(interpolated_members(members, w, m)),
        other => other,
    }
}

/// Every item interpolated.
pub open spec fn interpolated_items(s: Seq<JsonView>, w: Seq<char>, m: Option<Seq<char>>) -> Seq<JsonView>
    decreases s, 1nat,
{
    if s.len() == 0 {
        Seq::empty()
    } else {
        interpolated_items(s.drop_last(), w, m).push(interpolated_value(s.last(), w, m))
    }
}

/// Every member re-inserted under its interpolated key with its
/// interpolated value; a later member whose key became equal replaces an
/// earlier one.
pub open spec fn interpolated_members(s: Seq<(Seq<char>, JsonView)>, w: Seq<char>, m: Option<Seq<char>>) -> Seq<(Seq<char>, JsonView)>
    decreases s, 1nat,
{
    if s.len() == 0 {
        Seq::empty()
    } else {
        set_member(interpolated_members(s.drop_last(), w, m), interpolated(s.last().0, w, m), interpolated_value(s.last().1, w, m))
    }
}

/// Fills the fixture placeholders in every string and key of a value.
pub fn interpolate_json_strings(value: &JsonValue, workspace: &str, mock_server: Option<&str>) -> (r: JsonValue)
    ensures
        r@ == interpolated_value(value@, workspace@, mock_server.deep_view()),
    decreases value,
{
    match value {
        JsonValue::Str(s) => JsonValue::Str(interpolate_fixture_string(s.as_str(), workspace, mock_server)),
        JsonValue::Array(items) => {
            let ghost orig = items@;
            let mut out: Vec<JsonValue> = Vec::new();
            let mut k: usize = 0;
            assert(orig.take(0) =~= Seq::<JsonValue>::empty());
            proof {
                crate::json::lemma_items_view(items@);
            }
            while k < items.len()
                invariant
                    *value == JsonValue::Array(*items),
                    value@ == JsonView::Array(items_view(items@)),
                    forall|t: int| 0 <= t < items@.len() ==> #[trigger] items_view(items@)[t] == jv(&items@[t]),
                    orig == items@,
                    k <= orig.len(),
                    items_view(out@) == interpolated_items(items_view(orig.take(k as int)), workspace@, mock_server.deep_view()),
                decreases orig.len() - k,
            {
                assert(decreases_to!(value => items@[k as int]));
                let x = interpolate_json_strings(&items[k], workspace, mock_server);
                let ghost before = out@;
                out.push(x);
                proof {
                    assert(out@.drop_last() =~= before);
                    let t = orig.take(k + 1);
                    assert(t.drop_last() =~= orig.take(k as int));
                    crate::json::lemma_items_view(t);
                    crate::json::lemma_items_view(t.drop_last());
                    assert(items_view(t).drop_last() =~= items_view(t.drop_last()));
                    assert(items_view(t).last() == jv(&orig[k as int]));
                }
                k = k + 1;
            }
            assert(orig.take(k as int) =~= orig);
            JsonValue::Array(out)
        },
        JsonValue::Object(members) => {
            let ghost orig = members@;
            let mut out: Vec<(String, JsonValue)> = Vec::new();
            let mut k: usize = 0;
            assert(orig.take(0) =~= Seq::<(String, JsonValue)>::empty());
            proof {
                crate::json::lemma_members_view(members@);
            }
            while k < members.len()
                invariant
                    *value == JsonValue::Object(*members),
                    value@ == JsonView::Object(members_view(members@)),
                    forall|t: int| 0 <= t < members@.len() ==> #[trigger] members_view(members@)[t] == (members@[t].0@, jv(&members@[t].1)),
                    orig == members@,
                    k <= orig.len(),
                    members_view(out@) == interpolated_members(members_view(orig.take(k as int)), workspace@, mock_server.deep_view()),
                decreases orig.len() - k,
            {
                assert(decreases_to!(value => members@[k as int].1));
                let x = interpolate_json_strings(&members[k].1, workspace, mock_server);
                let key = interpolate_fixture_string(members[k].0.as_str(), workspace, mock_server);
                set_in(&mut out, &key, x);
                proof {
                    let t = orig.take(k + 1);
                    assert(t.drop_last() =~= orig.take(k as int));
                    crate::json::lemma_members_view(t);
                    crate::json::lemma_members_view(t.drop_last());
                    assert(members_view(t).drop_last() =~= members_view(t.drop_last()));
                    assert(members_view(t).last() == (orig[k as int].0@, jv(&orig[k as int].1)));
                }
                k = k + 1;
            }
            assert(orig.take(k as int) =~= orig);
            JsonValue::Object(out)
        },
        JsonValue::Null => JsonValue::Null,
        JsonValue::Bool(b) => JsonValue::Bool(*b),
        JsonValue::Number(n) => JsonValue::Number(*n),
    }
}

/// The settings of one attempt that fixtures can refer to.
pub struct AttemptFixtureContext {
    /// Identifier isolating the attempt's persistent state.
    pub isolation_id: String,
    /// The attempt's own workspace directory.
    pub workspace: String,
    /// The base URL of the mock server, when one runs.
    pub mock_server_base_url: Option<String>,
}

/// The error of a response that names the mock server when none runs.
pub open spec fn missing_mock_server_message() -> Seq<char> {
    "mock LLM response uses {{ mock_server.base_url }} without an enabled fixtures.mock_server"@
}

impl AttemptFixtureContext {
    /// The context values fixtures expose: `eval.workspace`, and
    /// `mock_server.base_url` when a mock server runs.
    pub fn runtime_context(&self) -> (r: Vec<(String, JsonValue)>)
        ensures
            r@.len() == if self.mock_server_base_url is Some { 2int } else { 1int },
            r@[0].0@ == "eval"@,
            r@[0].1@ == JsonView::Object(seq![("workspace"@, JsonView::Str(self.workspace@))]),
            self.mock_server_base_url matches Some(u) ==> r@[1].0@ == "mock_server"@
                && r@[1].1@ == JsonView::Object(seq![("base_url"@, JsonView::Str(u@))]),
    {
        let mut eval_obj: Vec<(String, JsonValue)> = Vec::new();
        eval_obj.push((to_owned_string("workspace"), JsonValue::Str(self.workspace.clone())));
        let ghost eo = eval_obj@;
        proof {
            crate::json::lemma_members_view(eo);
            assert(members_view(eo) =~= seq![("workspace"@, JsonView::Str(self.workspace@))]);
        }
        let mut out: Vec<(String, JsonValue)> = Vec::new();
        out.push((to_owned_string("eval"), JsonValue::Object(eval_obj)));
        match &self.mock_server_base_url {
            Some(u) => {
                let mut m: Vec<(String, JsonValue)> = Vec::new();
                m.push((to_owned_string("base_url"), JsonValue::Str(u.clone())));
                let ghost mo = m@;
                proof {
                    crate::json::lemma_members_view(mo);
                    assert(members_view(mo) =~= seq![("base_url"@, JsonView::Str(u@))]);
                }
                out.push((to_owned_string("mock_server"), JsonValue::Object(m)));
            },
            None => {},
        }
        out
    }
}

/// A copy of a list of text pairs.
fn clone_string_pairs(pairs: &Vec<(String, String)>) -> (r: Vec<(String, String)>)
    ensures
        r.deep_view() == pairs.deep_view(),
{
    let mut out: Vec<(String, String)> = Vec::new();
    let mut i: usize = 0;
    while i < pairs.len()
        invariant
            i <= pairs@.len(),
            out.deep_view() == pairs.deep_view().take(i as int),
        decreases pairs@.len() - i,
    {
        let ghost before = out.deep_view();
        let k = pairs[i].0.clone();
        let v = pairs[i].1.clone();
        out.push((k, v));
        assert(out.deep_view() =~= before.push((pairs@[i as int].0@, pairs@[i as int].1@)));
        assert(out.deep_view() =~= pairs.deep_view().take(i + 1));
        i = i + 1;
    }
    assert(pairs.deep_view().take(i as int) =~= pairs.deep_view());
    out
}

/// A copy of a list of per-alias delays.
fn clone_delay_pairs(pairs: &Vec<(String, u64)>) -> (r: Vec<(String, u64)>)
    ensures
        r.deep_view() == pairs.deep_view(),
{
    let mut out: Vec<(String, u64)> = Vec::new();
    let mut i: usize = 0;
    while i < pairs.len()
        invariant
            i <= pairs@.len(),
            out.deep_view() == pairs.deep_view().take(i as int),
        decreases pairs@.len() - i,
    {
        let ghost before = out.deep_view();
        let k = pairs[i].0.clone();
        out.push((k, pairs[i].1));
        assert(out.deep_view() =~= before.push((pairs@[i as int].0@, pairs@[i as int].1)));
        assert(out.deep_view() =~= pairs.deep_view().take(i + 1));
        i = i + 1;
    }
    assert(pairs.deep_view().take(i as int) =~= pairs.deep_view());
    out
}

/// A response names the mock server although none runs.
pub open spec fn names_missing_server(ctx: &AttemptFixtureContext, s: Seq<char>) -> bool {
    contains_seq(s, mock_server_token()) && ctx.mock_server_base_url is None
}

/// A response has a placeholder.
pub open spec fn has_placeholder(s: Seq<char>) -> bool {
    contains_seq(s, workspace_token()) || contains_seq(s, mock_server_token())
}

/// `o` is `s` rewritten for the attempt: kept when it has no placeholder;
/// else, when `parse` reads it as a JSON value, that value with its strings
/// filled and written back by `write`; else the text with its placeholders
/// filled.
pub open spec fn rewritten<P: Fn(&String) -> Option<JsonValue>, W: Fn(&JsonValue) -> String>(
    ctx: &AttemptFixtureContext,
    s: String,
    o: Seq<char>,
    parse: P,
    write: W,
) -> bool {
    if !has_placeholder(s@) {
        o == s@
    } else {
        exists|p: Option<JsonValue>| #[trigger] call_ensures(parse, (&s,), p) && match p {
            None => o == interpolated(s@, ctx.workspace@, ctx.mock_server_base_url.deep_view()),
            Some(v) => exists|w: JsonValue, out: String| #[trigger] call_ensures(write, (&w,), out)
                && w@ == interpolated_value(v@, ctx.workspace@, ctx.mock_server_base_url.deep_view()) && out@ == o,
        }
    }
}

impl AttemptFixtureContext {
    /// Rewrites every response of a list, in order.
    fn rewrite_all<P: Fn(&String) -> Option<JsonValue>, W: Fn(&JsonValue) -> String>(
        &self,
        list: &Vec<String>,
        parse: &P,
        write: &W,
    ) -> (r: Result<Vec<String>, EvalError>)
        requires
            forall|x: &String| #[trigger] call_requires(*parse, (x,)),
            forall|v: &JsonValue| #[trigger] call_requires(*write, (v,)),
        ensures
            match r {
                Ok(o) => !any_names_missing_server(self, list@) && all_rewritten(self, list@, o@, *parse, *write),
                Err(_) => any_names_missing_server(self, list@)
                    && crate::eval::is_eval_config_error(r, missing_mock_server_message()),
            },
    {
        let mut out: Vec<String> = Vec::new();
        let mut i: usize = 0;
        while i < list.len()
            invariant
                forall|x: &String| #[trigger] call_requires(*parse, (x,)),
                forall|v: &JsonValue| #[trigger] call_requires(*write, (v,)),
                i <= list@.len(),
                out@.len() == i,
                forall|k: int| 0 <= k < i ==> #[trigger] rewritten(self, list@[k], out@[k]@, *parse, *write),
                forall|k: int| 0 <= k < i ==> !#[trigger] names_missing_server(self, list@[k]@),
            decreases list@.len() - i,
        {
            match self.rewrite_response(&list[i], parse, write) {
                Ok(o) => {
                    out.push(o);
                },
                Err(e) => {
                    assert(names_missing_server(self, list@[i as int]@));
                    return Err(e);
                },
            }
            i = i + 1;
        }
        Ok(out)
    }

    /// Rewrites the response outcomes of a list, in order.
    fn rewrite_outcomes<P: Fn(&String) -> Option<JsonValue>, W: Fn(&JsonValue) -> String>(
        &self,
        list: &Vec<LlmFixtureOutcome>,
        parse: &P,
        write: &W,
    ) -> (r: Result<Vec<LlmFixtureOutcome>, EvalError>)
        requires
            forall|x: &String| #[trigger] call_requires(*parse, (x,)),
            forall|v: &JsonValue| #[trigger] call_requires(*write, (v,)),
        ensures
            match r {
                Ok(o) => {
                    &&& forall|j: int| 0 <= j < list@.len() ==> !#[trigger] outcome_names_missing_server(self, list@[j])
                    &&& o@.len() == list@.len()
                    &&& forall|j: int| 0 <= j < list@.len() ==> #[trigger] outcome_rewritten(self, list@[j], o@[j], *parse, *write)
                },
                Err(_) => (exists|j: int| 0 <= j < list@.len() && #[trigger] outcome_names_missing_server(self, list@[j]))
                    && crate::eval::is_eval_config_error(r, missing_mock_server_message()),
            },
    {
        let mut out: Vec<LlmFixtureOutcome> = Vec::new();
        let mut i: usize = 0;
        while i < list.len()
            invariant
                forall|x: &String| #[trigger] call_requires(*parse, (x,)),
                forall|v: &JsonValue| #[trigger] call_requires(*write, (v,)),
                i <= list@.len(),
                out@.len() == i,
                forall|k: int| 0 <= k < i ==> #[trigger] outcome_rewritten(self, list@[k], out@[k], *parse, *write),
                forall|k: int| 0 <= k < i ==> !#[trigger] outcome_names_missing_server(self, list@[k]),
            decreases list@.len() - i,
        {
            match &list[i] {
                LlmFixtureOutcome::Response { content } => match self.rewrite_response(content, parse, write) {
                    Ok(o) => {
                        out.push(LlmFixtureOutcome::Response { content: o });
                    },
                    Err(e) => {
                        assert(outcome_names_missing_server(self, list@[i as int]));
                        return Err(e);
                    },
                },
                LlmFixtureOutcome::Error { message, status } => {
                    out.push(LlmFixtureOutcome::Error { message: message.clone(), status: *status });
                },
            }
            i = i + 1;
        }
        Ok(out)
    }

    /// The LLM fixture of this attempt: every scripted response, shared, per
    /// alias and among the outcomes, rewritten (see `rewritten`). `parse`
    /// reads a text as JSON when it is JSON, and `write` writes a value back
    /// as JSON text. It fails when a response names the mock server and none
    /// runs.
    pub fn interpolate_llm_fixture<P: Fn(&String) -> Option<JsonValue>, W: Fn(&JsonValue) -> String>(
        &self,
        config: &LlmFixtureConfig,
        parse: &P,
        write: &W,
    ) -> (r: Result<LlmFixtureConfig, EvalError>)
        requires
            forall|x: &String| #[trigger] call_requires(*parse, (x,)),
            forall|v: &JsonValue| #[trigger] call_requires(*write, (v,)),
        ensures
            r is Err <==> fixture_names_missing_server(self, config),
            r is Err ==> crate::eval::is_eval_config_error(r, missing_mock_server_message()),
            r matches Ok(c) ==> fixture_rewritten(self, config, &c, *parse, *write),
    {
        let responses = match self.rewrite_all(&config.responses, parse, write) {
            Ok(o) => o,
            Err(e) => {
                return Err(e);
            },
        };
        let mut by_alias: Vec<(String, Vec<String>)> = Vec::new();
        let mut i: usize = 0;
        while i < config.responses_by_alias.len()
            invariant
                forall|x: &String| #[trigger] call_requires(*parse, (x,)),
                forall|v: &JsonValue| #[trigger] call_requires(*write, (v,)),
                !any_names_missing_server(self, config.responses@),
                i <= config.responses_by_alias@.len(),
                by_alias@.len() == i,
                forall|k: int| 0 <= k < i ==> {
                    &&& #[trigger] by_alias@[k].0@ == config.responses_by_alias@[k].0@
                    &&& all_rewritten(self, config.responses_by_alias@[k].1@, by_alias@[k].1@, *parse, *write)
                },
                forall|k: int| 0 <= k < i ==> !#[trigger] any_names_missing_server(self, config.responses_by_alias@[k].1@),
            decreases config.responses_by_alias@.len() - i,
        {
            match self.rewrite_all(&config.responses_by_alias[i].1, parse, write) {
                Ok(o) => {
                    by_alias.push((config.responses_by_alias[i].0.clone(), o));
                },
                Err(e) => {
                    assert(any_names_missing_server(self, config.responses_by_alias@[i as int].1@));
                    return Err(e);
                },
            }
            i = i + 1;
        }
        let mut outcomes: Vec<(String, Vec<LlmFixtureOutcome>)> = Vec::new();
        let mut i: usize = 0;
        while i < config.outcomes_by_alias.len()
            invariant
                forall|x: &String| #[trigger] call_requires(*parse, (x,)),
                forall|v: &JsonValue| #[trigger] call_requires(*write, (v,)),
                !any_names_missing_server(self, config.responses@),
                forall|k: int| 0 <= k < config.responses_by_alias@.len()
                    ==> !#[trigger] any_names_missing_server(self, config.responses_by_alias@[k].1@),
                i <= config.outcomes_by_alias@.len(),
                outcomes@.len() == i,
                forall|k: int| 0 <= k < i ==> {
                    &&& #[trigger] outcomes@[k].0@ == config.outcomes_by_alias@[k].0@
                    &&& outcomes@[k].1@.len() == config.outcomes_by_alias@[k].1@.len()
                    &&& forall|j: int| 0 <= j < config.outcomes_by_alias@[k].1@.len() ==> #[trigger] outcome_rewritten(
                        self,
                        config.outcomes_by_alias@[k].1@[j],
                        outcomes@[k].1@[j],
                        *parse,
                        *write,
                    )
                },
                forall|k: int, j: int| 0 <= k < i && 0 <= j < config.outcomes_by_alias@[k].1@.len()
                    ==> !#[trigger] outcome_names_missing_server(self, config.outcomes_by_alias@[k].1@[j]),
            decreases config.outcomes_by_alias@.len() - i,
        {
            match self.rewrite_outcomes(&config.outcomes_by_alias[i].1, parse, write) {
                Ok(o) => {
                    outcomes.push((config.outcomes_by_alias[i].0.clone(), o));
                },
                Err(e) => {
                    return Err(e);
                },
            }
            i = i + 1;
        }
        let c = LlmFixtureConfig {
            mode: config.mode,
            cassette: crate::text::clone_opt_string(&config.cassette),
            responses,
            responses_by_alias: by_alias,
            errors_by_alias: clone_string_pairs(&config.errors_by_alias),
            outcomes_by_alias: outcomes,
            delays_by_alias: clone_delay_pairs(&config.delays_by_alias),
        };
        Ok(c)
    }

    /// Rewrites one scripted response for this attempt (see `rewritten`);
    /// a response that names the mock server fails when none runs.
    pub fn rewrite_response<P: Fn(&String) -> Option<JsonValue>, W: Fn(&JsonValue) -> String>(
        &self,
        response: &String,
        parse: &P,
        write: &W,
    ) -> (r: Result<String, EvalError>)
        requires
            forall|x: &String| #[trigger] call_requires(*parse, (x,)),
            forall|v: &JsonValue| #[trigger] call_requires(*write, (v,)),
        ensures
            match r {
                Ok(o) => !names_missing_server(self, response@) && rewritten(self, *response, o@, *parse, *write),
                Err(_) => names_missing_server(self, response@)
                    && crate::eval::is_eval_config_error(r, missing_mock_server_message()),
            },
    {
        proof {
            reveal_strlit("{{ eval.workspace }}");
            reveal_strlit("{{ mock_server.base_url }}");
        }
        let has_workspace = str_contains(response.as_str(), "{{ eval.workspace }}");
        let has_mock = str_contains(response.as_str(), "{{ mock_server.base_url }}");
        if !has_workspace && !has_mock {
            return Ok(response.clone());
        }
        if has_mock && self.mock_server_base_url.is_none() {
            return Err(EvalError::Config(to_owned_string(
                "mock LLM response uses {{ mock_server.base_url }} without an enabled fixtures.mock_server",
            )));
        }
        let mock = match &self.mock_server_base_url {
            Some(u) => Some(u.as_str()),
            None => None,
        };
        let parsed = parse(response);
        match parsed {
            Some(v) => {
                let w = interpolate_json_strings(&v, self.workspace.as_str(), mock);
                let out = write(&w);
                assert(call_ensures(*write, (&w,), out));
                assert(call_ensures(*parse, (response,), Some(v)));
                Ok(out)
            },
            None => {
                assert(call_ensures(*parse, (response,), None::<JsonValue>));
                Ok(interpolate_fixture_string(response.as_str(), self.workspace.as_str(), mock))
            },
        }
    }
}

/// Each string of `outs` is the one of `ins` at its position rewritten.
pub open spec fn all_rewritten<P: Fn(&String) -> Option<JsonValue>, W: Fn(&JsonValue) -> String>(
    ctx: &AttemptFixtureContext,
    ins: Seq<String>,
    outs: Seq<String>,
    parse: P,
    write: W,
) -> bool {
    ins.len() == outs.len() && forall|i: int| 0 <= i < ins.len() ==> #[trigger] rewritten(ctx, ins[i], outs[i]@, parse, write)
}

/// Some string of the list names the mock server although none runs.
pub open spec fn any_names_missing_server(ctx: &AttemptFixtureContext, ins: Seq<String>) -> bool {
    exists|i: int| 0 <= i < ins.len() && #[trigger] names_missing_server(ctx, ins[i]@)
}

/// An outcome rewritten: a response's content rewritten, an error kept.
pub open spec fn outcome_rewritten<P: Fn(&String) -> Option<JsonValue>, W: Fn(&JsonValue) -> String>(
    ctx: &AttemptFixtureContext,
    a: LlmFixtureOutcome,
    b: LlmFixtureOutcome,
    parse: P,
    write: W,
) -> bool {
    match a {
        LlmFixtureOutcome::Response { content } => b matches LlmFixtureOutcome::Response { content: c }
            && rewritten(ctx, content, c@, parse, write),
        LlmFixtureOutcome::Error { message, status } => b matches LlmFixtureOutcome::Error { message: m, status: t }
            && m@ == message@ && t == status,
    }
}

/// A response outcome of the list names the mock server although none runs.
pub open spec fn outcome_names_missing_server(ctx: &AttemptFixtureContext, o: LlmFixtureOutcome) -> bool {
    match o {
        LlmFixtureOutcome::Response { content } => names_missing_server(ctx, content@),
        LlmFixtureOutcome::Error { .. } => false,
    }
}

/// Some scripted response of the fixture names the mock server although
/// none runs.
pub open spec fn fixture_names_missing_server(ctx: &AttemptFixtureContext, config: &LlmFixtureConfig) -> bool {
    ||| any_names_missing_server(ctx, config.responses@)
    ||| exists|i: int| 0 <= i < config.responses_by_alias@.len()
        && #[trigger] any_names_missing_server(ctx, config.responses_by_alias@[i].1@)
    ||| exists|i: int, j: int| 0 <= i < config.outcomes_by_alias@.len() && 0 <= j < config.outcomes_by_alias@[i].1@.len()
        && #[trigger] outcome_names_missing_server(ctx, config.outcomes_by_alias@[i].1@[j])
}

/// `c` is `config` with every scripted response rewritten for the attempt;
/// everything else is kept.
pub open spec fn fixture_rewritten<P: Fn(&String) -> Option<JsonValue>, W: Fn(&JsonValue) -> String>(
    ctx: &AttemptFixtureContext,
    config: &LlmFixtureConfig,
    c: &LlmFixtureConfig,
    parse: P,
    write: W,
) -> bool {
    &&& c.mode == config.mode
    &&& c.cassette.deep_view() == config.cassette.deep_view()
    &&& all_rewritten(ctx, config.responses@, c.responses@, parse, write)
    &&& c.responses_by_alias@.len() == config.responses_by_alias@.len()
    &&& forall|i: int| 0 <= i < config.responses_by_alias@.len() ==> {
        &&& #[trigger] c.responses_by_alias@[i].0@ == config.responses_by_alias@[i].0@
        &&& all_rewritten(ctx, config.responses_by_alias@[i].1@, c.responses_by_alias@[i].1@, parse, write)
    }
    &&& c.errors_by_alias.deep_view() == config.errors_by_alias.deep_view()
    &&& c.outcomes_by_alias@.len() == config.outcomes_by_alias@.len()
    &&& forall|i: int| 0 <= i < config.outcomes_by_alias@.len() ==> {
        &&& #[trigger] c.outcomes_by_alias@[i].0@ == config.outcomes_by_alias@[i].0@
        &&& c.outcomes_by_alias@[i].1@.len() == config.outcomes_by_alias@[i].1@.len()
        &&& forall|j: int| 0 <= j < config.outcomes_by_alias@[i].1@.len() ==> #[trigger] outcome_rewritten(
            ctx,
            config.outcomes_by_alias@[i].1@[j],
            c.outcomes_by_alias@[i].1@[j],
            parse,
            write,
        )
    }
    &&& c.delays_by_alias.deep_view() == config.delays_by_alias.deep_view()
}

/// One scripted LLM outcome: a response, or an error with an optional
/// HTTP status.
pub enum LlmFixtureOutcome {
    Response { content: String },
    Error { message: String, status: Option<u16> },
}

/// How an evaluation obtains LLM answers.
#[derive(Clone, Copy, Debug, PartialEq, Eq, Structural)]
pub enum LlmFixtureMode {
    /// The configured providers answer.
    Real,
    /// Scripted responses answer.
    Mock,
    /// Recorded responses answer, scripted ones when none was recorded.
    Replay,
    /// The providers answer and their answers are recorded.
    Record,
}

impl Default for LlmFixtureMode {
    fn default() -> (r: Self)
        ensures
            r == LlmFixtureMode::Real,
    {
        LlmFixtureMode::Real
    }
}

/// The scripted and recorded LLM answers of an evaluation. Per-alias
/// entries are pairs; a later pair for an alias wins over an earlier one.
pub struct LlmFixtureConfig {
    pub mode: LlmFixtureMode,
    /// File of recorded answers, for replay and record modes.
    pub cassette: Option<String>,
    /// Responses, in order, for aliases with none of their own.
    pub responses: Vec<String>,
    /// Responses, in order, per alias.
    pub responses_by_alias: Vec<(String, Vec<String>)>,
    /// An error every call of the alias fails with.
    pub errors_by_alias: Vec<(String, String)>,
    /// Responses and errors, in order, per alias.
    pub outcomes_by_alias: Vec<(String, Vec<LlmFixtureOutcome>)>,
    /// A delay in milliseconds before each answer, per alias.
    pub delays_by_alias: Vec<(String, u64)>,
}

impl Default for LlmFixtureConfig {
    fn default() -> (r: Self)
        ensures
            r.mode == LlmFixtureMode::Real,
            r.cassette is None,
            r.responses@.len() == 0,
            r.responses_by_alias@.len() == 0,
            r.errors_by_alias@.len() == 0,
            r.outcomes_by_alias@.len() == 0,
            r.delays_by_alias@.len() == 0,
    {
        LlmFixtureConfig {
            mode: LlmFixtureMode::Real,
            cassette: None,
            responses: Vec::new(),
            responses_by_alias: Vec::new(),
            errors_by_alias: Vec::new(),
            outcomes_by_alias: Vec::new(),
            delays_by_alias: Vec::new(),
        }
    }
}

/// Tools whose policies are given the attempt's workspace.
pub struct WorkspacePolicyFixtureConfig {
    /// Tools allowed to read the workspace.
    pub read_tools: Vec<String>,
    /// Tools allowed to write the workspace.
    pub write_tools: Vec<String>,
}

/// Default HTTP status of a mocked response.
pub fn default_status() -> (n: u16)
    ensures
        n == 200,
{
    200
}

/// The default of every switch that is on unless configured.
pub fn default_true() -> (b: bool)
    ensures
        b,
{
    true
}

/// The value of the first header whose name equals `name` ignoring ASCII
/// case.
pub open spec fn spec_header_value(headers: Seq<(Seq<char>, Seq<char>)>, name: Seq<char>) -> Option<Seq<char>>
    decreases headers.len(),
{
    if headers.len() == 0 {
        None
    } else if ascii_lower(headers[0].0) == ascii_lower(name) {
        Some(headers[0].1)
    } else {
        spec_header_value(headers.skip(1), name)
    }
}

/// Looks up a header by name, ignoring ASCII case.
pub fn header_value<'a>(headers: &'a Vec<(String, String)>, name: &str) -> (r: Option<&'a str>)
    ensures
        r.deep_view() == spec_header_value(headers.deep_view(), name@),
{
    let mut i: usize = 0;
    assert(headers.deep_view().skip(0) =~= headers.deep_view());
    while i < headers.len()
        invariant
            i <= headers@.len(),
            spec_header_value(headers.deep_view(), name@) == spec_header_value(headers.deep_view().skip(i as int), name@),
        decreases headers@.len() - i,
    {
        let ghost rest = headers.deep_view().skip(i as int);
        assert(rest[0] == (headers@[i as int].0@, headers@[i as int].1@));
        assert(rest.skip(1) =~= headers.deep_view().skip(i + 1));
        if eq_ignore_ascii_case(headers[i].0.as_str(), name) {
            return Some(headers[i].1.as_str());
        }
        i = i + 1;
    }
    None
}

/// The words of a text: its maximal runs of characters that are not white
/// space, in order.
pub open spec fn split_words(s: Seq<char>) -> Seq<Seq<char>>
    decreases s.len(),
{
    if s.len() == 0 {
        Seq::empty()
    } else if is_whitespace_char(s.last()) {
        split_words(s.drop_last())
    } else if s.len() > 1 && !is_whitespace_char(s[s.len() - 2]) && split_words(s.drop_last()).len() > 0 {
        let p = split_words(s.drop_last());
        p.update(p.len() - 1, p.last().push(s.last()))
    } else {
        split_words(s.drop_last()).push(seq![s.last()])
    }
}

/// Words after the first get a leading space.
pub open spec fn spaced_words(words: Seq<Seq<char>>) -> Seq<Seq<char>> {
    Seq::new(words.len(), |i: int| if i == 0 { words[i] } else { seq![' '] + words[i] })
}

/// A text cut into pieces of `n` characters, the last one shorter.
pub open spec fn char_chunks(s: Seq<char>, n: nat) -> Seq<Seq<char>>
    recommends
        n > 0,
    decreases s.len(),
{
    if n == 0 || s.len() <= n {
        seq![s]
    } else {
        seq![s.take(n as int)] + char_chunks(s.skip(n as int), n)
    }
}

/// The chunks in which a canned response is streamed: nothing for an empty
/// text; word by word when it has several words; else pieces of at most
/// four characters, about two of them.
pub open spec fn stream_chunks(s: Seq<char>) -> Seq<Seq<char>> {
    if s.len() == 0 {
        Seq::empty()
    } else if split_words(s).len() > 1 {
        spaced_words(split_words(s))
    } else if s.len() <= 1 {
        seq![s]
    } else {
        let half = ((s.len() + 1) / 2) as nat;
        char_chunks(s, if half < 4 { half } else { 4 })
    }
}

fn words_of(chars: &Vec<char>) -> (r: Vec<Vec<char>>)
    ensures
        r@.len() == split_words(chars@).len(),
        forall|i: int| 0 <= i < r@.len() ==> (#[trigger] r@[i])@ == split_words(chars@)[i],
{
    let mut words: Vec<Vec<char>> = Vec::new();
    let mut cur: Vec<char> = Vec::new();
    let mut in_word = false;
    let mut i: usize = 0;
    while i < chars.len()
        invariant
            i <= chars@.len(),
            in_word ==> i > 0 && !is_whitespace_char(chars@[i - 1]),
            !in_word ==> (i == 0 || is_whitespace_char(chars@[i - 1])),
            in_word ==> cur@.len() > 0,
            !in_word ==> cur@.len() == 0,
            ({
                let sw = split_words(chars@.take(i as int));
                &&& sw.len() == words@.len() + (if in_word { 1int } else { 0int })
                &&& forall|k: int| 0 <= k < words@.len() ==> (#[trigger] words@[k])@ == sw[k]
                &&& in_word ==> sw.last() == cur@
            }),
        decreases chars@.len() - i,
    {
        let c = chars[i];
        let ghost t = chars@.take(i + 1);
        proof {
            assert(t.drop_last() =~= chars@.take(i as int));
            assert(t.last() == c);
            if i > 0 {
                assert(t[t.len() - 2] == chars@[i - 1]);
            }
        }
        let ghost prev = chars@.take(i as int);
        let ghost old_words = words@;
        let ghost old_cur = cur@;
        if char_is_whitespace(c) {
            if in_word {
                let w = cur;
                words.push(w);
                cur = Vec::new();
                in_word = false;
                proof {
                    assert(split_words(t) == split_words(prev));
                    assert forall|k: int| 0 <= k < words@.len() implies (#[trigger] words@[k])@ == split_words(t)[k] by {
                        if k < old_words.len() {
                            assert(words@[k] == old_words[k]);
                        }
                    }
                }
            } else {
                assert(split_words(t) == split_words(prev));
            }
        } else {
            cur.push(c);
            proof {
                if in_word {
                    let p = split_words(prev);
                    assert(split_words(t) == p.update(p.len() - 1, p.last().push(c)));
                    assert forall|k: int| 0 <= k < words@.len() implies (#[trigger] words@[k])@ == split_words(t)[k] by {
                        assert(k < p.len() - 1);
                    }
                    assert(cur@ =~= old_cur.push(c));
                } else {
                    assert(split_words(t) == split_words(prev).push(seq![c]));
                    assert(cur@ =~= seq![c]);
                }
            }
            in_word = true;
        }
        i = i + 1;
    }
    if in_word {
        words.push(cur);
    }
    assert(chars@.take(chars@.len() as int) =~= chars@);
    words
}

/// The words of a text as stream deltas: the first as it is, each later one
/// after a space.
pub fn word_deltas(content: &str) -> (r: Vec<String>)
    ensures
        r.deep_view() == spaced_words(split_words(content@)),
{
    let chars = chars_of(content);
    let words = words_of(&chars);
    let mut out: Vec<String> = Vec::new();
    let mut i: usize = 0;
    while i < words.len()
        invariant
            chars@ == content@,
            words@.len() == split_words(chars@).len(),
            forall|k: int| 0 <= k < words@.len() ==> (#[trigger] words@[k])@ == split_words(chars@)[k],
            i <= words@.len(),
            out.deep_view() == spaced_words(split_words(chars@)).take(i as int),
        decreases words@.len() - i,
    {
        let piece = if i == 0 {
            string_from_chars(words[i].as_slice())
        } else {
            let mut p = to_owned_string(" ");
            let w = string_from_chars(words[i].as_slice());
            push_str(&mut p, w.as_str());
            proof {
                reveal_strlit(" ");
                assert(p@ =~= seq![' '] + words@[i as int]@);
            }
            p
        };
        assert(piece@ == spaced_words(split_words(chars@))[i as int]);
        let ghost before = out.deep_view();
        out.push(piece);
        assert(out.deep_view() =~= before.push(spaced_words(split_words(chars@))[i as int]));
        assert(out.deep_view() =~= spaced_words(split_words(chars@)).take(i + 1));
        i = i + 1;
    }
    assert(spaced_words(split_words(chars@)).take(words@.len() as int) =~= spaced_words(split_words(chars@)));
    out
}

/// Splits a canned response into the chunks a stream delivers.
pub fn split_stream_content(content: &str) -> (r: Vec<String>)
    ensures
        r.deep_view() == stream_chunks(content@),
{
    let chars = chars_of(content);
    if chars.len() == 0 {
        return Vec::new();
    }
    let words = words_of(&chars);
    if words.len() > 1 {
        return word_deltas(content);
    }
    if chars.len() <= 1 {
        let mut out: Vec<String> = Vec::new();
        out.push(to_owned_string(content));
        assert(out.deep_view() =~= seq![content@]);
        return out;
    }
    let half = (chars.len() - 1) / 2 + 1;
    let size: usize = if half < 4 { half } else { 4 };
    assert(half == (chars@.len() + 1) / 2);
    assert(char_chunks(chars@, size as nat) == stream_chunks(content@));
    let mut out: Vec<String> = Vec::new();
    let mut start: usize = 0;
    assert(chars@.skip(0) =~= chars@);
    assert(out.deep_view() + char_chunks(chars@, size as nat) =~= char_chunks(chars@, size as nat));
    loop
        invariant
            chars@ == content@,
            chars@.len() >= 2,
            char_chunks(chars@, size as nat) == stream_chunks(content@),
            size > 0,
            start < chars@.len(),
            out.deep_view() + char_chunks(chars@.skip(start as int), size as nat) == char_chunks(chars@, size as nat),
        decreases chars@.len() - start,
    {
        let rest_len = chars.len() - start;
        if rest_len <= size {
            let mut piece: Vec<char> = Vec::new();
            let mut k: usize = start;
            while k < chars.len()
                invariant
                    start <= k <= chars@.len(),
                    piece@ == chars@.subrange(start as int, k as int),
                decreases chars@.len() - k,
            {
                piece.push(chars[k]);
                k = k + 1;
                assert(piece@ =~= chars@.subrange(start as int, k as int));
            }
            let ghost before = out.deep_view();
            out.push(string_from_chars(piece.as_slice()));
            proof {
                assert(chars@.skip(start as int) =~= chars@.subrange(start as int, chars@.len() as int));
                assert(char_chunks(chars@.skip(start as int), size as nat) == seq![chars@.skip(start as int)]);
                assert(out.deep_view() =~= before + seq![chars@.skip(start as int)]);
            }
            return out;
        }
        let end = start + size;
        let mut piece: Vec<char> = Vec::new();
        let mut k: usize = start;
        while k < end
            invariant
                end == start + size,
                end < chars@.len(),
                start <= k <= end,
                piece@ == chars@.subrange(start as int, k as int),
            decreases end - k,
        {
            piece.push(chars[k]);
            k = k + 1;
            assert(piece@ =~= chars@.subrange(start as int, k as int));
        }
        let ghost before = out.deep_view();
        out.push(string_from_chars(piece.as_slice()));
        proof {
            let rest = chars@.skip(start as int);
            assert(rest.take(size as int) =~= chars@.subrange(start as int, start + size));
            assert(rest.skip(size as int) =~= chars@.skip(start + size));
            assert(out.deep_view() =~= before.push(rest.take(size as int)));
            assert(before + char_chunks(rest, size as nat) =~= before + (seq![rest.take(size as int)] + char_chunks(rest.skip(size as int), size as nat)));
            assert(out.deep_view() + char_chunks(chars@.skip(start + size), size as nat) =~= before + char_chunks(rest, size as nat));
        }
        start = start + size;
    }
}

/// The SHA-256 digest of a byte string.
pub uninterp spec fn sha256(data: Seq<u8>) -> Seq<u8>;

/// Wrapper of `sha2::Sha256::digest`: the 32-byte digest of `data`.
#[verifier::external_body]
fn sha256_digest(data: &[u8]) -> (r: Vec<u8>)
    ensures
        r@ == sha256(data@),
        r@.len() == 32,
{
    sha2::Sha256::digest(data).to_vec()
}

/// A lowercase hexadecimal digit.
pub open spec fn hex_digit(d: u8) -> char {
    if d < 10 { ((48 + d) as u8) as char } else { ((87 + d) as u8) as char }
}

/// Bytes in lowercase hexadecimal, two digits each.
pub open spec fn hex(b: Seq<u8>) -> Seq<char>
    decreases b.len(),
{
    if b.len() == 0 {
        Seq::empty()
    } else {
        hex(b.drop_last()) + seq![hex_digit(b.last() / 16), hex_digit(b.last() % 16)]
    }
}

fn hex_char(d: u8) -> (c: char)
    requires
        d < 16,
    ensures
        c == hex_digit(d),
{
    if d < 10 { ((48 + d) as u8) as char } else { ((87 + d) as u8) as char }
}

/// The key of a recorded request: `sha256-v1:` and the hexadecimal SHA-256
/// digest of its canonical JSON encoding.
pub fn hash_request(encoded: &[u8]) -> (r: String)
    ensures
        r@ == "sha256-v1:"@ + hex(sha256(encoded@)),
{
    let digest = sha256_digest(encoded);
    let mut out = to_owned_string("sha256-v1:");
    let ghost head = out@;
    let mut i: usize = 0;
    while i < digest.len()
        invariant
            i <= digest@.len(),
            out@ == head + hex(digest@.take(i as int)),
        decreases digest@.len() - i,
    {
        let b = digest[i];
        push_char(&mut out, hex_char(b / 16));
        push_char(&mut out, hex_char(b % 16));
        proof {
            let t = digest@.take(i + 1);
            assert(t.drop_last() =~= digest@.take(i as int));
            assert(t.last() == b);
        }
        assert(out@ =~= head + hex(digest@.take(i + 1)));
        i = i + 1;
    }
    assert(digest@.take(digest@.len() as int) =~= digest@);
    out
}

/// Where a tool of the evaluation's registry comes from.
#[derive(Clone, Copy, Debug, PartialEq, Eq, Structural)]
pub enum ToolSlot {
    /// The fixture's mock of the tool.
    Mock,
    /// The fixture's scripted web-fetch transport.
    WebFetchFixture,
    /// The built-in tool.
    Builtin,
}

/// Where a built-in tool that is not mocked comes from: `web_fetch` from
/// the fixture's transport when there is one.
pub open spec fn builtin_slot(id: Seq<char>, has_web_fetch_fixture: bool) -> ToolSlot {
    if id == "web_fetch"@ && has_web_fetch_fixture { ToolSlot::WebFetchFixture } else { ToolSlot::Builtin }
}

/// The built-in tools that are not mocked, in order, with their sources.
pub open spec fn builtin_plan(builtin: Seq<Seq<char>>, mocked: Seq<Seq<char>>, has_web_fetch_fixture: bool) -> Seq<(Seq<char>, ToolSlot)>
    decreases builtin.len(),
{
    if builtin.len() == 0 {
        Seq::empty()
    } else {
        let id = builtin.last();
        builtin_plan(builtin.drop_last(), mocked, has_web_fetch_fixture) + if mocked.contains(id) {
            Seq::empty()
        } else {
            seq![(id, builtin_slot(id, has_web_fetch_fixture))]
        }
    }
}

/// The tools of an evaluation's registry: every mocked tool, then every
/// built-in tool that is not mocked.
pub open spec fn tool_plan(mocked: Seq<Seq<char>>, builtin: Seq<Seq<char>>, has_web_fetch_fixture: bool) -> Seq<(Seq<char>, ToolSlot)> {
    mocked.map_values(|id: Seq<char>| (id, ToolSlot::Mock)) + builtin_plan(builtin, mocked, has_web_fetch_fixture)
}

fn is_listed(v: &Vec<String>, x: &str) -> (r: bool)
    ensures
        r == v.deep_view().contains(x@),
{
    let mut i: usize = 0;
    while i < v.len()
        invariant
            i <= v@.len(),
            forall|k: int| 0 <= k < i ==> v.deep_view()[k] != x@,
        decreases v@.len() - i,
    {
        assert(v.deep_view()[i as int] == v@[i as int]@);
        if str_eq(v[i].as_str(), x) {
            return true;
        }
        i = i + 1;
    }
    false
}

/// Which tool the evaluation registers under each id, and from where.
pub fn plan_tools(mocked: &Vec<String>, builtin: &Vec<String>, has_web_fetch_fixture: bool) -> (r: Vec<(String, ToolSlot)>)
    ensures
        r@.map_values(|p: (String, ToolSlot)| (p.0@, p.1)) == tool_plan(mocked.deep_view(), builtin.deep_view(), has_web_fetch_fixture),
{
    let ghost mv = mocked.deep_view();
    let ghost bv = builtin.deep_view();
    let mut out: Vec<(String, ToolSlot)> = Vec::new();
    let mut i: usize = 0;
    while i < mocked.len()
        invariant
            mv == mocked.deep_view(),
            i <= mocked@.len(),
            out@.map_values(|p: (String, ToolSlot)| (p.0@, p.1)) == mv.take(i as int).map_values(|id: Seq<char>| (id, ToolSlot::Mock)),
        decreases mocked@.len() - i,
    {
        let ghost before = out@;
        out.push((mocked[i].clone(), ToolSlot::Mock));
        proof {
            assert(mv[i as int] == mocked@[i as int]@);
            assert(out@.map_values(|p: (String, ToolSlot)| (p.0@, p.1))
                =~= before.map_values(|p: (String, ToolSlot)| (p.0@, p.1)).push((mv[i as int], ToolSlot::Mock)));
            assert(mv.take(i + 1).map_values(|id: Seq<char>| (id, ToolSlot::Mock))
                =~= mv.take(i as int).map_values(|id: Seq<char>| (id, ToolSlot::Mock)).push((mv[i as int], ToolSlot::Mock)));
        }
        i = i + 1;
    }
    assert(mv.take(i as int) =~= mv);
    let ghost head = mv.map_values(|id: Seq<char>| (id, ToolSlot::Mock));
    let mut j: usize = 0;
    assert(bv.take(0) =~= Seq::<Seq<char>>::empty());
    assert(head + builtin_plan(bv.take(0), mv, has_web_fetch_fixture) =~= head);
    while j < builtin.len()
        invariant
            mv == mocked.deep_view(),
            bv == builtin.deep_view(),
            head == mv.map_values(|id: Seq<char>| (id, ToolSlot::Mock)),
            j <= builtin@.len(),
            out@.map_values(|p: (String, ToolSlot)| (p.0@, p.1)) == head + builtin_plan(bv.take(j as int), mv, has_web_fetch_fixture),
        decreases builtin@.len() - j,
    {
        let ghost before = out@.map_values(|p: (String, ToolSlot)| (p.0@, p.1));
        let ghost id = bv[j as int];
        proof {
            assert(bv.take(j + 1).drop_last() =~= bv.take(j as int));
            assert(bv.take(j + 1).last() == id);
            assert(id == builtin@[j as int]@);
        }
        if !is_listed(mocked, builtin[j].as_str()) {
            let slot = if has_web_fetch_fixture && str_eq(builtin[j].as_str(), "web_fetch") {
                ToolSlot::WebFetchFixture
            } else {
                ToolSlot::Builtin
            };
            proof {
                reveal_strlit("web_fetch");
            }
            assert(slot == builtin_slot(id, has_web_fetch_fixture));
            out.push((builtin[j].clone(), slot));
            assert(out@.map_values(|p: (String, ToolSlot)| (p.0@, p.1)) =~= before.push((id, slot)));
            assert(head + builtin_plan(bv.take(j + 1), mv, has_web_fetch_fixture)
                =~= (head + builtin_plan(bv.take(j as int), mv, has_web_fetch_fixture)).push((id, slot)));
        } else {
            assert(head + builtin_plan(bv.take(j + 1), mv, has_web_fetch_fixture)
                =~= head + builtin_plan(bv.take(j as int), mv, has_web_fetch_fixture));
        }
        j = j + 1;
    }
    assert(bv.take(j as int) =~= bv);
    out
}

} // verus!
