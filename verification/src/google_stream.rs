//! The Gemini server-sent event stream: cutting the byte stream into
//! frames, reading the `data:` lines of a frame, reading the event that a
//! frame's JSON carries, and the decisions of the stream from event to
//! event up to its single final chunk.
use vstd::prelude::*;
use vstd::utf8::{valid_utf8, encode_utf8};
use crate::text::{chars_of, string_from_chars, slice_chars, has_prefix};
use crate::json::{JsonValue, JsonView, get_key, as_str_view, items_view, jv, lemma_items_view};
use crate::chat::{LLMError, ErrorView, FinishReason, TokenUsage};
use crate::google::{protocol_error, protocol_error_view, spec_frame_end, first_from, find_sse_frame_end,
    spec_classify_finish, classify_finish, spec_parse_usage, parse_usage};
use crate::google_response::{spec_visible_text, visible_text, block_reason, error_of_is};

verus! {

/// The longest frame the stream holds while waiting for its end.
pub const MAX_SSE_FRAME_BYTES: usize = 1048576;

proof fn lemma_first_from_bounds(b: Seq<u8>, pat: Seq<u8>, from: int)
    ensures
        first_from(b, pat, from) matches Some(k) ==> from <= k && k + pat.len() <= b.len(),
    decreases b.len() + 1 - from,
{
    if !(from < 0 || from + pat.len() > b.len()) && b.subrange(from, from + pat.len()) != pat {
        lemma_first_from_bounds(b, pat, from + 1);
    }
}

proof fn lemma_frame_end_bounds(b: Seq<u8>)
    ensures
        spec_frame_end(b) matches Some((e, d)) ==> 0 <= e && e + d <= b.len(),
{
    lemma_first_from_bounds(b, seq![13u8, 10u8, 13u8, 10u8], 0);
    lemma_first_from_bounds(b, seq![10u8, 10u8], 0);
}

/// Takes the next complete frame off the front of the buffer, with its
/// delimiter. Without a complete frame the buffer is left as it is, and
/// holding more than a frame may is an error.
pub fn next_frame(pending: &mut Vec<u8>) -> (r: Result<Option<Vec<u8>>, LLMError>)
    ensures
        match spec_frame_end(old(pending)@) {
            Some((e, d)) => match r {
                Ok(Some(f)) => f@ == old(pending)@.subrange(0, e)
                    && final(pending)@ == old(pending)@.subrange(e + d, old(pending)@.len() as int),
                _ => false,
            },
            None => final(pending)@ == old(pending)@ && if old(pending)@.len() > MAX_SSE_FRAME_BYTES {
                error_of_is(r, protocol_error_view("Google SSE frame exceeds the size limit"@))
            } else {
                r matches Ok(None)
            },
        },
{
    proof {
        lemma_frame_end_bounds(pending@);
    }
    match find_sse_frame_end(pending.as_slice()) {
        None => {
            if pending.len() > MAX_SSE_FRAME_BYTES {
                Err(protocol_error("Google SSE frame exceeds the size limit"))
            } else {
                Ok(None)
            }
        },
        Some((end, delim)) => {
            let n = pending.len();
            let mut frame: Vec<u8> = Vec::new();
            let mut rest: Vec<u8> = Vec::new();
            let mut i: usize = 0;
            while i < n
                invariant
                    n == pending@.len(),
                    end + delim <= n,
                    i <= n,
                    frame@ == pending@.subrange(0, if i < end { i as int } else { end as int }),
                    rest@ == pending@.subrange(end + delim, if i < end + delim { (end + delim) as int } else { i as int }),
                decreases n - i,
            {
                if i < end {
                    frame.push(pending[i]);
                } else if i >= end + delim {
                    rest.push(pending[i]);
                }
                i = i + 1;
            }
            *pending = rest;
            Ok(Some(frame))
        },
    }
}

/// The text of bytes that are valid UTF-8.
///
/// Wrapper of `std::str::from_utf8`, which accepts exactly the valid UTF-8
/// byte strings and gives the text they encode.
#[verifier::external_body]
fn utf8_text(bytes: &[u8]) -> (r: Option<String>)
    ensures
        r is Some <==> valid_utf8(bytes@),
        r matches Some(s) ==> encode_utf8(s@) == bytes@,
{
    match std::str::from_utf8(bytes) {
        Ok(s) => Some(s.to_string()),
        Err(_) => None,
    }
}

/// The text split at each line feed.
pub open spec fn lines_of(t: Seq<char>) -> Seq<Seq<char>>
    decreases t.len(),
{
    if t.len() == 0 {
        seq![Seq::empty()]
    } else {
        let prev = lines_of(t.drop_last());
        if t.last() == '\n' {
            prev.push(Seq::empty())
        } else {
            prev.update(prev.len() - 1, prev.last().push(t.last()))
        }
    }
}

proof fn lemma_lines_nonempty(t: Seq<char>)
    ensures
        lines_of(t).len() >= 1,
    decreases t.len(),
{
    if t.len() > 0 {
        lemma_lines_nonempty(t.drop_last());
    }
}

/// A line without its trailing carriage returns.
pub open spec fn trim_cr(l: Seq<char>) -> Seq<char>
    decreases l.len(),
{
    if l.len() > 0 && l.last() == '\r' {
        trim_cr(l.drop_last())
    } else {
        l
    }
}

/// The value of a `data:` line, without one space that follows the colon.
pub open spec fn data_value(line: Seq<char>) -> Option<Seq<char>> {
    let t = trim_cr(line);
    if has_prefix(t, "data:"@) {
        let v = t.subrange(5, t.len() as int);
        Some(if has_prefix(v, " "@) { v.subrange(1, v.len() as int) } else { v })
    } else {
        None
    }
}

/// The data of the lines: their `data:` values joined by line feeds.
pub open spec fn data_of(lines: Seq<Seq<char>>) -> Seq<char>
    decreases lines.len(),
{
    if lines.len() == 0 {
        Seq::empty()
    } else {
        let d = data_of(lines.drop_last());
        match data_value(lines.last()) {
            None => d,
            Some(v) => if d.len() == 0 { v } else { d + seq!['\n'] + v },
        }
    }
}

fn trimmed_end(line: &Vec<char>) -> (r: usize)
    ensures
        r <= line@.len(),
        trim_cr(line@) == line@.subrange(0, r as int),
{
    let mut e: usize = line.len();
    assert(line@.subrange(0, e as int) =~= line@);
    while e > 0 && line[e - 1] == '\r'
        invariant
            e <= line@.len(),
            trim_cr(line@) == trim_cr(line@.subrange(0, e as int)),
        decreases e,
    {
        assert(line@.subrange(0, e as int).drop_last() =~= line@.subrange(0, e - 1));
        e = e - 1;
    }
    e
}

fn line_data(line: &Vec<char>) -> (r: Option<Vec<char>>)
    ensures
        match r {
            Some(v) => data_value(line@) == Some(v@),
            None => data_value(line@) is None,
        },
{
    let e = trimmed_end(line);
    let ghost t = line@.subrange(0, e as int);
    if e >= 5 && line[0] == 'd' && line[1] == 'a' && line[2] == 't' && line[3] == 'a' && line[4] == ':' {
        proof {
            reveal_strlit("data:");
            assert(t.subrange(0, 5) =~= "data:"@);
        }
        if e >= 6 && line[5] == ' ' {
            proof {
                reveal_strlit(" ");
                let v = t.subrange(5, t.len() as int);
                assert(v.subrange(0, 1) =~= " "@);
                assert(v.subrange(1, v.len() as int) =~= line@.subrange(6, e as int));
            }
            Some(slice_chars(line, 6, e))
        } else {
            proof {
                reveal_strlit(" ");
                let v = t.subrange(5, t.len() as int);
                if has_prefix(v, " "@) {
                    assert(v[0] == " "@[0]);
                }
                assert(v =~= line@.subrange(5, e as int));
            }
            Some(slice_chars(line, 5, e))
        }
    } else {
        proof {
            reveal_strlit("data:");
            if has_prefix(t, "data:"@) {
                assert(t[0] == "data:"@[0]);
                assert(t[1] == "data:"@[1]);
                assert(t[2] == "data:"@[2]);
                assert(t[3] == "data:"@[3]);
                assert(t[4] == "data:"@[4]);
            }
        }
        None
    }
}

fn add_data(data: &mut Vec<char>, line: &Vec<char>)
    ensures
        final(data)@ == match data_value(line@) {
            None => old(data)@,
            Some(v) => if old(data)@.len() == 0 { v } else { old(data)@ + seq!['\n'] + v },
        },
{
    match line_data(line) {
        None => {},
        Some(v) => {
            if data.len() > 0 {
                data.push('\n');
            }
            let ghost before = data@;
            let mut i: usize = 0;
            while i < v.len()
                invariant
                    i <= v@.len(),
                    data@ == before + v@.subrange(0, i as int),
                decreases v@.len() - i,
            {
                data.push(v[i]);
                assert(before + v@.subrange(0, i + 1) =~= (before + v@.subrange(0, i as int)).push(v@[i as int]));
                i = i + 1;
            }
            assert(v@.subrange(0, v@.len() as int) =~= v@);
            assert(before + v@ =~= if old(data)@.len() == 0 { v@ } else { old(data)@ + seq!['\n'] + v@ });
        },
    }
}

/// The data a frame carries: its bytes must be UTF-8; the values of its
/// `data:` lines are joined by line feeds; a frame without data gives none.
pub open spec fn spec_frame_data(frame: Seq<u8>) -> Result<Option<Seq<char>>, ErrorView> {
    if !valid_utf8(frame) {
        Err(protocol_error_view("Google SSE frame is not valid UTF-8"@))
    } else {
        let d = data_of(lines_of(vstd::utf8::decode_utf8(frame)));
        if d.len() == 0 { Ok(None) } else { Ok(Some(d)) }
    }
}

/// Reads the data of a frame.
pub fn frame_data(frame: &[u8]) -> (r: Result<Option<String>, LLMError>)
    ensures
        match (r, spec_frame_data(frame@)) {
            (Ok(Some(a)), Ok(Some(b))) => a@ == b,
            (Ok(None), Ok(None)) => true,
            (Err(e), Err(w)) => e@ == w,
            _ => false,
        },
{
    let text = match utf8_text(frame) {
        Some(t) => t,
        None => {
            return Err(protocol_error("Google SSE frame is not valid UTF-8"));
        },
    };
    proof {
        vstd::utf8::encode_utf8_decode_utf8(text@);
    }
    let chars = chars_of(text.as_str());
    let ghost t = chars@;
    let mut data: Vec<char> = Vec::new();
    let mut cur: Vec<char> = Vec::new();
    let ghost mut done: Seq<Seq<char>> = Seq::empty();
    let mut i: usize = 0;
    proof {
        assert(t.take(0) =~= Seq::<char>::empty());
        assert(lines_of(t.take(0)) =~= done.push(cur@));
        assert(data@ =~= data_of(done));
    }
    while i < chars.len()
        invariant
            t == chars@,
            i <= t.len(),
            lines_of(t.take(i as int)) == done.push(cur@),
            data@ == data_of(done),
        decreases t.len() - i,
    {
        let c = chars[i];
        proof {
            assert(t.take(i + 1).drop_last() =~= t.take(i as int));
            assert(t.take(i + 1).last() == c);
        }
        if c == '\n' {
            add_data(&mut data, &cur);
            proof {
                assert(done.push(cur@).drop_last() =~= done);
                done = done.push(cur@);
            }
            cur = Vec::new();
            proof {
                assert(lines_of(t.take(i + 1)) =~= done.push(cur@));
            }
        } else {
            let ghost old_cur = cur@;
            cur.push(c);
            proof {
                assert(done.push(old_cur).update(done.len() as int, old_cur.push(c)) =~= done.push(cur@));
            }
        }
        i = i + 1;
    }
    add_data(&mut data, &cur);
    proof {
        assert(t.take(t.len() as int) =~= t);
        assert(done.push(cur@).drop_last() =~= done);
    }
    if data.len() == 0 {
        Ok(None)
    } else {
        Ok(Some(string_from_chars(data.as_slice())))
    }
}

/// An event of the stream: the visible text of its candidate, the usage it
/// reports, the candidate's finish reason and whether the candidate holds
/// a function call.
#[derive(Debug)]
pub struct SseEvent {
    pub text: String,
    pub usage: Option<TokenUsage>,
    pub finish_reason: Option<String>,
    pub has_function_calls: bool,
}

/// The read form of an event.
pub type EventView = (Seq<char>, Option<TokenUsage>, Option<Seq<char>>, bool);

/// The read form of an event value.
pub open spec fn event_view(e: SseEvent) -> EventView {
    (e.text@, e.usage, match e.finish_reason {
        Some(f) => Some(f@),
        None => None,
    }, e.has_function_calls)
}

/// The parts of a candidate's content; none when they are missing.
pub open spec fn candidate_parts(c: JsonView) -> Seq<JsonView> {
    match get_key(c, "content"@) {
        Some(content) => match get_key(content, "parts"@) {
            Some(JsonView::Array(p)) => p,
            _ => Seq::empty(),
        },
        None => Seq::empty(),
    }
}

/// Some part holds a function call.
pub open spec fn has_call_part(parts: Seq<JsonView>) -> bool {
    exists|j: int| 0 <= j < parts.len() && #[trigger] get_key(parts[j], "functionCall"@) is Some
}

/// A candidate's finish reason, when it is a string.
pub open spec fn finish_of(c: JsonView) -> Option<Seq<char>> {
    match get_key(c, "finishReason"@) {
        Some(f) => as_str_view(f),
        None => None,
    }
}

/// The first candidate of an event, when `candidates` is a non-empty array.
pub open spec fn event_candidate(v: JsonView) -> Option<JsonView> {
    match get_key(v, "candidates"@) {
        Some(JsonView::Array(c)) => if c.len() > 0 { Some(c[0]) } else { None },
        _ => None,
    }
}

/// The event a frame's JSON carries. Without a candidate, a blocked prompt
/// is an error and a usage report alone is an event without text.
pub open spec fn spec_sse_event(v: JsonView) -> Result<Option<EventView>, ErrorView> {
    match spec_parse_usage(get_key(v, "usageMetadata"@)) {
        Err(e) => Err(e),
        Ok(usage) => match event_candidate(v) {
            None => match block_reason(v) {
                Some(r) => Err(ErrorView::ContentFiltered("Google blocked the prompt ("@ + r + ")"@)),
                None => match usage {
                    Some(u) => Ok(Some((Seq::empty(), Some(u), None, false))),
                    None => Ok(None),
                },
            },
            Some(c) => {
                let parts = candidate_parts(c);
                match spec_visible_text(parts) {
                    Err(e) => Err(e),
                    Ok(text) => Ok(Some((text, usage, finish_of(c), has_call_part(parts)))),
                }
            },
        },
    }
}

fn any_call_part(parts: &Vec<JsonValue>) -> (r: bool)
    ensures
        r == has_call_part(items_view(parts@)),
{
    proof {
        lemma_items_view(parts@);
    }
    let mut j: usize = 0;
    while j < parts.len()
        invariant
            j <= parts@.len(),
            items_view(parts@).len() == parts@.len(),
            forall|t: int| 0 <= t < parts@.len() ==> #[trigger] items_view(parts@)[t] == jv(&parts@[t]),
            forall|t: int| 0 <= t < j ==> get_key(items_view(parts@)[t], "functionCall"@) is None,
        decreases parts@.len() - j,
    {
        if parts[j].get("functionCall").is_some() {
            assert(get_key(items_view(parts@)[j as int], "functionCall"@) is Some);
            return true;
        }
        j = j + 1;
    }
    false
}

/// Reads the event of a frame's JSON value.
pub fn sse_event(v: &JsonValue) -> (r: Result<Option<SseEvent>, LLMError>)
    ensures
        match spec_sse_event(v@) {
            Err(e) => error_of_is(r, e),
            Ok(Some(ev)) => match r {
                Ok(Some(x)) => event_view(x) == ev,
                _ => false,
            },
            Ok(None) => r matches Ok(None),
        },
{
    let usage = parse_usage(v.get("usageMetadata"))?;
    let candidate = match v.get("candidates") {
        Some(JsonValue::Array(c)) => {
            proof {
                lemma_items_view(c@);
            }
            if c.len() > 0 {
                Some(&c[0])
            } else {
                None
            }
        },
        _ => None,
    };
    match candidate {
        None => {
            let reason = match v.get("promptFeedback") {
                Some(f) => match f.get("blockReason") {
                    Some(x) => x.as_str(),
                    None => None,
                },
                None => None,
            };
            match reason {
                Some(x) => {
                    let mut m = crate::text::to_owned_string("Google blocked the prompt (");
                    crate::text::push_str(&mut m, x);
                    crate::text::push_str(&mut m, ")");
                    Err(LLMError::ContentFiltered(m))
                },
                None => match usage {
                    Some(u) => {
                        let e = SseEvent { text: String::new(), usage: Some(u), finish_reason: None, has_function_calls: false };
                        Ok(Some(e))
                    },
                    None => Ok(None),
                },
            }
        },
        Some(c) => {
            let empty: Vec<JsonValue> = Vec::new();
            let parts: &Vec<JsonValue> = match c.get("content") {
                Some(content) => match content.get("parts") {
                    Some(JsonValue::Array(p)) => p,
                    _ => &empty,
                },
                None => &empty,
            };
            proof {
                assert(items_view(empty@) =~= Seq::<JsonView>::empty());
            }
            let text = visible_text(parts)?;
            let calls = any_call_part(parts);
            let finish = match c.get("finishReason") {
                Some(f) => match f.as_str() {
                    Some(x) => Some(crate::text::to_owned_string(x)),
                    None => None,
                },
                None => None,
            };
            Ok(Some(SseEvent { text, usage, finish_reason: finish, has_function_calls: calls }))
        },
    }
}

/// The error of a frame whose data is not JSON, given the parser's message.
pub fn sse_json_error(detail: &str) -> (r: LLMError)
    ensures
        r@ == protocol_error_view("invalid Google SSE JSON: "@ + detail@),
{
    let mut m = crate::text::to_owned_string("invalid Google SSE JSON: ");
    crate::text::push_str(&mut m, detail);
    protocol_error(m.as_str())
}

/// What the stream has seen so far: the latest usage report and the
/// finish reason of its terminal candidate.
pub struct SseState {
    pub latest_usage: Option<TokenUsage>,
    pub terminal: Option<FinishReason>,
}

/// What the stream emits.
pub enum StreamOutput {
    /// A chunk of text.
    Text(String),
    /// An error; the stream ends with it.
    Fail(LLMError),
    /// The final chunk, without text.
    Final { reason: FinishReason, usage: Option<TokenUsage> },
}

/// The read form of an output.
pub enum OutputView {
    Text(Seq<char>),
    Fail(ErrorView),
    Final(FinishReason, Option<TokenUsage>),
}

/// The read form of an output value.
pub open spec fn output_view(o: StreamOutput) -> OutputView {
    match o {
        StreamOutput::Text(t) => OutputView::Text(t@),
        StreamOutput::Fail(e) => OutputView::Fail(e@),
        StreamOutput::Final { reason, usage } => OutputView::Final(reason, usage),
    }
}

/// The read forms of outputs.
pub open spec fn outputs_view(s: Seq<StreamOutput>) -> Seq<OutputView> {
    Seq::new(s.len(), |k: int| output_view(s[k]))
}

/// The state after an event: a usage report replaces the last one.
pub open spec fn usage_after(state: (Option<TokenUsage>, Option<FinishReason>), ev: EventView) -> Option<TokenUsage> {
    if ev.1 is Some { ev.1 } else { state.0 }
}

/// An event carries content: text, a finish reason or a function call.
pub open spec fn carries_content(ev: EventView) -> bool {
    ev.0.len() > 0 || ev.2 is Some || ev.3
}

/// The stream's answer to an event: the new state and what it emits.
/// After the terminal candidate no content may follow; text is emitted;
/// a finish reason without function calls becomes the terminal one, and
/// one with calls, or one Gemini reports as a failure, ends the stream.
pub open spec fn spec_on_event(state: (Option<TokenUsage>, Option<FinishReason>), ev: EventView)
    -> ((Option<TokenUsage>, Option<FinishReason>), Seq<OutputView>)
{
    let usage = usage_after(state, ev);
    if state.1 is Some && carries_content(ev) {
        ((usage, state.1), seq![OutputView::Fail(protocol_error_view("Google SSE emitted content after its terminal candidate"@))])
    } else {
        let texts = if ev.0.len() > 0 { seq![OutputView::Text(ev.0)] } else { Seq::empty() };
        match ev.2 {
            None => ((usage, state.1), texts),
            Some(reason) => match spec_classify_finish(reason, ev.3) {
                Ok(fr) => if !ev.3 {
                    ((usage, Some(fr)), texts)
                } else {
                    ((usage, state.1), texts.push(OutputView::Fail(
                        protocol_error_view("Google text stream returned an unexpected function call"@))))
                },
                Err(e) => ((usage, state.1), texts.push(OutputView::Fail(e))),
            },
        }
    }
}

/// The usage the stream keeps is the latest report: an event that reports
/// usage replaces what was kept, and one that reports none keeps it.
pub proof fn law_latest_usage_wins(state: (Option<TokenUsage>, Option<FinishReason>), ev: EventView)
    ensures
        ev.1 is Some ==> spec_on_event(state, ev).0.0 == ev.1,
        ev.1 is None ==> spec_on_event(state, ev).0.0 == state.0,
{
}

/// The state after a series of events, from `state`.
pub open spec fn state_after(state: (Option<TokenUsage>, Option<FinishReason>), evs: Seq<EventView>) -> (Option<TokenUsage>, Option<FinishReason>)
    decreases evs.len(),
{
    if evs.len() == 0 {
        state
    } else {
        state_after(spec_on_event(state, evs[0]).0, evs.skip(1))
    }
}

/// After a series of events, the kept usage is that of the last event that
/// reported one.
pub proof fn law_usage_is_last_report(state: (Option<TokenUsage>, Option<FinishReason>), evs: Seq<EventView>, j: int)
    requires
        0 <= j < evs.len(),
        evs[j].1 is Some,
        forall|t: int| j < t < evs.len() ==> (#[trigger] evs[t]).1 is None,
    ensures
        state_after(state, evs).0 == evs[j].1,
    decreases evs.len(),
{
    let next = spec_on_event(state, evs[0]).0;
    let rest = evs.skip(1);
    if j == 0 {
        lemma_usage_kept(next, rest);
    } else {
        assert forall|t: int| j - 1 < t < rest.len() implies (#[trigger] rest[t]).1 is None by {
            assert(rest[t] == evs[t + 1]);
        }
        assert(rest[j - 1] == evs[j]);
        law_usage_is_last_report(next, rest, j - 1);
    }
}

proof fn lemma_usage_kept(state: (Option<TokenUsage>, Option<FinishReason>), evs: Seq<EventView>)
    requires
        forall|t: int| 0 <= t < evs.len() ==> (#[trigger] evs[t]).1 is None,
    ensures
        state_after(state, evs).0 == state.0,
    decreases evs.len(),
{
    if evs.len() > 0 {
        let rest = evs.skip(1);
        assert forall|t: int| 0 <= t < rest.len() implies (#[trigger] rest[t]).1 is None by {
            assert(rest[t] == evs[t + 1]);
        }
        assert(evs[0].1 is None);
        lemma_usage_kept(spec_on_event(state, evs[0]).0, rest);
    }
}

/// The state as a pair.
pub open spec fn state_view(s: SseState) -> (Option<TokenUsage>, Option<FinishReason>) {
    (s.latest_usage, s.terminal)
}

impl SseState {
    /// A stream that has seen nothing.
    pub fn new() -> (r: SseState)
        ensures
            r.latest_usage is None,
            r.terminal is None,
    {
        SseState { latest_usage: None, terminal: None }
    }

    /// Takes in one event; returns what the stream emits for it. A
    /// `Fail` among them ends the stream.
    pub fn on_event(&mut self, ev: SseEvent) -> (r: Vec<StreamOutput>)
        ensures
            (state_view(*final(self)), outputs_view(r@)) == spec_on_event(state_view(*old(self)), event_view(ev)),
    {
        let ghost evv = event_view(ev);
        let mut out: Vec<StreamOutput> = Vec::new();
        if ev.usage.is_some() {
            self.latest_usage = ev.usage;
        }
        let has_text = chars_of(ev.text.as_str()).len() > 0;
        if self.terminal.is_some() && (has_text || ev.finish_reason.is_some() || ev.has_function_calls) {
            out.push(StreamOutput::Fail(protocol_error("Google SSE emitted content after its terminal candidate")));
            proof {
                assert(outputs_view(out@) =~= seq![OutputView::Fail(
                    protocol_error_view("Google SSE emitted content after its terminal candidate"@))]);
            }
            return out;
        }
        if has_text {
            out.push(StreamOutput::Text(ev.text));
        }
        let ghost texts = outputs_view(out@);
        proof {
            assert(texts =~= if evv.0.len() > 0 { seq![OutputView::Text(evv.0)] } else { Seq::<OutputView>::empty() });
        }
        match ev.finish_reason {
            None => {},
            Some(reason) => {
                match classify_finish(reason.as_str(), ev.has_function_calls) {
                    Ok(fr) => {
                        if !ev.has_function_calls {
                            self.terminal = Some(fr);
                        } else {
                            out.push(StreamOutput::Fail(protocol_error("Google text stream returned an unexpected function call")));
                            proof {
                                assert(outputs_view(out@) =~= texts.push(OutputView::Fail(
                                    protocol_error_view("Google text stream returned an unexpected function call"@))));
                            }
                        }
                    },
                    Err(e) => {
                        let ghost ew = e@;
                        out.push(StreamOutput::Fail(e));
                        proof {
                            assert(outputs_view(out@) =~= texts.push(OutputView::Fail(ew)));
                        }
                    },
                }
            },
        }
        out
    }

    /// The last output of a stream whose bytes have ended, given what was
    /// left in the buffer: leftover bytes other than ASCII white space are
    /// an incomplete frame; else the final chunk, or an error when no
    /// terminal candidate came.
    pub fn finish(&self, rest: &[u8]) -> (r: StreamOutput)
        ensures
            output_view(r) == if exists|j: int| 0 <= j < rest@.len() && !ascii_space(#[trigger] rest@[j]) {
                OutputView::Fail(protocol_error_view("Google SSE ended with an incomplete frame"@))
            } else {
                match self.terminal {
                    Some(reason) => OutputView::Final(reason, self.latest_usage),
                    None => OutputView::Fail(protocol_error_view("Google SSE ended before a terminal finishReason"@)),
                }
            },
    {
        let mut j: usize = 0;
        while j < rest.len()
            invariant
                j <= rest@.len(),
                forall|t: int| 0 <= t < j ==> ascii_space(#[trigger] rest@[t]),
            decreases rest@.len() - j,
        {
            let b = rest[j];
            if !(b == 32 || b == 9 || b == 10 || b == 12 || b == 13) {
                return StreamOutput::Fail(protocol_error("Google SSE ended with an incomplete frame"));
            }
            j = j + 1;
        }
        match self.terminal {
            Some(reason) => StreamOutput::Final { reason, usage: self.latest_usage },
            None => StreamOutput::Fail(protocol_error("Google SSE ended before a terminal finishReason")),
        }
    }
}

/// `u8::is_ascii_whitespace`: space, tab, line feed, form feed and
/// carriage return.
pub open spec fn ascii_space(b: u8) -> bool {
    b == 32 || b == 9 || b == 10 || b == 12 || b == 13
}

/// Law: once the terminal candidate has come, any event with content ends
/// the stream with an error and leaves the terminal reason as it was.
pub proof fn law_nothing_after_terminal(state: (Option<TokenUsage>, Option<FinishReason>), ev: EventView)
    requires
        state.1 is Some,
        carries_content(ev),
    ensures
        spec_on_event(state, ev).1 == seq![OutputView::Fail(
            protocol_error_view("Google SSE emitted content after its terminal candidate"@))],
        spec_on_event(state, ev).0.1 == state.1,
{
}

/// Law: the terminal reason, once set, never changes, whatever the event.
pub proof fn law_terminal_is_kept(state: (Option<TokenUsage>, Option<FinishReason>), ev: EventView)
    requires
        state.1 is Some,
    ensures
        spec_on_event(state, ev).0.1 == state.1,
{
}

} // verus!
