//! A scripted LLM provider for tests. It answers with the responses it was
//! given, in order (cycling through them when asked to), with texts set as
//! plain responses when no full response was added, or with a fixed mock
//! response; it can be made to fail, records every call, and estimates token
//! usage when a response carries none.
//!
//! Calls are given the request's configuration as a value of any type `C`,
//! which the provider only keeps in its call history.
use vstd::prelude::*;
use crate::chat::{
    ChatMessage, CompletionView, ErrorView, FinishReason, LLMChunk, LLMError, LLMFeature, LLMResponse, Role, TokenUsage,
    usage_of,
};
use crate::facts::{utf8_len, utf8_byte_len};
use crate::fixtures::{spaced_words, split_words, word_deltas};
use crate::text::{chars_of, to_owned_string};

verus! {

/// Mathematical form of a message.
pub open spec fn message_view(m: ChatMessage) -> (Role, Seq<char>, Option<Seq<char>>) {
    (m.role, m.content@, m.name.deep_view())
}

/// The views of a list of messages.
pub open spec fn messages_view(ms: Seq<ChatMessage>) -> Seq<(Role, Seq<char>, Option<Seq<char>>)> {
    ms.map_values(|m: ChatMessage| message_view(m))
}

/// The UTF-8 bytes of all the messages' contents.
pub open spec fn messages_bytes(ms: Seq<ChatMessage>) -> nat
    decreases ms.len(),
{
    if ms.len() == 0 {
        0
    } else {
        messages_bytes(ms.drop_last()) + utf8_len(ms.last().content@)
    }
}

/// A token estimate of a prompt: a quarter of its bytes, as a `u32`.
pub open spec fn prompt_estimate(ms: Seq<ChatMessage>) -> u32 {
    (messages_bytes(ms) / 4) as u32
}

/// A token estimate of a completion: a quarter of its bytes, as a `u32`.
pub open spec fn completion_estimate(content: Seq<char>) -> u32 {
    (utf8_len(content) / 4) as u32
}

/// One recorded call.
pub struct MockCall<C> {
    pub messages: Vec<ChatMessage>,
    pub config: Option<C>,
}

/// The features a mock supports at first.
pub open spec fn initial_features() -> Seq<LLMFeature> {
    seq![LLMFeature::Streaming, LLMFeature::SystemMessages]
}

/// A plain text response of the mock.
pub open spec fn mock_text(content: Seq<char>) -> CompletionView {
    CompletionView {
        content,
        finish_reason: FinishReason::Stop,
        usage: None,
        model: Some("mock-model"@),
        metadata: Seq::empty(),
    }
}

/// Mathematical form of the mock's state.
pub struct MockView<C> {
    pub responses: Seq<CompletionView>,
    pub texts: Seq<Seq<char>>,
    pub index: int,
    pub cycle: bool,
    pub calls: Seq<(Seq<(Role, Seq<char>, Option<Seq<char>>)>, Option<C>)>,
    pub should_error: bool,
    pub error_message: Seq<char>,
    pub latency_ms: u64,
    pub features: Seq<LLMFeature>,
}

/// The position after an answer from a list of `len` entries: the next
/// one, wrapping around when cycling, else staying on the last.
pub open spec fn advance(index: int, len: nat, cycle: bool) -> int {
    if cycle {
        (index + 1) % (len as int)
    } else if index < len - 1 {
        index + 1
    } else {
        index
    }
}

/// The next answer and the position after it: the added responses first,
/// else the texts, else the mock response.
pub open spec fn next_answer<C>(v: MockView<C>) -> (CompletionView, int) {
    if v.responses.len() > 0 {
        (v.responses[v.index], advance(v.index, v.responses.len(), v.cycle))
    } else if v.texts.len() > 0 {
        (mock_text(v.texts[v.index]), advance(v.index, v.texts.len(), v.cycle))
    } else {
        (mock_text("Mock response"@), v.index)
    }
}

/// The position is that of an entry of the list answers come from.
pub open spec fn answerable<C>(v: MockView<C>) -> bool {
    &&& v.responses.len() > 0 ==> 0 <= v.index < v.responses.len()
    &&& v.responses.len() == 0 && v.texts.len() > 0 ==> 0 <= v.index < v.texts.len()
}

/// A response with its usage estimated from the prompt when it has none.
pub open spec fn with_usage(r: CompletionView, messages: Seq<ChatMessage>) -> CompletionView {
    if r.usage is None {
        CompletionView {
            usage: Some(usage_of(prompt_estimate(messages), completion_estimate(r.content))),
            ..r
        }
    } else {
        r
    }
}

/// The state after a call has been recorded.
pub open spec fn recorded<C>(v: MockView<C>, messages: Seq<ChatMessage>, config: Option<C>) -> MockView<C> {
    MockView { calls: v.calls.push((messages_view(messages), config)), ..v }
}

/// Chunk `i` of a stream of `deltas` for `answer`: its delta, and, on the
/// last chunk only, the finish reason and the usage (estimated from
/// `messages` when the answer has none).
pub open spec fn chunk_ok(c: LLMChunk, i: int, deltas: Seq<Seq<char>>, answer: CompletionView, messages: Seq<ChatMessage>) -> bool {
    let last = i == deltas.len() - 1;
    &&& c.delta@ == deltas[i]
    &&& c.is_final == last
    &&& c.finish_reason == if last { Some(answer.finish_reason) } else { None }
    &&& c.usage == if last { with_usage(answer, messages).usage } else { None }
}

/// `chunks` stream `answer`: its words, each after the first with a space
/// before it (see `chunk_ok`).
pub open spec fn streamed(chunks: Seq<LLMChunk>, answer: CompletionView, messages: Seq<ChatMessage>) -> bool {
    let deltas = spaced_words(split_words(answer.content));
    &&& chunks.len() == deltas.len()
    &&& forall|i: int| 0 <= i < deltas.len() ==> #[trigger] chunk_ok(chunks[i], i, deltas, answer, messages)
}

/// The features without `f`.
pub open spec fn without_feature(fs: Seq<LLMFeature>, f: LLMFeature) -> Seq<LLMFeature>
    decreases fs.len(),
{
    if fs.len() == 0 {
        fs
    } else if fs.last() == f {
        without_feature(fs.drop_last(), f)
    } else {
        without_feature(fs.drop_last(), f).push(fs.last())
    }
}

/// The position after `k` answers from a list of `len` entries, starting
/// at the first.
pub open spec fn position_after(len: nat, cycle: bool, k: nat) -> int
    decreases k,
{
    if k == 0 {
        0
    } else {
        advance(position_after(len, cycle, (k - 1) as nat), len, cycle)
    }
}

/// Answering in turn from `len` entries, the `k`-th answer (counting from
/// zero) comes from entry `k` modulo `len` when cycling, else from entry
/// `k` until the last, which answers from then on.
pub proof fn law_answers_follow_the_script(len: nat, cycle: bool, k: nat)
    requires
        len > 0,
    ensures
        position_after(len, cycle, k) == if cycle {
            (k as int) % (len as int)
        } else if k < len {
            k as int
        } else {
            len - 1
        },
    decreases k,
{
    if k > 0 {
        law_answers_follow_the_script(len, cycle, (k - 1) as nat);
        let p = position_after(len, cycle, (k - 1) as nat);
        assert(position_after(len, cycle, k) == advance(p, len, cycle));
        if cycle {
            vstd::arithmetic::div_mod::lemma_add_mod_noop_right(1, (k - 1) as int, len as int);
            assert(p == ((k - 1) as int) % (len as int));
            assert((1 + p) % (len as int) == (k as int) % (len as int));
            assert(advance(p, len, cycle) == (p + 1) % (len as int));
        }
    } else {
        vstd::arithmetic::div_mod::lemma_small_mod(0, len);
    }
}

/// A scripted LLM provider.
pub struct MockLLMProvider<C> {
    name: String,
    responses: Vec<LLMResponse>,
    legacy_responses: Vec<String>,
    response_index: usize,
    cycle_responses: bool,
    call_history: Vec<MockCall<C>>,
    should_error: bool,
    error_message: String,
    latency_ms: u64,
    features: Vec<LLMFeature>,
}

fn copy_messages(ms: &Vec<ChatMessage>) -> (r: Vec<ChatMessage>)
    ensures
        messages_view(r@) == messages_view(ms@),
{
    let mut out: Vec<ChatMessage> = Vec::new();
    let mut i: usize = 0;
    while i < ms.len()
        invariant
            i <= ms@.len(),
            messages_view(out@) == messages_view(ms@.take(i as int)),
        decreases ms@.len() - i,
    {
        let ghost before = out@;
        out.push(ms[i].copy());
        proof {
            assert(out@ =~= before.push(out@.last()));
            assert(messages_view(out@) =~= messages_view(before).push(message_view(ms@[i as int])));
            assert(messages_view(ms@.take(i + 1)) =~= messages_view(ms@.take(i as int)).push(message_view(ms@[i as int])));
        }
        i = i + 1;
    }
    assert(ms@.take(i as int) =~= ms@);
    out
}

/// A quarter of the bytes of the messages, as `Self::estimate_tokens` of
/// the prompt.
fn estimate_prompt(ms: &Vec<ChatMessage>) -> (r: u32)
    requires
        messages_bytes(ms@) <= usize::MAX,
    ensures
        r == prompt_estimate(ms@),
{
    let mut total: u128 = 0;
    let mut i: usize = 0;
    while i < ms.len()
        invariant
            i <= ms@.len(),
            messages_bytes(ms@) <= usize::MAX,
            total == messages_bytes(ms@.take(i as int)),
        decreases ms@.len() - i,
    {
        proof {
            assert(ms@.take(i + 1).drop_last() =~= ms@.take(i as int));
            lemma_bytes_prefix(ms@, i + 1);
        }
        let chars = chars_of(ms[i].content.as_str());
        let n = utf8_byte_len(&chars);
        total = total + n;
        i = i + 1;
    }
    assert(ms@.take(i as int) =~= ms@);
    (total / 4) as u32
}

/// A prefix of the messages has no more bytes than all of them.
proof fn lemma_bytes_prefix(ms: Seq<ChatMessage>, k: int)
    requires
        0 <= k <= ms.len(),
    ensures
        messages_bytes(ms.take(k)) <= messages_bytes(ms),
    decreases ms.len() - k,
{
    if k < ms.len() {
        lemma_bytes_prefix(ms, k + 1);
        assert(ms.take(k + 1).drop_last() =~= ms.take(k));
    } else {
        assert(ms.take(k) =~= ms);
    }
}

/// A quarter of the bytes of a text.
fn estimate_completion(content: &String) -> (r: u32)
    ensures
        r == completion_estimate(content@),
{
    let chars = chars_of(content.as_str());
    let n = utf8_byte_len(&chars);
    (n / 4) as u32
}

impl<C> MockLLMProvider<C> {
    /// The state of the mock.
    pub closed spec fn view(&self) -> MockView<C> {
        MockView {
            responses: self.responses@.map_values(|r: LLMResponse| r@),
            texts: self.legacy_responses@.map_values(|s: String| s@),
            index: self.response_index as int,
            cycle: self.cycle_responses,
            calls: self.call_history@.map_values(|c: MockCall<C>| (messages_view(c.messages@), c.config)),
            should_error: self.should_error,
            error_message: self.error_message@,
            latency_ms: self.latency_ms,
            features: self.features@,
        }
    }

    /// A mock that answers `Mock response` and supports streaming and
    /// system messages.
    pub fn new(name: &str) -> (r: Self)
        ensures
            r.view() == (MockView::<C> {
                responses: Seq::empty(),
                texts: Seq::empty(),
                index: 0,
                cycle: false,
                calls: Seq::empty(),
                should_error: false,
                error_message: "Mock error"@,
                latency_ms: 0,
                features: initial_features(),
            }),
    {
        let mut features: Vec<LLMFeature> = Vec::new();
        features.push(LLMFeature::Streaming);
        features.push(LLMFeature::SystemMessages);
        let r = MockLLMProvider {
            name: to_owned_string(name),
            responses: Vec::new(),
            legacy_responses: Vec::new(),
            response_index: 0,
            cycle_responses: false,
            call_history: Vec::new(),
            should_error: false,
            error_message: to_owned_string("Mock error"),
            latency_ms: 0,
            features,
        };
        assert(r.view().responses =~= Seq::empty());
        assert(r.view().texts =~= Seq::empty());
        assert(r.view().calls =~= Seq::empty());
        assert(r.view().features =~= initial_features());
        r
    }

    /// Adds a response after the added ones.
    pub fn add_response(&mut self, response: LLMResponse)
        ensures
            final(self).view() == (MockView { responses: old(self).view().responses.push(response@), ..old(self).view() }),
    {
        self.responses.push(response);
        assert(self.view().responses =~= old(self).view().responses.push(response@));
    }

    /// Turns support of a feature on or off.
    pub fn set_feature_support(&mut self, feature: LLMFeature, supported: bool)
        ensures
            final(self).view() == (MockView {
                features: if supported {
                    if old(self).view().features.contains(feature) {
                        old(self).view().features
                    } else {
                        old(self).view().features.push(feature)
                    }
                } else {
                    without_feature(old(self).view().features, feature)
                },
                ..old(self).view()
            }),
    {
        if supported {
            if !self.supports(feature) {
                self.features.push(feature);
            }
        } else {
            let mut kept: Vec<LLMFeature> = Vec::new();
            let mut i: usize = 0;
            while i < self.features.len()
                invariant
                    self.features@ == old(self).features@,
                    i <= self.features@.len(),
                    kept@ == without_feature(self.features@.take(i as int), feature),
                decreases self.features@.len() - i,
            {
                proof {
                    assert(self.features@.take(i + 1).drop_last() =~= self.features@.take(i as int));
                }
                if self.features[i] != feature {
                    kept.push(self.features[i]);
                }
                i = i + 1;
            }
            assert(self.features@.take(i as int) =~= self.features@);
            self.features = kept;
        }
    }

    /// Answers with this text from now on.
    pub fn set_response(&mut self, response: &str)
        ensures
            final(self).view() == (MockView {
                responses: Seq::empty(),
                texts: seq![response@],
                index: 0,
                ..old(self).view()
            }),
    {
        let mut texts: Vec<String> = Vec::new();
        texts.push(to_owned_string(response));
        self.legacy_responses = texts;
        self.responses = Vec::new();
        self.response_index = 0;
        assert(self.view().texts =~= seq![response@]);
        assert(self.view().responses =~= Seq::empty());
    }

    /// Answers with these texts in order from now on, cycling through them
    /// when `cycle` is set.
    pub fn set_responses(&mut self, responses: Vec<String>, cycle: bool)
        ensures
            final(self).view() == (MockView {
                responses: Seq::empty(),
                texts: responses@.map_values(|s: String| s@),
                index: 0,
                cycle,
                ..old(self).view()
            }),
    {
        self.legacy_responses = responses;
        self.responses = Vec::new();
        self.response_index = 0;
        self.cycle_responses = cycle;
        assert(self.view().responses =~= Seq::empty());
    }

    /// Fails every call with this message until cleared.
    pub fn set_error(&mut self, error_message: &str)
        ensures
            final(self).view() == (MockView { should_error: true, error_message: error_message@, ..old(self).view() }),
    {
        self.should_error = true;
        self.error_message = to_owned_string(error_message);
    }

    /// Stops failing calls.
    pub fn clear_error(&mut self)
        ensures
            final(self).view() == (MockView { should_error: false, ..old(self).view() }),
    {
        self.should_error = false;
    }

    /// Waits this long before answering.
    pub fn set_latency(&mut self, latency_ms: u64)
        ensures
            final(self).view() == (MockView { latency_ms, ..old(self).view() }),
    {
        self.latency_ms = latency_ms;
    }

    /// How long the mock waits before answering.
    pub fn latency_ms(&self) -> (r: u64)
        ensures
            r == self.view().latency_ms,
    {
        self.latency_ms
    }

    /// The number of calls recorded.
    pub fn call_count(&self) -> (r: usize)
        ensures
            r == self.view().calls.len(),
    {
        self.call_history.len()
    }

    /// The calls recorded, oldest first.
    pub fn call_history(&self) -> (r: &Vec<MockCall<C>>)
        ensures
            r@.map_values(|c: MockCall<C>| (messages_view(c.messages@), c.config)) == self.view().calls,
    {
        &self.call_history
    }

    /// The last call recorded.
    pub fn last_call(&self) -> (r: Option<&MockCall<C>>)
        ensures
            match r {
                Some(c) => self.view().calls.len() > 0 && (messages_view(c.messages@), c.config) == self.view().calls.last(),
                None => self.view().calls.len() == 0,
            },
    {
        let n = self.call_history.len();
        if n == 0 {
            None
        } else {
            Some(&self.call_history[n - 1])
        }
    }

    /// Forgets the calls recorded.
    pub fn clear_history(&mut self)
        ensures
            final(self).view() == (MockView { calls: Seq::empty(), ..old(self).view() }),
    {
        self.call_history = Vec::new();
        assert(self.view().calls =~= Seq::empty());
    }

    /// Back to the answers, error, latency and history of a new mock; the
    /// supported features are kept.
    pub fn reset(&mut self)
        ensures
            final(self).view() == (MockView::<C> {
                responses: Seq::empty(),
                texts: Seq::empty(),
                index: 0,
                cycle: false,
                calls: Seq::empty(),
                should_error: false,
                error_message: "Mock error"@,
                latency_ms: 0,
                features: old(self).view().features,
            }),
    {
        self.responses = Vec::new();
        self.legacy_responses = Vec::new();
        self.response_index = 0;
        self.cycle_responses = false;
        self.call_history = Vec::new();
        self.should_error = false;
        self.error_message = to_owned_string("Mock error");
        self.latency_ms = 0;
        assert(self.view().responses =~= Seq::empty());
        assert(self.view().texts =~= Seq::empty());
        assert(self.view().calls =~= Seq::empty());
    }

    /// Whether the next answer can be read: the position is that of an
    /// entry of the list answers come from. (It is not after a response is
    /// added once texts have been answered beyond its length.)
    pub fn can_answer(&self) -> (r: bool)
        ensures
            r == answerable(self.view()),
    {
        if self.responses.len() > 0 {
            self.response_index < self.responses.len()
        } else if self.legacy_responses.len() > 0 {
            self.response_index < self.legacy_responses.len()
        } else {
            true
        }
    }

    /// Whether the mock supports a feature.
    pub fn supports(&self, feature: LLMFeature) -> (r: bool)
        ensures
            r == self.view().features.contains(feature),
    {
        let mut i: usize = 0;
        while i < self.features.len()
            invariant
                i <= self.features@.len(),
                forall|k: int| 0 <= k < i ==> self.features@[k] != feature,
            decreases self.features@.len() - i,
        {
            if self.features[i] == feature {
                assert(self.features@[i as int] == feature);
                return true;
            }
            i = i + 1;
        }
        false
    }

    /// The provider's name.
    pub fn provider_name(&self) -> (r: &'static str)
        ensures
            r@ == "mock"@,
    {
        "mock"
    }

    /// The next answer; the position moves on.
    fn next_response(&mut self) -> (r: LLMResponse)
        requires
            answerable(old(self).view()),
        ensures
            r@ == next_answer(old(self).view()).0,
            final(self).view() == (MockView { index: next_answer(old(self).view()).1, ..old(self).view() }),
    {
        let n = self.responses.len();
        if n > 0 {
            let i = self.response_index;
            let r = self.responses[i].copy();
            if self.cycle_responses {
                self.response_index = (i + 1) % n;
            } else if i < n - 1 {
                self.response_index = i + 1;
            }
            return r;
        }
        let m = self.legacy_responses.len();
        if m > 0 {
            let i = self.response_index;
            let content = self.legacy_responses[i].clone();
            if self.cycle_responses {
                self.response_index = (i + 1) % m;
            } else if i < m - 1 {
                self.response_index = i + 1;
            }
            let mut r = LLMResponse::new("", FinishReason::Stop);
            r.content = content;
            r.model = Some(to_owned_string("mock-model"));
            return r;
        }
        let mut r = LLMResponse::new("Mock response", FinishReason::Stop);
        r.model = Some(to_owned_string("mock-model"));
        r
    }

    /// A completion: the call is recorded; it fails when an error is set,
    /// else answers the next response, with its usage estimated when it
    /// carries none.
    pub fn complete(&mut self, messages: &Vec<ChatMessage>, config: Option<C>) -> (r: Result<LLMResponse, LLMError>)
        requires
            answerable(old(self).view()),
            messages_bytes(messages@) <= usize::MAX,
        ensures
            old(self).view().should_error ==> {
                &&& r matches Err(e) && e@ == ErrorView::Other(old(self).view().error_message)
                &&& final(self).view() == recorded(old(self).view(), messages@, config)
            },
            !old(self).view().should_error ==> {
                &&& r matches Ok(x) && x@ == with_usage(next_answer(old(self).view()).0, messages@)
                &&& final(self).view() == (MockView {
                    index: next_answer(old(self).view()).1,
                    ..recorded(old(self).view(), messages@, config)
                })
            },
    {
        self.record_call(messages, config);
        if self.should_error {
            return Err(LLMError::Other(self.error_message.clone()));
        }
        let mut response = self.next_response();
        if response.usage.is_none() {
            let prompt_tokens = estimate_prompt(messages);
            let completion_tokens = estimate_completion(&response.content);
            response.usage = Some(TokenUsage::new(prompt_tokens, completion_tokens));
        }
        Ok(response)
    }

    fn record_call(&mut self, messages: &Vec<ChatMessage>, config: Option<C>)
        ensures
            final(self).view() == recorded(old(self).view(), messages@, config),
    {
        let call = MockCall { messages: copy_messages(messages), config };
        self.call_history.push(call);
        assert(self.view().calls =~= old(self).view().calls.push((messages_view(messages@), config)));
    }

    /// A streamed completion: as `complete`, with the answer split into its
    /// words (each after the first with a space before it); the last piece
    /// carries the finish reason and the usage, estimated when the response
    /// has none. A response without words streams no piece.
    pub fn complete_stream(&mut self, messages: &Vec<ChatMessage>, config: Option<C>) -> (r: Result<Vec<LLMChunk>, LLMError>)
        requires
            answerable(old(self).view()),
            messages_bytes(messages@) <= usize::MAX,
        ensures
            old(self).view().should_error ==> {
                &&& r matches Err(e) && e@ == ErrorView::Other(old(self).view().error_message)
                &&& final(self).view() == recorded(old(self).view(), messages@, config)
            },
            !old(self).view().should_error ==> {
                &&& r matches Ok(chunks) && streamed(chunks@, next_answer(old(self).view()).0, messages@)
                &&& final(self).view() == (MockView {
                    index: next_answer(old(self).view()).1,
                    ..recorded(old(self).view(), messages@, config)
                })
            },
    {
        self.record_call(messages, config);
        if self.should_error {
            return Err(LLMError::Other(self.error_message.clone()));
        }
        let response = self.next_response();
        let deltas = word_deltas(response.content.as_str());
        let ghost d = deltas.deep_view();
        let n = deltas.len();
        assert(d.len() == n);
        let mut chunks: Vec<LLMChunk> = Vec::new();
        let mut i: usize = 0;
        while i < n
            invariant
                n == deltas@.len(),
                d == deltas.deep_view(),
                d.len() == n,
                d == spaced_words(split_words(response.content@)),
                messages_bytes(messages@) <= usize::MAX,
                i <= n,
                chunks@.len() == i,
                forall|k: int| 0 <= k < i ==> #[trigger] chunk_ok(chunks@[k], k, d, response@, messages@),
            decreases n - i,
        {
            let delta = deltas[i].clone();
            assert(delta@ == d[i as int]);
            let chunk = if i + 1 == n {
                let usage = match response.usage {
                    Some(u) => Some(u),
                    None => Some(TokenUsage::new(estimate_prompt(messages), estimate_completion(&response.content))),
                };
                LLMChunk::final_chunk(delta, response.finish_reason, usage)
            } else {
                LLMChunk::new(delta, false)
            };
            let ghost before = chunks@;
            chunks.push(chunk);
            proof {
                assert(chunk_ok(chunks@[i as int], i as int, d, response@, messages@));
                assert forall|k: int| 0 <= k < i implies #[trigger] chunk_ok(chunks@[k], k, d, response@, messages@) by {
                    assert(chunks@[k] == before[k]);
                }
            }
            i = i + 1;
        }
        assert(response@ == next_answer(old(self).view()).0);
        assert(self.view() == (MockView {
            index: next_answer(old(self).view()).1,
            ..recorded(old(self).view(), messages@, config)
        }));
        assert(i == n);
        assert(chunks@.len() == d.len());
        assert(streamed(chunks@, response@, messages@));
        assert(streamed(chunks@, next_answer(old(self).view()).0, messages@));
        Ok(chunks)
    }
}

} // verus!
