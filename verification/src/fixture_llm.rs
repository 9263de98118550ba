//! Scripted LLM answers for evaluation runs: which responses and errors an
//! LLM alias gives and in what order, replay of recorded answers by request
//! hash, and the chunks a scripted answer is streamed in.
//!
//! A response is either a text or a recorded cassette entry, named by its
//! position in the list of recorded entries that the caller holds.
use vstd::prelude::*;
use crate::chat::{LLMError, ErrorView};
use crate::fixtures::{LlmFixtureConfig, LlmFixtureOutcome, split_stream_content, stream_chunks};
use crate::text::{str_eq, to_owned_string};

verus! {

/// The position of the last pair whose key is `key`.
pub open spec fn key_position<V>(pairs: Seq<(String, V)>, key: Seq<char>) -> Option<int>
    decreases pairs.len(),
{
    if pairs.len() == 0 {
        None
    } else if pairs.last().0@ == key {
        Some(pairs.len() - 1)
    } else {
        key_position(pairs.drop_last(), key)
    }
}

/// A found position is in range and holds the key.
pub proof fn lemma_key_position<V>(pairs: Seq<(String, V)>, key: Seq<char>)
    ensures
        key_position(pairs, key) matches Some(i) ==> 0 <= i < pairs.len() && pairs[i].0@ == key,
    decreases pairs.len(),
{
    if pairs.len() > 0 && pairs.last().0@ != key {
        lemma_key_position(pairs.drop_last(), key);
    }
}

/// The position of the pair for `key` (the last one, as a map built from
/// the pairs in order would keep).
pub fn find_key<V>(pairs: &Vec<(String, V)>, key: &str) -> (r: Option<usize>)
    ensures
        r is Some ==> key_position(pairs@, key@) == Some(r.unwrap() as int),
        r is None ==> key_position(pairs@, key@) is None,
{
    let mut i: usize = pairs.len();
    assert(pairs@.take(i as int) =~= pairs@);
    while i > 0
        invariant
            i <= pairs@.len(),
            key_position(pairs@, key@) == key_position(pairs@.take(i as int), key@),
        decreases i,
    {
        let ghost t = pairs@.take(i as int);
        proof {
            assert(t.drop_last() =~= pairs@.take(i - 1));
            assert(t.last() == pairs@[i - 1]);
        }
        if str_eq(pairs[i - 1].0.as_str(), key) {
            return Some(i - 1);
        }
        i = i - 1;
    }
    None
}

/// The text answered when nothing else is scripted.
pub open spec fn mock_response_text() -> Seq<char> {
    "Mock response"@
}

/// A scripted response.
pub enum FixtureResponse {
    /// A response with this content.
    Text(String),
    /// The response of the recorded entry at this position.
    Recorded(usize),
}

/// Mathematical form of a scripted response.
pub enum ResponseView {
    Text(Seq<char>),
    Recorded(usize),
}

impl View for FixtureResponse {
    type V = ResponseView;

    open spec fn view(&self) -> ResponseView {
        match self {
            FixtureResponse::Text(s) => ResponseView::Text(s@),
            FixtureResponse::Recorded(i) => ResponseView::Recorded(*i),
        }
    }
}

impl FixtureResponse {
    /// A copy of the response.
    pub fn copy(&self) -> (r: Self)
        ensures
            r@ == self@,
    {
        match self {
            FixtureResponse::Text(s) => FixtureResponse::Text(s.clone()),
            FixtureResponse::Recorded(i) => FixtureResponse::Recorded(*i),
        }
    }
}

/// The views of a list of responses.
pub open spec fn responses_view(s: Seq<FixtureResponse>) -> Seq<ResponseView> {
    s.map_values(|x: FixtureResponse| x@)
}

/// Texts as responses.
pub open spec fn texts_view(s: Seq<String>) -> Seq<ResponseView> {
    s.map_values(|x: String| ResponseView::Text(x@))
}

/// The recorded entries of an alias, in the order they were recorded.
pub open spec fn recorded_for(aliases: Seq<Seq<char>>, alias: Seq<char>) -> Seq<ResponseView>
    decreases aliases.len(),
{
    if aliases.len() == 0 {
        Seq::empty()
    } else {
        recorded_for(aliases.drop_last(), alias) + if aliases.last() == alias {
            seq![ResponseView::Recorded((aliases.len() - 1) as usize)]
        } else {
            Seq::empty()
        }
    }
}

/// The texts configured for an alias: its own, else the shared ones.
pub open spec fn configured_texts(config: &LlmFixtureConfig, alias: Seq<char>) -> Seq<String> {
    match key_position(config.responses_by_alias@, alias) {
        Some(i) => config.responses_by_alias@[i].1@,
        None => config.responses@,
    }
}

/// The responses of an alias: its configured texts, then its recorded
/// entries; a single mock response when there are none.
pub open spec fn spec_responses_for_alias(config: &LlmFixtureConfig, record_aliases: Seq<Seq<char>>, alias: Seq<char>) -> Seq<ResponseView> {
    let all = texts_view(configured_texts(config, alias)) + recorded_for(record_aliases, alias);
    if all.len() == 0 {
        seq![ResponseView::Text(mock_response_text())]
    } else {
        all
    }
}

/// The responses an alias answers with, given the aliases of the recorded
/// entries in order.
pub fn fixture_responses_for_alias(config: &LlmFixtureConfig, record_aliases: &Vec<String>, alias: &str) -> (r: Vec<FixtureResponse>)
    ensures
        responses_view(r@) == spec_responses_for_alias(config, record_aliases.deep_view(), alias@),
{
    proof {
        lemma_key_position(config.responses_by_alias@, alias@);
    }
    let configured: &Vec<String> = match find_key(&config.responses_by_alias, alias) {
        Some(i) => &config.responses_by_alias[i].1,
        None => &config.responses,
    };
    let ghost texts = configured_texts(config, alias@);
    assert(configured@ == texts);
    let mut out: Vec<FixtureResponse> = Vec::new();
    let mut i: usize = 0;
    while i < configured.len()
        invariant
            configured@ == texts,
            i <= configured@.len(),
            responses_view(out@) == texts_view(texts.take(i as int)),
        decreases configured@.len() - i,
    {
        let ghost before = out@;
        out.push(FixtureResponse::Text(configured[i].clone()));
        proof {
            assert(out@.drop_last() == before);
            assert(responses_view(out@) =~= responses_view(before).push(ResponseView::Text(texts[i as int]@)));
            assert(texts_view(texts.take(i + 1)) =~= texts_view(texts.take(i as int)).push(ResponseView::Text(texts[i as int]@)));
        }
        i = i + 1;
    }
    assert(texts.take(i as int) =~= texts);
    let ghost aliases = record_aliases.deep_view();
    let mut j: usize = 0;
    assert(aliases.take(0) =~= Seq::<Seq<char>>::empty());
    while j < record_aliases.len()
        invariant
            aliases == record_aliases.deep_view(),
            j <= record_aliases@.len(),
            responses_view(out@) == texts_view(texts) + recorded_for(aliases.take(j as int), alias@),
        decreases record_aliases@.len() - j,
    {
        let ghost t = aliases.take(j + 1);
        proof {
            assert(t.drop_last() =~= aliases.take(j as int));
            assert(t.last() == record_aliases@[j as int]@);
        }
        if str_eq(record_aliases[j].as_str(), alias) {
            let ghost before = out@;
            out.push(FixtureResponse::Recorded(j));
            proof {
                assert(responses_view(out@) =~= responses_view(before).push(ResponseView::Recorded(j)));
            }
        }
        j = j + 1;
    }
    assert(aliases.take(j as int) =~= aliases);
    if out.len() == 0 {
        out.push(FixtureResponse::Text(to_owned_string("Mock response")));
        assert(responses_view(out@) =~= seq![ResponseView::Text(mock_response_text())]);
    }
    out
}

/// One outcome of a scripted sequence: a response or an API error.
pub enum SequenceOutcome {
    Response(FixtureResponse),
    Error { message: String, status: Option<u16> },
}

/// Mathematical form of a sequence outcome.
pub enum OutcomeView {
    Response(ResponseView),
    Error(Seq<char>, Option<u16>),
}

impl View for SequenceOutcome {
    type V = OutcomeView;

    open spec fn view(&self) -> OutcomeView {
        match self {
            SequenceOutcome::Response(r) => OutcomeView::Response(r@),
            SequenceOutcome::Error { message, status } => OutcomeView::Error(message@, *status),
        }
    }
}

/// The views of a list of outcomes.
pub open spec fn outcomes_view(s: Seq<SequenceOutcome>) -> Seq<OutcomeView> {
    s.map_values(|x: SequenceOutcome| x@)
}

/// A configured outcome as a sequence outcome.
pub open spec fn configured_outcome(o: LlmFixtureOutcome) -> OutcomeView {
    match o {
        LlmFixtureOutcome::Response { content } => OutcomeView::Response(ResponseView::Text(content@)),
        LlmFixtureOutcome::Error { message, status } => OutcomeView::Error(message@, status),
    }
}

/// The outcomes of an alias: its scripted outcomes when it has some, else
/// its error alone when it has one, else its responses.
pub open spec fn spec_outcomes_for_alias(config: &LlmFixtureConfig, alias: Seq<char>, responses: Seq<ResponseView>) -> Seq<OutcomeView> {
    match key_position(config.outcomes_by_alias@, alias) {
        Some(i) if config.outcomes_by_alias@[i].1@.len() > 0 => config.outcomes_by_alias@[i].1@.map_values(
            |o: LlmFixtureOutcome| configured_outcome(o),
        ),
        _ => match key_position(config.errors_by_alias@, alias) {
            Some(k) => seq![OutcomeView::Error(config.errors_by_alias@[k].1@, None)],
            None => responses.map_values(|r: ResponseView| OutcomeView::Response(r)),
        },
    }
}

/// The outcomes a scripted alias gives, in order.
pub fn fixture_outcomes_for_alias(config: &LlmFixtureConfig, alias: &str, responses: &Vec<FixtureResponse>) -> (r: Vec<SequenceOutcome>)
    ensures
        outcomes_view(r@) == spec_outcomes_for_alias(config, alias@, responses_view(responses@)),
{
    proof {
        lemma_key_position(config.outcomes_by_alias@, alias@);
        lemma_key_position(config.errors_by_alias@, alias@);
    }
    let mut out: Vec<SequenceOutcome> = Vec::new();
    match find_key(&config.outcomes_by_alias, alias) {
        Some(k) if config.outcomes_by_alias[k].1.len() > 0 => {
            let scripted = &config.outcomes_by_alias[k].1;
            let mut i: usize = 0;
            while i < scripted.len()
                invariant
                    i <= scripted@.len(),
                    outcomes_view(out@) == scripted@.take(i as int).map_values(|o: LlmFixtureOutcome| configured_outcome(o)),
                decreases scripted@.len() - i,
            {
                let next = match &scripted[i] {
                    LlmFixtureOutcome::Response { content } => SequenceOutcome::Response(FixtureResponse::Text(content.clone())),
                    LlmFixtureOutcome::Error { message, status } => SequenceOutcome::Error {
                        message: message.clone(),
                        status: *status,
                    },
                };
                let ghost before = out@;
                out.push(next);
                proof {
                    assert(outcomes_view(out@) =~= outcomes_view(before).push(configured_outcome(scripted@[i as int])));
                    assert(scripted@.take(i + 1).map_values(|o: LlmFixtureOutcome| configured_outcome(o))
                        =~= scripted@.take(i as int).map_values(|o: LlmFixtureOutcome| configured_outcome(o)).push(
                        configured_outcome(scripted@[i as int]),
                    ));
                }
                i = i + 1;
            }
            assert(scripted@.take(i as int) =~= scripted@);
            return out;
        },
        _ => {},
    }
    match find_key(&config.errors_by_alias, alias) {
        Some(k) => {
            out.push(SequenceOutcome::Error { message: config.errors_by_alias[k].1.clone(), status: None });
            assert(outcomes_view(out@) =~= seq![OutcomeView::Error(config.errors_by_alias@[k as int].1@, None)]);
            return out;
        },
        None => {},
    }
    let ghost rv = responses_view(responses@);
    let mut i: usize = 0;
    while i < responses.len()
        invariant
            rv == responses_view(responses@),
            i <= responses@.len(),
            outcomes_view(out@) == rv.take(i as int).map_values(|r: ResponseView| OutcomeView::Response(r)),
        decreases responses@.len() - i,
    {
        let ghost before = out@;
        out.push(SequenceOutcome::Response(responses[i].copy()));
        proof {
            assert(outcomes_view(out@) =~= outcomes_view(before).push(OutcomeView::Response(rv[i as int])));
            assert(rv.take(i + 1).map_values(|r: ResponseView| OutcomeView::Response(r))
                =~= rv.take(i as int).map_values(|r: ResponseView| OutcomeView::Response(r)).push(OutcomeView::Response(rv[i as int])));
        }
        i = i + 1;
    }
    assert(rv.take(i as int) =~= rv);
    out
}

/// The position after a call: one further, until the last outcome.
pub open spec fn next_position(len: nat, i: int) -> int {
    if i + 1 < len { i + 1 } else { i }
}

/// What a call answers at position `i`: the outcome there, a response as
/// itself and an error as an API error; the mock response when there are no
/// outcomes.
pub open spec fn answer_at(outcomes: Seq<OutcomeView>, i: int) -> Result<ResponseView, ErrorView> {
    if outcomes.len() == 0 {
        Ok(ResponseView::Text(mock_response_text()))
    } else {
        match outcomes[i] {
            OutcomeView::Response(r) => Ok(r),
            OutcomeView::Error(m, s) => Err(ErrorView::API(m, s)),
        }
    }
}

/// The view of an answer.
pub open spec fn answer_view(r: Result<FixtureResponse, LLMError>) -> Result<ResponseView, ErrorView> {
    match r {
        Ok(x) => Ok(x@),
        Err(e) => Err(e@),
    }
}

/// A scripted alias: its outcomes and how far its calls have got.
pub struct FixtureSequence {
    outcomes: Vec<SequenceOutcome>,
    index: usize,
}

impl FixtureSequence {
    /// The outcomes, in order.
    pub closed spec fn outcomes(&self) -> Seq<OutcomeView> {
        outcomes_view(self.outcomes@)
    }

    /// The position of the next call's outcome.
    pub closed spec fn position(&self) -> int {
        self.index as int
    }

    /// The position is that of an outcome, or zero when there is none.
    #[verifier::type_invariant]
    spec fn wf(&self) -> bool {
        self.index < self.outcomes@.len() || (self.outcomes@.len() == 0 && self.index == 0)
    }

    /// A sequence whose first call answers the first outcome.
    pub fn new(outcomes: Vec<SequenceOutcome>) -> (r: Self)
        ensures
            r.outcomes() == outcomes_view(outcomes@),
            r.position() == 0,
    {
        FixtureSequence { outcomes, index: 0 }
    }

    /// Answers a call and moves on to the next outcome; the last outcome
    /// answers every call after it.
    pub fn next_outcome(&mut self) -> (r: Result<FixtureResponse, LLMError>)
        ensures
            final(self).outcomes() == old(self).outcomes(),
            answer_view(r) == answer_at(old(self).outcomes(), old(self).position()),
            final(self).position() == next_position(old(self).outcomes().len(), old(self).position()),
    {
        proof {
            use_type_invariant(&*self);
        }
        let n = self.outcomes.len();
        if n == 0 {
            return Ok(FixtureResponse::Text(to_owned_string("Mock response")));
        }
        let i = self.index;
        let answer = match &self.outcomes[i] {
            SequenceOutcome::Response(x) => Ok(x.copy()),
            SequenceOutcome::Error { message, status } => Err(LLMError::API { message: message.clone(), status: *status }),
        };
        if i + 1 < n {
            self.index = i + 1;
        }
        answer
    }
}

/// The position after `k` calls of a sequence of `len` outcomes.
pub open spec fn position_after(len: nat, k: nat) -> int
    decreases k,
{
    if k == 0 {
        0
    } else {
        next_position(len, position_after(len, (k - 1) as nat))
    }
}

/// The `k`-th call of a sequence (counting from zero) answers outcome `k`
/// while there is one, and the last outcome after that.
pub proof fn law_sequence_settles_on_last(len: nat, k: nat)
    requires
        len > 0,
    ensures
        position_after(len, k) == if k < len { k as int } else { len - 1 },
    decreases k,
{
    if k > 0 {
        law_sequence_settles_on_last(len, (k - 1) as nat);
    }
}

/// The key under which an answer was recorded.
pub struct CassetteKey {
    pub alias: String,
    pub model: String,
    pub request_hash: String,
}

/// A recorded entry answers a request of the alias with this hash, for this
/// model or for any model when it names none.
pub open spec fn record_matches(k: CassetteKey, alias: Seq<char>, model: Seq<char>, hash: Seq<char>) -> bool {
    k.alias@ == alias && k.request_hash@ == hash && (k.model@ == model || k.model@.len() == 0)
}

/// The position of the first recorded entry that answers the request.
pub fn find_recorded(records: &Vec<CassetteKey>, alias: &str, model: &str, request_hash: &str) -> (r: Option<usize>)
    ensures
        match r {
            Some(i) => i < records@.len() && record_matches(records@[i as int], alias@, model@, request_hash@)
                && forall|j: int| 0 <= j < i ==> !#[trigger] record_matches(records@[j], alias@, model@, request_hash@),
            None => forall|j: int| 0 <= j < records@.len() ==> !#[trigger] record_matches(records@[j], alias@, model@, request_hash@),
        },
{
    let mut i: usize = 0;
    while i < records.len()
        invariant
            i <= records@.len(),
            forall|j: int| 0 <= j < i ==> !#[trigger] record_matches(records@[j], alias@, model@, request_hash@),
        decreases records@.len() - i,
    {
        let k = &records[i];
        if str_eq(k.alias.as_str(), alias) && str_eq(k.request_hash.as_str(), request_hash)
            && (str_eq(k.model.as_str(), model) || k.model.as_str().is_empty()) {
            return Some(i);
        }
        i = i + 1;
    }
    None
}

/// Replay of recorded answers for one alias and model, with scripted
/// responses for requests that were not recorded.
pub struct ReplayFixture {
    alias: String,
    model: String,
    records: Vec<CassetteKey>,
    fallback: FixtureSequence,
}

impl ReplayFixture {
    /// The recorded entries.
    pub closed spec fn records(&self) -> Seq<CassetteKey> {
        self.records@
    }

    /// The alias and model answered for.
    pub closed spec fn target(&self) -> (Seq<char>, Seq<char>) {
        (self.alias@, self.model@)
    }

    /// The scripted responses for requests that were not recorded.
    pub closed spec fn fallback(&self) -> FixtureSequence {
        self.fallback
    }

    /// Replay for `alias` and `model` from `records`, falling back on
    /// `fallback` in order.
    pub fn new(alias: String, model: String, records: Vec<CassetteKey>, fallback: Vec<FixtureResponse>) -> (r: Self)
        ensures
            r.records() == records@,
            r.target() == (alias@, model@),
            r.fallback().outcomes() == responses_view(fallback@).map_values(|x: ResponseView| OutcomeView::Response(x)),
            r.fallback().position() == 0,
    {
        let mut outcomes: Vec<SequenceOutcome> = Vec::new();
        let mut i: usize = 0;
        let ghost rv = responses_view(fallback@);
        while i < fallback.len()
            invariant
                rv == responses_view(fallback@),
                i <= fallback@.len(),
                outcomes_view(outcomes@) == rv.take(i as int).map_values(|x: ResponseView| OutcomeView::Response(x)),
            decreases fallback@.len() - i,
        {
            let ghost before = outcomes@;
            outcomes.push(SequenceOutcome::Response(fallback[i].copy()));
            proof {
                assert(outcomes_view(outcomes@) =~= outcomes_view(before).push(OutcomeView::Response(rv[i as int])));
                assert(rv.take(i + 1).map_values(|x: ResponseView| OutcomeView::Response(x))
                    =~= rv.take(i as int).map_values(|x: ResponseView| OutcomeView::Response(x)).push(OutcomeView::Response(rv[i as int])));
            }
            i = i + 1;
        }
        assert(rv.take(i as int) =~= rv);
        ReplayFixture { alias, model, records, fallback: FixtureSequence::new(outcomes) }
    }

    /// The answer to a request with this hash: the first matching recorded
    /// entry, else the next fallback response (the mock response in place of
    /// an error).
    pub fn response_for(&mut self, request_hash: &str) -> (r: FixtureResponse)
        ensures
            final(self).records() == old(self).records(),
            final(self).target() == old(self).target(),
            final(self).fallback().outcomes() == old(self).fallback().outcomes(),
            (exists|i: int| 0 <= i < old(self).records().len()
                && #[trigger] record_matches(old(self).records()[i], old(self).target().0, old(self).target().1, request_hash@)) ==> {
                &&& r@ matches ResponseView::Recorded(i) && i < old(self).records().len()
                    && record_matches(old(self).records()[i as int], old(self).target().0, old(self).target().1, request_hash@)
                    && forall|j: int| 0 <= j < i ==> !#[trigger] record_matches(
                        old(self).records()[j],
                        old(self).target().0,
                        old(self).target().1,
                        request_hash@,
                    )
                &&& final(self).fallback().position() == old(self).fallback().position()
            },
            !(exists|i: int| 0 <= i < old(self).records().len()
                && #[trigger] record_matches(old(self).records()[i], old(self).target().0, old(self).target().1, request_hash@)) ==> {
                &&& r@ == match answer_at(old(self).fallback().outcomes(), old(self).fallback().position()) {
                    Ok(v) => v,
                    Err(_) => ResponseView::Text(mock_response_text()),
                }
                &&& final(self).fallback().position() == next_position(
                    old(self).fallback().outcomes().len(),
                    old(self).fallback().position(),
                )
            },
    {
        let ghost alias = self.alias@;
        let ghost model = self.model@;
        match find_recorded(&self.records, self.alias.as_str(), self.model.as_str(), request_hash) {
            Some(i) => {
                assert(record_matches(self.records@[i as int], alias, model, request_hash@));
                FixtureResponse::Recorded(i)
            },
            None => {
                assert(!exists|i: int| 0 <= i < self.records@.len() && #[trigger] record_matches(self.records@[i], alias, model, request_hash@));
                match self.fallback.next_outcome() {
                    Ok(x) => x,
                    Err(_) => FixtureResponse::Text(to_owned_string("Mock response")),
                }
            },
        }
    }
}

/// The chunks a scripted response is streamed in, each with whether it is
/// the final one; an empty response is one empty final chunk.
pub open spec fn spec_stream_deltas(content: Seq<char>) -> Seq<(Seq<char>, bool)> {
    let chunks = stream_chunks(content);
    if chunks.len() == 0 {
        seq![(Seq::<char>::empty(), true)]
    } else {
        Seq::new(chunks.len(), |i: int| (chunks[i], i == chunks.len() - 1))
    }
}

/// Splits a scripted response into stream chunks, marking the last.
pub fn stream_deltas(content: &str) -> (r: Vec<(String, bool)>)
    ensures
        r.deep_view() == spec_stream_deltas(content@),
{
    let chunks = split_stream_content(content);
    let mut out: Vec<(String, bool)> = Vec::new();
    let n = chunks.len();
    if n == 0 {
        out.push((String::new(), true));
        assert(out.deep_view() =~= seq![(Seq::<char>::empty(), true)]);
        return out;
    }
    let ghost c = chunks.deep_view();
    let mut i: usize = 0;
    while i < n
        invariant
            n == chunks@.len(),
            c == chunks.deep_view(),
            c == stream_chunks(content@),
            i <= n,
            out.deep_view() == Seq::new(i as nat, |k: int| (c[k], k == n - 1)),
        decreases n - i,
    {
        let ghost before = out.deep_view();
        let piece = chunks[i].clone();
        assert(piece@ == c[i as int]);
        out.push((piece, i + 1 == n));
        assert(out.deep_view() =~= before.push((c[i as int], i + 1 == n)));
        assert(out.deep_view() =~= Seq::new((i + 1) as nat, |k: int| (c[k], k == n - 1)));
        i = i + 1;
    }
    out
}

} // verus!
