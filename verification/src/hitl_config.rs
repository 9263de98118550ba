//! Human-in-the-loop configuration: timeouts, message-language strategies,
//! per-tool, per-condition and per-state approval settings, and approval
//! messages that may exist in several languages.
//!
//! The texts of a message are kept by language, each language once. Other
//! maps keyed by name (the name of a tool or a state) are kept as vectors
//! of pairs; a key read from such a vector finds its last occurrence, as
//! inserting the pairs into a map in order would.
use vstd::prelude::*;
use crate::text::{str_eq, to_owned_string};

verus! {

/// What happens when an approval request times out.
#[derive(Clone, Copy, Debug, PartialEq, Eq, Structural)]
pub enum TimeoutAction {
    Reject,
    Approve,
    Error,
}

impl Default for TimeoutAction {
    fn default() -> (r: Self)
        ensures
            r == TimeoutAction::Reject,
    {
        TimeoutAction::Reject
    }
}

/// How the language of an approval message is chosen.
#[derive(Clone, Copy, Debug, PartialEq, Eq, Structural)]
pub enum MessageLanguageStrategy {
    Auto,
    User,
    Approver,
    Explicit,
    LlmGenerate,
}

impl Default for MessageLanguageStrategy {
    fn default() -> (r: Self)
        ensures
            r == MessageLanguageStrategy::Auto,
    {
        MessageLanguageStrategy::Auto
    }
}

/// Settings of message-language selection.
pub struct MessageLanguageConfig {
    pub strategy: MessageLanguageStrategy,
    /// Strategies tried, in order, after `strategy` yields no message.
    pub fallback: Vec<MessageLanguageStrategy>,
    /// The language used by the `Explicit` strategy.
    pub explicit: Option<String>,
    pub llm_generate: Option<LlmGenerateConfig>,
}

/// The fallback chain used when none is configured.
pub open spec fn spec_default_fallback_chain() -> Seq<MessageLanguageStrategy> {
    seq![
        MessageLanguageStrategy::Approver,
        MessageLanguageStrategy::User,
        MessageLanguageStrategy::Explicit,
        MessageLanguageStrategy::LlmGenerate,
    ]
}

/// Default fallback chain: approver, user, explicit, then LLM generation.
pub fn default_fallback_chain() -> (r: Vec<MessageLanguageStrategy>)
    ensures
        r@ == spec_default_fallback_chain(),
{
    let mut v: Vec<MessageLanguageStrategy> = Vec::new();
    v.push(MessageLanguageStrategy::Approver);
    v.push(MessageLanguageStrategy::User);
    v.push(MessageLanguageStrategy::Explicit);
    v.push(MessageLanguageStrategy::LlmGenerate);
    assert(v@ =~= spec_default_fallback_chain());
    v
}

impl Default for MessageLanguageConfig {
    fn default() -> (r: Self)
        ensures
            r.strategy == MessageLanguageStrategy::Auto,
            r.fallback@ == spec_default_fallback_chain(),
            r.explicit is None,
            r.llm_generate is None,
    {
        MessageLanguageConfig {
            strategy: MessageLanguageStrategy::Auto,
            fallback: default_fallback_chain(),
            explicit: None,
            llm_generate: None,
        }
    }
}

/// Settings of LLM-generated approval messages.
pub struct LlmGenerateConfig {
    /// Alias of the LLM that writes the message.
    pub llm: String,
    /// Whether the approval context is shown to that LLM.
    pub include_context: bool,
}

/// Default LLM alias for message generation: `router`.
pub fn default_router() -> (r: String)
    ensures
        r@ == "router"@,
{
    to_owned_string("router")
}

/// The default of every boolean switch that is on unless configured.
pub fn default_true() -> (b: bool)
    ensures
        b,
{
    true
}

impl Default for LlmGenerateConfig {
    fn default() -> (r: Self)
        ensures
            r.llm@ == "router"@,
            r.include_context,
    {
        LlmGenerateConfig { llm: default_router(), include_context: default_true() }
    }
}

/// The value stored under `key` in a list of text pairs: the last pair with
/// that key.
pub open spec fn lookup(pairs: Seq<(Seq<char>, Seq<char>)>, key: Seq<char>) -> Option<Seq<char>>
    decreases pairs.len(),
{
    if pairs.len() == 0 {
        None
    } else if pairs.last().0 == key {
        Some(pairs.last().1)
    } else {
        lookup(pairs.drop_last(), key)
    }
}

/// The keys of a list of text pairs, each once, in order of first occurrence.
pub open spec fn distinct_keys(pairs: Seq<(Seq<char>, Seq<char>)>) -> Seq<Seq<char>>
    decreases pairs.len(),
{
    if pairs.len() == 0 {
        Seq::empty()
    } else {
        let prev = distinct_keys(pairs.drop_last());
        if prev.contains(pairs.last().0) {
            prev
        } else {
            prev.push(pairs.last().0)
        }
    }
}

/// No key occurs twice among the pairs.
pub open spec fn unique_keys(pairs: Seq<(Seq<char>, Seq<char>)>) -> bool {
    forall|i: int, j: int| 0 <= i < j < pairs.len() ==> (#[trigger] pairs[i]).0 != (#[trigger] pairs[j]).0
}

/// The pairs after storing `v` under `k`: the pair of `k` takes the new
/// value in its place, or a new pair comes last.
pub open spec fn put(pairs: Seq<(Seq<char>, Seq<char>)>, k: Seq<char>, v: Seq<char>) -> Seq<(Seq<char>, Seq<char>)> {
    if exists|i: int| 0 <= i < pairs.len() && (#[trigger] pairs[i]).0 == k {
        let i = choose|i: int| 0 <= i < pairs.len() && (#[trigger] pairs[i]).0 == k;
        pairs.update(i, (k, v))
    } else {
        pairs.push((k, v))
    }
}

/// The pairs stored one after the other, as inserting them into a map.
pub open spec fn stored(pairs: Seq<(Seq<char>, Seq<char>)>) -> Seq<(Seq<char>, Seq<char>)>
    decreases pairs.len(),
{
    if pairs.len() == 0 {
        Seq::empty()
    } else {
        put(stored(pairs.drop_last()), pairs.last().0, pairs.last().1)
    }
}

/// Texts by language, each language once, in the order languages were
/// first given.
pub struct LanguageTexts {
    pairs: Vec<(String, String)>,
}

impl View for LanguageTexts {
    type V = Seq<(Seq<char>, Seq<char>)>;

    closed spec fn view(&self) -> Seq<(Seq<char>, Seq<char>)> {
        self.pairs.deep_view()
    }
}

impl LanguageTexts {
    #[verifier::type_invariant]
    spec fn keys_once(&self) -> bool {
        unique_keys(self.pairs.deep_view())
    }

    /// The texts of `pairs` by language; a language given twice keeps its
    /// last text.
    pub fn from_pairs(pairs: Vec<(String, String)>) -> (r: Self)
        ensures
            r@ == stored(pairs.deep_view()),
    {
        let ghost ps = pairs.deep_view();
        let mut out: Vec<(String, String)> = Vec::new();
        let mut i: usize = 0;
        assert(ps.take(0) =~= Seq::<(Seq<char>, Seq<char>)>::empty());
        while i < pairs.len()
            invariant
                ps == pairs.deep_view(),
                i <= pairs@.len(),
                out.deep_view() == stored(ps.take(i as int)),
                unique_keys(out.deep_view()),
            decreases pairs@.len() - i,
        {
            let ghost before = out.deep_view();
            let ghost k = pairs@[i as int].0@;
            let ghost v = pairs@[i as int].1@;
            proof {
                assert(ps.take(i + 1).drop_last() =~= ps.take(i as int));
                assert(ps.take(i + 1).last() == (k, v));
            }
            let mut j: usize = 0;
            let mut found = false;
            while j < out.len() && !found
                invariant
                    i < pairs@.len(),
                    k == pairs@[i as int].0@,
                    j <= out@.len(),
                    out.deep_view() == before,
                    !found ==> forall|t: int| 0 <= t < j ==> (#[trigger] before[t]).0 != k,
                    found ==> j > 0 && before[j - 1].0 == k,
                decreases out@.len() - j,
            {
                assert(before[j as int] == (out@[j as int].0@, out@[j as int].1@));
                if str_eq(out[j].0.as_str(), pairs[i].0.as_str()) {
                    found = true;
                }
                j = j + 1;
            }
            if found {
                let at = j - 1;
                out.set(at, (pairs[i].0.clone(), pairs[i].1.clone()));
                proof {
                    let c = choose|t: int| 0 <= t < before.len() && (#[trigger] before[t]).0 == k;
                    assert(before[at as int].0 == k);
                    if c != at {
                        if c < at {
                            assert(before[c].0 != before[at as int].0);
                        } else {
                            assert(before[at as int].0 != before[c].0);
                        }
                    }
                    assert(out.deep_view() =~= before.update(at as int, (k, v)));
                }
            } else {
                out.push((pairs[i].0.clone(), pairs[i].1.clone()));
                assert(out.deep_view() =~= before.push((k, v)));
            }
            i = i + 1;
        }
        assert(ps.take(i as int) =~= ps);
        LanguageTexts { pairs: out }
    }

    /// The pairs, each language once.
    pub fn pairs(&self) -> (r: &Vec<(String, String)>)
        ensures
            r.deep_view() == self@,
            unique_keys(self@),
    {
        proof {
            use_type_invariant(self);
        }
        &self.pairs
    }
}

/// Looking a key up among stored pairs finds the text of its last pair, as
/// among the pairs given.
pub proof fn law_stored_keeps_last_text(pairs: Seq<(Seq<char>, Seq<char>)>, key: Seq<char>)
    ensures
        lookup(stored(pairs), key) == lookup(pairs, key),
        unique_keys(stored(pairs)),
    decreases pairs.len(),
{
    if pairs.len() > 0 {
        let rest = pairs.drop_last();
        let (k, v) = pairs.last();
        law_stored_keeps_last_text(rest, key);
        lemma_put(stored(rest), k, v, key);
    }
}

/// `lookup` among pairs with unique keys finds the pair of the key.
proof fn lemma_lookup_unique(pairs: Seq<(Seq<char>, Seq<char>)>, key: Seq<char>)
    requires
        unique_keys(pairs),
    ensures
        forall|i: int| 0 <= i < pairs.len() && (#[trigger] pairs[i]).0 == key ==> lookup(pairs, key) == Some(pairs[i].1),
        (forall|i: int| 0 <= i < pairs.len() ==> (#[trigger] pairs[i]).0 != key) ==> lookup(pairs, key) is None,
    decreases pairs.len(),
{
    if pairs.len() > 0 {
        let rest = pairs.drop_last();
        assert(unique_keys(rest)) by {
            assert forall|i: int, j: int| 0 <= i < j < rest.len() implies (#[trigger] rest[i]).0 != (#[trigger] rest[j]).0 by {
                assert(rest[i] == pairs[i] && rest[j] == pairs[j]);
            }
        }
        lemma_lookup_unique(rest, key);
        assert forall|i: int| 0 <= i < pairs.len() && (#[trigger] pairs[i]).0 == key implies lookup(pairs, key) == Some(pairs[i].1) by {
            if i < pairs.len() - 1 {
                assert(pairs[i] == rest[i]);
                assert(pairs[i].0 != pairs[pairs.len() - 1].0);
            }
        }
        if forall|i: int| 0 <= i < pairs.len() ==> (#[trigger] pairs[i]).0 != key {
            assert forall|i: int| 0 <= i < rest.len() implies (#[trigger] rest[i]).0 != key by {
                assert(rest[i] == pairs[i]);
            }
            assert(pairs[pairs.len() - 1].0 != key);
        }
    }
}

/// Storing `v` under `k` keeps the keys unique, gives `k` the text `v`,
/// and leaves the other keys' texts.
proof fn lemma_put(pairs: Seq<(Seq<char>, Seq<char>)>, k: Seq<char>, v: Seq<char>, key: Seq<char>)
    requires
        unique_keys(pairs),
    ensures
        unique_keys(put(pairs, k, v)),
        lookup(put(pairs, k, v), key) == if key == k { Some(v) } else { lookup(pairs, key) },
{
    let p = put(pairs, k, v);
    if exists|i: int| 0 <= i < pairs.len() && (#[trigger] pairs[i]).0 == k {
        let c = choose|i: int| 0 <= i < pairs.len() && (#[trigger] pairs[i]).0 == k;
        assert(p == pairs.update(c, (k, v)));
        assert forall|i: int, j: int| 0 <= i < j < p.len() implies (#[trigger] p[i]).0 != (#[trigger] p[j]).0 by {
            assert(p[i].0 == pairs[i].0);
            assert(p[j].0 == pairs[j].0);
        }
    } else {
        assert(p == pairs.push((k, v)));
        assert forall|i: int, j: int| 0 <= i < j < p.len() implies (#[trigger] p[i]).0 != (#[trigger] p[j]).0 by {
            if j < pairs.len() {
                assert(p[i] == pairs[i] && p[j] == pairs[j]);
            } else {
                assert(p[i] == pairs[i]);
            }
        }
    }
    lemma_lookup_unique(pairs, key);
    lemma_lookup_unique(p, key);
    if key == k {
        if exists|i: int| 0 <= i < pairs.len() && (#[trigger] pairs[i]).0 == k {
            let c = choose|i: int| 0 <= i < pairs.len() && (#[trigger] pairs[i]).0 == k;
            assert(p[c].0 == key);
        } else {
            assert(p[pairs.len() as int].0 == key);
        }
    } else {
        if exists|i: int| 0 <= i < pairs.len() && (#[trigger] pairs[i]).0 == key {
            let t = choose|i: int| 0 <= i < pairs.len() && (#[trigger] pairs[i]).0 == key;
            assert(p[t] == pairs[t]);
        } else {
            assert forall|i: int| 0 <= i < p.len() implies (#[trigger] p[i]).0 != key by {
                if i < pairs.len() {
                    assert(p[i].0 == pairs[i].0);
                }
            }
        }
    }
}

/// An approval message: one text for every language, or texts by language
/// with an optional description.
pub enum ApprovalMessage {
    Simple(String),
    MultiLanguage { messages: LanguageTexts, description: Option<String> },
}

/// Mathematical form of an approval message.
pub enum MessageView {
    Simple(Seq<char>),
    MultiLanguage { messages: Seq<(Seq<char>, Seq<char>)>, description: Option<Seq<char>> },
}

impl View for ApprovalMessage {
    type V = MessageView;

    open spec fn view(&self) -> MessageView {
        match self {
            ApprovalMessage::Simple(s) => MessageView::Simple(s@),
            ApprovalMessage::MultiLanguage { messages, description } => MessageView::MultiLanguage {
                messages: messages@,
                description: description.deep_view(),
            },
        }
    }
}

/// `ApprovalMessage::get`: a simple message serves every language.
pub open spec fn message_for(m: MessageView, lang: Seq<char>) -> Option<Seq<char>> {
    match m {
        MessageView::Simple(s) => Some(s),
        MessageView::MultiLanguage { messages, .. } => lookup(messages, lang),
    }
}

/// `ApprovalMessage::get_any`: a non-empty simple message, or the English
/// text, or else the text of the first language listed.
pub open spec fn any_message(m: MessageView) -> Option<Seq<char>> {
    match m {
        MessageView::Simple(s) => if s.len() > 0 { Some(s) } else { None },
        MessageView::MultiLanguage { messages, .. } => {
            if lookup(messages, "en"@) is Some {
                lookup(messages, "en"@)
            } else if messages.len() == 0 {
                None
            } else {
                lookup(messages, messages[0].0)
            }
        },
    }
}

/// `ApprovalMessage::is_empty`.
pub open spec fn message_is_empty(m: MessageView) -> bool {
    match m {
        MessageView::Simple(s) => s.len() == 0,
        MessageView::MultiLanguage { messages, .. } => messages.len() == 0,
    }
}

/// `ApprovalMessage::description`.
pub open spec fn message_description(m: MessageView) -> Option<Seq<char>> {
    match m {
        MessageView::Simple(_) => None,
        MessageView::MultiLanguage { description, .. } => description,
    }
}

/// The value under `key` in a vector of text pairs (last occurrence).
pub fn lookup_pair<'a>(pairs: &'a Vec<(String, String)>, key: &str) -> (r: Option<&'a String>)
    ensures
        match r {
            Some(v) => lookup(pairs.deep_view(), key@) == Some(v@),
            None => lookup(pairs.deep_view(), key@) is None,
        },
{
    let mut i: usize = pairs.len();
    proof {
        assert(pairs.deep_view().take(i as int) =~= pairs.deep_view());
    }
    while i > 0
        invariant
            i <= pairs@.len(),
            lookup(pairs.deep_view(), key@) == lookup(pairs.deep_view().take(i as int), key@),
        decreases i,
    {
        let ghost t = pairs.deep_view().take(i as int);
        proof {
            assert(t.drop_last() =~= pairs.deep_view().take(i - 1));
            assert(t.last() == (pairs@[i - 1].0@, pairs@[i - 1].1@));
        }
        if str_eq(pairs[i - 1].0.as_str(), key) {
            return Some(&pairs[i - 1].1);
        }
        i = i - 1;
    }
    None
}

impl Default for ApprovalMessage {
    fn default() -> (r: Self)
        ensures
            r@ == MessageView::Simple(Seq::empty()),
    {
        ApprovalMessage::Simple(String::new())
    }
}

impl ApprovalMessage {
    /// One text for every language.
    pub fn simple(message: &str) -> (r: Self)
        ensures
            r@ == MessageView::Simple(message@),
    {
        ApprovalMessage::Simple(to_owned_string(message))
    }

    /// Texts by language, without description; a language given twice
    /// keeps its last text.
    pub fn multi_language(messages: Vec<(String, String)>) -> (r: Self)
        ensures
            r@ == (MessageView::MultiLanguage { messages: stored(messages.deep_view()), description: None }),
    {
        ApprovalMessage::MultiLanguage { messages: LanguageTexts::from_pairs(messages), description: None }
    }

    /// Sets the description of a multi-language message; a simple message
    /// is returned unchanged.
    pub fn with_description(self, desc: &str) -> (r: Self)
        ensures
            r@ == (match self@ {
                MessageView::Simple(s) => MessageView::Simple(s),
                MessageView::MultiLanguage { messages, .. } => MessageView::MultiLanguage {
                    messages,
                    description: Some(desc@),
                },
            }),
    {
        match self {
            ApprovalMessage::Simple(s) => ApprovalMessage::Simple(s),
            ApprovalMessage::MultiLanguage { messages, description: _ } => {
                ApprovalMessage::MultiLanguage { messages, description: Some(to_owned_string(desc)) }
            },
        }
    }

    /// The text for `lang`; a simple message serves every language.
    pub fn get(&self, lang: &str) -> (r: Option<String>)
        ensures
            r.deep_view() == message_for(self@, lang@),
    {
        match self {
            ApprovalMessage::Simple(s) => Some(s.clone()),
            ApprovalMessage::MultiLanguage { messages, .. } => match lookup_pair(messages.pairs(), lang) {
                Some(v) => Some(v.clone()),
                None => None,
            },
        }
    }

    /// Some text: a non-empty simple message, the English text, or the text
    /// of the first language listed.
    pub fn get_any(&self) -> (r: Option<String>)
        ensures
            r.deep_view() == any_message(self@),
    {
        match self {
            ApprovalMessage::Simple(s) => {
                if s.as_str().is_empty() {
                    None
                } else {
                    Some(s.clone())
                }
            },
            ApprovalMessage::MultiLanguage { messages, .. } => {
                let messages = messages.pairs();
                match lookup_pair(messages, "en") {
                    Some(v) => Some(v.clone()),
                    None => {
                        if messages.len() == 0 {
                            None
                        } else {
                            match lookup_pair(messages, messages[0].0.as_str()) {
                                Some(v) => Some(v.clone()),
                                None => None,
                            }
                        }
                    },
                }
            },
        }
    }

    /// The description of a multi-language message.
    pub fn description(&self) -> (r: Option<&str>)
        ensures
            r.deep_view() == message_description(self@),
    {
        match self {
            ApprovalMessage::Simple(_) => None,
            ApprovalMessage::MultiLanguage { description, .. } => match description {
                Some(d) => Some(d.as_str()),
                None => None,
            },
        }
    }

    /// Whether the message holds no text.
    pub fn is_empty(&self) -> (r: bool)
        ensures
            r == message_is_empty(self@),
    {
        match self {
            ApprovalMessage::Simple(s) => s.as_str().is_empty(),
            ApprovalMessage::MultiLanguage { messages, .. } => messages.pairs().len() == 0,
        }
    }

    /// The languages a multi-language message has a text for, each once.
    pub fn available_languages(&self) -> (r: Vec<String>)
        ensures
            r.deep_view() == (match self@ {
                MessageView::Simple(_) => Seq::<Seq<char>>::empty(),
                MessageView::MultiLanguage { messages, .. } => distinct_keys(messages),
            }),
    {
        match self {
            ApprovalMessage::Simple(_) => Vec::new(),
            ApprovalMessage::MultiLanguage { messages, .. } => {
                let messages = messages.pairs();
                let mut out: Vec<String> = Vec::new();
                let mut i: usize = 0;
                while i < messages.len()
                    invariant
                        i <= messages@.len(),
                        out.deep_view() == distinct_keys(messages.deep_view().take(i as int)),
                    decreases messages@.len() - i,
                {
                    let ghost t = messages.deep_view().take(i + 1);
                    proof {
                        assert(t.drop_last() =~= messages.deep_view().take(i as int));
                        assert(t.last().0 == messages@[i as int].0@);
                    }
                    let mut seen = false;
                    let mut j: usize = 0;
                    while j < out.len()
                        invariant
                            j <= out@.len(),
                            i < messages@.len(),
                            seen == (exists|k: int| 0 <= k < j && out.deep_view()[k] == messages@[i as int].0@),
                        decreases out@.len() - j,
                    {
                        assert(out.deep_view()[j as int] == out@[j as int]@);
                        if str_eq(out[j].as_str(), messages[i].0.as_str()) {
                            seen = true;
                        }
                        j = j + 1;
                    }
                    proof {
                        if seen {
                            assert(out.deep_view().contains(messages@[i as int].0@));
                        } else {
                            assert(!out.deep_view().contains(messages@[i as int].0@));
                        }
                    }
                    if !seen {
                        let ghost before = out.deep_view();
                        out.push(messages[i].0.clone());
                        assert(out.deep_view() =~= before.push(messages@[i as int].0@));
                    }
                    i = i + 1;
                }
                assert(messages.deep_view().take(messages@.len() as int) =~= messages.deep_view());
                out
            },
        }
    }
}

/// Approval settings of one tool.
pub struct ToolApprovalConfig {
    pub require_approval: bool,
    /// Argument names shown to the approver.
    pub approval_context: Vec<String>,
    pub approval_message: ApprovalMessage,
    /// Overrides the global message-language settings.
    pub message_language: Option<MessageLanguageConfig>,
    pub timeout_seconds: Option<u64>,
}

impl Default for ToolApprovalConfig {
    fn default() -> (r: Self)
        ensures
            !r.require_approval,
            r.approval_context@.len() == 0,
            r.approval_message@ == MessageView::Simple(Seq::empty()),
            r.message_language is None,
            r.timeout_seconds is None,
    {
        ToolApprovalConfig {
            require_approval: false,
            approval_context: Vec::new(),
            approval_message: ApprovalMessage::default(),
            message_language: None,
            timeout_seconds: None,
        }
    }
}

/// A named condition, given as an expression, that asks for approval.
pub struct ApprovalCondition {
    pub name: String,
    pub when: String,
    pub require_approval: bool,
    pub approval_message: ApprovalMessage,
    pub message_language: Option<MessageLanguageConfig>,
}

/// Whether entering a state asks for approval.
#[derive(Clone, Copy, Debug, PartialEq, Eq, Structural)]
pub enum StateApprovalTrigger {
    /// Entering the state needs no approval.
    NoApproval,
    RequireApproval,
}

impl Default for StateApprovalTrigger {
    fn default() -> (r: Self)
        ensures
            r == StateApprovalTrigger::NoApproval,
    {
        StateApprovalTrigger::NoApproval
    }
}

/// Approval settings of one state.
pub struct StateApprovalConfig {
    pub on_enter: StateApprovalTrigger,
    pub approval_message: ApprovalMessage,
    pub message_language: Option<MessageLanguageConfig>,
}

impl Default for StateApprovalConfig {
    fn default() -> (r: Self)
        ensures
            r.on_enter == StateApprovalTrigger::NoApproval,
            r.approval_message@ == MessageView::Simple(Seq::empty()),
            r.message_language is None,
    {
        StateApprovalConfig {
            on_enter: StateApprovalTrigger::NoApproval,
            approval_message: ApprovalMessage::default(),
            message_language: None,
        }
    }
}

/// Default approval timeout, in seconds.
pub fn default_hitl_timeout() -> (n: u64)
    ensures
        n == 300,
{
    300
}

/// Human-in-the-loop settings of an agent.
pub struct HITLConfig {
    pub default_timeout_seconds: u64,
    pub on_timeout: TimeoutAction,
    pub message_language: MessageLanguageConfig,
    /// Approval settings by tool name.
    pub tools: Vec<(String, ToolApprovalConfig)>,
    pub conditions: Vec<ApprovalCondition>,
    /// Approval settings by state name.
    pub states: Vec<(String, StateApprovalConfig)>,
}

impl Default for HITLConfig {
    fn default() -> (r: Self)
        ensures
            r.default_timeout_seconds == 300,
            r.on_timeout == TimeoutAction::Reject,
            r.message_language.strategy == MessageLanguageStrategy::Auto,
            r.message_language.fallback@ == spec_default_fallback_chain(),
            r.message_language.explicit is None,
            r.message_language.llm_generate is None,
            r.tools@.len() == 0,
            r.conditions@.len() == 0,
            r.states@.len() == 0,
    {
        HITLConfig {
            default_timeout_seconds: default_hitl_timeout(),
            on_timeout: TimeoutAction::Reject,
            message_language: MessageLanguageConfig::default(),
            tools: Vec::new(),
            conditions: Vec::new(),
            states: Vec::new(),
        }
    }
}

} // verus!
