//! Approval requests and results, and the choice of the language and text
//! of an approval message.
//!
//! The approval context is a list of named JSON values (a map read by key,
//! last occurrence first). The approver's preferred language comes from the
//! approval handler, which users implement; the functions here take it as a
//! value.
use vstd::prelude::*;
use crate::text::{
    to_owned_string, push_str, str_replace, u64_to_decimal, decimal, replace_all, chars_of,
    trim_chars, trim_seq, string_from_chars,
};
use crate::json::{JsonValue, JsonView, JsonNumber, member, members_view, member_of, as_str_view};
use crate::hitl_config::{
    ApprovalMessage, MessageView, MessageLanguageConfig, MessageLanguageStrategy,
    ToolApprovalConfig, message_for, any_message, message_description, message_is_empty,
    distinct_keys,
};

verus! {

/// A length of time, in whole seconds and nanoseconds.
#[derive(Clone, Copy, Debug, PartialEq, Eq, Structural)]
pub struct WaitDuration {
    pub secs: u64,
    pub subsec_nanos: u32,
}

impl WaitDuration {
    /// `secs` seconds.
    pub fn from_secs(secs: u64) -> (r: WaitDuration)
        ensures
            r == (WaitDuration { secs, subsec_nanos: 0 }),
    {
        WaitDuration { secs, subsec_nanos: 0 }
    }
}

/// A lowercase hexadecimal digit.
pub open spec fn lower_hex_digit(c: char) -> bool {
    ('0' <= c && c <= '9') || ('a' <= c && c <= 'f')
}

/// Whether `id` has the hyphenated form of a random (version 4, RFC 4122
/// variant) UUID: 36 characters, hyphens at positions 8, 13, 18 and 23,
/// lowercase hexadecimal digits elsewhere, the version digit `4` at 14 and
/// one of `8`, `9`, `a`, `b` at 19.
pub open spec fn hyphenated_uuid(id: Seq<char>) -> bool {
    &&& id.len() == 36
    &&& id[8] == '-'
    &&& id[13] == '-'
    &&& id[18] == '-'
    &&& id[23] == '-'
    &&& forall|i: int| 0 <= i < 36 && i != 8 && i != 13 && i != 18 && i != 23 ==> lower_hex_digit(#[trigger] id[i])
    &&& id[14] == '4'
    &&& (id[19] == '8' || id[19] == '9' || id[19] == 'a' || id[19] == 'b')
}

/// A fresh random request ID.
///
/// Wrapper of `uuid::Uuid::new_v4` formatted with `to_string`, which the
/// uuid crate writes in lowercase hyphenated form (`Display` forwards to
/// the hyphenated `LowerHex`); `new_v4` masks in the version and variant
/// bits. Which random digits come out is left open.
#[verifier::external_body]
pub(crate) fn new_request_id() -> (r: String)
    ensures
        hyphenated_uuid(r@),
{
    uuid::Uuid::new_v4().to_string()
}

/// What asked for approval.
pub enum ApprovalTrigger {
    Tool { name: String, args: JsonValue },
    Condition { name: String, matched: String },
    State { from: Option<String>, to: String },
}

impl ApprovalTrigger {
    /// A tool call with its arguments.
    pub fn tool(name: &str, args: JsonValue) -> (r: Self)
        ensures
            r matches ApprovalTrigger::Tool { name: n, args: a } && n@ == name@ && a == args,
    {
        ApprovalTrigger::Tool { name: to_owned_string(name), args }
    }

    /// A named condition and the expression that matched.
    pub fn condition(name: &str, matched: &str) -> (r: Self)
        ensures
            r matches ApprovalTrigger::Condition { name: n, matched: m } && n@ == name@ && m@ == matched@,
    {
        ApprovalTrigger::Condition { name: to_owned_string(name), matched: to_owned_string(matched) }
    }

    /// A state transition.
    pub fn state(from: Option<String>, to: &str) -> (r: Self)
        ensures
            r matches ApprovalTrigger::State { from: f, to: t } && f == from && t@ == to@,
    {
        ApprovalTrigger::State { from, to: to_owned_string(to) }
    }

    /// The kind of trigger: `tool`, `condition` or `state`.
    pub fn trigger_type(&self) -> (r: &'static str)
        ensures
            r@ == (match self {
                ApprovalTrigger::Tool { .. } => "tool"@,
                ApprovalTrigger::Condition { .. } => "condition"@,
                ApprovalTrigger::State { .. } => "state"@,
            }),
    {
        match self {
            ApprovalTrigger::Tool { .. } => "tool",
            ApprovalTrigger::Condition { .. } => "condition",
            ApprovalTrigger::State { .. } => "state",
        }
    }
}

/// A request put to the approver.
pub struct ApprovalRequest {
    pub id: String,
    pub trigger: ApprovalTrigger,
    pub context: Vec<(String, JsonValue)>,
    pub message: String,
    pub timeout: Option<WaitDuration>,
}

impl ApprovalRequest {
    /// A request with a fresh ID, no context and no timeout.
    pub fn new(trigger: ApprovalTrigger, message: &str) -> (r: Self)
        ensures
            hyphenated_uuid(r.id@),
            r.trigger == trigger,
            r.context@.len() == 0,
            r.message@ == message@,
            r.timeout is None,
    {
        ApprovalRequest {
            id: new_request_id(),
            trigger,
            context: Vec::new(),
            message: to_owned_string(message),
            timeout: None,
        }
    }

    /// The request with its context replaced.
    pub fn with_context(self, context: Vec<(String, JsonValue)>) -> (r: Self)
        ensures
            r.id == self.id,
            r.trigger == self.trigger,
            r.context == context,
            r.message == self.message,
            r.timeout == self.timeout,
    {
        ApprovalRequest { context, ..self }
    }

    /// The request with a timeout.
    pub fn with_timeout(self, timeout: WaitDuration) -> (r: Self)
        ensures
            r.id == self.id,
            r.trigger == self.trigger,
            r.context == self.context,
            r.message == self.message,
            r.timeout == Some(timeout),
    {
        ApprovalRequest { timeout: Some(timeout), ..self }
    }

    /// The request with a timeout of `seconds` seconds.
    pub fn with_timeout_seconds(self, seconds: u64) -> (r: Self)
        ensures
            r.id == self.id,
            r.trigger == self.trigger,
            r.context == self.context,
            r.message == self.message,
            r.timeout == Some(WaitDuration { secs: seconds, subsec_nanos: 0 }),
    {
        self.with_timeout(WaitDuration::from_secs(seconds))
    }
}

/// The approver's answer.
pub enum ApprovalResult {
    Approved,
    Rejected { reason: Option<String> },
    /// Approved with changed arguments.
    Modified { changes: Vec<(String, JsonValue)> },
    Timeout,
}

impl ApprovalResult {
    pub fn approved() -> (r: Self)
        ensures
            r is Approved,
    {
        ApprovalResult::Approved
    }

    pub fn rejected(reason: Option<String>) -> (r: Self)
        ensures
            r matches ApprovalResult::Rejected { reason: x } && x == reason,
    {
        ApprovalResult::Rejected { reason }
    }

    pub fn rejected_with_reason(reason: &str) -> (r: Self)
        ensures
            r matches ApprovalResult::Rejected { reason: Some(x) } && x@ == reason@,
    {
        ApprovalResult::Rejected { reason: Some(to_owned_string(reason)) }
    }

    pub fn modified(changes: Vec<(String, JsonValue)>) -> (r: Self)
        ensures
            r matches ApprovalResult::Modified { changes: c } && c == changes,
    {
        ApprovalResult::Modified { changes }
    }

    pub fn timeout() -> (r: Self)
        ensures
            r is Timeout,
    {
        ApprovalResult::Timeout
    }

    /// Approved, with or without changes.
    pub fn is_approved(&self) -> (b: bool)
        ensures
            b == (self is Approved || self is Modified),
    {
        match self {
            ApprovalResult::Approved => true,
            ApprovalResult::Modified { .. } => true,
            _ => false,
        }
    }

    pub fn is_rejected(&self) -> (b: bool)
        ensures
            b == self is Rejected,
    {
        match self {
            ApprovalResult::Rejected { .. } => true,
            _ => false,
        }
    }

    pub fn is_timeout(&self) -> (b: bool)
        ensures
            b == self is Timeout,
    {
        match self {
            ApprovalResult::Timeout => true,
            _ => false,
        }
    }
}

/// Whether an action needs approval, and the request to make if so.
pub enum HITLCheckResult {
    NotRequired,
    Required {
        trigger: ApprovalTrigger,
        context: Vec<(String, JsonValue)>,
        message: String,
        /// Seconds to wait for an answer.
        timeout: Option<u64>,
    },
}

impl HITLCheckResult {
    pub fn not_required() -> (r: Self)
        ensures
            r is NotRequired,
    {
        HITLCheckResult::NotRequired
    }

    pub fn required(trigger: ApprovalTrigger, context: Vec<(String, JsonValue)>, message: &str, timeout: Option<u64>) -> (r: Self)
        ensures
            r matches HITLCheckResult::Required { trigger: t, context: c, message: m, timeout: o }
                && t == trigger && c == context && m@ == message@ && o == timeout,
    {
        HITLCheckResult::Required { trigger, context, message: to_owned_string(message), timeout }
    }

    pub fn is_required(&self) -> (b: bool)
        ensures
            b == self is Required,
    {
        match self {
            HITLCheckResult::Required { .. } => true,
            _ => false,
        }
    }

    /// The request to put to the approver: none when no approval is needed.
    pub fn into_request(self) -> (r: Option<ApprovalRequest>)
        ensures
            match self {
                HITLCheckResult::NotRequired => r is None,
                HITLCheckResult::Required { trigger, context, message, timeout } => {
                    r matches Some(q)
                        && hyphenated_uuid(q.id@)
                        && q.trigger == trigger
                        && q.context == context
                        && q.message@ == message@
                        && q.timeout == (match timeout {
                            Some(s) => Some(WaitDuration { secs: s, subsec_nanos: 0 }),
                            None => None,
                        })
                },
            },
    {
        match self {
            HITLCheckResult::NotRequired => None,
            HITLCheckResult::Required { trigger, context, message, timeout } => {
                let mut request = ApprovalRequest::new(trigger, message.as_str()).with_context(context);
                match timeout {
                    Some(secs) => {
                        request = request.with_timeout_seconds(secs);
                    },
                    None => {},
                }
                Some(request)
            },
        }
    }
}

/// The text stored under `key` in an approval context, if it is a string.
pub open spec fn context_text(ctx: Seq<(Seq<char>, JsonView)>, key: Seq<char>) -> Option<Seq<char>> {
    match member(ctx, key) {
        Some(v) => as_str_view(v),
        None => None,
    }
}

/// The user's language named by an approval context: `user.language`,
/// else `input.detected.language`, else `language`, whichever first holds
/// a string.
pub open spec fn user_language(ctx: Seq<(Seq<char>, JsonView)>) -> Option<Seq<char>> {
    if context_text(ctx, "user.language"@) is Some {
        context_text(ctx, "user.language"@)
    } else if context_text(ctx, "input.detected.language"@) is Some {
        context_text(ctx, "input.detected.language"@)
    } else {
        context_text(ctx, "language"@)
    }
}

fn context_str(context: &Vec<(String, JsonValue)>, key: &str) -> (r: Option<String>)
    ensures
        r.deep_view() == context_text(members_view(context@), key@),
{
    match member_of(context, key) {
        Some(v) => match v.as_str() {
            Some(s) => Some(to_owned_string(s)),
            None => None,
        },
        None => None,
    }
}

/// The user's language, read from the approval context.
pub fn get_user_language(context: &Vec<(String, JsonValue)>) -> (r: Option<String>)
    ensures
        r.deep_view() == user_language(members_view(context@)),
{
    proof {
        reveal_strlit("user.language");
        reveal_strlit("input.detected.language");
        reveal_strlit("language");
    }
    let first = context_str(context, "user.language");
    if first.is_some() {
        return first;
    }
    let second = context_str(context, "input.detected.language");
    if second.is_some() {
        return second;
    }
    context_str(context, "language")
}

/// The text that replaces the placeholder of a context value: a string as
/// it is, an integer in decimal, `true`/`false`, `null`. Floating-point
/// numbers, arrays and objects have none here: their text is their JSON
/// serialization, which the caller supplies.
pub open spec fn scalar_text(v: JsonView) -> Option<Seq<char>> {
    match v {
        JsonView::Str(s) => Some(s),
        JsonView::Number(JsonNumber::PosInt(n)) => Some(decimal(n as nat)),
        JsonView::Number(JsonNumber::NegInt(n)) => {
            if n < 0 {
                Some(seq!['-'] + decimal((-n) as nat))
            } else {
                Some(decimal(n as nat))
            }
        },
        JsonView::Bool(b) => Some(if b { "true"@ } else { "false"@ }),
        JsonView::Null => Some("null"@),
        _ => None,
    }
}

/// The replacement text of a scalar context value (see `scalar_text`).
pub fn value_text(v: &JsonValue) -> (r: Option<String>)
    ensures
        r.deep_view() == scalar_text(v@),
{
    match v {
        JsonValue::Str(s) => Some(s.clone()),
        JsonValue::Number(JsonNumber::PosInt(n)) => Some(u64_to_decimal(*n)),
        JsonValue::Number(JsonNumber::NegInt(n)) => {
            if *n < 0 {
                let magnitude: u64 = (0i128 - (*n as i128)) as u64;
                let mut out = to_owned_string("-");
                let digits = u64_to_decimal(magnitude);
                push_str(&mut out, digits.as_str());
                proof {
                    reveal_strlit("-");
                    assert(out@ =~= seq!['-'] + decimal((-*n) as nat));
                }
                Some(out)
            } else {
                Some(u64_to_decimal(*n as u64))
            }
        },
        JsonValue::Bool(b) => {
            if *b {
                Some(to_owned_string("true"))
            } else {
                Some(to_owned_string("false"))
            }
        },
        JsonValue::Null => Some(to_owned_string("null")),
        _ => None,
    }
}

/// The placeholder of a context key: `{{ key }}`.
pub open spec fn placeholder(key: Seq<char>) -> Seq<char> {
    "{{ "@ + key + " }}"@
}

/// `template` with the placeholder of each entry replaced by the entry's
/// text, entry after entry.
pub open spec fn rendered(template: Seq<char>, entries: Seq<(Seq<char>, Seq<char>)>) -> Seq<char>
    decreases entries.len(),
{
    if entries.len() == 0 {
        template
    } else {
        replace_all(rendered(template, entries.drop_last()), placeholder(entries.last().0), entries.last().1)
    }
}

/// Fills the `{{ key }}` placeholders of a message with the texts of the
/// context values, given as (key, text) pairs.
pub fn render_template(template: &str, entries: &Vec<(String, String)>) -> (r: String)
    ensures
        r@ == rendered(template@, entries.deep_view()),
{
    let mut result = to_owned_string(template);
    let mut i: usize = 0;
    proof {
        reveal_strlit("{{ ");
        reveal_strlit(" }}");
    }
    while i < entries.len()
        invariant
            i <= entries@.len(),
            result@ == rendered(template@, entries.deep_view().take(i as int)),
            "{{ "@.len() == 3,
            " }}"@.len() == 3,
        decreases entries@.len() - i,
    {
        let mut pat = to_owned_string("{{ ");
        push_str(&mut pat, entries[i].0.as_str());
        push_str(&mut pat, " }}");
        let next = str_replace(result.as_str(), pat.as_str(), entries[i].1.as_str());
        proof {
            let t = entries.deep_view().take(i + 1);
            assert(t.drop_last() =~= entries.deep_view().take(i as int));
            assert(t.last() == (entries@[i as int].0@, entries@[i as int].1@));
        }
        result = next;
        i = i + 1;
    }
    assert(entries.deep_view().take(entries@.len() as int) =~= entries.deep_view());
    result
}

/// The language for which a message would be shown: the approver's if the
/// message has it, else the user's if it has it, else English if it has
/// it, else its first language.
pub open spec fn best_language(m: MessageView, preferred: Option<Seq<char>>, ctx: Seq<(Seq<char>, JsonView)>) -> Option<Seq<char>> {
    if preferred is Some && message_for(m, preferred->0) is Some {
        preferred
    } else if user_language(ctx) is Some && message_for(m, user_language(ctx)->0) is Some {
        user_language(ctx)
    } else if message_for(m, "en"@) is Some {
        Some("en"@)
    } else {
        let langs = match m {
            MessageView::Simple(_) => Seq::<Seq<char>>::empty(),
            MessageView::MultiLanguage { messages, .. } => distinct_keys(messages),
        };
        if langs.len() > 0 { Some(langs[0]) } else { None }
    }
}

/// Picks the language in which to show an approval message;
/// `preferred` is the approver's preferred language.
pub fn resolve_best_language(approval_message: &ApprovalMessage, preferred: Option<&str>, context: &Vec<(String, JsonValue)>) -> (r: Option<String>)
    ensures
        r.deep_view() == best_language(approval_message@, preferred.deep_view(), members_view(context@)),
{
    proof {
        reveal_strlit("en");
    }
    match preferred {
        Some(lang) => {
            if approval_message.get(lang).is_some() {
                return Some(to_owned_string(lang));
            }
        },
        None => {},
    }
    match get_user_language(context) {
        Some(lang) => {
            if approval_message.get(lang.as_str()).is_some() {
                return Some(lang);
            }
        },
        None => {},
    }
    if approval_message.get("en").is_some() {
        return Some(to_owned_string("en"));
    }
    let langs = approval_message.available_languages();
    if langs.len() > 0 {
        Some(langs[0].clone())
    } else {
        None
    }
}

/// The message a strategy yields without an LLM: the text in the
/// approver's language, the user's language or the configured language.
pub open spec fn strategy_message(
    strategy: MessageLanguageStrategy,
    m: MessageView,
    explicit: Option<Seq<char>>,
    preferred: Option<Seq<char>>,
    ctx: Seq<(Seq<char>, JsonView)>,
) -> Option<Seq<char>> {
    match strategy {
        MessageLanguageStrategy::Approver => if preferred is Some { message_for(m, preferred->0) } else { None },
        MessageLanguageStrategy::User => if user_language(ctx) is Some { message_for(m, user_language(ctx)->0) } else { None },
        MessageLanguageStrategy::Explicit => if explicit is Some { message_for(m, explicit->0) } else { None },
        _ => None,
    }
}

/// What to show when no strategy yields a message: some text of the
/// message, else its description, else `Approval required`.
pub open spec fn fallback_text(m: MessageView) -> Seq<char> {
    if any_message(m) is Some {
        any_message(m)->0
    } else if message_description(m) is Some {
        message_description(m)->0
    } else {
        "Approval required"@
    }
}

/// How an approval message is obtained.
pub enum MessagePlan {
    /// This text, with its placeholders filled from the context.
    Render(String),
    /// A text to be written by the configured LLM, then filled likewise.
    Generate,
    /// This text as it is.
    Final(String),
}

/// Mathematical form of a plan.
pub enum PlanView {
    Render(Seq<char>),
    Generate,
    Final(Seq<char>),
}

impl View for MessagePlan {
    type V = PlanView;

    open spec fn view(&self) -> PlanView {
        match self {
            MessagePlan::Render(s) => PlanView::Render(s@),
            MessagePlan::Generate => PlanView::Generate,
            MessagePlan::Final(s) => PlanView::Final(s@),
        }
    }
}

/// The plan given by the first strategy of `chain` that yields something;
/// LLM generation yields when an LLM is available.
pub open spec fn plan_chain(
    chain: Seq<MessageLanguageStrategy>,
    m: MessageView,
    explicit: Option<Seq<char>>,
    preferred: Option<Seq<char>>,
    ctx: Seq<(Seq<char>, JsonView)>,
    llm_available: bool,
) -> PlanView
    decreases chain.len(),
{
    if chain.len() == 0 {
        PlanView::Final(fallback_text(m))
    } else if chain[0] == MessageLanguageStrategy::LlmGenerate && llm_available {
        PlanView::Generate
    } else if strategy_message(chain[0], m, explicit, preferred, ctx) is Some {
        PlanView::Render(strategy_message(chain[0], m, explicit, preferred, ctx)->0)
    } else {
        plan_chain(chain.skip(1), m, explicit, preferred, ctx, llm_available)
    }
}

/// The strategy chain of a configuration: its strategy, then its fallbacks.
pub open spec fn strategy_chain(config: &MessageLanguageConfig) -> Seq<MessageLanguageStrategy> {
    seq![config.strategy] + config.fallback@
}

fn try_strategy(
    strategy: MessageLanguageStrategy,
    approval_message: &ApprovalMessage,
    explicit: &Option<String>,
    preferred: Option<&str>,
    context: &Vec<(String, JsonValue)>,
) -> (r: Option<String>)
    ensures
        r.deep_view() == strategy_message(strategy, approval_message@, explicit.deep_view(), preferred.deep_view(), members_view(context@)),
{
    match strategy {
        MessageLanguageStrategy::Approver => match preferred {
            Some(lang) => approval_message.get(lang),
            None => None,
        },
        MessageLanguageStrategy::User => match get_user_language(context) {
            Some(lang) => approval_message.get(lang.as_str()),
            None => None,
        },
        MessageLanguageStrategy::Explicit => match explicit {
            Some(lang) => approval_message.get(lang.as_str()),
            None => None,
        },
        _ => None,
    }
}

fn fallback_message(approval_message: &ApprovalMessage) -> (r: String)
    ensures
        r@ == fallback_text(approval_message@),
{
    match approval_message.get_any() {
        Some(t) => t,
        None => match approval_message.description() {
            Some(d) => to_owned_string(d),
            None => {
                proof {
                    reveal_strlit("Approval required");
                }
                to_owned_string("Approval required")
            },
        },
    }
}

/// Chooses how to obtain the text of an approval message: strategies are
/// tried in the order of `config` (its strategy, then its fallbacks).
/// `preferred` is the approver's preferred language; `llm_available` says
/// whether an LLM registry is at hand for generated messages.
pub fn plan_message(
    approval_message: &ApprovalMessage,
    config: &MessageLanguageConfig,
    preferred: Option<&str>,
    context: &Vec<(String, JsonValue)>,
    llm_available: bool,
) -> (r: MessagePlan)
    ensures
        r@ == plan_chain(strategy_chain(config), approval_message@, config.explicit.deep_view(),
            preferred.deep_view(), members_view(context@), llm_available),
{
    let ghost chain = strategy_chain(config);
    let ghost m = approval_message@;
    let ghost ex = config.explicit.deep_view();
    let ghost pr = preferred.deep_view();
    let ghost ctx = members_view(context@);
    if config.strategy == MessageLanguageStrategy::LlmGenerate && llm_available {
        return MessagePlan::Generate;
    }
    match try_strategy(config.strategy, approval_message, &config.explicit, preferred, context) {
        Some(t) => {
            return MessagePlan::Render(t);
        },
        None => {},
    }
    let n = config.fallback.len();
    let mut i: usize = 0;
    assert(chain.skip(1) =~= config.fallback@);
    assert(chain[0] == config.strategy);
    assert(config.fallback@.skip(0) =~= config.fallback@);
    assert(plan_chain(chain, m, ex, pr, ctx, llm_available) == plan_chain(chain.skip(1), m, ex, pr, ctx, llm_available));
    while i < n
        invariant
            n == config.fallback@.len(),
            chain == strategy_chain(config),
            m == approval_message@,
            ex == config.explicit.deep_view(),
            pr == preferred.deep_view(),
            ctx == members_view(context@),
            i <= n,
            plan_chain(chain, m, ex, pr, ctx, llm_available) == plan_chain(config.fallback@.skip(i as int), m, ex, pr, ctx, llm_available),
        decreases n - i,
    {
        let strategy = config.fallback[i];
        assert(config.fallback@.skip(i as int)[0] == strategy);
        assert(config.fallback@.skip(i as int).skip(1) =~= config.fallback@.skip(i + 1));
        if strategy == MessageLanguageStrategy::LlmGenerate && llm_available {
            return MessagePlan::Generate;
        }
        match try_strategy(strategy, approval_message, &config.explicit, preferred, context) {
            Some(t) => {
                return MessagePlan::Render(t);
            },
            None => {},
        }
        i = i + 1;
    }
    assert(config.fallback@.skip(i as int) =~= Seq::<MessageLanguageStrategy>::empty());
    MessagePlan::Final(fallback_message(approval_message))
}

/// The text asking to approve a tool that has no approval message.
pub open spec fn default_tool_message(tool_name: Seq<char>) -> Seq<char> {
    "Approve execution of tool '"@ + tool_name + "'?"@
}

/// Chooses how to obtain the approval message of a tool call: a tool
/// without a message gets a default text; otherwise the tool's own
/// language settings, or the global ones, decide (see `plan_message`).
pub fn plan_tool_message(
    tool_config: &ToolApprovalConfig,
    tool_name: &str,
    global_config: &MessageLanguageConfig,
    preferred: Option<&str>,
    context: &Vec<(String, JsonValue)>,
    llm_available: bool,
) -> (r: MessagePlan)
    ensures
        message_is_empty(tool_config.approval_message@) ==> r@ == PlanView::Final(default_tool_message(tool_name@)),
        !message_is_empty(tool_config.approval_message@) ==> r@ == plan_chain(
            strategy_chain(match &tool_config.message_language { Some(c) => c, None => global_config }),
            tool_config.approval_message@,
            (match &tool_config.message_language { Some(c) => c, None => global_config }).explicit.deep_view(),
            preferred.deep_view(),
            members_view(context@),
            llm_available,
        ),
{
    if tool_config.approval_message.is_empty() {
        let mut t = to_owned_string("Approve execution of tool '");
        push_str(&mut t, tool_name);
        push_str(&mut t, "'?");
        return MessagePlan::Final(t);
    }
    let config = match &tool_config.message_language {
        Some(c) => c,
        None => global_config,
    };
    plan_message(&tool_config.approval_message, config, preferred, context, llm_available)
}

/// The language an LLM is asked to write a message in: the approver's,
/// else the user's, else English.
pub open spec fn generation_language(preferred: Option<Seq<char>>, ctx: Seq<(Seq<char>, JsonView)>) -> Seq<char> {
    if preferred is Some {
        preferred->0
    } else if user_language(ctx) is Some {
        user_language(ctx)->0
    } else {
        "English"@
    }
}

/// The action an LLM is asked to describe: the message's description, else
/// some text of it, else a generic phrase.
pub open spec fn generation_action(m: MessageView) -> Seq<char> {
    if message_description(m) is Some {
        message_description(m)->0
    } else if any_message(m) is Some {
        any_message(m)->0
    } else {
        "Approval required for this action"@
    }
}

/// The instruction given to an LLM that writes an approval message.
/// `context_json` is the serialized context, shown when present.
pub open spec fn generation_prompt_text(lang: Seq<char>, action: Seq<char>, context_json: Option<Seq<char>>) -> Seq<char> {
    "Generate a clear, concise approval request message in "@ + lang + ".\nAction: "@ + action
        + (match context_json {
            Some(j) => "\nContext: "@ + j,
            None => Seq::empty(),
        })
        + "\nRequirements:\n- Keep it under 100 words\n- Be direct and professional\n- Include any relevant context values using { key } placeholders if applicable\n- Output only the message text, no explanations"@
}

/// The instruction for an LLM that writes an approval message.
/// `context_json` is the pretty-printed approval context; it is shown only
/// when `include_context` is set and the context is not empty.
pub fn generation_prompt(
    approval_message: &ApprovalMessage,
    preferred: Option<&str>,
    context: &Vec<(String, JsonValue)>,
    include_context: bool,
    context_json: &str,
) -> (r: String)
    ensures
        r@ == generation_prompt_text(
            generation_language(preferred.deep_view(), members_view(context@)),
            generation_action(approval_message@),
            if include_context && context@.len() > 0 { Some(context_json@) } else { None },
        ),
{
    let lang = match preferred {
        Some(l) => to_owned_string(l),
        None => match get_user_language(context) {
            Some(l) => l,
            None => to_owned_string("English"),
        },
    };
    let action = match approval_message.description() {
        Some(d) => to_owned_string(d),
        None => match approval_message.get_any() {
            Some(t) => t,
            None => to_owned_string("Approval required for this action"),
        },
    };
    let mut out = to_owned_string("Generate a clear, concise approval request message in ");
    push_str(&mut out, lang.as_str());
    push_str(&mut out, ".\nAction: ");
    push_str(&mut out, action.as_str());
    if include_context && context.len() > 0 {
        push_str(&mut out, "\nContext: ");
        push_str(&mut out, context_json);
    }
    push_str(&mut out, "\nRequirements:\n- Keep it under 100 words\n- Be direct and professional\n- Include any relevant context values using { key } placeholders if applicable\n- Output only the message text, no explanations");
    proof {
        reveal_strlit("English");
        reveal_strlit("Approval required for this action");
    }
    assert(out@ =~= generation_prompt_text(
        generation_language(preferred.deep_view(), members_view(context@)),
        generation_action(approval_message@),
        if include_context && context@.len() > 0 { Some(context_json@) } else { None },
    ));
    out
}

/// The message an LLM wrote, without surrounding white space.
pub fn generated_message(content: &str) -> (r: String)
    ensures
        r@ == trim_seq(content@),
{
    let v = chars_of(content);
    let t = trim_chars(&v);
    string_from_chars(t.as_slice())
}

} // verus!
