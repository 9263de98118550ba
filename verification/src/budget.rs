//! Per-scenario LLM budget accounting.
//!
//! Every provider call first reserves an upper bound of the tokens it may
//! use; the reservation is settled against the reported (or estimated) usage
//! when the call ends, or charged in full when the outcome is unknown. The
//! first refusal is remembered, and every later reservation fails with the
//! same message. Cost limits are checked by the caller, which passes its
//! verdict in, since costs are floating-point amounts.
use vstd::prelude::*;
use crate::chat::{ChatMessage, TokenUsage, usage_of};
use crate::facts::{utf8_len, utf8_byte_len};
use crate::text::{chars_of, decimal, push_str, u64_to_decimal, to_owned_string};

verus! {

/// Prefix of every budget refusal message.
pub open spec fn budget_prefix() -> Seq<char> {
    "eval budget exceeded"@
}

/// Limits configured for one scenario (the integer ones; a cost limit is
/// represented by whether one is configured).
pub struct BudgetLimits {
    pub max_llm_calls: Option<u64>,
    pub max_total_tokens: Option<u64>,
}

/// Usage recorded so far for one scenario.
pub struct BudgetUsage {
    pub llm_calls: u64,
    pub tokens_used: u64,
    pub tokens_reserved: u64,
    /// The message of the first refusal, once there has been one.
    pub failure: Option<String>,
}

/// The caller's verdict on the cost dimension of a reservation or settlement.
pub enum CostVerdict {
    /// No cost limit is configured, or the projected cost fits it.
    WithinLimit,
    /// The projected cost exceeds the limit; the message explains it.
    Exceeded(String),
    /// The model has no pricing, so the cost cannot be estimated.
    PricingMissing(String),
}

/// The message carried by a cost verdict (empty when within the limit).
pub open spec fn cost_message(cost: CostVerdict) -> Seq<char> {
    match cost {
        CostVerdict::WithinLimit => Seq::empty(),
        CostVerdict::Exceeded(m) => m@,
        CostVerdict::PricingMissing(m) => m@,
    }
}

/// Mathematical form of the usage.
pub struct UsageView {
    pub llm_calls: nat,
    pub tokens_used: nat,
    pub tokens_reserved: nat,
    pub failure: Option<Seq<char>>,
}

impl View for BudgetUsage {
    type V = UsageView;

    open spec fn view(&self) -> UsageView {
        UsageView {
            llm_calls: self.llm_calls as nat,
            tokens_used: self.tokens_used as nat,
            tokens_reserved: self.tokens_reserved as nat,
            failure: match &self.failure {
                Some(m) => Some(m@),
                None => None,
            },
        }
    }
}

/// Saturating addition on `u64` values.
pub open spec fn sat_add(a: nat, b: nat) -> nat {
    if a + b > u64::MAX { u64::MAX as nat } else { a + b }
}

/// Saturating subtraction on natural numbers.
pub open spec fn sat_sub(a: nat, b: nat) -> nat {
    if a >= b { (a - b) as nat } else { 0 }
}

/// Message for a refused call because of the call limit.
pub open spec fn calls_message(max: nat, blocked: nat) -> Seq<char> {
    budget_prefix() + ": max_llm_calls="@ + decimal(max) + "; blocked provider call "@ + decimal(blocked)
}

/// Message for a refused reservation because of the token limit.
pub open spec fn tokens_reserve_message(max: nat, projected: nat) -> Seq<char> {
    budget_prefix() + ": max_total_tokens="@ + decimal(max) + "; projected reserved total="@ + decimal(projected)
}

/// Message for a failed settlement because of the token limit.
pub open spec fn tokens_finish_message(max: nat, actual: nat) -> Seq<char> {
    budget_prefix() + ": max_total_tokens="@ + decimal(max) + "; actual and reserved total="@ + decimal(actual)
}

/// Outcome of a reservation request.
pub enum ReserveOutcome {
    /// The call may proceed; this many tokens were reserved for it.
    Reserved(u64),
    /// The call is refused with this message.
    Refused(String),
}

/// What a reservation does to the usage and what it answers, as a function
/// of the state before it.
pub open spec fn reserve_result(
    u: UsageView,
    max_calls: Option<u64>,
    max_tokens: Option<u64>,
    tokens: nat,
    cost: CostVerdict,
) -> (UsageView, Result<nat, Seq<char>>) {
    if cost is PricingMissing {
        (UsageView { failure: Some(cost_message(cost)), ..u }, Err(cost_message(cost)))
    } else if u.failure is Some {
        (u, Err(u.failure->0))
    } else if max_calls is Some && u.llm_calls >= max_calls->0 {
        let m = calls_message(max_calls->0 as nat, u.llm_calls + 1);
        (UsageView { failure: Some(m), ..u }, Err(m))
    } else if max_tokens is Some
        && sat_add(sat_add(u.tokens_used, u.tokens_reserved), tokens) > max_tokens->0 {
        let m = tokens_reserve_message(max_tokens->0 as nat, sat_add(sat_add(u.tokens_used, u.tokens_reserved), tokens));
        (UsageView { failure: Some(m), ..u }, Err(m))
    } else if cost is Exceeded {
        (UsageView { failure: Some(cost_message(cost)), ..u }, Err(cost_message(cost)))
    } else {
        (
            UsageView {
                llm_calls: u.llm_calls + 1,
                tokens_reserved: sat_add(u.tokens_reserved, tokens),
                ..u
            },
            Ok(tokens),
        )
    }
}

/// What settling a reservation of `reserved` tokens against an actual usage
/// of `actual` tokens does to the usage and what it answers.
pub open spec fn finish_result(
    u: UsageView,
    max_tokens: Option<u64>,
    reserved: nat,
    actual: nat,
    cost: CostVerdict,
) -> (UsageView, Result<(), Seq<char>>) {
    if cost is PricingMissing {
        (UsageView {
            failure: Some(cost_message(cost)),
            tokens_reserved: sat_sub(u.tokens_reserved, reserved),
            tokens_used: sat_add(u.tokens_used, reserved),
            ..u
        }, Err(cost_message(cost)))
    } else {
        let settled = UsageView {
            tokens_reserved: sat_sub(u.tokens_reserved, reserved),
            tokens_used: sat_add(u.tokens_used, actual),
            ..u
        };
        let total = sat_add(settled.tokens_used, settled.tokens_reserved);
        if max_tokens is Some && total > max_tokens->0 {
            let m = tokens_finish_message(max_tokens->0 as nat, total);
            (UsageView { failure: Some(m), ..settled }, Err(m))
        } else if cost is Exceeded {
            (UsageView { failure: Some(cost_message(cost)), ..settled }, Err(cost_message(cost)))
        } else {
            (settled, Ok(()))
        }
    }
}

/// Builds `prefix: <label>=<max>; <tail><value>`.
fn limit_message(label: &str, max: u64, tail: &str, value: u64) -> (m: String)
    ensures
        m@ == budget_prefix() + label@ + decimal(max as nat) + tail@ + decimal(value as nat),
{
    let mut m = to_owned_string("eval budget exceeded");
    proof {
        reveal_strlit("eval budget exceeded");
    }
    push_str(&mut m, label);
    let a = u64_to_decimal(max);
    push_str(&mut m, a.as_str());
    push_str(&mut m, tail);
    let b = u64_to_decimal(value);
    push_str(&mut m, b.as_str());
    m
}

impl BudgetUsage {
    /// No calls and no tokens yet.
    pub fn new() -> (u: BudgetUsage)
        ensures
            u@ == (UsageView { llm_calls: 0, tokens_used: 0, tokens_reserved: 0, failure: None }),
    {
        BudgetUsage { llm_calls: 0, tokens_used: 0, tokens_reserved: 0, failure: None }
    }

    /// Whether a budget refusal has happened.
    pub fn has_failed(&self) -> (r: bool)
        ensures
            r == self@.failure is Some,
    {
        self.failure.is_some()
    }

    /// Reserves `tokens` for one provider call, or refuses it and remembers
    /// the refusal.
    pub fn reserve(&mut self, limits: &BudgetLimits, tokens: u64, cost: CostVerdict) -> (r: ReserveOutcome)
        requires
            old(self)@.llm_calls < u64::MAX,
        ensures
            ({
                let (u, res) = reserve_result(old(self)@, limits.max_llm_calls, limits.max_total_tokens, tokens as nat, cost);
                &&& final(self)@ == u
                &&& match r {
                    ReserveOutcome::Reserved(t) => res == Ok::<nat, Seq<char>>(t as nat),
                    ReserveOutcome::Refused(m) => res == Err::<nat, Seq<char>>(m@),
                }
            }),
    {
        match cost {
            CostVerdict::PricingMissing(m) => {
                self.failure = Some(m.clone());
                return ReserveOutcome::Refused(m);
            },
            _ => {},
        }
        if let Some(f) = &self.failure {
            return ReserveOutcome::Refused(f.clone());
        }
        if let Some(max) = limits.max_llm_calls {
            if self.llm_calls >= max {
                let m = limit_message(": max_llm_calls=", max, "; blocked provider call ", self.llm_calls + 1);
                proof {
                    reveal_strlit(": max_llm_calls=");
                    reveal_strlit("; blocked provider call ");
                }
                self.failure = Some(m.clone());
                return ReserveOutcome::Refused(m);
            }
        }
        let projected = self.tokens_used.saturating_add(self.tokens_reserved).saturating_add(tokens);
        if let Some(max) = limits.max_total_tokens {
            if projected > max {
                let m = limit_message(": max_total_tokens=", max, "; projected reserved total=", projected);
                proof {
                    reveal_strlit(": max_total_tokens=");
                    reveal_strlit("; projected reserved total=");
                }
                self.failure = Some(m.clone());
                return ReserveOutcome::Refused(m);
            }
        }
        match cost {
            CostVerdict::Exceeded(m) => {
                self.failure = Some(m.clone());
                return ReserveOutcome::Refused(m);
            },
            _ => {},
        }
        self.llm_calls = self.llm_calls + 1;
        self.tokens_reserved = self.tokens_reserved.saturating_add(tokens);
        ReserveOutcome::Reserved(tokens)
    }

    /// Settles a reservation of `reserved` tokens against the `actual` total
    /// reported for the call.
    pub fn finish(&mut self, limits: &BudgetLimits, reserved: u64, actual: u64, cost: CostVerdict) -> (r: Result<(), String>)
        ensures
            ({
                let (u, res) = finish_result(old(self)@, limits.max_total_tokens, reserved as nat, actual as nat, cost);
                &&& final(self)@ == u
                &&& match r {
                    Ok(()) => res == Ok::<(), Seq<char>>(()),
                    Err(m) => res == Err::<(), Seq<char>>(m@),
                }
            }),
    {
        match cost {
            CostVerdict::PricingMissing(m) => {
                self.failure = Some(m.clone());
                self.finish_unknown(reserved);
                return Err(m);
            },
            _ => {},
        }
        self.tokens_reserved = self.tokens_reserved.saturating_sub(reserved);
        self.tokens_used = self.tokens_used.saturating_add(actual);
        let total = self.tokens_used.saturating_add(self.tokens_reserved);
        if let Some(max) = limits.max_total_tokens {
            if total > max {
                let m = limit_message(": max_total_tokens=", max, "; actual and reserved total=", total);
                proof {
                    reveal_strlit(": max_total_tokens=");
                    reveal_strlit("; actual and reserved total=");
                }
                self.failure = Some(m.clone());
                return Err(m);
            }
        }
        match cost {
            CostVerdict::Exceeded(m) => {
                self.failure = Some(m.clone());
                Err(m)
            },
            _ => Ok(()),
        }
    }

    /// Charges a reservation in full when the call's usage is unknown (the
    /// provider failed, or the call was dropped before it finished).
    pub fn finish_unknown(&mut self, reserved: u64)
        ensures
            final(self)@ == (UsageView {
                tokens_reserved: sat_sub(old(self)@.tokens_reserved, reserved as nat),
                tokens_used: sat_add(old(self)@.tokens_used, reserved as nat),
                ..old(self)@
            }),
    {
        self.tokens_reserved = self.tokens_reserved.saturating_sub(reserved);
        self.tokens_used = self.tokens_used.saturating_add(reserved);
    }
}

/// Upper bound on the input tokens of a message list: its UTF-8 length plus
/// sixteen per message, saturating.
pub open spec fn message_tokens_upper_bound(msgs: Seq<ChatMessage>) -> nat
    decreases msgs.len(),
{
    if msgs.len() == 0 {
        0
    } else {
        sat_add(sat_add(message_tokens_upper_bound(msgs.drop_last()), utf8_len(msgs.last().content@)), 16)
    }
}

/// Computes `message_tokens_upper_bound`.
pub fn upper_bound_message_tokens(messages: &Vec<ChatMessage>) -> (n: u64)
    ensures
        n == message_tokens_upper_bound(messages@),
{
    let mut total: u64 = 0;
    let mut i: usize = 0;
    while i < messages.len()
        invariant
            i <= messages@.len(),
            total == message_tokens_upper_bound(messages@.take(i as int)),
        decreases messages@.len() - i,
    {
        let c = chars_of(messages[i].content.as_str());
        let bytes = utf8_byte_len(&c);
        let b: u64 = if bytes > u64::MAX as u128 { u64::MAX } else { bytes as u64 };
        proof {
            assert(messages@.take(i + 1).drop_last() =~= messages@.take(i as int));
            assert(messages@.take(i + 1).last() == messages@[i as int]);
        }
        total = total.saturating_add(b).saturating_add(16);
        i = i + 1;
    }
    assert(messages@.take(messages@.len() as int) =~= messages@);
    total
}

/// Number of tokens estimated for `chars` characters: four characters per
/// token, rounded up, and never less than one.
pub open spec fn spec_estimate_chars(chars: nat) -> nat {
    if chars == 0 { 1 } else { ((chars + 3) / 4) as nat }
}

/// Estimates tokens from a character count.
pub fn estimate_chars(chars: usize) -> (tokens: u64)
    ensures
        tokens == spec_estimate_chars(chars as nat),
{
    if chars == 0 {
        1
    } else {
        let c = chars as u64;
        c / 4 + if c % 4 == 0 { 0 } else { 1 }
    }
}

/// Estimated input tokens of a message list: the sum over messages of the
/// estimate for their character counts, saturating.
pub open spec fn message_tokens_estimate(msgs: Seq<ChatMessage>) -> nat
    decreases msgs.len(),
{
    if msgs.len() == 0 {
        0
    } else {
        sat_add(message_tokens_estimate(msgs.drop_last()), spec_estimate_chars(msgs.last().content@.len()))
    }
}

/// Computes `message_tokens_estimate`.
pub fn estimate_message_tokens(messages: &Vec<ChatMessage>) -> (n: u64)
    ensures
        n == message_tokens_estimate(messages@),
{
    let mut total: u64 = 0;
    let mut i: usize = 0;
    while i < messages.len()
        invariant
            i <= messages@.len(),
            total == message_tokens_estimate(messages@.take(i as int)),
        decreases messages@.len() - i,
    {
        let c = chars_of(messages[i].content.as_str());
        proof {
            assert(messages@.take(i + 1).drop_last() =~= messages@.take(i as int));
            assert(messages@.take(i + 1).last() == messages@[i as int]);
        }
        total = total.saturating_add(estimate_chars(c.len()));
        i = i + 1;
    }
    assert(messages@.take(messages@.len() as int) =~= messages@);
    total
}

/// Tokens reserved for a call: the input bound (plus `additional` input
/// tokens, such as an encoded tool request) and the output allowance,
/// saturating.
pub open spec fn reservation_tokens(msgs: Seq<ChatMessage>, additional: nat, max_output: nat) -> nat {
    sat_add(sat_add(message_tokens_upper_bound(msgs), additional), max_output)
}

/// Computes the token reservation for a call whose output is capped at
/// `max_output` tokens.
pub fn reservation_for(messages: &Vec<ChatMessage>, additional: u64, max_output: u32) -> (n: u64)
    ensures
        n == reservation_tokens(messages@, additional as nat, max_output as nat),
{
    upper_bound_message_tokens(messages).saturating_add(additional).saturating_add(max_output as u64)
}

/// A count held at `u32::MAX`.
pub open spec fn clamp_u32(n: nat) -> u32 {
    if n > u32::MAX { u32::MAX } else { n as u32 }
}

fn clamp_to_u32(n: u64) -> (r: u32)
    ensures
        r == clamp_u32(n as nat),
{
    if n > u32::MAX as u64 { u32::MAX } else { n as u32 }
}

/// Usage estimated for a completion without reported usage: the prompt's
/// estimate and the output's, each held at `u32::MAX`.
pub fn estimate_usage(messages: &Vec<ChatMessage>, output: &str) -> (r: TokenUsage)
    ensures
        r == usage_of(
            clamp_u32(message_tokens_estimate(messages@)),
            clamp_u32(spec_estimate_chars(output@.len())),
        ),
{
    let chars = chars_of(output);
    TokenUsage::new(clamp_to_u32(estimate_message_tokens(messages)), clamp_to_u32(estimate_chars(chars.len())))
}

/// Usage estimated for a completion with tools: the prompt's estimate plus
/// that of the encoded request (`request_chars` characters), and the
/// estimate of the content with the encoded tool calls (`tool_call_chars`
/// characters), each held at `u32::MAX`.
pub fn estimate_tool_usage(messages: &Vec<ChatMessage>, request_chars: usize, content: &str, tool_call_chars: usize) -> (r: TokenUsage)
    ensures
        r == usage_of(
            clamp_u32(sat_add(message_tokens_estimate(messages@), spec_estimate_chars(request_chars as nat))),
            clamp_u32(spec_estimate_chars(
                if content@.len() + tool_call_chars > usize::MAX { usize::MAX as nat } else { (content@.len() + tool_call_chars) as nat },
            )),
        ),
{
    let chars = chars_of(content);
    let response_chars = chars.len().saturating_add(tool_call_chars);
    let prompt = estimate_message_tokens(messages).saturating_add(estimate_chars(request_chars));
    TokenUsage::new(clamp_to_u32(prompt), clamp_to_u32(estimate_chars(response_chars)))
}

/// Usage charged for a stream that ended without reporting any: the
/// reserved input tokens and the estimate of the output streamed, each held
/// at `u32::MAX`, with their saturating sum held at `u32::MAX` as the total.
pub fn stream_fallback_usage(input_tokens: u64, output_chars: usize) -> (r: TokenUsage)
    ensures
        r == (TokenUsage {
            prompt_tokens: clamp_u32(input_tokens as nat),
            completion_tokens: clamp_u32(spec_estimate_chars(output_chars as nat)),
            total_tokens: clamp_u32(sat_add(input_tokens as nat, spec_estimate_chars(output_chars as nat))),
        }),
{
    let output = estimate_chars(output_chars);
    TokenUsage {
        prompt_tokens: clamp_to_u32(input_tokens),
        completion_tokens: clamp_to_u32(output),
        total_tokens: clamp_to_u32(input_tokens.saturating_add(output)),
    }
}

// Laws of the accounting.

/// A successful reservation keeps used plus reserved tokens within the token
/// limit, and the number of admitted calls within the call limit.
pub proof fn law_reservation_respects_limits(
    u: UsageView,
    max_calls: Option<u64>,
    max_tokens: Option<u64>,
    tokens: nat,
    cost: CostVerdict,
)
    requires
        u.tokens_used + u.tokens_reserved + tokens <= u64::MAX,
        reserve_result(u, max_calls, max_tokens, tokens, cost).1 is Ok,
    ensures
        ({
            let n = reserve_result(u, max_calls, max_tokens, tokens, cost).0;
            &&& max_tokens is Some ==> n.tokens_used + n.tokens_reserved <= max_tokens->0
            &&& max_calls is Some ==> n.llm_calls <= max_calls->0
            &&& n.llm_calls == u.llm_calls + 1
        }),
{
}

/// Once a refusal has been recorded, every later reservation is refused with
/// the same message and changes nothing, unless pricing is missing.
pub proof fn law_refusal_is_sticky(
    u: UsageView,
    max_calls: Option<u64>,
    max_tokens: Option<u64>,
    tokens: nat,
    cost: CostVerdict,
)
    requires
        u.failure is Some,
        !(cost is PricingMissing),
    ensures
        reserve_result(u, max_calls, max_tokens, tokens, cost) == (u, Err::<nat, Seq<char>>(u.failure->0)),
{
}

/// The usage after a series of reservations, and the answer to each; a
/// request is a token estimate with its cost check.
pub open spec fn reserve_all(
    u: UsageView,
    max_calls: Option<u64>,
    max_tokens: Option<u64>,
    requests: Seq<(nat, CostVerdict)>,
) -> (UsageView, Seq<Result<nat, Seq<char>>>)
    decreases requests.len(),
{
    if requests.len() == 0 {
        (u, Seq::empty())
    } else {
        let (next, answer) = reserve_result(u, max_calls, max_tokens, requests[0].0, requests[0].1);
        let (last, answers) = reserve_all(next, max_calls, max_tokens, requests.skip(1));
        (last, seq![answer] + answers)
    }
}

/// After a refusal, every later reservation, through any provider sharing
/// the usage, is refused with the same message and changes nothing, as long
/// as pricing is known for each.
pub proof fn law_refusals_persist(
    u: UsageView,
    max_calls: Option<u64>,
    max_tokens: Option<u64>,
    requests: Seq<(nat, CostVerdict)>,
)
    requires
        u.failure is Some,
        forall|i: int| 0 <= i < requests.len() ==> !((#[trigger] requests[i]).1 is PricingMissing),
    ensures
        reserve_all(u, max_calls, max_tokens, requests)
            == (u, Seq::new(requests.len(), |i: int| Err::<nat, Seq<char>>(u.failure->0))),
    decreases requests.len(),
{
    if requests.len() > 0 {
        law_refusal_is_sticky(u, max_calls, max_tokens, requests[0].0, requests[0].1);
        let rest = requests.skip(1);
        assert forall|i: int| 0 <= i < rest.len() implies !((#[trigger] rest[i]).1 is PricingMissing) by {
            assert(rest[i] == requests[i + 1]);
        }
        law_refusals_persist(u, max_calls, max_tokens, rest);
        let (_, answers) = reserve_all(u, max_calls, max_tokens, rest);
        assert(seq![Err::<nat, Seq<char>>(u.failure->0)] + answers
            =~= Seq::new(requests.len(), |i: int| Err::<nat, Seq<char>>(u.failure->0)));
    }
}

/// Every refusal is remembered.
pub proof fn law_refusal_is_recorded(
    u: UsageView,
    max_calls: Option<u64>,
    max_tokens: Option<u64>,
    tokens: nat,
    cost: CostVerdict,
)
    requires
        reserve_result(u, max_calls, max_tokens, tokens, cost).1 is Err,
    ensures
        reserve_result(u, max_calls, max_tokens, tokens, cost).0.failure is Some,
{
}

/// Reserving tokens and then charging the reservation because the outcome is
/// unknown leaves nothing reserved beyond what was reserved before, and
/// counts the reservation as used.
pub proof fn law_unknown_outcome_charges_reservation(
    u: UsageView,
    max_calls: Option<u64>,
    max_tokens: Option<u64>,
    tokens: nat,
    cost: CostVerdict,
)
    requires
        u.tokens_used + tokens <= u64::MAX,
        u.tokens_reserved + tokens <= u64::MAX,
        reserve_result(u, max_calls, max_tokens, tokens, cost).1 is Ok,
    ensures
        ({
            let r = reserve_result(u, max_calls, max_tokens, tokens, cost).0;
            let settled = UsageView {
                tokens_reserved: sat_sub(r.tokens_reserved, tokens),
                tokens_used: sat_add(r.tokens_used, tokens),
                ..r
            };
            &&& settled.tokens_reserved == u.tokens_reserved
            &&& settled.tokens_used == u.tokens_used + tokens
            &&& settled.llm_calls == u.llm_calls + 1
            &&& settled.failure == u.failure
        }),
{
}

/// Reserving and then settling within the limits moves exactly the reported
/// tokens into the used total and releases the reservation.
pub proof fn law_settlement_releases_reservation(
    u: UsageView,
    max_calls: Option<u64>,
    max_tokens: Option<u64>,
    tokens: nat,
    actual: nat,
)
    requires
        u.tokens_used + actual <= u64::MAX,
        u.tokens_reserved + tokens <= u64::MAX,
        reserve_result(u, max_calls, max_tokens, tokens, CostVerdict::WithinLimit).1 is Ok,
        finish_result(
            reserve_result(u, max_calls, max_tokens, tokens, CostVerdict::WithinLimit).0,
            max_tokens, tokens, actual, CostVerdict::WithinLimit,
        ).1 is Ok,
    ensures
        ({
            let r = reserve_result(u, max_calls, max_tokens, tokens, CostVerdict::WithinLimit).0;
            let f = finish_result(r, max_tokens, tokens, actual, CostVerdict::WithinLimit).0;
            &&& f.tokens_reserved == u.tokens_reserved
            &&& f.tokens_used == u.tokens_used + actual
            &&& f.llm_calls == u.llm_calls + 1
        }),
{
}

} // verus!
