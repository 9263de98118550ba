//! Counting metrics of a run: scenarios by tag, by language and by failure
//! category, assertions by name, errors, flaky passes and the latencies of
//! all turns. (Rates, averages and percentiles are floating-point figures
//! and are derived from these counts by the caller.)
use vstd::prelude::*;
use crate::text::{str_eq, to_owned_string};
use crate::eval::{ScenarioStatus, FailureCategory, category_key, spec_category_key};
use crate::eval_report::{CountMetrics, AssertionMetrics, ScenarioResult, AttemptResult, TurnResult, AssertionResultDetail, counted, update_count};

verus! {

/// Entries by key; the last entry for a key wins.
pub open spec fn keyed<V>(s: Seq<(String, V)>) -> Map<Seq<char>, V>
    decreases s.len(),
{
    if s.len() == 0 {
        Map::empty()
    } else {
        keyed(s.drop_last()).insert(s.last().0@, s.last().1)
    }
}

/// The keys of entries, in order.
pub open spec fn keys_of<V>(s: Seq<(String, V)>) -> Seq<Seq<char>> {
    Seq::new(s.len(), |i: int| s[i].0@)
}

proof fn lemma_keyed<V>(s: Seq<(String, V)>)
    requires
        keys_of(s).no_duplicates(),
    ensures
        forall|i: int| 0 <= i < s.len() ==> #[trigger] keyed(s).contains_key(s[i].0@) && keyed(s)[s[i].0@] == s[i].1,
        forall|k: Seq<char>| #[trigger] keyed(s).contains_key(k) ==> exists|i: int| 0 <= i < s.len() && s[i].0@ == k,
    decreases s.len(),
{
    if s.len() > 0 {
        let t = s.drop_last();
        assert(keys_of(t) =~= keys_of(s).drop_last());
        lemma_keyed(t);
        assert forall|k: Seq<char>| #[trigger] keyed(s).contains_key(k) implies exists|i: int| 0 <= i < s.len() && s[i].0@ == k by {
            if k != s.last().0@ {
                assert(keyed(t).contains_key(k));
                let i = choose|i: int| 0 <= i < t.len() && t[i].0@ == k;
                assert(s[i] == t[i]);
            } else {
                assert(s[s.len() - 1].0@ == k);
            }
        }
        assert forall|i: int| 0 <= i < s.len() implies #[trigger] keyed(s).contains_key(s[i].0@) && keyed(s)[s[i].0@] == s[i].1 by {
            if i < s.len() - 1 {
                assert(s[i] == t[i]);
                assert(keys_of(s)[i] == s[i].0@);
                assert(keys_of(s)[s.len() - 1] == s.last().0@);
                assert(keys_of(s)[i] != keys_of(s)[s.len() - 1]);
                assert(keyed(t).contains_key(t[i].0@));
            }
        }
    }
}

fn find_key<V>(v: &Vec<(String, V)>, key: &str) -> (r: Option<usize>)
    ensures
        match r {
            Some(i) => i < v@.len() && v@[i as int].0@ == key@,
            None => forall|i: int| 0 <= i < v@.len() ==> v@[i].0@ != key@,
        },
{
    let mut i: usize = 0;
    while i < v.len()
        invariant
            i <= v@.len(),
            forall|j: int| 0 <= j < i ==> v@[j].0@ != key@,
        decreases v@.len() - i,
    {
        if str_eq(v[i].0.as_str(), key) {
            return Some(i);
        }
        i = i + 1;
    }
    None
}

/// Sets the entry of `key`, keeping the keys distinct.
fn set_entry<V>(v: &mut Vec<(String, V)>, key: &str, value: V)
    requires
        keys_of(old(v)@).no_duplicates(),
    ensures
        keys_of(final(v)@).no_duplicates(),
        keyed(final(v)@) == keyed(old(v)@).insert(key@, value),
{
    proof {
        lemma_keyed(v@);
    }
    let ghost before = v@;
    match find_key(v, key) {
        Some(i) => {
            v.set(i, (to_owned_string(key), value));
            proof {
                assert(keys_of(v@) =~= keys_of(before));
                lemma_keyed(v@);
                assert(keyed(v@) =~= keyed(before).insert(key@, value)) by {
                    assert forall|k: Seq<char>| #[trigger] keyed(v@).contains_key(k) == keyed(before).insert(key@, value).contains_key(k) by {
                        if keyed(v@).contains_key(k) {
                            let j = choose|j: int| 0 <= j < v@.len() && v@[j].0@ == k;
                            assert(before[j].0@ == k);
                        }
                        if keyed(before).contains_key(k) {
                            let j = choose|j: int| 0 <= j < before.len() && before[j].0@ == k;
                            assert(v@[j].0@ == k);
                        }
                    }
                    assert forall|k: Seq<char>| #[trigger] keyed(v@).contains_key(k) implies keyed(v@)[k] == keyed(before).insert(key@, value)[k] by {
                        let j = choose|j: int| 0 <= j < v@.len() && v@[j].0@ == k;
                        if j != i {
                            assert(v@[j] == before[j]);
                            assert(keys_of(before)[j] != keys_of(before)[i as int]);
                        }
                    }
                }
            }
        },
        None => {
            v.push((to_owned_string(key), value));
            proof {
                assert(v@.drop_last() =~= before);
                assert(keys_of(v@) =~= keys_of(before).push(key@));
                assert forall|j: int| 0 <= j < before.len() implies keys_of(before)[j] != key@ by {
                    assert(keys_of(before)[j] == before[j].0@);
                }
            }
        },
    }
}

/// The entry of `key`, or `zero`.
fn get_entry<V: Copy>(v: &Vec<(String, V)>, key: &str, zero: V) -> (r: V)
    requires
        keys_of(v@).no_duplicates(),
    ensures
        r == if keyed(v@).contains_key(key@) { keyed(v@)[key@] } else { zero },
{
    proof {
        lemma_keyed(v@);
    }
    match find_key(v, key) {
        Some(i) => {
            assert(keyed(v@).contains_key(v@[i as int].0@));
            v[i].1
        },
        None => {
            proof {
                if keyed(v@).contains_key(key@) {
                    let j = choose|j: int| 0 <= j < v@.len() && v@[j].0@ == key@;
                }
            }
            zero
        },
    }
}

/// No counts yet.
pub open spec fn zero_counts() -> CountMetrics {
    CountMetrics { total: 0, passed: 0, failed: 0, skipped: 0 }
}

/// The counts of `k` after one more scenario with `status`.
pub open spec fn bump(m: Map<Seq<char>, CountMetrics>, k: Seq<char>, status: &ScenarioStatus) -> Map<Seq<char>, CountMetrics> {
    m.insert(k, counted(if m.contains_key(k) { m[k] } else { zero_counts() }, status))
}

/// The counts after one scenario is counted under each of `keys`.
pub open spec fn bump_all(m: Map<Seq<char>, CountMetrics>, keys: Seq<String>, status: &ScenarioStatus) -> Map<Seq<char>, CountMetrics>
    decreases keys.len(),
{
    if keys.len() == 0 {
        m
    } else {
        bump(bump_all(m, keys.drop_last(), status), keys.last()@, status)
    }
}

/// Scenario counts by tag: each scenario is counted once under each tag it
/// lists.
pub open spec fn tag_counts(rs: Seq<ScenarioResult>) -> Map<Seq<char>, CountMetrics>
    decreases rs.len(),
{
    if rs.len() == 0 {
        Map::empty()
    } else {
        bump_all(tag_counts(rs.drop_last()), rs.last().tags@, &rs.last().status)
    }
}

/// Scenario counts by language, for the scenarios that have one.
pub open spec fn language_counts(rs: Seq<ScenarioResult>) -> Map<Seq<char>, CountMetrics>
    decreases rs.len(),
{
    if rs.len() == 0 {
        Map::empty()
    } else {
        let m = language_counts(rs.drop_last());
        match &rs.last().language {
            Some(l) => bump(m, l@, &rs.last().status),
            None => m,
        }
    }
}

/// The number of (scenario, tag) pairs of a run.
pub open spec fn tag_occurrences(rs: Seq<ScenarioResult>) -> nat
    decreases rs.len(),
{
    if rs.len() == 0 { 0 } else { tag_occurrences(rs.drop_last()) + rs.last().tags@.len() }
}

/// Every count is at most `n`.
pub open spec fn counts_bounded(m: Map<Seq<char>, CountMetrics>, n: nat) -> bool {
    forall|k: Seq<char>| #[trigger] m.contains_key(k) ==> m[k].total <= n && m[k].passed <= m[k].total
        && m[k].failed <= m[k].total && m[k].skipped <= m[k].total
}

proof fn lemma_bump_bounded(m: Map<Seq<char>, CountMetrics>, k: Seq<char>, status: &ScenarioStatus, n: nat)
    requires
        counts_bounded(m, n),
        n < usize::MAX,
    ensures
        counts_bounded(bump(m, k, status), n + 1),
{
    assert forall|j: Seq<char>| #[trigger] bump(m, k, status).contains_key(j) implies bump(m, k, status)[j].total <= n + 1
        && bump(m, k, status)[j].passed <= bump(m, k, status)[j].total
        && bump(m, k, status)[j].failed <= bump(m, k, status)[j].total
        && bump(m, k, status)[j].skipped <= bump(m, k, status)[j].total by {
        if j != k {
            assert(m.contains_key(j));
        }
    }
}

fn count_under(v: &mut Vec<(String, CountMetrics)>, key: &str, status: &ScenarioStatus, Ghost(n): Ghost<nat>)
    requires
        keys_of(old(v)@).no_duplicates(),
        counts_bounded(keyed(old(v)@), n),
        n < usize::MAX,
    ensures
        keys_of(final(v)@).no_duplicates(),
        keyed(final(v)@) == bump(keyed(old(v)@), key@, status),
        counts_bounded(keyed(final(v)@), n + 1),
{
    let mut c = get_entry(v, key, CountMetrics { total: 0, passed: 0, failed: 0, skipped: 0 });
    proof {
        if keyed(v@).contains_key(key@) {
            assert(keyed(v@)[key@].total <= n);
        }
    }
    update_count(&mut c, status);
    set_entry(v, key, c);
    proof {
        lemma_bump_bounded(keyed(old(v)@), key@, status, n);
    }
}

proof fn lemma_tag_prefix(rs: Seq<ScenarioResult>, i: int)
    requires
        0 <= i < rs.len(),
    ensures
        rs.take(i + 1).drop_last() == rs.take(i),
        rs.take(i + 1).last() == rs[i],
        tag_occurrences(rs.take(i + 1)) == tag_occurrences(rs.take(i)) + rs[i].tags@.len(),
{
    assert(rs.take(i + 1).drop_last() =~= rs.take(i));
}

proof fn lemma_tag_occurrences_prefix(rs: Seq<ScenarioResult>, i: int)
    requires
        0 <= i <= rs.len(),
    ensures
        tag_occurrences(rs.take(i)) <= tag_occurrences(rs),
    decreases rs.len() - i,
{
    if i < rs.len() {
        lemma_tag_occurrences_prefix(rs.drop_last(), i);
        assert(rs.drop_last().take(i) =~= rs.take(i));
    } else {
        assert(rs.take(i) =~= rs);
    }
}

/// Counts the scenarios of a run by tag; each key occurs once.
pub fn count_by_tag(results: &Vec<ScenarioResult>) -> (r: Vec<(String, CountMetrics)>)
    requires
        tag_occurrences(results@) < usize::MAX,
    ensures
        keys_of(r@).no_duplicates(),
        keyed(r@) == tag_counts(results@),
{
    let mut out: Vec<(String, CountMetrics)> = Vec::new();
    let mut i: usize = 0;
    proof {
        assert(keys_of(out@) =~= Seq::<Seq<char>>::empty());
        assert(results@.take(0) =~= Seq::<ScenarioResult>::empty());
        assert(keyed(out@) =~= Map::<Seq<char>, CountMetrics>::empty());
    }
    while i < results.len()
        invariant
            i <= results@.len(),
            tag_occurrences(results@) < usize::MAX,
            keys_of(out@).no_duplicates(),
            keyed(out@) == tag_counts(results@.take(i as int)),
            counts_bounded(keyed(out@), tag_occurrences(results@.take(i as int))),
        decreases results@.len() - i,
    {
        let r = &results[i];
        let ghost before = keyed(out@);
        let ghost base = tag_occurrences(results@.take(i as int));
        proof {
            lemma_tag_prefix(results@, i as int);
            lemma_tag_occurrences_prefix(results@, i + 1);
        }
        let mut j: usize = 0;
        assert(r.tags@.take(0) =~= Seq::<String>::empty());
        while j < r.tags.len()
            invariant
                j <= r.tags@.len(),
                base + r.tags@.len() < usize::MAX,
                keys_of(out@).no_duplicates(),
                keyed(out@) == bump_all(before, r.tags@.take(j as int), &r.status),
                counts_bounded(keyed(out@), base + j as nat),
            decreases r.tags@.len() - j,
        {
            proof {
                assert(r.tags@.take(j + 1).drop_last() =~= r.tags@.take(j as int));
            }
            count_under(&mut out, r.tags[j].as_str(), &r.status, Ghost(base + j as nat));
            j = j + 1;
        }
        proof {
            assert(r.tags@.take(r.tags@.len() as int) =~= r.tags@);
        }
        i = i + 1;
    }
    proof {
        assert(results@.take(results@.len() as int) =~= results@);
    }
    out
}

/// Counts the scenarios of a run by language.
pub fn count_by_language(results: &Vec<ScenarioResult>) -> (r: Vec<(String, CountMetrics)>)
    requires
        results@.len() < usize::MAX,
    ensures
        keys_of(r@).no_duplicates(),
        keyed(r@) == language_counts(results@),
{
    let mut out: Vec<(String, CountMetrics)> = Vec::new();
    let mut i: usize = 0;
    proof {
        assert(keys_of(out@) =~= Seq::<Seq<char>>::empty());
        assert(results@.take(0) =~= Seq::<ScenarioResult>::empty());
        assert(keyed(out@) =~= Map::<Seq<char>, CountMetrics>::empty());
    }
    while i < results.len()
        invariant
            i <= results@.len(),
            results@.len() < usize::MAX,
            keys_of(out@).no_duplicates(),
            keyed(out@) == language_counts(results@.take(i as int)),
            counts_bounded(keyed(out@), i as nat),
        decreases results@.len() - i,
    {
        let r = &results[i];
        proof {
            assert(results@.take(i + 1).drop_last() =~= results@.take(i as int));
        }
        match &r.language {
            Some(l) => count_under(&mut out, l.as_str(), &r.status, Ghost(i as nat)),
            None => {},
        }
        i = i + 1;
    }
    proof {
        assert(results@.take(results@.len() as int) =~= results@);
    }
    out
}

/// Scenario counts by failure category.
pub open spec fn category_counts(rs: Seq<ScenarioResult>) -> Map<Seq<char>, usize>
    decreases rs.len(),
{
    if rs.len() == 0 {
        Map::empty()
    } else {
        let m = category_counts(rs.drop_last());
        match rs.last().failure_category {
            Some(c) => {
                let k = spec_category_key(c);
                m.insert(k, ((if m.contains_key(k) { m[k] as int } else { 0 }) + 1) as usize)
            },
            None => m,
        }
    }
}

/// Counts the scenarios of a run by failure category.
pub fn count_by_category(results: &Vec<ScenarioResult>) -> (r: Vec<(String, usize)>)
    requires
        results@.len() < usize::MAX,
    ensures
        keys_of(r@).no_duplicates(),
        keyed(r@) == category_counts(results@),
{
    let mut out: Vec<(String, usize)> = Vec::new();
    let mut i: usize = 0;
    proof {
        assert(keys_of(out@) =~= Seq::<Seq<char>>::empty());
        assert(results@.take(0) =~= Seq::<ScenarioResult>::empty());
        assert(keyed(out@) =~= Map::<Seq<char>, usize>::empty());
    }
    while i < results.len()
        invariant
            i <= results@.len(),
            results@.len() < usize::MAX,
            keys_of(out@).no_duplicates(),
            keyed(out@) == category_counts(results@.take(i as int)),
            forall|k: Seq<char>| #[trigger] keyed(out@).contains_key(k) ==> keyed(out@)[k] <= i,
        decreases results@.len() - i,
    {
        let r = &results[i];
        proof {
            assert(results@.take(i + 1).drop_last() =~= results@.take(i as int));
        }
        match &r.failure_category {
            Some(c) => {
                let key = category_key(c);
                let n = get_entry(&out, key.as_str(), 0usize);
                let ghost before = keyed(out@);
                set_entry(&mut out, key.as_str(), n + 1);
                proof {
                    assert forall|k: Seq<char>| #[trigger] keyed(out@).contains_key(k) implies keyed(out@)[k] <= i + 1 by {
                        if k != key@ {
                            assert(before.contains_key(k));
                        }
                    }
                }
            },
            None => {},
        }
        i = i + 1;
    }
    proof {
        assert(results@.take(results@.len() as int) =~= results@);
    }
    out
}

/// The number of scenarios that ended in error.
pub open spec fn error_count(rs: Seq<ScenarioResult>) -> nat
    decreases rs.len(),
{
    if rs.len() == 0 { 0 } else { error_count(rs.drop_last()) + if rs.last().status is Error { 1nat } else { 0nat } }
}

/// The number of scenarios that passed only after a retry.
pub open spec fn flaky_count(rs: Seq<ScenarioResult>) -> nat
    decreases rs.len(),
{
    if rs.len() == 0 { 0 } else { flaky_count(rs.drop_last()) + if rs.last().flaky { 1nat } else { 0nat } }
}

/// The error count is the number of results whose status is an error:
/// failed, passed and skipped results do not count.
pub proof fn law_errors_count_error_statuses(rs: Seq<ScenarioResult>)
    ensures
        error_count(rs) == rs.filter(|r: ScenarioResult| r.status is Error).len(),
        (forall|i: int| 0 <= i < rs.len() ==> !((#[trigger] rs[i]).status is Error)) ==> error_count(rs) == 0,
        (forall|i: int| 0 <= i < rs.len() ==> (#[trigger] rs[i]).status is Error) ==> error_count(rs) == rs.len(),
    decreases rs.len(),
{
    reveal(Seq::filter);
    if rs.len() > 0 {
        let rest = rs.drop_last();
        law_errors_count_error_statuses(rest);
        if forall|i: int| 0 <= i < rs.len() ==> !((#[trigger] rs[i]).status is Error) {
            assert forall|i: int| 0 <= i < rest.len() implies !((#[trigger] rest[i]).status is Error) by {
                assert(rest[i] == rs[i]);
            }
            assert(!(rs[rs.len() - 1].status is Error));
        }
        if forall|i: int| 0 <= i < rs.len() ==> (#[trigger] rs[i]).status is Error {
            assert forall|i: int| 0 <= i < rest.len() implies (#[trigger] rest[i]).status is Error by {
                assert(rest[i] == rs[i]);
            }
            assert(rs[rs.len() - 1].status is Error);
        }
    }
}

proof fn lemma_counts_bounded_by_len(rs: Seq<ScenarioResult>)
    ensures
        error_count(rs) <= rs.len(),
        flaky_count(rs) <= rs.len(),
    decreases rs.len(),
{
    if rs.len() > 0 {
        lemma_counts_bounded_by_len(rs.drop_last());
    }
}

/// The numbers of errored and of flaky scenarios.
pub fn count_errors_and_flaky(results: &Vec<ScenarioResult>) -> (r: (usize, usize))
    ensures
        r.0 == error_count(results@),
        r.1 == flaky_count(results@),
{
    let mut errors: usize = 0;
    let mut flaky: usize = 0;
    let mut i: usize = 0;
    assert(results@.take(0) =~= Seq::<ScenarioResult>::empty());
    while i < results.len()
        invariant
            i <= results@.len(),
            errors == error_count(results@.take(i as int)),
            flaky == flaky_count(results@.take(i as int)),
        decreases results@.len() - i,
    {
        proof {
            assert(results@.take(i + 1).drop_last() =~= results@.take(i as int));
            lemma_counts_bounded_by_len(results@.take(i as int));
        }
        if results[i].status.is_error() {
            errors = errors + 1;
        }
        if results[i].flaky {
            flaky = flaky + 1;
        }
        i = i + 1;
    }
    assert(results@.take(results@.len() as int) =~= results@);
    (errors, flaky)
}

/// No assertion counts yet.
pub open spec fn zero_assertions() -> AssertionMetrics {
    AssertionMetrics { total: 0, passed: 0, failed: 0 }
}

/// The counts after one more outcome of a clause.
pub open spec fn tally_detail(m: Map<Seq<char>, AssertionMetrics>, d: AssertionResultDetail) -> Map<Seq<char>, AssertionMetrics> {
    let c = if m.contains_key(d.assertion@) { m[d.assertion@] } else { zero_assertions() };
    m.insert(d.assertion@, AssertionMetrics {
        total: (c.total + 1) as usize,
        passed: if d.passed { (c.passed + 1) as usize } else { c.passed },
        failed: if d.passed { c.failed } else { (c.failed + 1) as usize },
    })
}

/// The counts after the outcomes `ds`, in order.
pub open spec fn tally_details(m: Map<Seq<char>, AssertionMetrics>, ds: Seq<AssertionResultDetail>) -> Map<Seq<char>, AssertionMetrics>
    decreases ds.len(),
{
    if ds.len() == 0 { m } else { tally_detail(tally_details(m, ds.drop_last()), ds.last()) }
}

proof fn lemma_tally_concat(m: Map<Seq<char>, AssertionMetrics>, a: Seq<AssertionResultDetail>, b: Seq<AssertionResultDetail>)
    ensures
        tally_details(m, a + b) == tally_details(tally_details(m, a), b),
    decreases b.len(),
{
    if b.len() == 0 {
        assert(a + b =~= a);
    } else {
        lemma_tally_concat(m, a, b.drop_last());
        assert((a + b).drop_last() =~= a + b.drop_last());
    }
}

/// The clause outcomes of turns, in order.
pub open spec fn turn_details(ts: Seq<TurnResult>) -> Seq<AssertionResultDetail>
    decreases ts.len(),
{
    if ts.len() == 0 { Seq::empty() } else { turn_details(ts.drop_last()) + ts.last().assertion_results@ }
}

/// The clause outcomes of attempts, in order.
pub open spec fn attempt_details(ats: Seq<AttemptResult>) -> Seq<AssertionResultDetail>
    decreases ats.len(),
{
    if ats.len() == 0 { Seq::empty() } else { attempt_details(ats.drop_last()) + turn_details(ats.last().turns@) }
}

/// The clause outcomes of a run, in order.
pub open spec fn run_details(rs: Seq<ScenarioResult>) -> Seq<AssertionResultDetail>
    decreases rs.len(),
{
    if rs.len() == 0 { Seq::empty() } else { run_details(rs.drop_last()) + attempt_details(rs.last().attempts@) }
}

/// The latencies of turns, in order.
pub open spec fn turn_latencies(ts: Seq<TurnResult>) -> Seq<u64>
    decreases ts.len(),
{
    if ts.len() == 0 { Seq::empty() } else { turn_latencies(ts.drop_last()).push(ts.last().latency_ms) }
}

/// The latencies of the turns of attempts, in order.
pub open spec fn attempt_latencies(ats: Seq<AttemptResult>) -> Seq<u64>
    decreases ats.len(),
{
    if ats.len() == 0 { Seq::empty() } else { attempt_latencies(ats.drop_last()) + turn_latencies(ats.last().turns@) }
}

/// The latencies of all turns of a run, in order.
pub open spec fn run_latencies(rs: Seq<ScenarioResult>) -> Seq<u64>
    decreases rs.len(),
{
    if rs.len() == 0 { Seq::empty() } else { run_latencies(rs.drop_last()) + attempt_latencies(rs.last().attempts@) }
}

/// Every assertion count is at most `n`.
pub open spec fn assertions_bounded(m: Map<Seq<char>, AssertionMetrics>, n: nat) -> bool {
    forall|k: Seq<char>| #[trigger] m.contains_key(k) ==> m[k].total <= n && m[k].passed <= m[k].total
        && m[k].failed <= m[k].total
}

fn tally_turn(details: &Vec<AssertionResultDetail>, out: &mut Vec<(String, AssertionMetrics)>, Ghost(n): Ghost<nat>)
    requires
        keys_of(old(out)@).no_duplicates(),
        assertions_bounded(keyed(old(out)@), n),
        n + details@.len() < usize::MAX,
    ensures
        keys_of(final(out)@).no_duplicates(),
        keyed(final(out)@) == tally_details(keyed(old(out)@), details@),
        assertions_bounded(keyed(final(out)@), n + details@.len()),
{
    let ghost m0 = keyed(out@);
    let mut j: usize = 0;
    assert(details@.take(0) =~= Seq::<AssertionResultDetail>::empty());
    while j < details.len()
        invariant
            j <= details@.len(),
            n + details@.len() < usize::MAX,
            keys_of(out@).no_duplicates(),
            keyed(out@) == tally_details(m0, details@.take(j as int)),
            assertions_bounded(keyed(out@), n + j as nat),
        decreases details@.len() - j,
    {
        let d = &details[j];
        proof {
            assert(details@.take(j + 1).drop_last() =~= details@.take(j as int));
            assert(details@.take(j + 1).last() == details@[j as int]);
        }
        let c = get_entry(out, d.assertion.as_str(), AssertionMetrics { total: 0, passed: 0, failed: 0 });
        let ghost before = keyed(out@);
        proof {
            if before.contains_key(d.assertion@) {
                assert(before[d.assertion@].total <= n + j);
            }
        }
        let next = AssertionMetrics {
            total: c.total + 1,
            passed: if d.passed { c.passed + 1 } else { c.passed },
            failed: if d.passed { c.failed } else { c.failed + 1 },
        };
        set_entry(out, d.assertion.as_str(), next);
        proof {
            assert forall|k: Seq<char>| #[trigger] keyed(out@).contains_key(k) implies keyed(out@)[k].total <= n + j + 1
                && keyed(out@)[k].passed <= keyed(out@)[k].total && keyed(out@)[k].failed <= keyed(out@)[k].total by {
                if k != d.assertion@ {
                    assert(before.contains_key(k));
                }
            }
        }
        j = j + 1;
    }
    assert(details@.take(details@.len() as int) =~= details@);
}

fn tally_turns(ts: &Vec<TurnResult>, out: &mut Vec<(String, AssertionMetrics)>, lat: &mut Vec<u64>, Ghost(n): Ghost<nat>)
    requires
        keys_of(old(out)@).no_duplicates(),
        assertions_bounded(keyed(old(out)@), n),
        n + turn_details(ts@).len() < usize::MAX,
    ensures
        keys_of(final(out)@).no_duplicates(),
        keyed(final(out)@) == tally_details(keyed(old(out)@), turn_details(ts@)),
        assertions_bounded(keyed(final(out)@), n + turn_details(ts@).len()),
        final(lat)@ == old(lat)@ + turn_latencies(ts@),
{
    let ghost m0 = keyed(out@);
    let ghost l0 = lat@;
    let mut i: usize = 0;
    proof {
        assert(ts@.take(0) =~= Seq::<TurnResult>::empty());
        assert(lat@ =~= l0 + turn_latencies(ts@.take(0)));
        lemma_turn_details_prefix(ts@, 0);
    }
    while i < ts.len()
        invariant
            i <= ts@.len(),
            n + turn_details(ts@).len() < usize::MAX,
            keys_of(out@).no_duplicates(),
            keyed(out@) == tally_details(m0, turn_details(ts@.take(i as int))),
            assertions_bounded(keyed(out@), n + turn_details(ts@.take(i as int)).len()),
            lat@ == l0 + turn_latencies(ts@.take(i as int)),
        decreases ts@.len() - i,
    {
        let t = &ts[i];
        proof {
            assert(ts@.take(i + 1).drop_last() =~= ts@.take(i as int));
            assert(ts@.take(i + 1).last() == ts@[i as int]);
            lemma_turn_details_prefix(ts@, i + 1);
            lemma_tally_concat(m0, turn_details(ts@.take(i as int)), t.assertion_results@);
        }
        tally_turn(&t.assertion_results, out, Ghost(n + turn_details(ts@.take(i as int)).len()));
        let ghost lb = lat@;
        lat.push(t.latency_ms);
        proof {
            assert(lat@ =~= l0 + turn_latencies(ts@.take(i + 1)));
        }
        i = i + 1;
    }
    assert(ts@.take(ts@.len() as int) =~= ts@);
}

proof fn lemma_turn_details_prefix(ts: Seq<TurnResult>, i: int)
    requires
        0 <= i <= ts.len(),
    ensures
        turn_details(ts.take(i)).len() <= turn_details(ts).len(),
    decreases ts.len() - i,
{
    if i < ts.len() {
        lemma_turn_details_prefix(ts.drop_last(), i);
        assert(ts.drop_last().take(i) =~= ts.take(i));
    } else {
        assert(ts.take(i) =~= ts);
    }
}

proof fn lemma_attempt_details_prefix(ats: Seq<AttemptResult>, i: int)
    requires
        0 <= i <= ats.len(),
    ensures
        attempt_details(ats.take(i)).len() <= attempt_details(ats).len(),
    decreases ats.len() - i,
{
    if i < ats.len() {
        lemma_attempt_details_prefix(ats.drop_last(), i);
        assert(ats.drop_last().take(i) =~= ats.take(i));
    } else {
        assert(ats.take(i) =~= ats);
    }
}

proof fn lemma_run_details_prefix(rs: Seq<ScenarioResult>, i: int)
    requires
        0 <= i <= rs.len(),
    ensures
        run_details(rs.take(i)).len() <= run_details(rs).len(),
    decreases rs.len() - i,
{
    if i < rs.len() {
        lemma_run_details_prefix(rs.drop_last(), i);
        assert(rs.drop_last().take(i) =~= rs.take(i));
    } else {
        assert(rs.take(i) =~= rs);
    }
}

fn tally_attempts(ats: &Vec<AttemptResult>, out: &mut Vec<(String, AssertionMetrics)>, lat: &mut Vec<u64>, Ghost(n): Ghost<nat>)
    requires
        keys_of(old(out)@).no_duplicates(),
        assertions_bounded(keyed(old(out)@), n),
        n + attempt_details(ats@).len() < usize::MAX,
    ensures
        keys_of(final(out)@).no_duplicates(),
        keyed(final(out)@) == tally_details(keyed(old(out)@), attempt_details(ats@)),
        assertions_bounded(keyed(final(out)@), n + attempt_details(ats@).len()),
        final(lat)@ == old(lat)@ + attempt_latencies(ats@),
{
    let ghost m0 = keyed(out@);
    let ghost l0 = lat@;
    let mut i: usize = 0;
    proof {
        assert(ats@.take(0) =~= Seq::<AttemptResult>::empty());
        assert(lat@ =~= l0 + attempt_latencies(ats@.take(0)));
    }
    while i < ats.len()
        invariant
            i <= ats@.len(),
            n + attempt_details(ats@).len() < usize::MAX,
            keys_of(out@).no_duplicates(),
            keyed(out@) == tally_details(m0, attempt_details(ats@.take(i as int))),
            assertions_bounded(keyed(out@), n + attempt_details(ats@.take(i as int)).len()),
            lat@ == l0 + attempt_latencies(ats@.take(i as int)),
        decreases ats@.len() - i,
    {
        let a = &ats[i];
        proof {
            assert(ats@.take(i + 1).drop_last() =~= ats@.take(i as int));
            assert(ats@.take(i + 1).last() == ats@[i as int]);
            lemma_attempt_details_prefix(ats@, i + 1);
            lemma_tally_concat(m0, attempt_details(ats@.take(i as int)), turn_details(a.turns@));
        }
        let ghost lb = lat@;
        tally_turns(&a.turns, out, lat, Ghost(n + attempt_details(ats@.take(i as int)).len()));
        proof {
            assert(lat@ =~= l0 + attempt_latencies(ats@.take(i + 1)));
        }
        i = i + 1;
    }
    assert(ats@.take(ats@.len() as int) =~= ats@);
}

/// Clause outcomes by name, and the latencies of every turn of every
/// attempt, in order.
pub fn assertion_counts_and_latencies(results: &Vec<ScenarioResult>) -> (r: (Vec<(String, AssertionMetrics)>, Vec<u64>))
    requires
        run_details(results@).len() < usize::MAX,
    ensures
        keys_of(r.0@).no_duplicates(),
        keyed(r.0@) == tally_details(Map::empty(), run_details(results@)),
        r.1@ == run_latencies(results@),
{
    let mut out: Vec<(String, AssertionMetrics)> = Vec::new();
    let mut lat: Vec<u64> = Vec::new();
    let ghost m0 = keyed(out@);
    let mut i: usize = 0;
    proof {
        assert(keys_of(out@) =~= Seq::<Seq<char>>::empty());
        assert(m0 =~= Map::<Seq<char>, AssertionMetrics>::empty());
        assert(results@.take(0) =~= Seq::<ScenarioResult>::empty());
        assert(lat@ =~= run_latencies(results@.take(0)));
    }
    while i < results.len()
        invariant
            i <= results@.len(),
            m0 == Map::<Seq<char>, AssertionMetrics>::empty(),
            run_details(results@).len() < usize::MAX,
            keys_of(out@).no_duplicates(),
            keyed(out@) == tally_details(m0, run_details(results@.take(i as int))),
            assertions_bounded(keyed(out@), run_details(results@.take(i as int)).len()),
            lat@ == run_latencies(results@.take(i as int)),
        decreases results@.len() - i,
    {
        let r = &results[i];
        proof {
            assert(results@.take(i + 1).drop_last() =~= results@.take(i as int));
            assert(results@.take(i + 1).last() == results@[i as int]);
            lemma_run_details_prefix(results@, i + 1);
            lemma_tally_concat(m0, run_details(results@.take(i as int)), attempt_details(r.attempts@));
        }
        tally_attempts(&r.attempts, &mut out, &mut lat, Ghost(run_details(results@.take(i as int)).len()));
        proof {
            assert(lat@ =~= run_latencies(results@.take(i + 1)));
        }
        i = i + 1;
    }
    assert(results@.take(results@.len() as int) =~= results@);
    (out, lat)
}

/// The counting metrics of a run.
pub struct RunMetrics {
    /// The number of turns of all attempts.
    pub total_turns: usize,
    pub errors: usize,
    pub flaky: usize,
    pub by_tag: Vec<(String, CountMetrics)>,
    pub by_language: Vec<(String, CountMetrics)>,
    pub by_assertion: Vec<(String, AssertionMetrics)>,
    pub by_failure_category: Vec<(String, usize)>,
    /// The latencies of all turns, in the order of the run.
    pub latencies: Vec<u64>,
}

/// Computes the counting metrics of a run. (The bounds say that the run's
/// scenarios, tags and clause outcomes can be counted in `usize`.)
pub fn compute_metrics(results: &Vec<ScenarioResult>) -> (r: RunMetrics)
    requires
        results@.len() < usize::MAX,
        tag_occurrences(results@) < usize::MAX,
        run_details(results@).len() < usize::MAX,
    ensures
        r.total_turns == run_latencies(results@).len(),
        r.errors == error_count(results@),
        r.flaky == flaky_count(results@),
        keyed(r.by_tag@) == tag_counts(results@),
        keyed(r.by_language@) == language_counts(results@),
        keyed(r.by_assertion@) == tally_details(Map::empty(), run_details(results@)),
        keyed(r.by_failure_category@) == category_counts(results@),
        r.latencies@ == run_latencies(results@),
        keys_of(r.by_tag@).no_duplicates(),
        keys_of(r.by_language@).no_duplicates(),
        keys_of(r.by_assertion@).no_duplicates(),
        keys_of(r.by_failure_category@).no_duplicates(),
{
    let (errors, flaky) = count_errors_and_flaky(results);
    let by_tag = count_by_tag(results);
    let by_language = count_by_language(results);
    let by_failure_category = count_by_category(results);
    let (by_assertion, latencies) = assertion_counts_and_latencies(results);
    RunMetrics {
        total_turns: latencies.len(),
        errors,
        flaky,
        by_tag,
        by_language,
        by_assertion,
        by_failure_category,
        latencies,
    }
}

/// Every group of counts is balanced: its total is the sum of its passed,
/// failed and skipped counts.
pub open spec fn balanced(m: Map<Seq<char>, CountMetrics>) -> bool {
    forall|k: Seq<char>| #[trigger] m.contains_key(k) ==> m[k].total == m[k].passed + m[k].failed + m[k].skipped
}

proof fn lemma_bump_all(m: Map<Seq<char>, CountMetrics>, keys: Seq<String>, status: &ScenarioStatus, n: nat)
    requires
        counts_bounded(m, n),
        balanced(m),
        n + keys.len() < usize::MAX,
    ensures
        counts_bounded(bump_all(m, keys, status), n + keys.len()),
        balanced(bump_all(m, keys, status)),
    decreases keys.len(),
{
    if keys.len() > 0 {
        lemma_bump_all(m, keys.drop_last(), status, n);
        let prev = bump_all(m, keys.drop_last(), status);
        lemma_bump_bounded(prev, keys.last()@, status, (n + keys.len() - 1) as nat);
        let k = keys.last()@;
        assert forall|j: Seq<char>| #[trigger] bump(prev, k, status).contains_key(j) implies bump(prev, k, status)[j].total
            == bump(prev, k, status)[j].passed + bump(prev, k, status)[j].failed + bump(prev, k, status)[j].skipped by {
            if j != k {
                assert(prev.contains_key(j));
            }
        }
    }
}

proof fn lemma_tag_counts(rs: Seq<ScenarioResult>)
    requires
        tag_occurrences(rs) < usize::MAX,
    ensures
        counts_bounded(tag_counts(rs), tag_occurrences(rs)),
        balanced(tag_counts(rs)),
    decreases rs.len(),
{
    if rs.len() > 0 {
        lemma_tag_counts(rs.drop_last());
        lemma_bump_all(tag_counts(rs.drop_last()), rs.last().tags@, &rs.last().status, tag_occurrences(rs.drop_last()));
    }
}

/// Law: whatever the run, the counts of every tag are balanced; each
/// scenario counted under a tag is counted once as passed, failed or
/// skipped.
pub proof fn law_tag_counts_balanced(rs: Seq<ScenarioResult>)
    requires
        tag_occurrences(rs) < usize::MAX,
    ensures
        balanced(tag_counts(rs)),
{
    lemma_tag_counts(rs);
}

} // verus!
