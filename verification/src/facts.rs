//! Key facts about actors: categories, near-duplicate filtering and the
//! plain-text rendering injected into prompts.
use vstd::prelude::*;
use crate::text::{occurs_at, chars_of, find_chars, rfind_char, slice_chars, spec_find, spec_rfind_char, push_str, push_char, char_is_whitespace, is_whitespace_char, lowercase, seq_eq, str_eq, string_from_chars, to_lowercase, to_owned_string, trim_chars, trim_seq};

verus! {

/// Category of a key fact.
#[derive(Debug, PartialEq, Eq)]
pub enum FactCategory {
    UserPreference,
    UserContext,
    Decision,
    Agreement,
    Custom(String),
}

/// Mathematical form of a category.
pub enum CategoryView {
    UserPreference,
    UserContext,
    Decision,
    Agreement,
    Custom(Seq<char>),
}

impl View for FactCategory {
    type V = CategoryView;

    open spec fn view(&self) -> CategoryView {
        match self {
            FactCategory::UserPreference => CategoryView::UserPreference,
            FactCategory::UserContext => CategoryView::UserContext,
            FactCategory::Decision => CategoryView::Decision,
            FactCategory::Agreement => CategoryView::Agreement,
            FactCategory::Custom(s) => CategoryView::Custom(s@),
        }
    }
}

impl FactCategory {
    /// A copy of this category.
    pub fn copy(&self) -> (r: FactCategory)
        ensures
            r@ == self@,
    {
        match self {
            FactCategory::UserPreference => FactCategory::UserPreference,
            FactCategory::UserContext => FactCategory::UserContext,
            FactCategory::Decision => FactCategory::Decision,
            FactCategory::Agreement => FactCategory::Agreement,
            FactCategory::Custom(s) => FactCategory::Custom(s.clone()),
        }
    }

    /// Whether two categories are the same.
    pub fn same_as(&self, other: &FactCategory) -> (r: bool)
        ensures
            r == (self@ == other@),
    {
        match (self, other) {
            (FactCategory::UserPreference, FactCategory::UserPreference) => true,
            (FactCategory::UserContext, FactCategory::UserContext) => true,
            (FactCategory::Decision, FactCategory::Decision) => true,
            (FactCategory::Agreement, FactCategory::Agreement) => true,
            (FactCategory::Custom(a), FactCategory::Custom(b)) => str_eq(a.as_str(), b.as_str()),
            _ => false,
        }
    }
}

/// The category named by a label produced by the extractor.
pub open spec fn spec_parse_category(s: Seq<char>) -> CategoryView {
    if s == "user_preference"@ || s == "preference"@ {
        CategoryView::UserPreference
    } else if s == "user_context"@ || s == "context"@ {
        CategoryView::UserContext
    } else if s == "decision"@ {
        CategoryView::Decision
    } else if s == "agreement"@ {
        CategoryView::Agreement
    } else {
        CategoryView::Custom(s)
    }
}

/// Maps a category label to its category; unknown labels become custom categories.
pub fn parse_category(s: &str) -> (c: FactCategory)
    ensures
        c@ == spec_parse_category(s@),
{
    if str_eq(s, "user_preference") || str_eq(s, "preference") {
        FactCategory::UserPreference
    } else if str_eq(s, "user_context") || str_eq(s, "context") {
        FactCategory::UserContext
    } else if str_eq(s, "decision") {
        FactCategory::Decision
    } else if str_eq(s, "agreement") {
        FactCategory::Agreement
    } else {
        FactCategory::Custom(to_owned_string(s))
    }
}

/// A key fact as the deduplication and rendering logic sees it.
pub struct KeyFact {
    pub id: String,
    pub actor_id: Option<String>,
    pub category: FactCategory,
    pub content: String,
}

/// Mathematical form of a fact.
pub struct FactView {
    pub id: Seq<char>,
    pub actor_id: Option<Seq<char>>,
    pub category: CategoryView,
    pub content: Seq<char>,
}

impl View for KeyFact {
    type V = FactView;

    open spec fn view(&self) -> FactView {
        FactView {
            id: self.id@,
            actor_id: match &self.actor_id {
                Some(a) => Some(a@),
                None => None,
            },
            category: self.category@,
            content: self.content@,
        }
    }
}

impl KeyFact {
    /// A copy of this fact.
    pub fn copy(&self) -> (r: KeyFact)
        ensures
            r@ == self@,
    {
        KeyFact {
            id: self.id.clone(),
            actor_id: match &self.actor_id {
                Some(a) => Some(a.clone()),
                None => None,
            },
            category: self.category.copy(),
            content: self.content.clone(),
        }
    }
}

/// The views of a list of facts.
pub open spec fn facts_view(v: Seq<KeyFact>) -> Seq<FactView> {
    v.map_values(|f: KeyFact| f@)
}

/// `s` with every run of white space replaced by one space; `in_space`
/// tells whether the text before `s` already ended in such a run.
pub open spec fn collapse_ws_from(s: Seq<char>, in_space: bool) -> Seq<char>
    decreases s.len(),
{
    if s.len() == 0 {
        Seq::empty()
    } else if is_whitespace_char(s[0]) {
        if in_space {
            collapse_ws_from(s.skip(1), true)
        } else {
            seq![' '] + collapse_ws_from(s.skip(1), true)
        }
    } else {
        seq![s[0]] + collapse_ws_from(s.skip(1), false)
    }
}

/// White space in the collapsed text is single spaces: every white space
/// character is a space, and no two are adjacent; after a run (`in_space`)
/// the text does not begin with one.
pub proof fn lemma_collapse_single_spaces(s: Seq<char>, in_space: bool)
    ensures
        forall|i: int| 0 <= i < collapse_ws_from(s, in_space).len() && is_whitespace_char(#[trigger] collapse_ws_from(s, in_space)[i])
            ==> collapse_ws_from(s, in_space)[i] == ' ',
        forall|i: int| 0 <= i < collapse_ws_from(s, in_space).len() - 1 ==> !(is_whitespace_char(#[trigger] collapse_ws_from(s, in_space)[i])
            && is_whitespace_char(collapse_ws_from(s, in_space)[i + 1])),
        in_space && collapse_ws_from(s, in_space).len() > 0 ==> !is_whitespace_char(collapse_ws_from(s, in_space)[0]),
    decreases s.len(),
{
    if s.len() > 0 {
        let ws = is_whitespace_char(s[0]);
        lemma_collapse_single_spaces(s.skip(1), ws);
        let rest = collapse_ws_from(s.skip(1), ws);
        let c = collapse_ws_from(s, in_space);
        if ws && in_space {
            assert(c == rest);
        } else {
            let head = if ws { ' ' } else { s[0] };
            assert(c == seq![head] + rest);
            assert forall|i: int| 0 <= i < c.len() && is_whitespace_char(#[trigger] c[i]) implies c[i] == ' ' by {
                if i > 0 {
                    assert(c[i] == rest[i - 1]);
                }
            }
            assert forall|i: int| 0 <= i < c.len() - 1 implies !(is_whitespace_char(#[trigger] c[i]) && is_whitespace_char(c[i + 1])) by {
                assert(c[i + 1] == rest[i]);
                if i > 0 {
                    assert(c[i] == rest[i - 1]);
                } else if ws {
                    assert(!is_whitespace_char(rest[0]));
                }
            }
        }
    }
}

/// The normal form holds white space only as single spaces.
pub proof fn law_normalized_spaces_are_single(s: Seq<char>)
    ensures
        forall|i: int| 0 <= i < spec_normalize(s).len() && is_whitespace_char(#[trigger] spec_normalize(s)[i]) ==> spec_normalize(s)[i] == ' ',
        forall|i: int| 0 <= i < spec_normalize(s).len() - 1 ==> !(is_whitespace_char(#[trigger] spec_normalize(s)[i])
            && is_whitespace_char(spec_normalize(s)[i + 1])),
{
    lemma_collapse_single_spaces(lowercase(trim_seq(s)), false);
}

/// The normal form used to compare fact contents: trimmed, lowercased, and
/// with each run of white space collapsed to a single space.
pub open spec fn spec_normalize(s: Seq<char>) -> Seq<char> {
    collapse_ws_from(lowercase(trim_seq(s)), false)
}

/// Normalizes a string for comparison.
pub fn normalize(s: &str) -> (r: String)
    ensures
        r@ == spec_normalize(s@),
{
    let chars = chars_of(s);
    let trimmed_chars = trim_chars(&chars);
    let trimmed = string_from_chars(trimmed_chars.as_slice());
    let lower = to_lowercase(trimmed.as_str());
    let lc = chars_of(lower.as_str());
    let mut out: Vec<char> = Vec::new();
    let mut prev_space = false;
    let mut i: usize = 0;
    assert(lc@.skip(0) =~= lc@);
    while i < lc.len()
        invariant
            i <= lc@.len(),
            out@ + collapse_ws_from(lc@.skip(i as int), prev_space) == collapse_ws_from(lc@, false),
        decreases lc@.len() - i,
    {
        let ch = lc[i];
        let ghost rest = lc@.skip(i as int);
        assert(rest[0] == ch);
        assert(rest.skip(1) =~= lc@.skip(i + 1));
        if char_is_whitespace(ch) {
            if !prev_space {
                let ghost o = out@;
                out.push(' ');
                assert(o.push(' ') + collapse_ws_from(rest.skip(1), true)
                    =~= o + (seq![' '] + collapse_ws_from(rest.skip(1), true)));
                prev_space = true;
            }
        } else {
            let ghost o = out@;
            out.push(ch);
            assert(o.push(ch) + collapse_ws_from(rest.skip(1), false)
                =~= o + (seq![ch] + collapse_ws_from(rest.skip(1), false)));
            prev_space = false;
        }
        i = i + 1;
    }
    assert(lc@.skip(i as int) =~= Seq::<char>::empty());
    assert(out@ + Seq::<char>::empty() =~= out@);
    string_from_chars(out.as_slice())
}

/// Smallest of three numbers.
pub open spec fn min3(x: nat, y: nat, z: nat) -> nat {
    if x <= y && x <= z {
        x
    } else if y <= z {
        y
    } else {
        z
    }
}

/// Levenshtein edit distance between two character sequences: the fewest
/// single-character insertions, deletions and substitutions that turn `a`
/// into `b`.
pub open spec fn edit_distance(a: Seq<char>, b: Seq<char>) -> nat
    decreases a.len() + b.len(),
{
    if a.len() == 0 {
        b.len()
    } else if b.len() == 0 {
        a.len()
    } else {
        let cost: nat = if a.last() == b.last() { 0 } else { 1 };
        min3(
            edit_distance(a.drop_last(), b) + 1,
            edit_distance(a, b.drop_last()) + 1,
            edit_distance(a.drop_last(), b.drop_last()) + cost,
        )
    }
}

/// The distance never exceeds the longer length.
pub proof fn lemma_edit_distance_le_max(a: Seq<char>, b: Seq<char>)
    ensures
        edit_distance(a, b) <= if a.len() >= b.len() { a.len() } else { b.len() },
    decreases a.len() + b.len(),
{
    if a.len() > 0 && b.len() > 0 {
        lemma_edit_distance_le_max(a.drop_last(), b.drop_last());
    }
}

/// A sequence is at distance zero from itself.
pub proof fn lemma_edit_distance_self(a: Seq<char>)
    ensures
        edit_distance(a, a) == 0,
    decreases a.len(),
{
    if a.len() > 0 {
        lemma_edit_distance_self(a.drop_last());
    }
}

/// The distance is symmetric: turning `a` into `b` takes as many edits as
/// turning `b` into `a`.
pub proof fn law_edit_distance_symmetric(a: Seq<char>, b: Seq<char>)
    ensures
        edit_distance(a, b) == edit_distance(b, a),
    decreases a.len() + b.len(),
{
    if a.len() > 0 && b.len() > 0 {
        law_edit_distance_symmetric(a.drop_last(), b);
        law_edit_distance_symmetric(a, b.drop_last());
        law_edit_distance_symmetric(a.drop_last(), b.drop_last());
    }
}

/// The distance is at least the difference of the lengths.
pub proof fn law_edit_distance_ge_length_gap(a: Seq<char>, b: Seq<char>)
    ensures
        edit_distance(a, b) >= if a.len() >= b.len() { a.len() - b.len() } else { b.len() - a.len() },
    decreases a.len() + b.len(),
{
    if a.len() > 0 && b.len() > 0 {
        law_edit_distance_ge_length_gap(a.drop_last(), b);
        law_edit_distance_ge_length_gap(a, b.drop_last());
        law_edit_distance_ge_length_gap(a.drop_last(), b.drop_last());
    }
}

/// The distance is zero exactly between equal sequences.
pub proof fn law_edit_distance_zero_iff_equal(a: Seq<char>, b: Seq<char>)
    ensures
        (edit_distance(a, b) == 0) == (a == b),
    decreases a.len() + b.len(),
{
    if a == b {
        lemma_edit_distance_self(a);
    } else if a.len() > 0 && b.len() > 0 {
        law_edit_distance_ge_length_gap(a.drop_last(), b);
        law_edit_distance_ge_length_gap(a, b.drop_last());
        law_edit_distance_zero_iff_equal(a.drop_last(), b.drop_last());
        if a.last() == b.last() && a.drop_last() == b.drop_last() {
            assert(a =~= a.drop_last().push(a.last()));
            assert(b =~= b.drop_last().push(b.last()));
        }
        if edit_distance(a.drop_last(), b) == 0 {
            assert(a.drop_last().len() == b.len());
        }
        if edit_distance(a, b.drop_last()) == 0 {
            assert(a.len() == b.drop_last().len());
        }
    } else {
        if a.len() == 0 {
            assert(b.len() > 0) by {
                if b.len() == 0 {
                    assert(a =~= b);
                }
            }
        }
    }
}

/// Levenshtein distance between the characters of two strings.
pub fn levenshtein(a: &str, b: &str) -> (d: usize)
    ensures
        d == edit_distance(a@, b@),
{
    let a_chars = chars_of(a);
    let b_chars = chars_of(b);
    levenshtein_chars(&a_chars, &b_chars)
}

/// Levenshtein distance between two character vectors, computed one row of
/// the edit table at a time.
pub fn levenshtein_chars(a_chars: &Vec<char>, b_chars: &Vec<char>) -> (d: usize)
    requires
        a_chars@.len() < usize::MAX,
        b_chars@.len() < usize::MAX,
    ensures
        d == edit_distance(a_chars@, b_chars@),
{
    let ghost a = a_chars@;
    let ghost b = b_chars@;
    let m = a_chars.len();
    let n = b_chars.len();
    if m == 0 {
        return n;
    }
    if n == 0 {
        return m;
    }
    let mut prev: Vec<usize> = Vec::new();
    let mut j: usize = 0;
    while j <= n
        invariant
            j <= n + 1,
            n == b.len(),
            n < usize::MAX,
            prev@.len() == j,
            forall|k: int| 0 <= k < j ==> prev@[k] == k,
        decreases n + 1 - j,
    {
        prev.push(j);
        j = j + 1;
    }
    proof {
        assert forall|k: int| 0 <= k <= n implies prev@[k] == edit_distance(a.take(0), b.take(k)) by {
            assert(a.take(0).len() == 0);
        }
    }
    let mut curr: Vec<usize> = prev.clone();
    let mut i: usize = 1;
    while i <= m
        invariant
            1 <= i <= m + 1,
            m == a.len(),
            n == b.len(),
            m < usize::MAX,
            n < usize::MAX,
            a == a_chars@,
            b == b_chars@,
            prev@.len() == n + 1,
            curr@.len() == n + 1,
            forall|k: int| 0 <= k <= n ==> prev@[k] == edit_distance(a.take(i - 1), b.take(k)),
        decreases m + 1 - i,
    {
        curr.set(0, i);
        proof {
            assert(b.take(0).len() == 0);
            assert(a.take(i as int).len() == i);
        }
        let mut jj: usize = 1;
        while jj <= n
            invariant
                1 <= i <= m,
                1 <= jj <= n + 1,
                m == a.len(),
                n == b.len(),
                m < usize::MAX,
                n < usize::MAX,
                a == a_chars@,
                b == b_chars@,
                prev@.len() == n + 1,
                curr@.len() == n + 1,
                forall|k: int| 0 <= k <= n ==> prev@[k] == edit_distance(a.take(i - 1), b.take(k)),
                forall|k: int| 0 <= k < jj ==> curr@[k] == edit_distance(a.take(i as int), b.take(k)),
            decreases n + 1 - jj,
        {
            let cost: usize = if a_chars[i - 1] == b_chars[jj - 1] { 0 } else { 1 };
            proof {
                lemma_edit_distance_le_max(a.take(i - 1), b.take(jj as int));
                lemma_edit_distance_le_max(a.take(i as int), b.take(jj - 1));
                lemma_edit_distance_le_max(a.take(i - 1), b.take(jj - 1));
            }
            let del = prev[jj] + 1;
            let ins = curr[jj - 1] + 1;
            let sub = prev[jj - 1] + cost;
            let mut best = if del < ins { del } else { ins };
            if sub < best {
                best = sub;
            }
            proof {
                let x = a.take(i as int);
                let y = b.take(jj as int);
                assert(x.drop_last() =~= a.take(i - 1));
                assert(y.drop_last() =~= b.take(jj - 1));
                assert(x.last() == a[i - 1]);
                assert(y.last() == b[jj - 1]);
                assert(x.len() > 0 && y.len() > 0);
            }
            curr.set(jj, best);
            jj = jj + 1;
        }
        std::mem::swap(&mut prev, &mut curr);
        i = i + 1;
    }
    proof {
        assert(a.take(m as int) =~= a);
        assert(b.take(n as int) =~= b);
    }
    prev[n]
}

/// Number of bytes UTF-8 uses to encode `c`.
pub open spec fn char_utf8_width(c: char) -> nat {
    if (c as u32) < 0x80 {
        1
    } else if (c as u32) < 0x800 {
        2
    } else if (c as u32) < 0x10000 {
        3
    } else {
        4
    }
}

/// Length in bytes of the UTF-8 encoding of `s` (what `str::len` returns).
pub open spec fn utf8_len(s: Seq<char>) -> nat
    decreases s.len(),
{
    if s.len() == 0 {
        0
    } else {
        utf8_len(s.drop_last()) + char_utf8_width(s.last())
    }
}

proof fn lemma_utf8_len_bounds(s: Seq<char>)
    ensures
        s.len() <= utf8_len(s) <= 4 * s.len(),
    decreases s.len(),
{
    if s.len() > 0 {
        lemma_utf8_len_bounds(s.drop_last());
    }
}

/// UTF-8 byte length of a character sequence.
pub fn utf8_byte_len(v: &Vec<char>) -> (n: u128)
    ensures
        n == utf8_len(v@),
{
    let mut n: u128 = 0;
    let mut i: usize = 0;
    while i < v.len()
        invariant
            i <= v@.len(),
            n == utf8_len(v@.take(i as int)),
            n <= 4 * i,
        decreases v@.len() - i,
    {
        let c = v[i] as u32;
        let w: u128 = if c < 0x80 { 1 } else if c < 0x800 { 2 } else if c < 0x10000 { 3 } else { 4 };
        proof {
            assert(v@.take(i + 1).drop_last() =~= v@.take(i as int));
            assert(v@.take(i + 1).last() == v@[i as int]);
        }
        n = n + w;
        i = i + 1;
    }
    assert(v@.take(v@.len() as int) =~= v@);
    n
}

/// Whether two contents are similar enough for one to duplicate the other:
/// the normalized forms are equal, or both are empty, or their Levenshtein
/// similarity `1 - distance / max_byte_length` is at least `num / den`.
pub open spec fn similar_at_least(a: Seq<char>, b: Seq<char>, num: nat, den: nat) -> bool {
    let na = spec_normalize(a);
    let nb = spec_normalize(b);
    let max_len = if utf8_len(na) >= utf8_len(nb) { utf8_len(na) } else { utf8_len(nb) };
    na == nb || max_len == 0 || den * edit_distance(na, nb) <= (den - num) * max_len
}

/// A new fact is dominated by an existing one when their contents are at
/// least 85% similar within one category, or at least 95% similar across
/// categories.
pub open spec fn dominated_by(new: FactView, existing: FactView) -> bool {
    if new.category == existing.category {
        similar_at_least(new.content, existing.content, 17, 20)
    } else {
        similar_at_least(new.content, existing.content, 19, 20)
    }
}

/// Whether some existing fact dominates `new`.
pub open spec fn dominated(new: FactView, existing: Seq<FactView>) -> bool {
    exists|k: int| 0 <= k < existing.len() && dominated_by(new, #[trigger] existing[k])
}

/// The new facts that no existing fact dominates, in their original order.
pub open spec fn undominated(new: Seq<FactView>, existing: Seq<FactView>) -> Seq<FactView>
    decreases new.len(),
{
    if new.len() == 0 {
        Seq::empty()
    } else if dominated(new.last(), existing) {
        undominated(new.drop_last(), existing)
    } else {
        undominated(new.drop_last(), existing).push(new.last())
    }
}

/// The threshold is chosen by the categories: within one category a new
/// fact is dominated at 85% similarity, across categories only at 95%.
pub proof fn law_dominance_threshold_by_category(new: FactView, existing: FactView)
    ensures
        new.category == existing.category ==> (dominated_by(new, existing) == similar_at_least(new.content, existing.content, 17, 20)),
        new.category != existing.category ==> (dominated_by(new, existing) == similar_at_least(new.content, existing.content, 19, 20)),
{
}

/// The cross-category threshold is the stricter one: 95% similarity
/// implies 85%.
pub proof fn law_stricter_threshold_implies_looser(a: Seq<char>, b: Seq<char>)
    ensures
        similar_at_least(a, b, 19, 20) ==> similar_at_least(a, b, 17, 20),
{
}

/// The facts `undominated` keeps come from the new facts, in order, and
/// none of them is dominated.
proof fn lemma_undominated_members(new: Seq<FactView>, existing: Seq<FactView>)
    ensures
        undominated(new, existing).len() <= new.len(),
        forall|j: int| 0 <= j < undominated(new, existing).len() ==> !dominated(#[trigger] undominated(new, existing)[j], existing),
        forall|j: int| 0 <= j < undominated(new, existing).len() ==> new.contains(#[trigger] undominated(new, existing)[j]),
        forall|i: int| 0 <= i < new.len() && !dominated(#[trigger] new[i], existing) ==> undominated(new, existing).contains(new[i]),
    decreases new.len(),
{
    if new.len() > 0 {
        let rest = new.drop_last();
        lemma_undominated_members(rest, existing);
        let u = undominated(new, existing);
        let ur = undominated(rest, existing);
        assert forall|j: int| 0 <= j < u.len() implies new.contains(#[trigger] u[j]) by {
            if j < ur.len() {
                assert(u[j] == ur[j]);
                let k = choose|k: int| 0 <= k < rest.len() && rest[k] == ur[j];
                assert(new[k] == rest[k]);
            } else {
                assert(u[j] == new.last());
                assert(new[new.len() - 1] == new.last());
            }
        }
        assert forall|i: int| 0 <= i < new.len() && !dominated(#[trigger] new[i], existing) implies u.contains(new[i]) by {
            if i < new.len() - 1 {
                assert(rest[i] == new[i]);
                let k = choose|k: int| 0 <= k < ur.len() && ur[k] == rest[i];
                assert(u[k] == ur[k]);
            } else {
                assert(u[u.len() - 1] == new.last());
            }
        }
        assert forall|j: int| 0 <= j < u.len() implies !dominated(#[trigger] u[j], existing) by {
            if j < ur.len() {
                assert(u[j] == ur[j]);
            }
        }
    }
}

/// Deduplication removes exactly the new facts that duplicate an existing
/// one: no kept fact has an existing fact of its category at 85% similarity
/// or of another category at 95%, and every new fact that has none is kept.
pub proof fn law_dedup_drops_exactly_the_duplicates(new: Seq<FactView>, existing: Seq<FactView>)
    ensures
        forall|j: int, k: int| 0 <= j < undominated(new, existing).len() && 0 <= k < existing.len() ==> {
            &&& (#[trigger] undominated(new, existing)[j]).category == (#[trigger] existing[k]).category
                ==> !similar_at_least(undominated(new, existing)[j].content, existing[k].content, 17, 20)
            &&& undominated(new, existing)[j].category != existing[k].category
                ==> !similar_at_least(undominated(new, existing)[j].content, existing[k].content, 19, 20)
        },
        forall|i: int| 0 <= i < new.len() && (forall|k: int| 0 <= k < existing.len() ==> {
            &&& (#[trigger] new[i]).category == (#[trigger] existing[k]).category ==> !similar_at_least(new[i].content, existing[k].content, 17, 20)
            &&& new[i].category != existing[k].category ==> !similar_at_least(new[i].content, existing[k].content, 19, 20)
        }) ==> undominated(new, existing).contains(new[i]),
{
    lemma_undominated_members(new, existing);
    let u = undominated(new, existing);
    assert forall|j: int, k: int| 0 <= j < u.len() && 0 <= k < existing.len() implies {
        &&& (#[trigger] u[j]).category == (#[trigger] existing[k]).category ==> !similar_at_least(u[j].content, existing[k].content, 17, 20)
        &&& u[j].category != existing[k].category ==> !similar_at_least(u[j].content, existing[k].content, 19, 20)
    } by {
        assert(!dominated(u[j], existing));
        assert(!dominated_by(u[j], existing[k]));
    }
    assert forall|i: int| 0 <= i < new.len() && (forall|k: int| 0 <= k < existing.len() ==> {
        &&& (#[trigger] new[i]).category == (#[trigger] existing[k]).category ==> !similar_at_least(new[i].content, existing[k].content, 17, 20)
        &&& new[i].category != existing[k].category ==> !similar_at_least(new[i].content, existing[k].content, 19, 20)
    }) implies u.contains(new[i]) by {
        assert forall|k: int| 0 <= k < existing.len() implies !dominated_by(new[i], #[trigger] existing[k]) by {
            assert(new[i].category == existing[k].category ==> !similar_at_least(new[i].content, existing[k].content, 17, 20));
        }
    }
}

/// Whether two contents meet the similarity threshold `num / den`.
fn similar(a: &str, b: &str, num: u128, den: u128) -> (r: bool)
    requires
        num <= den,
        den <= 100,
    ensures
        r == similar_at_least(a@, b@, num as nat, den as nat),
{
    let na = normalize(a);
    let nb = normalize(b);
    let ca = chars_of(na.as_str());
    let cb = chars_of(nb.as_str());
    if seq_eq(&ca, &cb) {
        return true;
    }
    let la = utf8_byte_len(&ca);
    let lb = utf8_byte_len(&cb);
    let mx = if la >= lb { la } else { lb };
    if mx == 0 {
        return true;
    }
    let dist = levenshtein_chars(&ca, &cb);
    proof {
        lemma_edit_distance_le_max(ca@, cb@);
        lemma_utf8_len_bounds(ca@);
        lemma_utf8_len_bounds(cb@);
    }
    let d = dist as u128;
    assert(den * d <= 100 * 0x1_0000_0000_0000_0000) by (nonlinear_arith)
        requires d < 0x1_0000_0000_0000_0000, den <= 100;
    assert((den - num) * mx <= 100 * 0x4_0000_0000_0000_0000) by (nonlinear_arith)
        requires mx <= 0x4_0000_0000_0000_0000, den - num <= 100, den - num >= 0;
    den * d <= (den - num) * mx
}

/// Whether some existing fact dominates `new`.
fn is_dominated(new: &KeyFact, existing: &Vec<KeyFact>) -> (r: bool)
    ensures
        r == dominated(new@, facts_view(existing@)),
{
    let ghost ev = facts_view(existing@);
    let mut k: usize = 0;
    while k < existing.len()
        invariant
            k <= existing@.len(),
            ev == facts_view(existing@),
            forall|t: int| 0 <= t < k ==> !dominated_by(new@, #[trigger] ev[t]),
        decreases existing@.len() - k,
    {
        let e = &existing[k];
        let same = new.category.same_as(&e.category);
        let hit = if same {
            similar(new.content.as_str(), e.content.as_str(), 17, 20)
        } else {
            similar(new.content.as_str(), e.content.as_str(), 19, 20)
        };
        assert(ev[k as int] == e@);
        if hit {
            return true;
        }
        k = k + 1;
    }
    false
}

/// Removes the new facts that duplicate existing ones, keeping the rest in
/// order. Within one category a fact is a duplicate at 85% similarity;
/// across categories only at 95%, so differently worded facts stay apart.
pub fn deduplicate_exact(new_facts: &Vec<KeyFact>, existing_facts: &Vec<KeyFact>) -> (r: Vec<KeyFact>)
    ensures
        facts_view(r@) == undominated(facts_view(new_facts@), facts_view(existing_facts@)),
{
    let ghost nv = facts_view(new_facts@);
    let ghost ev = facts_view(existing_facts@);
    let mut out: Vec<KeyFact> = Vec::new();
    let mut i: usize = 0;
    while i < new_facts.len()
        invariant
            i <= new_facts@.len(),
            nv == facts_view(new_facts@),
            ev == facts_view(existing_facts@),
            facts_view(out@) == undominated(nv.take(i as int), ev),
        decreases new_facts@.len() - i,
    {
        let f = &new_facts[i];
        let d = is_dominated(f, existing_facts);
        let ghost before = out@;
        proof {
            let t = nv.take(i + 1);
            assert(t.drop_last() =~= nv.take(i as int));
            assert(t.last() == f@);
        }
        if !d {
            out.push(f.copy());
            assert(facts_view(out@) =~= facts_view(before).push(f@));
        }
        i = i + 1;
    }
    assert(nv.take(new_facts@.len() as int) =~= nv);
    out
}


/// Whether `text` parses as a JSON array (`serde_json::from_str::<Vec<Value>>`).
pub uninterp spec fn parses_as_json_array(text: Seq<char>) -> bool;

/// Wrapper of `serde_json::from_str::<Vec<serde_json::Value>>`; tells
/// whether `text` is a JSON array, under the name `parses_as_json_array`.
#[verifier::external_body]
fn is_json_array(text: &[char]) -> (r: bool)
    ensures
        r == parses_as_json_array(text@),
{
    let s: String = text.iter().collect();
    serde_json::from_str::<Vec<serde_json::Value>>(&s).is_ok()
}

/// The trimmed text between the first `open` marker and the next code fence after it.
pub open spec fn fenced_block(text: Seq<char>, open: Seq<char>) -> Option<Seq<char>> {
    match spec_find(text, open) {
        Some(start) => {
            let after = text.skip(start + open.len());
            match spec_find(after, "```"@) {
                Some(end) => Some(trim_seq(after.take(end))),
                None => None,
            }
        },
        None => None,
    }
}

/// The text from the first `[` to the last `]`, when the last comes after the first.
pub open spec fn bracketed(text: Seq<char>) -> Option<Seq<char>> {
    match (spec_find(text, seq!['[']), spec_rfind_char(text, ']')) {
        (Some(start), Some(end)) => if end > start { Some(text.subrange(start, end + 1)) } else { None },
        _ => None,
    }
}

/// The JSON array found in noisy model output: the whole text, else a
/// ```` ```json ```` block, else any fenced block, else the span from the first
/// `[` to the last `]`; each candidate is kept only if it parses as an array.
pub open spec fn spec_extract_json_array(text: Seq<char>) -> Option<Seq<char>> {
    if parses_as_json_array(text) {
        Some(text)
    } else if fenced_block(text, "```json"@) is Some && parses_as_json_array(fenced_block(text, "```json"@)->0) {
        fenced_block(text, "```json"@)
    } else if fenced_block(text, "```"@) is Some && parses_as_json_array(fenced_block(text, "```"@)->0) {
        fenced_block(text, "```"@)
    } else if bracketed(text) is Some && parses_as_json_array(bracketed(text)->0) {
        bracketed(text)
    } else {
        None
    }
}

/// The trimmed contents of the first block opened by `open` and closed by a fence.
fn fenced(text: &Vec<char>, open: &str) -> (r: Option<Vec<char>>)
    ensures
        r matches Some(v) ==> fenced_block(text@, open@) == Some(v@),
        r is None ==> fenced_block(text@, open@) is None,
{
    let open_chars = chars_of(open);
    let fence = chars_of("```");
    proof {
        reveal_strlit("```");
    }
    match find_chars(text, &open_chars) {
        Some(start) => {
            let tl = text.len();
            assert(start + open_chars@.len() <= tl);
            let after = slice_chars(text, start + open_chars.len(), tl);
            assert(after@ =~= text@.skip(start + open_chars@.len()));
            match find_chars(&after, &fence) {
                Some(end) => {
                    let inner = slice_chars(&after, 0, end);
                    assert(inner@ =~= after@.take(end as int));
                    Some(trim_chars(&inner))
                },
                None => None,
            }
        },
        None => None,
    }
}

/// Extracts a JSON array from possibly noisy model output.
pub fn extract_json_array(text: &str) -> (r: Option<String>)
    ensures
        r matches Some(s) ==> spec_extract_json_array(text@) == Some(s@),
        r is None ==> spec_extract_json_array(text@) is None,
{
    let t = chars_of(text);
    if is_json_array(t.as_slice()) {
        return Some(to_owned_string(text));
    }
    if let Some(inner) = fenced(&t, "```json") {
        if is_json_array(inner.as_slice()) {
            return Some(string_from_chars(inner.as_slice()));
        }
    }
    if let Some(inner) = fenced(&t, "```") {
        if is_json_array(inner.as_slice()) {
            return Some(string_from_chars(inner.as_slice()));
        }
    }
    let open = chars_of("[");
    proof {
        reveal_strlit("[");
        assert(open@ =~= seq!['[']);
    }
    match (find_chars(&t, &open), rfind_char(&t, ']')) {
        (Some(start), Some(end)) => {
            if end > start {
                let candidate = slice_chars(&t, start, end + 1);
                if is_json_array(candidate.as_slice()) {
                    return Some(string_from_chars(candidate.as_slice()));
                }
            }
            None
        },
        _ => None,
    }
}

proof fn lemma_rfind_in_bounds(s: Seq<char>, c: char)
    ensures
        spec_rfind_char(s, c) matches Some(i) ==> 0 <= i < s.len(),
    decreases s.len(),
{
    if s.len() > 0 && s.last() != c {
        lemma_rfind_in_bounds(s.drop_last(), c);
    }
}

/// `s` without trailing `.`, `!` and `?` characters.
pub open spec fn strip_end_punctuation(s: Seq<char>) -> Seq<char>
    decreases s.len(),
{
    if s.len() > 0 && (s.last() == '.' || s.last() == '!' || s.last() == '?') {
        strip_end_punctuation(s.drop_last())
    } else {
        s
    }
}

/// The bullet line injected for one fact: `- <content>.` and a newline, the
/// content trimmed and stripped of its own final punctuation.
pub open spec fn fact_line(content: Seq<char>) -> Seq<char> {
    "- "@ + strip_end_punctuation(trim_seq(content)) + ".\n"@
}

/// Rough token cost of a line: a quarter of its UTF-8 length, plus one.
pub open spec fn line_tokens(line: Seq<char>) -> nat {
    utf8_len(line) / 4 + 1
}

/// Bullet lines for `contents`, in order, stopping before the first line
/// that would take the running token estimate `used` past `max_tokens`.
pub open spec fn rendered_facts(contents: Seq<Seq<char>>, max_tokens: nat, used: nat) -> Seq<char>
    decreases contents.len(),
{
    if contents.len() == 0 {
        Seq::empty()
    } else {
        let line = fact_line(contents[0]);
        if used + line_tokens(line) > max_tokens {
            Seq::empty()
        } else {
            line + rendered_facts(contents.skip(1), max_tokens, used + line_tokens(line))
        }
    }
}

/// The bullet lines of the first `k` contents, in order.
pub open spec fn first_lines(contents: Seq<Seq<char>>, k: nat) -> Seq<char>
    decreases k,
{
    if k == 0 || contents.len() == 0 {
        Seq::empty()
    } else {
        fact_line(contents[0]) + first_lines(contents.skip(1), (k - 1) as nat)
    }
}

/// The token estimate of the bullet lines of the first `k` contents.
pub open spec fn first_tokens(contents: Seq<Seq<char>>, k: nat) -> nat
    decreases k,
{
    if k == 0 || contents.len() == 0 {
        0
    } else {
        line_tokens(fact_line(contents[0])) + first_tokens(contents.skip(1), (k - 1) as nat)
    }
}

proof fn lemma_rendered_prefix(contents: Seq<Seq<char>>, max_tokens: nat, used: nat)
    requires
        used <= max_tokens,
    ensures
        exists|k: nat| #![trigger first_lines(contents, k)]
            k <= contents.len()
            && rendered_facts(contents, max_tokens, used) == first_lines(contents, k)
            && used + first_tokens(contents, k) <= max_tokens
            && (k < contents.len() ==> used + first_tokens(contents, k + 1) > max_tokens),
    decreases contents.len(),
{
    if contents.len() == 0 {
        assert(rendered_facts(contents, max_tokens, used) == first_lines(contents, 0));
    } else {
        let line = fact_line(contents[0]);
        if used + line_tokens(line) > max_tokens {
            assert(rendered_facts(contents, max_tokens, used) == first_lines(contents, 0));
            assert(first_tokens(contents, 1) == line_tokens(line) + first_tokens(contents.skip(1), 0));
        } else {
            let rest = contents.skip(1);
            lemma_rendered_prefix(rest, max_tokens, used + line_tokens(line));
            let k = choose|k: nat| #![trigger first_lines(rest, k)]
                k <= rest.len()
                && rendered_facts(rest, max_tokens, used + line_tokens(line)) == first_lines(rest, k)
                && used + line_tokens(line) + first_tokens(rest, k) <= max_tokens
                && (k < rest.len() ==> used + line_tokens(line) + first_tokens(rest, k + 1) > max_tokens);
            assert(first_lines(contents, k + 1) == line + first_lines(rest, k));
            assert(first_tokens(contents, k + 1) == line_tokens(line) + first_tokens(rest, k));
            assert(first_tokens(contents, k + 2) == line_tokens(line) + first_tokens(rest, k + 1));
            assert(rendered_facts(contents, max_tokens, used) == first_lines(contents, k + 1));
        }
    }
}

/// The context block is the bullet lines of the first facts, as many as
/// fit: the token estimate of the whole block is within the budget, and
/// the next fact's line would take it past the budget.
pub proof fn law_context_block_within_budget(contents: Seq<Seq<char>>, max_tokens: nat)
    ensures
        exists|k: nat| #![trigger first_lines(contents, k)]
            k <= contents.len()
            && rendered_facts(contents, max_tokens, 0) == first_lines(contents, k)
            && first_tokens(contents, k) <= max_tokens
            && (k < contents.len() ==> first_tokens(contents, k + 1) > max_tokens),
{
    lemma_rendered_prefix(contents, max_tokens, 0);
}

/// Removes trailing `.`, `!` and `?`.
fn strip_punctuation(v: &Vec<char>) -> (r: Vec<char>)
    ensures
        r@ == strip_end_punctuation(v@),
{
    let mut end: usize = v.len();
    assert(v@.take(end as int) =~= v@);
    while end > 0 && (v[end - 1] == '.' || v[end - 1] == '!' || v[end - 1] == '?')
        invariant
            end <= v@.len(),
            strip_end_punctuation(v@) == strip_end_punctuation(v@.take(end as int)),
        decreases end,
    {
        assert(v@.take(end as int).drop_last() =~= v@.take(end - 1));
        end = end - 1;
    }
    slice_chars(v, 0, end)
}

/// Renders facts, already ordered by priority, as the bulleted block injected
/// into the system prompt, keeping within `max_tokens` estimated tokens.
pub fn format_for_context(facts: &Vec<KeyFact>, max_tokens: usize) -> (r: String)
    ensures
        r@ == rendered_facts(facts@.map_values(|f: KeyFact| f.content@), max_tokens as nat, 0),
{
    let ghost contents = facts@.map_values(|f: KeyFact| f.content@);
    let mut result = String::new();
    let mut used: u128 = 0;
    let mut i: usize = 0;
    assert(contents.skip(0) =~= contents);
    while i < facts.len()
        invariant
            i <= facts@.len(),
            contents == facts@.map_values(|f: KeyFact| f.content@),
            used <= max_tokens,
            result@ + rendered_facts(contents.skip(i as int), max_tokens as nat, used as nat)
                == rendered_facts(contents, max_tokens as nat, 0),
        decreases facts@.len() - i,
    {
        let c = chars_of(facts[i].content.as_str());
        let trimmed = trim_chars(&c);
        let stripped = strip_punctuation(&trimmed);
        let mut line: Vec<char> = Vec::new();
        line.push('-');
        line.push(' ');
        let mut k: usize = 0;
        while k < stripped.len()
            invariant
                k <= stripped@.len(),
                line@ == seq!['-', ' '] + stripped@.take(k as int),
            decreases stripped@.len() - k,
        {
            line.push(stripped[k]);
            k = k + 1;
            assert(line@ =~= seq!['-', ' '] + stripped@.take(k as int));
        }
        line.push('.');
        line.push('\n');
        proof {
            reveal_strlit("- ");
            reveal_strlit(".\n");
            assert(stripped@.take(stripped@.len() as int) =~= stripped@);
            assert(line@ =~= fact_line(contents[i as int]));
        }
        let bytes = utf8_byte_len(&line);
        let cost = bytes / 4 + 1;
        let ghost rest = contents.skip(i as int);
        assert(rest[0] == contents[i as int]);
        if used + cost > max_tokens as u128 {
            assert(result@ + Seq::<char>::empty() =~= result@);
            return result;
        }
        let s = string_from_chars(line.as_slice());
        let ghost before = result@;
        push_str(&mut result, s.as_str());
        used = used + cost;
        proof {
            assert(rest.skip(1) =~= contents.skip(i + 1));
            assert(before + (line@ + rendered_facts(rest.skip(1), max_tokens as nat, used as nat))
                =~= (before + line@) + rendered_facts(rest.skip(1), max_tokens as nat, used as nat));
        }
        i = i + 1;
    }
    assert(contents.skip(i as int).len() == 0);
    assert(result@ + Seq::<char>::empty() =~= result@);
    result
}


/// What adding facts for an actor does to the stored facts.
pub enum FactWritePlan {
    /// No new facts: the stored ones are read back.
    ReadBack,
    /// Within the limit: the new facts are saved and the stored set is read
    /// back.
    SaveNew,
    /// Over the limit: the first `keep` facts of the ranked merged list are
    /// saved and kept, and the stored facts with these IDs, which did not
    /// make it, are deleted.
    Trim { keep: usize, evict: Vec<String> },
}

/// The stored IDs, in order, that are not among the kept IDs.
pub open spec fn evicted_ids(existing: Seq<Seq<char>>, kept: Seq<Seq<char>>) -> Seq<Seq<char>>
    decreases existing.len(),
{
    if existing.len() == 0 {
        Seq::empty()
    } else {
        let rest = evicted_ids(existing.drop_last(), kept);
        if kept.contains(existing.last()) {
            rest
        } else {
            rest.push(existing.last())
        }
    }
}

/// The plan of adding `new_count` facts to the stored ones, at most
/// `max_facts` being kept. `ranked` is the IDs of the stored facts and the
/// new ones together, from the highest priority down.
pub open spec fn spec_fact_write_plan(existing: Seq<Seq<char>>, new_count: nat, max_facts: nat, ranked: Seq<Seq<char>>) -> (
    int,
    Seq<Seq<char>>,
) {
    if new_count == 0 {
        (-1, Seq::empty())
    } else if existing.len() + new_count > max_facts {
        let keep = if max_facts < ranked.len() { max_facts as int } else { ranked.len() as int };
        (keep, evicted_ids(existing, ranked.take(keep)))
    } else {
        (-2, Seq::empty())
    }
}

/// The view of a plan, in the form `spec_fact_write_plan` gives it.
pub open spec fn plan_view(p: FactWritePlan) -> (int, Seq<Seq<char>>) {
    match p {
        FactWritePlan::ReadBack => (-1, Seq::empty()),
        FactWritePlan::SaveNew => (-2, Seq::empty()),
        FactWritePlan::Trim { keep, evict } => (keep as int, evict.deep_view()),
    }
}

fn id_listed(ids: &Vec<String>, upto: usize, id: &str) -> (r: bool)
    requires
        upto <= ids@.len(),
    ensures
        r == ids.deep_view().take(upto as int).contains(id@),
{
    let mut i: usize = 0;
    while i < upto
        invariant
            upto <= ids@.len(),
            i <= upto,
            forall|k: int| 0 <= k < i ==> ids.deep_view()[k] != id@,
        decreases upto - i,
    {
        if str_eq(ids[i].as_str(), id) {
            assert(ids.deep_view().take(upto as int)[i as int] == id@);
            return true;
        }
        i = i + 1;
    }
    assert forall|k: int| 0 <= k < upto implies ids.deep_view().take(upto as int)[k] != id@ by {
        assert(ids.deep_view().take(upto as int)[k] == ids.deep_view()[k]);
    }
    false
}

/// Plans adding facts for an actor (see `spec_fact_write_plan`).
pub fn plan_fact_write(existing: &Vec<String>, new_count: usize, max_facts: usize, ranked: &Vec<String>) -> (r: FactWritePlan)
    ensures
        plan_view(r) == spec_fact_write_plan(existing.deep_view(), new_count as nat, max_facts as nat, ranked.deep_view()),
{
    if new_count == 0 {
        return FactWritePlan::ReadBack;
    }
    if (existing.len() as u128) + (new_count as u128) <= (max_facts as u128) {
        return FactWritePlan::SaveNew;
    }
    let keep: usize = if max_facts < ranked.len() { max_facts } else { ranked.len() };
    let ghost kept = ranked.deep_view().take(keep as int);
    let ghost ex = existing.deep_view();
    let mut evict: Vec<String> = Vec::new();
    let mut i: usize = 0;
    while i < existing.len()
        invariant
            keep <= ranked@.len(),
            kept == ranked.deep_view().take(keep as int),
            ex == existing.deep_view(),
            i <= existing@.len(),
            evict.deep_view() == evicted_ids(ex.take(i as int), kept),
        decreases existing@.len() - i,
    {
        proof {
            assert(ex.take(i + 1).drop_last() =~= ex.take(i as int));
            assert(ex.take(i + 1).last() == existing@[i as int]@);
        }
        if !id_listed(ranked, keep, existing[i].as_str()) {
            let ghost before = evict.deep_view();
            evict.push(existing[i].clone());
            assert(evict.deep_view() =~= before.push(existing@[i as int]@));
        }
        i = i + 1;
    }
    assert(ex.take(i as int) =~= ex);
    FactWritePlan::Trim { keep, evict }
}

} // verus!
