//! Dot paths into JSON values, and the checks of a path assertion that do
//! not compare numbers.
use vstd::prelude::*;
use crate::json::{JsonValue, JsonView, get_key, json_eq, json_equal, items_view, lemma_items_view};
use crate::text::{chars_of, string_from_chars, contains_seq, str_contains};

verus! {

/// The pieces of `s` between the occurrences of `c`, as `str::split` gives
/// them (an empty text is one empty piece).
pub open spec fn split_on(s: Seq<char>, c: char) -> Seq<Seq<char>>
    decreases s.len(),
{
    if s.len() == 0 {
        seq![Seq::empty()]
    } else if s.last() == c {
        split_on(s.drop_last(), c).push(Seq::empty())
    } else {
        let p = split_on(s.drop_last(), c);
        p.update(p.len() - 1, p.last().push(s.last()))
    }
}

/// There is always at least one piece.
proof fn lemma_split_nonempty(s: Seq<char>, c: char)
    ensures
        split_on(s, c).len() >= 1,
    decreases s.len(),
{
    if s.len() > 0 {
        lemma_split_nonempty(s.drop_last(), c);
    }
}

/// Splits a text on a character.
pub fn split_chars(s: &Vec<char>, c: char) -> (r: Vec<Vec<char>>)
    ensures
        r@.len() == split_on(s@, c).len(),
        forall|i: int| 0 <= i < r@.len() ==> (#[trigger] r@[i])@ == split_on(s@, c)[i],
{
    let mut parts: Vec<Vec<char>> = Vec::new();
    parts.push(Vec::new());
    let mut i: usize = 0;
    proof {
        assert(s@.take(0) =~= Seq::<char>::empty());
    }
    while i < s.len()
        invariant
            i <= s@.len(),
            parts@.len() == split_on(s@.take(i as int), c).len(),
            forall|k: int| 0 <= k < parts@.len() ==> (#[trigger] parts@[k])@ == split_on(s@.take(i as int), c)[k],
        decreases s@.len() - i,
    {
        proof {
            assert(s@.take(i + 1).drop_last() =~= s@.take(i as int));
            assert(s@.take(i + 1).last() == s@[i as int]);
            lemma_split_nonempty(s@.take(i as int), c);
        }
        if s[i] == c {
            parts.push(Vec::new());
            proof {
                assert(parts@.last()@ =~= Seq::<char>::empty());
            }
        } else {
            let last = parts.len() - 1;
            let mut piece = parts.pop().unwrap();
            piece.push(s[i]);
            parts.push(piece);
            proof {
                let p = split_on(s@.take(i as int), c);
                assert(parts@[last as int]@ =~= p.last().push(s@[i as int]));
            }
        }
        i = i + 1;
    }
    assert(s@.take(i as int) =~= s@);
    parts
}

/// The value under `parts`, member by member.
pub open spec fn value_at(v: JsonView, parts: Seq<Seq<char>>) -> Option<JsonView>
    decreases parts.len(),
{
    if parts.len() == 0 {
        Some(v)
    } else {
        match get_key(v, parts[0]) {
            Some(x) => value_at(x, parts.drop_first()),
            None => None,
        }
    }
}

/// The value under a dot path: the value itself for an empty path, else
/// the member under each piece in turn.
pub open spec fn path_value(v: JsonView, path: Seq<char>) -> Option<JsonView> {
    if path.len() == 0 {
        Some(v)
    } else {
        value_at(v, split_on(path, '.'))
    }
}

/// The value under a dot path.
pub fn get_path<'a>(value: &'a JsonValue, path: &str) -> (r: Option<&'a JsonValue>)
    ensures
        match r {
            Some(x) => path_value(value@, path@) == Some(x@),
            None => path_value(value@, path@) is None,
        },
{
    let chars = chars_of(path);
    if chars.len() == 0 {
        return Some(value);
    }
    let parts = split_chars(&chars, '.');
    let ghost all = split_on(path@, '.');
    let mut current: &JsonValue = value;
    let mut i: usize = 0;
    proof {
        assert(all.skip(0) =~= all);
    }
    while i < parts.len()
        invariant
            chars@ == path@,
            chars@.len() > 0,
            all == split_on(path@, '.'),
            parts@.len() == all.len(),
            forall|k: int| 0 <= k < parts@.len() ==> (#[trigger] parts@[k])@ == all[k],
            i <= parts@.len(),
            path_value(value@, path@) == value_at(current@, all.skip(i as int)),
        decreases parts@.len() - i,
    {
        let key = string_from_chars(parts[i].as_slice());
        proof {
            assert(all.skip(i as int)[0] == all[i as int]);
            assert(all.skip(i as int).drop_first() =~= all.skip(i + 1));
        }
        match current.get(key.as_str()) {
            Some(x) => {
                current = x;
            },
            None => {
                return None;
            },
        }
        i = i + 1;
    }
    assert(all.skip(i as int) =~= Seq::<Seq<char>>::empty());
    Some(current)
}

/// The checks of a path assertion that compare JSON values.
pub struct PathChecks {
    /// The value must equal this.
    pub eq: Option<JsonValue>,
    /// The value must not equal this.
    pub neq: Option<JsonValue>,
    /// The value must equal one of these.
    pub in_values: Option<Vec<JsonValue>>,
    /// A string value must contain this text; an array value this element.
    pub contains: Option<JsonValue>,
    /// Whether the path must exist.
    pub exists: Option<bool>,
}

/// What the non-numeric checks say of a value found (or not) under a path.
#[derive(Clone, Copy, Debug, PartialEq, Eq, Structural)]
pub enum PathVerdict {
    /// A check fails.
    Fails,
    /// Every check holds and no value was found: numbers are not compared.
    Holds,
    /// Every check holds on the value found; its numeric bounds decide.
    NumbersDecide,
}

/// Some element of `items` equals `x`.
pub open spec fn has_equal(items: Seq<JsonView>, x: JsonView) -> bool {
    exists|i: int| 0 <= i < items.len() && #[trigger] json_eq(items[i], x)
}

/// The `contains` check: a text within a string, an element within an
/// array; false for other values.
pub open spec fn contains_value(actual: JsonView, expected: JsonView) -> bool {
    match actual {
        JsonView::Str(a) => match expected {
            JsonView::Str(e) => contains_seq(a, e),
            _ => false,
        },
        JsonView::Array(items) => has_equal(items, expected),
        _ => false,
    }
}

/// The verdict of the non-numeric checks, in the order they are made:
/// existence, then equality, inequality, membership and containment.
pub open spec fn path_verdict(actual: Option<JsonView>, checks: &PathChecks) -> PathVerdict {
    if checks.exists matches Some(e) && e != actual is Some {
        PathVerdict::Fails
    } else {
        match actual {
            None => if checks.exists == Some(false) { PathVerdict::Holds } else { PathVerdict::Fails },
            Some(a) => {
                if checks.eq matches Some(x) && !json_eq(a, x@) {
                    PathVerdict::Fails
                } else if checks.neq matches Some(x) && json_eq(a, x@) {
                    PathVerdict::Fails
                } else if checks.in_values matches Some(vs) && !has_equal(items_view(vs@), a) {
                    PathVerdict::Fails
                } else if checks.contains matches Some(e) && !contains_value(a, e@) {
                    PathVerdict::Fails
                } else {
                    PathVerdict::NumbersDecide
                }
            },
        }
    }
}

/// Whether some element of `items` equals `x`.
fn any_equal(items: &Vec<JsonValue>, x: &JsonValue) -> (r: bool)
    ensures
        r == has_equal(items_view(items@), x@),
{
    proof {
        lemma_items_view(items@);
    }
    let mut i: usize = 0;
    while i < items.len()
        invariant
            i <= items@.len(),
            items_view(items@).len() == items@.len(),
            forall|t: int| 0 <= t < items@.len() ==> #[trigger] items_view(items@)[t] == items@[t]@,
            forall|k: int| 0 <= k < i ==> !#[trigger] json_eq(items_view(items@)[k], x@),
        decreases items@.len() - i,
    {
        if json_equal(&items[i], x) {
            assert(json_eq(items_view(items@)[i as int], x@));
            return true;
        }
        i = i + 1;
    }
    false
}

/// Applies the non-numeric checks of a path assertion to the value found
/// (or not) under its path.
pub fn check_path_value(actual: Option<&JsonValue>, checks: &PathChecks) -> (r: PathVerdict)
    ensures
        r == path_verdict(
            match actual {
                Some(a) => Some(a@),
                None => None,
            },
            checks,
        ),
{
    if let Some(e) = checks.exists {
        if e != actual.is_some() {
            return PathVerdict::Fails;
        }
    }
    let a = match actual {
        Some(a) => a,
        None => {
            return if checks.exists == Some(false) { PathVerdict::Holds } else { PathVerdict::Fails };
        },
    };
    if let Some(x) = &checks.eq {
        if !json_equal(a, x) {
            return PathVerdict::Fails;
        }
    }
    if let Some(x) = &checks.neq {
        if json_equal(a, x) {
            return PathVerdict::Fails;
        }
    }
    if let Some(vs) = &checks.in_values {
        if !any_equal(vs, a) {
            return PathVerdict::Fails;
        }
    }
    if let Some(e) = &checks.contains {
        let contained = match a {
            JsonValue::Str(text) => match e {
                JsonValue::Str(part) => str_contains(text.as_str(), part.as_str()),
                _ => false,
            },
            JsonValue::Array(items) => any_equal(items, e),
            _ => false,
        };
        if !contained {
            return PathVerdict::Fails;
        }
    }
    PathVerdict::NumbersDecide
}

} // verus!
