//! JSON values as plain data.
//!
//! Objects keep their members in order; a key read from an object finds its
//! last occurrence. Floating-point numbers are carried by their bit pattern.
use vstd::prelude::*;
use crate::text::{chars_of, to_owned_string};

verus! {

/// A JSON number: non-negative integer, negative integer, or float bits.
#[derive(Clone, Copy, Debug, PartialEq, Eq, Structural)]
pub enum JsonNumber {
    PosInt(u64),
    NegInt(i64),
    Float(u64),
}

/// A JSON value.
#[derive(Debug)]
pub enum JsonValue {
    Null,
    Bool(bool),
    Number(JsonNumber),
    Str(String),
    Array(Vec<JsonValue>),
    Object(Vec<(String, JsonValue)>),
}

/// Mathematical form of a JSON value.
pub enum JsonView {
    Null,
    Bool(bool),
    Number(JsonNumber),
    Str(Seq<char>),
    Array(Seq<JsonView>),
    Object(Seq<(Seq<char>, JsonView)>),
}

/// The view of a value.
pub open spec fn jv(v: &JsonValue) -> JsonView
    decreases v, 0nat,
{
    match v {
        JsonValue::Null => JsonView::Null,
        JsonValue::Bool(b) => JsonView::Bool(*b),
        JsonValue::Number(n) => JsonView::Number(*n),
        JsonValue::Str(s) => JsonView::Str(s@),
        JsonValue::Array(items) => JsonView::Array(items_view(items@)),
        JsonValue::Object(members) => JsonView::Object(members_view(members@)),
    }
}

/// The views of a sequence of values.
pub open spec fn items_view(s: Seq<JsonValue>) -> Seq<JsonView>
    decreases s, 1nat,
{
    if s.len() == 0 {
        Seq::empty()
    } else {
        items_view(s.drop_last()).push(jv(&s[s.len() - 1]))
    }
}

/// The views of a sequence of object members.
pub open spec fn members_view(s: Seq<(String, JsonValue)>) -> Seq<(Seq<char>, JsonView)>
    decreases s, 1nat,
{
    if s.len() == 0 {
        Seq::empty()
    } else {
        members_view(s.drop_last()).push((s[s.len() - 1].0@, jv(&s[s.len() - 1].1)))
    }
}

impl View for JsonValue {
    type V = JsonView;

    open spec fn view(&self) -> JsonView {
        jv(self)
    }
}

pub proof fn lemma_items_view(s: Seq<JsonValue>)
    ensures
        items_view(s).len() == s.len(),
        forall|i: int| 0 <= i < s.len() ==> #[trigger] items_view(s)[i] == jv(&s[i]),
    decreases s.len(),
{
    if s.len() > 0 {
        lemma_items_view(s.drop_last());
        assert forall|i: int| 0 <= i < s.len() implies #[trigger] items_view(s)[i] == jv(&s[i]) by {
            if i < s.len() - 1 {
                assert(s.drop_last()[i] == s[i]);
            }
        }
    }
}

pub proof fn lemma_members_view(s: Seq<(String, JsonValue)>)
    ensures
        members_view(s).len() == s.len(),
        forall|i: int| 0 <= i < s.len() ==> #[trigger] members_view(s)[i] == (s[i].0@, jv(&s[i].1)),
    decreases s.len(),
{
    if s.len() > 0 {
        lemma_members_view(s.drop_last());
        assert forall|i: int| 0 <= i < s.len() implies #[trigger] members_view(s)[i] == (s[i].0@, jv(&s[i].1)) by {
            if i < s.len() - 1 {
                assert(s.drop_last()[i] == s[i]);
            }
        }
    }
}

/// The value of member `key` in a member list.
pub open spec fn member(m: Seq<(Seq<char>, JsonView)>, key: Seq<char>) -> Option<JsonView>
    decreases m.len(),
{
    if m.len() == 0 {
        None
    } else if m.last().0 == key {
        Some(m.last().1)
    } else {
        member(m.drop_last(), key)
    }
}

/// `Value::get(key)`: the member of an object, none for other values.
pub open spec fn get_key(v: JsonView, key: Seq<char>) -> Option<JsonView> {
    match v {
        JsonView::Object(m) => member(m, key),
        _ => None,
    }
}

/// `Value::as_str`.
pub open spec fn as_str_view(v: JsonView) -> Option<Seq<char>> {
    match v {
        JsonView::Str(s) => Some(s),
        _ => None,
    }
}

/// `Value::as_u64`: non-negative integers only.
pub open spec fn as_u64_view(v: JsonView) -> Option<u64> {
    match v {
        JsonView::Number(JsonNumber::PosInt(n)) => Some(n),
        _ => None,
    }
}

/// `Value::as_bool`.
pub open spec fn as_bool_view(v: JsonView) -> Option<bool> {
    match v {
        JsonView::Bool(b) => Some(b),
        _ => None,
    }
}

/// Whether two strings are equal, by characters.
fn key_eq(a: &Vec<char>, b: &Vec<char>) -> (r: bool)
    ensures
        r == (a@ == b@),
{
    crate::text::seq_eq(a, b)
}

/// The value of member `key` in a list of members (its last occurrence).
pub fn member_of<'a>(members: &'a Vec<(String, JsonValue)>, key: &str) -> (r: Option<&'a JsonValue>)
    ensures
        match r {
            Some(v) => member(members_view(members@), key@) == Some(v@),
            None => member(members_view(members@), key@) is None,
        },
{
    let kc = chars_of(key);
    let mut i: usize = members.len();
    proof {
        lemma_members_view(members@);
        assert(members@.take(i as int) =~= members@);
    }
    while i > 0
        invariant
            i <= members@.len(),
            kc@ == key@,
            member(members_view(members@), key@) == member(members_view(members@.take(i as int)), key@),
        decreases i,
    {
        let mk = chars_of(members[i - 1].0.as_str());
        proof {
            let t = members@.take(i as int);
            lemma_members_view(t);
            lemma_members_view(t.drop_last());
            assert(members_view(t).drop_last() =~= members_view(t.drop_last()));
            assert(t.drop_last() =~= members@.take(i - 1));
            assert(t[i - 1] == members@[i - 1]);
        }
        if key_eq(&mk, &kc) {
            proof {
                let t = members@.take(i as int);
                lemma_members_view(t);
                assert(members_view(t).last() == (t[i - 1].0@, jv(&t[i - 1].1)));
            }
            return Some(&members[i - 1].1);
        }
        i = i - 1;
    }
    None
}

/// A copy of a list of members.
pub fn clone_members(m: &Vec<(String, JsonValue)>) -> (r: Vec<(String, JsonValue)>)
    ensures
        members_view(r@) == members_view(m@),
{
    let mut out: Vec<(String, JsonValue)> = Vec::new();
    let mut i: usize = 0;
    assert(m@.take(0) =~= Seq::<(String, JsonValue)>::empty());
    while i < m.len()
        invariant
            i <= m@.len(),
            members_view(out@) == members_view(m@.take(i as int)),
        decreases m@.len() - i,
    {
        let k = m[i].0.clone();
        let v = m[i].1.deep_clone();
        let ghost before = out@;
        out.push((k, v));
        proof {
            assert(out@.drop_last() =~= before);
            assert(m@.take(i + 1).drop_last() =~= m@.take(i as int));
        }
        i = i + 1;
    }
    assert(m@.take(m@.len() as int) =~= m@);
    out
}

/// Whether a float bit pattern is a NaN.
pub open spec fn is_nan_bits(a: u64) -> bool {
    a & 0x7ff0_0000_0000_0000u64 == 0x7ff0_0000_0000_0000u64 && a & 0x000f_ffff_ffff_ffffu64 != 0
}

/// `==` on the `f64` values of two bit patterns: a NaN equals nothing, and
/// the two zeros are equal.
pub open spec fn float_bits_eq(a: u64, b: u64) -> bool {
    !is_nan_bits(a) && !is_nan_bits(b) && (a == b || (a & 0x7fff_ffff_ffff_ffffu64 == 0
        && b & 0x7fff_ffff_ffff_ffffu64 == 0))
}

/// `==` on numbers: of the same kind and equal.
pub open spec fn number_eq(a: JsonNumber, b: JsonNumber) -> bool {
    match (a, b) {
        (JsonNumber::PosInt(x), JsonNumber::PosInt(y)) => x == y,
        (JsonNumber::NegInt(x), JsonNumber::NegInt(y)) => x == y,
        (JsonNumber::Float(x), JsonNumber::Float(y)) => float_bits_eq(x, y),
        _ => false,
    }
}

/// `==` on JSON values: arrays element by element, objects as maps (each
/// key read at its last occurrence, the same keys on both sides).
pub open spec fn json_eq(a: JsonView, b: JsonView) -> bool
    decreases a, 0nat,
{
    match a {
        JsonView::Null => b is Null,
        JsonView::Bool(x) => b == JsonView::Bool(x),
        JsonView::Number(x) => match b {
            JsonView::Number(y) => number_eq(x, y),
            _ => false,
        },
        JsonView::Str(x) => b == JsonView::Str(x),
        JsonView::Array(xs) => match b {
            JsonView::Array(ys) => xs.len() == ys.len() && items_eq(xs, ys),
            _ => false,
        },
        JsonView::Object(ma) => match b {
            JsonView::Object(mb) => members_match(ma, mb, Set::empty()) && keys_within(mb, ma),
            _ => false,
        },
    }
}

/// Element-wise `==` on two sequences of the same length.
pub open spec fn items_eq(xs: Seq<JsonView>, ys: Seq<JsonView>) -> bool
    decreases xs, 1nat,
{
    if xs.len() == 0 {
        true
    } else {
        items_eq(xs.drop_last(), ys.drop_last()) && json_eq(xs[xs.len() - 1], ys[xs.len() - 1])
    }
}

/// Each key of `ma` not in `seen`, read at its last occurrence, is a key of
/// `mb` whose value is equal to it.
pub open spec fn members_match(ma: Seq<(Seq<char>, JsonView)>, mb: Seq<(Seq<char>, JsonView)>, seen: Set<Seq<char>>) -> bool
    decreases ma, 1nat,
{
    if ma.len() == 0 {
        true
    } else {
        let k = ma[ma.len() - 1].0;
        (seen.contains(k) || match member(mb, k) {
            Some(w) => json_eq(ma[ma.len() - 1].1, w),
            None => false,
        }) && members_match(ma.drop_last(), mb, seen.insert(k))
    }
}

/// Every key of `mb` is a key of `ma`.
pub open spec fn keys_within(mb: Seq<(Seq<char>, JsonView)>, ma: Seq<(Seq<char>, JsonView)>) -> bool {
    forall|i: int| 0 <= i < mb.len() ==> #[trigger] member(ma, mb[i].0) is Some
}

/// The keys at positions `from..to` of a member list.
pub open spec fn keys_between(m: Seq<(Seq<char>, JsonView)>, from: int, to: int) -> Set<Seq<char>> {
    Set::new(|k: Seq<char>| exists|j: int| from <= j < to && #[trigger] m[j].0 == k)
}

fn float_bits_equal(a: u64, b: u64) -> (r: bool)
    ensures
        r == float_bits_eq(a, b),
{
    let nan_a = a & 0x7ff0_0000_0000_0000u64 == 0x7ff0_0000_0000_0000u64 && a & 0x000f_ffff_ffff_ffffu64 != 0;
    let nan_b = b & 0x7ff0_0000_0000_0000u64 == 0x7ff0_0000_0000_0000u64 && b & 0x000f_ffff_ffff_ffffu64 != 0;
    !nan_a && !nan_b && (a == b || (a & 0x7fff_ffff_ffff_ffffu64 == 0 && b & 0x7fff_ffff_ffff_ffffu64 == 0))
}

/// `==` on numbers.
pub fn number_equal(a: JsonNumber, b: JsonNumber) -> (r: bool)
    ensures
        r == number_eq(a, b),
{
    match (a, b) {
        (JsonNumber::PosInt(x), JsonNumber::PosInt(y)) => x == y,
        (JsonNumber::NegInt(x), JsonNumber::NegInt(y)) => x == y,
        (JsonNumber::Float(x), JsonNumber::Float(y)) => float_bits_equal(x, y),
        _ => false,
    }
}

/// Whether `key` is the key of a member at a position in `from..to`.
fn key_between(members: &Vec<(String, JsonValue)>, key: &str, from: usize, to: usize) -> (r: bool)
    requires
        from <= to <= members@.len(),
    ensures
        r == keys_between(members_view(members@), from as int, to as int).contains(key@),
{
    proof {
        lemma_members_view(members@);
    }
    let ghost m = members_view(members@);
    let mut j: usize = from;
    while j < to
        invariant
            from <= j <= to <= members@.len(),
            m == members_view(members@),
            m.len() == members@.len(),
            forall|t: int| 0 <= t < members@.len() ==> #[trigger] m[t] == (members@[t].0@, jv(&members@[t].1)),
            forall|t: int| from <= t < j ==> #[trigger] m[t].0 != key@,
        decreases to - j,
    {
        if crate::text::str_eq(members[j].0.as_str(), key) {
            assert(m[j as int].0 == key@);
            return true;
        }
        j = j + 1;
    }
    false
}

/// `==` on JSON values (`Value`'s `==`).
pub fn json_equal(a: &JsonValue, b: &JsonValue) -> (r: bool)
    ensures
        r == json_eq(a@, b@),
    decreases a,
{
    match a {
        JsonValue::Null => b.is_null(),
        JsonValue::Bool(x) => match b {
            JsonValue::Bool(y) => *x == *y,
            _ => false,
        },
        JsonValue::Number(x) => match b {
            JsonValue::Number(y) => number_equal(*x, *y),
            _ => false,
        },
        JsonValue::Str(x) => match b {
            JsonValue::Str(y) => crate::text::str_eq(x.as_str(), y.as_str()),
            _ => false,
        },
        JsonValue::Array(xs) => {
            let ys = match b {
                JsonValue::Array(ys) => ys,
                _ => {
                    return false;
                },
            };
            proof {
                lemma_items_view(xs@);
                lemma_items_view(ys@);
            }
            if xs.len() != ys.len() {
                return false;
            }
            let ghost vx = items_view(xs@);
            let ghost vy = items_view(ys@);
            let mut i: usize = 0;
            while i < xs.len()
                invariant
                    *a == JsonValue::Array(*xs),
                    *b == JsonValue::Array(*ys),
                    a@ == JsonView::Array(vx),
                    b@ == JsonView::Array(vy),
                    xs@.len() == ys@.len(),
                    vx == items_view(xs@),
                    vy == items_view(ys@),
                    vx.len() == xs@.len(),
                    vy.len() == ys@.len(),
                    forall|t: int| 0 <= t < xs@.len() ==> #[trigger] vx[t] == jv(&xs@[t]),
                    forall|t: int| 0 <= t < ys@.len() ==> #[trigger] vy[t] == jv(&ys@[t]),
                    i <= xs@.len(),
                    items_eq(vx.take(i as int), vy.take(i as int)),
                decreases xs@.len() - i,
            {
                assert(decreases_to!(a => xs@[i as int]));
                let same = json_equal(&xs[i], &ys[i]);
                proof {
                    assert(vx.take(i + 1).drop_last() =~= vx.take(i as int));
                    assert(vy.take(i + 1).drop_last() =~= vy.take(i as int));
                    assert(vx.take(i + 1)[i as int] == vx[i as int]);
                    assert(vy.take(i + 1)[i as int] == vy[i as int]);
                }
                if !same {
                    proof {
                        assert(vx.take(vx.len() as int) =~= vx);
                        assert(vy.take(vy.len() as int) =~= vy);
                        if items_eq(vx, vy) {
                            lemma_items_eq_prefix(vx, vy, i as int + 1, vx.len() as int);
                        }
                    }
                    return false;
                }
                i = i + 1;
            }
            proof {
                assert(vx.take(i as int) =~= vx);
                assert(vy.take(i as int) =~= vy);
            }
            true
        },
        JsonValue::Object(ma) => {
            let mb = match b {
                JsonValue::Object(mb) => mb,
                _ => {
                    return false;
                },
            };
            proof {
                lemma_members_view(ma@);
                lemma_members_view(mb@);
            }
            let ghost va = members_view(ma@);
            let ghost vb = members_view(mb@);
            let n = ma.len();
            let mut i: usize = n;
            proof {
                assert(va.take(n as int) =~= va);
                assert(keys_between(va, n as int, n as int) =~= Set::<Seq<char>>::empty());
            }
            while i > 0
                invariant
                    *a == JsonValue::Object(*ma),
                    *b == JsonValue::Object(*mb),
                    a@ == JsonView::Object(va),
                    b@ == JsonView::Object(vb),
                    n == ma@.len(),
                    va == members_view(ma@),
                    vb == members_view(mb@),
                    va.len() == ma@.len(),
                    vb.len() == mb@.len(),
                    forall|t: int| 0 <= t < ma@.len() ==> #[trigger] va[t] == (ma@[t].0@, jv(&ma@[t].1)),
                    forall|t: int| 0 <= t < mb@.len() ==> #[trigger] vb[t] == (mb@[t].0@, jv(&mb@[t].1)),
                    i <= n,
                    members_match(va, vb, Set::empty()) == members_match(va.take(i as int), vb, keys_between(va, i as int, n as int)),
                decreases i,
            {
                let k = ma[i - 1].0.as_str();
                let seen = key_between(ma, k, i, n);
                let ghost t = va.take(i as int);
                proof {
                    assert(t.drop_last() =~= va.take(i - 1));
                    assert(t[i - 1] == va[i - 1]);
                    assert(keys_between(va, i as int, n as int).insert(k@) =~= keys_between(va, i - 1, n as int)) by {
                        assert forall|x: Seq<char>| keys_between(va, i - 1, n as int).contains(x)
                            implies keys_between(va, i as int, n as int).insert(k@).contains(x) by {
                            let j = choose|j: int| i - 1 <= j < n && #[trigger] va[j].0 == x;
                            if j >= i {
                                assert(keys_between(va, i as int, n as int).contains(x));
                            }
                        }
                        assert forall|x: Seq<char>| keys_between(va, i as int, n as int).insert(k@).contains(x)
                            implies keys_between(va, i - 1, n as int).contains(x) by {
                            if x == k@ {
                                assert(va[i - 1].0 == x);
                            } else {
                                let j = choose|j: int| i <= j < n && #[trigger] va[j].0 == x;
                                assert(va[j].0 == x);
                            }
                        }
                    }
                }
                if !seen {
                    match member_of(mb, k) {
                        Some(w) => {
                            assert(decreases_to!(a => ma@[i - 1].1));
                            if !json_equal(&ma[i - 1].1, w) {
                                return false;
                            }
                        },
                        None => {
                            return false;
                        },
                    }
                }
                i = i - 1;
            }
            proof {
                assert(va.take(0) =~= Seq::<(Seq<char>, JsonView)>::empty());
            }
            let mut j: usize = 0;
            while j < mb.len()
                invariant
                    a@ == JsonView::Object(va),
                    b@ == JsonView::Object(vb),
                    members_match(va, vb, Set::empty()),
                    vb == members_view(mb@),
                    va == members_view(ma@),
                    vb.len() == mb@.len(),
                    forall|t: int| 0 <= t < mb@.len() ==> #[trigger] vb[t] == (mb@[t].0@, jv(&mb@[t].1)),
                    j <= mb@.len(),
                    forall|t: int| 0 <= t < j ==> #[trigger] member(va, vb[t].0) is Some,
                decreases mb@.len() - j,
            {
                if member_of(ma, mb[j].0.as_str()).is_none() {
                    assert(vb[j as int].0 == mb@[j as int].0@);
                    return false;
                }
                j = j + 1;
            }
            true
        },
    }
}

/// A prefix of element-wise equal sequences is element-wise equal.
proof fn lemma_items_eq_prefix(xs: Seq<JsonView>, ys: Seq<JsonView>, i: int, n: int)
    requires
        0 <= i <= n <= xs.len(),
        xs.len() == ys.len(),
        items_eq(xs.take(n), ys.take(n)),
    ensures
        items_eq(xs.take(i), ys.take(i)),
    decreases n - i,
{
    if i < n {
        assert(xs.take(n).drop_last() =~= xs.take(n - 1));
        assert(ys.take(n).drop_last() =~= ys.take(n - 1));
        lemma_items_eq_prefix(xs, ys, i, n - 1);
    }
}

impl JsonValue {
    /// A copy of the value.
    pub fn deep_clone(&self) -> (r: JsonValue)
        ensures
            r@ == self@,
        decreases self,
    {
        match self {
            JsonValue::Null => JsonValue::Null,
            JsonValue::Bool(b) => JsonValue::Bool(*b),
            JsonValue::Number(n) => JsonValue::Number(*n),
            JsonValue::Str(s) => JsonValue::Str(s.clone()),
            JsonValue::Array(items) => {
                let mut out: Vec<JsonValue> = Vec::new();
                let mut i: usize = 0;
                proof {
                    lemma_items_view(items@);
                    assert(items@.take(0) =~= Seq::<JsonValue>::empty());
                }
                while i < items.len()
                    invariant
                        *self == JsonValue::Array(*items),
                        self@ == JsonView::Array(items_view(items@)),
                        forall|t: int| 0 <= t < items@.len() ==> #[trigger] items_view(items@)[t] == jv(&items@[t]),
                        i <= items@.len(),
                        items_view(out@) == items_view(items@.take(i as int)),
                    decreases items@.len() - i,
                {
                    assert(decreases_to!(self => items@[i as int]));
                    let c = items[i].deep_clone();
                    let ghost before = out@;
                    out.push(c);
                    proof {
                        assert(out@.drop_last() =~= before);
                        assert(items@.take(i + 1).drop_last() =~= items@.take(i as int));
                    }
                    i = i + 1;
                }
                assert(items@.take(items@.len() as int) =~= items@);
                JsonValue::Array(out)
            },
            JsonValue::Object(members) => {
                let mut out: Vec<(String, JsonValue)> = Vec::new();
                let mut i: usize = 0;
                proof {
                    lemma_members_view(members@);
                    assert(members@.take(0) =~= Seq::<(String, JsonValue)>::empty());
                }
                while i < members.len()
                    invariant
                        *self == JsonValue::Object(*members),
                        self@ == JsonView::Object(members_view(members@)),
                        forall|t: int| 0 <= t < members@.len() ==> #[trigger] members_view(members@)[t] == (members@[t].0@, jv(&members@[t].1)),
                        i <= members@.len(),
                        members_view(out@) == members_view(members@.take(i as int)),
                    decreases members@.len() - i,
                {
                    assert(decreases_to!(self => members@[i as int].1));
                    let k = members[i].0.clone();
                    let c = members[i].1.deep_clone();
                    let ghost before = out@;
                    out.push((k, c));
                    proof {
                        assert(out@.drop_last() =~= before);
                        assert(members@.take(i + 1).drop_last() =~= members@.take(i as int));
                    }
                    i = i + 1;
                }
                assert(members@.take(members@.len() as int) =~= members@);
                JsonValue::Object(out)
            },
        }
    }

    /// The member `key` of an object (`Value::get`); none for other values.
    pub fn get(&self, key: &str) -> (r: Option<&JsonValue>)
        ensures
            match r {
                Some(v) => get_key(self@, key@) == Some(v@),
                None => get_key(self@, key@) is None,
            },
    {
        match self {
            JsonValue::Object(members) => member_of(members, key),
            _ => None,
        }
    }

    /// The text of a string value (`Value::as_str`).
    pub fn as_str(&self) -> (r: Option<&str>)
        ensures
            match r {
                Some(s) => as_str_view(self@) == Some(s@),
                None => as_str_view(self@) is None,
            },
    {
        match self {
            JsonValue::Str(s) => Some(s.as_str()),
            _ => None,
        }
    }

    /// The value of a non-negative integer (`Value::as_u64`).
    pub fn as_u64(&self) -> (r: Option<u64>)
        ensures
            r == as_u64_view(self@),
    {
        match self {
            JsonValue::Number(JsonNumber::PosInt(n)) => Some(*n),
            _ => None,
        }
    }

    /// The value of a boolean (`Value::as_bool`).
    pub fn as_bool(&self) -> (r: Option<bool>)
        ensures
            r == as_bool_view(self@),
    {
        match self {
            JsonValue::Bool(b) => Some(*b),
            _ => None,
        }
    }

    /// A string value.
    pub fn string(s: &str) -> (r: JsonValue)
        ensures
            r@ == JsonView::Str(s@),
    {
        JsonValue::Str(to_owned_string(s))
    }

    /// Whether the value is `null`.
    pub fn is_null(&self) -> (r: bool)
        ensures
            r == (self@ is Null),
    {
        match self {
            JsonValue::Null => true,
            _ => false,
        }
    }

    /// An empty object.
    pub fn empty_object() -> (r: JsonValue)
        ensures
            r@ == JsonView::Object(Seq::empty()),
    {
        JsonValue::Object(Vec::new())
    }
}

} // verus!
