//! The parts of turn assertions on actor memory that do not call a judge or
//! compare floating-point numbers: which facts a fact check looks at, and
//! the checks on a relationship.
use vstd::prelude::*;
use crate::json::{JsonValue, JsonView, JsonNumber, get_key, as_u64_view};
use crate::text::{str_eq, str_ends_with, has_suffix};

verus! {

/// The checks of a fact assertion made here.
pub struct FactsCheck {
    /// The actor the facts must belong to.
    pub actor: Option<String>,
    /// Facts whose category is this, or ends with it.
    pub category: Option<String>,
}

/// Which facts a fact check looks at.
pub enum FactsSelection {
    /// No facts were gathered for the turn.
    NoEvidence,
    /// The facts belong to another actor (or to none).
    OtherActor,
    /// The positions of the facts looked at.
    Selected(Vec<usize>),
}

/// A fact's category text passes the category check.
pub open spec fn category_selected(category: Option<Seq<char>>, wanted: Option<Seq<char>>) -> bool {
    match wanted {
        None => true,
        Some(w) => match category {
            Some(c) => c == w || has_suffix(c, w),
            None => false,
        },
    }
}

/// The positions of the facts whose category passes, in order.
pub open spec fn selected_facts(categories: Seq<Option<Seq<char>>>, wanted: Option<Seq<char>>) -> Seq<usize>
    decreases categories.len(),
{
    if categories.len() == 0 {
        Seq::empty()
    } else {
        let rest = selected_facts(categories.drop_last(), wanted);
        if category_selected(categories.last(), wanted) {
            rest.push((categories.len() - 1) as usize)
        } else {
            rest
        }
    }
}

/// The facts a fact check looks at: none without evidence, none of another
/// actor's, else those whose category passes. `categories` holds, per fact,
/// the text of its `category` member (a string without its quotes), when
/// it has one.
pub open spec fn spec_select_facts(
    evidence: Option<Option<Seq<char>>>,
    categories: Seq<Option<Seq<char>>>,
    check: &FactsCheck,
) -> Option<Option<Seq<usize>>> {
    match evidence {
        None => None,
        Some(actor) => if check.actor matches Some(a) && actor != Some(a@) {
            Some(None)
        } else {
            Some(Some(selected_facts(categories, check.category.deep_view())))
        },
    }
}

/// The view of a selection, as `spec_select_facts` gives it.
pub open spec fn selection_view(s: FactsSelection) -> Option<Option<Seq<usize>>> {
    match s {
        FactsSelection::NoEvidence => None,
        FactsSelection::OtherActor => Some(None),
        FactsSelection::Selected(v) => Some(Some(v@)),
    }
}

fn category_passes(category: &Option<String>, wanted: &Option<String>) -> (r: bool)
    ensures
        r == category_selected(category.deep_view(), wanted.deep_view()),
{
    match wanted {
        None => true,
        Some(w) => match category {
            Some(c) => str_eq(c.as_str(), w.as_str()) || str_ends_with(c.as_str(), w.as_str()),
            None => false,
        },
    }
}

/// Selects the facts a fact check looks at. `evidence` is the actor of the
/// facts gathered, when facts were gathered.
pub fn select_facts(evidence: Option<&Option<String>>, categories: &Vec<Option<String>>, check: &FactsCheck) -> (r: FactsSelection)
    ensures
        selection_view(r) == spec_select_facts(
            match evidence {
                Some(a) => Some(a.deep_view()),
                None => None,
            },
            categories.deep_view(),
            check,
        ),
{
    let actor = match evidence {
        None => {
            return FactsSelection::NoEvidence;
        },
        Some(a) => a,
    };
    if let Some(a) = &check.actor {
        let same = match actor {
            Some(x) => str_eq(x.as_str(), a.as_str()),
            None => false,
        };
        if !same {
            return FactsSelection::OtherActor;
        }
    }
    let ghost cats = categories.deep_view();
    let mut out: Vec<usize> = Vec::new();
    let mut i: usize = 0;
    while i < categories.len()
        invariant
            cats == categories.deep_view(),
            i <= categories@.len(),
            out@ == selected_facts(cats.take(i as int), check.category.deep_view()),
        decreases categories@.len() - i,
    {
        proof {
            assert(cats.take(i + 1).drop_last() =~= cats.take(i as int));
            assert(cats.take(i + 1).last() == categories@[i as int].deep_view());
        }
        if category_passes(&categories[i], &check.category) {
            out.push(i);
        }
        i = i + 1;
    }
    assert(cats.take(i as int) =~= cats);
    FactsSelection::Selected(out)
}

/// The checks of a relationship assertion made here.
pub struct RelationshipCheck {
    pub actor: Option<String>,
    /// Whether a current relationship must exist.
    pub exists: Option<bool>,
    /// The perspective asked for (`agent_to_actor` when none).
    pub perspective: Option<String>,
    pub interaction_count_gte: Option<u64>,
    pub notable_event_count_gte: Option<usize>,
}

/// What the integer checks of a relationship assertion say.
#[derive(Clone, Copy, Debug, PartialEq, Eq, Structural)]
pub enum RelationshipVerdict {
    /// No relationship evidence; the check holds only if it expects no
    /// relationship.
    NoEvidence { passed: bool },
    /// The relationship is another actor's (or no actor's).
    OtherActor,
    /// The perspective asked for is not available for the model.
    PerspectiveUnavailable,
    /// Whether the existence and count checks hold; a dimension check, if
    /// any, is made on the numbers.
    Checked { passed: bool },
}

/// The perspective of a check.
pub open spec fn perspective_of(check: &RelationshipCheck) -> Seq<char> {
    match check.perspective {
        Some(p) => p@,
        None => "agent_to_actor"@,
    }
}

/// A member's value as a `u64`, zero when it is missing or not one.
pub open spec fn count_member(current: Option<JsonView>, key: Seq<char>) -> nat {
    match current {
        Some(c) => match get_key(c, key) {
            Some(v) => match as_u64_view(v) {
                Some(n) => n as nat,
                None => 0,
            },
            None => 0,
        },
        None => 0,
    }
}

/// The length of a member that is an array, zero otherwise.
pub open spec fn array_member_len(current: Option<JsonView>, key: Seq<char>) -> nat {
    match current {
        Some(c) => match get_key(c, key) {
            Some(JsonView::Array(items)) => items.len(),
            _ => 0,
        },
        None => 0,
    }
}

/// The verdict of the integer checks, in the order they are made.
pub open spec fn spec_relationship_verdict(
    evidence: Option<(Option<Seq<char>>, Option<JsonView>, Seq<Seq<char>>)>,
    check: &RelationshipCheck,
) -> RelationshipVerdict {
    match evidence {
        None => RelationshipVerdict::NoEvidence { passed: check.exists == Some(false) },
        Some((actor, current, available)) => {
            if check.actor matches Some(a) && actor != Some(a@) {
                RelationshipVerdict::OtherActor
            } else if !available.contains(perspective_of(check)) {
                RelationshipVerdict::PerspectiveUnavailable
            } else {
                RelationshipVerdict::Checked {
                    passed: (check.exists matches Some(e) ==> e == current is Some)
                        && (check.interaction_count_gte matches Some(n) ==> count_member(current, "interaction_count"@) >= n)
                        && (check.notable_event_count_gte matches Some(n) ==> array_member_len(current, "notable_events"@) >= n),
                }
            }
        },
    }
}

/// The relationship evidence of a turn.
pub struct RelationshipEvidenceView<'a> {
    pub actor_id: &'a Option<String>,
    pub current: Option<&'a JsonValue>,
    pub available_perspectives: &'a Vec<String>,
}

fn listed(values: &Vec<String>, x: &str) -> (r: bool)
    ensures
        r == values.deep_view().contains(x@),
{
    let mut i: usize = 0;
    while i < values.len()
        invariant
            i <= values@.len(),
            forall|k: int| 0 <= k < i ==> values.deep_view()[k] != x@,
        decreases values@.len() - i,
    {
        if str_eq(values[i].as_str(), x) {
            assert(values.deep_view()[i as int] == x@);
            return true;
        }
        i = i + 1;
    }
    false
}

/// Makes the integer checks of a relationship assertion.
pub fn check_relationship(evidence: Option<RelationshipEvidenceView>, check: &RelationshipCheck) -> (r: RelationshipVerdict)
    ensures
        r == spec_relationship_verdict(
            match evidence {
                Some(e) => Some((
                    e.actor_id.deep_view(),
                    match e.current {
                        Some(c) => Some(c@),
                        None => None,
                    },
                    e.available_perspectives.deep_view(),
                )),
                None => None,
            },
            check,
        ),
{
    proof {
        reveal_strlit("agent_to_actor");
    }
    let e = match evidence {
        None => {
            return RelationshipVerdict::NoEvidence { passed: check.exists == Some(false) };
        },
        Some(e) => e,
    };
    if let Some(a) = &check.actor {
        let same = match e.actor_id {
            Some(x) => str_eq(x.as_str(), a.as_str()),
            None => false,
        };
        if !same {
            return RelationshipVerdict::OtherActor;
        }
    }
    let perspective: &str = match &check.perspective {
        Some(p) => p.as_str(),
        None => "agent_to_actor",
    };
    if !listed(e.available_perspectives, perspective) {
        return RelationshipVerdict::PerspectiveUnavailable;
    }
    let mut passed = match check.exists {
        Some(expected) => expected == e.current.is_some(),
        None => true,
    };
    if let Some(n) = check.interaction_count_gte {
        let actual: u64 = match e.current {
            Some(c) => match c.get("interaction_count") {
                Some(v) => match v.as_u64() {
                    Some(k) => k,
                    None => 0,
                },
                None => 0,
            },
            None => 0,
        };
        passed = passed && actual >= n;
    }
    if let Some(n) = check.notable_event_count_gte {
        let actual: usize = match e.current {
            Some(c) => match c.get("notable_events") {
                Some(JsonValue::Array(items)) => {
                    proof {
                        crate::json::lemma_items_view(items@);
                    }
                    items.len()
                },
                _ => 0,
            },
            None => 0,
        };
        passed = passed && actual >= n;
    }
    RelationshipVerdict::Checked { passed }
}

/// Where a dimension of a relationship is read for a perspective: under
/// `dimensions` for `agent_to_actor` and `mutual`, under
/// `perceived_actor_to_agent` for that perspective; nowhere for others.
pub open spec fn spec_dimension_value(current: Option<JsonView>, perspective: Seq<char>, dimension: Seq<char>) -> Option<JsonView> {
    match current {
        None => None,
        Some(c) => {
            let group: Option<Seq<char>> = if perspective == "agent_to_actor"@ || perspective == "mutual"@ {
                Some("dimensions"@)
            } else if perspective == "perceived_actor_to_agent"@ {
                Some("perceived_actor_to_agent"@)
            } else {
                None
            };
            match group {
                None => None,
                Some(g) => match get_key(c, g) {
                    Some(d) => get_key(d, dimension),
                    None => None,
                },
            }
        },
    }
}

/// The value of a relationship dimension for a perspective (its number is
/// compared by the caller).
pub fn dimension_value<'a>(current: Option<&'a JsonValue>, perspective: &str, dimension: &str) -> (r: Option<&'a JsonValue>)
    ensures
        match r {
            Some(v) => spec_dimension_value(
                match current {
                    Some(c) => Some(c@),
                    None => None,
                },
                perspective@,
                dimension@,
            ) == Some(v@),
            None => spec_dimension_value(
                match current {
                    Some(c) => Some(c@),
                    None => None,
                },
                perspective@,
                dimension@,
            ) is None,
        },
{
    proof {
        reveal_strlit("agent_to_actor");
        reveal_strlit("mutual");
        reveal_strlit("perceived_actor_to_agent");
        reveal_strlit("dimensions");
    }
    let c = match current {
        None => {
            return None;
        },
        Some(c) => c,
    };
    let group: &str = if str_eq(perspective, "agent_to_actor") || str_eq(perspective, "mutual") {
        "dimensions"
    } else if str_eq(perspective, "perceived_actor_to_agent") {
        "perceived_actor_to_agent"
    } else {
        return None;
    };
    match c.get(group) {
        Some(d) => d.get(dimension),
        None => None,
    }
}

} // verus!
