//! A registry of LLM providers by alias, with a default alias and an
//! optional router alias that falls back to the default.
use vstd::prelude::*;
use crate::text::{to_owned_string, push_str, str_eq};
use crate::chat::{LLMError, ErrorView};

verus! {

/// Providers by alias; each alias occurs once.
pub struct LLMRegistry<P> {
    providers: Vec<(String, P)>,
    default_alias: String,
    router_alias: Option<String>,
}

/// The aliases of the entries, in order.
pub open spec fn entry_aliases<P>(s: Seq<(String, P)>) -> Seq<Seq<char>> {
    Seq::new(s.len(), |i: int| s[i].0@)
}

/// The providers by alias.
pub open spec fn entry_map<P>(s: Seq<(String, P)>) -> Map<Seq<char>, P>
    decreases s.len(),
{
    if s.len() == 0 {
        Map::empty()
    } else {
        entry_map(s.drop_last()).insert(s.last().0@, s.last().1)
    }
}

/// The error for an alias without a provider.
pub open spec fn missing_alias(alias: Seq<char>) -> ErrorView {
    ErrorView::Config("LLM alias not found: "@ + alias)
}

impl<P> LLMRegistry<P> {
    /// Each alias occurs once.
    #[verifier::type_invariant]
    spec fn unique_aliases(self) -> bool {
        entry_aliases(self.providers@).no_duplicates()
    }

    /// The providers by alias.
    pub closed spec fn providers(self) -> Map<Seq<char>, P> {
        entry_map(self.providers@)
    }

    /// The alias that `default` resolves.
    pub closed spec fn default_alias(self) -> Seq<char> {
        self.default_alias@
    }

    /// The alias that `router` resolves, when one is set.
    pub closed spec fn router_alias(self) -> Option<Seq<char>> {
        match self.router_alias {
            Some(a) => Some(a@),
            None => None,
        }
    }

    proof fn lemma_entries(s: Seq<(String, P)>)
        requires
            entry_aliases(s).no_duplicates(),
        ensures
            forall|i: int| 0 <= i < s.len() ==> #[trigger] entry_map(s).contains_key(s[i].0@) && entry_map(s)[s[i].0@] == s[i].1,
            forall|k: Seq<char>| #[trigger] entry_map(s).contains_key(k) ==> exists|i: int| 0 <= i < s.len() && s[i].0@ == k,
            entry_map(s).dom().finite(),
            entry_map(s).dom().len() == s.len(),
        decreases s.len(),
    {
        if s.len() > 0 {
            let t = s.drop_last();
            assert(entry_aliases(t) =~= entry_aliases(s).drop_last());
            Self::lemma_entries(t);
            assert forall|i: int| 0 <= i < t.len() implies t[i].0@ != s.last().0@ by {
                assert(entry_aliases(s)[i] == t[i].0@);
                assert(entry_aliases(s)[s.len() - 1] == s.last().0@);
            }
            assert(!entry_map(t).contains_key(s.last().0@));
            assert forall|k: Seq<char>| #[trigger] entry_map(s).contains_key(k) implies exists|i: int| 0 <= i < s.len() && s[i].0@ == k by {
                if k != s.last().0@ {
                    let i = choose|i: int| 0 <= i < t.len() && t[i].0@ == k;
                    assert(s[i] == t[i]);
                } else {
                    assert(s[s.len() - 1].0@ == k);
                }
            }
            assert forall|i: int| 0 <= i < s.len() implies #[trigger] entry_map(s).contains_key(s[i].0@) && entry_map(s)[s[i].0@] == s[i].1 by {
                if i < s.len() - 1 {
                    assert(s[i] == t[i]);
                }
            }
        }
    }

    /// An empty registry whose default alias is `default`.
    pub fn new() -> (r: Self)
        ensures
            r.providers() == Map::<Seq<char>, P>::empty(),
            r.default_alias() == "default"@,
            r.router_alias() is None,
    {
        let r = LLMRegistry { providers: Vec::new(), default_alias: to_owned_string("default"), router_alias: None };
        assert(entry_aliases(r.providers@) =~= Seq::<Seq<char>>::empty());
        r
    }

    fn position(&self, alias: &str) -> (r: Option<usize>)
        ensures
            match r {
                Some(i) => i < self.providers@.len() && self.providers@[i as int].0@ == alias@,
                None => forall|i: int| 0 <= i < self.providers@.len() ==> self.providers@[i].0@ != alias@,
            },
    {
        let mut i: usize = 0;
        while i < self.providers.len()
            invariant
                i <= self.providers@.len(),
                forall|j: int| 0 <= j < i ==> self.providers@[j].0@ != alias@,
            decreases self.providers@.len() - i,
        {
            if str_eq(self.providers[i].0.as_str(), alias) {
                return Some(i);
            }
            i = i + 1;
        }
        None
    }

    /// Registers `provider` under `alias`, replacing any provider there.
    pub fn register(&mut self, alias: &str, provider: P)
        ensures
            final(self).providers() == old(self).providers().insert(alias@, provider),
            final(self).default_alias() == old(self).default_alias(),
            final(self).router_alias() == old(self).router_alias(),
    {
        proof {
            use_type_invariant(&*self);
        }
        let ghost old_entries = self.providers@;
        let found = self.position(alias);
        let mut entries: Vec<(String, P)> = Vec::new();
        std::mem::swap(&mut entries, &mut self.providers);
        match found {
            Some(i) => {
                let ghost before = entries@;
                entries.remove(i);
                proof {
                    Self::lemma_entries(before);
                    assert(entries@ == before.remove(i as int));
                    assert forall|j: int| 0 <= j < entries@.len() implies #[trigger] entries@[j].0@ != alias@ by {
                        if j < i {
                            assert(entries@[j] == before[j]);
                            assert(entry_aliases(before)[j] != entry_aliases(before)[i as int]);
                        } else {
                            assert(entries@[j] == before[j + 1]);
                            assert(entry_aliases(before)[j + 1] != entry_aliases(before)[i as int]);
                        }
                    }
                    assert(entry_aliases(entries@) =~= entry_aliases(before).remove(i as int));
                    Self::lemma_entries(entries@);
                    assert(entry_map(entries@) =~= entry_map(before).remove(alias@)) by {
                        assert forall|k: Seq<char>| #[trigger] entry_map(entries@).contains_key(k) == entry_map(before).remove(alias@).contains_key(k) by {
                            if entry_map(entries@).contains_key(k) {
                                let j = choose|j: int| 0 <= j < entries@.len() && entries@[j].0@ == k;
                                if j < i {
                                    assert(entries@[j] == before[j]);
                                } else {
                                    assert(entries@[j] == before[j + 1]);
                                }
                            }
                            if entry_map(before).remove(alias@).contains_key(k) {
                                let j = choose|j: int| 0 <= j < before.len() && before[j].0@ == k;
                                assert(j != i);
                                if j < i {
                                    assert(entries@[j] == before[j]);
                                } else {
                                    assert(entries@[j - 1] == before[j]);
                                }
                            }
                        }
                        assert forall|k: Seq<char>| #[trigger] entry_map(entries@).contains_key(k) implies entry_map(entries@)[k] == entry_map(before).remove(alias@)[k] by {
                            let j = choose|j: int| 0 <= j < entries@.len() && entries@[j].0@ == k;
                            if j < i {
                                assert(entries@[j] == before[j]);
                            } else {
                                assert(entries@[j] == before[j + 1]);
                            }
                        }
                    }
                }
            },
            None => {
                proof {
                    Self::lemma_entries(entries@);
                    assert forall|j: int| 0 <= j < entries@.len() implies #[trigger] entries@[j].0@ != alias@ by {}
                    assert(!entry_map(entries@).contains_key(alias@)) by {
                        if entry_map(entries@).contains_key(alias@) {
                            let j = choose|j: int| 0 <= j < entries@.len() && entries@[j].0@ == alias@;
                        }
                    }
                    assert(entry_map(entries@) =~= entry_map(entries@).remove(alias@));
                }
            },
        }
        let ghost kept = entries@;
        entries.push((to_owned_string(alias), provider));
        proof {
            assert(entries@.drop_last() =~= kept);
            assert(entry_aliases(entries@) =~= entry_aliases(kept).push(alias@));
            assert forall|j: int| 0 <= j < kept.len() implies #[trigger] entry_aliases(kept)[j] != alias@ by {
                assert(entry_aliases(kept)[j] == kept[j].0@);
            }
            assert(entry_map(entries@) =~= entry_map(old_entries).insert(alias@, provider));
        }
        self.providers = entries;
    }

    /// Makes `alias` the default.
    pub fn set_default(&mut self, alias: &str)
        ensures
            final(self).providers() == old(self).providers(),
            final(self).default_alias() == alias@,
            final(self).router_alias() == old(self).router_alias(),
    {
        proof {
            use_type_invariant(&*self);
        }
        self.default_alias = to_owned_string(alias);
    }

    /// Makes `alias` the router.
    pub fn set_router(&mut self, alias: &str)
        ensures
            final(self).providers() == old(self).providers(),
            final(self).default_alias() == old(self).default_alias(),
            final(self).router_alias() == Some(alias@),
    {
        proof {
            use_type_invariant(&*self);
        }
        self.router_alias = Some(to_owned_string(alias));
    }

    /// The provider under `alias`.
    pub fn get(&self, alias: &str) -> (r: Result<&P, LLMError>)
        ensures
            match r {
                Ok(p) => self.providers().contains_key(alias@) && *p == self.providers()[alias@],
                Err(e) => !self.providers().contains_key(alias@) && e@ == missing_alias(alias@),
            },
    {
        proof {
            use_type_invariant(self);
            Self::lemma_entries(self.providers@);
        }
        match self.position(alias) {
            Some(i) => {
                proof {
                    assert(entry_map(self.providers@).contains_key(self.providers@[i as int].0@));
                }
                Ok(&self.providers[i].1)
            },
            None => {
                proof {
                    if self.providers().contains_key(alias@) {
                        let j = choose|j: int| 0 <= j < self.providers@.len() && self.providers@[j].0@ == alias@;
                    }
                }
                let mut m = to_owned_string("LLM alias not found: ");
                push_str(&mut m, alias);
                Err(LLMError::Config(m))
            },
        }
    }

    /// The provider under the default alias.
    pub fn default(&self) -> (r: Result<&P, LLMError>)
        ensures
            match r {
                Ok(p) => self.providers().contains_key(self.default_alias()) && *p == self.providers()[self.default_alias()],
                Err(e) => !self.providers().contains_key(self.default_alias()) && e@ == missing_alias(self.default_alias()),
            },
    {
        self.get(self.default_alias.as_str())
    }

    /// The provider under the router alias, or the default one when no
    /// router is set.
    pub fn router(&self) -> (r: Result<&P, LLMError>)
        ensures
            ({
                let a = match self.router_alias() {
                    Some(x) => x,
                    None => self.default_alias(),
                };
                match r {
                    Ok(p) => self.providers().contains_key(a) && *p == self.providers()[a],
                    Err(e) => !self.providers().contains_key(a) && e@ == missing_alias(a),
                }
            }),
    {
        match &self.router_alias {
            Some(a) => self.get(a.as_str()),
            None => self.default(),
        }
    }

    /// Whether a provider is registered under `alias`.
    pub fn has(&self, alias: &str) -> (r: bool)
        ensures
            r == self.providers().contains_key(alias@),
    {
        proof {
            use_type_invariant(self);
            Self::lemma_entries(self.providers@);
        }
        match self.position(alias) {
            Some(_) => true,
            None => {
                proof {
                    if self.providers().contains_key(alias@) {
                        let j = choose|j: int| 0 <= j < self.providers@.len() && self.providers@[j].0@ == alias@;
                    }
                }
                false
            },
        }
    }

    /// The registered aliases, each once.
    pub fn aliases(&self) -> (r: Vec<String>)
        ensures
            r@.len() == self.providers().dom().len(),
            forall|i: int| 0 <= i < r@.len() ==> self.providers().contains_key(#[trigger] r@[i]@),
            forall|k: Seq<char>| #[trigger] self.providers().contains_key(k) ==> exists|i: int| 0 <= i < r@.len() && r@[i]@ == k,
    {
        proof {
            use_type_invariant(self);
            Self::lemma_entries(self.providers@);
        }
        let mut out: Vec<String> = Vec::new();
        let mut i: usize = 0;
        while i < self.providers.len()
            invariant
                i <= self.providers@.len(),
                out@.len() == i,
                forall|j: int| 0 <= j < i ==> (#[trigger] out@[j])@ == self.providers@[j].0@,
            decreases self.providers@.len() - i,
        {
            out.push(self.providers[i].0.clone());
            i = i + 1;
        }
        proof {
            assert forall|k: Seq<char>| #[trigger] self.providers().contains_key(k) implies exists|i: int| 0 <= i < out@.len() && out@[i]@ == k by {
                let j = choose|j: int| 0 <= j < self.providers@.len() && self.providers@[j].0@ == k;
                assert(out@[j]@ == k);
            }
        }
        out
    }

    /// The number of registered providers.
    pub fn len(&self) -> (r: usize)
        ensures
            r == self.providers().dom().len(),
    {
        proof {
            use_type_invariant(self);
            Self::lemma_entries(self.providers@);
        }
        self.providers.len()
    }

    /// Whether no provider is registered.
    pub fn is_empty(&self) -> (r: bool)
        ensures
            r == (self.providers().dom().len() == 0),
    {
        proof {
            use_type_invariant(self);
            Self::lemma_entries(self.providers@);
        }
        self.providers.len() == 0
    }
}

impl<P> Default for LLMRegistry<P> {
    fn default() -> Self {
        Self::new()
    }
}

/// Law: after a provider is registered under an alias, looking the alias up
/// finds that provider, and every other alias finds what it found before.
pub proof fn law_lookup_after_register<P>(before: Map<Seq<char>, P>, alias: Seq<char>, p: P, other: Seq<char>)
    requires
        other != alias,
    ensures
        before.insert(alias, p).contains_key(alias),
        before.insert(alias, p)[alias] == p,
        before.insert(alias, p).contains_key(other) == before.contains_key(other),
        before.contains_key(other) ==> before.insert(alias, p)[other] == before[other],
{
}

} // verus!
