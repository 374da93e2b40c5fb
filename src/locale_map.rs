//! A small map keyed by language identifier, kept as a list of entries with
//! distinct keys.

use vstd::prelude::*;

use crate::language_id::{tags, LanguageId};

verus! {

/// The map that a list of entries stands for; a later entry overrides an
/// earlier one with the same key.
pub closed spec fn entries_map<V: View>(s: Seq<(LanguageId, V)>) -> Map<Seq<char>, V::V>
    decreases s.len(),
{
    if s.len() == 0 {
        Map::empty()
    } else {
        entries_map(s.drop_last()).insert(s.last().0@, s.last().1@)
    }
}

spec fn keys_distinct<V>(s: Seq<(LanguageId, V)>) -> bool {
    forall|i: int, j: int| 0 <= i < s.len() && 0 <= j < s.len() && i != j ==> s[i].0@ != s[j].0@
}

proof fn lemma_entries_dom<V: View>(s: Seq<(LanguageId, V)>)
    ensures
        forall|k: Seq<char>| #[trigger]
            entries_map(s).dom().contains(k) <==> exists|i: int| 0 <= i < s.len() && s[i].0@ == k,
    decreases s.len(),
{
    if s.len() > 0 {
        let t = s.drop_last();
        lemma_entries_dom(t);
        assert forall|k: Seq<char>| #[trigger]
            entries_map(s).dom().contains(k) <==> exists|i: int| 0 <= i < s.len() && s[i].0@ == k by {
            assert(entries_map(s).dom().contains(k) == (entries_map(t).dom().contains(k) || k
                == s.last().0@));
            if entries_map(t).dom().contains(k) {
                let i = choose|i: int| 0 <= i < t.len() && t[i].0@ == k;
                assert(s[i] == t[i]);
            }
            if k == s.last().0@ {
                assert(s[s.len() - 1].0@ == k);
            }
            if exists|i: int| 0 <= i < s.len() && s[i].0@ == k {
                let i = choose|i: int| 0 <= i < s.len() && s[i].0@ == k;
                if i < s.len() - 1 {
                    assert(t[i].0@ == k);
                }
            }
        }
    }
}

proof fn lemma_entries_value<V: View>(s: Seq<(LanguageId, V)>, i: int)
    requires
        keys_distinct(s),
        0 <= i < s.len(),
    ensures
        entries_map(s)[s[i].0@] == s[i].1@,
    decreases s.len(),
{
    if i < s.len() - 1 {
        assert(s[i].0@ != s.last().0@);
        assert(s.drop_last()[i] == s[i]);
        lemma_entries_value(s.drop_last(), i);
    }
}

proof fn lemma_entries_push<V: View>(s: Seq<(LanguageId, V)>, e: (LanguageId, V))
    ensures
        entries_map(s.push(e)) == entries_map(s).insert(e.0@, e.1@),
{
    assert(s.push(e).drop_last() =~= s);
}

proof fn lemma_entries_remove<V: View>(s: Seq<(LanguageId, V)>, i: int)
    requires
        keys_distinct(s),
        0 <= i < s.len(),
    ensures
        keys_distinct(s.remove(i)),
        entries_map(s.remove(i)) == entries_map(s).remove(s[i].0@),
{
    let t = s.remove(i);
    assert forall|a: int, b: int| 0 <= a < t.len() && 0 <= b < t.len() && a != b implies t[a].0@
        != t[b].0@ by {
        let sa = if a < i { a } else { a + 1 };
        let sb = if b < i { b } else { b + 1 };
        assert(t[a] == s[sa]);
        assert(t[b] == s[sb]);
    }
    lemma_entries_dom(s);
    lemma_entries_dom(t);
    let lhs = entries_map(t);
    let rhs = entries_map(s).remove(s[i].0@);
    assert forall|k: Seq<char>| lhs.dom().contains(k) <==> rhs.dom().contains(k) by {
        if lhs.dom().contains(k) {
            let a = choose|a: int| 0 <= a < t.len() && t[a].0@ == k;
            let sa = if a < i { a } else { a + 1 };
            assert(t[a] == s[sa]);
        }
        if rhs.dom().contains(k) {
            let b = choose|b: int| 0 <= b < s.len() && s[b].0@ == k;
            assert(b != i);
            let tb = if b < i { b } else { b - 1 };
            assert(t[tb] == s[b]);
        }
    }
    assert forall|k: Seq<char>| lhs.dom().contains(k) implies lhs[k] == rhs[k] by {
        let a = choose|a: int| 0 <= a < t.len() && t[a].0@ == k;
        let sa = if a < i { a } else { a + 1 };
        assert(t[a] == s[sa]);
        lemma_entries_value(t, a);
        lemma_entries_value(s, sa);
    }
    assert(lhs =~= rhs);
}

/// A map from language identifiers (by normalized tag) to values.
pub struct LocaleMap<V> {
    entries: Vec<(LanguageId, V)>,
}

impl<V: View> View for LocaleMap<V> {
    type V = Map<Seq<char>, V::V>;

    closed spec fn view(&self) -> Map<Seq<char>, V::V> {
        entries_map(self.entries@)
    }
}

impl<V> LocaleMap<V> {
    #[verifier::type_invariant]
    spec fn keys_are_distinct(self) -> bool {
        keys_distinct(self.entries@)
    }
}

impl<V: View> LocaleMap<V> {
    /// The key of the `i`-th entry; every key of the map is the key of exactly
    /// one entry.
    pub closed spec fn key_at_spec(&self, i: int) -> Seq<char> {
        self.entries@[i].0@
    }

    /// The number of entries, which is the number of keys.
    pub closed spec fn len_spec(&self) -> nat {
        self.entries@.len()
    }

    /// An empty map.
    pub fn new() -> (r: LocaleMap<V>)
        ensures
            r@ == Map::<Seq<char>, V::V>::empty(),
    {
        LocaleMap { entries: Vec::new() }
    }

    /// Every key is the key of some entry, and every entry's key is a key.
    pub proof fn lemma_keys(&self)
        ensures
            forall|k: Seq<char>| #[trigger]
                self@.dom().contains(k) <==> exists|i: int|
                    0 <= i < self.len_spec() && self.key_at_spec(i) == k,
    {
        lemma_entries_dom(self.entries@);
        assert forall|k: Seq<char>| #[trigger]
            self@.dom().contains(k) implies exists|i: int|
                0 <= i < self.len_spec() && self.key_at_spec(i) == k by {
            let i = choose|i: int| 0 <= i < self.entries@.len() && self.entries@[i].0@ == k;
            assert(self.key_at_spec(i) == k);
        }
    }

    fn find(&self, k: &LanguageId) -> (r: Option<usize>)
        ensures
            r is Some ==> r->0 < self.entries@.len() && self.entries@[r->0 as int].0@ == k@,
            r is None ==> !self@.dom().contains(k@),
    {
        proof {
            lemma_entries_dom(self.entries@);
        }
        let mut i: usize = 0;
        while i < self.entries.len()
            invariant
                i <= self.entries@.len(),
                forall|j: int| 0 <= j < i ==> self.entries@[j].0@ != k@,
            decreases self.entries.len() - i,
        {
            if self.entries[i].0.same_as(k) {
                return Some(i);
            }
            i = i + 1;
        }
        None
    }

    /// The number of entries.
    pub fn len(&self) -> (r: usize)
        ensures
            r == self.len_spec(),
            r == self@.dom().len(),
    {
        proof {
            use_type_invariant(self);
            self.lemma_len_matches();
        }
        self.entries.len()
    }

    proof fn lemma_len_matches(&self)
        requires
            keys_distinct(self.entries@),
        ensures
            self@.dom().len() == self.entries@.len(),
            self@.dom().finite(),
        decreases self.entries@.len(),
    {
        self.lemma_len_of(self.entries@);
    }

    proof fn lemma_len_of(&self, s: Seq<(LanguageId, V)>)
        requires
            keys_distinct(s),
        ensures
            entries_map(s).dom().len() == s.len(),
            entries_map(s).dom().finite(),
        decreases s.len(),
    {
        if s.len() > 0 {
            let t = s.drop_last();
            assert(keys_distinct(t));
            self.lemma_len_of(t);
            lemma_entries_dom(t);
            if entries_map(t).dom().contains(s.last().0@) {
                let i = choose|i: int| 0 <= i < t.len() && t[i].0@ == s.last().0@;
                assert(s[i] == t[i]);
                assert(false);
            }
        }
    }

    /// The key of the `i`-th entry.
    pub fn key_at(&self, i: usize) -> (r: &LanguageId)
        requires
            i < self.len_spec(),
        ensures
            r@ == self.key_at_spec(i as int),
            self@.dom().contains(r@),
    {
        proof {
            lemma_entries_dom(self.entries@);
        }
        &self.entries[i].0
    }

    /// The value of the `i`-th entry.
    pub fn value_at(&self, i: usize) -> (r: &V)
        requires
            i < self.len_spec(),
        ensures
            self@.dom().contains(self.key_at_spec(i as int)),
            r@ == self@[self.key_at_spec(i as int)],
    {
        proof {
            use_type_invariant(self);
            lemma_entries_dom(self.entries@);
            lemma_entries_value(self.entries@, i as int);
        }
        &self.entries[i].1
    }

    /// Whether `k` has an entry.
    pub fn contains_key(&self, k: &LanguageId) -> (r: bool)
        ensures
            r == self@.dom().contains(k@),
    {
        proof {
            lemma_entries_dom(self.entries@);
        }
        self.find(k).is_some()
    }

    /// The value under `k`, if any.
    pub fn get(&self, k: &LanguageId) -> (r: Option<&V>)
        ensures
            r is Some <==> self@.dom().contains(k@),
            r is Some ==> r->0@ == self@[k@],
    {
        proof {
            use_type_invariant(self);
            lemma_entries_dom(self.entries@);
        }
        match self.find(k) {
            Some(i) => {
                proof {
                    lemma_entries_value(self.entries@, i as int);
                }
                Some(&self.entries[i].1)
            },
            None => None,
        }
    }

    /// Sets the value under `k`, and returns the value that was there before.
    pub fn insert(&mut self, k: LanguageId, v: V) -> (r: Option<V>)
        ensures
            final(self)@ == old(self)@.insert(k@, v@),
            r is Some <==> old(self)@.dom().contains(k@),
            r is Some ==> r->0@ == old(self)@[k@],
    {
        proof {
            use_type_invariant(&*self);
            lemma_entries_dom(self.entries@);
        }
        let found = self.find(&k);
        let ghost k_view = k@;
        let ghost v_view = v@;
        match found {
            Some(i) => {
                let ghost s = self.entries@;
                proof {
                    lemma_entries_value(s, i as int);
                    lemma_entries_remove(s, i as int);
                }
                let mut entries: Vec<(LanguageId, V)> = Vec::new();
                std::mem::swap(&mut self.entries, &mut entries);
                let (_, prev) = entries.remove(i);
                proof {
                    lemma_entries_push(entries@, (k, v));
                    lemma_entries_dom(entries@);
                    assert(!entries_map(entries@).dom().contains(k_view));
                    assert(keys_distinct(entries@.push((k, v))));
                    assert(entries_map(s).remove(k_view).insert(k_view, v_view) =~= entries_map(
                        s,
                    ).insert(k_view, v_view));
                }
                entries.push((k, v));
                std::mem::swap(&mut self.entries, &mut entries);
                Some(prev)
            },
            None => {
                proof {
                    lemma_entries_push(self.entries@, (k, v));
                    assert(keys_distinct(self.entries@.push((k, v))));
                }
                let mut entries: Vec<(LanguageId, V)> = Vec::new();
                std::mem::swap(&mut self.entries, &mut entries);
                entries.push((k, v));
                std::mem::swap(&mut self.entries, &mut entries);
                None
            },
        }
    }

    /// Removes the entry under `k`, and returns its value.
    pub fn remove(&mut self, k: &LanguageId) -> (r: Option<V>)
        ensures
            final(self)@ == old(self)@.remove(k@),
            r is Some <==> old(self)@.dom().contains(k@),
            r is Some ==> r->0@ == old(self)@[k@],
    {
        proof {
            use_type_invariant(&*self);
            lemma_entries_dom(self.entries@);
        }
        match self.find(k) {
            Some(i) => {
                let ghost s = self.entries@;
                proof {
                    lemma_entries_value(s, i as int);
                    lemma_entries_remove(s, i as int);
                }
                let mut entries: Vec<(LanguageId, V)> = Vec::new();
                std::mem::swap(&mut self.entries, &mut entries);
                let (_, prev) = entries.remove(i);
                std::mem::swap(&mut self.entries, &mut entries);
                Some(prev)
            },
            None => {
                proof {
                    assert(self@.remove(k@) =~= self@);
                }
                None
            },
        }
    }

    /// The keys, each once.
    pub fn keys(&self) -> (r: Vec<LanguageId>)
        ensures
            forall|k: Seq<char>| tags(r@).contains(k) <==> self@.dom().contains(k),
    {
        proof {
            lemma_entries_dom(self.entries@);
        }
        let mut r: Vec<LanguageId> = Vec::new();
        let mut i: usize = 0;
        while i < self.entries.len()
            invariant
                i <= self.entries@.len(),
                r.len() == i,
                forall|j: int| 0 <= j < i ==> r@[j]@ == self.entries@[j].0@,
            decreases self.entries.len() - i,
        {
            r.push(self.entries[i].0.clone());
            i = i + 1;
        }
        assert forall|k: Seq<char>| tags(r@).contains(k) <==> self@.dom().contains(k) by {
            if tags(r@).contains(k) {
                let j = choose|j: int| 0 <= j < tags(r@).len() && tags(r@)[j] == k;
                assert(self.entries@[j].0@ == k);
            }
            if self@.dom().contains(k) {
                let j = choose|j: int| 0 <= j < self.entries@.len() && self.entries@[j].0@ == k;
                assert(tags(r@)[j] == k);
            }
        }
        r
    }
}

} // verus!
