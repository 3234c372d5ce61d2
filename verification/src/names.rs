//! A map from names to values that keeps its entries in a list, each name
//! at most once, in the order the names were first inserted.
use vstd::prelude::*;
use crate::text::str_eq;

verus! {

/// The map that a list of entries describes; a later entry for a name
/// replaces an earlier one.
pub open spec fn entries_map<T>(es: Seq<(Seq<char>, T)>) -> Map<Seq<char>, T>
    decreases es.len(),
{
    if es.len() == 0 {
        Map::empty()
    } else {
        entries_map(es.drop_last()).insert(es.last().0, es.last().1)
    }
}

/// No name occurs twice in the list.
pub open spec fn distinct_names<T>(es: Seq<(Seq<char>, T)>) -> bool {
    forall|i: int, j: int| 0 <= i < j < es.len() ==> (#[trigger] es[i]).0 != (#[trigger] es[j]).0
}

/// A list of entries with distinct names maps each of its names to the
/// value beside it, and nothing else.
pub proof fn lemma_entries_map<T>(es: Seq<(Seq<char>, T)>)
    requires
        distinct_names(es),
    ensures
        forall|i: int| 0 <= i < es.len() ==> #[trigger] entries_map(es).contains_key(es[i].0)
            && entries_map(es)[es[i].0] == es[i].1,
        forall|k: Seq<char>| #[trigger] entries_map(es).contains_key(k) ==> exists|i: int|
            0 <= i < es.len() && es[i].0 == k,
        entries_map(es).dom().finite(),
        entries_map(es).dom().len() == es.len(),
    decreases es.len(),
{
    if es.len() > 0 {
        let init = es.drop_last();
        assert(distinct_names(init)) by {
            assert forall|i: int, j: int| 0 <= i < j < init.len() implies (#[trigger] init[i]).0
                != (#[trigger] init[j]).0 by {
                assert(init[i] == es[i] && init[j] == es[j]);
            }
        }
        lemma_entries_map(init);
        let m = entries_map(init);
        let last = es.last();
        assert(!m.contains_key(last.0)) by {
            if m.contains_key(last.0) {
                let i = choose|i: int| 0 <= i < init.len() && init[i].0 == last.0;
                assert(es[i] == init[i]);
            }
        }
        assert forall|i: int| 0 <= i < es.len() implies #[trigger] entries_map(es).contains_key(
            es[i].0,
        ) && entries_map(es)[es[i].0] == es[i].1 by {
            if i < es.len() - 1 {
                assert(es[i] == init[i]);
            }
        }
        assert forall|k: Seq<char>| #[trigger] entries_map(es).contains_key(k) implies exists|i: int|
            0 <= i < es.len() && es[i].0 == k by {
            if k == last.0 {
                assert(es[es.len() - 1].0 == k);
            } else {
                let i = choose|i: int| 0 <= i < init.len() && init[i].0 == k;
                assert(es[i] == init[i]);
            }
        }
        assert(entries_map(es).dom() =~= m.dom().insert(last.0));
    } else {
        assert(entries_map(es).dom() =~= Set::<Seq<char>>::empty());
    }
}

/// A map from names to values, kept as a list of entries in which each
/// name occurs at most once.
pub struct NameMap<T> {
    entries: Vec<(String, T)>,
}

impl<T> NameMap<T> {
    /// The entries, names taken by their characters.
    pub closed spec fn pairs(&self) -> Seq<(Seq<char>, T)> {
        self.entries@.map_values(|e: (String, T)| (e.0@, e.1))
    }

    #[verifier::type_invariant]
    closed spec fn names_distinct(&self) -> bool {
        distinct_names(self.pairs())
    }

    /// The map from names to values.
    pub closed spec fn map(&self) -> Map<Seq<char>, T> {
        entries_map(self.pairs())
    }

    /// A map with no entry.
    pub fn new() -> (m: Self)
        ensures
            m.map() == Map::<Seq<char>, T>::empty(),
    {
        let m = NameMap { entries: Vec::new() };
        assert(m.pairs() =~= Seq::<(Seq<char>, T)>::empty());
        m
    }

    /// The number of names.
    pub fn len(&self) -> (n: usize)
        ensures
            n == self.map().dom().len(),
            self.map().dom().finite(),
    {
        proof {
            use_type_invariant(self);
            lemma_entries_map(self.pairs());
        }
        self.entries.len()
    }

    /// Where `name` stands in the list, if it does.
    fn find(&self, name: &str) -> (r: Option<usize>)
        ensures
            r is Some ==> r->0 < self.entries@.len() && self.pairs()[r->0 as int].0 == name@,
            r is None ==> forall|i: int| 0 <= i < self.pairs().len() ==> (#[trigger] self.pairs()[i]).0 != name@,
    {
        let mut i: usize = 0;
        while i < self.entries.len()
            invariant
                i <= self.entries@.len(),
                forall|k: int| 0 <= k < i ==> (#[trigger] self.pairs()[k]).0 != name@,
            decreases self.entries@.len() - i,
        {
            if str_eq(self.entries[i].0.as_str(), name) {
                return Some(i);
            }
            i = i + 1;
        }
        None
    }

    /// The value of `name`, if it has one.
    pub fn get(&self, name: &str) -> (r: Option<&T>)
        ensures
            match r {
                Some(v) => self.map().contains_key(name@) && *v == self.map()[name@],
                None => !self.map().contains_key(name@),
            },
    {
        proof {
            use_type_invariant(self);
            lemma_entries_map(self.pairs());
        }
        match self.find(name) {
            Some(i) => {
                assert(self.pairs()[i as int] == (self.entries@[i as int].0@, self.entries@[i as int].1));
                assert(self.map().contains_key(name@));
                assert(self.map()[name@] == self.entries@[i as int].1);
                let e = &self.entries[i];
                assert(e.1 == self.map()[name@]);
                Some(&e.1)
            },
            None => None,
        }
    }

    /// Whether `name` has a value.
    pub fn contains_key(&self, name: &str) -> (r: bool)
        ensures
            r == self.map().contains_key(name@),
    {
        proof {
            use_type_invariant(self);
            lemma_entries_map(self.pairs());
        }
        self.find(name).is_some()
    }

    /// Gives `name` the value `value`, replacing the one it had.
    pub fn insert(&mut self, name: String, value: T)
        ensures
            final(self).map() == old(self).map().insert(name@, value),
    {
        proof {
            use_type_invariant(&*self);
            lemma_entries_map(self.pairs());
        }
        match self.find(name.as_str()) {
            Some(i) => {
                let ghost before = self.pairs();
                let mut entries = Vec::new();
                std::mem::swap(&mut entries, &mut self.entries);
                entries.set(i, (name, value));
                let ghost after = entries@.map_values(|e: (String, T)| (e.0@, e.1));
                proof {
                    assert(after =~= before.update(i as int, (name@, value)));
                    assert(distinct_names(after)) by {
                        assert forall|a: int, b: int| 0 <= a < b < after.len() implies (
                        #[trigger] after[a]).0 != (#[trigger] after[b]).0 by {
                            assert(after[a].0 == before[a].0);
                            assert(after[b].0 == before[b].0);
                        }
                    }
                    lemma_entries_map(after);
                    assert forall|k: Seq<char>| #[trigger] entries_map(after).contains_key(k)
                        <==> old(self).map().insert(name@, value).contains_key(k) by {
                        if entries_map(after).contains_key(k) {
                            let j = choose|j: int| 0 <= j < after.len() && after[j].0 == k;
                            assert(before[j].0 == k);
                        }
                        if old(self).map().contains_key(k) {
                            let j = choose|j: int| 0 <= j < before.len() && before[j].0 == k;
                            assert(after[j].0 == k);
                        }
                    }
                    assert forall|k: Seq<char>| #[trigger] entries_map(after).contains_key(k) implies entries_map(after)[k]
                        == old(self).map().insert(name@, value)[k] by {
                        let j = choose|j: int| 0 <= j < after.len() && after[j].0 == k;
                        if j != i {
                            assert(before[j] == after[j]);
                        }
                    }
                    assert(entries_map(after) =~= old(self).map().insert(name@, value));
                }
                self.entries = entries;
            },
            None => {
                let ghost before = self.pairs();
                let mut entries = Vec::new();
                std::mem::swap(&mut entries, &mut self.entries);
                entries.push((name, value));
                let ghost after = entries@.map_values(|e: (String, T)| (e.0@, e.1));
                proof {
                    assert(after =~= before.push((name@, value)));
                    assert(after.drop_last() =~= before);
                    assert(distinct_names(after)) by {
                        assert forall|a: int, b: int| 0 <= a < b < after.len() implies (
                        #[trigger] after[a]).0 != (#[trigger] after[b]).0 by {
                            if b < before.len() {
                                assert(after[a] == before[a]);
                                assert(after[b] == before[b]);
                            } else {
                                assert(after[a] == before[a]);
                            }
                        }
                    }
                }
                self.entries = entries;
            },
        }
    }
}

impl<T: Copy> NameMap<T> {
    /// Gives every name of `other` its value there, replacing the values
    /// those names had here.
    pub fn extend_from(&mut self, other: &NameMap<T>)
        ensures
            final(self).map() == old(self).map().union_prefer_right(other.map()),
    {
        let ghost ps = other.pairs();
        let mut i: usize = 0;
        assert(ps.take(0) =~= Seq::<(Seq<char>, T)>::empty());
        assert(old(self).map().union_prefer_right(Map::empty()) =~= old(self).map());
        while i < other.entries.len()
            invariant
                i <= other.entries@.len(),
                ps == other.pairs(),
                self.map() == old(self).map().union_prefer_right(entries_map(ps.take(i as int))),
            decreases other.entries@.len() - i,
        {
            let e = &other.entries[i];
            let ghost before = self.map();
            self.insert(e.0.clone(), e.1);
            proof {
                assert(ps[i as int] == (other.entries@[i as int].0@, other.entries@[i as int].1));
                let t = ps.take(i + 1);
                assert(t.drop_last() =~= ps.take(i as int));
                assert(t.last() == ps[i as int]);
                assert(self.map() =~= old(self).map().union_prefer_right(entries_map(t)));
            }
            i = i + 1;
        }
        assert(ps.take(other.entries@.len() as int) =~= ps);
    }
}

} // verus!
