//! Maps and sets keyed by strings, kept as vectors of distinct keys.

use vstd::prelude::*;

verus! {

/// The map that the entries `e` give, a later entry winning for a key.
pub open spec fn map_of<V: View>(e: Seq<(String, V)>) -> Map<Seq<char>, V::V>
    decreases e.len(),
{
    if e.len() == 0 {
        Map::empty()
    } else {
        map_of(e.drop_last()).insert(e.last().0@, e.last().1@)
    }
}

/// Whether no two entries share a key.
pub open spec fn keys_distinct<V>(e: Seq<(String, V)>) -> bool {
    forall|i: int, j: int| 0 <= i < j < e.len() ==> (#[trigger] e[i]).0@ != (#[trigger] e[j]).0@
}

pub proof fn lemma_map_of_index<V: View>(e: Seq<(String, V)>)
    requires
        keys_distinct(e),
    ensures
        forall|i: int| 0 <= i < e.len() ==> #[trigger] map_of(e).dom().contains(e[i].0@) && map_of(e)[e[i].0@] == e[i].1@,
        forall|k: Seq<char>| #[trigger] map_of(e).dom().contains(k) ==> exists|i: int| 0 <= i < e.len() && e[i].0@ == k,
    decreases e.len(),
{
    if e.len() > 0 {
        let d = e.drop_last();
        assert(keys_distinct(d)) by {
            assert forall|i: int, j: int| 0 <= i < j < d.len() implies (#[trigger] d[i]).0@ != (#[trigger] d[j]).0@ by {
                assert(d[i] == e[i] && d[j] == e[j]);
            }
        }
        lemma_map_of_index(d);
        assert forall|i: int| 0 <= i < e.len() implies #[trigger] map_of(e).dom().contains(e[i].0@) && map_of(e)[e[i].0@] == e[i].1@ by {
            if i < e.len() - 1 {
                assert(d[i] == e[i]);
                assert(map_of(d).dom().contains(d[i].0@));
                assert(e[i].0@ != e[e.len() - 1].0@);
            } else {
                assert(e[i] == e.last());
            }
        }
        assert forall|k: Seq<char>| #[trigger] map_of(e).dom().contains(k) implies exists|i: int| 0 <= i < e.len() && e[i].0@ == k by {
            if k != e.last().0@ {
                assert(map_of(d).dom().contains(k));
                let i = choose|i: int| 0 <= i < d.len() && d[i].0@ == k;
                assert(e[i] == d[i]);
            } else {
                assert(e[e.len() - 1].0@ == k);
            }
        }
    }
}

pub proof fn lemma_map_of_update<V: View>(e: Seq<(String, V)>, i: int, entry: (String, V))
    requires
        keys_distinct(e),
        0 <= i < e.len(),
        entry.0@ == e[i].0@,
    ensures
        keys_distinct(e.update(i, entry)),
        map_of(e.update(i, entry)) == map_of(e).insert(entry.0@, entry.1@),
{
    let u = e.update(i, entry);
    assert(keys_distinct(u)) by {
        assert forall|a: int, b: int| 0 <= a < b < u.len() implies (#[trigger] u[a]).0@ != (#[trigger] u[b]).0@ by {
            assert(u[a].0@ == e[a].0@ && u[b].0@ == e[b].0@);
        }
    }
    lemma_map_of_index(e);
    lemma_map_of_index(u);
    assert(map_of(u) =~= map_of(e).insert(entry.0@, entry.1@)) by {
        assert forall|k: Seq<char>| #[trigger] map_of(u).dom().contains(k) <==> map_of(e).insert(entry.0@, entry.1@).dom().contains(k) by {
            if map_of(u).dom().contains(k) {
                let j = choose|j: int| 0 <= j < u.len() && u[j].0@ == k;
                assert(e[j].0@ == k);
            }
            if map_of(e).dom().contains(k) {
                let j = choose|j: int| 0 <= j < e.len() && e[j].0@ == k;
                assert(u[j].0@ == k);
            }
            if k == entry.0@ {
                assert(u[i].0@ == k);
            }
        }
        assert forall|k: Seq<char>| #[trigger] map_of(u).dom().contains(k) implies map_of(u)[k] == map_of(e).insert(entry.0@, entry.1@)[k] by {
            let j = choose|j: int| 0 <= j < u.len() && u[j].0@ == k;
            if j != i {
                assert(u[j] == e[j]);
            }
        }
    }
}

/// A map from strings to values, as a vector of entries with distinct keys.
pub struct StrMap<V> {
    entries: Vec<(String, V)>,
}

impl<V: View> View for StrMap<V> {
    type V = Map<Seq<char>, V::V>;

    closed spec fn view(&self) -> Map<Seq<char>, V::V> {
        map_of(self.entries@)
    }
}

impl<V: View> StrMap<V> {
    /// The entries in the order their keys were first inserted.
    pub closed spec fn entry_seq(&self) -> Seq<(String, V)> {
        self.entries@
    }

    /// The map's invariant: no key occurs twice.
    pub closed spec fn wf(&self) -> bool {
        keys_distinct(self.entries@)
    }

    proof fn lemma_len(&self, e: Seq<(String, V)>)
        requires
            keys_distinct(e),
        ensures
            map_of(e).dom().finite(),
            map_of(e).len() == e.len(),
        decreases e.len(),
    {
        if e.len() > 0 {
            let d = e.drop_last();
            assert(keys_distinct(d)) by {
                assert forall|i: int, j: int| 0 <= i < j < d.len() implies (#[trigger] d[i]).0@ != (#[trigger] d[j]).0@ by {
                    assert(d[i] == e[i] && d[j] == e[j]);
                }
            }
            self.lemma_len(d);
            lemma_map_of_index(d);
            assert(!map_of(d).dom().contains(e.last().0@)) by {
                if map_of(d).dom().contains(e.last().0@) {
                    let i = choose|i: int| 0 <= i < d.len() && d[i].0@ == e.last().0@;
                    assert(e[i].0@ != e[e.len() - 1].0@);
                }
            }
        }
    }

    /// An empty map.
    pub fn new() -> (m: Self)
        ensures
            m.wf(),
            m@ == Map::<Seq<char>, V::V>::empty(),
            m.entry_seq().len() == 0,
    {
        StrMap { entries: Vec::new() }
    }

    /// The number of keys.
    pub fn len(&self) -> (n: usize)
        ensures
            n == self.entry_seq().len(),
            self.wf() ==> n == self@.len() && self@.dom().finite(),
    {
        proof {
            if self.wf() {
                self.lemma_len(self.entries@);
            }
        }
        self.entries.len()
    }

    /// The key of entry `i`.
    pub fn key_at(&self, i: usize) -> (k: &String)
        requires
            i < self.entry_seq().len(),
        ensures
            *k == self.entry_seq()[i as int].0,
            self.wf() ==> self@.dom().contains(k@),
    {
        proof {
            if self.wf() {
                lemma_map_of_index(self.entries@);
            }
        }
        &self.entries[i].0
    }

    /// The value of entry `i`, the value of its key.
    pub fn value_at(&self, i: usize) -> (v: &V)
        requires
            i < self.entry_seq().len(),
        ensures
            *v == self.entry_seq()[i as int].1,
            self.wf() ==> self@[self.entry_seq()[i as int].0@] == v@,
    {
        proof {
            if self.wf() {
                lemma_map_of_index(self.entries@);
                assert(map_of(self.entries@).dom().contains(self.entries@[i as int].0@));
            }
        }
        &self.entries[i].1
    }

    /// The index of the entry with key `key`, if any.
    pub fn index_of(&self, key: &String) -> (r: Option<usize>)
        requires
            self.wf(),
        ensures
            match r {
                Some(i) => i < self.entry_seq().len() && self.entry_seq()[i as int].0@ == key@,
                None => !self@.dom().contains(key@),
            },
    {
        proof { lemma_map_of_index(self.entries@); }
        let mut i: usize = 0;
        while i < self.entries.len()
            invariant
                i <= self.entries.len(),
                forall|j: int| 0 <= j < i ==> (#[trigger] self.entries@[j]).0@ != key@,
            decreases self.entries.len() - i,
        {
            if self.entries[i].0 == *key {
                return Some(i);
            }
            i = i + 1;
        }
        None
    }

    /// Whether `key` has a value.
    pub fn contains_key(&self, key: &String) -> (b: bool)
        requires
            self.wf(),
        ensures
            b == self@.dom().contains(key@),
    {
        proof { lemma_map_of_index(self.entries@); }
        self.index_of(key).is_some()
    }

    /// The value of `key`, if any.
    pub fn get(&self, key: &String) -> (r: Option<&V>)
        requires
            self.wf(),
        ensures
            match r {
                Some(v) => self@.dom().contains(key@) && v@ == self@[key@],
                None => !self@.dom().contains(key@),
            },
    {
        proof { lemma_map_of_index(self.entries@); }
        match self.index_of(key) {
            Some(i) => {
                assert(map_of(self.entries@).dom().contains(self.entries@[i as int].0@));
                Some(&self.entries[i].1)
            },
            None => None,
        }
    }

    /// Gives `key` the value `v`: a key already there keeps its entry's
    /// place, a new key's entry comes last.
    pub fn insert(&mut self, key: String, v: V)
        requires
            old(self).wf(),
        ensures
            final(self).wf(),
            final(self)@ == old(self)@.insert(key@, v@),
            old(self)@.dom().contains(key@) ==> exists|i: int| 0 <= i < old(self).entry_seq().len()
                && old(self).entry_seq()[i].0@ == key@
                && final(self).entry_seq() == old(self).entry_seq().update(i, (key, v)),
            !old(self)@.dom().contains(key@) ==> final(self).entry_seq() == old(self).entry_seq().push((key, v)),
    {
        proof { lemma_map_of_index(self.entries@); }
        match self.index_of(&key) {
            Some(i) => {
                proof { lemma_map_of_update(self.entries@, i as int, (key, v)); }
                let ghost e0 = self.entries@;
                self.entries.set(i, (key, v));
                assert(map_of(e0).dom().contains(e0[i as int].0@));
            },
            None => {
                proof { lemma_map_of_index(self.entries@); }
                let ghost e = self.entries@;
                self.entries.push((key, v));
                assert(self.entries@.drop_last() == e);
                assert(keys_distinct(self.entries@)) by {
                    assert forall|a: int, b: int| 0 <= a < b < self.entries@.len() implies
                        (#[trigger] self.entries@[a]).0@ != (#[trigger] self.entries@[b]).0@ by {
                        if b == e.len() {
                            assert(self.entries@[a] == e[a]);
                        } else {
                            assert(self.entries@[a] == e[a] && self.entries@[b] == e[b]);
                        }
                    }
                }
            },
        }
    }
}

/// A set of strings, as a vector of distinct strings.
pub struct StrSet {
    items: Vec<String>,
}

impl View for StrSet {
    type V = Set<Seq<char>>;

    closed spec fn view(&self) -> Set<Seq<char>> {
        Set::new(|k: Seq<char>| exists|i: int| 0 <= i < self.items@.len() && self.items@[i]@ == k)
    }
}

impl StrSet {
    /// The members in the order they were first inserted.
    pub closed spec fn items(&self) -> Seq<String> {
        self.items@
    }

    /// The set's invariant: no member occurs twice.
    pub closed spec fn wf(&self) -> bool {
        forall|i: int, j: int| 0 <= i < j < self.items@.len() ==> (#[trigger] self.items@[i])@ != (#[trigger] self.items@[j])@
    }

    pub proof fn lemma_items(&self)
        ensures
            forall|i: int| 0 <= i < self.items().len() ==> #[trigger] self@.contains(self.items()[i]@),
            forall|k: Seq<char>| #[trigger] self@.contains(k) ==> exists|i: int| 0 <= i < self.items().len() && self.items()[i]@ == k,
    {
        assert forall|i: int| 0 <= i < self.items().len() implies #[trigger] self@.contains(self.items()[i]@) by {
            assert(self.items@[i]@ == self.items()[i]@);
        }
        assert forall|k: Seq<char>| #[trigger] self@.contains(k) implies exists|i: int| 0 <= i < self.items().len() && self.items()[i]@ == k by {
            let i = choose|i: int| 0 <= i < self.items@.len() && self.items@[i]@ == k;
            assert(self.items()[i]@ == k);
        }
    }

    /// An empty set.
    pub fn new() -> (s: Self)
        ensures
            s.wf(),
            s@ == Set::<Seq<char>>::empty(),
    {
        let s = StrSet { items: Vec::new() };
        assert(s@ =~= Set::<Seq<char>>::empty());
        s
    }

    /// The number of members.
    pub fn len(&self) -> (n: usize)
        ensures
            n == self.items().len(),
    {
        self.items.len()
    }

    /// Member `i`.
    pub fn item(&self, i: usize) -> (k: &String)
        requires
            i < self.items().len(),
        ensures
            *k == self.items()[i as int],
    {
        &self.items[i]
    }

    /// Whether `key` is a member.
    pub fn contains(&self, key: &String) -> (b: bool)
        ensures
            b == self@.contains(key@),
    {
        let mut i: usize = 0;
        while i < self.items.len()
            invariant
                i <= self.items.len(),
                forall|j: int| 0 <= j < i ==> (#[trigger] self.items@[j])@ != key@,
            decreases self.items.len() - i,
        {
            if self.items[i] == *key {
                assert(self.items@[i as int]@ == key@);
                return true;
            }
            i = i + 1;
        }
        false
    }

    /// Adds `key`.
    pub fn insert(&mut self, key: String)
        requires
            old(self).wf(),
        ensures
            final(self).wf(),
            final(self)@ == old(self)@.insert(key@),
    {
        if self.contains(&key) {
            assert(self@ =~= self@.insert(key@));
            return;
        }
        let ghost e = self.items@;
        let ghost k = key@;
        self.items.push(key);
        assert(self@ =~= Set::new(|x: Seq<char>| exists|i: int| 0 <= i < e.len() && e[i]@ == x).insert(k)) by {
            assert forall|x: Seq<char>| #[trigger] self@.contains(x) <==>
                Set::new(|x: Seq<char>| exists|i: int| 0 <= i < e.len() && e[i]@ == x).insert(k).contains(x) by {
                if exists|i: int| 0 <= i < e.len() && e[i]@ == x {
                    let i = choose|i: int| 0 <= i < e.len() && e[i]@ == x;
                    assert(self.items@[i] == e[i]);
                }
                if self@.contains(x) && x != k {
                    let i = choose|i: int| 0 <= i < self.items@.len() && self.items@[i]@ == x;
                    assert(i < e.len());
                    assert(self.items@[i] == e[i]);
                }
                if x == k {
                    assert(self.items@[e.len() as int]@ == k);
                }
            }
        }
        assert forall|a: int, b: int| 0 <= a < b < self.items@.len() implies (#[trigger] self.items@[a])@ != (#[trigger] self.items@[b])@ by {
            if b == e.len() {
                assert(self.items@[a] == e[a]);
                assert(!(exists|i: int| 0 <= i < e.len() && e[i]@ == k));
            } else {
                assert(self.items@[a] == e[a] && self.items@[b] == e[b]);
            }
        }
    }

    /// Removes every member.
    pub fn clear(&mut self)
        ensures
            final(self).wf(),
            final(self)@ == Set::<Seq<char>>::empty(),
    {
        self.items = Vec::new();
        assert(self@ =~= Set::<Seq<char>>::empty());
    }
}

} // verus!
