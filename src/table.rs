//! A table from path keys to values with at most one entry per key.
use vstd::prelude::*;

verus! {

/// Entries keyed by path, each key at most once, in a `Vec`; `model` is the
/// map that they stand for.
pub struct PathTable<V> {
    entries: Vec<(String, V)>,
    model: Ghost<Map<Seq<char>, V>>,
}

impl<V> View for PathTable<V> {
    type V = Map<Seq<char>, V>;

    closed spec fn view(&self) -> Map<Seq<char>, V> {
        self.model@
    }
}

impl<V> PathTable<V> {
    /// Each stored key is stored once, and the model is what the entries hold.
    pub closed spec fn wf(self) -> bool {
        &&& forall|i: int|
            0 <= i < self.entries@.len() ==> {
                &&& #[trigger] self.model@.contains_key(self.entries@[i].0@)
                &&& self.model@[self.entries@[i].0@] == self.entries@[i].1
            }
        &&& forall|k: Seq<char>| #[trigger]
            self.model@.contains_key(k) ==> exists|i: int|
                0 <= i < self.entries@.len() && #[trigger] self.entries@[i].0@ == k
        &&& forall|i: int, j: int|
            0 <= i < self.entries@.len() && 0 <= j < self.entries@.len() && i != j
                ==> #[trigger] self.entries@[i].0@ != #[trigger] self.entries@[j].0@
    }

    /// An empty table.
    pub fn new() -> (r: Self)
        ensures
            r.wf(),
            r@ == Map::<Seq<char>, V>::empty(),
    {
        PathTable { entries: Vec::new(), model: Ghost(Map::empty()) }
    }

    /// The number of keys in the table.
    pub fn len(&self) -> (r: usize)
        requires
            self.wf(),
        ensures
            r == self@.dom().len(),
    {
        proof {
            self.lemma_dom_is_keys();
        }
        self.entries.len()
    }

    proof fn lemma_dom_is_keys(&self)
        requires
            self.wf(),
        ensures
            self@.dom() == self.entries@.map_values(|e: (String, V)| e.0@).to_set(),
            self@.dom().len() == self.entries@.len(),
    {
        let keys = self.entries@.map_values(|e: (String, V)| e.0@);
        assert forall|k: Seq<char>| self@.dom().contains(k) <==> keys.to_set().contains(k) by {
            if self@.dom().contains(k) {
                let i = choose|i: int| 0 <= i < self.entries@.len() && #[trigger] self.entries@[i].0@ == k;
                assert(keys[i] == k);
            }
            if keys.to_set().contains(k) {
                let i = choose|i: int| 0 <= i < keys.len() && keys[i] == k;
                assert(self.entries@[i].0@ == k);
            }
        };
        assert(self@.dom() =~= keys.to_set());
        assert(keys.no_duplicates()) by {
            assert forall|i: int, j: int| 0 <= i < keys.len() && 0 <= j < keys.len() && i != j
                implies keys[i] != keys[j] by {
                assert(self.entries@[i].0@ != self.entries@[j].0@);
            };
        };
        keys.unique_seq_to_set();
    }

    /// The index of the entry for `key`, if there is one.
    fn position(&self, key: &String) -> (r: Option<usize>)
        requires
            self.wf(),
        ensures
            r is None <==> !self@.contains_key(key@),
            r matches Some(i) ==> i < self.entries@.len() && self.entries@[i as int].0@ == key@,
    {
        let mut i: usize = 0;
        while i < self.entries.len()
            invariant
                i <= self.entries@.len(),
                self.wf(),
                forall|j: int| 0 <= j < i ==> self.entries@[j].0@ != key@,
            decreases self.entries@.len() - i,
        {
            if self.entries[i].0 == *key {
                return Some(i);
            }
            i = i + 1;
        }
        None
    }

    /// The value stored under `key`.
    pub fn get(&self, key: &String) -> (r: Option<&V>)
        requires
            self.wf(),
        ensures
            r is None <==> !self@.contains_key(key@),
            r matches Some(v) ==> *v == self@[key@],
    {
        match self.position(key) {
            Some(i) => Some(&self.entries[i].1),
            None => None,
        }
    }

    /// Stores `value` under `key`, replacing what was stored there before.
    pub fn insert(&mut self, key: String, value: V)
        requires
            old(self).wf(),
        ensures
            final(self).wf(),
            final(self)@ == old(self)@.insert(key@, value),
    {
        let ghost k = key@;
        let ghost old_entries = self.entries@;
        let ghost new_model = self.model@.insert(k, value);
        match self.position(&key) {
            Some(i) => {
                self.entries.set(i, (key, value));
                self.model = Ghost(new_model);
                assert forall|j: int| 0 <= j < self.entries@.len() && j != i implies
                    self.entries@[j] == old_entries[j] && self.entries@[j].0@ != k by {
                    assert(old_entries[j].0@ != old_entries[i as int].0@);
                };
                assert forall|q: Seq<char>| #[trigger] new_model.contains_key(q) implies exists|j: int|
                    0 <= j < self.entries@.len() && #[trigger] self.entries@[j].0@ == q by {
                    if q == k {
                        assert(self.entries@[i as int].0@ == q);
                    } else {
                        let j = choose|j: int| 0 <= j < old_entries.len() && #[trigger] old_entries[j].0@ == q;
                        assert(self.entries@[j].0@ == q);
                    }
                };
            },
            None => {
                self.entries.push((key, value));
                self.model = Ghost(new_model);
                assert forall|q: Seq<char>| #[trigger] new_model.contains_key(q) implies exists|j: int|
                    0 <= j < self.entries@.len() && #[trigger] self.entries@[j].0@ == q by {
                    if q == k {
                        assert(self.entries@[old_entries.len() as int].0@ == q);
                    } else {
                        let j = choose|j: int| 0 <= j < old_entries.len() && #[trigger] old_entries[j].0@ == q;
                        assert(self.entries@[j].0@ == q);
                    }
                };
            },
        }
    }

    /// Takes the value stored under `key` out of the table.
    pub fn remove(&mut self, key: &String) -> (r: Option<V>)
        requires
            old(self).wf(),
        ensures
            final(self).wf(),
            old(self)@.contains_key(key@) ==> r == Some(old(self)@[key@]) && final(self)@ == old(
                self,
            )@.remove(key@),
            !old(self)@.contains_key(key@) ==> r is None && final(self)@ == old(self)@,
    {
        match self.position(key) {
            Some(i) => {
                let ghost k = key@;
                let ghost old_entries = self.entries@;
                let ghost new_model = self.model@.remove(k);
                let e = self.entries.remove(i);
                self.model = Ghost(new_model);
                assert forall|j: int| 0 <= j < self.entries@.len() implies
                    #[trigger] self.entries@[j].0@ != k by {
                    if j < i {
                        assert(old_entries[j].0@ != old_entries[i as int].0@);
                    } else {
                        assert(old_entries[j + 1].0@ != old_entries[i as int].0@);
                    }
                };
                assert forall|q: Seq<char>| #[trigger] new_model.contains_key(q) implies exists|j: int|
                    0 <= j < self.entries@.len() && #[trigger] self.entries@[j].0@ == q by {
                    let j = choose|j: int| 0 <= j < old_entries.len() && #[trigger] old_entries[j].0@ == q;
                    if j < i {
                        assert(self.entries@[j].0@ == q);
                    } else {
                        assert(j != i);
                        assert(self.entries@[j - 1].0@ == q);
                    }
                };
                assert forall|a: int, b: int|
                    0 <= a < self.entries@.len() && 0 <= b < self.entries@.len() && a != b
                    implies #[trigger] self.entries@[a].0@ != #[trigger] self.entries@[b].0@ by {
                    let oa = if a < i { a } else { a + 1 };
                    let ob = if b < i { b } else { b + 1 };
                    assert(old_entries[oa].0@ != old_entries[ob].0@);
                };
                Some(e.1)
            },
            None => None,
        }
    }
}

} // verus!
