//! A map from names to values that remembers the order in which names were first added.

use vstd::prelude::*;

verus! {

/// A map keyed by name. Each name occurs once, and walking the map follows the order in which
/// the names were first inserted.
///
/// It stands in for a hash map with strings for keys: nothing is known of what lookups in one
/// return, and `StringHashMap`, of which it is known, cannot be walked.
pub struct NameMap<V> {
    entries: Vec<(String, V)>,
}

impl<V: View> View for NameMap<V> {
    type V = Map<Seq<char>, V::V>;

    closed spec fn view(&self) -> Map<Seq<char>, V::V> {
        Map::new(
            |k: Seq<char>| self.names().contains(k),
            |k: Seq<char>| self.entries@[self.names().index_of(k)].1@,
        )
    }
}

impl<V> NameMap<V> {
    /// The names in the order in which they were first inserted.
    pub closed spec fn names(&self) -> Seq<Seq<char>> {
        Seq::new(self.entries@.len(), |i: int| self.entries@[i].0@)
    }

    /// No name occurs twice.
    #[verifier::type_invariant]
    pub closed spec fn wf(&self) -> bool {
        self.names().no_duplicates()
    }
}

impl<V: View> NameMap<V> {
    /// The names listed are the keys of the map, each once.
    pub proof fn lemma_names(&self)
        requires
            self.wf(),
        ensures
            self.names().no_duplicates(),
            self.names().to_set() == self@.dom(),
            forall|k: Seq<char>| self@.contains_key(k) <==> #[trigger] self.names().contains(k),
    {
        assert(self.names().to_set() =~= self@.dom());
    }

    proof fn lemma_value_at(&self, i: int)
        requires
            self.wf(),
            0 <= i < self.names().len(),
        ensures
            self@.contains_key(self.names()[i]),
            self@[self.names()[i]] == self.entries@[i].1@,
    {
        let k = self.names()[i];
        assert(self.names().contains(k));
        let j = self.names().index_of(k);
        assert(self.names()[j] == k);
        assert(i == j);
    }

    pub fn new() -> (result: Self)
        ensures
            result@ == Map::<Seq<char>, V::V>::empty(),
            result.names() == Seq::<Seq<char>>::empty(),
    {
        let result = NameMap { entries: Vec::new() };
        assert(result@ =~= Map::empty());
        assert(result.names() =~= Seq::empty());
        result
    }

    pub fn len(&self) -> (result: usize)
        ensures
            result == self.names().len(),
    {
        self.entries.len()
    }

    fn position(&self, name: &String) -> (result: Option<usize>)
        ensures
            match result {
                Some(i) => i < self.entries@.len() && self.names()[i as int] == name@,
                None => !self.names().contains(name@),
            },
    {
        let mut i: usize = 0;
        while i < self.entries.len()
            invariant
                i <= self.entries@.len(),
                forall|j: int| 0 <= j < i ==> self.names()[j] != name@,
            decreases self.entries@.len() - i,
        {
            if self.entries[i].0 == *name {
                return Some(i);
            }
            i += 1;
        }
        None
    }

    /// The value stored under `name`.
    pub fn get(&self, name: &String) -> (result: Option<&V>)
        ensures
            match result {
                Some(v) => self@.contains_key(name@) && v@ == self@[name@],
                None => !self@.contains_key(name@),
            },
    {
        proof {
            use_type_invariant(self);
        }
        match self.position(name) {
            Some(i) => {
                proof {
                    self.lemma_value_at(i as int);
                }
                Some(&self.entries[i].1)
            },
            None => None,
        }
    }

    pub fn contains_key(&self, name: &String) -> (result: bool)
        ensures
            result == self@.contains_key(name@),
    {
        match self.position(name) {
            Some(i) => {
                proof {
                    assert(self.names().contains(name@));
                }
                true
            },
            None => false,
        }
    }

    /// Stores `value` under `name`. A name that is already there keeps its place in the order.
    pub fn insert(&mut self, name: String, value: V)
        ensures
            final(self)@ == old(self)@.insert(name@, value@),
            final(self).names() == if old(self)@.contains_key(name@) {
                old(self).names()
            } else {
                old(self).names().push(name@)
            },
    {
        proof {
            use_type_invariant(&*self);
        }
        let ghost before = *self;
        let position = self.position(&name);
        let mut entries: Vec<(String, V)> = Vec::new();
        std::mem::swap(&mut entries, &mut self.entries);
        match position {
            Some(i) => {
                let ghost key = name@;
                entries.set(i, (name, value));
                let ghost after = NameMap { entries };
                proof {
                    assert(before.names().contains(key));
                    assert(after.names() =~= before.names());
                    before.lemma_value_at(i as int);
                    after.lemma_value_at(i as int);
                    assert forall|k: Seq<char>| after@.contains_key(k) implies #[trigger] after@[k]
                        == before@.insert(key, value@)[k] by {
                        let j = after.names().index_of(k);
                        assert(after.names().contains(k));
                        assert(after.names()[j] == k);
                        if k == key {
                            assert(j == i);
                        }
                    }
                    assert(after@ =~= before@.insert(key, value@));
                }
            },
            None => {
                let ghost key = name@;
                entries.push((name, value));
                let ghost after = NameMap { entries };
                proof {
                    assert(after.names() =~= before.names().push(key));
                    assert(after.names()[before.names().len() as int] == key);
                    assert forall|k: Seq<char>| after.names().contains(k) <==> (k == key
                        || before.names().contains(k)) by {
                        if before.names().contains(k) {
                            let j = before.names().index_of(k);
                            assert(after.names()[j] == k);
                        }
                    }
                    assert(after.wf());
                    after.lemma_value_at(before.names().len() as int);
                    assert forall|k: Seq<char>| after@.contains_key(k) implies #[trigger] after@[k]
                        == before@.insert(key, value@)[k] by {
                        if k != key {
                            let j = before.names().index_of(k);
                            assert(after.names()[j] == k);
                            after.lemma_value_at(j);
                            before.lemma_value_at(j);
                        }
                    }
                    assert(after@ =~= before@.insert(key, value@));
                }
            },
        }
        self.entries = entries;
    }

    /// The name at place `i` of the order.
    pub fn name_at(&self, i: usize) -> (result: &String)
        requires
            i < self.names().len(),
        ensures
            result@ == self.names()[i as int],
    {
        &self.entries[i].0
    }

    /// The value stored under the name at place `i` of the order.
    pub fn value_at(&self, i: usize) -> (result: &V)
        requires
            i < self.names().len(),
        ensures
            self@.contains_key(self.names()[i as int]),
            result@ == self@[self.names()[i as int]],
    {
        proof {
            use_type_invariant(self);
            self.lemma_value_at(i as int);
        }
        &self.entries[i].1
    }
}

} // verus!
