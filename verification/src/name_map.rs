//! A map keyed by names, kept in insertion order.

use vstd::prelude::*;

verus! {

/// A finite map from names to values.
///
/// The entries are kept in the order in which their names were first
/// inserted, and no name occurs twice.
pub struct NameMap<V> {
    names: Vec<String>,
    values: Vec<V>,
}

impl<V> View for NameMap<V> {
    type V = Map<Seq<char>, V>;

    /// The map from each name to the value stored under it.
    open spec fn view(&self) -> Map<Seq<char>, V> {
        Map::new(
            |name: Seq<char>| self.keys().contains(name),
            |name: Seq<char>| self.entries()[self.keys().index_of(name)],
        )
    }
}

impl<V> NameMap<V> {
    /// The names, in insertion order.
    pub closed spec fn keys(&self) -> Seq<Seq<char>> {
        Seq::new(self.names@.len(), |i: int| self.names@[i]@)
    }

    /// The values, each at the index of its name in `keys`.
    pub closed spec fn entries(&self) -> Seq<V> {
        self.values@
    }

    /// Every name has one value, and no name occurs twice.
    pub open spec fn wf(&self) -> bool {
        &&& self.keys().len() == self.entries().len()
        &&& self.keys().no_duplicates()
    }

    /// The view holds exactly the names of `keys`, each with the entry at
    /// its index, and has as many entries as there are names.
    pub proof fn lemma_view(&self)
        requires
            self.wf(),
        ensures
            self@.dom() == self.keys().to_set(),
            self@.dom().finite(),
            self@.len() == self.keys().len(),
            forall|i: int|
                0 <= i < self.keys().len() ==> self@.contains_key(#[trigger] self.keys()[i])
                    && self@[self.keys()[i]] == self.entries()[i],
    {
        let keys = self.keys();
        assert(self@.dom() =~= keys.to_set());
        keys.unique_seq_to_set();
        assert forall|i: int| 0 <= i < keys.len() implies self@.contains_key(#[trigger] keys[i])
            && self@[keys[i]] == self.entries()[i] by {
            assert(keys.contains(keys[i]));
            keys.index_of_first_ensures(keys[i]);
            let j = keys.index_of(keys[i]);
            assert(keys[j] == keys[i]);
        }
    }

    /// The empty map.
    pub fn new() -> (map: NameMap<V>)
        ensures
            map.wf(),
            map.keys() == Seq::<Seq<char>>::empty(),
            map@ == Map::<Seq<char>, V>::empty(),
    {
        let map = NameMap { names: Vec::new(), values: Vec::new() };
        assert(map.keys() =~= Seq::<Seq<char>>::empty());
        assert(map@ =~= Map::<Seq<char>, V>::empty());
        map
    }

    /// The number of entries.
    pub fn len(&self) -> (len: usize)
        requires
            self.wf(),
        ensures
            len == self.keys().len(),
            len == self@.len(),
    {
        proof {
            self.lemma_view();
        }
        self.names.len()
    }

    /// The name at `index`, counting in insertion order.
    pub fn key_at(&self, index: usize) -> (name: &String)
        requires
            self.wf(),
            index < self.keys().len(),
        ensures
            name@ == self.keys()[index as int],
            self@.contains_key(name@),
    {
        proof {
            self.lemma_view();
        }
        &self.names[index]
    }

    /// The value of the entry at `index`, counting in insertion order.
    pub fn value_at(&self, index: usize) -> (value: &V)
        requires
            self.wf(),
            index < self.keys().len(),
        ensures
            *value == self.entries()[index as int],
            *value == self@[self.keys()[index as int]],
    {
        proof {
            self.lemma_view();
        }
        &self.values[index]
    }

    /// The index of `name` among the keys, if it is one.
    pub fn position(&self, name: &String) -> (found: Option<usize>)
        requires
            self.wf(),
        ensures
            match found {
                Some(index) => index < self.keys().len() && self.keys()[index as int] == name@,
                None => !self.keys().contains(name@),
            },
            found is Some <==> self@.contains_key(name@),
    {
        let mut index: usize = 0;
        while index < self.names.len()
            invariant
                index <= self.names@.len(),
                forall|i: int| 0 <= i < index ==> self.keys()[i] != name@,
                self.keys().len() == self.names@.len(),
            decreases self.names@.len() - index,
        {
            if self.names[index] == *name {
                assert(self.keys()[index as int] == name@);
                return Some(index);
            }
            index += 1;
        }
        None
    }

    /// Whether `name` has an entry.
    pub fn contains_key(&self, name: &String) -> (found: bool)
        requires
            self.wf(),
        ensures
            found == self@.contains_key(name@),
    {
        self.position(name).is_some()
    }

    /// The value stored under `name`, if there is one.
    pub fn get(&self, name: &String) -> (value: Option<&V>)
        requires
            self.wf(),
        ensures
            match value {
                Some(v) => self@.contains_key(name@) && *v == self@[name@],
                None => !self@.contains_key(name@),
            },
    {
        match self.position(name) {
            Some(index) => Some(self.value_at(index)),
            None => None,
        }
    }

    /// The value stored under `name`, to be changed in place, if there is one.
    pub fn get_mut(&mut self, name: &String) -> (value: Option<&mut V>)
        requires
            old(self).wf(),
        ensures
            final(self).wf(),
            final(self).keys() == old(self).keys(),
            match value {
                Some(v) => {
                    &&& old(self)@.contains_key(name@)
                    &&& *v == old(self)@[name@]
                    &&& final(self)@ == old(self)@.insert(name@, *final(v))
                },
                None => !old(self)@.contains_key(name@) && final(self)@ == old(self)@,
            },
    {
        proof {
            self.lemma_view();
        }
        match self.position(name) {
            Some(index) => {
                proof {
                    let before = *self;
                    assert forall|after: NameMap<V>|
                        after.keys() == before.keys() && #[trigger] after.entries()
                            == before.entries().update(
                            index as int,
                            after.entries()[index as int],
                        ) implies after.wf() && after@ == before@.insert(
                        name@,
                        after.entries()[index as int],
                    ) by {
                        before.lemma_replaced(after, index as int);
                    }
                }
                Some(&mut self.values[index])
            },
            None => None,
        }
    }

    /// A map that differs from this one in the entry at `index` alone is
    /// this map with that entry stored under the name at `index`.
    proof fn lemma_replaced(&self, after: NameMap<V>, index: int)
        requires
            self.wf(),
            0 <= index < self.keys().len(),
            after.keys() == self.keys(),
            after.entries() == self.entries().update(index, after.entries()[index]),
        ensures
            after.wf(),
            after@ == self@.insert(self.keys()[index], after.entries()[index]),
    {
        self.lemma_view();
        after.lemma_view();
        let expected = self@.insert(self.keys()[index], after.entries()[index]);
        assert forall|k: Seq<char>| #[trigger] expected.contains_key(k) implies after@.contains_key(
            k,
        ) && after@[k] == expected[k] by {
            let i = choose|i: int| 0 <= i < self.keys().len() && self.keys()[i] == k;
            assert(after.keys()[i] == k);
        }
        assert(after@ =~= expected);
    }

    /// Stores `value` under `name` and returns the value that it replaces.
    ///
    /// A new name goes to the end of the order; a known name keeps its place.
    pub fn insert(&mut self, name: String, value: V) -> (replaced: Option<V>)
        requires
            old(self).wf(),
        ensures
            final(self).wf(),
            final(self)@ == old(self)@.insert(name@, value),
            replaced == if old(self)@.contains_key(name@) {
                Some(old(self)@[name@])
            } else {
                None::<V>
            },
            final(self).keys() == if old(self)@.contains_key(name@) {
                old(self).keys()
            } else {
                old(self).keys().push(name@)
            },
    {
        proof {
            self.lemma_view();
        }
        match self.position(&name) {
            Some(index) => {
                let mut slot = value;
                self.values.set_and_swap(index, &mut slot);
                proof {
                    assert(self.keys() =~= old(self).keys());
                    self.lemma_view();
                    assert(self@ =~= old(self)@.insert(name@, value));
                }
                Some(slot)
            },
            None => {
                self.names.push(name);
                self.values.push(value);
                proof {
                    let before = old(self).keys();
                    assert(self.keys() =~= before.push(name@));
                    self.lemma_view();
                    assert(self.keys()[before.len() as int] == name@);
                    assert forall|k: Seq<char>| #[trigger]
                        old(self)@.insert(name@, value).contains_key(k) implies self@.contains_key(
                        k,
                    ) && self@[k] == old(self)@.insert(name@, value)[k] by {
                        if k != name@ {
                            let i = choose|i: int| 0 <= i < before.len() && before[i] == k;
                            assert(self.keys()[i] == k);
                        }
                    }
                    assert forall|k: Seq<char>| #[trigger] self@.contains_key(k) implies old(
                        self,
                    )@.insert(name@, value).contains_key(k) by {
                        let i = choose|i: int| 0 <= i < self.keys().len() && self.keys()[i] == k;
                        if i < before.len() {
                            assert(before[i] == k);
                        }
                    }
                    assert(self@ =~= old(self)@.insert(name@, value));
                }
                None
            },
        }
    }
}

impl<V> Default for NameMap<V> {
    /// The empty map.
    fn default() -> (map: NameMap<V>)
        ensures
            map.wf(),
            map.keys() == Seq::<Seq<char>>::empty(),
            map@ == Map::<Seq<char>, V>::empty(),
    {
        NameMap::new()
    }
}

} // verus!
