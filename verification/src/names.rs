//! Tables that keep their entries in the order in which they came and find
//! them again by key through a concurrent hash map.
//!
//! The hash map holds, for each key, the position of its entry. The entries
//! themselves stand in vectors, so that walking a table is walking a vector
//! and the order of a walk is the order of insertion.

use vstd::prelude::*;
use dashmap::DashMap;
use std::any::TypeId;

verus! {

/// `dashmap::DashMap`, a concurrent hash map. The verifier sees nothing
/// inside; what a map holds is named by `name_slots` and `type_slots`.
#[verifier::external_type_specification]
#[verifier::external_body]
#[verifier::reject_recursive_types(K)]
#[verifier::reject_recursive_types(V)]
#[verifier::reject_recursive_types(S)]
pub struct ExDashMap<K, V, S>(DashMap<K, V, S>);

/// `std::any::TypeId`, the identity of a type. Two identities are equal when
/// they are the identity of the same type.
#[verifier::external_type_specification]
#[verifier::external_body]
pub struct ExTypeId(TypeId);

/// What a map from names to positions holds.
pub uninterp spec fn name_slots(m: DashMap<String, usize>) -> Map<Seq<char>, usize>;

/// What a map from type identities to positions holds.
pub uninterp spec fn type_slots(m: DashMap<TypeId, usize>) -> Map<TypeId, usize>;

/// The map without any name.
pub open spec fn no_names() -> Map<Seq<char>, usize> {
    Map::empty()
}

/// The map without any type identity.
pub open spec fn no_types() -> Map<TypeId, usize> {
    Map::empty()
}

/// `DashMap::new`: a map that holds nothing.
#[verifier::external_body]
fn new_name_slots() -> (m: DashMap<String, usize>)
    ensures
        name_slots(m) == no_names(),
{
    DashMap::new()
}

/// `DashMap::get`, with the position copied out of the entry it returns: the
/// position stored under `key`, if the map holds the key.
#[verifier::external_body]
fn get_name_slot(m: &DashMap<String, usize>, key: &str) -> (at: Option<usize>)
    ensures
        at == (if name_slots(*m).contains_key(key@) {
            Some(name_slots(*m)[key@])
        } else {
            None
        }),
{
    m.get(key).map(|entry| *entry.value())
}

/// `DashMap::insert`: afterwards the map holds `at` under `key` and is
/// otherwise unchanged; the result is the position that `key` had before.
#[verifier::external_body]
fn insert_name_slot(m: &mut DashMap<String, usize>, key: String, at: usize) -> (before: Option<usize>)
    ensures
        name_slots(*final(m)) == name_slots(*old(m)).insert(key@, at),
        before == (if name_slots(*old(m)).contains_key(key@) {
            Some(name_slots(*old(m))[key@])
        } else {
            None
        }),
{
    m.insert(key, at)
}

/// `DashMap::new`: a map that holds nothing.
#[verifier::external_body]
fn new_type_slots() -> (m: DashMap<TypeId, usize>)
    ensures
        type_slots(m) == no_types(),
{
    DashMap::new()
}

/// `DashMap::get`, with the position copied out of the entry it returns: the
/// position stored under `key`, if the map holds the key.
#[verifier::external_body]
fn get_type_slot(m: &DashMap<TypeId, usize>, key: &TypeId) -> (at: Option<usize>)
    ensures
        at == (if type_slots(*m).contains_key(*key) {
            Some(type_slots(*m)[*key])
        } else {
            None
        }),
{
    m.get(key).map(|entry| *entry.value())
}

/// `DashMap::insert`: afterwards the map holds `at` under `key` and is
/// otherwise unchanged; the result is the position that `key` had before.
#[verifier::external_body]
fn insert_type_slot(m: &mut DashMap<TypeId, usize>, key: TypeId, at: usize) -> (before: Option<usize>)
    ensures
        type_slots(*final(m)) == type_slots(*old(m)).insert(key, at),
        before == (if type_slots(*old(m)).contains_key(key) {
            Some(type_slots(*old(m))[key])
        } else {
            None
        }),
{
    m.insert(key, at)
}

/// Entries under distinct names, in the order in which they were added.
pub struct NameTable<V> {
    index: DashMap<String, usize>,
    names: Vec<String>,
    values: Vec<V>,
}

impl<V> NameTable<V> {
    /// The index and the vectors agree: entry `i` stands under its own name,
    /// and every name of the index leads to its entry.
    pub closed spec fn wf(&self) -> bool {
        &&& self.names.len() == self.values.len()
        &&& forall|i: int|
            0 <= i < self.names.len() ==> {
                &&& name_slots(self.index).contains_key(#[trigger] self.names[i]@)
                &&& name_slots(self.index)[self.names[i]@] == i
            }
        &&& forall|k: Seq<char>| #[trigger]
            name_slots(self.index).contains_key(k) ==> {
                &&& name_slots(self.index)[k] < self.names.len()
                &&& self.names[name_slots(self.index)[k] as int]@ == k
            }
    }

    /// The names, in the order in which they were added.
    pub closed spec fn names(&self) -> Seq<Seq<char>> {
        self.names@.map_values(|s: String| s@)
    }

    /// The values, in the order in which they were added.
    pub closed spec fn values(&self) -> Seq<V> {
        self.values@
    }

    /// Whether the table has an entry under `name`.
    pub open spec fn has(&self, name: Seq<char>) -> bool {
        self.names().contains(name)
    }

    /// The table as a map from each key to its value.
    pub open spec fn map(&self) -> Map<Seq<char>, V> {
        Map::new(
            |k: Seq<char>| self.has(k),
            |k: Seq<char>| self.values()[self.position(k)],
        )
    }

    /// The entries as pairs of name and value, in the order in which the names
    /// were added.
    pub open spec fn entries(&self) -> Seq<(Seq<char>, V)> {
        Seq::new(self.names().len(), |i: int| (self.names()[i], self.values()[i]))
    }

    /// The position of the entry under `name`.
    pub open spec fn position(&self, name: Seq<char>) -> int {
        self.names().index_of(name)
    }

    /// In a well-formed table no name occurs twice, and there are as many
    /// names as values.
    pub proof fn lemma_distinct(&self)
        requires
            self.wf(),
        ensures
            self.names().len() == self.values().len(),
            self.names().no_duplicates(),
            forall|i: int|
                0 <= i < self.names().len() ==> self.position(#[trigger] self.names()[i]) == i,
    {
        assert forall|i: int, j: int|
            0 <= i < self.names().len() && 0 <= j < self.names().len() && i != j implies self.names()[i]
            != self.names()[j] by {
            assert(self.names[i]@ == self.names()[i]);
            assert(self.names[j]@ == self.names()[j]);
        }
        assert forall|i: int| 0 <= i < self.names().len() implies self.position(
            #[trigger] self.names()[i],
        ) == i by {
            let k = self.names()[i];
            assert(self.names().contains(k));
            let p = self.names().index_of(k);
            assert(self.names()[p] == k);
            if p != i {
                assert(self.names()[p] != self.names()[i]);
            }
        }
    }

    /// A table without entries.
    pub fn new() -> (t: Self)
        ensures
            t.wf(),
            t.names() == Seq::<Seq<char>>::empty(),
            t.values() == Seq::<V>::empty(),
    {
        let t = NameTable { index: new_name_slots(), names: Vec::new(), values: Vec::new() };
        assert(t.names() == Seq::<Seq<char>>::empty());
        t
    }

    /// The number of entries.
    pub fn len(&self) -> (n: usize)
        requires
            self.wf(),
        ensures
            n == self.names().len(),
            n == self.values().len(),
    {
        self.names.len()
    }

    /// The position of the entry under `name`, if there is one.
    pub fn find(&self, name: &str) -> (at: Option<usize>)
        requires
            self.wf(),
        ensures
            match at {
                Some(i) => {
                    &&& self.has(name@)
                    &&& i == self.position(name@)
                    &&& i < self.names().len()
                    &&& i < self.values().len()
                    &&& self.names()[i as int] == name@
                },
                None => !self.has(name@),
            },
    {
        let at = get_name_slot(&self.index, name);
        proof {
            self.lemma_distinct();
            match at {
                Some(i) => {
                    assert(self.names[i as int]@ == name@);
                    assert(self.names()[i as int] == name@);
                },
                None => {
                    if self.has(name@) {
                        let p = self.names().index_of(name@);
                        assert(self.names[p]@ == name@);
                    }
                },
            }
        }
        at
    }

    /// The name of entry `i`.
    pub fn name_at(&self, i: usize) -> (name: &String)
        requires
            self.wf(),
            i < self.names().len(),
        ensures
            name@ == self.names()[i as int],
    {
        &self.names[i]
    }

    /// The value of entry `i`.
    pub fn value_at(&self, i: usize) -> (value: &V)
        requires
            self.wf(),
            i < self.values().len(),
        ensures
            *value == self.values()[i as int],
    {
        &self.values[i]
    }

    /// Adds an entry under a name that the table does not have yet.
    pub fn add(&mut self, name: String, value: V)
        requires
            old(self).wf(),
            !old(self).has(name@),
        ensures
            final(self).wf(),
            final(self).names() == old(self).names().push(name@),
            final(self).values() == old(self).values().push(value),
            final(self).map() == old(self).map().insert(name@, value),
    {
        let at = self.names.len();
        let ghost key = name@;
        proof {
            assert(!name_slots(self.index).contains_key(key)) by {
                if name_slots(self.index).contains_key(key) {
                    let p = name_slots(self.index)[key] as int;
                    assert(self.names[p]@ == key);
                    assert(self.names()[p] == key);
                }
            }
        }
        let _ = insert_name_slot(&mut self.index, name.clone(), at);
        self.names.push(name);
        self.values.push(value);
        proof {
            assert(self.names() == old(self).names().push(key));
            assert forall|i: int| 0 <= i < self.names.len() implies {
                &&& name_slots(self.index).contains_key(#[trigger] self.names[i]@)
                &&& name_slots(self.index)[self.names[i]@] == i
            } by {
                if i < at {
                    assert(self.names[i] == old(self).names[i]);
                    assert(name_slots(old(self).index).contains_key(old(self).names[i]@));
                }
            }
            assert forall|k: Seq<char>| #[trigger]
                name_slots(self.index).contains_key(k) implies {
                &&& name_slots(self.index)[k] < self.names.len()
                &&& self.names[name_slots(self.index)[k] as int]@ == k
            } by {
                if k != key {
                    assert(name_slots(old(self).index).contains_key(k));
                }
            }
            Self::lemma_pushed(old(self), self, key, value);
        }
    }

    /// Puts `value` in the place of the value of entry `i`.
    pub fn replace(&mut self, i: usize, value: V)
        requires
            old(self).wf(),
            i < old(self).values().len(),
        ensures
            final(self).wf(),
            final(self).names() == old(self).names(),
            final(self).values() == old(self).values().update(i as int, value),
            final(self).map() == old(self).map().insert(old(self).names()[i as int], value),
    {
        proof {
            self.lemma_distinct();
        }
        self.values.set(i, value);
        proof {
            self.lemma_distinct();
            assert(self.map() =~= old(self).map().insert(old(self).names()[i as int], value));
        }
    }

    /// What the table holds after an entry was added at its end.
    pub proof fn lemma_pushed(before: &Self, after: &Self, key: Seq<char>, value: V)
        requires
            before.wf(),
            after.wf(),
            !before.has(key),
            after.names() == before.names().push(key),
            after.values() == before.values().push(value),
        ensures
            after.map() == before.map().insert(key, value),
    {
        before.lemma_distinct();
        after.lemma_distinct();
        let n = before.names().len() as int;
        assert(after.names()[n] == key);
        assert forall|k: Seq<char>| before.has(k) implies after.has(k) && after.position(k)
            == before.position(k) by {
            let p = before.names().index_of(k);
            assert(after.names()[p] == k);
        }
        assert forall|k: Seq<char>| after.has(k) implies k == key || before.has(k) by {
            let p = after.names().index_of(k);
            if p < n {
                assert(before.names()[p] == k);
            }
        }
        assert(after.map() =~= before.map().insert(key, value));
    }
}

/// Entries under distinct type identities, in the order in which they were
/// added.
pub struct TypeTable<V> {
    index: DashMap<TypeId, usize>,
    ids: Vec<TypeId>,
    values: Vec<V>,
}

impl<V> TypeTable<V> {
    /// The index and the vectors agree: entry `i` stands under its own
    /// identity, and every identity of the index leads to its entry.
    pub closed spec fn wf(&self) -> bool {
        &&& self.ids.len() == self.values.len()
        &&& forall|i: int|
            0 <= i < self.ids.len() ==> {
                &&& type_slots(self.index).contains_key(#[trigger] self.ids[i])
                &&& type_slots(self.index)[self.ids[i]] == i
            }
        &&& forall|k: TypeId| #[trigger]
            type_slots(self.index).contains_key(k) ==> {
                &&& type_slots(self.index)[k] < self.ids.len()
                &&& self.ids[type_slots(self.index)[k] as int] == k
            }
    }

    /// The identities, in the order in which they were added.
    pub closed spec fn ids(&self) -> Seq<TypeId> {
        self.ids@
    }

    /// The values, in the order in which they were added.
    pub closed spec fn values(&self) -> Seq<V> {
        self.values@
    }

    /// Whether the table has an entry under `id`.
    pub open spec fn has(&self, id: TypeId) -> bool {
        self.ids().contains(id)
    }

    /// The table as a map from each key to its value.
    pub open spec fn map(&self) -> Map<TypeId, V> {
        Map::new(
            |k: TypeId| self.has(k),
            |k: TypeId| self.values()[self.position(k)],
        )
    }

    /// The position of the entry under `id`.
    pub open spec fn position(&self, id: TypeId) -> int {
        self.ids().index_of(id)
    }

    /// In a well-formed table no identity occurs twice, and there are as many
    /// identities as values.
    pub proof fn lemma_distinct(&self)
        requires
            self.wf(),
        ensures
            self.ids().len() == self.values().len(),
            self.ids().no_duplicates(),
            forall|i: int| 0 <= i < self.ids().len() ==> self.position(#[trigger] self.ids()[i]) == i,
    {
        assert forall|i: int| 0 <= i < self.ids().len() implies self.position(
            #[trigger] self.ids()[i],
        ) == i by {
            let k = self.ids()[i];
            assert(self.ids().contains(k));
            let p = self.ids().index_of(k);
            assert(self.ids()[p] == k);
        }
    }

    /// A table without entries.
    pub fn new() -> (t: Self)
        ensures
            t.wf(),
            t.ids() == Seq::<TypeId>::empty(),
            t.values() == Seq::<V>::empty(),
    {
        TypeTable { index: new_type_slots(), ids: Vec::new(), values: Vec::new() }
    }

    /// The position of the entry under `id`, if there is one.
    pub fn find(&self, id: &TypeId) -> (at: Option<usize>)
        requires
            self.wf(),
        ensures
            match at {
                Some(i) => {
                    &&& self.has(*id)
                    &&& i == self.position(*id)
                    &&& i < self.ids().len()
                    &&& i < self.values().len()
                    &&& self.ids()[i as int] == *id
                },
                None => !self.has(*id),
            },
    {
        let at = get_type_slot(&self.index, id);
        proof {
            self.lemma_distinct();
            match at {
                Some(i) => {
                    assert(self.ids()[i as int] == *id);
                },
                None => {
                    if self.has(*id) {
                        let p = self.ids().index_of(*id);
                        assert(self.ids[p] == *id);
                    }
                },
            }
        }
        at
    }

    /// The value of entry `i`.
    pub fn value_at(&self, i: usize) -> (value: &V)
        requires
            self.wf(),
            i < self.values().len(),
        ensures
            *value == self.values()[i as int],
    {
        &self.values[i]
    }

    /// The value of entry `i`, to be changed in place.
    pub fn value_at_mut(&mut self, i: usize) -> (value: &mut V)
        requires
            old(self).wf(),
            i < old(self).values().len(),
        ensures
            *value == old(self).values()[i as int],
            final(self).wf(),
            final(self).ids() == old(self).ids(),
            final(self).values() == old(self).values().update(i as int, *final(value)),
    {
        &mut self.values[i]
    }

    /// What the table holds after the value of entry `i` was changed.
    pub proof fn lemma_updated(before: &Self, after: &Self, i: int, value: V)
        requires
            before.wf(),
            after.wf(),
            0 <= i < before.values().len(),
            after.ids() == before.ids(),
            after.values() == before.values().update(i, value),
        ensures
            after.map() == before.map().insert(before.ids()[i], value),
    {
        before.lemma_distinct();
        after.lemma_distinct();
        assert(after.map() =~= before.map().insert(before.ids()[i], value));
    }

    /// Adds an entry under an identity that the table does not have yet.
    pub fn add(&mut self, id: TypeId, value: V)
        requires
            old(self).wf(),
            !old(self).has(id),
        ensures
            final(self).wf(),
            final(self).ids() == old(self).ids().push(id),
            final(self).values() == old(self).values().push(value),
            final(self).map() == old(self).map().insert(id, value),
    {
        let at = self.ids.len();
        proof {
            assert(!type_slots(self.index).contains_key(id)) by {
                if type_slots(self.index).contains_key(id) {
                    let p = type_slots(self.index)[id] as int;
                    assert(self.ids()[p] == id);
                }
            }
        }
        let _ = insert_type_slot(&mut self.index, id, at);
        self.ids.push(id);
        self.values.push(value);
        proof {
            assert forall|i: int| 0 <= i < self.ids.len() implies {
                &&& type_slots(self.index).contains_key(#[trigger] self.ids[i])
                &&& type_slots(self.index)[self.ids[i]] == i
            } by {
                if i < at {
                    assert(self.ids[i] == old(self).ids[i]);
                    assert(type_slots(old(self).index).contains_key(old(self).ids[i]));
                }
            }
            assert forall|k: TypeId| #[trigger]
                type_slots(self.index).contains_key(k) implies {
                &&& type_slots(self.index)[k] < self.ids.len()
                &&& self.ids[type_slots(self.index)[k] as int] == k
            } by {
                if k != id {
                    assert(type_slots(old(self).index).contains_key(k));
                }
            }
            Self::lemma_pushed(old(self), self, id, value);
        }
    }

    /// Puts `value` in the place of the value of entry `i`.
    pub fn replace(&mut self, i: usize, value: V)
        requires
            old(self).wf(),
            i < old(self).values().len(),
        ensures
            final(self).wf(),
            final(self).ids() == old(self).ids(),
            final(self).values() == old(self).values().update(i as int, value),
            final(self).map() == old(self).map().insert(old(self).ids()[i as int], value),
    {
        proof {
            self.lemma_distinct();
        }
        self.values.set(i, value);
        proof {
            self.lemma_distinct();
            assert(self.map() =~= old(self).map().insert(old(self).ids()[i as int], value));
        }
    }

    /// What the table holds after an entry was added at its end.
    pub proof fn lemma_pushed(before: &Self, after: &Self, key: TypeId, value: V)
        requires
            before.wf(),
            after.wf(),
            !before.has(key),
            after.ids() == before.ids().push(key),
            after.values() == before.values().push(value),
        ensures
            after.map() == before.map().insert(key, value),
    {
        before.lemma_distinct();
        after.lemma_distinct();
        let n = before.ids().len() as int;
        assert(after.ids()[n] == key);
        assert forall|k: TypeId| before.has(k) implies after.has(k) && after.position(k)
            == before.position(k) by {
            let p = before.ids().index_of(k);
            assert(after.ids()[p] == k);
        }
        assert forall|k: TypeId| after.has(k) implies k == key || before.has(k) by {
            let p = after.ids().index_of(k);
            if p < n {
                assert(before.ids()[p] == k);
            }
        }
        assert(after.map() =~= before.map().insert(key, value));
    }
}

} // verus!
