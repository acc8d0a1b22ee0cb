//! Hash tables keyed by name and by address.
//!
//! The two index types hold a `hashbrown::HashMap` whose values are plain
//! numbers; what they hold is known to the verifier only through
//! [`name_index_entries`] and [`address_index_entries`]. The tables built on
//! them keep their values in a vector and the position of each value in an
//! index, so that a lookup is one hash probe and everything else is proved.

use vstd::prelude::*;

verus! {

/// A hash map from names to numbers.
#[verifier::external_body]
#[derive(Debug)]
pub struct NameIndex {
    map: hashbrown::HashMap<String, u64>,
}

/// A hash map from addresses to numbers.
#[verifier::external_body]
#[derive(Debug)]
pub struct AddressIndex {
    map: hashbrown::HashMap<u64, u64>,
}

/// The entries of a name index: each name, as its characters, with its number.
pub uninterp spec fn name_index_entries(index: NameIndex) -> Map<Seq<char>, u64>;

/// The entries of an address index.
pub uninterp spec fn address_index_entries(index: AddressIndex) -> Map<u64, u64>;

impl NameIndex {
    /// `hashbrown::HashMap::new`: a map without entries.
    #[verifier::external_body]
    pub(crate) fn new() -> (r: Self)
        ensures
            name_index_entries(r).dom() == Set::<Seq<char>>::empty(),
    {
        NameIndex { map: hashbrown::HashMap::new() }
    }

    /// `hashbrown::HashMap::insert`: afterwards `key` maps to `value` and
    /// every other name to what it mapped to before.
    #[verifier::external_body]
    pub(crate) fn insert(&mut self, key: String, value: u64)
        ensures
            name_index_entries(*final(self)) == name_index_entries(*old(self)).insert(key@, value),
    {
        self.map.insert(key, value);
    }

    /// `hashbrown::HashMap::get`: the number that `key` maps to, if any.
    #[verifier::external_body]
    pub(crate) fn get(&self, key: &str) -> (r: Option<u64>)
        ensures
            r == if name_index_entries(*self).contains_key(key@) {
                Some(name_index_entries(*self)[key@])
            } else {
                None
            },
    {
        self.map.get(key).copied()
    }

    /// `hashbrown::HashMap::iter`: every entry once, in an order that is
    /// not determined.
    #[verifier::external_body]
    pub(crate) fn entries(&self) -> (r: Vec<(String, u64)>)
        ensures
            forall|i: int|
                0 <= i < r@.len() ==> name_index_entries(*self).contains_key(
                    (#[trigger] r@[i]).0@,
                ) && name_index_entries(*self)[r@[i].0@] == r@[i].1,
            forall|k: Seq<char>| #[trigger]
                name_index_entries(*self).contains_key(k) ==> exists|i: int|
                    0 <= i < r@.len() && (#[trigger] r@[i]).0@ == k,
            forall|i: int, j: int|
                0 <= i < j < r@.len() ==> (#[trigger] r@[i]).0@ != (#[trigger] r@[j]).0@,
    {
        self.map.iter().map(|(k, v)| (k.clone(), *v)).collect()
    }

    /// `Clone::clone` of `hashbrown::HashMap`: a map with the same entries.
    #[verifier::external_body]
    pub(crate) fn duplicate(&self) -> (r: Self)
        ensures
            name_index_entries(r) == name_index_entries(*self),
    {
        NameIndex { map: self.map.clone() }
    }
}

impl AddressIndex {
    /// `hashbrown::HashMap::new`: a map without entries.
    #[verifier::external_body]
    pub(crate) fn new() -> (r: Self)
        ensures
            address_index_entries(r).dom() == Set::<u64>::empty(),
    {
        AddressIndex { map: hashbrown::HashMap::new() }
    }

    /// `hashbrown::HashMap::insert`: afterwards `key` maps to `value` and
    /// every other address to what it mapped to before.
    #[verifier::external_body]
    pub(crate) fn insert(&mut self, key: u64, value: u64)
        ensures
            address_index_entries(*final(self)) == address_index_entries(*old(self)).insert(
                key,
                value,
            ),
    {
        self.map.insert(key, value);
    }

    /// `hashbrown::HashMap::get`: the number that `key` maps to, if any.
    #[verifier::external_body]
    pub(crate) fn get(&self, key: u64) -> (r: Option<u64>)
        ensures
            r == if address_index_entries(*self).contains_key(key) {
                Some(address_index_entries(*self)[key])
            } else {
                None
            },
    {
        self.map.get(&key).copied()
    }
}

/// A table from names to values of any type.
#[derive(Debug)]
pub struct NameTable<V> {
    /// Position in `values` of the value of each name.
    pub index: NameIndex,
    /// The values, in the order in which they came.
    pub values: Vec<V>,
}

/// A table from addresses to values of any type.
#[derive(Debug)]
pub struct AddressTable<V> {
    /// Position in `values` of the value of each address.
    pub index: AddressIndex,
    /// The values, in the order in which they came.
    pub values: Vec<V>,
}

impl<V> NameTable<V> {
    /// Every name points at a value that exists.
    pub open spec fn wf(self) -> bool {
        forall|k: Seq<char>| #[trigger]
            name_index_entries(self.index).contains_key(k) ==> name_index_entries(self.index)[k]
                < self.values@.len()
    }

    /// The table as a map from names to values.
    pub open spec fn entries(self) -> Map<Seq<char>, V> {
        Map::new(
            |k: Seq<char>| name_index_entries(self.index).contains_key(k),
            |k: Seq<char>| self.values@[name_index_entries(self.index)[k] as int],
        )
    }

    /// A table without entries.
    pub fn new() -> (r: Self)
        ensures
            r.wf(),
            r.entries() == Map::<Seq<char>, V>::empty(),
            r.values@.len() == 0,
    {
        let r = NameTable { index: NameIndex::new(), values: Vec::new() };
        assert(r.entries() =~= Map::<Seq<char>, V>::empty());
        r
    }

    /// Gives `key` the value `value`, in place of the one it had, if any.
    pub fn insert(&mut self, key: String, value: V)
        requires
            old(self).wf(),
        ensures
            final(self).wf(),
            final(self).entries() == old(self).entries().insert(key@, value),
            final(self).values@ == old(self).values@.push(value),
    {
        let at: usize = self.values.len();
        self.values.push(value);
        self.index.insert(key, at as u64);
        assert(final(self).entries() =~= old(self).entries().insert(key@, value));
    }

    /// The value of `key`, if it has one.
    pub fn get(&self, key: &str) -> (r: Option<&V>)
        requires
            self.wf(),
        ensures
            r == if self.entries().contains_key(key@) {
                Some(&self.entries()[key@])
            } else {
                None
            },
    {
        match self.index.get(key) {
            Some(at) => {
                let count: usize = self.values.len();
                assert(at < count);
                Some(&self.values[at as usize])
            },
            None => None,
        }
    }
}

impl<V> AddressTable<V> {
    /// Every address points at a value that exists.
    pub open spec fn wf(self) -> bool {
        forall|k: u64| #[trigger]
            address_index_entries(self.index).contains_key(k) ==> address_index_entries(
                self.index,
            )[k] < self.values@.len()
    }

    /// The table as a map from addresses to values.
    pub open spec fn entries(self) -> Map<u64, V> {
        Map::new(
            |k: u64| address_index_entries(self.index).contains_key(k),
            |k: u64| self.values@[address_index_entries(self.index)[k] as int],
        )
    }

    /// A table without entries.
    pub fn new() -> (r: Self)
        ensures
            r.wf(),
            r.entries() == Map::<u64, V>::empty(),
            r.values@.len() == 0,
    {
        let r = AddressTable { index: AddressIndex::new(), values: Vec::new() };
        assert(r.entries() =~= Map::<u64, V>::empty());
        r
    }

    /// Gives `key` the value `value`, in place of the one it had, if any.
    pub fn insert(&mut self, key: u64, value: V)
        requires
            old(self).wf(),
        ensures
            final(self).wf(),
            final(self).entries() == old(self).entries().insert(key, value),
            final(self).values@ == old(self).values@.push(value),
    {
        let at: usize = self.values.len();
        self.values.push(value);
        self.index.insert(key, at as u64);
        assert(final(self).entries() =~= old(self).entries().insert(key, value));
    }

    /// The value of `key`, if it has one.
    pub fn get(&self, key: u64) -> (r: Option<&V>)
        requires
            self.wf(),
        ensures
            r == if self.entries().contains_key(key) {
                Some(&self.entries()[key])
            } else {
                None
            },
    {
        match self.index.get(key) {
            Some(at) => {
                let count: usize = self.values.len();
                assert(at < count);
                Some(&self.values[at as usize])
            },
            None => None,
        }
    }
}

} // verus!
