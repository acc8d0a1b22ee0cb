//! Subprograms found in debug data, by name, by address and by pattern.

use vstd::prelude::*;
use crate::collections::{
    address_index_entries,
    name_index_entries,
    AddressIndex,
    NameIndex,
};
use crate::debug_data::{number, number_of, AttributeValue, DebugEntry, Tag};
use crate::pattern::{compile, is_match, regex_compiles, regex_is_match};

verus! {

/// One function of the analysed program.
#[derive(Debug, PartialEq, Eq)]
pub struct SubProgram {
    pub name: String,
    /// First address of the function and the address after its last.
    pub bounds: (u64, u64),
    /// Source file and line of the declaration.
    pub file: Option<(String, usize)>,
    /// Call site for an inlined sub routine.
    pub call_file: Option<(String, usize)>,
}

impl Clone for SubProgram {
    fn clone(&self) -> (r: Self)
        ensures
            r == *self,
    {
        SubProgram {
            name: self.name.clone(),
            bounds: self.bounds,
            file: match &self.file {
                Some((file, line)) => Some((file.clone(), *line)),
                None => None,
            },
            call_file: match &self.call_file {
                Some((file, line)) => Some((file.clone(), *line)),
                None => None,
            },
        }
    }
}

/// The subprograms of a program, found by name or by start address.
#[derive(Debug)]
pub struct SubProgramMap {
    /// Position in `map` of the subprogram of each name.
    pub index_1: NameIndex,
    /// Position in `map` of the subprogram at each start address.
    pub index_2: AddressIndex,
    /// The subprograms in the order of their insertion.
    pub map: Vec<SubProgram>,
}

impl SubProgramMap {
    /// Both indexes point at subprograms that exist.
    pub open spec fn wf(self) -> bool {
        &&& forall|k: Seq<char>| #[trigger]
            name_index_entries(self.index_1).contains_key(k) ==> name_index_entries(
                self.index_1,
            )[k] < self.map@.len()
        &&& forall|k: u64| #[trigger]
            address_index_entries(self.index_2).contains_key(k) ==> address_index_entries(
                self.index_2,
            )[k] < self.map@.len()
    }

    /// The subprogram of each name.
    pub open spec fn by_name(self) -> Map<Seq<char>, SubProgram> {
        Map::new(
            |k: Seq<char>| name_index_entries(self.index_1).contains_key(k),
            |k: Seq<char>| self.map@[name_index_entries(self.index_1)[k] as int],
        )
    }

    /// The subprogram at each start address.
    pub open spec fn by_address(self) -> Map<u64, SubProgram> {
        Map::new(
            |k: u64| address_index_entries(self.index_2).contains_key(k),
            |k: u64| self.map@[address_index_entries(self.index_2)[k] as int],
        )
    }

    /// A map without subprograms.
    pub fn empty() -> (r: Self)
        ensures
            r.wf(),
            r.map@.len() == 0,
            r.by_name() == Map::<Seq<char>, SubProgram>::empty(),
            r.by_address() == Map::<u64, SubProgram>::empty(),
    {
        let r = SubProgramMap {
            index_1: NameIndex::new(),
            index_2: AddressIndex::new(),
            map: Vec::new(),
        };
        assert(r.by_name() =~= Map::<Seq<char>, SubProgram>::empty());
        assert(r.by_address() =~= Map::<u64, SubProgram>::empty());
        r
    }

    /// Records `value` under `name` and under `address`; an earlier
    /// subprogram of that name or at that address is no longer found by it.
    pub fn insert(&mut self, name: String, address: u64, value: SubProgram)
        requires
            old(self).wf(),
        ensures
            final(self).wf(),
            final(self).by_name() == old(self).by_name().insert(name@, value),
            final(self).by_address() == old(self).by_address().insert(address, value),
    {
        let at: usize = self.map.len();
        self.index_1.insert(name, at as u64);
        self.index_2.insert(address, at as u64);
        self.map.push(value);
        assert(final(self).by_name() =~= old(self).by_name().insert(name@, value));
        assert(final(self).by_address() =~= old(self).by_address().insert(address, value));
    }

    /// The subprogram called `name`.
    pub fn get_by_name(&self, name: &str) -> (r: Option<&SubProgram>)
        requires
            self.wf(),
        ensures
            r == if self.by_name().contains_key(name@) {
                Some(&self.by_name()[name@])
            } else {
                None
            },
    {
        match self.index_1.get(name) {
            Some(at) => {
                let count: usize = self.map.len();
                assert(at < count);
                Some(&self.map[at as usize])
            },
            None => None,
        }
    }

    /// The subprogram that starts at `address`.
    pub fn get_by_address(&self, address: &u64) -> (r: Option<&SubProgram>)
        requires
            self.wf(),
        ensures
            r == if self.by_address().contains_key(*address) {
                Some(&self.by_address()[*address])
            } else {
                None
            },
    {
        match self.index_2.get(*address) {
            Some(at) => {
                let count: usize = self.map.len();
                assert(at < count);
                Some(&self.map[at as usize])
            },
            None => None,
        }
    }

    /// A subprogram whose name the pattern matches: some such subprogram
    /// if there is one, and none if there is not or the pattern is no valid
    /// regular expression. Which one is returned where several names match
    /// is not determined.
    pub fn get_by_regex(&self, pattern: &str) -> (r: Option<&SubProgram>)
        requires
            self.wf(),
        ensures
            match r {
                Some(found) => regex_compiles(pattern@) && exists|name: Seq<char>|
                    #![trigger self.by_name().contains_key(name)]
                    self.by_name().contains_key(name) && regex_is_match(pattern@, name) && *found
                        == self.by_name()[name],
                None => !regex_compiles(pattern@) || forall|name: Seq<char>|
                    #![trigger self.by_name().contains_key(name)]
                    self.by_name().contains_key(name) ==> !regex_is_match(pattern@, name),
            },
    {
        let compiled = match compile(pattern) {
            Some(compiled) => compiled,
            None => {
                return None;
            },
        };
        let names: Vec<(String, u64)> = self.index_1.entries();
        let count: usize = self.map.len();
        let mut i: usize = 0;
        while i < names.len()
            invariant
                self.wf(),
                count == self.map@.len(),
                regex_compiles(pattern@),
                crate::pattern::regex_source(compiled) == pattern@,
                0 <= i <= names@.len(),
                forall|j: int|
                    0 <= j < names@.len() ==> name_index_entries(self.index_1).contains_key(
                        (#[trigger] names@[j]).0@,
                    ) && name_index_entries(self.index_1)[names@[j].0@] == names@[j].1,
                forall|j: int| 0 <= j < i ==> !regex_is_match(pattern@, (#[trigger] names@[j]).0@),
            decreases names@.len() - i,
        {
            if is_match(&compiled, names[i].0.as_str()) {
                let at: u64 = names[i].1;
                assert(self.by_name().contains_key(names@[i as int].0@));
                assert(at < count);
                assert(regex_is_match(pattern@, names@[i as int].0@));
                assert(self.by_name()[names@[i as int].0@] == self.map@[at as int]);
                return Some(&self.map[at as usize]);
            }
            i = i + 1;
        }
        assert forall|name: Seq<char>| #![trigger self.by_name().contains_key(name)]
            self.by_name().contains_key(name) implies !regex_is_match(pattern@, name) by {
            assert(name_index_entries(self.index_1).contains_key(name));
            let j = choose|j: int| 0 <= j < names@.len() && (#[trigger] names@[j]).0@ == name;
        }
        None
    }
}

/// The name of the subprogram that an entry describes: the entry is a
/// subprogram whose name is a string of the string section.
pub open spec fn entry_name(entry: DebugEntry) -> Option<Seq<char>> {
    if entry.tag == Tag::Subprogram {
        match entry.name {
            Some(AttributeValue::DebugStrRef(Some(name))) => Some(name@),
            _ => None,
        }
    } else {
        None
    }
}

/// The address at which the subprogram of an entry starts: its low PC, as
/// an address or as a number.
pub open spec fn entry_start(entry: DebugEntry) -> Option<u64> {
    match entry.low_pc {
        Some(AttributeValue::Addr(v)) => Some(v),
        Some(value) => number_of(value),
        None => None,
    }
}

/// The size of the subprogram of an entry: its high PC where that is a
/// number, and else zero.
pub open spec fn entry_size(entry: DebugEntry) -> u64 {
    match entry.high_pc {
        Some(value) => match number_of(value) {
            Some(v) => v,
            None => 0,
        },
        None => 0,
    }
}

/// The file in which the subprogram of an entry is declared: the text of a
/// string in place, and else the empty text.
pub open spec fn entry_file(entry: DebugEntry) -> Seq<char> {
    match entry.decl_file {
        Some(AttributeValue::String(Some(file))) => file@,
        _ => Seq::empty(),
    }
}

/// The line in which the subprogram of an entry is declared: its line
/// where that is a number, and else zero.
pub open spec fn entry_line(entry: DebugEntry) -> u64 {
    match entry.decl_line {
        Some(value) => match number_of(value) {
            Some(v) => v,
            None => 0,
        },
        None => 0,
    }
}

/// The entry describes a subprogram that the map takes: it has a name and
/// a start.
pub open spec fn taken(entry: DebugEntry) -> bool {
    entry_name(entry) is Some && entry_start(entry) is Some
}

/// The entry can be read: the texts that are looked at are readable, and a
/// subprogram ends inside the address space.
pub open spec fn readable(entry: DebugEntry) -> bool {
    entry.tag == Tag::Subprogram ==> {
        &&& !(entry.name matches Some(AttributeValue::DebugStrRef(None)))
        &&& taken(entry) ==> !(entry.decl_file matches Some(AttributeValue::String(None)))
            && entry_start(entry).unwrap() + entry_size(entry) <= u64::MAX && entry_line(entry)
            <= usize::MAX
    }
}

/// The subprogram is the one that the entry describes.
pub open spec fn describes(program: SubProgram, entry: DebugEntry) -> bool {
    &&& Some(program.name@) == entry_name(entry)
    &&& Some(program.bounds.0) == entry_start(entry)
    &&& program.bounds.1 == program.bounds.0 + entry_size(entry)
    &&& program.file matches Some((file, line)) && file@ == entry_file(entry) && line
        == entry_line(entry)
    &&& program.call_file is None
}

/// The position of the last entry before `upto` that describes a
/// subprogram called `name` which the map takes.
pub open spec fn last_named(entries: Seq<DebugEntry>, name: Seq<char>, upto: int) -> Option<int>
    decreases upto,
{
    if upto <= 0 {
        None
    } else if taken(entries[upto - 1]) && entry_name(entries[upto - 1]) == Some(name) {
        Some(upto - 1)
    } else {
        last_named(entries, name, upto - 1)
    }
}

/// The position of the last entry before `upto` that describes a
/// subprogram starting at `address` which the map takes.
pub open spec fn last_starting(entries: Seq<DebugEntry>, address: u64, upto: int) -> Option<int>
    decreases upto,
{
    if upto <= 0 {
        None
    } else if taken(entries[upto - 1]) && entry_start(entries[upto - 1]) == Some(address) {
        Some(upto - 1)
    } else {
        last_starting(entries, address, upto - 1)
    }
}

/// The map holds the subprograms of the first `upto` entries: under each
/// name and at each start address the subprogram of the last entry with that
/// name or start.
pub open spec fn holds_entries(map: SubProgramMap, entries: Seq<DebugEntry>, upto: int) -> bool {
    &&& forall|name: Seq<char>|
        match #[trigger] last_named(entries, name, upto) {
            Some(i) => map.by_name().contains_key(name) && describes(
                map.by_name()[name],
                entries[i],
            ),
            None => !map.by_name().contains_key(name),
        }
    &&& forall|address: u64|
        match #[trigger] last_starting(entries, address, upto) {
            Some(i) => map.by_address().contains_key(address) && describes(
                map.by_address()[address],
                entries[i],
            ),
            None => !map.by_address().contains_key(address),
        }
}

/// Whether the pattern is a regular expression that matches the name of a
/// subprogram that the map takes from the entries.
pub open spec fn pattern_names_entry(entries: Seq<DebugEntry>, pattern: Seq<char>) -> bool {
    regex_compiles(pattern) && exists|k: int|
        0 <= k < entries.len() && taken(#[trigger] entries[k]) && regex_is_match(
            pattern,
            entry_name(entries[k]).unwrap(),
        )
}

/// An entry before `upto` that the map takes has a last entry of its name
/// before `upto`.
pub proof fn lemma_last_named_exists(entries: Seq<DebugEntry>, k: int, upto: int)
    requires
        0 <= k < upto <= entries.len(),
        taken(entries[k]),
    ensures
        last_named(entries, entry_name(entries[k]).unwrap(), upto) is Some,
    decreases upto,
{
    if !(taken(entries[upto - 1]) && entry_name(entries[upto - 1]) == entry_name(entries[k])) {
        lemma_last_named_exists(entries, k, upto - 1);
    }
}

/// The last entry of a name before `upto` is an entry before `upto` that
/// the map takes and that has the name.
pub proof fn lemma_last_named_is_entry(entries: Seq<DebugEntry>, name: Seq<char>, upto: int)
    requires
        upto <= entries.len(),
        last_named(entries, name, upto) is Some,
    ensures
        ({
            let k = last_named(entries, name, upto).unwrap();
            0 <= k < upto && taken(entries[k]) && entry_name(entries[k]) == Some(name)
        }),
    decreases upto,
{
    if !(taken(entries[upto - 1]) && entry_name(entries[upto - 1]) == Some(name)) {
        lemma_last_named_is_entry(entries, name, upto - 1);
    }
}

/// A pattern finds a subprogram in the map of the entries exactly where it
/// matches the name of a subprogram that the map takes from them.
pub proof fn lemma_pattern_names_entry(
    map: SubProgramMap,
    entries: Seq<DebugEntry>,
    pattern: Seq<char>,
)
    requires
        holds_entries(map, entries, entries.len() as int),
    ensures
        crate::hooks::resolvable(map, pattern) == pattern_names_entry(entries, pattern),
{
    if crate::hooks::resolvable(map, pattern) {
        let name = choose|name: Seq<char>|
            #![trigger map.by_name().contains_key(name)]
            map.by_name().contains_key(name) && regex_is_match(pattern, name);
        assert(last_named(entries, name, entries.len() as int) is Some);
        lemma_last_named_is_entry(entries, name, entries.len() as int);
        let k = last_named(entries, name, entries.len() as int).unwrap();
        assert(taken(entries[k]) && regex_is_match(pattern, entry_name(entries[k]).unwrap()));
    }
    if pattern_names_entry(entries, pattern) {
        let k = choose|k: int|
            0 <= k < entries.len() && taken(#[trigger] entries[k]) && regex_is_match(
                pattern,
                entry_name(entries[k]).unwrap(),
            );
        let name = entry_name(entries[k]).unwrap();
        lemma_last_named_exists(entries, k, entries.len() as int);
        assert(map.by_name().contains_key(name));
    }
}

/// Whether the entry can be read: see [`readable`].
pub fn is_readable(entry: &DebugEntry) -> (r: bool)
    ensures
        r == readable(*entry),
{
    if let Tag::Subprogram = entry.tag {
        let named: bool = match &entry.name {
            Some(AttributeValue::DebugStrRef(None)) => {
                return false;
            },
            Some(AttributeValue::DebugStrRef(Some(_))) => true,
            _ => false,
        };
        let start: Option<u64> = match &entry.low_pc {
            Some(AttributeValue::Addr(v)) => Some(*v),
            Some(value) => number(value),
            None => None,
        };
        if let Some(start) = start {
            if named {
                if let Some(AttributeValue::String(None)) = &entry.decl_file {
                    return false;
                }
                let size: u64 = match &entry.high_pc {
                    Some(value) => match number(value) {
                        Some(v) => v,
                        None => 0,
                    },
                    None => 0,
                };
                let line: u64 = match &entry.decl_line {
                    Some(value) => match number(value) {
                        Some(v) => v,
                        None => 0,
                    },
                    None => 0,
                };
                return size <= u64::MAX - start && line <= usize::MAX as u64;
            }
        }
    }
    true
}

impl SubProgramMap {
    /// The subprograms that the debug entries of a program describe. An
    /// entry is taken where it is a subprogram with a name in the string
    /// section and a low PC that is an address or a number; it spans from
    /// its low PC as many bytes as its high PC says, and is declared in the
    /// file and line that the entry names. Of several entries with one name,
    /// or with one start, the last is found.
    pub fn new(entries: &Vec<DebugEntry>) -> (r: SubProgramMap)
        requires
            forall|i: int| 0 <= i < entries@.len() ==> readable(#[trigger] entries@[i]),
        ensures
            r.wf(),
            holds_entries(r, entries@, entries@.len() as int),
    {
        let mut ret: SubProgramMap = SubProgramMap::empty();
        let mut i: usize = 0;
        while i < entries.len()
            invariant
                0 <= i <= entries@.len(),
                forall|j: int| 0 <= j < entries@.len() ==> readable(#[trigger] entries@[j]),
                ret.wf(),
                holds_entries(ret, entries@, i as int),
            decreases entries@.len() - i,
        {
            let entry: &DebugEntry = &entries[i];
            let ghost before = ret;
            let mut took: bool = false;
            if let Tag::Subprogram = entry.tag {
                if let Some(AttributeValue::DebugStrRef(Some(entry_name))) = &entry.name {
                    let addr: Option<u64> = match &entry.low_pc {
                        Some(AttributeValue::Addr(v)) => Some(*v),
                        Some(value) => number(value),
                        None => None,
                    };
                    if let Some(addr) = addr {
                        let addr_end: u64 = match &entry.high_pc {
                            Some(value) => match number(value) {
                                Some(v) => v,
                                None => 0,
                            },
                            None => 0,
                        };
                        let file: String = match &entry.decl_file {
                            Some(AttributeValue::String(Some(file))) => file.clone(),
                            _ => String::new(),
                        };
                        let line: u64 = match &entry.decl_line {
                            Some(value) => match number(value) {
                                Some(v) => v,
                                None => 0,
                            },
                            None => 0,
                        };
                        let name: String = entry_name.clone();
                        assert(readable(entries@[i as int]));
                        assert(taken(entries@[i as int]));
                        let program = SubProgram {
                            name: name.clone(),
                            bounds: (addr, addr + addr_end),
                            file: Some((file, line as usize)),
                            call_file: None,
                        };
                        assert(describes(program, entries@[i as int]));
                        ret.insert(name, addr, program);
                        took = true;
                    }
                }
            }
            proof {
                let entry = entries@[i as int];
                assert(took == taken(entry));
                assert forall|name: Seq<char>|
                    match #[trigger] last_named(entries@, name, i + 1) {
                        Some(k) => ret.by_name().contains_key(name) && describes(
                            ret.by_name()[name],
                            entries@[k],
                        ),
                        None => !ret.by_name().contains_key(name),
                    } by {
                    let earlier = last_named(entries@, name, i as int);
                    assert(match earlier {
                        Some(k) => before.by_name().contains_key(name) && describes(
                            before.by_name()[name],
                            entries@[k],
                        ),
                        None => !before.by_name().contains_key(name),
                    });
                }
                assert forall|address: u64|
                    match #[trigger] last_starting(entries@, address, i + 1) {
                        Some(k) => ret.by_address().contains_key(address) && describes(
                            ret.by_address()[address],
                            entries@[k],
                        ),
                        None => !ret.by_address().contains_key(address),
                    } by {
                    let earlier = last_starting(entries@, address, i as int);
                    assert(match earlier {
                        Some(k) => before.by_address().contains_key(address) && describes(
                            before.by_address()[address],
                            entries@[k],
                        ),
                        None => !before.by_address().contains_key(address),
                    });
                }
            }
            i = i + 1;
        }
        ret
    }
}

} // verus!
