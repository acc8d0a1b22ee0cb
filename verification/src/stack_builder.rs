//! Builds the tree of scopes from the debug entries of a program.

use vstd::prelude::*;
use crate::debug_data::{AttributeValue, DebugEntry, Piece, RawLocation, Tag};
use crate::error::StackError;
use crate::string_mapping::{
    location_view,
    path_view,
    FunctionMeta,
    FunctionView,
    Location,
    LocationView,
    Member,
    MemberView,
    PathView,
    Scope,
    Stack,
    VariableMeta,
    VariableView,
};

verus! {

/// What an entry describes.
#[derive(Debug)]
pub enum Meta {
    Function(FunctionMeta),
    Argument(VariableMeta),
    Variable(VariableMeta),
}

/// What an entry describes, as a mathematical value.
pub enum MetaView {
    Function(FunctionView),
    Argument(VariableView),
    Variable(VariableView),
}

impl Meta {
    /// What the entry describes, as a mathematical value.
    pub open spec fn view(self) -> MetaView {
        match self {
            Meta::Function(f) => MetaView::Function(f@),
            Meta::Argument(v) => MetaView::Argument(v@),
            Meta::Variable(v) => MetaView::Variable(v@),
        }
    }
}

/// The text of an optional string.
pub open spec fn text_of(text: Option<String>) -> Option<Seq<char>> {
    match text {
        Some(t) => Some(t@),
        None => None,
    }
}

/// The name of an entry can be read: it has none, or a string.
pub open spec fn name_ok(entry: DebugEntry) -> bool {
    match entry.name {
        None => true,
        Some(AttributeValue::DebugStrRef(_)) => true,
        Some(AttributeValue::String(_)) => true,
        Some(_) => false,
    }
}

/// The name of an entry: the text of its name attribute.
pub open spec fn spec_name(entry: DebugEntry) -> Option<Seq<char>> {
    match entry.name {
        Some(AttributeValue::DebugStrRef(text)) => text_of(text),
        Some(AttributeValue::String(text)) => text_of(text),
        _ => None,
    }
}

/// The range of program counters of an entry can be read: its low PC is no
/// unsigned number, and a high PC that is an offset stays inside the address
/// space.
pub open spec fn bound_ok(entry: DebugEntry) -> bool {
    match (entry.low_pc, entry.high_pc) {
        (Some(AttributeValue::Udata(_)), Some(_)) => false,
        (Some(AttributeValue::Addr(low)), Some(AttributeValue::Udata(size))) => low + size
            <= u64::MAX,
        _ => true,
    }
}

/// The range of program counters of an entry: from its low PC, an address,
/// to its high PC, an address or an offset from the low PC.
pub open spec fn spec_pc_bound(entry: DebugEntry) -> Option<(u64, u64)> {
    match (entry.low_pc, entry.high_pc) {
        (Some(AttributeValue::Addr(low)), Some(AttributeValue::Addr(high))) => Some((low, high)),
        (Some(AttributeValue::Addr(low)), Some(AttributeValue::Udata(size))) => Some(
            (low, (low + size) as u64),
        ),
        _ => None,
    }
}

/// The file of an entry can be read: it has none, or a string, or a file of
/// the line program.
pub open spec fn path_ok(entry: DebugEntry) -> bool {
    match entry.decl_file {
        None => true,
        Some(AttributeValue::String(_)) => true,
        Some(AttributeValue::DebugStrRef(_)) => true,
        Some(AttributeValue::FileIndex(_)) => true,
        Some(_) => false,
    }
}

/// The line that a line attribute holds: its number where it is fixed-size
/// data, and else zero.
pub open spec fn spec_line(value: AttributeValue) -> u64 {
    match value {
        AttributeValue::Data1(v) => v as u64,
        AttributeValue::Data2(v) => v as u64,
        AttributeValue::Data4(v) => v as u64,
        AttributeValue::Data8(v) => v,
        _ => 0,
    }
}

/// The place of an entry in the source: its file, with its line where it
/// has one.
pub open spec fn spec_path(entry: DebugEntry) -> PathView {
    let file = match entry.decl_file {
        Some(AttributeValue::String(text)) => text_of(text),
        Some(AttributeValue::DebugStrRef(text)) => text_of(text),
        Some(AttributeValue::FileIndex(text)) => text_of(text),
        _ => None,
    };
    match file {
        Some(name) => Some(
            (
                name,
                match entry.decl_line {
                    Some(value) => Some(spec_line(value)),
                    None => None,
                },
            ),
        ),
        None => None,
    }
}

/// The name of the type of an entry: the name of the entry that its type
/// attribute refers to.
pub open spec fn spec_type(entry: DebugEntry) -> Option<Seq<char>> {
    match entry.ty {
        Some(AttributeValue::UnitRef(text)) => text_of(text),
        _ => None,
    }
}

/// One entry of a location list can be read.
pub open spec fn raw_ok(raw: RawLocation) -> bool {
    match raw {
        RawLocation::Unread => false,
        RawLocation::StartLength { begin, length } => begin + length <= u64::MAX,
        _ => true,
    }
}

/// The range of memory that one entry of a location list names.
pub open spec fn raw_view(raw: RawLocation) -> LocationView {
    match raw {
        RawLocation::AddressOrOffsetPair { begin, end } => LocationView::Memory(begin, end),
        RawLocation::StartEnd { begin, end } => LocationView::Memory(begin, end),
        RawLocation::StartxEndx { begin, end } => LocationView::Memory(begin, end),
        RawLocation::BaseAddress { addr } => LocationView::Memory(addr, addr),
        RawLocation::StartLength { begin, length } => LocationView::Memory(
            begin,
            (begin + length) as u64,
        ),
        RawLocation::Unread => LocationView::Memory(0, 0),
    }
}

/// The location of an entry can be read: where it is a location list, every
/// entry of the list is readable.
pub open spec fn location_ok(entry: DebugEntry) -> bool {
    match entry.location {
        Some(AttributeValue::LocationListsRef(list)) => forall|i: int|
            0 <= i < list@.len() ==> raw_ok(#[trigger] list@[i]),
        _ => true,
    }
}

/// Where the value of an entry lives: in the register, with its number cut
/// to eight bits, or at the address that its location expression ends with;
/// at the address of its entry of the address table; or in the ranges of
/// its location list. An entry without a location has none, and so has one
/// whose location is of any other form.
pub open spec fn spec_location(entry: DebugEntry) -> Option<LocationView> {
    match entry.location {
        Some(AttributeValue::Exprloc(Some(Piece::Register(register)))) => Some(
            LocationView::Register((register % 256) as u8),
        ),
        Some(AttributeValue::Exprloc(Some(Piece::Address(address)))) => Some(
            LocationView::Memory(address, address),
        ),
        Some(AttributeValue::SecOffset(base)) => Some(LocationView::Memory(base, base)),
        Some(AttributeValue::LocationListsRef(list)) => Some(
            LocationView::List(Seq::new(list@.len(), |i: int| raw_view(list@[i]))),
        ),
        _ => None,
    }
}

/// Resolves the name of an entry.
pub fn resolve_name(entry: &DebugEntry) -> (r: Option<String>)
    requires
        name_ok(*entry),
    ensures
        text_of(r) == spec_name(*entry),
{
    match &entry.name {
        Some(AttributeValue::DebugStrRef(Some(text))) => Some(text.clone()),
        Some(AttributeValue::String(Some(text))) => Some(text.clone()),
        _ => None,
    }
}

/// Resolves the range of program counters of an entry.
pub fn resolve_pc_bound(entry: &DebugEntry) -> (r: Option<(u64, u64)>)
    requires
        bound_ok(*entry),
    ensures
        r == spec_pc_bound(*entry),
{
    let low_pc: u64 = match &entry.low_pc {
        Some(AttributeValue::Addr(pc)) => *pc,
        _ => {
            return None;
        },
    };
    let high_pc: u64 = match &entry.high_pc {
        Some(AttributeValue::Addr(pc)) => *pc,
        Some(AttributeValue::Udata(pc)) => low_pc + *pc,
        _ => {
            return None;
        },
    };
    Some((low_pc, high_pc))
}

/// Resolves the place of an entry in the source.
pub fn resolve_path(entry: &DebugEntry) -> (r: Option<(String, Option<u64>)>)
    requires
        path_ok(*entry),
    ensures
        path_view(r) == spec_path(*entry),
{
    let file_name: String = match &entry.decl_file {
        Some(AttributeValue::String(Some(text))) => text.clone(),
        Some(AttributeValue::DebugStrRef(Some(text))) => text.clone(),
        Some(AttributeValue::FileIndex(Some(text))) => text.clone(),
        _ => {
            return None;
        },
    };
    let line: u64 = match &entry.decl_line {
        None => {
            return Some((file_name, None));
        },
        Some(AttributeValue::Data1(line)) => *line as u64,
        Some(AttributeValue::Data2(line)) => *line as u64,
        Some(AttributeValue::Data4(line)) => *line as u64,
        Some(AttributeValue::Data8(line)) => *line,
        Some(_) => 0,
    };
    Some((file_name, Some(line)))
}

/// Resolves the name of the type of an entry.
pub fn resolve_type(entry: &DebugEntry) -> (r: Option<String>)
    ensures
        text_of(r) == spec_type(*entry),
{
    match &entry.ty {
        Some(AttributeValue::UnitRef(Some(text))) => Some(text.clone()),
        _ => None,
    }
}

/// Resolves where the value of an entry lives.
pub fn resolve_location(entry: &DebugEntry) -> (r: Option<Location>)
    requires
        location_ok(*entry),
    ensures
        location_view(r) == spec_location(*entry),
{
    match &entry.location {
        Some(AttributeValue::Exprloc(Some(Piece::Register(register)))) => Some(
            Location::Register((*register % 256) as u8),
        ),
        Some(AttributeValue::Exprloc(Some(Piece::Address(address)))) => Some(
            Location::Memory(*address, *address),
        ),
        Some(AttributeValue::SecOffset(base)) => Some(Location::Memory(*base, *base)),
        Some(AttributeValue::LocationListsRef(list)) => {
            let mut res_locations: Vec<Location> = Vec::new();
            let mut i: usize = 0;
            while i < list.len()
                invariant
                    0 <= i <= list@.len(),
                    forall|j: int| 0 <= j < list@.len() ==> raw_ok(#[trigger] list@[j]),
                    res_locations@.len() == i,
                    forall|j: int|
                        0 <= j < i ==> (#[trigger] res_locations@[j])@ == raw_view(list@[j]),
                decreases list@.len() - i,
            {
                assert(raw_ok(list@[i as int]));
                let new_location: Location = match list[i] {
                    RawLocation::AddressOrOffsetPair { begin, end } => Location::Memory(begin, end),
                    RawLocation::StartEnd { begin, end } => Location::Memory(begin, end),
                    RawLocation::StartxEndx { begin, end } => Location::Memory(begin, end),
                    RawLocation::BaseAddress { addr } => Location::Memory(addr, addr),
                    RawLocation::StartLength { begin, length } => Location::Memory(
                        begin,
                        begin + length,
                    ),
                    RawLocation::Unread => Location::Memory(0, 0),
                };
                res_locations.push(new_location);
                i = i + 1;
            }
            let r = Location::List(res_locations);
            proof {
                let want = Seq::new(list@.len(), |i: int| raw_view(list@[i]));
                assert(r@->List_0 =~= want);
            }
            Some(r)
        },
        _ => None,
    }
}

/// A function entry can be parsed.
pub open spec fn function_ok(entry: DebugEntry) -> bool {
    &&& name_ok(entry)
    &&& spec_name(entry) is Some ==> bound_ok(entry) && (spec_pc_bound(entry) is Some ==> path_ok(
        entry,
    ))
}

/// The function that an entry describes: it must have a name and a range
/// of program counters.
pub open spec fn spec_function(entry: DebugEntry) -> Option<FunctionView> {
    match (spec_name(entry), spec_pc_bound(entry)) {
        (Some(name), Some(pc_bound)) => Some(
            FunctionView { name, pc_bound, path: spec_path(entry) },
        ),
        _ => None,
    }
}

/// A variable or argument entry can be parsed.
pub open spec fn variable_ok(entry: DebugEntry) -> bool {
    &&& name_ok(entry)
    &&& spec_name(entry) is Some ==> path_ok(entry) && location_ok(entry)
}

/// The variable that an entry describes: it must have a name; a type
/// without a name is the empty text.
pub open spec fn spec_variable(entry: DebugEntry) -> Option<VariableView> {
    match spec_name(entry) {
        Some(name) => Some(
            VariableView {
                name,
                path: spec_path(entry),
                ty: match spec_type(entry) {
                    Some(ty) => ty,
                    None => Seq::empty(),
                },
                location: spec_location(entry),
            },
        ),
        None => None,
    }
}

/// The argument that an entry describes: it must have a name and a type
/// with a name.
pub open spec fn spec_argument(entry: DebugEntry) -> Option<VariableView> {
    match (spec_name(entry), spec_type(entry)) {
        (Some(name), Some(ty)) => Some(
            VariableView { name, path: spec_path(entry), ty, location: spec_location(entry) },
        ),
        _ => None,
    }
}

/// An entry can be parsed as what its tag says.
pub open spec fn entry_ok(entry: DebugEntry) -> bool {
    match entry.tag {
        Tag::Subprogram => function_ok(entry),
        Tag::FormalParameter | Tag::Variable => variable_ok(entry),
        Tag::StructureType | Tag::Member => name_ok(entry),
        _ => true,
    }
}

/// What an entry describes, by its tag. Structures and enumerations
/// describe nothing that is kept.
pub open spec fn spec_meta(entry: DebugEntry) -> Result<MetaView, StackError> {
    match entry.tag {
        Tag::Subprogram => match spec_function(entry) {
            Some(f) => Ok(MetaView::Function(f)),
            None => Err(StackError::InvalidFunction),
        },
        Tag::FormalParameter => match spec_argument(entry) {
            Some(v) => Ok(MetaView::Argument(v)),
            None => Err(StackError::InvalidArgument),
        },
        Tag::Variable => match spec_variable(entry) {
            Some(v) => Ok(MetaView::Variable(v)),
            None => Err(StackError::InvalidVariable),
        },
        Tag::StructureType => Err(StackError::InvalidVariable),
        Tag::EnumerationType => Err(StackError::InvalidVariable),
        _ => Err(StackError::UnsupportedTag),
    }
}

impl Meta {
    /// The function that an entry describes.
    pub fn parse_function(entry: &DebugEntry) -> (r: Option<Self>)
        requires
            function_ok(*entry),
        ensures
            match r {
                Some(meta) => spec_function(*entry) matches Some(f) && meta@
                    == MetaView::Function(f),
                None => spec_function(*entry) is None,
            },
    {
        // We must have a name for the function, a lot of the other meta
        // data is optional.
        let name: String = match resolve_name(entry) {
            Some(name) => name,
            None => {
                return None;
            },
        };
        // Without the range of program counters where the function is valid
        // it is of no use.
        let pc_bound: (u64, u64) = match resolve_pc_bound(entry) {
            Some(pc_bound) => pc_bound,
            None => {
                return None;
            },
        };
        let path = resolve_path(entry);
        Some(Meta::Function(FunctionMeta { name, pc_bound, path }))
    }

    /// The variable that an entry describes.
    pub fn parse_variable(entry: &DebugEntry) -> (r: Option<Self>)
        requires
            variable_ok(*entry),
        ensures
            match r {
                Some(meta) => spec_variable(*entry) matches Some(v) && meta@
                    == MetaView::Variable(v),
                None => spec_variable(*entry) is None,
            },
    {
        let name: String = match resolve_name(entry) {
            Some(name) => name,
            None => {
                return None;
            },
        };
        let path = resolve_path(entry);
        let location = resolve_location(entry);
        let ty: String = match resolve_type(entry) {
            Some(ty) => ty,
            None => String::new(),
        };
        Some(Meta::Variable(VariableMeta { name, path, ty, location }))
    }

    /// The argument that an entry describes.
    pub fn parse_argument(entry: &DebugEntry) -> (r: Option<Self>)
        requires
            variable_ok(*entry),
        ensures
            match r {
                Some(meta) => spec_argument(*entry) matches Some(v) && meta@
                    == MetaView::Argument(v),
                None => spec_argument(*entry) is None,
            },
    {
        let name: String = match resolve_name(entry) {
            Some(name) => name,
            None => {
                return None;
            },
        };
        let path = resolve_path(entry);
        let location = resolve_location(entry);
        let ty: String = match resolve_type(entry) {
            Some(ty) => ty,
            None => {
                return None;
            },
        };
        Some(Meta::Argument(VariableMeta { name, path, ty, location }))
    }

    /// What an entry describes, by its tag.
    pub fn try_from(entry: &DebugEntry) -> (r: Result<Self, StackError>)
        requires
            entry_ok(*entry),
        ensures
            match r {
                Ok(meta) => spec_meta(*entry) == Ok::<MetaView, StackError>(meta@),
                Err(e) => spec_meta(*entry) == Err::<MetaView, StackError>(e),
            },
    {
        match entry.tag {
            Tag::Subprogram => match Self::parse_function(entry) {
                Some(func) => Ok(func),
                None => Err(StackError::InvalidFunction),
            },
            Tag::FormalParameter => match Self::parse_argument(entry) {
                Some(func) => Ok(func),
                None => Err(StackError::InvalidArgument),
            },
            Tag::Variable => match Self::parse_variable(entry) {
                Some(func) => Ok(func),
                None => Err(StackError::InvalidVariable),
            },
            Tag::StructureType => Err(StackError::InvalidVariable),
            Tag::EnumerationType => Err(StackError::InvalidVariable),
            _ => Err(StackError::UnsupportedTag),
        }
    }
}

impl Scope {
    /// The scope of a function with nothing nested or declared in it.
    pub open spec fn leaf(meta: FunctionView) -> Scope {
        Scope {
            lower_bound: meta.pc_bound.0,
            upper_bound: meta.pc_bound.1,
            nested: Seq::empty(),
            members: Seq::empty(),
            meta,
        }
    }

    /// The scope of the whole program, with nothing nested or declared in
    /// it.
    pub open spec fn root() -> Scope {
        Scope {
            lower_bound: 0,
            upper_bound: u64::MAX,
            nested: Seq::empty(),
            members: Seq::empty(),
            meta: FunctionView { name: "global scope"@, pc_bound: (0, 0), path: None },
        }
    }

    /// Whether the range of the scope holds `bound`.
    pub open spec fn covers(self, bound: (u64, u64)) -> bool {
        self.lower_bound <= bound.0 && self.upper_bound >= bound.1
    }

    /// The position of the first nested scope from `from` on whose range
    /// holds `bound` with room on both sides.
    pub open spec fn host_from(self, bound: (u64, u64), from: int) -> Option<int>
        decreases self.nested.len() - from,
    {
        if from < 0 || from >= self.nested.len() {
            None
        } else if self.nested[from].lower_bound < bound.0 && self.nested[from].upper_bound
            > bound.1 {
            Some(from)
        } else {
            self.host_from(bound, from + 1)
        }
    }

    /// The scope with a scope for the function `meta` added: inside the
    /// first nested scope that holds the range of the function with room,
    /// and, where there is none, as the last nested scope.
    pub open spec fn with_function(self, meta: FunctionView) -> Scope
        decreases self,
    {
        match self.host_from(meta.pc_bound, 0) {
            Some(i) => if 0 <= i < self.nested.len() {
                Scope { nested: self.nested.update(i, self.nested[i].with_function(meta)), ..self }
            } else {
                self
            },
            None => Scope { nested: self.nested.push(Scope::leaf(meta)), ..self },
        }
    }

    /// The way to the scope that [`Scope::with_function`] adds: the
    /// position to take among the nested scopes, level by level.
    pub open spec fn way_to_new(self, meta: FunctionView) -> Seq<usize>
        decreases self,
    {
        match self.host_from(meta.pc_bound, 0) {
            Some(i) => if 0 <= i < self.nested.len() {
                seq![i as usize] + self.nested[i].way_to_new(meta)
            } else {
                Seq::empty()
            },
            None => seq![self.nested.len() as usize],
        }
    }

    /// The scope with `member` added to the scope at the end of the way
    /// `way`; nothing changes where the way leads nowhere.
    pub open spec fn with_member(self, way: Seq<usize>, member: MemberView) -> Scope
        decreases way.len(),
    {
        if way.len() == 0 {
            Scope { members: self.members.push(member), ..self }
        } else if way[0] < self.nested.len() {
            Scope {
                nested: self.nested.update(
                    way[0] as int,
                    self.nested[way[0] as int].with_member(way.skip(1), member),
                ),
                ..self
            }
        } else {
            self
        }
    }
}

/// The tree of scopes while the entries are read: the tree so far, and the
/// way to the scope that takes the members that follow, if there is one.
pub struct Scan {
    pub scope: Scope,
    pub current: Option<Seq<usize>>,
}

/// What one entry does to the tree: a function gets a scope, which takes
/// the members that follow; an argument or a variable joins the current
/// scope, if there is one; a function that cannot be read leaves no current
/// scope; anything else changes nothing.
pub open spec fn step(scan: Scan, entry: DebugEntry) -> Scan {
    match spec_meta(entry) {
        Ok(MetaView::Function(f)) => Scan {
            scope: scan.scope.with_function(f),
            current: Some(scan.scope.way_to_new(f)),
        },
        Ok(MetaView::Argument(v)) => match scan.current {
            Some(way) => Scan {
                scope: scan.scope.with_member(way, MemberView::Argument(v)),
                ..scan
            },
            None => scan,
        },
        Ok(MetaView::Variable(v)) => match scan.current {
            Some(way) => Scan {
                scope: scan.scope.with_member(way, MemberView::Variable(v)),
                ..scan
            },
            None => scan,
        },
        Err(StackError::InvalidFunction) => Scan { current: None, ..scan },
        Err(_) => scan,
    }
}

/// The position behind what a structure with a name takes with it: the
/// members that follow it, and the entry behind them.
pub open spec fn after_structure(entries: Seq<DebugEntry>, from: int) -> int
    decreases entries.len() - from,
{
    if from < 0 || from >= entries.len() {
        entries.len() as int
    } else if entries[from].tag == Tag::Member {
        after_structure(entries, from + 1)
    } else {
        from + 1
    }
}

/// The members that follow a structure can be read.
pub open spec fn members_ok(entries: Seq<DebugEntry>, from: int) -> bool
    decreases entries.len() - from,
{
    if from < 0 || from >= entries.len() {
        true
    } else if entries[from].tag == Tag::Member {
        name_ok(entries[from]) && members_ok(entries, from + 1)
    } else {
        true
    }
}

/// The entries of a unit from `from` on can be read.
pub open spec fn unit_ok(entries: Seq<DebugEntry>, from: int) -> bool
    decreases entries.len() - from,
{
    if from < 0 || from >= entries.len() {
        true
    } else if entries[from].tag == Tag::StructureType {
        name_ok(entries[from]) && if spec_name(entries[from]) is Some {
            let next = after_structure(entries, from + 1);
            members_ok(entries, from + 1) && if from < next <= entries.len() {
                unit_ok(entries, next)
            } else {
                true
            }
        } else {
            unit_ok(entries, from + 1)
        }
    } else {
        entry_ok(entries[from]) && unit_ok(entries, from + 1)
    }
}

/// The tree after the entries of a unit from `from` on were read.
pub open spec fn scan_unit(scan: Scan, entries: Seq<DebugEntry>, from: int) -> Scan
    decreases entries.len() - from,
{
    if from < 0 || from >= entries.len() {
        scan
    } else if entries[from].tag == Tag::StructureType && spec_name(entries[from]) is Some {
        let next = after_structure(entries, from + 1);
        if from < next <= entries.len() {
            scan_unit(scan, entries, next)
        } else {
            scan
        }
    } else {
        scan_unit(step(scan, entries[from]), entries, from + 1)
    }
}

/// The tree after the units from `from` on were read, one after the other.
pub open spec fn scan_units(scan: Scan, units: Seq<Vec<DebugEntry>>, from: int) -> Scan
    decreases units.len() - from,
{
    if from < 0 || from >= units.len() {
        scan
    } else {
        scan_units(scan_unit(scan, units[from]@, 0), units, from + 1)
    }
}

/// What a structure takes with it ends behind its start and inside the
/// unit.
pub proof fn lemma_after_structure_bounds(entries: Seq<DebugEntry>, from: int)
    requires
        0 <= from <= entries.len(),
    ensures
        from <= after_structure(entries, from) <= entries.len(),
        from < entries.len() ==> from < after_structure(entries, from),
    decreases entries.len() - from,
{
    if from < entries.len() && entries[from].tag == Tag::Member {
        lemma_after_structure_bounds(entries, from + 1);
    }
}

impl Stack {
    /// The scope for the function `meta` is added where its range is
    /// nested most tightly, and the way to it is appended to `way`. Returns
    /// whether the range of this scope holds that of the function; nothing
    /// changes where it does not.
    pub fn get_tightest_fit(&mut self, meta: FunctionMeta, way: &mut Vec<usize>) -> (r: bool)
        ensures
            r == old(self)@.covers(meta.pc_bound),
            r ==> final(self)@ == old(self)@.with_function(meta@) && final(way)@ == old(way)@
                + old(self)@.way_to_new(meta@),
            !r ==> final(self)@ == old(self)@ && final(way)@ == old(way)@,
        decreases *old(self),
    {
        if !(self.lower_bound <= meta.pc_bound.0 && self.upper_bound >= meta.pc_bound.1) {
            return false;
        }
        let ghost before = self@;
        let mut idx: usize = 0;
        while idx < self.stack.len() && !(self.stack[idx].lower_bound < meta.pc_bound.0
            && self.stack[idx].upper_bound > meta.pc_bound.1)
            invariant
                0 <= idx <= self.stack@.len(),
                *self == *old(self),
                self@ == before,
                before.host_from(meta.pc_bound, idx as int) == before.host_from(meta.pc_bound, 0),
            decreases self.stack@.len() - idx,
        {
            assert(before.nested[idx as int] == self.stack@[idx as int]@);
            idx = idx + 1;
        }
        if idx < self.stack.len() {
            // The function lies inside this nested scope, so it is added
            // there.
            assert(before.nested[idx as int] == self.stack@[idx as int]@);
            assert(before.host_from(meta.pc_bound, idx as int) == Some(idx as int));
            way.push(idx);
            let ghost child = self.stack@[idx as int];
            let ghost pushed = way@;
            let ghost function = meta@;
            let inside: bool = self.stack[idx].get_tightest_fit(meta, way);
            proof {
                assert(inside);
                assert(self@.nested =~= before.nested.update(
                    idx as int,
                    child@.with_function(function),
                ));
                assert(self@.members =~= before.members);
                assert(way@ =~= old(way)@ + (seq![idx] + child@.way_to_new(function)));
            }
            return true;
        }
        // No nested scope holds the function, so it becomes a new one.
        let ghost function = meta@;
        let at: usize = self.stack.len();
        self.stack.push(
            Stack {
                lower_bound: meta.pc_bound.0,
                upper_bound: meta.pc_bound.1,
                stack: Vec::new(),
                members: Vec::new(),
                meta,
            },
        );
        way.push(at);
        proof {
            assert(before.host_from(function.pc_bound, 0) is None);
            let added = self.stack@[at as int];
            assert(added@.nested =~= Seq::<Scope>::empty());
            assert(added@.members =~= Seq::<MemberView>::empty());
            assert(added@ == Scope::leaf(function));
            assert(self@.nested =~= before.nested.push(Scope::leaf(function)));
            assert(self@.members =~= before.members);
            assert(way@ =~= old(way)@ + seq![at]);
        }
        true
    }

    /// Adds `member` to the scope at the end of the way `way` from
    /// position `depth` on; nothing changes where the way leads nowhere.
    pub fn add_member(&mut self, way: &Vec<usize>, depth: usize, member: Member)
        requires
            depth <= way@.len(),
        ensures
            final(self)@ == old(self)@.with_member(
                way@.subrange(depth as int, way@.len() as int),
                member@,
            ),
        decreases way@.len() - depth,
    {
        let ghost before = self@;
        let ghost rest = way@.subrange(depth as int, way@.len() as int);
        if depth >= way.len() {
            let ghost added = member@;
            self.members.push(member);
            proof {
                assert(self@.members =~= before.members.push(added));
                assert(self@.nested =~= before.nested);
            }
        } else {
            let at: usize = way[depth];
            assert(rest[0] == at);
            if at < self.stack.len() {
                let ghost child = self.stack@[at as int];
                let ghost added = member@;
                assert(before.nested[at as int] == child@);
                self.stack[at].add_member(way, depth + 1, member);
                proof {
                    assert(rest.skip(1) =~= way@.subrange(depth + 1, way@.len() as int));
                    assert(self@.nested =~= before.nested.update(
                        at as int,
                        child@.with_member(rest.skip(1), added),
                    ));
                    assert(self@.members =~= before.members);
                }
            }
        }
    }
}

/// The way as a mathematical value.
pub open spec fn way_view(way: Option<Vec<usize>>) -> Option<Seq<usize>> {
    match way {
        Some(w) => Some(w@),
        None => None,
    }
}

/// The position behind what a structure at the position before `from`
/// takes with it.
fn skip_structure(entries: &Vec<DebugEntry>, from: usize) -> (r: usize)
    requires
        from <= entries@.len(),
    ensures
        r == after_structure(entries@, from as int),
        from <= r <= entries@.len(),
{
    proof {
        lemma_after_structure_bounds(entries@, from as int);
    }
    let mut j: usize = from;
    while j < entries.len() && is_member(&entries[j])
        invariant
            from <= j <= entries@.len(),
            after_structure(entries@, j as int) == after_structure(entries@, from as int),
        decreases entries@.len() - j,
    {
        j = j + 1;
    }
    if j < entries.len() {
        j + 1
    } else {
        j
    }
}

/// Whether the entry is a member of a structure.
fn is_member(entry: &DebugEntry) -> (r: bool)
    ensures
        r == (entry.tag == Tag::Member),
{
    match entry.tag {
        Tag::Member => true,
        _ => false,
    }
}

/// Whether the entry is a structure.
fn is_structure(entry: &DebugEntry) -> (r: bool)
    ensures
        r == (entry.tag == Tag::StructureType),
{
    match entry.tag {
        Tag::StructureType => true,
        _ => false,
    }
}

impl Stack {
    /// The tree of scopes of a program, from the entries of its debugging
    /// information, unit by unit.
    ///
    /// Every function with a name and a range of program counters gets a
    /// scope, nested in the scopes that hold its range with room; the
    /// arguments and variables that follow it are declared in its scope. A
    /// function without a name or range takes no members, and what follows
    /// it is declared nowhere. A structure with a name takes the members
    /// that follow it, and the entry behind them, with it: they are not
    /// looked at.
    pub fn try_from(units: &Vec<Vec<DebugEntry>>) -> (r: Result<Stack, StackError>)
        requires
            forall|u: int| 0 <= u < units@.len() ==> unit_ok((#[trigger] units@[u])@, 0),
        ensures
            r matches Ok(stack) && stack@ == scan_units(
                Scan { scope: Scope::root(), current: None },
                units@,
                0,
            ).scope,
    {
        let mut stack = Stack {
            lower_bound: 0,
            upper_bound: u64::MAX,
            stack: Vec::new(),
            members: Vec::new(),
            meta: FunctionMeta { name: "global scope".to_owned(), pc_bound: (0, 0), path: None },
        };
        let mut current: Option<Vec<usize>> = None;
        let ghost goal = scan_units(Scan { scope: Scope::root(), current: None }, units@, 0);
        proof {
            assert(stack@.nested =~= Seq::<Scope>::empty());
            assert(stack@.members =~= Seq::<MemberView>::empty());
            assert(stack@ == Scope::root());
        }
        let mut u: usize = 0;
        while u < units.len()
            invariant
                0 <= u <= units@.len(),
                forall|k: int| 0 <= k < units@.len() ==> unit_ok((#[trigger] units@[k])@, 0),
                stack@.lower_bound == 0,
                stack@.upper_bound == u64::MAX,
                scan_units(Scan { scope: stack@, current: way_view(current) }, units@, u as int)
                    == goal,
            decreases units@.len() - u,
        {
            let entries: &Vec<DebugEntry> = &units[u];
            assert(unit_ok(units@[u as int]@, 0));
            let mut i: usize = 0;
            while i < entries.len()
                invariant
                    0 <= i <= entries@.len(),
                    0 <= u < units@.len(),
                    *entries == units@[u as int],
                    unit_ok(entries@, i as int),
                    stack@.lower_bound == 0,
                    stack@.upper_bound == u64::MAX,
                    scan_units(
                        scan_unit(
                            Scan { scope: stack@, current: way_view(current) },
                            entries@,
                            i as int,
                        ),
                        units@,
                        u + 1,
                    ) == goal,
                decreases entries@.len() - i,
            {
                let entry: &DebugEntry = &entries[i];
                let ghost scan = Scan { scope: stack@, current: way_view(current) };
                if is_structure(entry) {
                    if resolve_name(entry).is_some() {
                        proof {
                            lemma_after_structure_bounds(entries@, i + 1);
                        }
                        i = skip_structure(entries, i + 1);
                    } else {
                        assert(step(scan, *entry) == scan);
                        i = i + 1;
                    }
                } else {
                    match Meta::try_from(entry) {
                        Ok(Meta::Function(func)) => {
                            let mut way: Vec<usize> = Vec::new();
                            let ghost function = func@;
                            let fits: bool = stack.get_tightest_fit(func, &mut way);
                            proof {
                                assert(fits);
                                assert(way@ =~= scan.scope.way_to_new(function));
                            }
                            current = Some(way);
                        },
                        Ok(Meta::Argument(arg)) => {
                            if let Some(way) = &current {
                                assert(way@.subrange(0, way@.len() as int) =~= way@);
                                stack.add_member(way, 0, Member::Argument(arg));
                            }
                        },
                        Ok(Meta::Variable(var)) => {
                            if let Some(way) = &current {
                                assert(way@.subrange(0, way@.len() as int) =~= way@);
                                stack.add_member(way, 0, Member::Variable(var));
                            }
                        },
                        Err(StackError::InvalidFunction) => {
                            current = None;
                        },
                        Err(_) => {},
                    }
                    assert(Scan { scope: stack@, current: way_view(current) } == step(
                        scan,
                        *entry,
                    ));
                    i = i + 1;
                }
            }
            u = u + 1;
        }
        Ok(stack)
    }
}

/// Whether the name of the entry can be read.
pub fn is_name_ok(entry: &DebugEntry) -> (r: bool)
    ensures
        r == name_ok(*entry),
{
    match &entry.name {
        None => true,
        Some(AttributeValue::DebugStrRef(_)) => true,
        Some(AttributeValue::String(_)) => true,
        Some(_) => false,
    }
}

/// Whether the range of program counters of the entry can be read.
pub fn is_bound_ok(entry: &DebugEntry) -> (r: bool)
    ensures
        r == bound_ok(*entry),
{
    match (&entry.low_pc, &entry.high_pc) {
        (Some(AttributeValue::Udata(_)), Some(_)) => false,
        (Some(AttributeValue::Addr(low)), Some(AttributeValue::Udata(size))) => *size <= u64::MAX
            - *low,
        _ => true,
    }
}

/// Whether the file of the entry can be read.
pub fn is_path_ok(entry: &DebugEntry) -> (r: bool)
    ensures
        r == path_ok(*entry),
{
    match &entry.decl_file {
        None => true,
        Some(AttributeValue::String(_)) => true,
        Some(AttributeValue::DebugStrRef(_)) => true,
        Some(AttributeValue::FileIndex(_)) => true,
        Some(_) => false,
    }
}

/// Whether the location of the entry can be read.
#[verifier::loop_isolation(false)]
pub fn is_location_ok(entry: &DebugEntry) -> (r: bool)
    ensures
        r == location_ok(*entry),
{
    match &entry.location {
        Some(AttributeValue::LocationListsRef(list)) => {
            let mut i: usize = 0;
            while i < list.len()
                invariant
                    0 <= i <= list@.len(),
                    forall|j: int| 0 <= j < i ==> raw_ok(#[trigger] list@[j]),
                decreases list@.len() - i,
            {
                let fine: bool = match list[i] {
                    RawLocation::Unread => false,
                    RawLocation::StartLength { begin, length } => length <= u64::MAX - begin,
                    _ => true,
                };
                if !fine {
                    assert(!raw_ok(list@[i as int]));
                    return false;
                }
                i = i + 1;
            }
            true
        },
        _ => true,
    }
}

/// Whether the entry can be parsed as what its tag says.
pub fn is_entry_ok(entry: &DebugEntry) -> (r: bool)
    ensures
        r == entry_ok(*entry),
{
    match entry.tag {
        Tag::Subprogram => {
            if !is_name_ok(entry) {
                return false;
            }
            if resolve_name(entry).is_none() {
                return true;
            }
            if !is_bound_ok(entry) {
                return false;
            }
            if resolve_pc_bound(entry).is_none() {
                return true;
            }
            is_path_ok(entry)
        },
        Tag::FormalParameter | Tag::Variable => {
            if !is_name_ok(entry) {
                return false;
            }
            if resolve_name(entry).is_none() {
                return true;
            }
            is_path_ok(entry) && is_location_ok(entry)
        },
        Tag::StructureType | Tag::Member => is_name_ok(entry),
        _ => true,
    }
}

/// Whether the entries of a unit can be read: see [`unit_ok`].
#[verifier::loop_isolation(false)]
pub fn is_unit_ok(entries: &Vec<DebugEntry>) -> (r: bool)
    ensures
        r == unit_ok(entries@, 0),
{
    let mut i: usize = 0;
    while i < entries.len()
        invariant
            0 <= i <= entries@.len(),
            unit_ok(entries@, 0) == unit_ok(entries@, i as int),
        decreases entries@.len() - i,
    {
        let entry: &DebugEntry = &entries[i];
        if is_structure(entry) {
            if !is_name_ok(entry) {
                return false;
            }
            if resolve_name(entry).is_some() {
                proof {
                    lemma_after_structure_bounds(entries@, i + 1);
                }
                let mut j: usize = i + 1;
                while j < entries.len() && is_member(&entries[j])
                    invariant
                        i < j <= entries@.len(),
                        members_ok(entries@, i + 1) == members_ok(entries@, j as int),
                        after_structure(entries@, i + 1) == after_structure(entries@, j as int),
                    decreases entries@.len() - j,
                {
                    if !is_name_ok(&entries[j]) {
                        assert(!members_ok(entries@, j as int));
                        return false;
                    }
                    j = j + 1;
                }
                i = if j < entries.len() {
                    j + 1
                } else {
                    j
                };
            } else {
                i = i + 1;
            }
        } else {
            if !is_entry_ok(entry) {
                return false;
            }
            i = i + 1;
        }
    }
    true
}

} // verus!
