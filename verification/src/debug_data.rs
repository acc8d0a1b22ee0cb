//! Debug data as plain values: what the engine reads of the entries of the
//! debugging information of a program.

use vstd::prelude::*;

verus! {

/// The kinds of entries that the engine tells apart.
#[derive(Debug, Clone, Copy, PartialEq, Eq, Structural)]
pub enum Tag {
    Subprogram,
    FormalParameter,
    Variable,
    StructureType,
    EnumerationType,
    Member,
    Other,
}

/// What the evaluation of a location expression ends with.
#[derive(Debug, Clone, Copy, PartialEq, Eq, Structural)]
pub enum Piece {
    /// The value lives in the register of this number.
    Register(u16),
    /// The value lives at this address.
    Address(u64),
    /// Anything else.
    Other,
}

/// One entry of a location list.
#[derive(Debug, Clone, Copy, PartialEq, Eq, Structural)]
pub enum RawLocation {
    AddressOrOffsetPair { begin: u64, end: u64 },
    StartEnd { begin: u64, end: u64 },
    /// A pair of entries of the address table, each as the address that the
    /// table holds.
    StartxEndx { begin: u64, end: u64 },
    BaseAddress { addr: u64 },
    StartLength { begin: u64, length: u64 },
    /// A form that the engine does not read.
    Unread,
}

/// The value of an attribute, by its form.
#[derive(Debug)]
pub enum AttributeValue {
    Addr(u64),
    Data1(u8),
    Data2(u16),
    Data4(u32),
    Data8(u64),
    Udata(u64),
    /// A string of the string section; none where the text there is not
    /// readable.
    DebugStrRef(Option<String>),
    /// A string in place; none where the text is not readable.
    String(Option<String>),
    /// A file of the line program: its path name, where the line program
    /// holds the file and its name is a readable string in place.
    FileIndex(Option<String>),
    /// A reference to another entry of the unit: the name of that entry, if
    /// it has one.
    UnitRef(Option<String>),
    /// A location expression: what its evaluation ends with, or nothing
    /// where it does not complete or yields no piece.
    Exprloc(Option<Piece>),
    /// An entry of the address table: the address that the table holds.
    SecOffset(u64),
    /// A location list.
    LocationListsRef(Vec<RawLocation>),
    /// A form that the engine does not read.
    Other,
}

/// What the engine reads of one entry.
#[derive(Debug)]
pub struct DebugEntry {
    pub tag: Tag,
    pub name: Option<AttributeValue>,
    pub low_pc: Option<AttributeValue>,
    pub high_pc: Option<AttributeValue>,
    pub decl_file: Option<AttributeValue>,
    pub decl_line: Option<AttributeValue>,
    pub ty: Option<AttributeValue>,
    pub location: Option<AttributeValue>,
}

/// The number that an attribute of one of the number forms holds.
pub open spec fn number_of(value: AttributeValue) -> Option<u64> {
    match value {
        AttributeValue::Data1(v) => Some(v as u64),
        AttributeValue::Data2(v) => Some(v as u64),
        AttributeValue::Data4(v) => Some(v as u64),
        AttributeValue::Data8(v) => Some(v),
        AttributeValue::Udata(v) => Some(v),
        _ => None,
    }
}

/// The number that an attribute of one of the number forms holds.
pub fn number(value: &AttributeValue) -> (r: Option<u64>)
    ensures
        r == number_of(*value),
{
    match value {
        AttributeValue::Data1(v) => Some(*v as u64),
        AttributeValue::Data2(v) => Some(*v as u64),
        AttributeValue::Data4(v) => Some(*v as u64),
        AttributeValue::Data8(v) => Some(*v),
        AttributeValue::Udata(v) => Some(*v),
        _ => None,
    }
}

} // verus!
