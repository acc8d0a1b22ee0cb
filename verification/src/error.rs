//! Error kinds of the engine, one enum per component.

use vstd::prelude::*;

verus! {

/// Failures of the byte-addressable memory.
#[derive(Debug, Clone, PartialEq, Eq)]
pub enum MemoryError {
    /// A constant address lies outside what the program image holds.
    OutOfBounds,
    /// The width of an access does not fit the data at hand.
    InconsistentWidth,
}

/// Failures reported by a solver backend.
#[derive(Debug, Clone, PartialEq, Eq)]
pub enum SolverError {
    /// The backend failed for a reason of its own.
    Unknown,
    /// An unsatisfiable core was asked of a satisfiable formula.
    SatFailedUnsatCore,
    /// An expression could not be handed to the backend.
    Translation,
}

/// Failures while a program image is put together.
#[derive(Debug, Clone, PartialEq, Eq)]
pub enum ProjectError {
    /// The binary is no readable ELF image; holds what was being read.
    UnableToParseElf(String),
    /// A section that the engine needs is absent; holds its name.
    MissingSection(String),
    /// A section is present but cannot be read.
    MalformedSection,
}

/// Failures while an instruction is decoded.
#[derive(Debug, PartialEq, Eq)]
pub enum ParseError {
    /// Input not long enough for an instruction.
    InsufficientInput,
    /// 32 bit instruction not long enough.
    MalfromedInstruction,
    /// Opcode not matching valid 32 bit instruction.
    InvalidInstruction,
    /// This instruction causes unpredictable behaviour.
    Unpredictable,
    /// Trying to access an invalid register.
    InvalidRegister,
    /// Invalid condition code used.
    InvalidCondition,
    /// A generic parsing error.
    Generic(String),
}

/// General architecture related errors.
#[derive(Debug, PartialEq, Eq)]
pub enum ArchError {
    /// An unsupported architecture was requested.
    UnsuportedArchitechture,
    /// The file is no ELF image of the expected class.
    IncorrectFileType,
    /// A field of the binary is malformed.
    MalformedSection,
    /// A required section does not exist in the binary.
    MissingSection(String),
    /// Another component failed in a way that has no variant here.
    ImplementorStringError(String),
    /// Instruction parsing failed.
    ParsingError(ParseError),
}

/// Errors that end a run or a path.
#[derive(Debug, Clone, PartialEq, Eq)]
pub enum GAError {
    ProjectError(ProjectError),
    MemoryError(MemoryError),
    /// The entry function, or a function a hook was asked for, is unknown.
    EntryFunctionNotFound(String),
    /// A write went to an address inside the program image.
    WritingToStaticMemoryProhibited,
    /// The program counter has no single concrete value.
    NonDeterministicPC,
    CouldNotOpenFile(String),
    SolverError(SolverError),
    ArchError(ArchError),
}

/// The general error that the errors of the specific executors convert to.
#[derive(Debug, Clone, PartialEq, Eq)]
pub enum ExecutorError {
    Abort(i64),
    SolverError(SolverError),
    MemoryError(MemoryError),
    Other(String),
}

/// Failures while scope information is read from debug data.
#[derive(Debug, Clone, Copy, PartialEq, Eq, Structural)]
pub enum StackError {
    ErrorWhenLoadingUnits,
    InvalidUnitHeader,
    ErrorWhenLoadingEntries,
    UnsupportedTag,
    InvalidFunction,
    InvalidArgument,
    InvalidVariable,
}

impl Clone for ParseError {
    fn clone(&self) -> (r: Self)
        ensures
            r == *self,
    {
        match self {
            ParseError::InsufficientInput => ParseError::InsufficientInput,
            ParseError::MalfromedInstruction => ParseError::MalfromedInstruction,
            ParseError::InvalidInstruction => ParseError::InvalidInstruction,
            ParseError::Unpredictable => ParseError::Unpredictable,
            ParseError::InvalidRegister => ParseError::InvalidRegister,
            ParseError::InvalidCondition => ParseError::InvalidCondition,
            ParseError::Generic(text) => ParseError::Generic(text.clone()),
        }
    }
}

impl Clone for ArchError {
    fn clone(&self) -> (r: Self)
        ensures
            r == *self,
    {
        match self {
            ArchError::UnsuportedArchitechture => ArchError::UnsuportedArchitechture,
            ArchError::IncorrectFileType => ArchError::IncorrectFileType,
            ArchError::MalformedSection => ArchError::MalformedSection,
            ArchError::MissingSection(name) => ArchError::MissingSection(name.clone()),
            ArchError::ImplementorStringError(text) => ArchError::ImplementorStringError(
                text.clone(),
            ),
            ArchError::ParsingError(e) => ArchError::ParsingError(e.clone()),
        }
    }
}

} // verus!
