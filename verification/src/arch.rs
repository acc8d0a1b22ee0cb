//! Architectures: what turns the bytes of a program into instructions.

use vstd::prelude::*;
use crate::error::ArchError;
use crate::instruction::Instruction2;
use crate::state::GAState2;

verus! {

/// A generic architecture.
///
/// Denotes that the implementer can be treated as an architecture in this
/// crate: it decodes the instruction that a run of bytes begins with.
/// Nothing is assumed of what a decoder returns.
pub trait Arch {
    /// Converts a slice of bytes to an instruction.
    fn translate(&self, buff: &[u8], state: &GAState2) -> Result<Instruction2, ArchError>;
}

} // verus!
