//! The generic instruction: a list of operations on operands, with its size
//! and its cost in cycles.

use vstd::prelude::*;
use crate::general::DataWord;

verus! {

/// A condition on the flags N, Z, C and V.
#[derive(Debug, Clone, Copy, PartialEq, Eq, Structural)]
pub enum Condition {
    /// Equal: Z = 1.
    EQ,
    /// Not equal: Z = 0.
    NE,
    /// Carry set: C = 1.
    CS,
    /// Carry clear: C = 0.
    CC,
    /// Negative: N = 1.
    MI,
    /// Positive or zero: N = 0.
    PL,
    /// Overflow: V = 1.
    VS,
    /// No overflow: V = 0.
    VC,
    /// Unsigned higher: C = 1 and Z = 0.
    HI,
    /// Unsigned lower or same: C = 0 or Z = 1.
    LS,
    /// Signed greater or equal: N = V.
    GE,
    /// Signed less: N != V.
    LT,
    /// Signed greater: Z = 0 and N = V.
    GT,
    /// Signed less or equal: Z = 1 or N != V.
    LE,
    /// Always.
    Always,
}

/// What an operation reads or writes.
#[derive(Debug, PartialEq, Eq)]
pub enum Operand {
    /// A register, by name.
    Register(String),
    /// A constant.
    Immediate(DataWord),
    /// A value local to the instruction, by name.
    Local(String),
    /// A flag, by name.
    Flag(String),
    /// `width` bits of memory at a constant address.
    Address(DataWord, u32),
    /// `width` bits of memory at the address that a local holds.
    AddressInLocal(String, u32),
}

/// One primitive effect of an instruction.
#[derive(Debug, PartialEq, Eq)]
pub enum Operation {
    /// No effect.
    Nop,
    /// `destination` becomes `source`.
    Move { destination: Operand, source: Operand },
    /// `destination` becomes `operand1 + operand2`.
    Add { destination: Operand, operand1: Operand, operand2: Operand },
    /// `destination` becomes `operand1 + operand2 + C`.
    Adc { destination: Operand, operand1: Operand, operand2: Operand },
    /// `destination` becomes `operand1 - operand2`.
    Sub { destination: Operand, operand1: Operand, operand2: Operand },
    /// `destination` becomes `operand1 & operand2`.
    And { destination: Operand, operand1: Operand, operand2: Operand },
    /// `destination` becomes `operand1 | operand2`.
    Or { destination: Operand, operand1: Operand, operand2: Operand },
    /// `destination` becomes `operand1 ^ operand2`.
    Xor { destination: Operand, operand1: Operand, operand2: Operand },
    /// `destination` becomes the complement of `operand`.
    Not { destination: Operand, operand: Operand },
    /// `destination` becomes `operand` shifted left by `shift`.
    Sl { destination: Operand, operand: Operand, shift: Operand },
    /// `destination` becomes `operand` shifted right by `shift`, zeros
    /// coming in.
    Srl { destination: Operand, operand: Operand, shift: Operand },
    /// `destination` becomes `operand` shifted right by `shift`, the sign
    /// coming in.
    Sra { destination: Operand, operand: Operand, shift: Operand },
    /// The program counter becomes `destination` where `condition` holds.
    ConditionalJump { destination: Operand, condition: Condition },
    /// The instructions that follow execute under these conditions, one
    /// each.
    ConditionalExecution { conditions: Vec<Condition> },
    /// N becomes the top bit of the operand.
    SetNFlag(Operand),
    /// Z becomes 1 where the operand is zero.
    SetZFlag(Operand),
    /// C becomes the carry of `operand1 + operand2` (`sub` unset) or of
    /// `operand1 - operand2` (`sub` set), with the carry flag coming in
    /// where `carry` is set.
    SetCFlag { operand1: Operand, operand2: Operand, sub: bool, carry: bool },
    /// V becomes the signed overflow of the same sum or difference.
    SetVFlag { operand1: Operand, operand2: Operand, sub: bool, carry: bool },
    /// C becomes the last bit that a shift left by `shift` moves out.
    SetCFlagShiftLeft { operand: Operand, shift: Operand },
    /// C becomes the last bit that a logical shift right by `shift` moves
    /// out.
    SetCFlagSrl { operand: Operand, shift: Operand },
    /// C becomes the last bit that an arithmetic shift right by `shift`
    /// moves out.
    SetCFlagSra { operand: Operand, shift: Operand },
}

/// A cycle count that depends on the state after the instruction.
#[derive(Debug, Clone, Copy, PartialEq, Eq, Structural)]
pub enum StateCycles {
    /// `taken` cycles where the instruction branched, else `not_taken`.
    Branch { taken: usize, not_taken: usize },
}

/// Representing a cycle count for an instruction.
#[derive(Debug, Clone, Copy, PartialEq, Eq, Structural)]
pub enum CycleCount2 {
    /// Cycle count is a pre-calculated value.
    Value(usize),
    /// Cycle count depends on execution state.
    Function(StateCycles),
}

/// Represents a general assembly instruction.
#[derive(Debug)]
pub struct Instruction2 {
    /// The size of the machine instruction in number of bits.
    pub instruction_size: u32,
    /// A list of operations that will be executed in order when executing
    /// the instruction.
    pub operations: Vec<Operation>,
    /// The maximum number of cycles the instruction will take. This can
    /// depend on state and is evaluated after the instruction has executed
    /// but before the next instruction.
    pub max_cycle: CycleCount2,
    /// Denotes whether or not the instruction required access to the
    /// underlying memory or not.
    pub memory_access: bool,
}

impl Clone for Operand {
    fn clone(&self) -> (r: Self)
        ensures
            r == *self,
    {
        match self {
            Operand::Register(name) => Operand::Register(name.clone()),
            Operand::Immediate(word) => Operand::Immediate(*word),
            Operand::Local(name) => Operand::Local(name.clone()),
            Operand::Flag(name) => Operand::Flag(name.clone()),
            Operand::Address(word, width) => Operand::Address(*word, *width),
            Operand::AddressInLocal(name, width) => Operand::AddressInLocal(name.clone(), *width),
        }
    }
}

impl Operation {
    /// The two operations are the same, a list of conditions being known by
    /// what it holds.
    pub open spec fn alike(self, other: Operation) -> bool {
        match (self, other) {
            (
                Operation::ConditionalExecution { conditions: c1 },
                Operation::ConditionalExecution { conditions: c2 },
            ) => c1@ == c2@,
            _ => self == other,
        }
    }
}

impl Clone for Operation {
    fn clone(&self) -> (r: Self)
        ensures
            self.alike(r),
    {
        match self {
            Operation::Nop => Operation::Nop,
            Operation::Move { destination, source } => Operation::Move {
                destination: destination.clone(),
                source: source.clone(),
            },
            Operation::Add { destination, operand1, operand2 } => Operation::Add {
                destination: destination.clone(),
                operand1: operand1.clone(),
                operand2: operand2.clone(),
            },
            Operation::Adc { destination, operand1, operand2 } => Operation::Adc {
                destination: destination.clone(),
                operand1: operand1.clone(),
                operand2: operand2.clone(),
            },
            Operation::Sub { destination, operand1, operand2 } => Operation::Sub {
                destination: destination.clone(),
                operand1: operand1.clone(),
                operand2: operand2.clone(),
            },
            Operation::And { destination, operand1, operand2 } => Operation::And {
                destination: destination.clone(),
                operand1: operand1.clone(),
                operand2: operand2.clone(),
            },
            Operation::Or { destination, operand1, operand2 } => Operation::Or {
                destination: destination.clone(),
                operand1: operand1.clone(),
                operand2: operand2.clone(),
            },
            Operation::Xor { destination, operand1, operand2 } => Operation::Xor {
                destination: destination.clone(),
                operand1: operand1.clone(),
                operand2: operand2.clone(),
            },
            Operation::Not { destination, operand } => Operation::Not {
                destination: destination.clone(),
                operand: operand.clone(),
            },
            Operation::Sl { destination, operand, shift } => Operation::Sl {
                destination: destination.clone(),
                operand: operand.clone(),
                shift: shift.clone(),
            },
            Operation::Srl { destination, operand, shift } => Operation::Srl {
                destination: destination.clone(),
                operand: operand.clone(),
                shift: shift.clone(),
            },
            Operation::Sra { destination, operand, shift } => Operation::Sra {
                destination: destination.clone(),
                operand: operand.clone(),
                shift: shift.clone(),
            },
            Operation::ConditionalJump { destination, condition } => Operation::ConditionalJump {
                destination: destination.clone(),
                condition: *condition,
            },
            Operation::ConditionalExecution { conditions } => {
                let copy: Vec<Condition> = conditions.clone();
                assert(copy@ =~= conditions@);
                Operation::ConditionalExecution { conditions: copy }
            },
            Operation::SetNFlag(operand) => Operation::SetNFlag(operand.clone()),
            Operation::SetZFlag(operand) => Operation::SetZFlag(operand.clone()),
            Operation::SetCFlag { operand1, operand2, sub, carry } => Operation::SetCFlag {
                operand1: operand1.clone(),
                operand2: operand2.clone(),
                sub: *sub,
                carry: *carry,
            },
            Operation::SetVFlag { operand1, operand2, sub, carry } => Operation::SetVFlag {
                operand1: operand1.clone(),
                operand2: operand2.clone(),
                sub: *sub,
                carry: *carry,
            },
            Operation::SetCFlagShiftLeft { operand, shift } => Operation::SetCFlagShiftLeft {
                operand: operand.clone(),
                shift: shift.clone(),
            },
            Operation::SetCFlagSrl { operand, shift } => Operation::SetCFlagSrl {
                operand: operand.clone(),
                shift: shift.clone(),
            },
            Operation::SetCFlagSra { operand, shift } => Operation::SetCFlagSra {
                operand: operand.clone(),
                shift: shift.clone(),
            },
        }
    }
}

impl Instruction2 {
    /// The two instructions have the same size, cost and memory use, and
    /// the same operations in the same order.
    pub open spec fn alike(self, other: Instruction2) -> bool {
        &&& self.instruction_size == other.instruction_size
        &&& self.max_cycle == other.max_cycle
        &&& self.memory_access == other.memory_access
        &&& self.operations@.len() == other.operations@.len()
        &&& forall|i: int|
            0 <= i < self.operations@.len() ==> (#[trigger] self.operations@[i]).alike(
                other.operations@[i],
            )
    }
}

impl Clone for Instruction2 {
    fn clone(&self) -> (r: Self)
        ensures
            self.alike(r),
    {
        let mut operations: Vec<Operation> = Vec::new();
        let mut i: usize = 0;
        while i < self.operations.len()
            invariant
                0 <= i <= self.operations@.len(),
                operations@.len() == i,
                forall|j: int|
                    0 <= j < i ==> (#[trigger] self.operations@[j]).alike(operations@[j]),
            decreases self.operations@.len() - i,
        {
            operations.push(self.operations[i].clone());
            i = i + 1;
        }
        Instruction2 {
            instruction_size: self.instruction_size,
            operations,
            max_cycle: self.max_cycle,
            memory_access: self.memory_access,
        }
    }
}

} // verus!
