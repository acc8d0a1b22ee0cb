//! The state of one path of the execution.

use std::collections::VecDeque;
use vstd::prelude::*;
use crate::collections::NameTable;
use crate::error::{ArchError, GAError, MemoryError, ProjectError};
use crate::expr::{BinOp, Expr};
use crate::general::bytes_value;
use crate::hooks::{
    HookContainer,
    PCHook2,
    Reader,
    RegisterReadHook,
    RegisterWriteHook,
    ResultOrHook,
    Writer,
};
use crate::arch::Arch;
use crate::instruction::{Condition, CycleCount2, Instruction2, StateCycles};
use crate::text::same_text;
use crate::memory::BoolectorMemory;
use crate::project::Project;

verus! {

/// What stands at the program counter: a hook or an instruction.
pub enum HookOrInstruction2<'a> {
    PcHook(&'a PCHook2),
    Instruction(Instruction2),
}

/// Where to go on inside an instruction after a fork.
#[derive(Debug)]
pub struct ContinueInsideInstruction2 {
    pub instruction: Instruction2,
    /// Position of the next operation to execute.
    pub index: usize,
    /// The values local to the instruction so far.
    pub local: NameTable<Expr>,
}

/// The state of one path.
#[derive(Debug)]
pub struct GAState2<'a> {
    pub project: &'a Project,
    pub memory: BoolectorMemory<'a>,
    /// The path condition: every expression in it is one bit wide and holds
    /// on this path.
    pub constraints: Vec<Expr>,
    pub hooks: &'a HookContainer,
    pub count_cycles: bool,
    pub cycle_count: u64,
    pub last_instruction: Option<Instruction2>,
    pub last_pc: u64,
    pub continue_in_instruction: Option<ContinueInsideInstruction2>,
    pub current_instruction: Option<Instruction2>,
    /// Number of unconstrained values that were given a label so far.
    pub any_counter: u64,
    pub instruction_counter: usize,
    pub has_jumped: bool,
    /// Whether the instruction under execution has written the program
    /// counter.
    pub pc_written: bool,
    pub instruction_conditions: VecDeque<Condition>,
}

impl<'a> Clone for GAState2<'a> {
    fn clone(&self) -> (r: Self)
        ensures
            self.alike(r),
            r.wf() == self.wf(),
    {
        let constraints: Vec<Expr> = self.constraints.clone();
        assert(constraints@ =~= self.constraints@);
        let instruction_conditions: VecDeque<Condition> = self.instruction_conditions.clone();
        assert(instruction_conditions@ =~= self.instruction_conditions@);
        GAState2 {
            project: self.project,
            memory: self.memory.clone(),
            constraints,
            hooks: self.hooks,
            count_cycles: self.count_cycles,
            cycle_count: self.cycle_count,
            last_instruction: copy_instruction(&self.last_instruction),
            last_pc: self.last_pc,
            continue_in_instruction: match &self.continue_in_instruction {
                Some(c) => Some(c.clone()),
                None => None,
            },
            current_instruction: copy_instruction(&self.current_instruction),
            any_counter: self.any_counter,
            instruction_counter: self.instruction_counter,
            has_jumped: self.has_jumped,
            pc_written: self.pc_written,
            instruction_conditions,
        }
    }
}

/// Both are absent, or both are there and alike.
pub open spec fn alike_if_any(a: Option<Instruction2>, b: Option<Instruction2>) -> bool {
    match (a, b) {
        (Some(x), Some(y)) => x.alike(y),
        (None, None) => true,
        _ => false,
    }
}

/// A copy of an optional instruction.
pub fn copy_instruction(instruction: &Option<Instruction2>) -> (r: Option<Instruction2>)
    ensures
        alike_if_any(*instruction, r),
{
    match instruction {
        Some(i) => Some(i.clone()),
        None => None,
    }
}

impl ContinueInsideInstruction2 {
    /// The two resume at the same operation of like instructions with the
    /// same local values.
    pub open spec fn alike(self, other: Self) -> bool {
        &&& self.instruction.alike(other.instruction)
        &&& self.index == other.index
        &&& self.local.entries() == other.local.entries()
        &&& self.local.values@ == other.local.values@
        &&& self.local.wf() == other.local.wf()
    }
}

impl Clone for ContinueInsideInstruction2 {
    fn clone(&self) -> (r: Self)
        ensures
            self.alike(r),
    {
        ContinueInsideInstruction2 {
            instruction: self.instruction.clone(),
            index: self.index,
            local: crate::memory::copy_table(&self.local),
        }
    }
}

/// `longer` begins with `shorter`.
pub open spec fn extends<T>(longer: Seq<T>, shorter: Seq<T>) -> bool {
    shorter.len() <= longer.len() && longer.take(shorter.len() as int) == shorter
}

/// The flags as they are after some of them were read: what was recorded
/// stays, and more may be recorded.
pub open spec fn flags_kept(after: Map<Seq<char>, Expr>, before: Map<Seq<char>, Expr>) -> bool {
    forall|name: Seq<char>| #[trigger]
        before.contains_key(name) ==> after.contains_key(name) && after[name] == before[name]
}

/// The expression that says whether `condition` holds, over the values of
/// the flags N, Z, C and V.
pub open spec fn condition_expr(condition: Condition, n: Expr, z: Expr, c: Expr, v: Expr) -> Expr {
    match condition {
        Condition::EQ => z,
        Condition::NE => z.spec_not(),
        Condition::CS => c,
        Condition::CC => c.spec_not(),
        Condition::MI => n,
        Condition::PL => n.spec_not(),
        Condition::VS => v,
        Condition::VC => v.spec_not(),
        Condition::HI => Expr::spec_binary(BinOp::And, c, z.spec_not()),
        Condition::LS => Expr::spec_binary(BinOp::Or, c.spec_not(), z),
        Condition::GE => Expr::spec_binary(BinOp::Xor, n, v).spec_not(),
        Condition::LT => n.spec_ne(v),
        Condition::GT => Expr::spec_binary(BinOp::And, z.spec_not(), n.spec_eq(v)),
        Condition::LE => Expr::spec_binary(BinOp::Or, z, n.spec_ne(v)),
        Condition::Always => Expr::spec_from_bool(true),
    }
}

/// The cycles that an instruction with the given cost takes, where
/// `has_jumped` says whether it branched.
pub open spec fn cycles_of(cost: CycleCount2, has_jumped: bool) -> usize {
    match cost {
        CycleCount2::Value(v) => v,
        CycleCount2::Function(StateCycles::Branch { taken, not_taken }) => if has_jumped {
            taken
        } else {
            not_taken
        },
    }
}

/// The cycles that the last instruction took.
pub open spec fn last_cycles(last: Option<Instruction2>, has_jumped: bool) -> usize {
    match last {
        Some(i) => cycles_of(i.max_cycle, has_jumped),
        None => 0,
    }
}

/// What a run makes of the answer of the decoder: the instruction as it
/// is, and an error of the decoder as the error of the run that holds it.
pub fn translated(answer: Result<Instruction2, ArchError>) -> (r: Result<Instruction2, GAError>)
    ensures
        match answer {
            Ok(instruction) => r == Ok::<Instruction2, GAError>(instruction),
            Err(e) => r == Err::<Instruction2, GAError>(GAError::ArchError(e)),
        },
{
    match answer {
        Ok(instruction) => Ok(instruction),
        Err(e) => Err(GAError::ArchError(e)),
    }
}

/// What a fetch at the program counter of `state`, with its lowest bit
/// cleared, can give: the hook at that address, if there is one; else, where
/// the image does not hold the address, the error `OutOfBounds`; and else
/// an instruction or an error of the decoder, as the decoder says.
pub open spec fn fetched_at(state: GAState2, fetched: Result<HookOrInstruction2, GAError>) -> bool {
    let pc = state.memory.pc & !1u64;
    if state.hooks.pc_hooks().contains_key(pc) {
        fetched matches Ok(HookOrInstruction2::PcHook(hook)) && *hook == state.hooks.pc_hooks()[pc]
    } else if !state.project.in_range(pc) {
        fetched matches Err(e) && e == GAError::MemoryError(MemoryError::OutOfBounds)
    } else {
        match fetched {
            Ok(HookOrInstruction2::Instruction(_)) => true,
            Err(GAError::ArchError(_)) => true,
            _ => false,
        }
    }
}

/// The state in which a path begins at the function `function` of the
/// image: the program counter at the function, SP at the symbol
/// `_stack_start`, LR at `end_address`, each flag an unconstrained bit,
/// nothing written to memory, no condition, no input, and nothing counted
/// or recorded.
pub open spec fn begins(
    state: GAState2,
    project: Project,
    hooks: HookContainer,
    function: Seq<char>,
    end_address: u64,
) -> bool {
    &&& state.wf()
    &&& project.symbols().contains_key(function)
    &&& project.symbols().contains_key("_stack_start"@)
    &&& *state.project == project
    &&& *state.hooks == hooks
    &&& state.memory.pc == project.symbols()[function]
    &&& state.memory.word_size == project.word_size.spec_bits()
    &&& state.memory.ram.endianness == project.endianness
    &&& state.memory.ram.stores@.len() == 0
    &&& state.memory.registers() == Map::<Seq<char>, Expr>::empty().insert(
        "SP"@,
        Expr::spec_from_u64(project.symbols()["_stack_start"@], project.word_size.spec_bits()),
    ).insert("LR"@, Expr::spec_from_u64(end_address, project.word_size.spec_bits()))
    &&& state.memory.flag_values().dom() == set!["N"@, "Z"@, "C"@, "V"@]
    &&& state.memory.flag_values()["N"@] is Symbol
    &&& state.memory.flag_values()["Z"@] is Symbol
    &&& state.memory.flag_values()["C"@] is Symbol
    &&& state.memory.flag_values()["V"@] is Symbol
    &&& state.constraints@.len() == 0
    &&& state.memory.inputs@.len() == 0
    &&& state.count_cycles
    &&& state.cycle_count == 0
    &&& state.last_instruction is None
    &&& state.last_pc == 0
    &&& state.continue_in_instruction is None
    &&& state.current_instruction is None
    &&& state.any_counter == 0
    &&& state.instruction_counter == 0
    &&& !state.has_jumped
    &&& !state.pc_written
    &&& state.instruction_conditions@.len() == 0
}

impl<'a> GAState2<'a> {
    /// The memory and the hooks are well formed, the state and its memory
    /// look at one program image and have its word size, and the path
    /// condition is made of well-formed bits.
    pub open spec fn wf(self) -> bool {
        &&& self.memory.wf()
        &&& self.hooks.wf()
        &&& self.project.wf()
        &&& self.memory.program_memory == self.project
        &&& self.memory.word_size == self.project.word_size.spec_bits()
        &&& forall|i: int|
            0 <= i < self.constraints@.len() ==> (#[trigger] self.constraints@[i]).wf()
                && self.constraints@[i].width() == 1
        &&& self.continue_in_instruction matches Some(cursor) ==> cursor.local.wf()
            && crate::memory::values_wf(cursor.local)
    }

    /// The two states are at the same point of the same path: they agree
    /// in all that they hold, lists being known by what they hold.
    pub open spec fn alike(self, other: Self) -> bool {
        &&& self.project == other.project
        &&& self.hooks == other.hooks
        &&& self.memory.same_but_pc(other.memory)
        &&& self.memory.pc == other.memory.pc
        &&& self.constraints@ == other.constraints@
        &&& self.count_cycles == other.count_cycles
        &&& self.cycle_count == other.cycle_count
        &&& alike_if_any(self.last_instruction, other.last_instruction)
        &&& self.last_pc == other.last_pc
        &&& match (self.continue_in_instruction, other.continue_in_instruction) {
            (Some(x), Some(y)) => x.alike(y),
            (None, None) => true,
            _ => false,
        }
        &&& alike_if_any(self.current_instruction, other.current_instruction)
        &&& self.any_counter == other.any_counter
        &&& self.instruction_counter == other.instruction_counter
        &&& self.has_jumped == other.has_jumped
        &&& self.pc_written == other.pc_written
        &&& self.instruction_conditions@ == other.instruction_conditions@
    }

    /// The two states differ in their memory at most.
    pub open spec fn same_but_memory(self, other: Self) -> bool {
        &&& self.project == other.project
        &&& self.constraints@ == other.constraints@
        &&& self.hooks == other.hooks
        &&& self.count_cycles == other.count_cycles
        &&& self.cycle_count == other.cycle_count
        &&& self.last_instruction == other.last_instruction
        &&& self.last_pc == other.last_pc
        &&& self.continue_in_instruction == other.continue_in_instruction
        &&& self.current_instruction == other.current_instruction
        &&& self.any_counter == other.any_counter
        &&& self.instruction_counter == other.instruction_counter
        &&& self.has_jumped == other.has_jumped
        &&& self.pc_written == other.pc_written
        &&& self.instruction_conditions@ == other.instruction_conditions@
    }

    /// Create a new state: the program counter at the function `function`,
    /// SP at the symbol `_stack_start`, LR at `end_address`, so that the
    /// return from the entry function is seen, the flags unconstrained, and
    /// nothing else recorded. Fails with `EntryFunctionNotFound` where the
    /// image has no symbol `function`, and else with `ProjectError` where it
    /// has no symbol `_stack_start`.
    pub fn new(
        project: &'a Project,
        hooks: &'a HookContainer,
        function: &str,
        end_address: u64,
    ) -> (r: Result<Self, GAError>)
        requires
            project.wf(),
            hooks.wf(),
        ensures
            match r {
                Ok(state) => begins(state, *project, *hooks, function@, end_address),
                Err(GAError::EntryFunctionNotFound(name)) => !project.symbols().contains_key(
                    function@,
                ) && name@ == function@,
                Err(GAError::ProjectError(ProjectError::UnableToParseElf(text))) => project.symbols().contains_key(
                function@) && !project.symbols().contains_key("_stack_start"@) && text@
                    == "start of stack not found"@,
                Err(_) => false,
            },
    {
        let pc_reg: u64 = match project.get_symbol_address(function) {
            Some(a) => a,
            None => {
                return Err(GAError::EntryFunctionNotFound(function.to_owned()));
            },
        };
        let ptr_size: u32 = project.get_ptr_size();
        let sp_reg: u64 = match project.get_symbol_address("_stack_start") {
            Some(a) => a,
            None => {
                return Err(
                    GAError::ProjectError(
                        ProjectError::UnableToParseElf("start of stack not found".to_owned()),
                    ),
                );
            },
        };
        let endianness = project.get_endianness();
        let mut memory = match BoolectorMemory::new(project, ptr_size, endianness) {
            Ok(memory) => memory,
            Err(e) => {
                return Err(e);
            },
        };
        let _ = memory.set_pc(pc_reg);
        let sp_expr: Expr = Expr::from_u64(sp_reg, ptr_size);
        let _ = memory.set_register("SP", sp_expr);
        // Set the link register to the end address to detect when returning
        // from the entry function.
        let end_pc_expr: Expr = Expr::from_u64(end_address, ptr_size);
        let _ = memory.set_register("LR", end_pc_expr);
        let _ = memory.set_flag("N", Expr::unconstrained(1, "flags.N"));
        let _ = memory.set_flag("Z", Expr::unconstrained(1, "flags.Z"));
        let _ = memory.set_flag("C", Expr::unconstrained(1, "flags.C"));
        let _ = memory.set_flag("V", Expr::unconstrained(1, "flags.V"));
        proof {
            reveal_strlit("N");
            reveal_strlit("Z");
            reveal_strlit("C");
            reveal_strlit("V");
            assert(memory.flag_values().dom() =~= set!["N"@, "Z"@, "C"@, "V"@]);
        }
        Ok(
            GAState2 {
                project,
                constraints: Vec::new(),
                memory,
                hooks,
                count_cycles: true,
                cycle_count: 0,
                last_instruction: None,
                last_pc: 0,
                continue_in_instruction: None,
                current_instruction: None,
                instruction_counter: 0,
                has_jumped: false,
                pc_written: false,
                instruction_conditions: VecDeque::new(),
                any_counter: 0,
            },
        )
    }

    /// Create a state used for testing: the program counter at `start_pc`,
    /// SP at `start_stack`, the flags unconstrained, and nothing else
    /// recorded.
    pub fn create_test_state(
        project: &'a Project,
        hooks: &'a HookContainer,
        start_pc: u64,
        start_stack: u64,
    ) -> (r: Self)
        requires
            project.wf(),
            hooks.wf(),
        ensures
            r.wf(),
            r.project == project,
            r.hooks == hooks,
            r.memory.pc == start_pc,
            r.memory.word_size == project.word_size.spec_bits(),
            r.memory.ram.endianness == project.endianness,
            r.memory.ram.stores@.len() == 0,
            r.memory.registers() == Map::<Seq<char>, Expr>::empty().insert(
                "SP"@,
                Expr::spec_from_u64(start_stack, project.word_size.spec_bits()),
            ),
            r.memory.flag_values().dom() == set!["N"@, "Z"@, "C"@, "V"@],
            r.memory.flag_values()["N"@] is Symbol,
            r.memory.flag_values()["Z"@] is Symbol,
            r.memory.flag_values()["C"@] is Symbol,
            r.memory.flag_values()["V"@] is Symbol,
            r.constraints@.len() == 0,
            r.count_cycles,
            r.cycle_count == 0,
            r.last_instruction is None,
            r.last_pc == start_pc,
            r.continue_in_instruction is None,
            r.current_instruction is None,
            r.any_counter == 0,
            r.instruction_counter == 0,
            !r.has_jumped,
            !r.pc_written,
            r.instruction_conditions@.len() == 0,
    {
        let ptr_size: u32 = project.get_ptr_size();
        let mut memory = BoolectorMemory {
            ram: crate::array_memory::ArrayMemory::new(ptr_size, project.get_endianness()),
            register_file: NameTable::new(),
            flags: NameTable::new(),
            program_memory: project,
            word_size: ptr_size,
            pc: start_pc,
            inputs: Vec::new(),
        };
        let _ = memory.set_register("SP", Expr::from_u64(start_stack, ptr_size));
        let _ = memory.set_flag("N", Expr::unconstrained(1, "flags.N"));
        let _ = memory.set_flag("Z", Expr::unconstrained(1, "flags.Z"));
        let _ = memory.set_flag("C", Expr::unconstrained(1, "flags.C"));
        let _ = memory.set_flag("V", Expr::unconstrained(1, "flags.V"));
        proof {
            reveal_strlit("N");
            reveal_strlit("Z");
            reveal_strlit("C");
            reveal_strlit("V");
            assert(memory.flag_values().dom() =~= set!["N"@, "Z"@, "C"@, "V"@]);
        }
        GAState2 {
            project,
            constraints: Vec::new(),
            memory,
            hooks,
            count_cycles: true,
            cycle_count: 0,
            last_instruction: None,
            last_pc: start_pc,
            continue_in_instruction: None,
            current_instruction: None,
            instruction_counter: 0,
            has_jumped: false,
            pc_written: false,
            instruction_conditions: VecDeque::new(),
            any_counter: 0,
        }
    }

    /// The label of the next unconstrained value: `start`, an underscore
    /// and the number of labels given so far. No label is given where that
    /// number has reached what a `u64` counts.
    pub fn label_new_symbolic(&mut self, start: &str) -> (r: Option<String>)
        ensures
            match r {
                Some(label) => old(self).any_counter < u64::MAX && final(self).any_counter
                    == old(self).any_counter + 1 && label@ == start@ + "_"@ + crate::text::decimal(
                    old(self).any_counter as nat,
                ),
                None => old(self).any_counter == u64::MAX && final(self).any_counter
                    == old(self).any_counter,
            },
            final(self).memory == old(self).memory,
            final(self).same_but_memory(
                GAState2 { any_counter: final(self).any_counter, ..*old(self) },
            ),
    {
        if self.any_counter == u64::MAX {
            return None;
        }
        let mut ret: String = start.to_owned();
        crate::text::push_str(&mut ret, "_");
        let digits: String = crate::text::u64_to_string(self.any_counter);
        crate::text::push_str(&mut ret, digits.as_str());
        self.any_counter = self.any_counter + 1;
        Some(ret)
    }

    /// Forgets that the last instruction branched.
    pub fn reset_has_jumped(&mut self)
        ensures
            !final(self).has_jumped,
            final(self).memory == old(self).memory,
            final(self).same_but_memory(GAState2 { has_jumped: false, ..*old(self) }),
    {
        self.has_jumped = false;
    }

    /// Records that the instruction branched.
    pub fn set_has_jumped(&mut self)
        ensures
            final(self).has_jumped,
            final(self).memory == old(self).memory,
            final(self).same_but_memory(GAState2 { has_jumped: true, ..*old(self) }),
    {
        self.has_jumped = true;
    }

    /// Indicates if the last executed instruction was a conditional branch
    /// that branched.
    pub fn get_has_jumped(&self) -> (r: bool)
        ensures
            r == self.has_jumped,
    {
        self.has_jumped
    }

    /// Increments the instruction counter by one; at the largest count it
    /// stays.
    pub fn increment_instruction_count(&mut self)
        ensures
            final(self).instruction_counter == if old(self).instruction_counter < usize::MAX {
                old(self).instruction_counter + 1
            } else {
                old(self).instruction_counter as int
            },
            final(self).memory == old(self).memory,
            final(self).same_but_memory(
                GAState2 { instruction_counter: final(self).instruction_counter, ..*old(self) },
            ),
    {
        if self.instruction_counter < usize::MAX {
            self.instruction_counter = self.instruction_counter + 1;
        }
    }

    /// Gets the current instruction count.
    pub fn get_instruction_count(&self) -> (r: usize)
        ensures
            r == self.instruction_counter,
    {
        self.instruction_counter
    }

    /// Gets the last instruction that was executed.
    pub fn get_last_instruction(&self) -> (r: Option<Instruction2>)
        ensures
            match (self.last_instruction, r) {
                (Some(last), Some(copy)) => last.alike(copy),
                (None, None) => true,
                _ => false,
            },
    {
        match &self.last_instruction {
            Some(last) => Some(last.clone()),
            None => None,
        }
    }

    /// Checks if the execution is currently inside of a conditional block.
    pub fn get_in_conditional_block(&self) -> (r: bool)
        ensures
            r == (self.instruction_conditions@.len() > 0),
    {
        self.instruction_conditions.len() > 0
    }

    /// Increment the cycle counter with the cycle count of the last
    /// instruction, if cycles are counted. The counter never decreases: at
    /// the largest count it stays.
    pub fn increment_cycle_count(&mut self)
        ensures
            final(self).cycle_count >= old(self).cycle_count,
            final(self).cycle_count == if old(self).count_cycles {
                if old(self).cycle_count + last_cycles(
                    old(self).last_instruction,
                    old(self).has_jumped,
                ) <= u64::MAX {
                    old(self).cycle_count + last_cycles(
                        old(self).last_instruction,
                        old(self).has_jumped,
                    )
                } else {
                    u64::MAX as int
                }
            } else {
                old(self).cycle_count as int
            },
            final(self).memory == old(self).memory,
            final(self).same_but_memory(
                GAState2 { cycle_count: final(self).cycle_count, ..*old(self) },
            ),
    {
        // Do nothing if cycles should not be counted.
        if !self.count_cycles {
            return ;
        }
        let cycles: usize = match &self.last_instruction {
            Some(i) => match i.max_cycle {
                CycleCount2::Value(v) => v,
                CycleCount2::Function(StateCycles::Branch { taken, not_taken }) => {
                    if self.has_jumped {
                        taken
                    } else {
                        not_taken
                    }
                },
            },
            None => 0,
        };
        self.cycle_count = self.cycle_count.saturating_add(cycles as u64);
    }

    /// Update the last instruction that was executed.
    pub fn set_last_instruction(&mut self, instruction: Instruction2)
        ensures
            final(self).last_instruction == Some(instruction),
            final(self).memory == old(self).memory,
            final(self).same_but_memory(
                GAState2 { last_instruction: Some(instruction), ..*old(self) },
            ),
    {
        self.last_instruction = Some(instruction);
    }

    /// Queues the conditions for the instructions that follow.
    pub fn add_instruction_conditions(&mut self, conditions: &Vec<Condition>)
        ensures
            final(self).instruction_conditions@ == old(self).instruction_conditions@
                + conditions@,
            final(self).memory == old(self).memory,
            final(self).project == old(self).project,
            final(self).constraints@ == old(self).constraints@,
            final(self).hooks == old(self).hooks,
            final(self).count_cycles == old(self).count_cycles,
            final(self).cycle_count == old(self).cycle_count,
            final(self).last_instruction == old(self).last_instruction,
            final(self).last_pc == old(self).last_pc,
            final(self).continue_in_instruction == old(self).continue_in_instruction,
            final(self).current_instruction == old(self).current_instruction,
            final(self).any_counter == old(self).any_counter,
            final(self).instruction_counter == old(self).instruction_counter,
            final(self).has_jumped == old(self).has_jumped,
            final(self).pc_written == old(self).pc_written,
    {
        let mut i: usize = 0;
        while i < conditions.len()
            invariant
                0 <= i <= conditions@.len(),
                self.instruction_conditions@ == old(self).instruction_conditions@
                    + conditions@.take(i as int),
                self.memory == old(self).memory,
                self.project == old(self).project,
                self.constraints@ == old(self).constraints@,
                self.hooks == old(self).hooks,
                self.count_cycles == old(self).count_cycles,
                self.cycle_count == old(self).cycle_count,
                self.last_instruction == old(self).last_instruction,
                self.last_pc == old(self).last_pc,
                self.continue_in_instruction == old(self).continue_in_instruction,
                self.current_instruction == old(self).current_instruction,
                self.any_counter == old(self).any_counter,
                self.instruction_counter == old(self).instruction_counter,
                self.has_jumped == old(self).has_jumped,
                self.pc_written == old(self).pc_written,
            decreases conditions@.len() - i,
        {
            self.instruction_conditions.push_back(conditions[i]);
            assert(conditions@.take(i + 1) =~= conditions@.take(i as int).push(
                conditions@[i as int],
            ));
            assert(self.instruction_conditions@ =~= old(self).instruction_conditions@
                + conditions@.take(i + 1));
            i = i + 1;
        }
        assert(conditions@.take(i as int) =~= conditions@);
    }
}

/// Whether the expression of `condition` looks at the flag `name`.
pub open spec fn reads_flag(condition: Condition, name: Seq<char>) -> bool {
    match condition {
        Condition::EQ | Condition::NE => name == "Z"@,
        Condition::CS | Condition::CC => name == "C"@,
        Condition::MI | Condition::PL => name == "N"@,
        Condition::VS | Condition::VC => name == "V"@,
        Condition::HI | Condition::LS => name == "C"@ || name == "Z"@,
        Condition::GE | Condition::LT => name == "N"@ || name == "V"@,
        Condition::GT | Condition::LE => name == "Z"@ || name == "N"@ || name == "V"@,
        Condition::Always => false,
    }
}

/// The register that a write to `register` goes to: the one that its write
/// hook names, if it has one, and else itself. The program counter has no
/// hooks.
pub open spec fn write_target(hooks: HookContainer, register: Seq<char>) -> Seq<char> {
    let write_hooks = hooks.register_write_hook.entries();
    if register != "PC"@ && write_hooks.contains_key(register) {
        match write_hooks[register] {
            RegisterWriteHook::Redirect { register: to } => to@,
        }
    } else {
        register
    }
}

/// Every flag that the expression of `condition` looks at has a value.
pub open spec fn flags_recorded(condition: Condition, flags: Map<Seq<char>, Expr>) -> bool {
    &&& reads_flag(condition, "N"@) ==> flags.contains_key("N"@)
    &&& reads_flag(condition, "Z"@) ==> flags.contains_key("Z"@)
    &&& reads_flag(condition, "C"@) ==> flags.contains_key("C"@)
    &&& reads_flag(condition, "V"@) ==> flags.contains_key("V"@)
}

/// The inputs of a path after the register `name` was read from the
/// register file: the fresh value that a register without a value was
/// given has joined them, and else they are as before.
pub open spec fn inputs_after_read(
    before: BoolectorMemory,
    after: BoolectorMemory,
    name: Seq<char>,
) -> bool {
    after.inputs@ == if before.registers().contains_key(name) {
        before.inputs@
    } else {
        before.inputs@.push(after.registers()[name])
    }
}

/// What a read of the register `register` yields and records: the program
/// counter as a constant; for a register with a read hook the value of the
/// register that the hook names plus the offset of the hook, which fails
/// where that value is wider than 64 bits; and else the value of the
/// register, which for a register without a value is a fresh unconstrained
/// word, recorded as its value and as an input of the path (see
/// [`inputs_after_read`]).
pub open spec fn register_read(
    before: GAState2,
    after: GAState2,
    register: Seq<char>,
    r: Result<Expr, GAError>,
) -> bool {
    let read_hooks = before.hooks.register_read_hook.entries();
    let pc = Expr::spec_from_u64(before.memory.pc, before.memory.word_size);
    let word_size = before.memory.word_size;
    let memory_before = before.memory;
    let memory_after = after.memory;
    let before = before.memory.registers();
    let after = after.memory.registers();
    if register == "PC"@ {
        r == Ok::<Expr, GAError>(pc) && after == before && memory_after.inputs@
            == memory_before.inputs@
    } else if read_hooks.contains_key(register) {
        match read_hooks[register] {
            RegisterReadHook::Offset { register: from, offset } => {
                let base = if from@ == "PC"@ {
                    pc
                } else {
                    after[from@]
                };
                &&& from@ != "PC"@ ==> after == before.insert(from@, base) && (
                before.contains_key(from@) ==> base == before[from@]) && inputs_after_read(
                    memory_before,
                    memory_after,
                    from@,
                )
                &&& from@ == "PC"@ ==> after == before && memory_after.inputs@
                    == memory_before.inputs@
                &&& r == if base.width() <= 64 {
                    Ok::<Expr, GAError>(
                        Expr::spec_binary(
                            BinOp::Add,
                            base,
                            Expr::spec_from_u64(offset, base.width() as u32),
                        ),
                    )
                } else {
                    Err::<Expr, GAError>(
                        GAError::MemoryError(MemoryError::InconsistentWidth),
                    )
                }
            },
        }
    } else {
        r matches Ok(e) && after == before.insert(register, e) && (if before.contains_key(
            register,
        ) {
            e == before[register]
        } else {
            e matches Expr::Symbol { name, width } && name@ == register && width == word_size
        }) && inputs_after_read(memory_before, memory_after, register)
    }
}

/// What a write of `expr` to the register `target` does to the memory of a
/// path, hooks aside: the program counter takes the value of a constant,
/// and any other register the expression.
pub open spec fn register_written(
    before: BoolectorMemory,
    after: BoolectorMemory,
    target: Seq<char>,
    expr: Expr,
) -> bool {
    if target == "PC"@ {
        expr is Const && after.pc == expr->value && after.same_but_pc(before)
    } else {
        after.registers() == before.registers().insert(target, expr) && after.same_but_registers(
            before,
        )
    }
}

impl<'a> GAState2<'a> {
    /// The value of the flag `name`, which is recorded if it was not.
    fn flag(&mut self, name: &str) -> (r: Expr)
        requires
            old(self).wf(),
        ensures
            final(self).wf(),
            final(self).same_but_memory(*old(self)),
            final(self).memory.same_but_flags(old(self).memory),
            flags_kept(final(self).memory.flag_values(), old(self).memory.flag_values()),
            final(self).memory.flag_values().dom() == old(self).memory.flag_values().dom().insert(
                name@,
            ),
            final(self).memory.flag_values().contains_key(name@),
            old(self).memory.flag_values().contains_key(name@) ==> final(self).memory.flag_values()
                == old(self).memory.flag_values(),
            r == final(self).memory.flag_values()[name@],
            r.wf(),
            r.width() == 1,
    {
        proof {
            if old(self).memory.flag_values().contains_key(name@) {
                assert(old(self).memory.flag_values().insert(
                    name@,
                    old(self).memory.flag_values()[name@],
                ) =~= old(self).memory.flag_values());
            }
        }
        match self.memory.get_flag(name) {
            Ok(e) => e,
            Err(_) => Expr::from_bool(false),
        }
    }

    /// Set the value of a flag. Fails with `InconsistentWidth`, and changes
    /// nothing, where the value is not one bit wide.
    pub fn set_flag(&mut self, flag: String, expr: Expr) -> (r: Result<(), GAError>)
        requires
            old(self).wf(),
            expr.wf(),
        ensures
            final(self).wf(),
            final(self).same_but_memory(*old(self)),
            final(self).memory.same_but_flags(old(self).memory),
            match r {
                Ok(_) => expr.width() == 1 && final(self).memory.flag_values()
                    == old(self).memory.flag_values().insert(flag@, expr),
                Err(e) => e == GAError::MemoryError(MemoryError::InconsistentWidth) && expr.width()
                    != 1 && final(self).memory.flag_values() == old(self).memory.flag_values(),
            },
    {
        let expr: Expr = expr.simplify();
        match self.memory.set_flag(flag.as_str(), expr) {
            Ok(_) => Ok(()),
            Err(e) => Err(GAError::MemoryError(e)),
        }
    }

    /// Get the value of a flag. A flag that has no value yet gets an
    /// unconstrained bit, which is recorded.
    pub fn get_flag(&mut self, flag: String) -> (r: Result<Expr, GAError>)
        requires
            old(self).wf(),
        ensures
            final(self).wf(),
            final(self).same_but_memory(*old(self)),
            final(self).memory.same_but_flags(old(self).memory),
            r matches Ok(e) && e.wf() && e.width() == 1 && final(self).memory.flag_values()
                == old(self).memory.flag_values().insert(flag@, e)
                && (old(self).memory.flag_values().contains_key(flag@) ==> e == old(self).memory.flag_values()[flag@]),
    {
        match self.memory.get_flag(flag.as_str()) {
            Ok(e) => Ok(e),
            Err(e) => Err(GAError::MemoryError(e)),
        }
    }

    /// Get the expression for a condition based on the current flag values.
    /// The flags that the condition looks at are recorded, if they were
    /// not; nothing else changes.
    pub fn get_expr(&mut self, condition: &Condition) -> (r: Result<Expr, GAError>)
        requires
            old(self).wf(),
        ensures
            final(self).wf(),
            final(self).same_but_memory(*old(self)),
            final(self).memory.same_but_flags(old(self).memory),
            flags_kept(final(self).memory.flag_values(), old(self).memory.flag_values()),
            forall|name: Seq<char>|
                reads_flag(*condition, name)
                    ==> #[trigger] final(self).memory.flag_values().contains_key(name),
            flags_recorded(*condition, old(self).memory.flag_values())
                ==> final(self).memory.flag_values() == old(self).memory.flag_values(),
            r matches Ok(e) && e.wf() && e.width() == 1 && e == condition_expr(
                *condition,
                final(self).memory.flag_values()["N"@],
                final(self).memory.flag_values()["Z"@],
                final(self).memory.flag_values()["C"@],
                final(self).memory.flag_values()["V"@],
            ),
    {
        proof {
            reveal_strlit("N");
            reveal_strlit("Z");
            reveal_strlit("C");
            reveal_strlit("V");
        }
        Ok(
            match condition {
                Condition::EQ => self.flag("Z"),
                Condition::NE => self.flag("Z").not(),
                Condition::CS => self.flag("C"),
                Condition::CC => self.flag("C").not(),
                Condition::MI => self.flag("N"),
                Condition::PL => self.flag("N").not(),
                Condition::VS => self.flag("V"),
                Condition::VC => self.flag("V").not(),
                Condition::HI => {
                    let c: Expr = self.flag("C");
                    let z: Expr = self.flag("Z").not();
                    c.and(&z)
                },
                Condition::LS => {
                    let c: Expr = self.flag("C").not();
                    let z: Expr = self.flag("Z");
                    c.or(&z)
                },
                Condition::GE => {
                    let n: Expr = self.flag("N");
                    let v: Expr = self.flag("V");
                    n.xor(&v).not()
                },
                Condition::LT => {
                    let n: Expr = self.flag("N");
                    let v: Expr = self.flag("V");
                    n.ne(&v)
                },
                Condition::GT => {
                    let z: Expr = self.flag("Z");
                    let n: Expr = self.flag("N");
                    let v: Expr = self.flag("V");
                    z.not().and(&n.eq(&v))
                },
                Condition::LE => {
                    let z: Expr = self.flag("Z");
                    let n: Expr = self.flag("N");
                    let v: Expr = self.flag("V");
                    z.or(&n.ne(&v))
                },
                Condition::Always => self.memory.from_bool(true),
            },
        )
    }

    /// Takes the next condition from the queue, if there is one, and gives
    /// its expression over the current flags.
    pub fn get_next_instruction_condition_expression(&mut self) -> (r: Option<Expr>)
        requires
            old(self).wf(),
        ensures
            final(self).wf(),
            final(self).memory.same_but_flags(old(self).memory),
            flags_kept(final(self).memory.flag_values(), old(self).memory.flag_values()),
            final(self).same_but_memory(
                GAState2 {
                    instruction_conditions: final(self).instruction_conditions,
                    ..*old(self)
                },
            ),
            match r {
                Some(e) => old(self).instruction_conditions@.len() > 0
                    && final(self).instruction_conditions@
                    == old(self).instruction_conditions@.subrange(
                    1,
                    old(self).instruction_conditions@.len() as int,
                ) && e.wf() && e.width() == 1 && e == condition_expr(
                    old(self).instruction_conditions@[0],
                    final(self).memory.flag_values()["N"@],
                    final(self).memory.flag_values()["Z"@],
                    final(self).memory.flag_values()["C"@],
                    final(self).memory.flag_values()["V"@],
                ),
                None => old(self).instruction_conditions@.len() == 0
                    && final(self).instruction_conditions@ == old(self).instruction_conditions@
                    && final(self).memory.flag_values() == old(self).memory.flag_values(),
            },
    {
        match self.instruction_conditions.pop_front() {
            Some(condition) => match self.get_expr(&condition) {
                Ok(e) => Some(e),
                Err(_) => None,
            },
            None => None,
        }
    }

    /// Writes `expr` to `target`, without a look at the hooks.
    fn put_register(&mut self, target: &str, expr: Expr) -> (r: Result<(), GAError>)
        requires
            old(self).wf(),
            expr.wf(),
        ensures
            final(self).wf(),
            final(self).same_but_memory(*old(self)),
            match r {
                Ok(_) => register_written(old(self).memory, final(self).memory, target@, expr),
                Err(e) => e == GAError::NonDeterministicPC && target@ == "PC"@ && !(expr is Const)
                    && final(self).memory == old(self).memory,
            },
    {
        if same_text(target, "PC") {
            return match expr.get_constant() {
                Some(value) => {
                    let _ = self.memory.set_pc(value);
                    Ok(())
                },
                None => Err(GAError::NonDeterministicPC),
            };
        }
        let _ = self.memory.set_register(target, expr);
        Ok(())
    }

    /// The register that a write to `register` goes to.
    pub fn register_target(&self, register: &str) -> (r: String)
        requires
            self.wf(),
        ensures
            r@ == write_target(*self.hooks, register@),
    {
        if same_text(register, "PC") {
            return register.to_owned();
        }
        match self.hooks.register_write_hook.get(register) {
            Some(RegisterWriteHook::Redirect { register: to }) => to.clone(),
            None => register.to_owned(),
        }
    }

    /// Set a value to a register. A register with a write hook hands the
    /// value to the register that the hook names. The program counter takes
    /// constants only: a write of anything else to it fails with
    /// `NonDeterministicPC` and changes nothing.
    pub fn set_register(&mut self, register: String, expr: Expr) -> (r: Result<(), GAError>)
        requires
            old(self).wf(),
            expr.wf(),
        ensures
            final(self).wf(),
            final(self).same_but_memory(*old(self)),
            ({
                let target = write_target(*old(self).hooks, register@);
                match r {
                    Ok(_) => register_written(old(self).memory, final(self).memory, target, expr),
                    Err(e) => e == GAError::NonDeterministicPC && target == "PC"@ && !(expr
                        is Const) && final(self).memory == old(self).memory,
                }
            }),
    {
        if same_text(register.as_str(), "PC") {
            return self.put_register("PC", expr);
        }
        let found: Option<&RegisterWriteHook> = self.hooks.register_write_hook.get(
            register.as_str(),
        );
        match found {
            Some(RegisterWriteHook::Redirect { register: to }) => {
                let to: String = to.clone();
                self.put_register(to.as_str(), expr)
            },
            None => self.put_register(register.as_str(), expr),
        }
    }

    /// The value of `source`, without a look at the hooks: the program
    /// counter as a constant, any other register from the register file.
    fn fetch_register(&mut self, source: &str) -> (r: Expr)
        requires
            old(self).wf(),
        ensures
            final(self).wf(),
            final(self).same_but_memory(*old(self)),
            final(self).memory.same_but_registers(old(self).memory),
            r.wf(),
            if source@ == "PC"@ {
                r == Expr::spec_from_u64(old(self).memory.pc, old(self).memory.word_size)
                    && final(self).memory.registers() == old(self).memory.registers()
                    && final(self).memory.inputs@ == old(self).memory.inputs@
            } else {
                final(self).memory.registers() == old(self).memory.registers().insert(source@, r)
                    && inputs_after_read(old(self).memory, final(self).memory, source@)
                    && (if old(self).memory.registers().contains_key(source@) {
                    r == old(self).memory.registers()[source@]
                } else {
                    r matches Expr::Symbol { name, width } && name@ == source@ && width
                        == old(self).memory.word_size
                })
            },
    {
        if same_text(source, "PC") {
            return Expr::from_u64(self.memory.pc, self.memory.word_size);
        }
        match self.memory.get_register(source) {
            Ok(e) => e,
            Err(_) => Expr::from_u64(0, self.memory.word_size),
        }
    }

    /// Get the value stored at a register. A register with a read hook
    /// yields the value of the register that the hook names plus the
    /// hook's offset, and fails with `InconsistentWidth` where that value is
    /// wider than the 64 bits of a constant. A register that was never
    /// written yields a fresh unconstrained word, which is recorded as its
    /// value, so that the next read yields the same, and as an input of the
    /// path.
    pub fn get_register(&mut self, register: String) -> (r: Result<Expr, GAError>)
        requires
            old(self).wf(),
        ensures
            final(self).wf(),
            final(self).same_but_memory(*old(self)),
            final(self).memory.same_but_registers(old(self).memory),
            r matches Ok(e) ==> e.wf(),
            register_read(*old(self), *final(self), register@, r),
    {
        if same_text(register.as_str(), "PC") {
            return Ok(self.fetch_register("PC"));
        }
        let found: Option<&RegisterReadHook> = self.hooks.register_read_hook.get(
            register.as_str(),
        );
        match found {
            Some(RegisterReadHook::Offset { register: from, offset }) => {
                let from: String = from.clone();
                let offset: u64 = *offset;
                let base: Expr = self.fetch_register(from.as_str());
                let width: u32 = base.len();
                if width > 64 {
                    return Err(GAError::MemoryError(MemoryError::InconsistentWidth));
                }
                Ok(base.add(&Expr::from_u64(offset, width)))
            },
            None => Ok(self.fetch_register(register.as_str())),
        }
    }

    /// Get the next instruction based on the address in the PC register,
    /// with its lowest bit cleared: the hook at that address, if there is
    /// one, and else what the decoder makes of the bytes of the image from
    /// that address on. Fails with `OutOfBounds` where no hook stands at the
    /// address and the image does not hold it, and else with what the
    /// decoder fails with.
    pub fn get_next_instruction<A: Arch>(&self, arch: &A) -> (r: Result<
        HookOrInstruction2<'a>,
        GAError,
    >)
        requires
            self.wf(),
        ensures
            fetched_at(*self, r),
    {
        // Not applicable for all architectures.
        let pc: u64 = self.memory.pc & !1u64;
        match self.hooks.get_pc_hooks(pc) {
            ResultOrHook::Hook(hook) => Ok(HookOrInstruction2::PcHook(hook)),
            ResultOrHook::Result(pc) => {
                let bytes: &[u8] = match self.project.get_raw(pc) {
                    Ok(bytes) => bytes,
                    Err(e) => {
                        return Err(GAError::MemoryError(e));
                    },
                };
                match arch.translate(bytes, self) {
                    Ok(instruction) => Ok(HookOrInstruction2::Instruction(instruction)),
                    Err(e) => Err(GAError::ArchError(e)),
                }
            },
            ResultOrHook::Hooks(_) => Err(GAError::NonDeterministicPC),
        }
    }

    /// Read a word form memory. Will respect the endianness of the project.
    /// A read at a constant address inside the program image yields the
    /// word of the image there, in the word size and byte order of the image,
    /// whatever was written to memory, and fails with `OutOfBounds` where the
    /// image does not hold a whole word there.
    pub fn read_word_from_memory(&self, address: &Expr) -> (r: Result<Expr, GAError>)
        requires
            self.wf(),
            address.wf(),
        ensures
            ({
                let bits = self.project.word_size.spec_bits();
                let bytes = (bits / 8) as nat;
                address is Const && address.width() == bits && self.project.in_range(
                    address->value,
                ) ==> r == if self.project.holds(address->value, bytes) {
                    Ok::<Expr, GAError>(
                        Expr::Const {
                            value: bytes_value(
                                self.project.bytes_at(address->value, bytes),
                                self.project.endianness,
                            ) as u64,
                            width: bits,
                        },
                    )
                } else {
                    Err::<Expr, GAError>(GAError::MemoryError(MemoryError::OutOfBounds))
                }
            }),
            match r {
                Ok(e) => self.memory.spec_get(*address, self.memory.word_size) == Ok::<
                    Expr,
                    MemoryError,
                >(e) && e.wf() && e.width() == self.memory.word_size,
                Err(e) => e matches GAError::MemoryError(inner) && self.memory.spec_get(
                    *address,
                    self.memory.word_size,
                ) == Err::<Expr, MemoryError>(inner),
            },
    {
        match self.memory.get(address, self.memory.get_word_size()) {
            Ok(e) => Ok(e),
            Err(e) => Err(GAError::MemoryError(e)),
        }
    }

    /// Write a word to memory. Will respect the endianness of the project.
    /// A write at a constant address inside the program image fails with
    /// `WritingToStaticMemoryProhibited` and changes nothing.
    pub fn write_word_to_memory(&mut self, address: &Expr, value: Expr) -> (r: Result<
        (),
        GAError,
    >)
        requires
            old(self).wf(),
            address.wf(),
            value.wf(),
        ensures
            final(self).wf(),
            final(self).same_but_memory(*old(self)),
            final(self).memory.same_but_ram(old(self).memory),
            ({
                let is_static = address is Const && old(self).project.in_range(address->value);
                let fits = crate::array_memory::access_ok(
                    old(self).memory.word_size,
                    *address,
                    value.width() as u32,
                );
                match r {
                    Ok(_) => !is_static && fits && final(self).memory.ram.stores@
                        == crate::array_memory::spec_write(
                        old(self).memory.ram.stores@,
                        old(self).memory.ram.ptr_size,
                        old(self).memory.ram.endianness,
                        *address,
                        value,
                    ),
                    Err(GAError::WritingToStaticMemoryProhibited) => is_static
                        && final(self).memory.ram.stores@ == old(self).memory.ram.stores@,
                    Err(GAError::MemoryError(MemoryError::InconsistentWidth)) => !is_static
                        && !fits && final(self).memory.ram.stores@ == old(self).memory.ram.stores@,
                    Err(_) => false,
                }
            }),
    {
        if let Some(address_const) = address.get_constant() {
            if self.project.address_in_range(address_const) {
                return Err(GAError::WritingToStaticMemoryProhibited);
            }
        }
        match self.memory.set(address, value) {
            Ok(_) => Ok(()),
            Err(e) => Err(GAError::MemoryError(e)),
        }
    }

    /// What the decoder makes of `data`: its answer for the bytes and this
    /// state, passed on as [`translated`] says. Whether there is an
    /// instruction, and which, is for the decoder to say.
    pub fn instruction_from_array_ptr<A: Arch>(&self, arch: &A, data: &[u8]) -> (r: Result<
        Instruction2,
        GAError,
    >)
        ensures
            r matches Err(e) ==> e is ArchError,
    {
        translated(arch.translate(data, self))
    }

    /// The reader over the hooks of this state.
    pub fn reader(&self) -> (r: Reader<'a>)
        ensures
            r.container == self.hooks,
    {
        self.hooks.reader()
    }

    /// The writer over the hooks of this state.
    pub fn writer(&self) -> (r: Writer<'a>)
        ensures
            r.container == self.hooks,
    {
        self.hooks.writer()
    }
}

} // verus!
