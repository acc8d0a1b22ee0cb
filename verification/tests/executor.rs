use symex::arch::Arch;
use symex::arm::{ArmV6M, Hookable};
use symex::collections::NameTable;
use symex::dwarf_helper::{SubProgram, SubProgramMap};
use symex::error::{ArchError, GAError, SolverError};
use symex::executor::{
    branch, execute_instruction, execute_operation, fork, fork_decision, get_memory, resolve_pc,
    reads, resume_execution, run_intrinsic, set_memory, step, take_input, take_inputs, Config,
    DFSPathSelection, Fork, PathResult, SmtSolver, Solutions,
};
use symex::expr::Expr;
use symex::general::{DataWord, Endianness, WordSize};
use symex::hooks::{HookContainer, Intrinsic, MemoryReadHook, MemoryWriteHook, PCHook2};
use symex::instruction::{
    Condition, CycleCount2, Instruction2, Operand, Operation, StateCycles,
};
use symex::project::Project;
use symex::state::{GAState2, HookOrInstruction2};
use symex::vm::VM;

/// A solver that answers from a script and records what it was asked.
struct Scripted {
    sat: Vec<Result<bool, SolverError>>,
    values: Vec<Result<Solutions, SolverError>>,
    asked: Vec<(Vec<Expr>, Expr)>,
}

impl Scripted {
    fn silent() -> Self {
        Scripted { sat: vec![], values: vec![], asked: vec![] }
    }
}

impl SmtSolver for Scripted {
    fn is_sat_with_constraint(
        &mut self,
        constraints: &Vec<Expr>,
        extra: &Expr,
    ) -> Result<bool, SolverError> {
        self.asked.push((constraints.clone(), extra.clone()));
        if self.sat.is_empty() {
            Err(SolverError::Unknown)
        } else {
            self.sat.remove(0)
        }
    }

    fn get_values(
        &mut self,
        constraints: &Vec<Expr>,
        expr: &Expr,
        _upper_bound: usize,
    ) -> Result<Solutions, SolverError> {
        self.asked.push((constraints.clone(), expr.clone()));
        if self.values.is_empty() {
            Err(SolverError::Unknown)
        } else {
            self.values.remove(0)
        }
    }
}

/// A decoder that knows no instruction.
struct NoDecoder;

impl Arch for NoDecoder {
    fn translate(&self, _buff: &[u8], _state: &GAState2) -> Result<Instruction2, ArchError> {
        Err(ArchError::UnsuportedArchitechture)
    }
}

/// A decoder for a toy instruction set: byte 1 is "add 1 to R0", byte 2 is
/// "jump to LR", everything else is no instruction.
struct ToyDecoder;

impl Arch for ToyDecoder {
    fn translate(&self, buff: &[u8], _state: &GAState2) -> Result<Instruction2, ArchError> {
        match buff.first() {
            Some(1) => Ok(instruction(vec![Operation::Add {
                destination: reg("R0"),
                operand1: reg("R0"),
                operand2: imm(1),
            }])),
            Some(2) => Ok(instruction(vec![Operation::Move {
                destination: reg("PC"),
                source: reg("LR"),
            }])),
            _ => Err(ArchError::UnsuportedArchitechture),
        }
    }
}

fn reg(name: &str) -> Operand {
    Operand::Register(name.to_owned())
}

fn flag(name: &str) -> Operand {
    Operand::Flag(name.to_owned())
}

fn local(name: &str) -> Operand {
    Operand::Local(name.to_owned())
}

fn imm(value: u32) -> Operand {
    Operand::Immediate(DataWord::Word32(value))
}

fn instruction(operations: Vec<Operation>) -> Instruction2 {
    Instruction2 {
        instruction_size: 16,
        operations,
        max_cycle: CycleCount2::Value(1),
        memory_access: false,
    }
}

fn empty_project() -> Project {
    let mut project =
        Project::manual_project(vec![], 0, WordSize::Bit32, Endianness::Little).unwrap();
    project.add_symbol("main".to_owned(), 0);
    project.add_symbol("_stack_start".to_owned(), 0xffff_fff0);
    project
}

fn arm_hooks() -> HookContainer {
    let mut hooks = HookContainer::new();
    ArmV6M::new().add_hooks(&mut hooks, &SubProgramMap::empty());
    hooks
}

/// Sets registers, flags and memory by moves, as a test would.
fn initiate(state: &mut GAState2, values: Vec<(Operand, u32)>) {
    let mut paths = DFSPathSelection::new();
    let mut solver = Scripted::silent();
    let config = Config::new();
    let mut locals = NameTable::new();
    for (destination, value) in values {
        let operation = Operation::Move { destination, source: imm(value) };
        execute_operation(state, &mut paths, &mut solver, &config, &operation, &mut locals, 0)
            .expect("Malformed test");
    }
}

fn run(state: &mut GAState2, operations: Vec<Operation>) {
    let mut paths = DFSPathSelection::new();
    let mut solver = Scripted::silent();
    let config = Config::new();
    execute_instruction(state, &mut paths, &mut solver, &config, instruction(operations))
        .expect("Malformed instruction");
    assert!(paths.paths.is_empty());
}

fn register(state: &mut GAState2, name: &str) -> u64 {
    state
        .get_register(name.to_owned())
        .expect("Could not find a test specified register")
        .get_constant()
        .expect("Could not get test specified register as constant")
}

fn flag_value(state: &mut GAState2, name: &str) -> u64 {
    state
        .get_flag(name.to_owned())
        .expect("Could not find a test specified flag")
        .get_constant()
        .expect("Could not get test specified flag as constant")
}

fn word_at(state: &GAState2, address: u32) -> u64 {
    get_memory(state, &Expr::from_u64(address as u64, 32), 32)
        .expect("Could not read test specified address")
        .get_constant()
        .expect("Could not get test specified address as constant")
}

fn adc(set_flags: bool) -> Vec<Operation> {
    let mut operations = vec![];
    if set_flags {
        operations.push(Operation::Move { destination: local("n"), source: reg("R1") });
        operations.push(Operation::Move { destination: local("m"), source: reg("R2") });
    }
    operations.push(Operation::Adc {
        destination: reg("R1"),
        operand1: reg("R1"),
        operand2: reg("R2"),
    });
    if set_flags {
        operations.push(Operation::SetNFlag(reg("R1")));
        operations.push(Operation::SetZFlag(reg("R1")));
        operations.push(Operation::SetVFlag {
            operand1: local("n"),
            operand2: local("m"),
            sub: false,
            carry: true,
        });
        operations.push(Operation::SetCFlag {
            operand1: local("n"),
            operand2: local("m"),
            sub: false,
            carry: true,
        });
    }
    operations
}

#[test]
fn adc_without_flags_adds_the_carry_and_keeps_it() {
    let project = empty_project();
    let hooks = arm_hooks();
    let mut state = GAState2::new(&project, &hooks, "main", 0xffff_fffe).unwrap();
    initiate(&mut state, vec![(reg("R0"), 1), (reg("R1"), 2), (reg("R2"), 3), (flag("C"), 1)]);
    run(&mut state, adc(false));
    assert_eq!(register(&mut state, "R1"), 6);
    assert_eq!(flag_value(&mut state, "C"), 1);
}

#[test]
fn adc_with_flags_on_overflow() {
    let project = empty_project();
    let hooks = arm_hooks();
    let mut state = GAState2::new(&project, &hooks, "main", 0xffff_fffe).unwrap();
    initiate(
        &mut state,
        vec![(reg("R1"), 0x8000_0000), (reg("R2"), 0x8000_0000), (flag("C"), 0)],
    );
    run(&mut state, adc(true));
    assert_eq!(register(&mut state, "R1"), 0);
    assert_eq!(flag_value(&mut state, "C"), 1);
    assert_eq!(flag_value(&mut state, "Z"), 1);
    assert_eq!(flag_value(&mut state, "V"), 1);
    assert_eq!(flag_value(&mut state, "N"), 0);
}

#[test]
fn adc_with_flags_small_values() {
    let project = empty_project();
    let hooks = arm_hooks();
    let mut state = GAState2::new(&project, &hooks, "main", 0xffff_fffe).unwrap();
    initiate(&mut state, vec![(reg("R1"), 2), (reg("R2"), 3), (flag("C"), 1)]);
    run(&mut state, adc(true));
    assert_eq!(register(&mut state, "R1"), 6);
    assert_eq!(flag_value(&mut state, "C"), 0);
    assert_eq!(flag_value(&mut state, "Z"), 0);
    assert_eq!(flag_value(&mut state, "V"), 0);
}

#[test]
fn asr_immediate_with_flags() {
    let project = empty_project();
    let hooks = arm_hooks();
    let mut state = GAState2::new(&project, &hooks, "main", 0xffff_fffe).unwrap();
    initiate(
        &mut state,
        vec![(reg("R1"), 0x8000_0001), (flag("C"), 0), (flag("Z"), 0), (flag("N"), 0)],
    );
    let asrs = || {
        vec![
            Operation::SetCFlagSra { operand: reg("R1"), shift: imm(1) },
            Operation::Sra { destination: reg("R1"), operand: reg("R1"), shift: imm(1) },
            Operation::SetNFlag(reg("R1")),
            Operation::SetZFlag(reg("R1")),
        ]
    };
    run(&mut state, asrs());
    assert_eq!(register(&mut state, "R1"), 0xc000_0000);
    assert_eq!(flag_value(&mut state, "C"), 1);
    assert_eq!(flag_value(&mut state, "N"), 1);

    initiate(
        &mut state,
        vec![(reg("R1"), 0x0000_0001), (flag("C"), 0), (flag("Z"), 0), (flag("N"), 0)],
    );
    run(&mut state, asrs());
    assert_eq!(register(&mut state, "R1"), 0);
    assert_eq!(flag_value(&mut state, "C"), 1);
    assert_eq!(flag_value(&mut state, "Z"), 1);
    assert_eq!(flag_value(&mut state, "N"), 0);
}

fn branch_to(condition: Condition, offset: u32) -> Vec<Operation> {
    vec![
        Operation::Add { destination: local("target"), operand1: reg("PC"), operand2: imm(4) },
        Operation::Add {
            destination: local("target"),
            operand1: local("target"),
            operand2: imm(offset),
        },
        Operation::ConditionalJump { destination: local("target"), condition },
    ]
}

#[test]
fn conditional_branch_taken_and_not_taken() {
    let project = empty_project();
    let hooks = arm_hooks();
    let mut state = GAState2::new(&project, &hooks, "main", 0xffff_fffe).unwrap();
    initiate(&mut state, vec![(reg("PC"), 0), (flag("C"), 1)]);
    run(&mut state, branch_to(Condition::CS, 1230));
    assert_eq!(register(&mut state, "PC"), 1234);
    assert!(state.get_has_jumped());

    initiate(&mut state, vec![(reg("PC"), 0), (flag("C"), 1)]);
    run(&mut state, branch_to(Condition::CC, 1230));
    assert_eq!(register(&mut state, "PC"), 2);
    assert!(!state.get_has_jumped());
}

fn push(registers: &[&str]) -> Vec<Operation> {
    let bytes = 4 * registers.len() as u32;
    let mut operations = vec![Operation::Sub {
        destination: local("address"),
        operand1: reg("SP"),
        operand2: imm(bytes),
    }];
    for r in registers {
        operations.push(Operation::Move {
            destination: Operand::AddressInLocal("address".to_owned(), 32),
            source: reg(r),
        });
        operations.push(Operation::Add {
            destination: local("address"),
            operand1: local("address"),
            operand2: imm(4),
        });
    }
    operations.push(Operation::Sub {
        destination: reg("SP"),
        operand1: reg("SP"),
        operand2: imm(bytes),
    });
    operations
}

fn pop(registers: &[&str]) -> Vec<Operation> {
    let bytes = 4 * registers.len() as u32;
    let mut operations =
        vec![Operation::Move { destination: local("address"), source: reg("SP") }];
    operations.push(Operation::Add {
        destination: reg("SP"),
        operand1: reg("SP"),
        operand2: imm(bytes),
    });
    for r in registers {
        operations.push(Operation::Move {
            destination: reg(r),
            source: Operand::AddressInLocal("address".to_owned(), 32),
        });
        operations.push(Operation::Add {
            destination: local("address"),
            operand1: local("address"),
            operand2: imm(4),
        });
    }
    operations
}

#[test]
fn push_stores_below_the_stack_pointer() {
    let project = empty_project();
    let hooks = arm_hooks();
    let mut state = GAState2::new(&project, &hooks, "main", 0xffff_fffe).unwrap();
    initiate(
        &mut state,
        vec![
            (reg("SP"), 0x110),
            (reg("R4"), 0x1001),
            (reg("R5"), 0x1002),
            (reg("R7"), 0x1003),
            (reg("LR"), 0x1003),
        ],
    );
    run(&mut state, push(&["R4", "R5", "R7", "LR"]));
    assert_eq!(word_at(&state, 0x100), 0x1001);
    assert_eq!(word_at(&state, 0x104), 0x1002);
    assert_eq!(word_at(&state, 0x108), 0x1003);
    assert_eq!(word_at(&state, 0x10c), 0x1003);
    assert_eq!(register(&mut state, "SP"), 0x100);
}

#[test]
fn push_then_pop_restores_registers_and_stack() {
    let project = empty_project();
    let hooks = arm_hooks();
    let mut state = GAState2::new(&project, &hooks, "main", 0xffff_fffe).unwrap();
    initiate(
        &mut state,
        vec![
            (reg("SP"), 0x110),
            (reg("R4"), 0x1001),
            (reg("R5"), 0x1002),
            (reg("R7"), 0x1003),
            (reg("LR"), 0x1003),
        ],
    );
    run(&mut state, push(&["R4", "R5", "R7", "LR"]));
    initiate(&mut state, vec![(reg("R4"), 0), (reg("R5"), 0), (reg("R7"), 0)]);
    run(&mut state, pop(&["R4", "R5", "R7", "PC"]));
    assert_eq!(register(&mut state, "R4"), 0x1001);
    assert_eq!(register(&mut state, "R5"), 0x1002);
    assert_eq!(register(&mut state, "R7"), 0x1003);
    assert_eq!(register(&mut state, "PC"), 0x1003);
    assert_eq!(register(&mut state, "SP"), 0x110);
}

#[test]
fn symbolic_size_makes_a_word_unconstrained_and_returns() {
    let project = empty_project();
    let hooks = arm_hooks();
    let mut state = GAState2::new(&project, &hooks, "main", 0xffff_fffe).unwrap();
    initiate(&mut state, vec![(reg("R0"), 0x2000_0000), (reg("R1"), 4), (reg("LR"), 0x400)]);
    let mut paths = DFSPathSelection::new();
    let mut solver = Scripted::silent();
    run_intrinsic(&mut state, &mut paths, &mut solver, &Config::new(), Intrinsic::SymbolicSize)
        .unwrap();
    assert_eq!(register(&mut state, "PC"), 0x400);
    let read = get_memory(&state, &Expr::from_u64(0x2000_0000, 32), 32).unwrap();
    assert_eq!(read, Expr::Symbol { name: "any_0".to_owned(), width: 32 });
    assert_eq!(read.get_constant(), None);
    // The next symbolic value has another name.
    initiate(&mut state, vec![(reg("R0"), 0x2000_0010), (reg("R1"), 2)]);
    run_intrinsic(&mut state, &mut paths, &mut solver, &Config::new(), Intrinsic::SymbolicSize)
        .unwrap();
    let read = get_memory(&state, &Expr::from_u64(0x2000_0010, 32), 16).unwrap();
    assert_eq!(read, Expr::Symbol { name: "any_1".to_owned(), width: 16 });
}

#[test]
fn symbolic_size_fails_on_a_symbolic_size() {
    let project = empty_project();
    let hooks = arm_hooks();
    let mut state = GAState2::new(&project, &hooks, "main", 0xffff_fffe).unwrap();
    initiate(&mut state, vec![(reg("R0"), 0x2000_0000)]);
    let mut paths = DFSPathSelection::new();
    let mut solver = Scripted::silent();
    let r = run_intrinsic(
        &mut state,
        &mut paths,
        &mut solver,
        &Config::new(),
        Intrinsic::SymbolicSize,
    );
    assert_eq!(
        r,
        Err(PathResult::Failure("intrinsic called with unusable arguments".to_owned()))
    );
}

#[test]
fn cycle_count_intrinsics() {
    let project = empty_project();
    let hooks = arm_hooks();
    let mut state = GAState2::new(&project, &hooks, "main", 0xffff_fffe).unwrap();
    initiate(&mut state, vec![(reg("LR"), 0x400)]);
    run(&mut state, vec![Operation::Nop]);
    run(&mut state, vec![Operation::Nop]);
    assert_eq!(state.cycle_count, 2);
    let mut paths = DFSPathSelection::new();
    let mut solver = Scripted::silent();
    run_intrinsic(&mut state, &mut paths, &mut solver, &Config::new(), Intrinsic::StartCycleCount)
        .unwrap();
    assert_eq!(state.cycle_count, 0);
    assert_eq!(register(&mut state, "PC"), 0x400);
    run(&mut state, vec![Operation::Nop]);
    assert_eq!(state.cycle_count, 1);
    run_intrinsic(&mut state, &mut paths, &mut solver, &Config::new(), Intrinsic::EndCycleCount)
        .unwrap();
    assert!(!state.count_cycles);
    run(&mut state, vec![Operation::Nop]);
    assert_eq!(state.cycle_count, 1);
}

#[test]
fn cycles_depend_on_the_branch() {
    let project = empty_project();
    let hooks = arm_hooks();
    let mut state = GAState2::new(&project, &hooks, "main", 0xffff_fffe).unwrap();
    let branch_instruction = |condition| Instruction2 {
        instruction_size: 16,
        operations: branch_to(condition, 100),
        max_cycle: CycleCount2::Function(StateCycles::Branch { taken: 3, not_taken: 1 }),
        memory_access: false,
    };
    initiate(&mut state, vec![(flag("C"), 1)]);
    let mut paths = DFSPathSelection::new();
    let mut solver = Scripted::silent();
    let config = Config::new();
    execute_instruction(
        &mut state,
        &mut paths,
        &mut solver,
        &config,
        branch_instruction(Condition::CC),
    )
    .unwrap();
    assert_eq!(state.cycle_count, 1);
    execute_instruction(
        &mut state,
        &mut paths,
        &mut solver,
        &config,
        branch_instruction(Condition::CS),
    )
    .unwrap();
    assert_eq!(state.cycle_count, 4);
    assert_eq!(state.get_instruction_count(), 2);
}

#[test]
fn instruction_advances_the_program_counter_by_its_size() {
    let project = empty_project();
    let hooks = arm_hooks();
    let mut state = GAState2::new(&project, &hooks, "main", 0xffff_fffe).unwrap();
    initiate(&mut state, vec![(reg("PC"), 0x100)]);
    run(&mut state, vec![Operation::Nop]);
    assert_eq!(register(&mut state, "PC"), 0x102);
    assert_eq!(state.last_pc, 0x100);
    let wide = Instruction2 {
        instruction_size: 32,
        operations: vec![],
        max_cycle: CycleCount2::Value(0),
        memory_access: false,
    };
    let mut paths = DFSPathSelection::new();
    let mut solver = Scripted::silent();
    execute_instruction(&mut state, &mut paths, &mut solver, &Config::new(), wide).unwrap();
    assert_eq!(register(&mut state, "PC"), 0x106);
    // A jump to the instruction's own address is a jump: no advance.
    initiate(&mut state, vec![(reg("PC"), 0x200)]);
    run(&mut state, vec![Operation::Move { destination: reg("PC"), source: imm(0x200) }]);
    assert_eq!(register(&mut state, "PC"), 0x200);
}

#[test]
fn pc_plus_hooks_read_one_more_and_write_the_program_counter() {
    let project = empty_project();
    let hooks = arm_hooks();
    let mut state = GAState2::new(&project, &hooks, "main", 0xffff_fffe).unwrap();
    initiate(&mut state, vec![(reg("PC"), 0x100)]);
    assert_eq!(register(&mut state, "PC+"), 0x101);
    assert_eq!(register(&mut state, "PC"), 0x100);
    initiate(&mut state, vec![(reg("PC+"), 0x300)]);
    assert_eq!(register(&mut state, "PC"), 0x300);
}

#[test]
fn symbolic_branch_forks_and_sibling_carries_the_negated_guard() {
    let project = empty_project();
    let hooks = arm_hooks();
    let mut state = GAState2::new(&project, &hooks, "main", 0xffff_fffe).unwrap();
    let mut paths = DFSPathSelection::new();
    let mut solver = Scripted::silent();
    solver.sat = vec![Ok(true), Ok(true)];
    let config = Config::new();
    let parent = state.constraints.clone();
    execute_instruction(
        &mut state,
        &mut paths,
        &mut solver,
        &config,
        instruction(branch_to(Condition::EQ, 100)),
    )
    .unwrap();
    let z = Expr::Symbol { name: "flags.Z".to_owned(), width: 1 };
    // This path took the branch under the guard.
    let mut taken = parent.clone();
    taken.push(z.clone());
    assert_eq!(state.constraints, taken);
    assert_eq!(state.memory.pc, 104);
    // The sibling waits with the negated guard and the parent's condition.
    assert_eq!(paths.paths.len(), 1);
    assert_eq!(paths.paths[0].constraints, vec![z.not()]);
    assert_eq!(paths.paths[0].state.constraints, parent);
    let cursor = paths.paths[0].state.continue_in_instruction.as_ref().unwrap();
    assert_eq!(cursor.index, 2);
    // The solver was asked for the guard and for its negation.
    assert_eq!(solver.asked.len(), 2);
    assert_eq!(solver.asked[0].1, z);
    assert_eq!(solver.asked[1].1, z.not());
}

#[test]
fn sibling_resumes_inside_the_instruction() {
    let project = empty_project();
    let hooks = {
        let mut hooks = arm_hooks();
        hooks.add_pc_hook(2, PCHook2::EndSuccess);
        hooks.add_pc_hook(104, PCHook2::EndFailure("taken"));
        hooks
    };
    let state = GAState2::new(&project, &hooks, "main", 0xffff_fffe).unwrap();
    let mut vm = VM::new_with_state(&project, state);
    let mut first_solver = Scripted::silent();
    first_solver.sat = vec![Ok(true), Ok(true)];
    let config = Config::new();
    let mut state = vm.paths.get_path().unwrap().state;
    execute_instruction(
        &mut state,
        &mut vm.paths,
        &mut first_solver,
        &config,
        instruction(branch_to(Condition::EQ, 100)),
    )
    .unwrap();
    // The sibling: with the negated guard asserted only "not taken" is possible.
    let mut solver = Scripted::silent();
    solver.sat = vec![Ok(false), Ok(true)];
    let (result, end, constraints) =
        vm.run(&NoDecoder, &mut solver, &config).unwrap().unwrap();
    assert_eq!(result, PathResult::Success(None));
    assert_eq!(end.memory.pc, 2);
    assert_eq!(constraints.len(), 1);
    assert_eq!(end.constraints, constraints);
    assert_eq!(end.get_instruction_count(), 1);
    assert!(vm.run(&NoDecoder, &mut solver, &config).unwrap().is_none());
}

#[test]
fn branch_with_one_feasible_side_does_not_fork() {
    let project = empty_project();
    let hooks = arm_hooks();
    let mut state = GAState2::new(&project, &hooks, "main", 0xffff_fffe).unwrap();
    let guard = Expr::unconstrained(1, "g");
    let locals = NameTable::new();
    let mut paths = DFSPathSelection::new();
    let mut solver = Scripted::silent();
    solver.sat = vec![Ok(false), Ok(true)];
    assert_eq!(branch(&mut state, &mut paths, &mut solver, &guard, 0, &locals), Ok(false));
    solver.sat = vec![Ok(true), Ok(false)];
    assert_eq!(branch(&mut state, &mut paths, &mut solver, &guard, 0, &locals), Ok(true));
    assert!(paths.paths.is_empty());
    assert!(state.constraints.is_empty());
    solver.sat = vec![Ok(false), Ok(false)];
    assert_eq!(
        branch(&mut state, &mut paths, &mut solver, &guard, 0, &locals),
        Err(PathResult::AssumptionUnsat)
    );
    solver.sat = vec![Err(SolverError::Unknown)];
    assert_eq!(
        branch(&mut state, &mut paths, &mut solver, &guard, 0, &locals),
        Err(PathResult::Failure("Solver error.".to_owned()))
    );
    // A constant guard asks nothing.
    let asked = solver.asked.len();
    assert_eq!(
        branch(&mut state, &mut paths, &mut solver, &Expr::from_bool(true), 0, &locals),
        Ok(true)
    );
    assert_eq!(solver.asked.len(), asked);
}

#[test]
fn symbolic_program_counter_is_resolved_to_each_value() {
    let project = empty_project();
    let hooks = arm_hooks();
    let mut state = GAState2::new(&project, &hooks, "main", 0xffff_fffe).unwrap();
    let mut paths = DFSPathSelection::new();
    let mut solver = Scripted::silent();
    solver.values = vec![Ok(Solutions::Exactly(vec![
        Expr::from_u64(0x100, 32),
        Expr::from_u64(0x200, 32),
        Expr::from_u64(0x300, 32),
    ]))];
    let config = Config::new();
    execute_instruction(
        &mut state,
        &mut paths,
        &mut solver,
        &config,
        instruction(vec![Operation::Move { destination: reg("PC"), source: reg("R3") }]),
    )
    .unwrap();
    let r3 = Expr::Symbol { name: "R3".to_owned(), width: 32 };
    assert_eq!(state.memory.pc, 0x100);
    assert_eq!(state.constraints, vec![r3.eq(&Expr::from_u64(0x100, 32))]);
    assert_eq!(paths.paths.len(), 2);
    assert_eq!(paths.paths[0].state.memory.pc, 0x200);
    assert_eq!(paths.paths[0].state.constraints, vec![r3.eq(&Expr::from_u64(0x200, 32))]);
    assert_eq!(paths.paths[1].state.memory.pc, 0x300);
    assert_eq!(paths.paths[1].state.constraints, vec![r3.eq(&Expr::from_u64(0x300, 32))]);
}

#[test]
fn symbolic_program_counter_with_too_many_values_fails_the_path() {
    let project = empty_project();
    let hooks = arm_hooks();
    let mut state = GAState2::new(&project, &hooks, "main", 0xffff_fffe).unwrap();
    let mut paths = DFSPathSelection::new();
    let mut solver = Scripted::silent();
    solver.values = vec![Ok(Solutions::AtLeast(vec![Expr::from_u64(0x100, 32)]))];
    let r = execute_instruction(
        &mut state,
        &mut paths,
        &mut solver,
        &Config::new(),
        instruction(vec![Operation::Move { destination: reg("PC"), source: reg("R3") }]),
    );
    assert_eq!(r, Err(PathResult::Failure("symbolic branch unresolved".to_owned())));
    assert!(paths.paths.is_empty());
    solver.values = vec![Ok(Solutions::Exactly(vec![]))];
    let r = execute_instruction(
        &mut state,
        &mut paths,
        &mut solver,
        &Config::new(),
        instruction(vec![Operation::Move { destination: reg("PC"), source: reg("R3") }]),
    );
    assert_eq!(r, Err(PathResult::AssumptionUnsat));
    // What the solver gives is checked: a symbol is no value.
    solver.values = vec![Ok(Solutions::Exactly(vec![Expr::unconstrained(32, "x")]))];
    let r = execute_instruction(
        &mut state,
        &mut paths,
        &mut solver,
        &Config::new(),
        instruction(vec![Operation::Move { destination: reg("PC"), source: reg("R3") }]),
    );
    assert_eq!(r, Err(PathResult::Failure("Solver error.".to_owned())));
}

#[test]
fn it_block_condition_guards_the_next_instruction() {
    let project = empty_project();
    let hooks = arm_hooks();
    let mut state = GAState2::new(&project, &hooks, "main", 0xffff_fffe).unwrap();
    initiate(&mut state, vec![(flag("Z"), 1), (reg("R0"), 0)]);
    run(
        &mut state,
        vec![Operation::ConditionalExecution { conditions: vec![Condition::EQ, Condition::NE] }],
    );
    assert!(state.get_in_conditional_block());
    let add = || {
        vec![Operation::Add { destination: reg("R0"), operand1: reg("R0"), operand2: imm(5) }]
    };
    run(&mut state, add());
    assert_eq!(register(&mut state, "R0"), 5);
    run(&mut state, add());
    assert_eq!(register(&mut state, "R0"), 5);
    assert!(!state.get_in_conditional_block());
    run(&mut state, add());
    assert_eq!(register(&mut state, "R0"), 10);
    assert_eq!(register(&mut state, "PC"), 8);
}

#[test]
fn memory_hooks_run_ranges_first_and_the_address_last() {
    let project = empty_project();
    let mut hooks = HookContainer::new();
    hooks.add_range_memory_read_hook(
        (0x1000, 0x1fff),
        MemoryReadHook::Constant(DataWord::Word32(1)),
    );
    hooks.add_memory_read_hook(0x1004, MemoryReadHook::Constant(DataWord::Word32(2)));
    hooks.add_range_memory_write_hook((0x2000, 0x2fff), MemoryWriteHook::Store);
    hooks.add_memory_write_hook(0x2004, MemoryWriteHook::Discard);
    hooks.add_memory_write_hook(0x3000, MemoryWriteHook::Discard);
    let mut state = GAState2::new(&project, &hooks, "main", 0xffff_fffe).unwrap();
    // Only the range applies.
    assert_eq!(word_at(&state, 0x1000), 1);
    // Both apply: the hook of the address has the last word.
    assert_eq!(word_at(&state, 0x1004), 2);
    let dispatch = state.reader().read_memory(&state.memory, &Expr::from_u64(0x1004, 32), 32);
    match dispatch {
        symex::hooks::ResultOrHook::Hooks(hooks) => assert_eq!(
            hooks,
            vec![
                MemoryReadHook::Constant(DataWord::Word32(1)),
                MemoryReadHook::Constant(DataWord::Word32(2))
            ]
        ),
        _ => panic!("hooks expected"),
    }
    // A write that a range stores and the address discards reaches memory.
    set_memory(&mut state, &Expr::from_u64(0x2004, 32), Expr::from_u64(7, 32)).unwrap();
    assert_eq!(word_at(&state, 0x2004), 7);
    // A write that is only discarded does not.
    set_memory(&mut state, &Expr::from_u64(0x3000, 32), Expr::from_u64(7, 32)).unwrap();
    assert_eq!(
        get_memory(&state, &Expr::from_u64(0x3000, 32), 8).unwrap(),
        Expr::Initial { address: Box::new(Expr::from_u64(0x3000, 32)) }
    );
}

#[test]
fn reset_done_register_reads_all_ones() {
    let project = empty_project();
    let hooks = arm_hooks();
    let state = GAState2::new(&project, &hooks, "main", 0xffff_fffe).unwrap();
    assert_eq!(word_at(&state, 0x4000_c008), 0xffff_ffff);
}

#[test]
fn static_memory_is_read_from_the_image_and_not_written() {
    let mut project = Project::manual_project(
        vec![0x04, 0x03, 0x02, 0x01, 0xaa, 0xbb],
        0x800,
        WordSize::Bit32,
        Endianness::Little,
    )
    .unwrap();
    project.add_symbol("main".to_owned(), 0x800);
    project.add_symbol("_stack_start".to_owned(), 0x2000_0000);
    let hooks = HookContainer::new();
    let mut state = GAState2::new(&project, &hooks, "main", 0xffff_fffe).unwrap();
    set_memory(&mut state, &Expr::from_u64(0x7fc, 32), Expr::from_u64(0xdead_beef, 32)).unwrap();
    assert_eq!(word_at(&state, 0x800), 0x0102_0304);
    assert_eq!(
        get_memory(&state, &Expr::from_u64(0x804, 32), 16).unwrap().get_constant(),
        Some(0xbbaa)
    );
    assert_eq!(
        get_memory(&state, &Expr::from_u64(0x804, 32), 32),
        Err(GAError::MemoryError(symex::error::MemoryError::OutOfBounds))
    );
    assert_eq!(
        set_memory(&mut state, &Expr::from_u64(0x802, 32), Expr::from_u64(1, 8)),
        Err(GAError::WritingToStaticMemoryProhibited)
    );
    assert_eq!(
        state.write_word_to_memory(&Expr::from_u64(0x800, 32), Expr::from_u64(1, 32)),
        Err(GAError::WritingToStaticMemoryProhibited)
    );
    assert_eq!(word_at(&state, 0x800), 0x0102_0304);
    assert_eq!(
        state.read_word_from_memory(&Expr::from_u64(0x800, 32)).unwrap().get_constant(),
        Some(0x0102_0304)
    );
}

#[test]
fn path_that_returns_through_lr_ends_as_success() {
    let mut project = Project::manual_project(
        vec![1, 0, 1, 0, 2, 0],
        0x100,
        WordSize::Bit32,
        Endianness::Little,
    )
    .unwrap();
    project.add_symbol("main".to_owned(), 0x100);
    project.add_symbol("_stack_start".to_owned(), 0x2000_0000);
    let mut hooks = arm_hooks();
    hooks.add_pc_hook(0xffff_fffe, PCHook2::EndSuccess);
    let mut vm = VM::new(&project, &hooks, "main", 0xffff_fffe).unwrap();
    let mut solver = Scripted::silent();
    let config = Config::new();
    initiate(&mut vm.paths.paths[0].state, vec![(reg("R0"), 40)]);
    let (result, mut state, constraints) =
        vm.run(&ToyDecoder, &mut solver, &config).unwrap().unwrap();
    assert_eq!(result, PathResult::Success(None));
    assert!(constraints.is_empty());
    assert_eq!(register(&mut state, "R0"), 42);
    assert_eq!(state.memory.pc, 0xffff_fffe);
    assert_eq!(state.get_instruction_count(), 3);
    assert_eq!(state.cycle_count, 3);
    assert!(vm.run(&ToyDecoder, &mut solver, &config).unwrap().is_none());
    // At the sentinel nothing more executes.
    let before = state.get_instruction_count();
    let mut paths = DFSPathSelection::new();
    let again = resume_execution(&mut state, &mut paths, &ToyDecoder, &mut solver, &config);
    assert_eq!(again, PathResult::Success(None));
    assert_eq!(state.get_instruction_count(), before);
}

#[test]
fn hooks_on_the_program_counter_end_the_path() {
    let mut project =
        Project::manual_project(vec![1, 0], 0x100, WordSize::Bit32, Endianness::Little).unwrap();
    project.add_symbol("main".to_owned(), 0x100);
    project.add_symbol("_stack_start".to_owned(), 0x2000_0000);
    let mut hooks = arm_hooks();
    hooks.add_pc_hook(0x102, PCHook2::EndFailure("explicit panic"));
    let mut vm = VM::new(&project, &hooks, "main", 0xffff_fffe).unwrap();
    let mut solver = Scripted::silent();
    let (result, state, _) = vm.run(&ToyDecoder, &mut solver, &Config::new()).unwrap().unwrap();
    assert_eq!(result, PathResult::Failure("explicit panic".to_owned()));
    assert_eq!(state.get_instruction_count(), 1);

    let mut hooks = arm_hooks();
    hooks.add_pc_hook(0x100, PCHook2::Suppress);
    let mut vm = VM::new(&project, &hooks, "main", 0xffff_fffe).unwrap();
    let (result, state, _) = vm.run(&ToyDecoder, &mut solver, &Config::new()).unwrap().unwrap();
    assert_eq!(result, PathResult::Suppress);
    assert_eq!(state.get_instruction_count(), 0);
}

#[test]
fn errors_end_the_path_as_failures() {
    let mut project =
        Project::manual_project(vec![9, 0], 0x100, WordSize::Bit32, Endianness::Little).unwrap();
    project.add_symbol("main".to_owned(), 0x100);
    project.add_symbol("_stack_start".to_owned(), 0x2000_0000);
    let hooks = arm_hooks();
    let mut solver = Scripted::silent();
    // The decoder does not know the instruction.
    let mut vm = VM::new(&project, &hooks, "main", 0xffff_fffe).unwrap();
    let (result, _, _) = vm.run(&ToyDecoder, &mut solver, &Config::new()).unwrap().unwrap();
    assert_eq!(result, PathResult::Failure("Architecture error.".to_owned()));
    // The program counter leaves the image.
    let mut vm = VM::new(&project, &hooks, "main", 0xffff_fffe).unwrap();
    initiate(&mut vm.paths.paths[0].state, vec![(reg("PC"), 0x5000)]);
    let (result, _, _) = vm.run(&ToyDecoder, &mut solver, &Config::new()).unwrap().unwrap();
    assert_eq!(result, PathResult::Failure("Memory error: out of bounds.".to_owned()));
}

#[test]
fn iteration_budget_ends_an_endless_loop() {
    // One instruction that adds and, behind it, a jump to LR, which points back.
    let mut project = Project::manual_project(
        vec![1, 0, 2, 0],
        0x100,
        WordSize::Bit32,
        Endianness::Little,
    )
    .unwrap();
    project.add_symbol("main".to_owned(), 0x100);
    project.add_symbol("_stack_start".to_owned(), 0x2000_0000);
    let hooks = arm_hooks();
    let mut vm = VM::new(&project, &hooks, "main", 0x100).unwrap();
    let mut solver = Scripted::silent();
    let mut config = Config::new();
    config.max_iter_count = 10;
    let (result, state, _) = vm.run(&ToyDecoder, &mut solver, &config).unwrap().unwrap();
    assert_eq!(result, PathResult::Failure("iteration budget exceeded".to_owned()));
    assert_eq!(state.get_instruction_count(), 10);
}

#[test]
fn vm_new_fails_without_entry_or_stack() {
    let project =
        Project::manual_project(vec![], 0, WordSize::Bit32, Endianness::Little).unwrap();
    let hooks = HookContainer::new();
    assert_eq!(
        VM::new(&project, &hooks, "main", 0xffff_fffe).err(),
        Some(GAError::EntryFunctionNotFound("main".to_owned()))
    );
    let mut project = project;
    project.add_symbol("main".to_owned(), 0);
    assert_eq!(
        VM::new(&project, &hooks, "main", 0xffff_fffe).err(),
        Some(GAError::ProjectError(symex::error::ProjectError::UnableToParseElf(
            "start of stack not found".to_owned()
        )))
    );
}

#[test]
fn new_state_starts_at_the_entry_with_stack_and_link_register() {
    let mut project =
        Project::manual_project(vec![], 0, WordSize::Bit32, Endianness::Big).unwrap();
    project.add_symbol("main".to_owned(), 0x1234);
    project.add_symbol("_stack_start".to_owned(), 0x2000_1000);
    let hooks = HookContainer::new();
    let mut state = GAState2::new(&project, &hooks, "main", 0xffff_fffe).unwrap();
    assert_eq!(register(&mut state, "PC"), 0x1234);
    assert_eq!(register(&mut state, "SP"), 0x2000_1000);
    assert_eq!(register(&mut state, "LR"), 0xffff_fffe);
    assert_eq!(
        state.get_flag("N".to_owned()).unwrap(),
        Expr::Symbol { name: "flags.N".to_owned(), width: 1 }
    );
    assert_eq!(state.cycle_count, 0);
    assert!(state.count_cycles);
    assert_eq!(state.get_instruction_count(), 0);
    assert!(!state.get_has_jumped());
    assert!(state.constraints.is_empty());
    assert!(state.get_last_instruction().is_none());
}

#[test]
fn unwritten_register_reads_the_same_expression_twice() {
    let project = empty_project();
    let hooks = arm_hooks();
    let mut state = GAState2::new(&project, &hooks, "main", 0xffff_fffe).unwrap();
    let first = state.get_register("R5".to_owned()).unwrap();
    let second = state.get_register("R5".to_owned()).unwrap();
    assert_eq!(first, Expr::Symbol { name: "R5".to_owned(), width: 32 });
    assert_eq!(first, second);
}

#[test]
fn condition_expressions_over_constant_flags() {
    let project = empty_project();
    let hooks = arm_hooks();
    let mut state = GAState2::new(&project, &hooks, "main", 0xffff_fffe).unwrap();
    let all = [
        Condition::EQ,
        Condition::NE,
        Condition::CS,
        Condition::CC,
        Condition::MI,
        Condition::PL,
        Condition::VS,
        Condition::VC,
        Condition::HI,
        Condition::LS,
        Condition::GE,
        Condition::LT,
        Condition::GT,
        Condition::LE,
        Condition::Always,
    ];
    // N=1 Z=0 C=1 V=0
    initiate(&mut state, vec![(flag("N"), 1), (flag("Z"), 0), (flag("C"), 1), (flag("V"), 0)]);
    let expected = [0, 1, 1, 0, 1, 0, 0, 1, 1, 0, 0, 1, 0, 1, 1];
    for (condition, want) in all.iter().zip(expected) {
        assert_eq!(
            state.get_expr(condition).unwrap().get_constant(),
            Some(want),
            "{:?}",
            condition
        );
    }
    // N=0 Z=1 C=0 V=1
    initiate(&mut state, vec![(flag("N"), 0), (flag("Z"), 1), (flag("C"), 0), (flag("V"), 1)]);
    let expected = [1, 0, 0, 1, 0, 1, 1, 0, 0, 1, 0, 1, 0, 1, 1];
    for (condition, want) in all.iter().zip(expected) {
        assert_eq!(
            state.get_expr(condition).unwrap().get_constant(),
            Some(want),
            "{:?}",
            condition
        );
    }
}

#[test]
fn program_counter_takes_constants_only() {
    let project = empty_project();
    let hooks = arm_hooks();
    let mut state = GAState2::new(&project, &hooks, "main", 0xffff_fffe).unwrap();
    let symbol = Expr::unconstrained(32, "x");
    assert_eq!(
        state.set_register("PC".to_owned(), symbol.clone()),
        Err(GAError::NonDeterministicPC)
    );
    assert_eq!(state.set_register("PC+".to_owned(), symbol), Err(GAError::NonDeterministicPC));
    assert_eq!(state.memory.pc, 0);
    assert_eq!(state.set_register("PC".to_owned(), Expr::from_u64(0x40, 32)), Ok(()));
    assert_eq!(state.memory.pc, 0x40);
    assert_eq!(state.register_target("PC+"), "PC");
    assert_eq!(state.register_target("R1"), "R1");
}

#[test]
fn accesses_of_odd_widths_are_refused() {
    let project = empty_project();
    let hooks = arm_hooks();
    let mut state = GAState2::new(&project, &hooks, "main", 0xffff_fffe).unwrap();
    let addr = Expr::from_u64(0x100, 32);
    let width = Err(GAError::MemoryError(symex::error::MemoryError::InconsistentWidth));
    assert_eq!(get_memory(&state, &addr, 12), width);
    assert_eq!(get_memory(&state, &addr, 0), width);
    assert_eq!(get_memory(&state, &Expr::from_u64(0x100, 16), 8), width);
    assert_eq!(set_memory(&mut state, &addr, Expr::from_u64(1, 12)), Err(
        GAError::MemoryError(symex::error::MemoryError::InconsistentWidth)
    ));
    assert_eq!(set_memory(&mut state, &Expr::from_u64(1, 8), Expr::from_u64(1, 8)), Err(
        GAError::MemoryError(symex::error::MemoryError::InconsistentWidth)
    ));
    assert!(state.memory.ram.stores.is_empty());
    assert_eq!(
        state.set_flag("N".to_owned(), Expr::from_u64(1, 2)),
        Err(GAError::MemoryError(symex::error::MemoryError::InconsistentWidth))
    );
    // An operation on values of different widths fails the path.
    let mut paths = DFSPathSelection::new();
    let mut solver = Scripted::silent();
    let mut locals = NameTable::new();
    let r = execute_operation(
        &mut state,
        &mut paths,
        &mut solver,
        &Config::new(),
        &Operation::Add {
            destination: reg("R0"),
            operand1: Operand::Immediate(DataWord::Word8(1)),
            operand2: Operand::Immediate(DataWord::Word16(1)),
        },
        &mut locals,
        0,
    );
    assert_eq!(r, Err(PathResult::Failure("Memory error: inconsistent width.".to_owned())));
    let r = execute_operation(
        &mut state,
        &mut paths,
        &mut solver,
        &Config::new(),
        &Operation::Move { destination: imm(1), source: imm(2) },
        &mut locals,
        0,
    );
    assert_eq!(r, Err(PathResult::Failure("Architecture error.".to_owned())));
    let r = execute_operation(
        &mut state,
        &mut paths,
        &mut solver,
        &Config::new(),
        &Operation::Move { destination: reg("R0"), source: local("unset") },
        &mut locals,
        0,
    );
    assert_eq!(r, Err(PathResult::Failure("Architecture error.".to_owned())));
}

#[test]
fn bitwise_operations_and_shifts() {
    let project = empty_project();
    let hooks = arm_hooks();
    let mut state = GAState2::new(&project, &hooks, "main", 0xffff_fffe).unwrap();
    initiate(&mut state, vec![(reg("R1"), 0b1100), (reg("R2"), 0b1010)]);
    let three = |make: fn(Operand, Operand, Operand) -> Operation| {
        make(reg("R0"), reg("R1"), reg("R2"))
    };
    run(
        &mut state,
        vec![three(|destination, operand1, operand2| Operation::And {
            destination,
            operand1,
            operand2,
        })],
    );
    assert_eq!(register(&mut state, "R0"), 0b1000);
    run(
        &mut state,
        vec![three(|destination, operand1, operand2| Operation::Or {
            destination,
            operand1,
            operand2,
        })],
    );
    assert_eq!(register(&mut state, "R0"), 0b1110);
    run(
        &mut state,
        vec![three(|destination, operand1, operand2| Operation::Xor {
            destination,
            operand1,
            operand2,
        })],
    );
    assert_eq!(register(&mut state, "R0"), 0b0110);
    run(
        &mut state,
        vec![three(|destination, operand1, operand2| Operation::Sub {
            destination,
            operand1,
            operand2,
        })],
    );
    assert_eq!(register(&mut state, "R0"), 2);
    run(&mut state, vec![Operation::Not { destination: reg("R0"), operand: reg("R1") }]);
    assert_eq!(register(&mut state, "R0"), 0xffff_fff3);
    run(
        &mut state,
        vec![
            Operation::SetCFlagShiftLeft { operand: reg("R0"), shift: imm(4) },
            Operation::Sl { destination: reg("R3"), operand: reg("R0"), shift: imm(4) },
        ],
    );
    assert_eq!(register(&mut state, "R3"), 0xffff_ff30);
    assert_eq!(flag_value(&mut state, "C"), 1);
    run(
        &mut state,
        vec![
            Operation::SetCFlagSrl { operand: reg("R1"), shift: imm(3) },
            Operation::Srl { destination: reg("R3"), operand: reg("R1"), shift: imm(3) },
        ],
    );
    assert_eq!(register(&mut state, "R3"), 1);
    assert_eq!(flag_value(&mut state, "C"), 1);
    // Compare: flags of a difference.
    run(
        &mut state,
        vec![
            Operation::Sub { destination: local("d"), operand1: reg("R2"), operand2: reg("R1") },
            Operation::SetNFlag(local("d")),
            Operation::SetZFlag(local("d")),
            Operation::SetCFlag {
                operand1: reg("R2"),
                operand2: reg("R1"),
                sub: true,
                carry: false,
            },
            Operation::SetVFlag {
                operand1: reg("R2"),
                operand2: reg("R1"),
                sub: true,
                carry: false,
            },
        ],
    );
    // 10 - 12: negative, not zero, a borrow (carry clear), no overflow.
    assert_eq!(flag_value(&mut state, "N"), 1);
    assert_eq!(flag_value(&mut state, "Z"), 0);
    assert_eq!(flag_value(&mut state, "C"), 0);
    assert_eq!(flag_value(&mut state, "V"), 0);
    // A flag read as an operand is widened to a word.
    run(&mut state, vec![Operation::Move { destination: reg("R4"), source: flag("N") }]);
    assert_eq!(
        state.get_register("R4".to_owned()).unwrap(),
        Expr::Const { value: 1, width: 32 }
    );
}

#[test]
fn less_or_equal_holds_where_equal_or_less() {
    let project = empty_project();
    let hooks = arm_hooks();
    let mut state = GAState2::new(&project, &hooks, "main", 0xffff_fffe).unwrap();
    // Equal: Z=1, N=V.
    initiate(&mut state, vec![(flag("N"), 0), (flag("Z"), 1), (flag("C"), 1), (flag("V"), 0)]);
    assert_eq!(state.get_expr(&Condition::LE).unwrap().get_constant(), Some(1));
    assert_eq!(state.get_expr(&Condition::GT).unwrap().get_constant(), Some(0));
    assert_eq!(state.get_expr(&Condition::LT).unwrap().get_constant(), Some(0));
    assert_eq!(state.get_expr(&Condition::GE).unwrap().get_constant(), Some(1));
    // Less: Z=0, N!=V.
    initiate(&mut state, vec![(flag("N"), 0), (flag("Z"), 0), (flag("C"), 0), (flag("V"), 1)]);
    assert_eq!(state.get_expr(&Condition::LE).unwrap().get_constant(), Some(1));
    assert_eq!(state.get_expr(&Condition::GT).unwrap().get_constant(), Some(0));
    // Greater: Z=0, N=V.
    initiate(&mut state, vec![(flag("N"), 1), (flag("Z"), 0), (flag("C"), 0), (flag("V"), 1)]);
    assert_eq!(state.get_expr(&Condition::LE).unwrap().get_constant(), Some(0));
    assert_eq!(state.get_expr(&Condition::GT).unwrap().get_constant(), Some(1));
}

#[test]
fn registers_read_before_they_are_written_are_inputs() {
    let project = empty_project();
    let hooks = arm_hooks();
    let mut state = GAState2::new(&project, &hooks, "main", 0xffff_fffe).unwrap();
    assert!(state.memory.inputs.is_empty());
    let first = state.get_register("R4".to_owned()).unwrap();
    assert_eq!(first, Expr::Symbol { name: "R4".to_owned(), width: 32 });
    assert_eq!(state.memory.inputs, vec![first.clone()]);
    // The second read yields the same and makes no input.
    assert_eq!(state.get_register("R4".to_owned()).unwrap(), first);
    assert_eq!(state.memory.inputs.len(), 1);
    // A register that was written is no input, nor is the program counter.
    state.set_register("R5".to_owned(), Expr::from_u64(9, 32)).unwrap();
    state.get_register("R5".to_owned()).unwrap();
    state.get_register("PC".to_owned()).unwrap();
    state.get_register("SP".to_owned()).unwrap();
    assert_eq!(state.memory.inputs.len(), 1);
    // What memory was given as unconstrained is an input too.
    initiate(&mut state, vec![(reg("R0"), 0x2000_0000), (reg("R1"), 4), (reg("LR"), 0x400)]);
    let mut paths = DFSPathSelection::new();
    let mut solver = Scripted::silent();
    run_intrinsic(&mut state, &mut paths, &mut solver, &Config::new(), Intrinsic::SymbolicSize)
        .unwrap();
    assert_eq!(
        state.memory.inputs,
        vec![first, Expr::Symbol { name: "any_0".to_owned(), width: 32 }]
    );
    // A copy of the state has the inputs of the state.
    assert_eq!(state.clone().memory.inputs.len(), 2);
}

#[test]
fn cycle_count_intrinsics_return_through_lr() {
    let project = empty_project();
    let hooks = arm_hooks();
    let mut state = GAState2::new(&project, &hooks, "main", 0xffff_fffe).unwrap();
    initiate(&mut state, vec![(reg("R0"), 7), (reg("LR"), 0x400)]);
    state.cycle_count = 12;
    let mut paths = DFSPathSelection::new();
    let mut solver = Scripted::silent();
    let config = Config::new();
    assert_eq!(
        run_intrinsic(&mut state, &mut paths, &mut solver, &config, Intrinsic::EndCycleCount),
        Ok(())
    );
    assert_eq!(state.memory.pc, 0x400);
    assert_eq!(state.cycle_count, 12);
    assert!(!state.count_cycles);
    initiate(&mut state, vec![(reg("LR"), 0x500)]);
    assert_eq!(
        run_intrinsic(&mut state, &mut paths, &mut solver, &config, Intrinsic::StartCycleCount),
        Ok(())
    );
    assert_eq!(state.memory.pc, 0x500);
    assert_eq!(state.cycle_count, 0);
    assert!(!state.count_cycles);
    assert_eq!(register(&mut state, "R0"), 7);
    assert_eq!(register(&mut state, "LR"), 0x500);
    assert!(state.constraints.is_empty());
    assert!(paths.paths.is_empty());
    assert!(solver.asked.is_empty());
}

#[test]
fn fork_follows_the_two_answers() {
    assert_eq!(fork_decision(true, true), Ok(Fork::Split));
    assert_eq!(fork_decision(true, false), Ok(Fork::Take));
    assert_eq!(fork_decision(false, true), Ok(Fork::Skip));
    assert_eq!(fork_decision(false, false), Err(PathResult::AssumptionUnsat));

    let project = empty_project();
    let hooks = arm_hooks();
    let mut state = GAState2::new(&project, &hooks, "main", 0xffff_fffe).unwrap();
    state.memory.set_pc(0x40).unwrap();
    let mut paths = DFSPathSelection::new();
    let guard = Expr::Symbol { name: "g".to_owned(), width: 1 };
    let locals = NameTable::new();

    assert_eq!(fork(&mut state, &mut paths, &guard, 0, &locals, false, true), Ok(false));
    assert_eq!(fork(&mut state, &mut paths, &guard, 0, &locals, true, false), Ok(true));
    assert_eq!(
        fork(&mut state, &mut paths, &guard, 0, &locals, false, false),
        Err(PathResult::AssumptionUnsat)
    );
    assert!(state.constraints.is_empty());
    assert!(paths.paths.is_empty());

    assert_eq!(fork(&mut state, &mut paths, &guard, 0, &locals, true, true), Ok(true));
    assert_eq!(state.constraints, vec![guard.clone()]);
    assert_eq!(paths.paths.len(), 1);
    assert_eq!(paths.paths[0].constraints, vec![guard.not()]);
    assert!(paths.paths[0].state.constraints.is_empty());
    assert_eq!(paths.paths[0].state.memory.pc, 0x40);
    assert!(paths.paths[0].state.continue_in_instruction.is_none());
}

#[test]
fn program_counter_goes_on_with_the_values_of_the_solver() {
    let project = empty_project();
    let hooks = arm_hooks();
    let config = Config::new();
    let locals = NameTable::new();
    let target = Expr::Symbol { name: "t".to_owned(), width: 32 };
    let fresh = || GAState2::new(&project, &hooks, "main", 0xffff_fffe).unwrap();

    let mut state = fresh();
    let mut paths = DFSPathSelection::new();
    let values = vec![Expr::from_u64(0x10, 32), Expr::from_u64(0x20, 32)];
    assert_eq!(
        resolve_pc(&mut state, &mut paths, &config, &target, 0, &locals, Solutions::Exactly(values)),
        Ok(())
    );
    assert_eq!(state.memory.pc, 0x10);
    assert!(state.pc_written);
    assert_eq!(state.constraints, vec![target.eq(&Expr::from_u64(0x10, 32))]);
    assert_eq!(paths.paths.len(), 1);
    assert_eq!(paths.paths[0].state.memory.pc, 0x20);
    assert!(paths.paths[0].state.pc_written);
    assert_eq!(paths.paths[0].state.constraints, vec![target.eq(&Expr::from_u64(0x20, 32))]);
    assert!(paths.paths[0].constraints.is_empty());

    // Every failure leaves the state and the waiting paths as they were.
    let unresolved = || Err(PathResult::Failure("symbolic branch unresolved".to_owned()));
    let mut narrow = Config::new();
    narrow.max_pc_resolutions = 1;
    let cases = vec![
        (Solutions::Exactly(vec![]), &config, Err(PathResult::AssumptionUnsat)),
        (Solutions::AtLeast(vec![Expr::from_u64(0x10, 32)]), &config, unresolved()),
        (
            Solutions::Exactly(vec![Expr::from_u64(0x10, 32), Expr::from_u64(0x20, 32)]),
            &narrow,
            unresolved(),
        ),
        (
            Solutions::Exactly(vec![Expr::from_u64(0x10, 32), Expr::from_u64(0x20, 16)]),
            &config,
            Err(PathResult::Failure("Solver error.".to_owned())),
        ),
    ];
    for (solutions, config, want) in cases {
        let mut state = fresh();
        let mut paths = DFSPathSelection::new();
        assert_eq!(resolve_pc(&mut state, &mut paths, config, &target, 0, &locals, solutions), want);
        assert_eq!(state.memory.pc, 0);
        assert!(!state.pc_written);
        assert!(state.constraints.is_empty());
        assert!(paths.paths.is_empty());
    }
}

#[test]
fn step_ends_the_path_or_needs_budget() {
    let project = empty_project();
    let hooks = arm_hooks();
    let mut state = GAState2::new(&project, &hooks, "main", 0xffff_fffe).unwrap();
    initiate(&mut state, vec![(reg("LR"), 0x400)]);
    let mut paths = DFSPathSelection::new();
    let mut solver = Scripted::silent();
    let mut config = Config::new();
    config.max_iter_count = 2;

    let r = step(
        &mut state,
        &mut paths,
        &mut solver,
        &config,
        Err(GAError::NonDeterministicPC),
        0,
    );
    assert_eq!(r, Err(PathResult::Failure("Program counter is not deterministic.".to_owned())));
    let r = step(
        &mut state,
        &mut paths,
        &mut solver,
        &config,
        Ok(HookOrInstruction2::PcHook(&PCHook2::EndSuccess)),
        5,
    );
    assert_eq!(r, Err(PathResult::Success(None)));
    let r = step(
        &mut state,
        &mut paths,
        &mut solver,
        &config,
        Ok(HookOrInstruction2::PcHook(&PCHook2::Suppress)),
        5,
    );
    assert_eq!(r, Err(PathResult::Suppress));
    assert_eq!(state.memory.pc, 0);

    let budget = || Err(PathResult::Failure("iteration budget exceeded".to_owned()));
    let r = step(
        &mut state,
        &mut paths,
        &mut solver,
        &config,
        Ok(HookOrInstruction2::PcHook(&PCHook2::Continue)),
        2,
    );
    assert_eq!(r, budget());
    assert_eq!(state.memory.pc, 0);
    let add = || {
        instruction(vec![Operation::Add {
            destination: reg("R0"),
            operand1: reg("LR"),
            operand2: imm(1),
        }])
    };
    let r = step(
        &mut state,
        &mut paths,
        &mut solver,
        &config,
        Ok(HookOrInstruction2::Instruction(add())),
        2,
    );
    assert_eq!(r, budget());

    let r = step(
        &mut state,
        &mut paths,
        &mut solver,
        &config,
        Ok(HookOrInstruction2::Instruction(add())),
        1,
    );
    assert_eq!(r, Ok(()));
    assert_eq!(register(&mut state, "R0"), 0x401);
    assert_eq!(state.memory.pc, 2);
    assert_eq!(state.instruction_counter, 1);
    let r = step(
        &mut state,
        &mut paths,
        &mut solver,
        &config,
        Ok(HookOrInstruction2::PcHook(&PCHook2::Continue)),
        1,
    );
    assert_eq!(r, Ok(()));
    assert_eq!(state.memory.pc, 0x400);
    // As many instructions as the budget allows were executed.
    state.instruction_counter = 2;
    let r = step(
        &mut state,
        &mut paths,
        &mut solver,
        &config,
        Ok(HookOrInstruction2::Instruction(add())),
        0,
    );
    assert_eq!(r, budget());
}

#[test]
fn path_ends_at_once_where_nothing_can_be_fetched_or_a_hook_ends_it() {
    let project = empty_project();
    let mut hooks = arm_hooks();
    hooks.add_pc_hook(0x40, PCHook2::EndFailure("trap"));
    let mut solver = Scripted::silent();
    let mut no_budget = Config::new();
    no_budget.max_iter_count = 0;

    // A hook that ends the path needs no budget.
    let mut state = GAState2::new(&project, &hooks, "main", 0xffff_fffe).unwrap();
    state.memory.set_pc(0x41).unwrap();
    let mut paths = DFSPathSelection::new();
    let r = resume_execution(&mut state, &mut paths, &NoDecoder, &mut solver, &no_budget);
    assert_eq!(r, PathResult::Failure("trap".to_owned()));
    assert_eq!(state.memory.pc, 0x41);
    assert_eq!(state.instruction_counter, 0);

    // Neither a hook nor the image is at the program counter.
    let mut state = GAState2::new(&project, &hooks, "main", 0xffff_fffe).unwrap();
    state.memory.set_pc(0x80).unwrap();
    let r = resume_execution(&mut state, &mut paths, &NoDecoder, &mut solver, &Config::new());
    assert_eq!(r, PathResult::Failure("Memory error: out of bounds.".to_owned()));
    assert_eq!(state.memory.pc, 0x80);
    assert!(paths.paths.is_empty());
}

#[test]
fn making_memory_symbolic_leaves_the_path_condition() {
    let project = empty_project();
    let hooks = arm_hooks();
    let mut state = GAState2::new(&project, &hooks, "main", 0xffff_fffe).unwrap();
    initiate(&mut state, vec![(reg("R0"), 0x2000_0000), (reg("R1"), 4), (reg("LR"), 0x400)]);
    let held = Expr::Symbol { name: "held".to_owned(), width: 1 };
    state.constraints.push(held.clone());
    state.cycle_count = 5;
    let mut paths = DFSPathSelection::new();
    let mut solver = Scripted::silent();
    assert_eq!(
        run_intrinsic(&mut state, &mut paths, &mut solver, &Config::new(), Intrinsic::SymbolicSize),
        Ok(())
    );
    assert_eq!(state.constraints, vec![held]);
    assert_eq!(state.cycle_count, 5);
    assert!(state.count_cycles);
    assert!(!state.has_jumped);
    assert_eq!(state.any_counter, 1);
    assert_eq!(register(&mut state, "R0"), 0x2000_0000);
    assert_eq!(register(&mut state, "R1"), 4);
    assert_eq!(register(&mut state, "LR"), 0x400);
    assert_eq!(state.memory.pc, 0x400);
    // The bytes around the fresh value are as they were.
    let below = get_memory(&state, &Expr::from_u64(0x1fff_fffc, 32), 32).unwrap();
    let above = get_memory(&state, &Expr::from_u64(0x2000_0004, 32), 32).unwrap();
    let untouched = GAState2::new(&project, &hooks, "main", 0xffff_fffe).unwrap();
    assert_eq!(below, get_memory(&untouched, &Expr::from_u64(0x1fff_fffc, 32), 32).unwrap());
    assert_eq!(above, get_memory(&untouched, &Expr::from_u64(0x2000_0004, 32), 32).unwrap());
    assert!(paths.paths.is_empty());
    assert!(solver.asked.is_empty());
}

#[test]
fn state_without_a_stack_tells_why() {
    let mut project =
        Project::manual_project(vec![], 0, WordSize::Bit32, Endianness::Little).unwrap();
    project.add_symbol("main".to_owned(), 0);
    let hooks = HookContainer::new();
    assert_eq!(
        GAState2::new(&project, &hooks, "main", 0xffff_fffe).err(),
        Some(GAError::ProjectError(symex::error::ProjectError::UnableToParseElf(
            "start of stack not found".to_owned()
        )))
    );
    assert_eq!(
        GAState2::new(&project, &hooks, "absent", 0xffff_fffe).err(),
        Some(GAError::EntryFunctionNotFound("absent".to_owned()))
    );
    assert_eq!(
        VM::new(&project, &hooks, "main", 0xffff_fffe).err(),
        Some(GAError::ProjectError(symex::error::ProjectError::UnableToParseElf(
            "start of stack not found".to_owned()
        )))
    );
}

#[test]
fn driver_runs_paths_until_none_waits() {
    let project = empty_project();
    let mut hooks = arm_hooks();
    hooks.add_pc_hook(0, PCHook2::EndSuccess);
    let mut vm = VM::new(&project, &hooks, "main", 0xffff_fffe).unwrap();
    let mut solver = Scripted::silent();
    let config = Config::new();
    let (result, state, waited) = vm.run(&NoDecoder, &mut solver, &config).unwrap().unwrap();
    assert_eq!(result, PathResult::Success(None));
    assert_eq!(state.memory.pc, 0);
    assert!(waited.is_empty());
    assert!(vm.paths.paths.is_empty());
    // Without a waiting path nothing is run and nothing changes.
    assert!(vm.run(&NoDecoder, &mut solver, &config).unwrap().is_none());
    assert!(vm.paths.paths.is_empty());
}

#[test]
fn operands_take_their_inputs_before_the_operation() {
    let project = empty_project();
    let hooks = arm_hooks();
    let mut state = GAState2::new(&project, &hooks, "main", 0xffff_fffe).unwrap();
    let locals = NameTable::new();
    let add = Operation::Add { destination: reg("R0"), operand1: reg("R1"), operand2: reg("R2") };
    assert_eq!(reads(&add), (Some(&reg("R1")), Some(&reg("R2"))));
    assert_eq!(
        reads(&Operation::Move { destination: reg("R0"), source: imm(3) }),
        (Some(&imm(3)), None)
    );
    assert_eq!(reads(&Operation::Nop), (None, None));
    assert_eq!(
        reads(&Operation::ConditionalJump { destination: reg("R0"), condition: Condition::EQ }),
        (None, None)
    );
    assert_eq!(
        reads(&Operation::Sl { destination: reg("R0"), operand: reg("R3"), shift: imm(1) }),
        (Some(&reg("R3")), Some(&imm(1)))
    );

    take_inputs(&mut state, &add, &locals);
    let r1 = Expr::Symbol { name: "R1".to_owned(), width: 32 };
    let r2 = Expr::Symbol { name: "R2".to_owned(), width: 32 };
    assert_eq!(state.memory.inputs, vec![r1.clone(), r2.clone()]);
    // A second time nothing is taken.
    take_inputs(&mut state, &add, &locals);
    assert_eq!(state.memory.inputs.len(), 2);

    // The operation computes on the inputs.
    run(&mut state, vec![add]);
    assert_eq!(state.get_register("R0".to_owned()).unwrap(), r1.add(&r2));
    assert_eq!(state.memory.inputs.len(), 2);

    // The same from a state in which nothing was read before.
    let mut state = GAState2::new(&project, &hooks, "main", 0xffff_fffe).unwrap();
    run(
        &mut state,
        vec![Operation::Add { destination: reg("R0"), operand1: reg("R1"), operand2: reg("R2") }],
    );
    assert_eq!(state.get_register("R0".to_owned()).unwrap(), r1.add(&r2));
    assert_eq!(state.memory.inputs, vec![r1, r2]);

    // No input is taken behind an operand whose read may fail.
    let mut state = GAState2::new(&project, &hooks, "main", 0xffff_fffe).unwrap();
    let unset = Operation::Add { destination: reg("R0"), operand1: local("t"), operand2: reg("R2") };
    take_inputs(&mut state, &unset, &locals);
    assert!(state.memory.inputs.is_empty());
    assert!(!take_input(&mut state, &local("t"), &locals));
    assert!(take_input(&mut state, &imm(1), &locals));
    assert!(take_input(&mut state, &reg("PC"), &locals));
    assert!(take_input(&mut state, &flag("Z"), &locals));
    assert!(take_input(&mut state, &reg("PC+"), &locals));
    assert!(take_input(&mut state, &Operand::Address(DataWord::Word32(0x2000_0000), 32), &locals));
    assert!(!take_input(&mut state, &Operand::Address(DataWord::Word32(0x2000_0000), 12), &locals));
    assert!(!take_input(&mut state, &Operand::AddressInLocal("t".to_owned(), 32), &locals));
    assert!(state.memory.inputs.is_empty());
    // Behind a register with a read hook the next operand takes its input.
    let hooked =
        Operation::Add { destination: reg("R0"), operand1: reg("PC+"), operand2: reg("R8") };
    take_inputs(&mut state, &hooked, &locals);
    assert_eq!(state.memory.inputs, vec![Expr::Symbol { name: "R8".to_owned(), width: 32 }]);
    let mut state = GAState2::new(&project, &hooks, "main", 0xffff_fffe).unwrap();
    assert!(take_input(&mut state, &reg("R9"), &locals));
    assert_eq!(state.memory.inputs.len(), 1);
}

#[test]
fn hooked_register_is_read_with_its_offset() {
    let project = empty_project();
    let hooks = arm_hooks();
    let mut state = GAState2::new(&project, &hooks, "main", 0xffff_fffe).unwrap();
    state.memory.set_pc(0x40).unwrap();
    run(&mut state, vec![Operation::Move { destination: reg("R0"), source: reg("PC+") }]);
    assert_eq!(register(&mut state, "R0"), 0x41);
    run(
        &mut state,
        vec![Operation::Add { destination: reg("R1"), operand1: reg("PC+"), operand2: imm(3) }],
    );
    assert_eq!(register(&mut state, "R1"), 0x42 + 1 + 3);
    assert!(state.memory.inputs.is_empty());
}
