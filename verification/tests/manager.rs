use symex::arch::Arch;
use symex::arm::{ArmIsa, ArmV6M, BinaryInfo, Hookable, SupportedArchitechture};
use symex::debug_data::{AttributeValue, DebugEntry, Tag};
use symex::dwarf_helper::{SubProgram, SubProgramMap};
use symex::error::{ArchError, GAError, SolverError};
use symex::executor::{Config, Path, PathResult, SmtSolver, Solutions};
use symex::expr::Expr;
use symex::general::{Endianness, WordSize};
use symex::hooks::{HookContainer, PCHook2, ResultOrHook};
use symex::initiation::{LoadedBinary, SymexConstructor};
use symex::instruction::{Condition, CycleCount2, Instruction2, Operand, Operation};
use symex::general::DataWord;
use symex::logging::{Logger, NoLogger, RegionMetaData};
use symex::manager::{
    record, run_elf_paths, status_of, tell, ErrorReason, PathStatus, SymexArbiter, END_PC,
};
use symex::project::Project;
use symex::state::{translated, GAState2};
use symex::vm::VM;

/// A logger that keeps what it is told.
#[derive(Default)]
struct Recorder {
    events: Vec<String>,
}

impl Logger for Recorder {
    fn assumption(&mut self, _region: RegionMetaData, assumption: &str) {
        self.events.push(format!("assumption {}", assumption));
    }

    fn warn(&mut self, _region: RegionMetaData, warning: &str) {
        self.events.push(format!("warn {}", warning));
    }

    fn error(&mut self, _region: RegionMetaData, error: &str) {
        self.events.push(format!("error {}", error));
    }

    fn record_path_result(&mut self, path_result: PathResult) {
        self.events.push(format!("result {:?}", path_result));
    }

    fn record_final_state(&mut self, state: GAState2) {
        self.events.push(format!("state pc={:#x}", state.memory.pc));
    }

    fn change_path(&mut self, new_path_idx: usize) {
        self.events.push(format!("path {}", new_path_idx));
    }

    fn add_constraints(&mut self, constraints: &Vec<Expr>) {
        self.events.push(format!("constraints {}", constraints.len()));
    }

    fn record_execution_time(&mut self, _region: RegionMetaData, time: u64) {
        self.events.push(format!("time {}", time));
    }

    fn register_new_delimiter_value(&mut self, _delimiter: u64, _time: u64) {}

    fn current_region(&self) -> Option<RegionMetaData> {
        None
    }

    fn register_region(&mut self, _region: RegionMetaData) {}
}

/// A solver for which everything can be that the constraints do not deny
/// word for word.
struct Anything;

impl SmtSolver for Anything {
    fn is_sat_with_constraint(
        &mut self,
        constraints: &Vec<Expr>,
        extra: &Expr,
    ) -> Result<bool, SolverError> {
        let denied = extra.not();
        Ok(!constraints.iter().any(|c| *c == denied || c.not() == *extra))
    }

    fn get_values(
        &mut self,
        _constraints: &Vec<Expr>,
        _expr: &Expr,
        _upper_bound: usize,
    ) -> Result<Solutions, SolverError> {
        Err(SolverError::Unknown)
    }
}

/// A decoder for a toy instruction set, by the first byte of the
/// instruction: 1 adds one to R0; 2 returns; 3 skips the next instruction
/// where Z is set; 4 is a call of the function at 0x200.
struct Toy;

fn reg(name: &str) -> Operand {
    Operand::Register(name.to_owned())
}

fn imm(value: u32) -> Operand {
    Operand::Immediate(DataWord::Word32(value))
}

impl Arch for Toy {
    fn translate(&self, buff: &[u8], _state: &GAState2) -> Result<Instruction2, ArchError> {
        let operations = match buff.first() {
            Some(1) => {
                vec![Operation::Add { destination: reg("R0"), operand1: reg("R0"), operand2: imm(1) }]
            }
            Some(2) => vec![Operation::Move { destination: reg("PC"), source: reg("LR") }],
            Some(3) => vec![
                Operation::Add {
                    destination: Operand::Local("t".to_owned()),
                    operand1: reg("PC"),
                    operand2: imm(4),
                },
                Operation::ConditionalJump {
                    destination: Operand::Local("t".to_owned()),
                    condition: Condition::EQ,
                },
            ],
            Some(4) => vec![Operation::Move { destination: reg("PC"), source: imm(0x200) }],
            _ => return Err(ArchError::UnsuportedArchitechture),
        };
        Ok(Instruction2 {
            instruction_size: 16,
            operations,
            max_cycle: CycleCount2::Value(2),
            memory_access: false,
        })
    }
}

fn image(bytes: Vec<u8>) -> Project {
    let mut project =
        Project::manual_project(bytes, 0x100, WordSize::Bit32, Endianness::Little).unwrap();
    project.add_symbol("main".to_owned(), 0x100);
    project.add_symbol("_stack_start".to_owned(), 0x2000_0000);
    project
}

fn subprograms(names: &[(&str, u64)]) -> SubProgramMap {
    let mut map = SubProgramMap::empty();
    for (name, start) in names {
        map.insert(
            (*name).to_owned(),
            *start,
            SubProgram {
                name: (*name).to_owned(),
                bounds: (*start, *start + 2),
                file: None,
                call_file: None,
            },
        );
    }
    map
}

#[test]
fn arbiter_runs_every_path_and_tells_the_logger() {
    // Branch on Z, then one add on the one path and two on the other.
    let project = image(vec![3, 0, 1, 0, 1, 0, 2, 0]);
    let mut arbiter = SymexArbiter::new(
        Recorder::default(),
        project,
        HookContainer::new(),
        subprograms(&[("main", 0x100)]),
        SupportedArchitechture::ArmV6M(ArmV6M::new()),
    );
    arbiter.run("main", &Toy, &mut Anything, &Config::new()).unwrap();
    assert!(matches!(
        arbiter.hooks.get_pc_hooks(END_PC),
        ResultOrHook::Hook(PCHook2::EndSuccess)
    ));
    assert_eq!(arbiter.get_symbol_map().get_by_name("main").unwrap().bounds, (0x100, 0x102));
    let logger = arbiter.consume();
    assert_eq!(
        logger.events,
        vec![
            "path 0",
            "constraints 0",
            "result Success(None)",
            "time 6",
            "state pc=0xfffffffe",
            "path 1",
            "constraints 1",
            "result Success(None)",
            "time 8",
            "state pc=0xfffffffe",
            "path 2",
        ]
    );
}

#[test]
fn arbiter_suppresses_paths_and_reports_failures() {
    let project = image(vec![3, 0, 4, 0, 9, 0]);
    let mut hooks = HookContainer::new();
    hooks.add_pc_hook(0x200, PCHook2::Suppress);
    let mut arbiter = SymexArbiter::new(
        Recorder::default(),
        project,
        hooks,
        subprograms(&[("main", 0x100)]),
        SupportedArchitechture::ArmV6M(ArmV6M::new()),
    );
    arbiter.run("main", &Toy, &mut Anything, &Config::new()).unwrap();
    assert_eq!(
        arbiter.consume().events,
        vec![
            "path 0",
            "constraints 0",
            "result Failure(\"Architecture error.\")",
            "time 2",
            "state pc=0x104",
            "path 1",
            "constraints 1",
            "warn Suppressing path",
            "path 2",
        ]
    );
}

#[test]
fn arbiter_fails_without_the_function() {
    let mut arbiter = SymexArbiter::new(
        NoLogger::new(),
        image(vec![2, 0]),
        HookContainer::new(),
        subprograms(&[("main", 0x100), ("ghost", 0x300)]),
        SupportedArchitechture::ArmV6M(ArmV6M::new()),
    );
    assert_eq!(
        arbiter.run("absent", &Toy, &mut Anything, &Config::new()).err(),
        Some(GAError::EntryFunctionNotFound("absent".to_owned()))
    );
    // Known to the debug data but no symbol of the image.
    assert_eq!(
        arbiter.run("ghost", &Toy, &mut Anything, &Config::new()).err(),
        Some(GAError::EntryFunctionNotFound("ghost".to_owned()))
    );
    // Nothing was changed by the runs that failed.
    assert!(matches!(arbiter.hooks.get_pc_hooks(END_PC), ResultOrHook::Result(END_PC)));
    assert!(arbiter.run("main", &Toy, &mut Anything, &Config::new()).is_ok());
    assert!(matches!(
        arbiter.hooks.get_pc_hooks(END_PC),
        ResultOrHook::Hook(PCHook2::EndSuccess)
    ));
}

#[test]
fn arbiter_hands_back_its_logger_and_tells_nothing_on_an_error() {
    let mut arbiter = SymexArbiter::new(
        Recorder::default(),
        image(vec![2, 0]),
        HookContainer::new(),
        subprograms(&[("main", 0x100)]),
        SupportedArchitechture::ArmV6M(ArmV6M::new()),
    );
    assert!(arbiter.run("absent", &Toy, &mut Anything, &Config::new()).is_err());
    assert!(arbiter.logger.events.is_empty());
    let logger = arbiter.run("main", &Toy, &mut Anything, &Config::new()).unwrap();
    assert_eq!(
        logger.events,
        vec![
            "path 0",
            "constraints 0",
            "result Success(None)",
            "time 2",
            "state pc=0xfffffffe",
            "path 1",
        ]
    );
}

#[test]
fn entry_at_an_ending_hook_is_told_at_once() {
    let mut hooks = HookContainer::new();
    hooks.add_pc_hook(0x100, PCHook2::EndFailure("not here"));
    let mut arbiter = SymexArbiter::new(
        Recorder::default(),
        image(vec![1, 0]),
        hooks,
        subprograms(&[("main", 0x100)]),
        SupportedArchitechture::ArmV6M(ArmV6M::new()),
    );
    let mut config = Config::new();
    config.max_iter_count = 0;
    let logger = arbiter.run("main", &Toy, &mut Anything, &config).unwrap();
    assert_eq!(
        logger.events,
        vec![
            "path 0",
            "constraints 0",
            "result Failure(\"not here\")",
            "time 0",
            "state pc=0x100",
            "path 1",
        ]
    );

    let mut hooks = HookContainer::new();
    hooks.add_pc_hook(0x100, PCHook2::Suppress);
    let mut arbiter = SymexArbiter::new(
        Recorder::default(),
        image(vec![1, 0]),
        hooks,
        subprograms(&[("main", 0x100)]),
        SupportedArchitechture::ArmV6M(ArmV6M::new()),
    );
    let logger = arbiter.run("main", &Toy, &mut Anything, &Config::new()).unwrap();
    assert_eq!(logger.events, vec!["path 0", "constraints 0", "warn Suppressing path", "path 1"]);
}

#[test]
fn path_whose_condition_cannot_hold_is_dropped_silently() {
    let project = image(vec![1, 0]);
    let hooks = HookContainer::new();
    let mut logger = Recorder::default();
    let waited = vec![Expr::from_bool(false)];
    tell(&mut logger, &waited, PathResult::AssumptionUnsat, state_at(&project, &hooks, 0x100, 3), 4);
    assert_eq!(logger.events, vec!["constraints 1", "path 5"]);

    let mut logger = Recorder::default();
    tell(
        &mut logger,
        &vec![],
        PathResult::Failure("lost".to_owned()),
        state_at(&project, &hooks, 0x180, 3),
        0,
    );
    assert_eq!(
        logger.events,
        vec!["constraints 0", "result Failure(\"lost\")", "time 3", "state pc=0x180", "path 1"]
    );
}

#[test]
fn paths_are_reported_in_the_order_in_which_they_end() {
    let project = image(vec![3, 0, 4, 0, 9, 0]);
    let mut hooks = HookContainer::new();
    hooks.add_pc_hook(0x200, PCHook2::EndSuccess);
    let mut vm = VM::new(&project, &hooks, "main", END_PC).unwrap();
    let results = run_elf_paths(&mut vm, &Toy, &mut Anything, &Config::new()).unwrap();
    assert_eq!(results.len(), 2);
    assert_eq!(results[0].path, 1);
    assert_eq!(
        results[0].result,
        PathStatus::Failed(ErrorReason { error_message: "Architecture error.".to_owned() })
    );
    assert_eq!(results[0].max_cycles, 2);
    assert_eq!(results[0].constraints.len(), 1);
    assert_eq!(results[1].path, 2);
    assert_eq!(results[1].result, PathStatus::Succeeded(None));
    assert_eq!(results[1].max_cycles, 4);
    assert_eq!(
        results[1].constraints,
        vec![Expr::Symbol { name: "flags.Z".to_owned(), width: 1 }.not()]
    );

    // Suppressed paths are left out and do not count.
    let mut hooks = HookContainer::new();
    hooks.add_pc_hook(0x200, PCHook2::Suppress);
    let mut vm = VM::new(&project, &hooks, "main", END_PC).unwrap();
    let results = run_elf_paths(&mut vm, &Toy, &mut Anything, &Config::new()).unwrap();
    assert_eq!(results.len(), 1);
    assert_eq!(results[0].path, 1);
}

#[test]
fn forked_state_is_a_copy() {
    let project = image(vec![]);
    let hooks = HookContainer::new();
    let mut state = GAState2::new(&project, &hooks, "main", END_PC).unwrap();
    state.set_register("R1".to_owned(), Expr::from_u64(1, 32)).unwrap();
    state.write_word_to_memory(&Expr::from_u64(0x10, 32), Expr::from_u64(7, 32)).unwrap();
    let mut copy = state.clone();
    state.set_register("R1".to_owned(), Expr::from_u64(2, 32)).unwrap();
    state.set_register("R2".to_owned(), Expr::from_u64(3, 32)).unwrap();
    state.write_word_to_memory(&Expr::from_u64(0x10, 32), Expr::from_u64(8, 32)).unwrap();
    assert_eq!(copy.get_register("R1".to_owned()).unwrap().get_constant(), Some(1));
    assert_eq!(copy.get_register("R2".to_owned()).unwrap().get_constant(), None);
    assert_eq!(copy.get_register("SP".to_owned()).unwrap().get_constant(), Some(0x2000_0000));
    assert_eq!(
        copy.read_word_from_memory(&Expr::from_u64(0x10, 32)).unwrap().get_constant(),
        Some(7)
    );
    assert_eq!(state.get_register("R1".to_owned()).unwrap().get_constant(), Some(2));
    assert_eq!(copy.memory.pc, state.memory.pc);
}

fn subprogram_entry(name: &str, low: u64) -> DebugEntry {
    DebugEntry {
        tag: Tag::Subprogram,
        name: Some(AttributeValue::DebugStrRef(Some(name.to_owned()))),
        low_pc: Some(AttributeValue::Addr(low)),
        high_pc: Some(AttributeValue::Data1(2)),
        decl_file: None,
        decl_line: None,
        ty: None,
        location: None,
    }
}

fn binary(names: &[&str]) -> LoadedBinary {
    LoadedBinary {
        info: BinaryInfo { is_arm: true, is_elf32: true, arm_attributes: Some(Ok(ArmIsa::ArmV6M)) },
        is_little_endian: true,
        word_size: WordSize::Bit32,
        symbols: vec![
            ("main".to_owned(), 0x100),
            ("_stack_start".to_owned(), 0x2000_0000),
            ("main".to_owned(), 0x112),
        ],
        // A return behind the functions that the hooks stand at.
        program_memory: vec![1, 0, 0, 0, 0, 0, 0, 0, 0, 0, 0, 0, 0, 0, 0, 0, 0, 0, 2, 0],
        start_addr: 0x100,
        entries: names
            .iter()
            .enumerate()
            .map(|(i, name)| subprogram_entry(name, 0x100 + 2 * i as u64))
            .collect(),
    }
}

const DEFAULTS: [&str; 9] = [
    "main",
    "panic",
    "panic_cold_explicit",
    "unwrap_failed",
    "panic_bounds_check",
    "unreachable_unchecked",
    "suppress_path",
    "start_cyclecount",
    "end_cyclecount",
];

#[test]
fn run_is_put_together_step_by_step() {
    let (mut arbiter, mut solver) = SymexConstructor::new("firmware.elf")
        .load_binary(binary(&DEFAULTS))
        .discover()
        .unwrap()
        .configure_smt(Anything)
        .compose(Recorder::default())
        .unwrap();
    assert_eq!(arbiter.project.get_symbol_address("main"), Some(0x112));
    assert_eq!(arbiter.project.get_endianness(), Endianness::Little);
    assert!(arbiter.get_symbol_map().get_by_name("suppress_path").is_some());
    // The hooks of every run and those of the architecture are there.
    assert!(matches!(
        arbiter.hooks.get_pc_hooks(0x100 + 2 * 6),
        ResultOrHook::Hook(PCHook2::Suppress)
    ));
    assert!(arbiter.hooks.register_read_hook.get("PC+").is_some());
    // The path starts at 0x112, where the image holds a return.
    arbiter.run("main", &Toy, &mut solver, &Config::new()).unwrap();
    assert_eq!(
        arbiter.consume().events,
        vec![
            "path 0",
            "constraints 0",
            "result Success(None)",
            "time 2",
            "state pc=0xfffffffe",
            "path 1"
        ]
    );
}

#[test]
fn run_is_not_put_together_without_the_default_functions() {
    let composed = SymexConstructor::new("firmware.elf")
        .configure_smt(Anything)
        .override_architecture(SupportedArchitechture::ArmV6M(ArmV6M::new()))
        .load_binary(binary(&["main", "panic"]))
        .compose(NoLogger::new());
    assert_eq!(
        composed.err(),
        Some(GAError::EntryFunctionNotFound("^panic_cold_explicit$".to_owned()))
    );
    let mut no_arm = binary(&DEFAULTS);
    no_arm.info.is_arm = false;
    let discovered = SymexConstructor::new("firmware.elf").load_binary(no_arm).discover();
    assert_eq!(
        discovered.err(),
        Some(GAError::ArchError(ArchError::UnsuportedArchitechture))
    );
    let mut beyond = binary(&DEFAULTS);
    beyond.start_addr = u64::MAX;
    let composed = SymexConstructor::new("firmware.elf")
        .configure_smt(Anything)
        .override_architecture(SupportedArchitechture::ArmV7EM(symex::arm::ArmV7EM {}))
        .load_binary(beyond)
        .compose(NoLogger::new());
    assert!(matches!(composed.err(), Some(GAError::ProjectError(_))));
}

fn state_at<'a>(project: &'a Project, hooks: &'a HookContainer, pc: u64, cycles: u64) -> GAState2<'a> {
    let mut state = GAState2::new(project, hooks, "main", END_PC).unwrap();
    state.memory.set_pc(pc).unwrap();
    state.cycle_count = cycles;
    state
}

#[test]
fn paths_at_ending_hooks_are_reported_at_once() {
    let project = image(vec![1, 0, 1, 0]);
    let mut hooks = HookContainer::new();
    hooks.add_pc_hook(0x300, PCHook2::EndFailure("gone wrong"));
    hooks.add_pc_hook(0x400, PCHook2::Suppress);
    hooks.add_pc_hook(0x500, PCHook2::EndSuccess);
    let held = Expr::Symbol { name: "held".to_owned(), width: 1 };
    let waits = Expr::Symbol { name: "waits".to_owned(), width: 1 };

    let mut failing = state_at(&project, &hooks, 0x300, 7);
    failing.constraints.push(held.clone());
    let mut vm = VM::new_with_state(&project, failing);
    vm.paths.save_path(Path::new(state_at(&project, &hooks, 0x400, 9), None));
    vm.paths.save_path(Path::new(state_at(&project, &hooks, 0x500, 11), Some(waits.clone())));

    let results = run_elf_paths(&mut vm, &Toy, &mut Anything, &Config::new()).unwrap();
    assert!(vm.paths.paths.is_empty());
    assert_eq!(results.len(), 2);
    assert_eq!(results[0].path, 1);
    assert_eq!(results[0].result, PathStatus::Succeeded(None));
    assert_eq!(results[0].max_cycles, 11);
    assert_eq!(results[0].constraints, vec![waits]);
    assert_eq!(results[1].path, 2);
    assert_eq!(
        results[1].result,
        PathStatus::Failed(ErrorReason { error_message: "gone wrong".to_owned() })
    );
    assert_eq!(results[1].max_cycles, 7);
    assert_eq!(results[1].constraints, vec![held]);
}

#[test]
fn no_waiting_path_gives_no_report() {
    let project = image(vec![1, 0]);
    let hooks = HookContainer::new();
    let mut vm = VM::new(&project, &hooks, "main", END_PC).unwrap();
    assert!(vm.paths.get_path().is_some());
    let results = run_elf_paths(&mut vm, &Toy, &mut Anything, &Config::new()).unwrap();
    assert!(results.is_empty());
    assert!(vm.paths.paths.is_empty());
}

#[test]
fn reports_are_numbered_as_they_are_recorded() {
    let project = image(vec![1, 0]);
    let hooks = HookContainer::new();
    let value = Expr::from_u64(5, 32);
    let mut reports = Vec::new();

    record(&mut reports, PathResult::Suppress, state_at(&project, &hooks, 0x100, 1));
    record(&mut reports, PathResult::AssumptionUnsat, state_at(&project, &hooks, 0x100, 2));
    assert!(reports.is_empty());

    let mut state = state_at(&project, &hooks, 0x100, 3);
    state.constraints.push(Expr::from_bool(true));
    state.get_register("R7".to_owned()).unwrap();
    record(&mut reports, PathResult::Success(Some(value.clone())), state);
    record(&mut reports, PathResult::Suppress, state_at(&project, &hooks, 0x100, 4));
    record(
        &mut reports,
        PathResult::Failure("out of luck".to_owned()),
        state_at(&project, &hooks, 0x100, 5),
    );
    assert_eq!(reports.len(), 2);
    assert_eq!(reports[0].path, 1);
    assert_eq!(reports[0].result, PathStatus::Succeeded(Some(value)));
    assert_eq!(reports[0].max_cycles, 3);
    assert_eq!(reports[0].constraints, vec![Expr::from_bool(true)]);
    assert_eq!(reports[0].inputs, vec![Expr::Symbol { name: "R7".to_owned(), width: 32 }]);
    assert_eq!(reports[1].path, 2);
    assert_eq!(
        reports[1].result,
        PathStatus::Failed(ErrorReason { error_message: "out of luck".to_owned() })
    );
    assert_eq!(reports[1].max_cycles, 5);
    assert!(reports[1].constraints.is_empty());
    assert!(reports[1].inputs.is_empty());

    assert_eq!(status_of(PathResult::Suppress), None);
    assert_eq!(status_of(PathResult::AssumptionUnsat), None);
}

#[test]
fn answer_of_the_decoder_is_passed_on() {
    let project = image(vec![1, 0]);
    let hooks = HookContainer::new();
    let state = GAState2::new(&project, &hooks, "main", END_PC).unwrap();

    let made = state.instruction_from_array_ptr(&Toy, &[4, 0]).unwrap();
    assert_eq!(made.instruction_size, 16);
    assert_eq!(made.operations.len(), 1);
    assert!(matches!(
        &made.operations[0],
        Operation::Move { destination: Operand::Register(name), .. } if name == "PC"
    ));
    assert_eq!(
        state.instruction_from_array_ptr(&Toy, &[9, 0]).err(),
        Some(GAError::ArchError(ArchError::UnsuportedArchitechture))
    );

    let instruction = Toy.translate(&[1, 0], &state).unwrap();
    let passed = translated(Ok(instruction)).unwrap();
    assert_eq!(passed.operations.len(), 1);
    assert!(matches!(&passed.operations[0], Operation::Add { .. }));
    assert_eq!(
        translated(Err(ArchError::MissingSection("text".to_owned()))).err(),
        Some(GAError::ArchError(ArchError::MissingSection("text".to_owned())))
    );
}

#[test]
fn empty_subprogram_map_holds_nothing() {
    let map = SubProgramMap::empty();
    assert!(map.map.is_empty());
    assert!(map.get_by_name("main").is_none());
    assert!(map.get_by_address(&0x100).is_none());
    assert!(map.get_by_regex("^.*$").is_none());
}

/// Hooks of a user: a path that reaches `stop` is suppressed.
struct StopAt(u64);

impl Hookable for StopAt {
    fn add_hooks(&self, cfg: &mut HookContainer, sub_program_lookup: &SubProgramMap) {
        if sub_program_lookup.get_by_name("main").is_some() {
            cfg.add_pc_hook(self.0, PCHook2::Suppress);
        }
    }
}

#[test]
fn arbiter_takes_hooks_of_the_caller() {
    let mut arbiter = SymexArbiter::new(
        Recorder::default(),
        image(vec![1, 0, 1, 0]),
        HookContainer::new(),
        subprograms(&[("main", 0x100)]),
        SupportedArchitechture::ArmV6M(ArmV6M::new()),
    );
    arbiter.add_hooks(&StopAt(0x102));
    arbiter.add_hooks(&ArmV6M::new());
    assert!(matches!(arbiter.hooks.get_pc_hooks(0x102), ResultOrHook::Hook(PCHook2::Suppress)));
    let logger = arbiter.run("main", &Toy, &mut Anything, &Config::new()).unwrap();
    assert_eq!(logger.events, vec!["path 0", "constraints 0", "warn Suppressing path", "path 1"]);
}
