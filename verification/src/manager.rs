//! The manager of a run: it owns the program image and the hooks, starts
//! the driver at a function and hands every path that ends to the logger.

use vstd::prelude::*;
use crate::arch::Arch;
use crate::arm::{Hookable, SupportedArchitechture};
use crate::dwarf_helper::SubProgramMap;
use crate::error::GAError;
use crate::executor::{
    ends_path,
    hook_ahead,
    Config,
    DFSPathSelection,
    Path,
    PathResult,
    SmtSolver,
};
use crate::expr::Expr;
use crate::hooks::{HookContainer, PCHook2};
use crate::logging::{end_of, LogStep, Logger, PathEnd, Region, RegionMetaData};
use crate::project::Project;
use crate::state::{begins, GAState2};
use crate::vm::{drained, lemma_drained_none, lemma_drained_one_more, path_ran, End, VM};

verus! {

/// The address that LR holds where the entry function is entered: no
/// instruction lies there, so that the return to it is the end of the path.
pub const END_PC: u64 = 0xFFFF_FFFE;

/// Everything that a run needs.
pub struct SymexArbiter<L: Logger> {
    pub logger: L,
    pub project: Project,
    pub hooks: HookContainer,
    pub symbol_lookup: SubProgramMap,
    pub archtecture: SupportedArchitechture,
}

/// Why a path failed.
#[derive(Debug, PartialEq, Eq)]
pub struct ErrorReason {
    pub error_message: String,
}

/// How a path ended, for a report.
#[derive(Debug, PartialEq, Eq)]
pub enum PathStatus {
    /// The path returned, with its value if one is known.
    Succeeded(Option<Expr>),
    /// The path failed.
    Failed(ErrorReason),
}

/// The report of one path.
#[derive(Debug)]
pub struct VisualPathResult {
    /// Number of the path among those reported, from 1 on.
    pub path: usize,
    pub result: PathStatus,
    /// The cycles that the path took.
    pub max_cycles: u64,
    /// The condition under which the path is taken.
    pub constraints: Vec<Expr>,
    /// The inputs that the path made, in the order of their making.
    pub inputs: Vec<Expr>,
}

/// The status of a path that ended this way, where it is reported: a
/// success with its value, a failure with its reason. A suppressed path and
/// one whose condition cannot hold are not reported.
pub open spec fn spec_status(result: PathResult) -> Option<PathStatus> {
    match result {
        PathResult::Success(value) => Some(PathStatus::Succeeded(value)),
        PathResult::Failure(reason) => Some(
            PathStatus::Failed(ErrorReason { error_message: reason }),
        ),
        PathResult::Suppress | PathResult::AssumptionUnsat => None,
    }
}

/// The status of a path that is reported.
pub fn status_of(result: PathResult) -> (r: Option<PathStatus>)
    ensures
        r == spec_status(result),
{
    match result {
        PathResult::Success(value) => Some(PathStatus::Succeeded(value)),
        PathResult::Failure(reason) => Some(
            PathStatus::Failed(ErrorReason { error_message: reason }),
        ),
        PathResult::Suppress => None,
        PathResult::AssumptionUnsat => None,
    }
}

/// The reports with that of a path that ended in `state` with `result`: a
/// path that is reported gets the next number, its status, the cycles that
/// the state has counted, and the path condition and the inputs of the
/// state; for any other path the reports stay as they are.
pub open spec fn spec_record(
    reports: Seq<VisualPathResult>,
    result: PathResult,
    state: GAState2,
) -> Seq<VisualPathResult> {
    match spec_status(result) {
        Some(status) => reports.push(
            VisualPathResult {
                path: (reports.len() + 1) as usize,
                result: status,
                max_cycles: state.cycle_count,
                constraints: state.constraints,
                inputs: state.memory.inputs,
            },
        ),
        None => reports,
    }
}

/// The reports of paths that ended with these results in these states, in
/// this order.
pub open spec fn reports_of(ends: Seq<End>) -> Seq<VisualPathResult>
    decreases ends.len(),
{
    if ends.len() == 0 {
        Seq::empty()
    } else {
        spec_record(reports_of(ends.drop_last()), ends.last().0, ends.last().1)
    }
}

/// Adds the report of a path that ended in `state` with `result` to the
/// reports so far: see [`spec_record`].
pub fn record(path_results: &mut Vec<VisualPathResult>, result: PathResult, state: GAState2)
    requires
        old(path_results)@.len() < usize::MAX,
    ensures
        final(path_results)@ == spec_record(old(path_results)@, result, state),
{
    if let Some(status) = status_of(result) {
        let path_num: usize = path_results.len() + 1;
        path_results.push(
            VisualPathResult {
                path: path_num,
                result: status,
                max_cycles: state.cycle_count,
                constraints: state.constraints,
                inputs: state.memory.inputs,
            },
        );
    }
}

/// Every one of the paths stands at a hook that ends it.
pub open spec fn all_end(paths: Seq<Path>) -> bool {
    forall|i: int| 0 <= i < paths.len() ==> ends_path(hook_ahead((#[trigger] paths[i]).state))
}

/// Of paths that each stand at a hook that ends it, those that are
/// reported, in the order in which they run: the one saved last first, and
/// without those that stand at a hook that suppresses them.
pub open spec fn reported_paths(paths: Seq<Path>) -> Seq<Path>
    decreases paths.len(),
{
    if paths.len() == 0 {
        Seq::empty()
    } else if hook_ahead(paths.last().state) matches Some(PCHook2::Suppress) {
        reported_paths(paths.drop_last())
    } else {
        seq![paths.last()] + reported_paths(paths.drop_last())
    }
}

/// The report of a path that stood at a hook that ends it: the number, a
/// success without a value or a failure with the reason of the hook, the
/// cycles that the path had counted, as path condition that of its state
/// followed by the constraints that waited with it, and the inputs of its
/// state.
pub open spec fn reports_ended(report: VisualPathResult, number: int, path: Path) -> bool {
    &&& report.path == number
    &&& match hook_ahead(path.state) {
        Some(PCHook2::EndSuccess) => report.result == PathStatus::Succeeded(None),
        Some(PCHook2::EndFailure(text)) => report.result matches PathStatus::Failed(reason)
            && reason.error_message@ == text@,
        _ => false,
    }
    &&& report.max_cycles == path.state.cycle_count
    &&& report.constraints@ == path.state.constraints@ + path.constraints@
    &&& report.inputs@ == path.state.memory.inputs@
}

/// The reports are those of the paths, one for one and numbered from 1.
pub open spec fn reports_all_ended(reports: Seq<VisualPathResult>, paths: Seq<Path>) -> bool {
    &&& reports.len() == paths.len()
    &&& forall|k: int|
        0 <= k < reports.len() ==> reports_ended(#[trigger] reports[k], k + 1, paths[k])
}

/// Runs all paths in the vm and reports those that end as a success or as a
/// failure, numbered from 1 in the order in which they end; suppressed
/// paths and paths whose condition cannot hold are left out. Each report
/// holds the cycle count and the path condition of its path: the reports
/// are those of [`reports_of`] for the ends of the paths. The paths are
/// run one after the other as [`drained`] says, until none waits.
///
/// How a path ends is for the decoder and the solver to say, but for a path
/// that stands at a hook that ends it. So where every waiting path stands
/// at such a hook, the reports are known: those of [`reported_paths`], each
/// as [`reports_ended`] says, and no path waits any more. Without a waiting
/// path there is no report.
pub fn run_elf_paths<'a, A: Arch, S: SmtSolver>(
    vm: &mut VM<'a>,
    arch: &A,
    solver: &mut S,
    config: &Config,
) -> (r: Result<Vec<VisualPathResult>, GAError>)
    requires
        old(vm).paths.wf(),
    ensures
        final(vm).paths.wf(),
        final(vm).project == old(vm).project,
        r matches Ok(results) && (exists|ends: Seq<End>|
            #![trigger reports_of(ends)]
            results@ == reports_of(ends) && drained(
                old(vm).paths,
                *config,
                ends,
                final(vm).paths,
            ) && (final(vm).paths.paths@.len() == 0 || ends.len() == usize::MAX) && (old(vm).paths.paths@.len() > 0 ==> ends.len() >= 1)) && (forall|i: int|
            0 <= i < results@.len() ==> (#[trigger] results@[i]).path == i + 1) && (old(vm).paths.paths@.len() == 0 ==> results@.len() == 0 && final(vm).paths.paths@.len() == 0) && (
        all_end(old(vm).paths.paths@) ==> reports_all_ended(
            results@,
            reported_paths(old(vm).paths.paths@),
        ) && final(vm).paths.paths@.len() == 0),
{
    let mut path_results: Vec<VisualPathResult> = Vec::new();
    let mut pulled: usize = 0;
    let waiting: usize = vm.paths.paths.len();
    let ghost known = all_end(old(vm).paths.paths@);
    let ghost mut done: Seq<Path> = Seq::empty();
    let ghost mut ends: Seq<End> = Seq::empty();
    proof {
        lemma_drained_none(old(vm).paths, *config);
        assert(reported_paths(old(vm).paths.paths@) =~= done + reported_paths(vm.paths.paths@));
        assert(path_results@ =~= reports_of(ends));
    }
    while pulled < usize::MAX
        invariant
            vm.paths.wf(),
            path_results@ == reports_of(ends),
            ends.len() == pulled,
            pulled == 0 ==> vm.paths == old(vm).paths,
            drained(old(vm).paths, *config, ends, vm.paths),
            vm.project == old(vm).project,
            path_results@.len() <= pulled,
            forall|i: int|
                0 <= i < path_results@.len() ==> (#[trigger] path_results@[i]).path == i + 1,
            waiting == old(vm).paths.paths@.len(),
            waiting == 0 ==> path_results@.len() == 0 && vm.paths.paths@.len() == 0,
            known == all_end(old(vm).paths.paths@),
            known ==> all_end(vm.paths.paths@),
            known ==> pulled + vm.paths.paths@.len() == waiting,
            known ==> reported_paths(old(vm).paths.paths@) == done + reported_paths(
                vm.paths.paths@,
            ),
            known ==> reports_all_ended(path_results@, done),
        ensures
            known ==> vm.paths.paths@.len() == 0,
            vm.paths.paths@.len() == 0 || pulled == usize::MAX,
        decreases usize::MAX - pulled,
    {
        let ghost before = vm.paths.paths@;
        let ghost waiting_before = vm.paths;
        let ghost reports_before = path_results@;
        let (path_result, state, waited) = match vm.run(arch, solver, config) {
            Ok(Some(outcome)) => outcome,
            Ok(None) => {
                break ;
            },
            Err(e) => {
                return Err(e);
            },
        };
        pulled = pulled + 1;
        proof {
            let ghost earlier = ends;
            lemma_drained_one_more(
                old(vm).paths,
                *config,
                earlier,
                waiting_before,
                vm.paths,
                (path_result, state, waited@),
            );
            ends = ends.push((path_result, state, waited@));
            assert(ends.drop_last() =~= earlier);
        }
        record(&mut path_results, path_result, state);
        proof {
            if known {
                reveal(path_ran);
                let path = before.last();
                assert(ends_path(hook_ahead(path.state)));
                assert(vm.paths.paths@ == before.drop_last());
                assert(all_end(vm.paths.paths@)) by {
                    assert forall|i: int| 0 <= i < vm.paths.paths@.len() implies ends_path(
                        hook_ahead((#[trigger] vm.paths.paths@[i]).state),
                    ) by {
                        assert(vm.paths.paths@[i] == before[i]);
                    }
                }
                if hook_ahead(path.state) matches Some(PCHook2::Suppress) {
                    assert(reported_paths(before) == reported_paths(before.drop_last()));
                } else {
                    assert(reported_paths(before) == seq![path] + reported_paths(
                        before.drop_last(),
                    ));
                    assert(done.push(path) + reported_paths(before.drop_last()) =~= done + (
                    seq![path] + reported_paths(before.drop_last())));
                    assert(reports_ended(path_results@.last(), done.len() as int + 1, path));
                    done = done.push(path);
                    assert(reports_all_ended(path_results@, done)) by {
                        assert forall|k: int| 0 <= k < path_results@.len() implies reports_ended(
                            #[trigger] path_results@[k],
                            k + 1,
                            done[k],
                        ) by {
                            if k < reports_before.len() {
                                assert(path_results@[k] == reports_before[k]);
                            }
                        }
                    }
                }
            }
        }
    }
    proof {
        if known {
            assert(vm.paths.paths@.len() == 0);
            assert(reported_paths(vm.paths.paths@) =~= Seq::<Path>::empty());
            assert(done + Seq::<Path>::empty() =~= done);
        }
    }
    Ok(path_results)
}

/// What the logger is told of a path that ended, where `index` paths ended
/// before it: the constraints that waited with the path; then, of a
/// suppressed path, a warning, of a path whose condition cannot hold,
/// nothing, and of any other path, how it ended, its cycle count and its
/// final state; and last that the path of the next number begins.
pub open spec fn spec_log_steps(
    waited: Seq<Expr>,
    end: PathEnd,
    pc: u64,
    cycles: u64,
    condition: Seq<Expr>,
    inputs: Seq<Expr>,
    index: usize,
) -> Seq<LogStep> {
    seq![LogStep::Constraints(waited)] + (match end {
        PathEnd::Suppress => seq![LogStep::Warning("Suppressing path"@)],
        PathEnd::AssumptionUnsat => Seq::empty(),
        _ => seq![
            LogStep::Ended(end),
            LogStep::ExecutionTime(cycles),
            LogStep::FinalState(pc, cycles, condition, inputs),
        ],
    }) + seq![LogStep::ChangePath((index + 1) as usize)]
}

/// Tells the logger of a path that ended with `result` in `state`, where
/// `conditions` waited with the path and `index` paths ended before it: see
/// [`spec_log_steps`].
pub fn tell<L: Logger>(
    logger: &mut L,
    conditions: &Vec<Expr>,
    result: PathResult,
    state: GAState2,
    index: usize,
)
    requires
        index < usize::MAX,
    ensures
        final(logger).told() == old(logger).told() + spec_log_steps(
            conditions@,
            end_of(result),
            state.memory.pc,
            state.cycle_count,
            state.constraints@,
            state.memory.inputs@,
            index,
        ),
{
    let ghost steps = spec_log_steps(
        conditions@,
        end_of(result),
        state.memory.pc,
        state.cycle_count,
        state.constraints@,
        state.memory.inputs@,
        index,
    );
    logger.add_constraints(conditions);
    match result {
        PathResult::Suppress => {
            logger.warn(RegionMetaData::global(), "Suppressing path");
        },
        PathResult::AssumptionUnsat => {
        },
        result => {
            let cycles: u64 = state.cycle_count;
            logger.record_path_result(result);
            logger.record_execution_time(RegionMetaData::global(), cycles);
            logger.record_final_state(state);
        },
    }
    logger.change_path(index + 1);
    proof {
        assert(logger.told() =~= old(logger).told() + steps);
    }
}

/// What the logger is told of paths that ended with these ends, in this
/// order, the first as path 0: of each what [`spec_log_steps`] says.
pub open spec fn told_of(ends: Seq<End>) -> Seq<LogStep>
    decreases ends.len(),
{
    if ends.len() == 0 {
        Seq::empty()
    } else {
        let last = ends.last();
        told_of(ends.drop_last()) + spec_log_steps(
            last.2,
            end_of(last.0),
            last.1.memory.pc,
            last.1.cycle_count,
            last.1.constraints@,
            last.1.memory.inputs@,
            (ends.len() - 1) as usize,
        )
    }
}

/// The run of the function `function`: one path waits at first, the one
/// that begins at the function (see [`begins`]) with LR at [`END_PC`]; the
/// paths are run one after the other as [`drained`] says, at least that
/// one, until none waits; and `told` is what the logger is told of them
/// after it was told that path 0 begins.
pub open spec fn ran_all(
    project: Project,
    hooks: HookContainer,
    function: Seq<char>,
    config: Config,
    told: Seq<LogStep>,
) -> bool {
    exists|entry: DFSPathSelection, ends: Seq<End>, left: DFSPathSelection|
        #![trigger drained(entry, config, ends, left)]
        entry.paths@.len() == 1 && entry.paths@[0].constraints@.len() == 0 && begins(
            entry.paths@[0].state,
            project,
            hooks,
            function,
            END_PC,
        ) && drained(entry, config, ends, left) && ends.len() >= 1 && (left.paths@.len() == 0
            || ends.len() == usize::MAX) && told == seq![LogStep::ChangePath(0)] + told_of(ends)
}

/// The end that a hook which ends a path gives it.
pub open spec fn hook_end(hook: PCHook2) -> PathEnd {
    match hook {
        PCHook2::EndSuccess => PathEnd::Success(None),
        PCHook2::EndFailure(text) => PathEnd::Failure(text@),
        _ => PathEnd::Suppress,
    }
}

/// All that the logger is told of a run whose entry function stands at a
/// hook that ends the path: that path 0 begins, and then of the one path,
/// which ends at once at the program counter `pc` with no cycle counted, no
/// condition and no input, what [`spec_log_steps`] says.
pub open spec fn told_of_hooked_entry(hook: PCHook2, pc: u64) -> Seq<LogStep> {
    seq![LogStep::ChangePath(0)] + spec_log_steps(
        Seq::empty(),
        hook_end(hook),
        pc,
        0,
        Seq::empty(),
        Seq::empty(),
        0,
    )
}

impl<L: Logger> SymexArbiter<L> {
    /// The parts are well formed.
    pub open spec fn wf(self) -> bool {
        self.project.wf() && self.hooks.wf() && self.symbol_lookup.wf()
    }

    /// The manager of a run over these parts.
    pub fn new(
        logger: L,
        project: Project,
        hooks: HookContainer,
        symbol_lookup: SubProgramMap,
        archtecture: SupportedArchitechture,
    ) -> (r: Self)
        ensures
            r.logger == logger,
            r.project == project,
            r.hooks == hooks,
            r.symbol_lookup == symbol_lookup,
            r.archtecture == archtecture,
    {
        SymexArbiter { logger, project, hooks, symbol_lookup, archtecture }
    }

    /// Adds hooks of the caller's own: what `source` adds to the hooks of
    /// the run, over the subprograms of the program. Which hooks those are
    /// is for `source` to say; nothing but the hooks changes.
    pub fn add_hooks<H: Hookable>(&mut self, source: &H)
        requires
            old(self).wf(),
        ensures
            final(self).wf(),
            final(self).logger == old(self).logger,
            final(self).project == old(self).project,
            final(self).symbol_lookup == old(self).symbol_lookup,
            final(self).archtecture == old(self).archtecture,
    {
        source.add_hooks(&mut self.hooks, &self.symbol_lookup);
    }

    /// The subprograms of the program.
    pub fn get_symbol_map(&self) -> (r: &SubProgramMap)
        ensures
            *r == self.symbol_lookup,
    {
        &self.symbol_lookup
    }

    /// Runs every path from the function `function` on until none waits,
    /// tells the logger of each that ends, and hands back the logger. First
    /// the logger is told that path 0 begins; then of each path, in the
    /// order in which the paths end, what [`tell`] tells: see [`ran_all`].
    ///
    /// Before the run the hook that ends a path as a success is put at
    /// [`END_PC`], where LR points when `function` is entered. Fails with
    /// `EntryFunctionNotFound` where the subprograms, or the symbols of the
    /// image, do not hold `function`, and with `ProjectError` where the image
    /// has no symbol `_stack_start`; nothing runs then, and nothing changes.
    ///
    /// How a path ends is for the decoder and the solver to say, but for a
    /// path that stands at a hook that ends it. So where such a hook stands
    /// at `function` itself, all that the logger is told is known: see
    /// [`told_of_hooked_entry`].
    pub fn run<A: Arch, S: SmtSolver>(
        &mut self,
        function: &str,
        arch: &A,
        solver: &mut S,
        config: &Config,
    ) -> (r: Result<&L, GAError>)
        requires
            old(self).wf(),
        ensures
            final(self).wf(),
            final(self).project == old(self).project,
            final(self).symbol_lookup == old(self).symbol_lookup,
            final(self).hooks.same_but_pc_hooks(old(self).hooks),
            r is Err ==> *final(self) == *old(self),
            ({
                let known = old(self).symbol_lookup.by_name().contains_key(function@);
                let symbols = old(self).project.symbols();
                match r {
                    Ok(logger) => *logger == final(self).logger && known && symbols.contains_key(function@) && symbols.contains_key(
                        "_stack_start"@,
                    ) && final(self).hooks.pc_hooks() == old(self).hooks.pc_hooks().insert(
                        END_PC,
                        PCHook2::EndSuccess,
                    ) && (exists|told: Seq<LogStep>| #[trigger]
                        ran_all(
                            final(self).project,
                            final(self).hooks,
                            function@,
                            *config,
                            told,
                        ) && final(self).logger.told() == old(self).logger.told() + told) && (final(self).hooks.pc_hooks().contains_key(symbols[function@] & !1u64)
                        && ends_path(
                        Some(final(self).hooks.pc_hooks()[symbols[function@] & !1u64]),
                    ) ==> final(self).logger.told() == old(self).logger.told()
                        + told_of_hooked_entry(
                        final(self).hooks.pc_hooks()[symbols[function@] & !1u64],
                        symbols[function@],
                    )),
                    Err(GAError::EntryFunctionNotFound(name)) => name@ == function@ && (!known
                        || !symbols.contains_key(function@)),
                    Err(GAError::ProjectError(_)) => known && symbols.contains_key(function@)
                        && !symbols.contains_key("_stack_start"@),
                    Err(_) => false,
                }
            }),
    {
        if self.symbol_lookup.get_by_name(function).is_none() {
            return Err(GAError::EntryFunctionNotFound(function.to_owned()));
        }
        if self.project.get_symbol_address(function).is_none() {
            return Err(GAError::EntryFunctionNotFound(function.to_owned()));
        }
        if self.project.get_symbol_address("_stack_start").is_none() {
            return Err(
                GAError::ProjectError(
                    crate::error::ProjectError::UnableToParseElf(
                        "start of stack not found".to_owned(),
                    ),
                ),
            );
        }
        self.hooks.add_pc_hook(END_PC, PCHook2::EndSuccess);
        let mut vm = match VM::new(&self.project, &self.hooks, function, END_PC) {
            Ok(vm) => vm,
            Err(e) => {
                assert(false);
                return Err(e);
            },
        };
        let ghost entry = vm.paths.paths@[0];
        let ghost waiting = vm.paths;
        let ghost hooked = self.hooks;
        let ghost at_end = ends_path(hook_ahead(entry.state));
        let ghost begun = old(self).logger.told().push(LogStep::ChangePath(0));
        let ghost mut outcomes: Seq<End> = Seq::empty();
        let mut path_idx: usize = 0;
        self.logger.change_path(path_idx);
        proof {
            assert(begun + told_of(outcomes) =~= begun);
            lemma_drained_none(waiting, *config);
        }
        while path_idx < usize::MAX
            invariant
                vm.paths.wf(),
                self.wf(),
                self.project == old(self).project,
                self.symbol_lookup == old(self).symbol_lookup,
                self.hooks == hooked,
                begun == old(self).logger.told().push(LogStep::ChangePath(0)),
                outcomes.len() == path_idx,
                path_idx == 0 ==> vm.paths == waiting,
                drained(waiting, *config, outcomes, vm.paths),
                self.logger.told() == begun + told_of(outcomes),
                at_end == ends_path(hook_ahead(entry.state)),
                entry.constraints@.len() == 0,
                entry.state.constraints@.len() == 0,
                entry.state.memory.inputs@.len() == 0,
                entry.state.cycle_count == 0,
                at_end ==> path_idx <= 1,
                at_end && path_idx == 0 ==> vm.paths.paths@ == seq![entry] && self.logger.told()
                    == begun,
                at_end && path_idx == 1 ==> vm.paths.paths@.len() == 0 && self.logger.told()
                    == old(self).logger.told() + told_of_hooked_entry(
                    hook_ahead(entry.state).unwrap(),
                    entry.state.memory.pc,
                ),
            ensures
                at_end ==> path_idx == 1,
                vm.paths.paths@.len() == 0 || path_idx == usize::MAX,
            decreases usize::MAX - path_idx,
        {
            let ghost told_before = self.logger.told();
            let ghost waiting_before = vm.paths;
            let (result, state, conditions) = match vm.run(arch, solver, config) {
                Ok(Some(outcome)) => outcome,
                Ok(None) => {
                    break ;
                },
                Err(e) => {
                    assert(false);
                    return Err(e);
                },
            };
            let ghost steps = spec_log_steps(
                conditions@,
                end_of(result),
                state.memory.pc,
                state.cycle_count,
                state.constraints@,
                state.memory.inputs@,
                path_idx,
            );
            let ghost outcome: End = (result, state, conditions@);
            proof {
                lemma_drained_one_more(
                    waiting,
                    *config,
                    outcomes,
                    waiting_before,
                    vm.paths,
                    outcome,
                );
            }
            tell(&mut self.logger, &conditions, result, state, path_idx);
            proof {
                let ghost earlier = outcomes;
                outcomes = outcomes.push(outcome);
                assert(outcomes.drop_last() =~= earlier);
                assert(told_of(outcomes) == told_of(earlier) + steps);
                assert(begun + told_of(earlier) + steps =~= begun + (told_of(earlier) + steps));
                if at_end {
                    reveal(path_ran);
                    assert(path_idx == 0);
                    assert(seq![entry].last() == entry);
                    assert(seq![entry].drop_last().len() == 0);
                    assert(conditions@ =~= Seq::<Expr>::empty());
                    assert(state.constraints@ =~= Seq::<Expr>::empty());
                    assert(state.memory.inputs@ =~= Seq::<Expr>::empty());
                    assert(begun + steps =~= old(self).logger.told() + (seq![
                        LogStep::ChangePath(0),
                    ] + steps));
                }
            }
            path_idx = path_idx + 1;
        }
        proof {
            let pc = entry.state.memory.pc & !1u64;
            assert(entry.state.hooks == hooked);
            assert(hook_ahead(entry.state) == if hooked.pc_hooks().contains_key(pc) {
                Some(hooked.pc_hooks()[pc])
            } else {
                None
            });
            let told = seq![LogStep::ChangePath(0)] + told_of(outcomes);
            assert(begun + told_of(outcomes) =~= old(self).logger.told() + told);
            assert(drained(waiting, *config, outcomes, vm.paths));
            assert(ran_all(self.project, self.hooks, function@, *config, told));
        }
        Ok(&self.logger)
    }

    /// The logger with all that it was told.
    pub fn consume(self) -> (r: L)
        ensures
            r == self.logger,
    {
        self.logger
    }
}

} // verus!
