//! The driver: takes the waiting paths one by one, the one saved last
//! first, and runs each to its end.

use vstd::prelude::*;
use crate::arch::Arch;
use crate::error::{GAError, MemoryError, ProjectError};
use crate::executor::{
    bits_wf,
    ends_path,
    hook_ahead,
    lemma_extends_self,
    proceeds,
    reason,
    resume_execution,
    resumed,
    Config,
    DFSPathSelection,
    Path,
    PathResult,
    SmtSolver,
};
use crate::expr::Expr;
use crate::hooks::{HookContainer, PCHook2};
use crate::project::Project;
use crate::state::{begins, extends, GAState2};

verus! {

/// The paths of a run that wait for their execution.
#[derive(Debug)]
pub struct VM<'a> {
    pub project: &'a Project,
    pub paths: DFSPathSelection<'a>,
}

/// The state of a waiting path as it is when its execution begins: the
/// constraints that wait with the path have joined its path condition.
pub open spec fn started(path: Path, state: GAState2) -> bool {
    &&& state.constraints@ == path.state.constraints@ + path.constraints@
    &&& state.memory == path.state.memory
    &&& state.same_but_memory(GAState2 { constraints: state.constraints, ..path.state })
}

/// What the run of one waiting path to its end gives, where `rest` are the
/// paths that waited below it and `after` those that wait then: how the
/// path ended, the state in which it ended, and the constraints that waited
/// with it.
///
/// The constraints that waited with the path join its path condition
/// before anything executes, and from there the path runs as [`resumed`]
/// says; its path condition only grows, and the paths that it forks off
/// wait on top of the others. A path that stands at a hook that ends it
/// ends at once, whatever the budget: the path that has returned from the
/// entry function to the address that LR held at the start, where
/// `EndSuccess` is hooked, ends as a success with no further instruction
/// executed. A path that stands where neither a hook nor the image is fails
/// as out of bounds.
#[verifier::opaque]
pub open spec fn path_ran(
    path: Path,
    rest: Seq<Path>,
    after: DFSPathSelection,
    config: Config,
    result: PathResult,
    state: GAState2,
    constraints: Seq<Expr>,
) -> bool {
    &&& constraints == path.constraints@
    &&& state.wf()
    &&& state.project == path.state.project
    &&& state.hooks == path.state.hooks
    &&& extends(state.constraints@, path.state.constraints@ + path.constraints@)
    &&& extends(after.paths@, rest)
    &&& exists|begun: GAState2, waiting: DFSPathSelection| #[trigger]
        resumed(begun, state, waiting, after, config, result) && started(path, begun)
            && waiting.paths@ == rest
    &&& ends_path(hook_ahead(path.state)) ==> started(path, state) && after.paths@ == rest && (
    match hook_ahead(path.state) {
        Some(PCHook2::EndSuccess) => result == PathResult::Success(None),
        Some(PCHook2::EndFailure(text)) => result matches PathResult::Failure(said) && said@
            == text@,
        _ => result == PathResult::Suppress,
    })
    &&& path.state.continue_in_instruction is None && hook_ahead(path.state) is None
        && !path.state.project.in_range(path.state.memory.pc & !1u64) ==> started(path, state)
        && after.paths@ == rest && (result matches PathResult::Failure(text) && text@ == reason(
        GAError::MemoryError(MemoryError::OutOfBounds),
    ))
}

/// How one path ended: its result, the state in which it ended, and the
/// constraints that waited with it.
pub type End<'a> = (PathResult, GAState2<'a>, Seq<Expr>);

/// The paths that waited in `waiting` were run one after the other, each
/// time the one that was saved last, as [`path_ran`] says, with these ends
/// in this order; then the paths in `left` wait.
pub open spec fn drained(
    waiting: DFSPathSelection,
    config: Config,
    ends: Seq<End>,
    left: DFSPathSelection,
) -> bool
    decreases ends.len(),
{
    if ends.len() == 0 {
        left == waiting
    } else {
        exists|before: DFSPathSelection|
            #![trigger path_ran(
                before.paths@.last(),
                before.paths@.drop_last(),
                left,
                config,
                ends.last().0,
                ends.last().1,
                ends.last().2,
            )]
            drained(waiting, config, ends.drop_last(), before) && before.paths@.len() > 0
                && path_ran(
                before.paths@.last(),
                before.paths@.drop_last(),
                left,
                config,
                ends.last().0,
                ends.last().1,
                ends.last().2,
            )
    }
}

/// Before any path is run, the paths that wait are those that waited.
pub proof fn lemma_drained_none(waiting: DFSPathSelection, config: Config)
    ensures
        drained(waiting, config, Seq::<End>::empty(), waiting),
{
}

/// One more path was run.
pub proof fn lemma_drained_one_more(
    waiting: DFSPathSelection,
    config: Config,
    ends: Seq<End>,
    before: DFSPathSelection,
    left: DFSPathSelection,
    end: End,
)
    requires
        drained(waiting, config, ends, before),
        before.paths@.len() > 0,
        path_ran(
            before.paths@.last(),
            before.paths@.drop_last(),
            left,
            config,
            end.0,
            end.1,
            end.2,
        ),
    ensures
        drained(waiting, config, ends.push(end), left),
{
    let longer = ends.push(end);
    assert(longer.drop_last() =~= ends);
    assert(longer.last() == end);
    assert(drained(waiting, config, longer.drop_last(), before));
    assert(path_ran(
        before.paths@.last(),
        before.paths@.drop_last(),
        left,
        config,
        longer.last().0,
        longer.last().1,
        longer.last().2,
    ));
    assert(longer.len() > 0);
    assert(drained(waiting, config, longer, left));
}

impl<'a> VM<'a> {
    /// A driver with one waiting path: the one that begins at the function
    /// `fn_name`, as [`GAState2::new`] makes it. Fails as that does.
    pub fn new(project: &'a Project, hooks: &'a HookContainer, fn_name: &str, end_pc: u64) -> (r:
        Result<Self, GAError>)
        requires
            project.wf(),
            hooks.wf(),
        ensures
            match r {
                Ok(vm) => vm.project == project && vm.paths.wf() && vm.paths.paths@.len() == 1
                    && vm.paths.paths@[0].constraints@.len() == 0 && begins(
                    vm.paths.paths@[0].state,
                    *project,
                    *hooks,
                    fn_name@,
                    end_pc,
                ),
                Err(GAError::EntryFunctionNotFound(name)) => !project.symbols().contains_key(
                    fn_name@,
                ) && name@ == fn_name@,
                Err(GAError::ProjectError(ProjectError::UnableToParseElf(text))) => project.symbols().contains_key(
                fn_name@) && !project.symbols().contains_key("_stack_start"@) && text@
                    == "start of stack not found"@,
                Err(_) => false,
            },
    {
        let mut vm = VM { project, paths: DFSPathSelection::new() };
        let state = match GAState2::new(project, hooks, fn_name, end_pc) {
            Ok(state) => state,
            Err(e) => {
                return Err(e);
            },
        };
        vm.paths.save_path(Path::new(state, None));
        Ok(vm)
    }

    /// A driver whose one waiting path begins at `state`.
    pub fn new_with_state(project: &'a Project, state: GAState2<'a>) -> (r: Self)
        ensures
            r.project == project,
            r.paths.paths@.len() == 1,
            r.paths.paths@[0].state == state,
            r.paths.paths@[0].constraints@.len() == 0,
            state.wf() ==> r.paths.wf(),
    {
        let mut vm = VM { project, paths: DFSPathSelection::new() };
        vm.paths.save_path(Path::new(state, None));
        vm
    }

    /// Runs the path that was saved last to its end and yields how it
    /// ended, its final state and the constraints that waited with it, as
    /// [`path_ran`] says; yields nothing where no path waits.
    pub fn run<A: Arch, S: SmtSolver>(&mut self, arch: &A, solver: &mut S, config: &Config) -> (r:
        Result<Option<(PathResult, GAState2<'a>, Vec<Expr>)>, GAError>)
        requires
            old(self).paths.wf(),
        ensures
            final(self).project == old(self).project,
            final(self).paths.wf(),
            match r {
                Ok(None) => old(self).paths.paths@.len() == 0 && *final(self) == *old(self),
                Ok(Some((result, state, constraints))) => old(self).paths.paths@.len() > 0
                    && path_ran(
                    old(self).paths.paths@.last(),
                    old(self).paths.paths@.drop_last(),
                    final(self).paths,
                    *config,
                    result,
                    state,
                    constraints@,
                ),
                Err(_) => false,
            },
    {
        if self.paths.paths.len() == 0 {
            return Ok(None);
        }
        let path: Path<'a> = match self.paths.get_path() {
            Some(path) => path,
            None => {
                return Ok(None);
            },
        };
        let ghost waiting = path;
        let mut state: GAState2<'a> = path.state;
        let constraints: Vec<Expr> = path.constraints;
        let mut i: usize = 0;
        while i < constraints.len()
            invariant
                0 <= i <= constraints@.len(),
                bits_wf(constraints@),
                state.wf(),
                state.constraints@ == waiting.state.constraints@ + constraints@.take(i as int),
                state.memory == waiting.state.memory,
                state.same_but_memory(GAState2 { constraints: state.constraints, ..waiting.state }),
            decreases constraints@.len() - i,
        {
            state.constraints.push(constraints[i].clone());
            proof {
                assert(constraints@.take(i + 1) =~= constraints@.take(i as int).push(
                    constraints@[i as int],
                ));
                assert(state.constraints@ =~= waiting.state.constraints@ + constraints@.take(
                    i + 1,
                ));
            }
            i = i + 1;
        }
        proof {
            assert(constraints@.take(i as int) =~= constraints@);
            lemma_extends_self(self.paths.paths@);
        }
        let ghost begun = state;
        let ghost waited = self.paths;
        let result: PathResult = resume_execution(&mut state, &mut self.paths, arch, solver, config);
        proof {
            reveal(path_ran);
            assert(resumed(begun, state, waited, self.paths, *config, result));
        }
        Ok(Some((result, state, constraints)))
    }
}

} // verus!
