//! The operation interpreter: executes instructions on the state of one
//! path, forks where a guard is open, and ends the path at a terminal
//! event.

use vstd::prelude::*;
use crate::arch::Arch;
use crate::array_memory::spec_write;
use crate::collections::NameTable;
use crate::error::{ArchError, GAError, MemoryError, SolverError};
use crate::expr::{BinOp, Expr};
use crate::hooks::{
    hooks_at,
    Intrinsic,
    MemoryReadHook,
    MemoryWriteHook,
    PCHook2,
    RegisterReadHook,
    ResultOrHook,
};
use crate::instruction::{Condition, Instruction2, Operand, Operation};
use crate::memory::{copy_table, values_wf, BoolectorMemory};
use crate::state::{
    copy_instruction,
    extends,
    fetched_at,
    ContinueInsideInstruction2,
    GAState2,
    HookOrInstruction2,
};

verus! {

/// How a path ended.
#[derive(Debug, PartialEq, Eq)]
pub enum PathResult {
    /// The path returned from the entry function, with its value if one is
    /// known.
    Success(Option<Expr>),
    /// The path failed; holds the reason.
    Failure(String),
    /// The path condition cannot hold.
    AssumptionUnsat,
    /// The path is to be left out of the results.
    Suppress,
}

/// The values that an expression can take.
#[derive(Debug)]
pub enum Solutions {
    /// These values and no others.
    Exactly(Vec<Expr>),
    /// These values and more.
    AtLeast(Vec<Expr>),
}

/// What the engine asks of a solver. Nothing is assumed of the answers: the
/// engine checks what it is handed.
pub trait SmtSolver {
    /// Whether all of `constraints` and `extra` can hold together.
    fn is_sat_with_constraint(&mut self, constraints: &Vec<Expr>, extra: &Expr) -> Result<
        bool,
        SolverError,
    >;

    /// Up to `upper_bound` values that `expr` can take where all of
    /// `constraints` hold.
    fn get_values(&mut self, constraints: &Vec<Expr>, expr: &Expr, upper_bound: usize) -> Result<
        Solutions,
        SolverError,
    >;
}

/// Something that executes a program. There may be executors for more
/// than one kind of code.
pub trait Executor {

}

/// A unit of code that an executor runs.
pub trait Module {

}

/// The limits of a run.
#[derive(Debug, Clone, Copy, PartialEq, Eq)]
pub struct Config {
    /// Deepest nesting of calls.
    pub max_call_depth: usize,
    /// Most instructions and hooks that one path may execute.
    pub max_iter_count: usize,
    /// Most targets that an indirect call is resolved to.
    pub max_fn_ptr_resolutions: usize,
    /// Most addresses that a symbolic memory access is resolved to.
    pub max_memory_access_resolutions: usize,
    /// Most values that an intrinsic makes concrete.
    pub max_intrinsic_concretizations: usize,
    /// Most values that a symbolic program counter is resolved to.
    pub max_pc_resolutions: usize,
}

impl Config {
    /// The limits of a run that sets none.
    pub fn new() -> (r: Self)
        ensures
            r == (Config {
                max_call_depth: 1000,
                max_iter_count: 1000,
                max_fn_ptr_resolutions: 1,
                max_memory_access_resolutions: 100,
                max_intrinsic_concretizations: 100,
                max_pc_resolutions: 500,
            }),
    {
        Config {
            max_call_depth: 1000,
            max_iter_count: 1000,
            max_fn_ptr_resolutions: 1,
            max_memory_access_resolutions: 100,
            max_intrinsic_concretizations: 100,
            max_pc_resolutions: 500,
        }
    }
}

/// A path that waits for its execution, with what holds on it beyond the
/// path condition of its state.
#[derive(Debug)]
pub struct Path<'a> {
    pub state: GAState2<'a>,
    pub constraints: Vec<Expr>,
}

/// The paths that wait, the one saved last on top.
#[derive(Debug)]
pub struct DFSPathSelection<'a> {
    pub paths: Vec<Path<'a>>,
}

/// The expressions are well-formed bits.
pub open spec fn bits_wf(constraints: Seq<Expr>) -> bool {
    forall|i: int|
        0 <= i < constraints.len() ==> (#[trigger] constraints[i]).wf() && constraints[i].width()
            == 1
}

impl<'a> Path<'a> {
    /// The state is well formed and the constraints are bits.
    pub open spec fn wf(self) -> bool {
        self.state.wf() && bits_wf(self.constraints@)
    }

    /// A path from `state` on which `constraint` holds too, if there is
    /// one.
    pub fn new(state: GAState2<'a>, constraint: Option<Expr>) -> (r: Self)
        ensures
            r.state == state,
            r.constraints@ == match constraint {
                Some(c) => seq![c],
                None => Seq::<Expr>::empty(),
            },
    {
        let mut constraints: Vec<Expr> = Vec::new();
        if let Some(c) = constraint {
            constraints.push(c);
        }
        Path { state, constraints }
    }
}

impl<'a> DFSPathSelection<'a> {
    /// Every waiting path is well formed.
    pub open spec fn wf(self) -> bool {
        forall|i: int| 0 <= i < self.paths@.len() ==> (#[trigger] self.paths@[i]).wf()
    }

    /// A store without paths.
    pub fn new() -> (r: Self)
        ensures
            r.paths@.len() == 0,
            r.wf(),
    {
        DFSPathSelection { paths: Vec::new() }
    }

    /// Puts `path` on top.
    pub fn save_path(&mut self, path: Path<'a>)
        ensures
            final(self).paths@ == old(self).paths@.push(path),
    {
        self.paths.push(path);
    }

    /// Takes the path that was saved last.
    pub fn get_path(&mut self) -> (r: Option<Path<'a>>)
        ensures
            match r {
                Some(path) => old(self).paths@.len() > 0 && path == old(self).paths@.last()
                    && final(self).paths@ == old(self).paths@.drop_last(),
                None => old(self).paths@.len() == 0 && final(self).paths@.len() == 0,
            },
    {
        self.paths.pop()
    }
}

/// Fork covering: on whatever reading of the expressions as true or false,
/// where the condition of one of the two siblings of a fork holds (the
/// parent's with the guard, or the parent's with the other constraint), the
/// parent's holds.
pub proof fn lemma_fork_covers(
    parent: Seq<Expr>,
    guard: Expr,
    other: Expr,
    holds: spec_fn(Expr) -> bool,
)
    ensures
        ({
            let taken = parent.push(guard);
            let not_taken = parent.push(other);
            ((forall|i: int| 0 <= i < taken.len() ==> holds(#[trigger] taken[i])) || (forall|
                i: int,
            |
                0 <= i < not_taken.len() ==> holds(#[trigger] not_taken[i]))) ==> (forall|i: int|
                0 <= i < parent.len() ==> holds(#[trigger] parent[i]))
        }),
{
    let taken = parent.push(guard);
    let not_taken = parent.push(other);
    if forall|i: int| 0 <= i < taken.len() ==> holds(#[trigger] taken[i]) {
        assert forall|i: int| 0 <= i < parent.len() implies holds(#[trigger] parent[i]) by {
            assert(taken[i] == parent[i]);
        }
    } else if forall|i: int| 0 <= i < not_taken.len() ==> holds(#[trigger] not_taken[i]) {
        assert forall|i: int| 0 <= i < parent.len() implies holds(#[trigger] parent[i]) by {
            assert(not_taken[i] == parent[i]);
        }
    }
}

/// The reason that a failed path reports for an error.
pub fn describe(error: &GAError) -> (r: String)
    ensures
        r@ == reason(*error),
{
    match error {
        GAError::ProjectError(_) => "Project error.".to_owned(),
        GAError::MemoryError(MemoryError::OutOfBounds) => "Memory error: out of bounds.".to_owned(),
        GAError::MemoryError(MemoryError::InconsistentWidth) => "Memory error: inconsistent width.".to_owned(),
        GAError::EntryFunctionNotFound(_) => "Entry function not found.".to_owned(),
        GAError::WritingToStaticMemoryProhibited => "Writing to static memory not permitted.".to_owned(),
        GAError::NonDeterministicPC => "Program counter is not deterministic.".to_owned(),
        GAError::CouldNotOpenFile(_) => "Could not open the specified file.".to_owned(),
        GAError::SolverError(_) => "Solver error.".to_owned(),
        GAError::ArchError(_) => "Architecture error.".to_owned(),
    }
}

/// The reason that a failed path reports for an error.
pub open spec fn reason(error: GAError) -> Seq<char> {
    match error {
        GAError::ProjectError(_) => "Project error."@,
        GAError::MemoryError(MemoryError::OutOfBounds) => "Memory error: out of bounds."@,
        GAError::MemoryError(MemoryError::InconsistentWidth) => "Memory error: inconsistent width."@,
        GAError::EntryFunctionNotFound(_) => "Entry function not found."@,
        GAError::WritingToStaticMemoryProhibited => "Writing to static memory not permitted."@,
        GAError::NonDeterministicPC => "Program counter is not deterministic."@,
        GAError::CouldNotOpenFile(_) => "Could not open the specified file."@,
        GAError::SolverError(_) => "Solver error."@,
        GAError::ArchError(_) => "Architecture error."@,
    }
}

/// The end of a path that fails with `error`.
pub fn failure(error: &GAError) -> (r: PathResult)
    ensures
        r matches PathResult::Failure(text) && text@ == reason(*error),
{
    PathResult::Failure(describe(error))
}

/// `extends` goes through a middle, and every sequence extends itself.
pub proof fn lemma_extends_chain<T>(c: Seq<T>, b: Seq<T>, a: Seq<T>)
    requires
        extends(c, b),
        extends(b, a),
    ensures
        extends(c, a),
        extends(a, a),
{
    assert(c.take(a.len() as int) =~= b.take(a.len() as int));
    assert(a.take(a.len() as int) =~= a);
}

/// Every sequence extends itself.
pub proof fn lemma_extends_self<T>(a: Seq<T>)
    ensures
        extends(a, a),
{
    assert(a.take(a.len() as int) =~= a);
}

/// What every step of the execution keeps: the state stays well formed, on
/// the same program image with the same hooks, word size and byte order,
/// and its path condition only grows.
pub open spec fn proceeds(before: GAState2, after: GAState2) -> bool {
    &&& after.wf()
    &&& after.project == before.project
    &&& after.hooks == before.hooks
    &&& after.memory.word_size == before.memory.word_size
    &&& after.memory.ram.endianness == before.memory.ram.endianness
    &&& extends(after.constraints@, before.constraints@)
}

/// What a step inside an instruction keeps beyond that: the counters of
/// cycles and instructions, and the instruction that is under execution.
pub open spec fn stays_inside(before: GAState2, after: GAState2) -> bool {
    &&& proceeds(before, after)
    &&& after.cycle_count == before.cycle_count
    &&& after.count_cycles == before.count_cycles
    &&& after.instruction_counter == before.instruction_counter
    &&& after.last_pc == before.last_pc
    &&& after.last_instruction == before.last_instruction
    &&& after.current_instruction == before.current_instruction
    &&& after.continue_in_instruction == before.continue_in_instruction
    &&& after.any_counter == before.any_counter
}

/// `proceeds` and `stays_inside` go through a middle state.
pub proof fn lemma_steps_chain(a: GAState2, b: GAState2, c: GAState2)
    requires
        proceeds(a, b),
        proceeds(b, c),
    ensures
        proceeds(a, c),
        stays_inside(a, b) && stays_inside(b, c) ==> stays_inside(a, c),
{
    lemma_extends_chain(c.constraints@, b.constraints@, a.constraints@);
}

/// A state that differs from another in its memory at most, with the same
/// word size and byte order, stays inside from it.
pub proof fn lemma_memory_step(a: GAState2, b: GAState2)
    requires
        b.wf(),
        b.same_but_memory(a),
        b.memory.word_size == a.memory.word_size,
        b.memory.ram.endianness == a.memory.ram.endianness,
    ensures
        stays_inside(a, b),
{
    assert(b.constraints@.take(a.constraints@.len() as int) =~= a.constraints@);
}

/// Every state proceeds from itself.
pub proof fn lemma_steps_start(a: GAState2)
    requires
        a.wf(),
    ensures
        proceeds(a, a),
        stays_inside(a, a),
{
    assert(a.constraints@.take(a.constraints@.len() as int) =~= a.constraints@);
}

/// What one read hook yields for a read of `bits` bits at `addr`.
pub open spec fn hook_read(
    hook: MemoryReadHook,
    state: GAState2,
    addr: Expr,
    bits: u32,
) -> Result<Expr, MemoryError> {
    match hook {
        MemoryReadHook::Constant(word) => Ok(
            Expr::spec_from_u64(word.spec_value(), word.spec_bits()),
        ),
        MemoryReadHook::Load => state.memory.spec_get(addr, bits),
    }
}

/// What the read hooks from position `from` on yield, one after the other:
/// the first failure, and else what the last one yields; `so_far` where there
/// is none.
pub open spec fn hooks_read(
    hooks: Seq<MemoryReadHook>,
    state: GAState2,
    addr: Expr,
    bits: u32,
    from: int,
    so_far: Result<Expr, MemoryError>,
) -> Result<Expr, MemoryError>
    decreases hooks.len() - from,
{
    if from >= hooks.len() || from < 0 {
        so_far
    } else {
        match hook_read(hooks[from], state, addr, bits) {
            Ok(e) => hooks_read(hooks, state, addr, bits, from + 1, Ok(e)),
            Err(e) => Err(e),
        }
    }
}

/// The read hooks that stand in for a read at `addr`: none where the
/// address is symbolic.
pub open spec fn read_hooks_for(state: GAState2, addr: Expr) -> Seq<MemoryReadHook> {
    match addr.spec_get_constant() {
        Some(caddr) => hooks_at(
            state.hooks.single_memory_read_hook.entries(),
            state.hooks.range_memory_read_hook@,
            caddr,
        ),
        None => Seq::empty(),
    }
}

/// What a read of `bits` bits at `addr` yields: what memory holds, or the
/// program image inside its range, where no hook applies; else what the
/// hooks yield, the hook of the address itself having the last word.
pub open spec fn spec_get_memory(state: GAState2, addr: Expr, bits: u32) -> Result<
    Expr,
    MemoryError,
> {
    if read_hooks_for(state, addr).len() == 0 {
        state.memory.spec_get(addr, bits)
    } else {
        hooks_read(
            read_hooks_for(state, addr),
            state,
            addr,
            bits,
            0,
            Err(MemoryError::OutOfBounds),
        )
    }
}

/// Reads `bits` bits at `address`, through the hooks.
pub fn get_memory(state: &GAState2, address: &Expr, bits: u32) -> (r: Result<Expr, GAError>)
    requires
        state.wf(),
        address.wf(),
    ensures
        match r {
            Ok(e) => spec_get_memory(*state, *address, bits) == Ok::<Expr, MemoryError>(e)
                && e.wf(),
            Err(e) => e matches GAError::MemoryError(inner) && spec_get_memory(
                *state,
                *address,
                bits,
            ) == Err::<Expr, MemoryError>(inner),
        },
{
    match state.reader().read_memory(&state.memory, address, bits) {
        ResultOrHook::Result(Ok(e)) => Ok(e),
        ResultOrHook::Result(Err(e)) => Err(GAError::MemoryError(e)),
        ResultOrHook::Hook(_) => Err(GAError::MemoryError(MemoryError::OutOfBounds)),
        ResultOrHook::Hooks(hooks) => {
            let mut value: Result<Expr, MemoryError> = Err(MemoryError::OutOfBounds);
            let mut i: usize = 0;
            while i < hooks.len()
                invariant
                    state.wf(),
                    address.wf(),
                    0 <= i <= hooks@.len(),
                    hooks@ == read_hooks_for(*state, *address),
                    i > 0 ==> value is Ok,
                    value matches Ok(e) ==> e.wf(),
                    hooks_read(hooks@, *state, *address, bits, i as int, value) == hooks_read(
                        hooks@,
                        *state,
                        *address,
                        bits,
                        0,
                        Err(MemoryError::OutOfBounds),
                    ),
                decreases hooks@.len() - i,
            {
                let next: Result<Expr, MemoryError> = match hooks[i] {
                    MemoryReadHook::Constant(word) => Ok(
                        Expr::from_u64(word.value(), word.bits()),
                    ),
                    MemoryReadHook::Load => state.memory.get(address, bits),
                };
                match next {
                    Ok(e) => {
                        value = Ok(e);
                    },
                    Err(e) => {
                        return Err(GAError::MemoryError(e));
                    },
                }
                i = i + 1;
            }
            match value {
                Ok(e) => Ok(e),
                Err(e) => Err(GAError::MemoryError(e)),
            }
        },
    }
}

/// The stores after the write hooks from position `from` on took a write
/// of `value` at `addr`, one after the other: a hook that stores writes to
/// memory, a hook that discards does nothing.
pub open spec fn hooks_written(
    hooks: Seq<MemoryWriteHook>,
    stores: Seq<crate::array_memory::Store>,
    ptr_size: u32,
    endianness: crate::general::Endianness,
    addr: Expr,
    value: Expr,
    from: int,
) -> Seq<crate::array_memory::Store>
    decreases hooks.len() - from,
{
    if from >= hooks.len() || from < 0 {
        stores
    } else {
        match hooks[from] {
            MemoryWriteHook::Discard => hooks_written(
                hooks,
                stores,
                ptr_size,
                endianness,
                addr,
                value,
                from + 1,
            ),
            MemoryWriteHook::Store => hooks_written(
                hooks,
                spec_write(stores, ptr_size, endianness, addr, value),
                ptr_size,
                endianness,
                addr,
                value,
                from + 1,
            ),
        }
    }
}

/// The write hooks that stand in for a write at `addr`: none where the
/// address is symbolic.
pub open spec fn write_hooks_for(state: GAState2, addr: Expr) -> Seq<MemoryWriteHook> {
    match addr.spec_get_constant() {
        Some(caddr) => hooks_at(
            state.hooks.single_memory_write_hook.entries(),
            state.hooks.range_memory_write_hook@,
            caddr,
        ),
        None => Seq::empty(),
    }
}

/// Whether one of the hooks writes to memory.
pub open spec fn any_store(hooks: Seq<MemoryWriteHook>) -> bool {
    exists|i: int| 0 <= i < hooks.len() && hooks[i] == MemoryWriteHook::Store
}

/// Writes `value` at `address`, through the hooks. A write at a constant
/// address inside the program image fails with
/// `WritingToStaticMemoryProhibited`; a write that memory is to take fails
/// with `InconsistentWidth` where the widths do not fit. A write that fails
/// changes nothing. Where hooks apply, each takes the write in turn, the
/// hook of the address itself last.
pub fn set_memory(state: &mut GAState2, address: &Expr, value: Expr) -> (r: Result<(), GAError>)
    requires
        old(state).wf(),
        address.wf(),
        value.wf(),
    ensures
        stays_inside(*old(state), *final(state)),
        final(state).same_but_memory(*old(state)),
        final(state).memory.same_but_ram(old(state).memory),
        ({
            let is_static = address is Const && old(state).project.in_range(address->value);
            let fits = crate::array_memory::access_ok(
                old(state).memory.word_size,
                *address,
                value.width() as u32,
            );
            let hooks = write_hooks_for(*old(state), *address);
            let before = old(state).memory.ram;
            let to_memory = hooks.len() == 0 || any_store(hooks);
            match r {
                Ok(_) => !is_static && (to_memory ==> fits) && final(state).memory.ram.stores@
                    == if hooks.len() == 0 {
                    spec_write(before.stores@, before.ptr_size, before.endianness, *address, value)
                } else {
                    hooks_written(
                        hooks,
                        before.stores@,
                        before.ptr_size,
                        before.endianness,
                        *address,
                        value,
                        0,
                    )
                },
                Err(GAError::WritingToStaticMemoryProhibited) => is_static
                    && final(state).memory.ram.stores@ == before.stores@,
                Err(GAError::MemoryError(MemoryError::InconsistentWidth)) => !is_static
                    && to_memory && !fits && final(state).memory.ram.stores@ == before.stores@,
                Err(_) => false,
            }
        }),
{
    proof {
        lemma_steps_start(*old(state));
    }
    if let Some(address_const) = address.get_constant() {
        if state.project.address_in_range(address_const) {
            return Err(GAError::WritingToStaticMemoryProhibited);
        }
    }
    let hooks: Vec<MemoryWriteHook> = match state.writer().write_memory(
        &mut state.memory,
        address,
        value.clone(),
    ) {
        ResultOrHook::Result(Ok(_)) => {
            return Ok(());
        },
        ResultOrHook::Result(Err(e)) => {
            return Err(GAError::MemoryError(e));
        },
        ResultOrHook::Hook(_) => {
            return Ok(());
        },
        ResultOrHook::Hooks(hooks) => hooks,
    };
    let fits: bool = address.len() == state.memory.word_size && (value.len() < 8 || value.len() % 8
        == 0);
    let mut has_store: bool = false;
    let mut i: usize = 0;
    while i < hooks.len()
        invariant
            0 <= i <= hooks@.len(),
            has_store == exists|j: int| 0 <= j < i && hooks@[j] == MemoryWriteHook::Store,
        decreases hooks@.len() - i,
    {
        match hooks[i] {
            MemoryWriteHook::Store => {
                has_store = true;
            },
            MemoryWriteHook::Discard => {},
        }
        i = i + 1;
    }
    if has_store && !fits {
        return Err(GAError::MemoryError(MemoryError::InconsistentWidth));
    }
    let ghost before = state.memory.ram;
    i = 0;
    while i < hooks.len()
        invariant
            0 <= i <= hooks@.len(),
            address.wf(),
            value.wf(),
            has_store == any_store(hooks@),
            has_store ==> fits,
            fits == crate::array_memory::access_ok(
                state.memory.word_size,
                *address,
                value.width() as u32,
            ),
            stays_inside(*old(state), *state),
            state.same_but_memory(*old(state)),
            state.memory.same_but_ram(old(state).memory),
            before.ptr_size == state.memory.ram.ptr_size,
            before.endianness == state.memory.ram.endianness,
            hooks_written(
                hooks@,
                state.memory.ram.stores@,
                before.ptr_size,
                before.endianness,
                *address,
                value,
                i as int,
            ) == hooks_written(
                hooks@,
                before.stores@,
                before.ptr_size,
                before.endianness,
                *address,
                value,
                0,
            ),
        decreases hooks@.len() - i,
    {
        match hooks[i] {
            MemoryWriteHook::Store => {
                assert(any_store(hooks@));
                let _ = state.memory.set(address, value.clone());
            },
            MemoryWriteHook::Discard => {},
        }
        i = i + 1;
    }
    Ok(())
}

/// What reading leaves of a memory: the program counter and what was
/// written stay; registers and flags keep what they recorded and may record
/// more.
pub open spec fn only_read(
    before: crate::memory::BoolectorMemory,
    after: crate::memory::BoolectorMemory,
) -> bool {
    &&& after.pc == before.pc
    &&& after.ram.stores@ == before.ram.stores@
    &&& crate::state::flags_kept(after.registers(), before.registers())
    &&& crate::state::flags_kept(after.flag_values(), before.flag_values())
}

/// The values local to an instruction are well-formed expressions.
pub open spec fn local_wf(local: NameTable<Expr>) -> bool {
    local.wf() && values_wf(local)
}

/// The failure of an instruction that is not put together as it should be.
pub fn malformed(what: &str) -> (r: GAError)
    ensures
        r matches GAError::ArchError(ArchError::ImplementorStringError(text)) && text@ == what@,
{
    GAError::ArchError(ArchError::ImplementorStringError(what.to_owned()))
}

/// The two states show the same to every reader: they agree in all that
/// they hold, the tables of the memory being known by their entries.
pub open spec fn same_views(a: GAState2, b: GAState2) -> bool {
    &&& b.same_but_memory(a)
    &&& b.memory.same_but_pc(a.memory)
    &&& b.memory.pc == a.memory.pc
}

/// The value of a register whose read changes nothing: one that has a value
/// and no read hook.
pub open spec fn register_settled(state: GAState2, name: Seq<char>) -> Option<Expr> {
    if !state.hooks.register_read_hook.entries().contains_key(name)
        && state.memory.registers().contains_key(name) {
        Some(state.memory.registers()[name])
    } else {
        None
    }
}

/// What a read hook of a register yields where its read changes nothing:
/// the program counter, or the value of the register that the hook names
/// where that has one, plus the offset of the hook; nothing where that value
/// is wider than the 64 bits of a constant.
pub open spec fn hooked_value(state: GAState2, hook: RegisterReadHook) -> Option<Expr> {
    match hook {
        RegisterReadHook::Offset { register: from, offset } => {
            let base = if from@ == "PC"@ {
                Some(Expr::spec_from_u64(state.memory.pc, state.memory.word_size))
            } else if state.memory.registers().contains_key(from@) {
                Some(state.memory.registers()[from@])
            } else {
                None
            };
            match base {
                Some(b) => if b.width() <= 64 {
                    Some(
                        Expr::spec_binary(
                            BinOp::Add,
                            b,
                            Expr::spec_from_u64(offset, b.width() as u32),
                        ),
                    )
                } else {
                    None
                },
                None => None,
            }
        },
    }
}

/// The value of an operand whose read changes nothing: a register that has
/// a value and no read hook, a register with a read hook (see
/// [`hooked_value`]), or the program counter; an immediate; a local
/// that was given a value; a flag that has a value, widened to a word; and
/// memory that can be read. There is none for any other operand.
pub open spec fn settled_value(state: GAState2, operand: Operand, local: NameTable<Expr>) -> Option<
    Expr,
> {
    match operand {
        Operand::Register(name) => if name@ == "PC"@ {
            Some(Expr::spec_from_u64(state.memory.pc, state.memory.word_size))
        } else if state.hooks.register_read_hook.entries().contains_key(name@) {
            hooked_value(state, state.hooks.register_read_hook.entries()[name@])
        } else {
            register_settled(state, name@)
        },
        Operand::Immediate(word) => Some(Expr::spec_from_u64(word.spec_value(), word.spec_bits())),
        Operand::Local(name) => if local.entries().contains_key(name@) {
            Some(local.entries()[name@])
        } else {
            None
        },
        Operand::Flag(name) => if state.memory.flag_values().contains_key(name@) {
            Some(state.memory.flag_values()[name@].spec_zero_ext(state.memory.word_size))
        } else {
            None
        },
        Operand::Address(word, width) => match spec_get_memory(
            state,
            Expr::spec_from_u64(word.spec_value(), state.memory.word_size),
            width,
        ) {
            Ok(e) => Some(e),
            Err(_) => None,
        },
        Operand::AddressInLocal(name, width) => if local.entries().contains_key(name@) {
            match spec_get_memory(state, local.entries()[name@], width) {
                Ok(e) => Some(e),
                Err(_) => None,
            }
        } else {
            None
        },
    }
}

/// States that show the same yield the same from the read hooks.
pub proof fn lemma_hooks_read_same(
    hooks: Seq<MemoryReadHook>,
    a: GAState2,
    b: GAState2,
    addr: Expr,
    bits: u32,
    from: int,
    so_far: Result<Expr, MemoryError>,
)
    requires
        same_views(a, b),
    ensures
        hooks_read(hooks, a, addr, bits, from, so_far) == hooks_read(
            hooks,
            b,
            addr,
            bits,
            from,
            so_far,
        ),
    decreases hooks.len() - from,
{
    if 0 <= from < hooks.len() {
        match hook_read(hooks[from], a, addr, bits) {
            Ok(e) => {
                lemma_hooks_read_same(hooks, a, b, addr, bits, from + 1, Ok(e));
            },
            Err(_) => {},
        }
    }
}

/// States that show the same have the same settled values.
pub proof fn lemma_settled_same(a: GAState2, b: GAState2, operand: Operand, local: NameTable<Expr>)
    requires
        same_views(a, b),
    ensures
        settled_value(a, operand, local) == settled_value(b, operand, local),
{
    match operand {
        Operand::Address(word, width) => {
            let addr = Expr::spec_from_u64(word.spec_value(), a.memory.word_size);
            lemma_hooks_read_same(
                read_hooks_for(a, addr),
                a,
                b,
                addr,
                width,
                0,
                Err(MemoryError::OutOfBounds),
            );
        },
        Operand::AddressInLocal(name, width) => {
            if local.entries().contains_key(name@) {
                let addr = local.entries()[name@];
                lemma_hooks_read_same(
                    read_hooks_for(a, addr),
                    a,
                    b,
                    addr,
                    width,
                    0,
                    Err(MemoryError::OutOfBounds),
                );
            }
        },
        _ => {},
    }
}

/// The value of an operand. Reading a register or a flag that has no value
/// yet records a fresh unconstrained one; nothing else changes. An
/// immediate is its constant; a local is the value it was given, and its
/// use before that fails; a flag is widened to a word; memory is read
/// through the hooks.
pub fn get_operand_value(state: &mut GAState2, operand: &Operand, local: &NameTable<Expr>) -> (r:
    Result<Expr, GAError>)
    requires
        old(state).wf(),
        local_wf(*local),
    ensures
        stays_inside(*old(state), *final(state)),
        final(state).same_but_memory(*old(state)),
        only_read(old(state).memory, final(state).memory),
        r matches Ok(e) ==> e.wf(),
        settled_value(*old(state), *operand, *local) matches Some(v) ==> r == Ok::<Expr, GAError>(
            v,
        ) && same_views(*old(state), *final(state)),
        match *operand {
            Operand::Immediate(_) => r is Ok,
            Operand::Local(name) => r is Ok == local.entries().contains_key(name@),
            Operand::Address(word, width) => r is Ok ==> settled_value(
                *old(state),
                *operand,
                *local,
            ) is Some,
            Operand::AddressInLocal(name, width) => r is Ok ==> settled_value(
                *old(state),
                *operand,
                *local,
            ) is Some,
            Operand::Flag(name) => r matches Ok(e)
                && final(state).memory.flag_values().contains_key(
                name@,
            ) && e == final(state).memory.flag_values()[name@].spec_zero_ext(
                old(state).memory.word_size,
            ),
            Operand::Register(name) => crate::state::register_read(
                *old(state),
                *final(state),
                name@,
                r,
            ),
        },
{
    proof {
        lemma_steps_start(*old(state));
    }
    match operand {
        Operand::Register(name) => {
            let r = state.get_register(name.clone());
            proof {
                if settled_value(*old(state), *operand, *local) is Some {
                    assert(state.memory.registers() =~= old(state).memory.registers());
                }
            }
            r
        },
        Operand::Immediate(word) => Ok(Expr::from_u64(word.value(), word.bits())),
        Operand::Local(name) => match local.get(name.as_str()) {
            Some(value) => Ok(value.clone()),
            None => Err(malformed("local value used before it was set")),
        },
        Operand::Flag(name) => match state.get_flag(name.clone()) {
            Ok(flag) => {
                proof {
                    if settled_value(*old(state), *operand, *local) is Some {
                        assert(state.memory.flag_values() =~= old(state).memory.flag_values());
                    }
                }
                Ok(flag.zero_ext(state.memory.word_size))
            },
            Err(e) => Err(e),
        },
        Operand::Address(word, width) => {
            let address: Expr = Expr::from_u64(word.value(), state.memory.word_size);
            get_memory(state, &address, *width)
        },
        Operand::AddressInLocal(name, width) => match local.get(name.as_str()) {
            Some(address) => get_memory(state, address, *width),
            None => Err(malformed("local address used before it was set")),
        },
    }
}

/// `longer` holds every path of `shorter`, in place, and well-formed paths
/// beyond them.
pub open spec fn paths_grow(shorter: DFSPathSelection, longer: DFSPathSelection) -> bool {
    extends(longer.paths@, shorter.paths@) && (shorter.wf() ==> longer.wf())
}

/// Where a sibling of the path under execution goes on: at the operation
/// `index` of the instruction under execution with the local values so far,
/// and with the next fetch where no instruction is under execution.
pub fn cursor_at<'a>(state: &GAState2<'a>, index: usize, local: &NameTable<Expr>) -> (r: Option<
    ContinueInsideInstruction2,
>)
    requires
        local_wf(*local),
    ensures
        match (state.current_instruction, r) {
            (Some(instruction), Some(cursor)) => instruction.alike(cursor.instruction)
                && cursor.index == index && cursor.local.entries() == local.entries()
                && local_wf(cursor.local),
            (None, None) => true,
            _ => false,
        },
{
    match &state.current_instruction {
        Some(instruction) => Some(
            ContinueInsideInstruction2 {
                instruction: instruction.clone(),
                index,
                local: copy_table(local),
            },
        ),
        None => None,
    }
}

/// How a path goes on at an open guard.
#[derive(Debug, PartialEq, Eq)]
pub enum Fork {
    /// The guard can hold and can fail: the path takes it, and a sibling
    /// that does not is saved.
    Split,
    /// The guard can only hold.
    Take,
    /// The guard can only fail.
    Skip,
}

/// What follows from whether a guard can hold and whether it can fail on a
/// path: where it can do neither, the condition of the path cannot hold.
pub open spec fn spec_fork_decision(can_hold: bool, can_fail: bool) -> Result<Fork, PathResult> {
    if can_hold && can_fail {
        Ok(Fork::Split)
    } else if can_hold {
        Ok(Fork::Take)
    } else if can_fail {
        Ok(Fork::Skip)
    } else {
        Err(PathResult::AssumptionUnsat)
    }
}

/// What follows from whether a guard can hold and whether it can fail.
pub fn fork_decision(can_hold: bool, can_fail: bool) -> (r: Result<Fork, PathResult>)
    ensures
        r == spec_fork_decision(can_hold, can_fail),
{
    if can_hold && can_fail {
        Ok(Fork::Split)
    } else if can_hold {
        Ok(Fork::Take)
    } else if can_fail {
        Ok(Fork::Skip)
    } else {
        Err(PathResult::AssumptionUnsat)
    }
}

/// The state of a sibling that a path saves: a copy of the state of the
/// path, `parent`, that goes on at the operation `index` of the
/// instruction under execution with the local values, and with the next
/// fetch where no instruction is under execution.
pub open spec fn sibling_of(
    sibling: GAState2,
    parent: GAState2,
    index: usize,
    local: NameTable<Expr>,
) -> bool {
    &&& parent.alike(
        GAState2 { continue_in_instruction: parent.continue_in_instruction, ..sibling },
    )
    &&& match (parent.current_instruction, sibling.continue_in_instruction) {
        (Some(instruction), Some(cursor)) => instruction.alike(cursor.instruction) && cursor.index
            == index && cursor.local.entries() == local.entries(),
        (None, None) => true,
        _ => false,
    }
}

/// The path ended as a failure of the solver.
pub open spec fn solver_failed<T>(r: Result<T, PathResult>) -> bool {
    r matches Err(PathResult::Failure(text)) && text@ == "Solver error."@
}

/// What an open guard does to a path on which it can hold, or not, and can
/// fail, or not. Where both can be, the guard joins the path condition, the
/// path goes on as taken, and one sibling is saved on top of the waiting
/// paths: a copy of the state as [`sibling_of`] says, with the negated
/// guard waiting. Where one can be, the path goes on that way, and where
/// none can be, it ends as `AssumptionUnsat`; nothing changes then.
pub open spec fn forked(
    before: GAState2,
    after: GAState2,
    waiting: Seq<Path>,
    waiting_after: Seq<Path>,
    guard: Expr,
    index: usize,
    local: NameTable<Expr>,
    can_hold: bool,
    can_fail: bool,
    r: Result<bool, PathResult>,
) -> bool {
    match spec_fork_decision(can_hold, can_fail) {
        Ok(Fork::Split) => {
            &&& r == Ok::<bool, PathResult>(true)
            &&& after.constraints@ == before.constraints@.push(guard)
            &&& waiting_after.len() == waiting.len() + 1
            &&& waiting_after.drop_last() == waiting
            &&& waiting_after.last().constraints@ == seq![guard.spec_not()]
            &&& sibling_of(waiting_after.last().state, before, index, local)
        },
        Ok(Fork::Take) => r == Ok::<bool, PathResult>(true) && after.constraints@
            == before.constraints@ && waiting_after == waiting,
        Ok(Fork::Skip) => r == Ok::<bool, PathResult>(false) && after.constraints@
            == before.constraints@ && waiting_after == waiting,
        Err(end) => r == Err::<bool, PathResult>(end) && after.constraints@ == before.constraints@
            && waiting_after == waiting,
    }
}

/// Goes on at an open guard of which the solver has said whether it can
/// hold and whether it can fail on this path: see [`forked`].
pub fn fork<'a>(
    state: &mut GAState2<'a>,
    paths: &mut DFSPathSelection<'a>,
    guard: &Expr,
    index: usize,
    local: &NameTable<Expr>,
    can_hold: bool,
    can_fail: bool,
) -> (r: Result<bool, PathResult>)
    requires
        old(state).wf(),
        guard.wf(),
        guard.width() == 1,
        local_wf(*local),
    ensures
        stays_inside(*old(state), *final(state)),
        final(state).memory == old(state).memory,
        final(state).has_jumped == old(state).has_jumped,
        final(state).pc_written == old(state).pc_written,
        final(state).instruction_conditions@ == old(state).instruction_conditions@,
        paths_grow(*old(paths), *final(paths)),
        forked(
            *old(state),
            *final(state),
            old(paths).paths@,
            final(paths).paths@,
            *guard,
            index,
            *local,
            can_hold,
            can_fail,
            r,
        ),
{
    proof {
        lemma_steps_start(*old(state));
        lemma_extends_self(old(paths).paths@);
    }
    match fork_decision(can_hold, can_fail) {
        Ok(Fork::Split) => {
            let negated: Expr = guard.not();
            let mut sibling: GAState2<'a> = state.clone();
            sibling.continue_in_instruction = cursor_at(state, index, local);
            let path: Path<'a> = Path::new(sibling, Some(negated));
            assert(path.wf());
            paths.save_path(path);
            state.constraints.push(guard.clone());
            proof {
                assert(final(paths).paths@.take(old(paths).paths@.len() as int) =~= old(
                    paths,
                ).paths@);
                assert(final(paths).paths@.drop_last() =~= old(paths).paths@);
                assert(state.constraints@.take(old(state).constraints@.len() as int) =~= old(
                    state,
                ).constraints@);
            }
            Ok(true)
        },
        Ok(Fork::Take) => Ok(true),
        Ok(Fork::Skip) => Ok(false),
        Err(end) => Err(end),
    }
}

/// Decides a guard. A constant guard decides itself. For an open guard the
/// solver is asked whether it can hold and whether it can fail on this
/// path, and the path goes on as [`forked`] says for the two answers. Where
/// the solver fails, the path ends as a failure and nothing changes.
pub fn branch<'a, S: SmtSolver>(
    state: &mut GAState2<'a>,
    paths: &mut DFSPathSelection<'a>,
    solver: &mut S,
    guard: &Expr,
    index: usize,
    local: &NameTable<Expr>,
) -> (r: Result<bool, PathResult>)
    requires
        old(state).wf(),
        guard.wf(),
        guard.width() == 1,
        local_wf(*local),
    ensures
        stays_inside(*old(state), *final(state)),
        final(state).memory == old(state).memory,
        final(state).has_jumped == old(state).has_jumped,
        final(state).pc_written == old(state).pc_written,
        final(state).instruction_conditions@ == old(state).instruction_conditions@,
        paths_grow(*old(paths), *final(paths)),
        guard.spec_get_constant() matches Some(value) ==> r == Ok::<bool, PathResult>(value == 1)
            && final(state).constraints@ == old(state).constraints@ && final(paths).paths@
                == old(paths).paths@,
        guard.spec_get_constant() is None ==> (solver_failed(r) && final(state).constraints@
            == old(state).constraints@ && final(paths).paths@ == old(paths).paths@) || (exists|
            can_hold: bool,
            can_fail: bool,
        | #[trigger]
            forked(
                *old(state),
                *final(state),
                old(paths).paths@,
                final(paths).paths@,
                *guard,
                index,
                *local,
                can_hold,
                can_fail,
                r,
            )),
        match r {
            Ok(taken) => {
                ||| (final(state).constraints@ == old(state).constraints@ && final(paths).paths@
                    == old(paths).paths@)
                ||| (taken && final(state).constraints@ == old(state).constraints@.push(*guard)
                    && final(paths).paths@.len() == old(paths).paths@.len() + 1
                        && final(paths).paths@.last().constraints@ == seq![guard.spec_not()]
                        && final(paths).paths@.last().state.constraints@ == old(state).constraints@)
            },
            Err(end) => (end is AssumptionUnsat || end is Failure) && final(state).constraints@
                == old(state).constraints@ && final(paths).paths@ == old(paths).paths@,
        },
{
    proof {
        lemma_steps_start(*old(state));
        lemma_extends_self(old(paths).paths@);
    }
    if let Some(value) = guard.get_constant() {
        return Ok(value == 1);
    }
    let negated: Expr = guard.not();
    let can_hold: bool = match solver.is_sat_with_constraint(&state.constraints, guard) {
        Ok(answer) => answer,
        Err(e) => {
            return Err(failure(&GAError::SolverError(e)));
        },
    };
    let can_fail: bool = match solver.is_sat_with_constraint(&state.constraints, &negated) {
        Ok(answer) => answer,
        Err(e) => {
            return Err(failure(&GAError::SolverError(e)));
        },
    };
    fork(state, paths, guard, index, local, can_hold, can_fail)
}

/// The end of a path whose program counter has more values than are
/// resolved.
pub fn unresolved() -> (r: PathResult)
    ensures
        r matches PathResult::Failure(text) && text@ == "symbolic branch unresolved"@,
{
    PathResult::Failure("symbolic branch unresolved".to_owned())
}

/// Every one of the values is a well-formed constant of `width` bits.
pub open spec fn targets_ok(values: Seq<Expr>, width: nat) -> bool {
    forall|j: int|
        0 <= j < values.len() ==> (#[trigger] values[j]) is Const && values[j].wf()
            && values[j].width() == width
}

/// The state of a sibling that a path saves for another value of its
/// program counter: a copy of the state of the path as [`sibling_of`] says,
/// but that its program counter is `target`, written by the instruction
/// under execution, and that its condition has taken in that `value` is
/// `target`.
pub open spec fn pc_sibling(
    sibling: GAState2,
    parent: GAState2,
    index: usize,
    local: NameTable<Expr>,
    value: Expr,
    target: Expr,
) -> bool {
    &&& sibling_of(
        GAState2 {
            constraints: parent.constraints,
            pc_written: parent.pc_written,
            memory: BoolectorMemory { pc: parent.memory.pc, ..sibling.memory },
            ..sibling
        },
        parent,
        index,
        local,
    )
    &&& sibling.constraints@ == parent.constraints@.push(value.spec_eq(target))
    &&& target is Const
    &&& sibling.memory.pc == target->value
    &&& sibling.pc_written
}

/// Nothing of what the resolution of a program counter touches has
/// changed.
pub open spec fn pc_kept(
    before: GAState2,
    after: GAState2,
    waiting: Seq<Path>,
    waiting_after: Seq<Path>,
) -> bool {
    &&& after.constraints@ == before.constraints@
    &&& after.memory.pc == before.memory.pc
    &&& after.pc_written == before.pc_written
    &&& waiting_after == waiting
}

/// What the values that the solver gave for an open program counter do to
/// a path, where at most `limit` values are resolved.
///
/// Where the solver gave all values, at least one and at most `limit`, each
/// a constant as wide as `value`: the path goes on at the first, with its
/// condition grown by `value` being that one, and for each other value, in
/// their order, a sibling as [`pc_sibling`] says is saved on top of the
/// waiting paths. Where there is no value, the path ends as
/// `AssumptionUnsat`. Where there are more than `limit`, or more than the
/// solver gave, it fails as unresolved, and where a value is no such
/// constant, as an error of the solver. Nothing changes where the path
/// ends.
pub open spec fn pc_resolved(
    before: GAState2,
    after: GAState2,
    waiting: Seq<Path>,
    waiting_after: Seq<Path>,
    limit: usize,
    value: Expr,
    index: usize,
    local: NameTable<Expr>,
    solutions: Solutions,
    r: Result<(), PathResult>,
) -> bool {
    match solutions {
        Solutions::AtLeast(_) => pc_kept(before, after, waiting, waiting_after) && (
        r matches Err(PathResult::Failure(text)) && text@ == "symbolic branch unresolved"@),
        Solutions::Exactly(values) => if values@.len() == 0 {
            pc_kept(before, after, waiting, waiting_after) && r == Err::<(), PathResult>(
                PathResult::AssumptionUnsat,
            )
        } else if values@.len() > limit {
            pc_kept(before, after, waiting, waiting_after) && (r matches Err(
                PathResult::Failure(text),
            ) && text@ == "symbolic branch unresolved"@)
        } else if !targets_ok(values@, value.width()) {
            pc_kept(before, after, waiting, waiting_after) && solver_failed(r)
        } else {
            &&& r is Ok
            &&& after.pc_written
            &&& after.memory.pc == values@[0]->value
            &&& after.constraints@ == before.constraints@.push(value.spec_eq(values@[0]))
            &&& waiting_after.len() == waiting.len() + values@.len() - 1
            &&& waiting_after.take(waiting.len() as int) == waiting
            &&& forall|i: int|
                1 <= i < values@.len() ==> (#[trigger] waiting_after[waiting.len() + i
                    - 1]).constraints@.len() == 0 && pc_sibling(
                    waiting_after[waiting.len() + i - 1].state,
                    before,
                    index,
                    local,
                    value,
                    values@[i],
                )
        },
    }
}

/// Goes on at an open program counter for which the solver has given
/// `solutions`: see [`pc_resolved`].
#[verifier::loop_isolation(false)]
pub fn resolve_pc<'a>(
    state: &mut GAState2<'a>,
    paths: &mut DFSPathSelection<'a>,
    config: &Config,
    value: &Expr,
    index: usize,
    local: &NameTable<Expr>,
    solutions: Solutions,
) -> (r: Result<(), PathResult>)
    requires
        old(state).wf(),
        value.wf(),
        local_wf(*local),
    ensures
        stays_inside(*old(state), *final(state)),
        final(state).memory.same_but_pc(old(state).memory),
        final(state).has_jumped == old(state).has_jumped,
        final(state).instruction_conditions@ == old(state).instruction_conditions@,
        paths_grow(*old(paths), *final(paths)),
        pc_resolved(
            *old(state),
            *final(state),
            old(paths).paths@,
            final(paths).paths@,
            config.max_pc_resolutions,
            *value,
            index,
            *local,
            solutions,
            r,
        ),
{
    proof {
        lemma_steps_start(*old(state));
        lemma_extends_self(old(paths).paths@);
    }
    let width: u32 = value.len();
    let values: Vec<Expr> = match solutions {
        Solutions::Exactly(values) => values,
        Solutions::AtLeast(_) => {
            return Err(unresolved());
        },
    };
    if values.len() == 0 {
        return Err(PathResult::AssumptionUnsat);
    }
    if values.len() > config.max_pc_resolutions {
        return Err(unresolved());
    }
    // Nothing is assumed of what the solver gave: every value must be a
    // constant as wide as the expression.
    let mut checked: usize = 0;
    while checked < values.len()
        invariant
            0 <= checked <= values@.len(),
            forall|j: int|
                0 <= j < checked ==> (#[trigger] values@[j]) is Const && values@[j].wf()
                    && values@[j].width() == width,
        decreases values@.len() - checked,
    {
        let candidate: &Expr = &values[checked];
        let fits: bool = match candidate {
            Expr::Const { value: v, width: w } => *w == width && *w >= 1 && *w <= 64 && *v
                <= crate::expr::mask_of(*w),
            _ => false,
        };
        if !fits {
            proof {
                assert(!(values@[checked as int] is Const && values@[checked as int].wf()
                    && values@[checked as int].width() == width));
                assert(!targets_ok(values@, value.width()));
            }
            return Err(failure(&GAError::SolverError(SolverError::Translation)));
        }
        checked = checked + 1;
    }
    assert(targets_ok(values@, value.width()));
    let mut i: usize = 1;
    while i < values.len()
        invariant
            1 <= i <= values@.len(),
            values@.len() <= config.max_pc_resolutions,
            *state == *old(state),
            state.wf(),
            value.wf(),
            value.width() == width,
            local_wf(*local),
            targets_ok(values@, value.width()),
            paths_grow(*old(paths), *paths),
            paths.paths@.len() == old(paths).paths@.len() + i - 1,
            forall|j: int|
                1 <= j < i ==> (#[trigger] paths.paths@[old(paths).paths@.len() + j
                    - 1]).constraints@.len() == 0 && pc_sibling(
                    paths.paths@[old(paths).paths@.len() + j - 1].state,
                    *old(state),
                    index,
                    *local,
                    *value,
                    values@[j],
                ),
        decreases values@.len() - i,
    {
        let target: u64 = match values[i].get_constant() {
            Some(target) => target,
            None => 0,
        };
        let mut sibling: GAState2<'a> = state.clone();
        sibling.constraints.push(value.eq(&values[i]));
        let _ = sibling.memory.set_pc(target);
        sibling.pc_written = true;
        sibling.continue_in_instruction = cursor_at(state, index, local);
        let path: Path<'a> = Path::new(sibling, None);
        assert(path.wf());
        assert(pc_sibling(path.state, *old(state), index, *local, *value, values@[i as int]));
        let ghost before = paths.paths@;
        paths.save_path(path);
        proof {
            assert(paths.paths@.take(before.len() as int) =~= before);
            lemma_extends_chain(paths.paths@, before, old(paths).paths@);
            assert forall|j: int| 1 <= j < i + 1 implies (#[trigger] paths.paths@[old(
                paths,
            ).paths@.len() + j - 1]).constraints@.len() == 0 && pc_sibling(
                paths.paths@[old(paths).paths@.len() + j - 1].state,
                *old(state),
                index,
                *local,
                *value,
                values@[j],
            ) by {
                if j < i {
                    assert(paths.paths@[old(paths).paths@.len() + j - 1] == before[old(
                        paths,
                    ).paths@.len() + j - 1]);
                }
            }
        }
        i = i + 1;
    }
    let first: u64 = match values[0].get_constant() {
        Some(first) => first,
        None => 0,
    };
    state.constraints.push(value.eq(&values[0]));
    let _ = state.memory.set_pc(first);
    state.pc_written = true;
    proof {
        assert(state.constraints@.take(old(state).constraints@.len() as int) =~= old(
            state,
        ).constraints@);
        assert(values@[0] == Expr::Const { value: first, width });
    }
    Ok(())
}

/// Gives the program counter the value of `value`. A constant is taken as
/// it is. For anything else the solver is asked for the values that it can
/// take on this path, up to the limit of the configuration, and the path
/// goes on as [`pc_resolved`] says for its answer. Where the solver fails,
/// the path ends as a failure and nothing changes.
pub fn write_pc<'a, S: SmtSolver>(
    state: &mut GAState2<'a>,
    paths: &mut DFSPathSelection<'a>,
    solver: &mut S,
    config: &Config,
    value: Expr,
    index: usize,
    local: &NameTable<Expr>,
) -> (r: Result<(), PathResult>)
    requires
        old(state).wf(),
        value.wf(),
        local_wf(*local),
    ensures
        stays_inside(*old(state), *final(state)),
        final(state).memory.same_but_pc(old(state).memory),
        final(state).has_jumped == old(state).has_jumped,
        final(state).instruction_conditions@ == old(state).instruction_conditions@,
        old(state).pc_written ==> final(state).pc_written,
        paths_grow(*old(paths), *final(paths)),
        value.spec_get_constant() is None ==> (solver_failed(r) && pc_kept(
            *old(state),
            *final(state),
            old(paths).paths@,
            final(paths).paths@,
        )) || (exists|solutions: Solutions| #[trigger]
            pc_resolved(
                *old(state),
                *final(state),
                old(paths).paths@,
                final(paths).paths@,
                config.max_pc_resolutions,
                value,
                index,
                *local,
                solutions,
                r,
            )),
        match r {
            Ok(_) => final(state).pc_written && (match value.spec_get_constant() {
                Some(pc) => final(state).memory.pc == pc && final(state).constraints@
                    == old(state).constraints@ && final(paths).paths@ == old(paths).paths@,
                None => final(state).constraints@ == old(state).constraints@.push(
                    value.spec_eq(
                        Expr::Const {
                            value: final(state).memory.pc,
                            width: value.width() as u32,
                        },
                    ),
                ) && final(paths).paths@.len() - old(paths).paths@.len()
                    < config.max_pc_resolutions,
            }),
            Err(end) => (end is AssumptionUnsat || end is Failure) && value.spec_get_constant()
                is None && final(state).constraints@ == old(state).constraints@
                    && final(state).memory.pc == old(state).memory.pc && final(paths).paths@
                    == old(paths).paths@,
        },
{
    proof {
        lemma_steps_start(*old(state));
        lemma_extends_self(old(paths).paths@);
    }
    if let Some(pc) = value.get_constant() {
        let _ = state.memory.set_pc(pc);
        state.pc_written = true;
        return Ok(());
    }
    let solutions: Solutions = match solver.get_values(
        &state.constraints,
        &value,
        config.max_pc_resolutions,
    ) {
        Ok(solutions) => solutions,
        Err(e) => {
            return Err(failure(&GAError::SolverError(e)));
        },
    };
    let ghost given = solutions;
    let r = resolve_pc(state, paths, config, &value, index, local, solutions);
    proof {
        if let Solutions::Exactly(values) = given {
            if r is Ok {
                assert(values@[0] is Const);
                assert(values@[0].width() == value.width());
                assert(values@[0] == Expr::Const {
                    value: state.memory.pc,
                    width: value.width() as u32,
                });
            }
        }
    }
    r
}

/// What a write of `value` at `address` that succeeds leaves of the state:
/// memory after the write, or after the write hooks took it, and all else
/// as it was.
pub open spec fn memory_written(
    before: GAState2,
    after: GAState2,
    address: Expr,
    value: Expr,
) -> bool {
    let hooks = write_hooks_for(before, address);
    let ram = before.memory.ram;
    &&& after.same_but_memory(before)
    &&& after.memory.same_but_ram(before.memory)
    &&& after.memory.ram.stores@ == if hooks.len() == 0 {
        spec_write(ram.stores@, ram.ptr_size, ram.endianness, address, value)
    } else {
        hooks_written(hooks, ram.stores@, ram.ptr_size, ram.endianness, address, value, 0)
    }
}

/// Whether memory takes a write of `value` at `address`: the address is no
/// constant inside the program image, and the widths fit where the write
/// goes to memory.
pub open spec fn memory_takes(before: GAState2, address: Expr, value: Expr) -> bool {
    let hooks = write_hooks_for(before, address);
    &&& !(address is Const && before.project.in_range(address->value))
    &&& hooks.len() == 0 || any_store(hooks) ==> crate::array_memory::access_ok(
        before.memory.word_size,
        address,
        value.width() as u32,
    )
}

/// Whether a write to the operand goes to the program counter.
pub open spec fn targets_pc(state: GAState2, destination: Operand) -> bool {
    destination matches Operand::Register(name) && crate::state::write_target(*state.hooks, name@)
        == "PC"@
}

/// Whether a write of `value` to the operand succeeds, for an operand that
/// is not the program counter: a local, a flag and a register take
/// everything, an immediate nothing, and memory what [`memory_takes`] says.
pub open spec fn takes(
    before: GAState2,
    local: NameTable<Expr>,
    destination: Operand,
    value: Expr,
) -> bool {
    match destination {
        Operand::Local(_) | Operand::Flag(_) | Operand::Register(_) => true,
        Operand::Immediate(_) => false,
        Operand::Address(word, _) => memory_takes(
            before,
            Expr::spec_from_u64(word.spec_value(), before.memory.word_size),
            value,
        ),
        Operand::AddressInLocal(name, _) => local.entries().contains_key(name@) && memory_takes(
            before,
            local.entries()[name@],
            value,
        ),
    }
}

/// What a write of `value` to the operand that succeeds leaves of the state
/// and of the local values: a local has the value; a flag has its lowest
/// bit; a register, or the one that its write hook names, has the value;
/// the program counter has the value of a constant, and is marked as
/// written; memory is as [`memory_written`] says. All else is as it was,
/// but for what resolving a symbolic program counter adds to the path
/// condition.
pub open spec fn written(
    before: GAState2,
    after: GAState2,
    local_before: NameTable<Expr>,
    local_after: NameTable<Expr>,
    destination: Operand,
    value: Expr,
) -> bool {
    match destination {
        Operand::Local(name) => local_after.entries() == local_before.entries().insert(
            name@,
            value,
        ) && same_views(before, after),
        Operand::Immediate(_) => false,
        Operand::Flag(name) => local_after.entries() == local_before.entries()
            && after.same_but_memory(before) && after.memory.same_but_flags(before.memory)
            && after.memory.flag_values() == before.memory.flag_values().insert(
            name@,
            value.spec_slice(0, 0),
        ),
        Operand::Register(name) => local_after.entries() == local_before.entries() && (
        if crate::state::write_target(*before.hooks, name@) == "PC"@ {
            after.pc_written && after.memory.same_but_pc(before.memory) && (
            value.spec_get_constant() matches Some(pc) ==> after.memory.pc == pc
                && after.same_but_memory(GAState2 { pc_written: true, ..before }))
        } else {
            after.same_but_memory(before) && crate::state::register_written(
                before.memory,
                after.memory,
                crate::state::write_target(*before.hooks, name@),
                value,
            )
        }),
        Operand::Address(word, _) => local_after.entries() == local_before.entries()
            && memory_written(
            before,
            after,
            Expr::spec_from_u64(word.spec_value(), before.memory.word_size),
            value,
        ),
        Operand::AddressInLocal(name, _) => local_after.entries() == local_before.entries()
            && local_before.entries().contains_key(name@) && memory_written(
            before,
            after,
            local_before.entries()[name@],
            value,
        ),
    }
}

/// The outcome of a write of `value` to the operand: where it succeeds, the
/// value is written as [`written`] says; it succeeds where the operand takes
/// the value, and for the program counter whenever the value is a constant.
pub open spec fn writes(
    before: GAState2,
    after: GAState2,
    local_before: NameTable<Expr>,
    local_after: NameTable<Expr>,
    destination: Operand,
    value: Expr,
    ok: bool,
) -> bool {
    &&& ok ==> written(before, after, local_before, local_after, destination, value)
    &&& !targets_pc(before, destination) ==> ok == takes(before, local_before, destination, value)
    &&& targets_pc(before, destination) && value is Const ==> ok
}

/// The outcome of a write from a state is the outcome from every state that
/// shows the same.
pub proof fn lemma_writes_same(
    a: GAState2,
    b: GAState2,
    after: GAState2,
    local_before: NameTable<Expr>,
    local_after: NameTable<Expr>,
    destination: Operand,
    value: Expr,
    ok: bool,
)
    requires
        same_views(a, b),
        writes(b, after, local_before, local_after, destination, value, ok),
    ensures
        writes(a, after, local_before, local_after, destination, value, ok),
{
}

/// The flag `name` has the value `value`, and all else is as it was.
pub open spec fn flag_set(before: GAState2, after: GAState2, name: Seq<char>, value: Expr) -> bool {
    &&& after.same_but_memory(before)
    &&& after.memory.same_but_flags(before.memory)
    &&& after.memory.flag_values() == before.memory.flag_values().insert(name, value)
}

/// Gives an operand the value `value`. A register takes it through its
/// write hook; where that is the program counter, see [`write_pc`]. A local
/// takes it as it is, a flag takes its lowest bit, and memory takes it
/// through the hooks. An immediate takes nothing: the path fails.
pub fn set_operand_value<'a, S: SmtSolver>(
    state: &mut GAState2<'a>,
    paths: &mut DFSPathSelection<'a>,
    solver: &mut S,
    config: &Config,
    operand: &Operand,
    value: Expr,
    local: &mut NameTable<Expr>,
    index: usize,
) -> (r: Result<(), PathResult>)
    requires
        old(state).wf(),
        value.wf(),
        local_wf(*old(local)),
    ensures
        stays_inside(*old(state), *final(state)),
        local_wf(*final(local)),
        final(state).has_jumped == old(state).has_jumped,
        final(state).instruction_conditions@ == old(state).instruction_conditions@,
        old(state).pc_written ==> final(state).pc_written,
        !final(state).pc_written ==> final(state).memory.pc == old(state).memory.pc,
        paths_grow(*old(paths), *final(paths)),
        r matches Err(end) ==> end is AssumptionUnsat || end is Failure,
        writes(
            *old(state),
            *final(state),
            *old(local),
            *final(local),
            *operand,
            value,
            r is Ok,
        ),
        r is Err ==> final(local).entries() == old(local).entries(),
        !targets_pc(*old(state), *operand) ==> (r is Ok) == takes(
            *old(state),
            *old(local),
            *operand,
            value,
        ) && final(paths).paths@ == old(paths).paths@ && final(state).constraints@
            == old(state).constraints@ && final(state).pc_written == old(state).pc_written
            && (r is Err
            ==> same_views(*old(state), *final(state))),
        targets_pc(*old(state), *operand) && value is Const ==> r is Ok && final(paths).paths@
            == old(paths).paths@,
{
    proof {
        lemma_steps_start(*old(state));
        lemma_extends_self(old(paths).paths@);
    }
    match operand {
        Operand::Register(name) => {
            let target: String = state.register_target(name.as_str());
            if crate::text::same_text(target.as_str(), "PC") {
                write_pc(state, paths, solver, config, value, index, local)
            } else {
                match state.set_register(name.clone(), value) {
                    Ok(_) => Ok(()),
                    Err(e) => Err(failure(&e)),
                }
            }
        },
        Operand::Immediate(_) => Err(failure(&malformed("an immediate is no destination"))),
        Operand::Local(name) => {
            local.insert(name.clone(), value);
            Ok(())
        },
        Operand::Flag(name) => {
            proof {
                value.lemma_width_bounds();
            }
            let bit: Expr = value.slice(0, 0);
            let _ = state.set_flag(name.clone(), bit);
            Ok(())
        },
        Operand::Address(word, _width) => {
            let address: Expr = Expr::from_u64(word.value(), state.memory.word_size);
            match set_memory(state, &address, value) {
                Ok(_) => Ok(()),
                Err(e) => Err(failure(&e)),
            }
        },
        Operand::AddressInLocal(name, _width) => {
            let address: Expr = match local.get(name.as_str()) {
                Some(address) => address.clone(),
                None => {
                    return Err(failure(&malformed("local address used before it was set")));
                },
            };
            match set_memory(state, &address, value) {
                Ok(_) => Ok(()),
                Err(e) => Err(failure(&e)),
            }
        },
    }
}

/// The highest bit of an expression.
pub open spec fn spec_top_bit(e: Expr) -> Expr {
    e.spec_slice((e.width() - 1) as u32, (e.width() - 1) as u32)
}

/// The highest bit of an expression.
pub fn top_bit_of(e: &Expr) -> (r: Expr)
    requires
        e.wf(),
    ensures
        r == spec_top_bit(*e),
        r.wf(),
        r.width() == 1,
{
    let width: u32 = e.len();
    e.slice(width - 1, width - 1)
}

/// The constant zero of any width.
pub open spec fn spec_zero(width: u32) -> Expr {
    Expr::spec_from_u64(0, 1).spec_zero_ext(width)
}

/// One bit that says whether the expression is zero.
pub open spec fn spec_is_zero(e: Expr) -> Expr {
    e.spec_eq(spec_zero(e.width() as u32))
}

/// One bit that says whether the expression is zero.
pub fn is_zero(e: &Expr) -> (r: Expr)
    requires
        e.wf(),
    ensures
        r == spec_is_zero(*e),
        r.wf(),
        r.width() == 1,
{
    let zero: Expr = Expr::from_u64(0, 1).zero_ext(e.len());
    e.eq(&zero)
}

/// The sum of two expressions and a carry, all of one width.
pub open spec fn spec_sum(a: Expr, b: Expr, carry_in: Expr) -> Expr {
    Expr::spec_binary(BinOp::Add, Expr::spec_binary(BinOp::Add, a, b), carry_in)
}

/// The carry out of the sum `result` of `a`, `b` and a carry of 0 or 1: the
/// top bit of `(a & b) | ((a | b) & !result)`.
pub open spec fn spec_carry_out(a: Expr, b: Expr, result: Expr) -> Expr {
    spec_top_bit(
        Expr::spec_binary(
            BinOp::Or,
            Expr::spec_binary(BinOp::And, a, b),
            Expr::spec_binary(BinOp::And, Expr::spec_binary(BinOp::Or, a, b), result.spec_not()),
        ),
    )
}

/// The signed overflow of the sum `result` of `a`, `b` and a carry of 0 or
/// 1: the top bit of `(a ^ result) & (b ^ result)`.
pub open spec fn spec_overflow(a: Expr, b: Expr, result: Expr) -> Expr {
    spec_top_bit(
        Expr::spec_binary(
            BinOp::And,
            Expr::spec_binary(BinOp::Xor, a, result),
            Expr::spec_binary(BinOp::Xor, b, result),
        ),
    )
}

/// Sum, carry out and signed overflow of `a + b + carry_in`.
pub fn full_add(a: &Expr, b: &Expr, carry_in: &Expr) -> (r: (Expr, Expr, Expr))
    requires
        a.wf(),
        b.wf(),
        carry_in.wf(),
        a.width() == b.width(),
        a.width() == carry_in.width(),
    ensures
        r.0 == spec_sum(*a, *b, *carry_in),
        r.1 == spec_carry_out(*a, *b, r.0),
        r.2 == spec_overflow(*a, *b, r.0),
        r.0.wf(),
        r.0.width() == a.width(),
        r.1.wf(),
        r.1.width() == 1,
        r.2.wf(),
        r.2.width() == 1,
{
    let result: Expr = a.add(b).add(carry_in);
    let carry: Expr = top_bit_of(&a.and(b).or(&a.or(b).and(&result.not())));
    let overflow: Expr = top_bit_of(&a.xor(&result).and(&b.xor(&result)));
    (result, carry, overflow)
}

/// `op` on two values. Fails with `InconsistentWidth` where they are not
/// equally wide.
pub fn combine(op: BinOp, a: &Expr, b: &Expr) -> (r: Result<Expr, GAError>)
    requires
        a.wf(),
        b.wf(),
    ensures
        match r {
            Ok(e) => a.width() == b.width() && e == Expr::spec_binary(op, *a, *b) && e.wf()
                && e.width() == a.width(),
            Err(e) => a.width() != b.width() && e == GAError::MemoryError(
                MemoryError::InconsistentWidth,
            ),
        },
{
    if a.len() != b.len() {
        return Err(GAError::MemoryError(MemoryError::InconsistentWidth));
    }
    Ok(Expr::binary(op, a, b))
}

/// The two operands of a sum or difference as they are added: the second
/// is complemented for a difference; and the carry that comes in: the carry
/// flag where `carry` is set, and else 1 for a difference and 0 for a sum.
pub fn addends(state: &mut GAState2, op1: Expr, op2: Expr, sub: bool, carry: bool) -> (r: Result<
    (Expr, Expr, Expr),
    GAError,
>)
    requires
        old(state).wf(),
        op1.wf(),
        op2.wf(),
    ensures
        stays_inside(*old(state), *final(state)),
        final(state).same_but_memory(*old(state)),
        only_read(old(state).memory, final(state).memory),
        !carry || old(state).memory.flag_values().contains_key("C"@) ==> same_views(
            *old(state),
            *final(state),
        ),
        match r {
            Ok((a, b, c)) => a == op1 && b == (if sub {
                op2.spec_not()
            } else {
                op2
            }) && a.wf() && b.wf() && c.wf() && a.width() == b.width() && a.width() == c.width()
                && (if carry {
                final(state).memory.flag_values().contains_key("C"@) && c
                    == final(state).memory.flag_values()["C"@].spec_zero_ext(op1.width() as u32)
            } else {
                op1.width() <= 64 && c == Expr::spec_from_u64(
                    if sub {
                        1
                    } else {
                        0
                    },
                    op1.width() as u32,
                )
            }),
            Err(e) => e == GAError::MemoryError(MemoryError::InconsistentWidth) && (op1.width()
                != op2.width() || (!carry && op1.width() > 64)),
        },
{
    proof {
        lemma_steps_start(*old(state));
    }
    let width: u32 = op1.len();
    if width != op2.len() {
        return Err(GAError::MemoryError(MemoryError::InconsistentWidth));
    }
    let carry_in: Expr = if carry {
        proof {
            let flags = old(state).memory.flag_values();
            if flags.contains_key("C"@) {
                assert(flags.insert("C"@, flags["C"@]) =~= flags);
            }
        }
        match state.get_flag("C".to_owned()) {
            Ok(flag) => flag.zero_ext(width),
            Err(e) => {
                return Err(e);
            },
        }
    } else {
        if width > 64 {
            return Err(GAError::MemoryError(MemoryError::InconsistentWidth));
        }
        Expr::from_u64(
            if sub {
                1
            } else {
                0
            },
            width,
        )
    };
    let second: Expr = if sub {
        op2.not()
    } else {
        op2
    };
    Ok((op1, second, carry_in))
}

/// What an operation keeps of the state and of the waiting paths, whatever
/// it does: see [`stays_inside`] and [`paths_grow`]; a program counter that
/// was written stays written, and one that is not written has not changed;
/// a branch that was taken stays taken, and the local values stay well
/// formed.
pub open spec fn operation_frame(
    before: GAState2,
    after: GAState2,
    paths_before: DFSPathSelection,
    paths_after: DFSPathSelection,
    local_after: NameTable<Expr>,
) -> bool {
    &&& stays_inside(before, after)
    &&& paths_grow(paths_before, paths_after)
    &&& local_wf(local_after)
    &&& before.pc_written ==> after.pc_written
    &&& before.has_jumped ==> after.has_jumped
    &&& !after.pc_written ==> after.memory.pc == before.memory.pc
}

/// The frame goes through a middle.
pub proof fn lemma_frame_chain(
    a: GAState2,
    b: GAState2,
    c: GAState2,
    pa: DFSPathSelection,
    pb: DFSPathSelection,
    pc: DFSPathSelection,
    lb: NameTable<Expr>,
    lc: NameTable<Expr>,
)
    requires
        operation_frame(a, b, pa, pb, lb),
        operation_frame(b, c, pb, pc, lc),
    ensures
        operation_frame(a, c, pa, pc, lc),
{
    lemma_steps_chain(a, b, c);
    lemma_extends_chain(pc.paths@, pb.paths@, pa.paths@);
}

/// The values of two operands whose reads change nothing.
pub open spec fn settled_pair(
    state: GAState2,
    first: Operand,
    second: Operand,
    local: NameTable<Expr>,
) -> Option<(Expr, Expr)> {
    match (settled_value(state, first, local), settled_value(state, second, local)) {
        (Some(a), Some(b)) => Some((a, b)),
        _ => None,
    }
}

/// What an operation with two operands computes where its operands are
/// settled and equally wide: `op` of their values.
pub open spec fn binary_computed(
    op: BinOp,
    operand1: Operand,
    operand2: Operand,
    state: GAState2,
    local: NameTable<Expr>,
) -> Option<Expr> {
    match settled_pair(state, operand1, operand2, local) {
        Some((a, b)) => if a.width() == b.width() {
            Some(Expr::spec_binary(op, a, b))
        } else {
            None
        },
        None => None,
    }
}

/// What an add with carry computes where its operands are settled and
/// equally wide and the carry flag has a value: the sum of their values and
/// the carry.
pub open spec fn adc_computed(
    operand1: Operand,
    operand2: Operand,
    state: GAState2,
    local: NameTable<Expr>,
) -> Option<Expr> {
    match settled_pair(state, operand1, operand2, local) {
        Some((a, b)) => if a.width() == b.width() && state.memory.flag_values().contains_key(
            "C"@,
        ) {
            Some(
                spec_sum(
                    a,
                    b,
                    state.memory.flag_values()["C"@].spec_zero_ext(a.width() as u32),
                ),
            )
        } else {
            None
        },
        None => None,
    }
}

/// The carry out (`overflow` unset) or the signed overflow (`overflow` set)
/// of the sum of `a` and `b` (`sub` unset) or of the difference of `a` and
/// `b` (`sub` set), with the carry `c` coming in.
pub open spec fn sum_flag_value(a: Expr, b: Expr, c: Expr, sub: bool, overflow: bool) -> Expr {
    let second = if sub {
        b.spec_not()
    } else {
        b
    };
    let result = spec_sum(a, second, c);
    if overflow {
        spec_overflow(a, second, result)
    } else {
        spec_carry_out(a, second, result)
    }
}

/// What a flag operation on a sum or difference computes where its operands
/// are settled and equally wide: see [`sum_flag_value`]. The carry that
/// comes in is the carry flag, which must have a value, where `carry` is
/// set, and else 1 for a difference and 0 for a sum, which the width of the
/// operands must allow as a constant.
pub open spec fn sum_flag_computed(
    operand1: Operand,
    operand2: Operand,
    sub: bool,
    carry: bool,
    overflow: bool,
    state: GAState2,
    local: NameTable<Expr>,
) -> Option<Expr> {
    match settled_pair(state, operand1, operand2, local) {
        Some((a, b)) => if a.width() != b.width() {
            None
        } else if carry {
            if state.memory.flag_values().contains_key("C"@) {
                Some(
                    sum_flag_value(
                        a,
                        b,
                        state.memory.flag_values()["C"@].spec_zero_ext(a.width() as u32),
                        sub,
                        overflow,
                    ),
                )
            } else {
                None
            }
        } else {
            if a.width() <= 64 {
                Some(
                    sum_flag_value(
                        a,
                        b,
                        Expr::spec_from_u64(
                            if sub {
                                1
                            } else {
                                0
                            },
                            a.width() as u32,
                        ),
                        sub,
                        overflow,
                    ),
                )
            } else {
                None
            }
        },
        None => None,
    }
}

/// What a flag operation on a shift computes where its operands are
/// settled, equally wide and at most 64 bits wide: the bit at the top
/// (`top` set) or at the bottom of the operand shifted by one less than the
/// shift.
pub open spec fn shift_flag_computed(
    op: BinOp,
    operand: Operand,
    shift: Operand,
    top: bool,
    state: GAState2,
    local: NameTable<Expr>,
) -> Option<Expr> {
    match settled_pair(state, operand, shift, local) {
        Some((value, amount)) => if amount.width() <= 64 && value.width() == amount.width() {
            let steps = Expr::spec_binary(
                BinOp::Sub,
                amount,
                Expr::spec_from_u64(1, amount.width() as u32),
            );
            let shifted = Expr::spec_binary(op, value, steps);
            Some(
                if top {
                    spec_top_bit(shifted)
                } else {
                    shifted.spec_slice(0, 0)
                },
            )
        } else {
            None
        },
        None => None,
    }
}

/// The destination of an operation that writes one, and what it writes
/// there where its operands are settled and fit: see [`binary_computed`]
/// and [`adc_computed`]; a move writes the value of its source, and a
/// complement the complement of the value of its operand.
pub open spec fn computed(operation: Operation, state: GAState2, local: NameTable<Expr>) -> Option<
    (Operand, Expr),
> {
    let (destination, value) = match operation {
        Operation::Move { destination, source } => (
            Some(destination),
            settled_value(state, source, local),
        ),
        Operation::Not { destination, operand } => (
            Some(destination),
            match settled_value(state, operand, local) {
                Some(v) => Some(v.spec_not()),
                None => None,
            },
        ),
        Operation::Add { destination, operand1, operand2 } => (
            Some(destination),
            binary_computed(BinOp::Add, operand1, operand2, state, local),
        ),
        Operation::Sub { destination, operand1, operand2 } => (
            Some(destination),
            binary_computed(BinOp::Sub, operand1, operand2, state, local),
        ),
        Operation::And { destination, operand1, operand2 } => (
            Some(destination),
            binary_computed(BinOp::And, operand1, operand2, state, local),
        ),
        Operation::Or { destination, operand1, operand2 } => (
            Some(destination),
            binary_computed(BinOp::Or, operand1, operand2, state, local),
        ),
        Operation::Xor { destination, operand1, operand2 } => (
            Some(destination),
            binary_computed(BinOp::Xor, operand1, operand2, state, local),
        ),
        Operation::Sl { destination, operand, shift } => (
            Some(destination),
            binary_computed(BinOp::Shl, operand, shift, state, local),
        ),
        Operation::Srl { destination, operand, shift } => (
            Some(destination),
            binary_computed(BinOp::Lshr, operand, shift, state, local),
        ),
        Operation::Sra { destination, operand, shift } => (
            Some(destination),
            binary_computed(BinOp::Ashr, operand, shift, state, local),
        ),
        Operation::Adc { destination, operand1, operand2 } => (
            Some(destination),
            adc_computed(operand1, operand2, state, local),
        ),
        _ => (None, None),
    };
    match (destination, value) {
        (Some(d), Some(v)) => Some((d, v)),
        _ => None,
    }
}

/// The flag that a flag operation sets, and what it sets it to where its
/// operands are settled and fit: N to the top bit of the operand, Z to
/// whether the operand is zero, C and V as [`sum_flag_computed`] says, and C
/// after a shift as [`shift_flag_computed`] says.
pub open spec fn flag_computed(operation: Operation, state: GAState2, local: NameTable<Expr>) -> Option<
    (Seq<char>, Expr),
> {
    let (name, value) = match operation {
        Operation::SetNFlag(operand) => (
            "N"@,
            match settled_value(state, operand, local) {
                Some(v) => Some(spec_top_bit(v)),
                None => None,
            },
        ),
        Operation::SetZFlag(operand) => (
            "Z"@,
            match settled_value(state, operand, local) {
                Some(v) => Some(spec_is_zero(v)),
                None => None,
            },
        ),
        Operation::SetCFlag { operand1, operand2, sub, carry } => (
            "C"@,
            sum_flag_computed(operand1, operand2, sub, carry, false, state, local),
        ),
        Operation::SetVFlag { operand1, operand2, sub, carry } => (
            "V"@,
            sum_flag_computed(operand1, operand2, sub, carry, true, state, local),
        ),
        Operation::SetCFlagShiftLeft { operand, shift } => (
            "C"@,
            shift_flag_computed(BinOp::Shl, operand, shift, true, state, local),
        ),
        Operation::SetCFlagSrl { operand, shift } => (
            "C"@,
            shift_flag_computed(BinOp::Lshr, operand, shift, false, state, local),
        ),
        Operation::SetCFlagSra { operand, shift } => (
            "C"@,
            shift_flag_computed(BinOp::Ashr, operand, shift, false, state, local),
        ),
        _ => ("?"@, None),
    };
    match value {
        Some(v) => Some((name, v)),
        None => None,
    }
}

/// Reads two operands, the first first.
fn read_two(state: &mut GAState2, first: &Operand, second: &Operand, local: &NameTable<Expr>) -> (r:
    Result<(Expr, Expr), GAError>)
    requires
        old(state).wf(),
        local_wf(*local),
    ensures
        stays_inside(*old(state), *final(state)),
        final(state).same_but_memory(*old(state)),
        final(state).memory.pc == old(state).memory.pc,
        r matches Ok((a, b)) ==> a.wf() && b.wf(),
        settled_pair(*old(state), *first, *second, *local) matches Some(pair) ==> r == Ok::<
            (Expr, Expr),
            GAError,
        >(pair) && same_views(*old(state), *final(state)),
{
    let a: Expr = match get_operand_value(state, first, local) {
        Ok(a) => a,
        Err(e) => {
            return Err(e);
        },
    };
    let ghost middle = *state;
    proof {
        if settled_value(*old(state), *first, *local) is Some {
            lemma_settled_same(*old(state), middle, *second, *local);
        }
    }
    let b: Expr = match get_operand_value(state, second, local) {
        Ok(b) => b,
        Err(e) => {
            proof {
                lemma_steps_chain(*old(state), middle, *state);
            }
            return Err(e);
        },
    };
    proof {
        lemma_steps_chain(*old(state), middle, *state);
    }
    Ok((a, b))
}

/// Executes an operation that gives its destination `op` of its two
/// operands.
fn execute_binary<'a, S: SmtSolver>(
    state: &mut GAState2<'a>,
    paths: &mut DFSPathSelection<'a>,
    solver: &mut S,
    config: &Config,
    op: BinOp,
    destination: &Operand,
    operand1: &Operand,
    operand2: &Operand,
    local: &mut NameTable<Expr>,
    index: usize,
) -> (r: Result<(), PathResult>)
    requires
        old(state).wf(),
        local_wf(*old(local)),
    ensures
        operation_frame(*old(state), *final(state), *old(paths), *final(paths), *final(local)),
        final(state).instruction_conditions@ == old(state).instruction_conditions@,
        final(state).has_jumped == old(state).has_jumped,
        r matches Err(end) ==> end is AssumptionUnsat || end is Failure,
        binary_computed(op, *operand1, *operand2, *old(state), *old(local)) matches Some(value)
            ==> writes(
            *old(state),
            *final(state),
            *old(local),
            *final(local),
            *destination,
            value,
            r is Ok,
        ),
        settled_pair(*old(state), *operand1, *operand2, *old(local)) matches Some(pair)
            ==> pair.0.width() != pair.1.width() ==> r is Err,
{
    proof {
        lemma_extends_self(old(paths).paths@);
    }
    let (a, b) = match read_two(state, operand1, operand2, local) {
        Ok(values) => values,
        Err(e) => {
            return Err(failure(&e));
        },
    };
    let value: Expr = match combine(op, &a, &b) {
        Ok(value) => value,
        Err(e) => {
            return Err(failure(&e));
        },
    };
    let ghost middle = *state;
    let r = set_operand_value(state, paths, solver, config, destination, value, local, index);
    proof {
        lemma_steps_chain(*old(state), middle, *state);
        if binary_computed(op, *operand1, *operand2, *old(state), *old(local)) is Some {
            lemma_writes_same(
                *old(state),
                middle,
                *state,
                *old(local),
                *local,
                *destination,
                value,
                r is Ok,
            );
        }
    }
    r
}

/// Executes an operation that sets the carry flag to a bit that a shift of
/// `operand` by one less than `shift` leaves at the top (`top` set) or at
/// the bottom of the word.
fn execute_shift_carry(
    state: &mut GAState2,
    op: BinOp,
    operand: &Operand,
    shift: &Operand,
    top: bool,
    local: &NameTable<Expr>,
) -> (r: Result<(), PathResult>)
    requires
        old(state).wf(),
        local_wf(*local),
    ensures
        stays_inside(*old(state), *final(state)),
        final(state).same_but_memory(*old(state)),
        final(state).memory.pc == old(state).memory.pc,
        r matches Err(end) ==> end is Failure,
        shift_flag_computed(op, *operand, *shift, top, *old(state), *local) matches Some(flag)
            ==> r is Ok && flag_set(*old(state), *final(state), "C"@, flag),
{
    let (value, amount) = match read_two(state, operand, shift, local) {
        Ok(values) => values,
        Err(e) => {
            return Err(failure(&e));
        },
    };
    let width: u32 = amount.len();
    if width > 64 {
        return Err(failure(&GAError::MemoryError(MemoryError::InconsistentWidth)));
    }
    let steps: Expr = amount.sub(&Expr::from_u64(1, width));
    let shifted: Expr = match combine(op, &value, &steps) {
        Ok(shifted) => shifted,
        Err(e) => {
            return Err(failure(&e));
        },
    };
    proof {
        shifted.lemma_width_bounds();
    }
    let carry: Expr = if top {
        top_bit_of(&shifted)
    } else {
        shifted.slice(0, 0)
    };
    let ghost middle = *state;
    let _ = state.set_flag("C".to_owned(), carry);
    proof {
        lemma_steps_chain(*old(state), middle, *state);
    }
    Ok(())
}

/// Executes an operation that sets the carry flag (`overflow` unset) or the
/// overflow flag (`overflow` set) from a sum or difference.
fn execute_sum_flag(
    state: &mut GAState2,
    operand1: &Operand,
    operand2: &Operand,
    sub: bool,
    carry: bool,
    overflow: bool,
    local: &NameTable<Expr>,
) -> (r: Result<(), PathResult>)
    requires
        old(state).wf(),
        local_wf(*local),
    ensures
        stays_inside(*old(state), *final(state)),
        final(state).same_but_memory(*old(state)),
        final(state).memory.pc == old(state).memory.pc,
        r matches Err(end) ==> end is Failure,
        sum_flag_computed(
            *operand1,
            *operand2,
            sub,
            carry,
            overflow,
            *old(state),
            *local,
        ) matches Some(value) ==> r is Ok && flag_set(
            *old(state),
            *final(state),
            if overflow {
                "V"@
            } else {
                "C"@
            },
            value,
        ),
{
    let (op1, op2) = match read_two(state, operand1, operand2, local) {
        Ok(values) => values,
        Err(e) => {
            return Err(failure(&e));
        },
    };
    let ghost first = *state;
    let (a, b, c) = match addends(state, op1, op2, sub, carry) {
        Ok(values) => values,
        Err(e) => {
            proof {
                lemma_steps_chain(*old(state), first, *state);
            }
            return Err(failure(&e));
        },
    };
    let (_, carry_out, signed_overflow) = full_add(&a, &b, &c);
    let ghost second = *state;
    if overflow {
        let _ = state.set_flag("V".to_owned(), signed_overflow);
    } else {
        let _ = state.set_flag("C".to_owned(), carry_out);
    }
    proof {
        lemma_steps_chain(*old(state), first, second);
        lemma_steps_chain(*old(state), second, *state);
    }
    Ok(())
}

/// What the execution of one operation does, `ok` saying whether it
/// succeeded:
///
/// - it keeps what [`operation_frame`] says;
/// - an operation that writes a destination writes what [`computed`] says,
///   as [`writes`] says, where its operands are settled and fit;
/// - a flag operation sets its flag to what [`flag_computed`] says where
///   its operands are settled and fit;
/// - a conditional jump does what [`jumped`] says, and what [`jump_forked`]
///   says where its condition is open, the operation being the one at
///   `index` of its instruction; it records a branch only with the program
///   counter written;
/// - a conditional execution queues its conditions and changes nothing
///   else; no other operation changes the queue;
/// - `Nop` changes nothing.
pub open spec fn operation_done(
    operation: Operation,
    before: GAState2,
    after: GAState2,
    paths_before: DFSPathSelection,
    paths_after: DFSPathSelection,
    local_before: NameTable<Expr>,
    local_after: NameTable<Expr>,
    index: usize,
    ok: bool,
) -> bool {
    &&& operation_frame(before, after, paths_before, paths_after, local_after)
    &&& computed(operation, before, local_before) matches Some(c) ==> writes(
        before,
        after,
        local_before,
        local_after,
        c.0,
        c.1,
        ok,
    )
    &&& flag_computed(operation, before, local_before) matches Some(f) ==> ok && flag_set(
        before,
        after,
        f.0,
        f.1,
    ) && local_after.entries() == local_before.entries()
    &&& operation matches Operation::ConditionalJump { destination, condition } ==> jumped(
        before,
        after,
        destination,
        condition,
        local_before,
        ok,
    ) && jump_forked(
        before,
        after,
        paths_before.paths@,
        paths_after.paths@,
        destination,
        condition,
        local_before,
        index,
        ok,
    ) && local_after.entries() == local_before.entries()
    &&& match operation {
        Operation::Nop => ok && after == before && paths_after.paths@ == paths_before.paths@
            && local_after.entries() == local_before.entries(),
        Operation::ConditionalExecution { conditions } => ok && after.instruction_conditions@
            == before.instruction_conditions@ + conditions@ && after.memory == before.memory
            && after.constraints@ == before.constraints@ && paths_after.paths@
            == paths_before.paths@ && local_after.entries() == local_before.entries(),
        Operation::ConditionalJump { destination, condition } => after.instruction_conditions@
            == before.instruction_conditions@ && (after.has_jumped != before.has_jumped
            ==> after.pc_written),
        _ => after.instruction_conditions@ == before.instruction_conditions@
            && after.has_jumped == before.has_jumped,
    }
}

/// What the execution of the operations of a list from position `from` on
/// does, one after the other until one fails, `ok` saying whether none
/// failed: each does what [`operation_run`] says, from the state that the
/// one before it left.
pub open spec fn operations_done(
    operations: Seq<Operation>,
    from: int,
    before: GAState2,
    after: GAState2,
    paths_before: DFSPathSelection,
    paths_after: DFSPathSelection,
    local_before: NameTable<Expr>,
    local_after: NameTable<Expr>,
    ok: bool,
) -> bool
    decreases operations.len() - from,
{
    if from < 0 || from >= operations.len() {
        ok && after == before && paths_after == paths_before && local_after == local_before
    } else {
        exists|
            mid: GAState2,
            paths_mid: DFSPathSelection,
            local_mid: NameTable<Expr>,
            ok_mid: bool,
        |
            (#[trigger] operation_run(
                operations[from],
                before,
                mid,
                paths_before,
                paths_mid,
                local_before,
                local_mid,
                from as usize,
                ok_mid,
            )) && if ok_mid {
                operations_done(
                    operations,
                    from + 1,
                    mid,
                    after,
                    paths_mid,
                    paths_after,
                    local_mid,
                    local_after,
                    ok,
                )
            } else {
                !ok && after == mid && paths_after == paths_mid && local_after == local_mid
            }
    }
}

/// Executes a move.
fn execute_move<'a, S: SmtSolver>(
    state: &mut GAState2<'a>,
    paths: &mut DFSPathSelection<'a>,
    solver: &mut S,
    config: &Config,
    destination: &Operand,
    source: &Operand,
    negate: bool,
    local: &mut NameTable<Expr>,
    index: usize,
) -> (r: Result<(), PathResult>)
    requires
        old(state).wf(),
        local_wf(*old(local)),
    ensures
        operation_frame(*old(state), *final(state), *old(paths), *final(paths), *final(local)),
        final(state).instruction_conditions@ == old(state).instruction_conditions@,
        final(state).has_jumped == old(state).has_jumped,
        r matches Err(end) ==> end is AssumptionUnsat || end is Failure,
        settled_value(*old(state), *source, *old(local)) matches Some(v) ==> writes(
            *old(state),
            *final(state),
            *old(local),
            *final(local),
            *destination,
            if negate {
                v.spec_not()
            } else {
                v
            },
            r is Ok,
        ),
{
    proof {
        lemma_extends_self(old(paths).paths@);
    }
    let value: Expr = match get_operand_value(state, source, local) {
        Ok(value) => value,
        Err(e) => {
            return Err(failure(&e));
        },
    };
    let value: Expr = if negate {
        value.not()
    } else {
        value
    };
    let ghost middle = *state;
    let r = set_operand_value(state, paths, solver, config, destination, value, local, index);
    proof {
        lemma_steps_chain(*old(state), middle, *state);
        if settled_value(*old(state), *source, *old(local)) is Some {
            lemma_writes_same(
                *old(state),
                middle,
                *state,
                *old(local),
                *local,
                *destination,
                value,
                r is Ok,
            );
        }
    }
    r
}

/// Executes an add with carry.
fn execute_adc<'a, S: SmtSolver>(
    state: &mut GAState2<'a>,
    paths: &mut DFSPathSelection<'a>,
    solver: &mut S,
    config: &Config,
    destination: &Operand,
    operand1: &Operand,
    operand2: &Operand,
    local: &mut NameTable<Expr>,
    index: usize,
) -> (r: Result<(), PathResult>)
    requires
        old(state).wf(),
        local_wf(*old(local)),
    ensures
        operation_frame(*old(state), *final(state), *old(paths), *final(paths), *final(local)),
        final(state).instruction_conditions@ == old(state).instruction_conditions@,
        final(state).has_jumped == old(state).has_jumped,
        r matches Err(end) ==> end is AssumptionUnsat || end is Failure,
        adc_computed(*operand1, *operand2, *old(state), *old(local)) matches Some(value)
            ==> writes(
            *old(state),
            *final(state),
            *old(local),
            *final(local),
            *destination,
            value,
            r is Ok,
        ),
{
    proof {
        lemma_extends_self(old(paths).paths@);
    }
    let (op1, op2) = match read_two(state, operand1, operand2, local) {
        Ok(values) => values,
        Err(e) => {
            return Err(failure(&e));
        },
    };
    let ghost first = *state;
    let (a, b, c) = match addends(state, op1, op2, false, true) {
        Ok(values) => values,
        Err(e) => {
            proof {
                lemma_steps_chain(*old(state), first, *state);
            }
            return Err(failure(&e));
        },
    };
    let (sum, _, _) = full_add(&a, &b, &c);
    let ghost second = *state;
    proof {
        lemma_steps_chain(*old(state), first, second);
    }
    let r = set_operand_value(state, paths, solver, config, destination, sum, local, index);
    proof {
        lemma_steps_chain(*old(state), second, *state);
        if adc_computed(*operand1, *operand2, *old(state), *old(local)) is Some {
            assert(same_views(*old(state), second));
            lemma_writes_same(
                *old(state),
                second,
                *state,
                *old(local),
                *local,
                *destination,
                sum,
                r is Ok,
            );
        }
    }
    r
}

/// What a conditional jump does where the flags that its condition looks at
/// have values that make the condition a constant: where the condition
/// fails, nothing; where it holds and the destination is settled at a
/// constant, the program counter has that value and the branch is recorded.
pub open spec fn jumped(
    before: GAState2,
    after: GAState2,
    destination: Operand,
    condition: Condition,
    local: NameTable<Expr>,
    ok: bool,
) -> bool {
    let flags = before.memory.flag_values();
    let guard = crate::state::condition_expr(
        condition,
        flags["N"@],
        flags["Z"@],
        flags["C"@],
        flags["V"@],
    );
    crate::state::flags_recorded(condition, flags) && guard is Const ==> if guard->value == 1 {
        settled_value(before, destination, local) matches Some(target) ==> target is Const ==> ok
            && after.memory.pc == target->value && after.memory.same_but_pc(before.memory)
            && after.same_but_memory(GAState2 { has_jumped: true, pc_written: true, ..before })
    } else {
        ok && same_views(before, after)
    }
}

/// What a guard does to a path is the same from every state that shows
/// the same.
pub proof fn lemma_forked_same(
    a: GAState2,
    b: GAState2,
    after: GAState2,
    waiting: Seq<Path>,
    waiting_after: Seq<Path>,
    guard: Expr,
    index: usize,
    local: NameTable<Expr>,
    can_hold: bool,
    can_fail: bool,
    r: Result<bool, PathResult>,
)
    requires
        same_views(a, b),
        forked(b, after, waiting, waiting_after, guard, index, local, can_hold, can_fail, r),
    ensures
        forked(a, after, waiting, waiting_after, guard, index, local, can_hold, can_fail, r),
{
}

/// What a conditional jump does where the flags that its condition looks at
/// have values that leave the condition open. Either the solver fails, the
/// jump with it, and nothing changes. Or the solver says whether the
/// condition can hold and whether it can fail, and the path is decided as
/// [`forked`] says, the sibling going on at this operation: a path that
/// ends there has ended; one that goes on as not taken goes on as it is;
/// and one that goes on as taken jumps: where the destination is settled at
/// a constant, the program counter has that value and the branch is
/// recorded.
pub open spec fn jump_forked(
    before: GAState2,
    after: GAState2,
    waiting: Seq<Path>,
    waiting_after: Seq<Path>,
    destination: Operand,
    condition: Condition,
    local: NameTable<Expr>,
    index: usize,
    ok: bool,
) -> bool {
    let flags = before.memory.flag_values();
    let guard = crate::state::condition_expr(
        condition,
        flags["N"@],
        flags["Z"@],
        flags["C"@],
        flags["V"@],
    );
    crate::state::flags_recorded(condition, flags) && !(guard is Const) ==> (!ok && same_views(
        before,
        after,
    ) && waiting_after == waiting) || (exists|
        can_hold: bool,
        can_fail: bool,
        decided: GAState2,
        waiting_decided: Seq<Path>,
        taken: Result<bool, PathResult>,
    |
        #![trigger forked(
            before,
            decided,
            waiting,
            waiting_decided,
            guard,
            index,
            local,
            can_hold,
            can_fail,
            taken,
        )]
        forked(
            before,
            decided,
            waiting,
            waiting_decided,
            guard,
            index,
            local,
            can_hold,
            can_fail,
            taken,
        ) && decided.memory.same_but_pc(before.memory) && decided.memory.pc == before.memory.pc
            && decided.same_but_memory(GAState2 { constraints: decided.constraints, ..before })
            && match taken {
            Ok(true) => settled_value(decided, destination, local) matches Some(target)
                ==> target is Const ==> ok && after.memory.pc == target->value
                && after.memory.same_but_pc(decided.memory) && after.same_but_memory(
                GAState2 { has_jumped: true, pc_written: true, ..decided },
            ) && waiting_after == waiting_decided,
            Ok(false) => ok && after == decided && waiting_after == waiting_decided,
            Err(_) => !ok && after == decided && waiting_after == waiting_decided,
        })
}

/// Executes a conditional jump.
fn execute_jump<'a, S: SmtSolver>(
    state: &mut GAState2<'a>,
    paths: &mut DFSPathSelection<'a>,
    solver: &mut S,
    config: &Config,
    destination: &Operand,
    condition: &Condition,
    local: &NameTable<Expr>,
    index: usize,
) -> (r: Result<(), PathResult>)
    requires
        old(state).wf(),
        local_wf(*local),
    ensures
        operation_frame(*old(state), *final(state), *old(paths), *final(paths), *local),
        final(state).instruction_conditions@ == old(state).instruction_conditions@,
        final(state).has_jumped != old(state).has_jumped ==> final(state).pc_written,
        r matches Err(end) ==> end is AssumptionUnsat || end is Failure,
        jumped(*old(state), *final(state), *destination, *condition, *local, r is Ok),
        jump_forked(
            *old(state),
            *final(state),
            old(paths).paths@,
            final(paths).paths@,
            *destination,
            *condition,
            *local,
            index,
            r is Ok,
        ),
{
    proof {
        lemma_extends_self(old(paths).paths@);
    }
    let guard: Expr = match state.get_expr(condition) {
        Ok(guard) => guard,
        Err(e) => {
            proof {
                lemma_memory_step(*old(state), *state);
            }
            return Err(failure(&e));
        },
    };
    let ghost first = *state;
    proof {
        lemma_memory_step(*old(state), first);
    }
    let decision = branch(state, paths, solver, &guard, index, local);
    proof {
        lemma_steps_chain(*old(state), first, *state);
        if crate::state::flags_recorded(*condition, old(state).memory.flag_values()) && !(guard
            is Const) {
            assert(same_views(*old(state), first));
            if !(solver_failed(decision) && state.constraints@ == first.constraints@
                && paths.paths@ == old(paths).paths@) {
                let (can_hold, can_fail) = choose|can_hold: bool, can_fail: bool| #[trigger]
                    forked(
                        first,
                        *state,
                        old(paths).paths@,
                        paths.paths@,
                        guard,
                        index,
                        *local,
                        can_hold,
                        can_fail,
                        decision,
                    );
                lemma_forked_same(
                    *old(state),
                    first,
                    *state,
                    old(paths).paths@,
                    paths.paths@,
                    guard,
                    index,
                    *local,
                    can_hold,
                    can_fail,
                    decision,
                );
            }
        }
    }
    let ghost decided = *state;
    let ghost waiting_decided = paths.paths@;
    let taken: bool = match decision {
        Ok(taken) => taken,
        Err(end) => {
            return Err(end);
        },
    };
    if !taken {
        return Ok(());
    }
    let ghost second = *state;
    let ghost paths_second = *paths;
    proof {
        if crate::state::flags_recorded(*condition, old(state).memory.flag_values()) && guard
            is Const {
            assert(same_views(*old(state), second));
            lemma_settled_same(*old(state), second, *destination, *local);
        }
    }
    let target: Expr = match get_operand_value(state, destination, local) {
        Ok(target) => target,
        Err(e) => {
            proof {
                lemma_steps_chain(*old(state), second, *state);
            }
            return Err(failure(&e));
        },
    };
    let ghost third = *state;
    proof {
        lemma_steps_chain(*old(state), second, third);
    }
    let r = write_pc(state, paths, solver, config, target, index, local);
    proof {
        lemma_steps_chain(*old(state), third, *state);
        lemma_extends_chain(paths.paths@, paths_second.paths@, old(paths).paths@);
    }
    if r.is_ok() {
        let ghost fourth = *state;
        state.set_has_jumped();
        proof {
            lemma_steps_start(fourth);
            lemma_steps_chain(*old(state), fourth, *state);
        }
    }
    r
}

/// Executes an operation that sets N to the top bit of its operand
/// (`zero` unset) or Z to whether its operand is zero (`zero` set).
fn execute_result_flag(state: &mut GAState2, operand: &Operand, zero: bool, local: &NameTable<Expr>) -> (r:
    Result<(), PathResult>)
    requires
        old(state).wf(),
        local_wf(*local),
    ensures
        stays_inside(*old(state), *final(state)),
        final(state).same_but_memory(*old(state)),
        final(state).memory.pc == old(state).memory.pc,
        r matches Err(end) ==> end is Failure,
        settled_value(*old(state), *operand, *local) matches Some(v) ==> r is Ok && flag_set(
            *old(state),
            *final(state),
            if zero {
                "Z"@
            } else {
                "N"@
            },
            if zero {
                spec_is_zero(v)
            } else {
                spec_top_bit(v)
            },
        ),
{
    let value: Expr = match get_operand_value(state, operand, local) {
        Ok(value) => value,
        Err(e) => {
            return Err(failure(&e));
        },
    };
    let ghost middle = *state;
    if zero {
        let _ = state.set_flag("Z".to_owned(), is_zero(&value));
    } else {
        let _ = state.set_flag("N".to_owned(), top_bit_of(&value));
    }
    proof {
        lemma_steps_chain(*old(state), middle, *state);
    }
    Ok(())
}

/// Executes one operation whose operands have taken their inputs.
#[verifier::rlimit(60)]
fn execute_read_operation<'a, S: SmtSolver>(
    state: &mut GAState2<'a>,
    paths: &mut DFSPathSelection<'a>,
    solver: &mut S,
    config: &Config,
    operation: &Operation,
    local: &mut NameTable<Expr>,
    index: usize,
) -> (r: Result<(), PathResult>)
    requires
        old(state).wf(),
        local_wf(*old(local)),
    ensures
        operation_done(
            *operation,
            *old(state),
            *final(state),
            *old(paths),
            *final(paths),
            *old(local),
            *final(local),
            index,
            r is Ok,
        ),
        r matches Err(end) ==> end is AssumptionUnsat || end is Failure,
{
    proof {
        lemma_steps_start(*old(state));
        lemma_extends_self(old(paths).paths@);
    }
    match operation {
        Operation::Nop => Ok(()),
        Operation::Move { destination, source } => execute_move(
            state,
            paths,
            solver,
            config,
            destination,
            source,
            false,
            local,
            index,
        ),
        Operation::Not { destination, operand } => execute_move(
            state,
            paths,
            solver,
            config,
            destination,
            operand,
            true,
            local,
            index,
        ),
        Operation::Add { destination, operand1, operand2 } => execute_binary(
            state,
            paths,
            solver,
            config,
            BinOp::Add,
            destination,
            operand1,
            operand2,
            local,
            index,
        ),
        Operation::Sub { destination, operand1, operand2 } => execute_binary(
            state,
            paths,
            solver,
            config,
            BinOp::Sub,
            destination,
            operand1,
            operand2,
            local,
            index,
        ),
        Operation::And { destination, operand1, operand2 } => execute_binary(
            state,
            paths,
            solver,
            config,
            BinOp::And,
            destination,
            operand1,
            operand2,
            local,
            index,
        ),
        Operation::Or { destination, operand1, operand2 } => execute_binary(
            state,
            paths,
            solver,
            config,
            BinOp::Or,
            destination,
            operand1,
            operand2,
            local,
            index,
        ),
        Operation::Xor { destination, operand1, operand2 } => execute_binary(
            state,
            paths,
            solver,
            config,
            BinOp::Xor,
            destination,
            operand1,
            operand2,
            local,
            index,
        ),
        Operation::Sl { destination, operand, shift } => execute_binary(
            state,
            paths,
            solver,
            config,
            BinOp::Shl,
            destination,
            operand,
            shift,
            local,
            index,
        ),
        Operation::Srl { destination, operand, shift } => execute_binary(
            state,
            paths,
            solver,
            config,
            BinOp::Lshr,
            destination,
            operand,
            shift,
            local,
            index,
        ),
        Operation::Sra { destination, operand, shift } => execute_binary(
            state,
            paths,
            solver,
            config,
            BinOp::Ashr,
            destination,
            operand,
            shift,
            local,
            index,
        ),
        Operation::Adc { destination, operand1, operand2 } => execute_adc(
            state,
            paths,
            solver,
            config,
            destination,
            operand1,
            operand2,
            local,
            index,
        ),
        Operation::ConditionalJump { destination, condition } => execute_jump(
            state,
            paths,
            solver,
            config,
            destination,
            condition,
            local,
            index,
        ),
        Operation::ConditionalExecution { conditions } => {
            state.add_instruction_conditions(conditions);
            Ok(())
        },
        Operation::SetNFlag(operand) => execute_result_flag(state, operand, false, local),
        Operation::SetZFlag(operand) => execute_result_flag(state, operand, true, local),
        Operation::SetCFlag { operand1, operand2, sub, carry } => execute_sum_flag(
            state,
            operand1,
            operand2,
            *sub,
            *carry,
            false,
            local,
        ),
        Operation::SetVFlag { operand1, operand2, sub, carry } => execute_sum_flag(
            state,
            operand1,
            operand2,
            *sub,
            *carry,
            true,
            local,
        ),
        Operation::SetCFlagShiftLeft { operand, shift } => execute_shift_carry(
            state,
            BinOp::Shl,
            operand,
            shift,
            true,
            local,
        ),
        Operation::SetCFlagSrl { operand, shift } => execute_shift_carry(
            state,
            BinOp::Lshr,
            operand,
            shift,
            false,
            local,
        ),
        Operation::SetCFlagSra { operand, shift } => execute_shift_carry(
            state,
            BinOp::Ashr,
            operand,
            shift,
            false,
            local,
        ),
    }
}

/// The operands that an operation reads before it writes anything, in the
/// order in which it reads them.
pub open spec fn spec_reads(operation: Operation) -> Seq<Operand> {
    match operation {
        Operation::Move { destination, source } => seq![source],
        Operation::Not { destination, operand } => seq![operand],
        Operation::Add { destination, operand1, operand2 } => seq![operand1, operand2],
        Operation::Adc { destination, operand1, operand2 } => seq![operand1, operand2],
        Operation::Sub { destination, operand1, operand2 } => seq![operand1, operand2],
        Operation::And { destination, operand1, operand2 } => seq![operand1, operand2],
        Operation::Or { destination, operand1, operand2 } => seq![operand1, operand2],
        Operation::Xor { destination, operand1, operand2 } => seq![operand1, operand2],
        Operation::Sl { destination, operand, shift } => seq![operand, shift],
        Operation::Srl { destination, operand, shift } => seq![operand, shift],
        Operation::Sra { destination, operand, shift } => seq![operand, shift],
        Operation::SetNFlag(operand) => seq![operand],
        Operation::SetZFlag(operand) => seq![operand],
        Operation::SetCFlag { operand1, operand2, sub, carry } => seq![operand1, operand2],
        Operation::SetVFlag { operand1, operand2, sub, carry } => seq![operand1, operand2],
        Operation::SetCFlagShiftLeft { operand, shift } => seq![operand, shift],
        Operation::SetCFlagSrl { operand, shift } => seq![operand, shift],
        Operation::SetCFlagSra { operand, shift } => seq![operand, shift],
        _ => Seq::empty(),
    }
}

/// The operands that an operation reads before it writes anything, in the
/// order in which it reads them.
pub fn reads(operation: &Operation) -> (r: (Option<&Operand>, Option<&Operand>))
    ensures
        match r {
            (None, None) => spec_reads(*operation).len() == 0,
            (Some(first), None) => spec_reads(*operation) == seq![*first],
            (Some(first), Some(second)) => spec_reads(*operation) == seq![*first, *second],
            (None, Some(_)) => false,
        },
{
    match operation {
        Operation::Move { destination, source } => (Some(source), None),
        Operation::Not { destination, operand } => (Some(operand), None),
        Operation::Add { destination, operand1, operand2 } => (Some(operand1), Some(operand2)),
        Operation::Adc { destination, operand1, operand2 } => (Some(operand1), Some(operand2)),
        Operation::Sub { destination, operand1, operand2 } => (Some(operand1), Some(operand2)),
        Operation::And { destination, operand1, operand2 } => (Some(operand1), Some(operand2)),
        Operation::Or { destination, operand1, operand2 } => (Some(operand1), Some(operand2)),
        Operation::Xor { destination, operand1, operand2 } => (Some(operand1), Some(operand2)),
        Operation::Sl { destination, operand, shift } => (Some(operand), Some(shift)),
        Operation::Srl { destination, operand, shift } => (Some(operand), Some(shift)),
        Operation::Sra { destination, operand, shift } => (Some(operand), Some(shift)),
        Operation::SetNFlag(operand) => (Some(operand), None),
        Operation::SetZFlag(operand) => (Some(operand), None),
        Operation::SetCFlag { operand1, operand2, sub, carry } => (Some(operand1), Some(operand2)),
        Operation::SetVFlag { operand1, operand2, sub, carry } => (Some(operand1), Some(operand2)),
        Operation::SetCFlagShiftLeft { operand, shift } => (Some(operand), Some(shift)),
        Operation::SetCFlagSrl { operand, shift } => (Some(operand), Some(shift)),
        Operation::SetCFlagSra { operand, shift } => (Some(operand), Some(shift)),
        _ => (None, None),
    }
}

/// The read of the operand makes an input: the operand is a register
/// other than the program counter that has no value yet and no read hook.
pub open spec fn takes_input(state: GAState2, operand: Operand) -> bool {
    operand matches Operand::Register(name) && name@ != "PC"@
        && !state.hooks.register_read_hook.entries().contains_key(name@)
        && !state.memory.registers().contains_key(name@)
}

/// The read of the operand surely succeeds: it makes an input (see
/// [`takes_input`]) or changes nothing and yields a value (see
/// [`settled_value`]).
pub open spec fn surely_read(state: GAState2, operand: Operand, local: NameTable<Expr>) -> bool {
    takes_input(state, operand) || settled_value(state, operand, local) is Some
}

/// What the first read of a register that has no value does to a state:
/// the register gets a fresh unconstrained word with its name, which joins
/// the inputs of the path, and nothing else changes.
pub open spec fn input_made(before: GAState2, after: GAState2, name: Seq<char>) -> bool {
    &&& after.wf()
    &&& after.same_but_memory(before)
    &&& after.memory.same_but_registers(before.memory)
    &&& after.memory.registers().contains_key(name)
    &&& after.memory.registers() == before.memory.registers().insert(
        name,
        after.memory.registers()[name],
    )
    &&& after.memory.registers()[name] matches Expr::Symbol { name: label, width } && label@
        == name && width == before.memory.word_size
    &&& after.memory.inputs@ == before.memory.inputs@.push(after.memory.registers()[name])
}

/// The state after an operand has taken its input: where its read makes
/// one (see [`takes_input`]), the state with that input made, and else the
/// state as it was.
pub open spec fn input_taken(before: GAState2, after: GAState2, operand: Operand) -> bool {
    match operand {
        Operand::Register(name) => if takes_input(before, operand) {
            input_made(before, after, name@)
        } else {
            after == before
        },
        _ => after == before,
    }
}

/// The state after the operands that an operation reads have taken their
/// inputs, in the order in which it reads them, the second only where the
/// read of the first surely succeeds. In that state the registers among
/// those operands have values.
pub open spec fn inputs_taken(
    before: GAState2,
    after: GAState2,
    operation: Operation,
    local: NameTable<Expr>,
) -> bool {
    let reads = spec_reads(operation);
    if reads.len() == 0 {
        after == before
    } else if reads.len() == 1 || !surely_read(before, reads[0], local) {
        input_taken(before, after, reads[0])
    } else {
        exists|between: GAState2| #[trigger]
            input_taken(before, between, reads[0]) && input_taken(between, after, reads[1])
    }
}

/// Lets the operand take its input (see [`input_taken`]) and says whether
/// its read surely succeeds.
pub fn take_input(state: &mut GAState2, operand: &Operand, local: &NameTable<Expr>) -> (r: bool)
    requires
        old(state).wf(),
        local_wf(*local),
    ensures
        final(state).wf(),
        stays_inside(*old(state), *final(state)),
        final(state).same_but_memory(*old(state)),
        final(state).memory.same_but_registers(old(state).memory),
        input_taken(*old(state), *final(state), *operand),
        r == surely_read(*old(state), *operand, *local),
{
    proof {
        lemma_steps_start(*old(state));
        reveal_strlit("PC");
    }
    match operand {
        Operand::Register(name) => {
            if crate::text::same_text(name.as_str(), "PC") {
                return true;
            }
            match state.hooks.register_read_hook.get(name.as_str()) {
                Some(RegisterReadHook::Offset { register: from, offset }) => {
                    if crate::text::same_text(from.as_str(), "PC") {
                        return true;
                    }
                    match state.memory.register_file.get(from.as_str()) {
                        Some(base) => base.len() <= 64,
                        None => false,
                    }
                },
                None => {
                    if state.memory.register_file.get(name.as_str()).is_none() {
                        let _ = state.get_register(name.clone());
                        proof {
                            lemma_memory_step(*old(state), *state);
                        }
                    }
                    true
                },
            }
        },
        Operand::Immediate(_) => true,
        Operand::Local(name) => local.get(name.as_str()).is_some(),
        Operand::Flag(name) => state.memory.flags.get(name.as_str()).is_some(),
        Operand::Address(word, width) => {
            let address: Expr = Expr::from_u64(word.value(), state.memory.word_size);
            get_memory(state, &address, *width).is_ok()
        },
        Operand::AddressInLocal(name, width) => match local.get(name.as_str()) {
            Some(address) => get_memory(state, address, *width).is_ok(),
            None => false,
        },
    }
}

/// Lets the operands that the operation reads take their inputs: see
/// [`inputs_taken`].
pub fn take_inputs(state: &mut GAState2, operation: &Operation, local: &NameTable<Expr>)
    requires
        old(state).wf(),
        local_wf(*local),
    ensures
        final(state).wf(),
        stays_inside(*old(state), *final(state)),
        final(state).same_but_memory(*old(state)),
        final(state).memory.same_but_registers(old(state).memory),
        inputs_taken(*old(state), *final(state), *operation, *local),
{
    proof {
        lemma_steps_start(*old(state));
    }
    match reads(operation) {
        (Some(first), None) => {
            let _ = take_input(state, first, local);
        },
        (Some(first), Some(second)) => {
            if take_input(state, first, local) {
                let ghost between = *state;
                let _ = take_input(state, second, local);
                proof {
                    lemma_steps_chain(*old(state), between, *state);
                }
            }
        },
        _ => {},
    }
}

/// What the execution of one operation does, whether or not its operands
/// have values: first the operands that it reads take their inputs (see
/// [`inputs_taken`]), and from the state that this leaves the operation
/// does what [`operation_done`] says.
#[verifier::opaque]
pub open spec fn operation_run(
    operation: Operation,
    before: GAState2,
    after: GAState2,
    paths_before: DFSPathSelection,
    paths_after: DFSPathSelection,
    local_before: NameTable<Expr>,
    local_after: NameTable<Expr>,
    index: usize,
    ok: bool,
) -> bool {
    exists|taken: GAState2| #[trigger]
        inputs_taken(before, taken, operation, local_before) && operation_done(
            operation,
            taken,
            after,
            paths_before,
            paths_after,
            local_before,
            local_after,
            index,
            ok,
        )
}

/// Executes one operation.
///
/// A move and the arithmetic and bitwise operations read their operands
/// and write their destination; an operation on values of different widths
/// fails. The flag operations write one flag. A conditional jump decides
/// its condition over the flags (see [`branch`]) and, where it is taken,
/// writes the program counter and records the branch. A conditional
/// execution queues its conditions. A failure ends the path.
///
/// First the operands that the operation reads take their inputs: a
/// register without a value gets a fresh one (see [`inputs_taken`]). From
/// there, where the reads of the operands change nothing (see
/// [`settled_value`]), the outcome is exact: see [`operation_run`],
/// [`computed`], [`flag_computed`], [`jumped`] and [`jump_forked`].
pub fn execute_operation<'a, S: SmtSolver>(
    state: &mut GAState2<'a>,
    paths: &mut DFSPathSelection<'a>,
    solver: &mut S,
    config: &Config,
    operation: &Operation,
    local: &mut NameTable<Expr>,
    index: usize,
) -> (r: Result<(), PathResult>)
    requires
        old(state).wf(),
        local_wf(*old(local)),
    ensures
        operation_frame(*old(state), *final(state), *old(paths), *final(paths), *final(local)),
        operation_run(
            *operation,
            *old(state),
            *final(state),
            *old(paths),
            *final(paths),
            *old(local),
            *final(local),
            index,
            r is Ok,
        ),
        r matches Err(end) ==> end is AssumptionUnsat || end is Failure,
{
    take_inputs(state, operation, local);
    let ghost taken = *state;
    let r = execute_read_operation(state, paths, solver, config, operation, local, index);
    proof {
        reveal(operation_run);
        lemma_steps_chain(*old(state), taken, *state);
    }
    r
}

/// Executes the operations of `instruction` from position `start` on, in
/// their order, until one of them ends the path: see [`operations_done`].
pub fn run_operations<'a, S: SmtSolver>(
    state: &mut GAState2<'a>,
    paths: &mut DFSPathSelection<'a>,
    solver: &mut S,
    config: &Config,
    instruction: &Instruction2,
    start: usize,
    local: &mut NameTable<Expr>,
) -> (r: Result<(), PathResult>)
    requires
        old(state).wf(),
        local_wf(*old(local)),
    ensures
        operation_frame(*old(state), *final(state), *old(paths), *final(paths), *final(local)),
        operations_done(
            instruction.operations@,
            start as int,
            *old(state),
            *final(state),
            *old(paths),
            *final(paths),
            *old(local),
            *final(local),
            r is Ok,
        ),
        r matches Err(end) ==> end is AssumptionUnsat || end is Failure,
{
    proof {
        lemma_steps_start(*old(state));
        lemma_extends_self(old(paths).paths@);
    }
    let ghost operations = instruction.operations@;
    let mut i: usize = start;
    while i < instruction.operations.len()
        invariant
            start <= i,
            operations == instruction.operations@,
            operation_frame(*old(state), *state, *old(paths), *paths, *local),
            forall|s: GAState2, p: DFSPathSelection, l: NameTable<Expr>, ok: bool| #[trigger]
                operations_done(operations, i as int, *state, s, *paths, p, *local, l, ok)
                    ==> operations_done(
                    operations,
                    start as int,
                    *old(state),
                    s,
                    *old(paths),
                    p,
                    *old(local),
                    l,
                    ok,
                ),
        decreases instruction.operations@.len() - i,
    {
        let ghost before = *state;
        let ghost paths_before = *paths;
        let ghost local_before = *local;
        let r = execute_operation(
            state,
            paths,
            solver,
            config,
            &instruction.operations[i],
            local,
            i,
        );
        proof {
            lemma_frame_chain(
                *old(state),
                before,
                *state,
                *old(paths),
                paths_before,
                *paths,
                local_before,
                *local,
            );
            assert((i as int) as usize == i);
            assert(operation_run(
                operations[i as int],
                before,
                *state,
                paths_before,
                *paths,
                local_before,
                *local,
                (i as int) as usize,
                r is Ok,
            ));
        }
        if r.is_err() {
            proof {
                assert(operations_done(
                    operations,
                    i as int,
                    before,
                    *state,
                    paths_before,
                    *paths,
                    local_before,
                    *local,
                    false,
                ));
            }
            return r;
        }
        proof {
            assert forall|s: GAState2, p: DFSPathSelection, l: NameTable<Expr>, ok: bool| #[trigger]
                operations_done(
                    operations,
                    i + 1,
                    *state,
                    s,
                    *paths,
                    p,
                    *local,
                    l,
                    ok,
                ) implies operations_done(
                operations,
                start as int,
                *old(state),
                s,
                *old(paths),
                p,
                *old(local),
                l,
                ok,
            ) by {
                assert(operations_done(
                    operations,
                    i as int,
                    before,
                    s,
                    paths_before,
                    p,
                    local_before,
                    l,
                    ok,
                ));
            }
        }
        i = i + 1;
    }
    proof {
        assert(operations_done(
            operations,
            i as int,
            *state,
            *state,
            *paths,
            *paths,
            *local,
            *local,
            true,
        ));
    }
    Ok(())
}

/// The end of a path whose program counter leaves the address space.
pub fn pc_overflow() -> (r: PathResult)
    ensures
        r matches PathResult::Failure(text) && text@ == "program counter out of range"@,
{
    PathResult::Failure("program counter out of range".to_owned())
}

/// The cycle count after an instruction of the given cost: the count
/// before it and the cycles of the instruction, where cycles are counted,
/// and at most what a `u64` holds.
pub open spec fn cycles_after(before: GAState2, cost: crate::instruction::CycleCount2) -> u64 {
    if before.count_cycles {
        if before.cycle_count + crate::state::cycles_of(cost, before.has_jumped) <= u64::MAX {
            (before.cycle_count + crate::state::cycles_of(cost, before.has_jumped)) as u64
        } else {
            u64::MAX
        }
    } else {
        before.cycle_count
    }
}

/// What the end of the execution of an instruction does, `ok` saying
/// whether it succeeded. It fails, and changes nothing, where no operation
/// wrote the program counter and moving it on by the size of the
/// instruction would leave the address space. Else the program counter has
/// moved on by that size, unless an operation wrote it; the instruction is
/// the last one and none is under execution; one more instruction counts as
/// executed; and the cycles of the instruction are counted.
pub open spec fn instruction_finished(
    before: GAState2,
    after: GAState2,
    instruction: Instruction2,
    ok: bool,
) -> bool {
    let step = instruction.instruction_size / 8;
    if !before.pc_written && before.memory.pc + step > u64::MAX {
        !ok && after == before
    } else {
        &&& ok
        &&& after.memory.same_but_pc(before.memory)
        &&& after.memory.pc == if before.pc_written {
            before.memory.pc as int
        } else {
            before.memory.pc + step
        }
        &&& after.same_but_memory(
            GAState2 {
                current_instruction: None,
                last_instruction: Some(instruction),
                instruction_counter: if before.instruction_counter < usize::MAX {
                    (before.instruction_counter + 1) as usize
                } else {
                    before.instruction_counter
                },
                cycle_count: cycles_after(before, instruction.max_cycle),
                ..before
            },
        )
    }
}

/// Ends the execution of `instruction`: where no operation wrote the
/// program counter, it moves on by the size of the instruction; the
/// instruction becomes the last one; the instruction count goes up by one;
/// and, where cycles are counted, the cycle count goes up by the cycles of
/// the instruction, which may depend on whether it branched. The cycle
/// count never goes down. The path fails, with nothing changed, where the
/// program counter would leave the address space.
pub fn finish_instruction(state: &mut GAState2, instruction: Instruction2) -> (r: Result<
    (),
    PathResult,
>)
    requires
        old(state).wf(),
    ensures
        proceeds(*old(state), *final(state)),
        final(state).cycle_count >= old(state).cycle_count,
        final(state).count_cycles == old(state).count_cycles,
        final(state).instruction_counter >= old(state).instruction_counter,
        final(state).constraints@ == old(state).constraints@,
        final(state).memory.same_but_pc(old(state).memory),
        final(state).has_jumped == old(state).has_jumped,
        final(state).pc_written == old(state).pc_written,
        final(state).last_pc == old(state).last_pc,
        final(state).instruction_conditions@ == old(state).instruction_conditions@,
        instruction_finished(*old(state), *final(state), instruction, r is Ok),
        r matches Err(end) ==> end is Failure,
{
    proof {
        lemma_steps_start(*old(state));
    }
    if !state.pc_written {
        let step: u64 = (instruction.instruction_size / 8) as u64;
        if step > u64::MAX - state.memory.pc {
            return Err(pc_overflow());
        }
        let next: u64 = state.memory.pc + step;
        let _ = state.memory.set_pc(next);
    }
    state.current_instruction = None;
    state.set_last_instruction(instruction);
    state.increment_instruction_count();
    state.increment_cycle_count();
    proof {
        lemma_extends_self(old(state).constraints@);
    }
    Ok(())
}

/// The state in which the operations of an instruction begin: the program
/// counter of the instruction is recorded as the last one, a copy of the
/// instruction as the current one, and neither a branch nor a write of the
/// program counter; all else shows the same as before.
pub open spec fn began(before: GAState2, entered: GAState2, instruction: Instruction2) -> bool {
    &&& same_views(
        GAState2 {
            last_pc: before.memory.pc,
            current_instruction: entered.current_instruction,
            has_jumped: false,
            pc_written: false,
            ..before
        },
        entered,
    )
    &&& crate::state::alike_if_any(Some(instruction), entered.current_instruction)
}

/// What the execution of an instruction outside a conditional block does,
/// `ok` saying whether it succeeded: from the state in which it began (see
/// [`began`]), and without local values, its operations execute as
/// [`operations_done`] says; where one fails the instruction has failed
/// with nothing more done, and else it ends as [`instruction_finished`]
/// says.
pub open spec fn instruction_done(
    instruction: Instruction2,
    before: GAState2,
    after: GAState2,
    paths_before: DFSPathSelection,
    paths_after: DFSPathSelection,
    ok: bool,
) -> bool {
    before.instruction_conditions@.len() == 0 ==> exists|
        entered: GAState2,
        ran: GAState2,
        local_before: NameTable<Expr>,
        local_after: NameTable<Expr>,
        ok_ran: bool,
    |
        (#[trigger] operations_done(
            instruction.operations@,
            0,
            entered,
            ran,
            paths_before,
            paths_after,
            local_before,
            local_after,
            ok_ran,
        )) && began(before, entered, instruction) && local_before.entries() == Map::<
            Seq<char>,
            Expr,
        >::empty() && if ok_ran {
            instruction_finished(ran, after, instruction, ok)
        } else {
            !ok && after == ran
        }
}

/// What going on inside an instruction does, `ok` saying whether it
/// succeeded: the operations from the recorded position on execute with the
/// recorded local values as [`operations_done`] says; where one fails
/// nothing more is done, and else the instruction ends as
/// [`instruction_finished`] says.
pub open spec fn instruction_continued(
    cursor: ContinueInsideInstruction2,
    before: GAState2,
    after: GAState2,
    paths_before: DFSPathSelection,
    paths_after: DFSPathSelection,
    ok: bool,
) -> bool {
    exists|ran: GAState2, local_after: NameTable<Expr>, ok_ran: bool|
        (#[trigger] operations_done(
            cursor.instruction.operations@,
            cursor.index as int,
            before,
            ran,
            paths_before,
            paths_after,
            cursor.local,
            local_after,
            ok_ran,
        )) && if ok_ran {
            instruction_finished(ran, after, cursor.instruction, ok)
        } else {
            !ok && after == ran
        }
}

/// Begins the execution of an instruction: the program counter of the
/// instruction is recorded as the last one and the instruction as the
/// current one. Inside a conditional block the next condition of the queue
/// decides, as a guard (see [`branch`]), whether the operations execute; a
/// sibling that the guard forks off goes on behind the last operation.
/// Returns whether the operations execute.
pub fn enter_instruction<'a, S: SmtSolver>(
    state: &mut GAState2<'a>,
    paths: &mut DFSPathSelection<'a>,
    solver: &mut S,
    instruction: &Instruction2,
) -> (r: Result<bool, PathResult>)
    requires
        old(state).wf(),
    ensures
        proceeds(*old(state), *final(state)),
        paths_grow(*old(paths), *final(paths)),
        final(state).cycle_count == old(state).cycle_count,
        final(state).count_cycles == old(state).count_cycles,
        final(state).instruction_counter == old(state).instruction_counter,
        final(state).last_pc == old(state).memory.pc,
        final(state).memory.pc == old(state).memory.pc,
        !final(state).has_jumped,
        !final(state).pc_written,
        r matches Err(end) ==> end is AssumptionUnsat || end is Failure,
        old(state).instruction_conditions@.len() == 0 ==> r == Ok::<bool, PathResult>(true)
            && began(*old(state), *final(state), *instruction) && *final(paths) == *old(paths),
{
    proof {
        lemma_steps_start(*old(state));
        lemma_extends_self(old(paths).paths@);
        lemma_extends_self(old(state).constraints@);
    }
    state.last_pc = state.memory.pc;
    state.current_instruction = Some(instruction.clone());
    state.reset_has_jumped();
    state.pc_written = false;
    let ghost entered = *state;
    proof {
        assert(proceeds(*old(state), entered));
    }
    let guard: Option<Expr> = state.get_next_instruction_condition_expression();
    let ghost guarded = *state;
    proof {
        assert(proceeds(*old(state), guarded));
    }
    match guard {
        Some(guard) => {
            let local: NameTable<Expr> = NameTable::new();
            let r = branch(state, paths, solver, &guard, instruction.operations.len(), &local);
            proof {
                lemma_steps_chain(*old(state), guarded, *state);
            }
            r
        },
        None => Ok(true),
    }
}

/// Executes one instruction from its first operation on.
///
/// The instruction begins as [`enter_instruction`] says. Then the
/// operations execute in their order (see [`run_operations`]) and the
/// instruction ends as [`finish_instruction`] says. The cycle count never
/// goes down, and the path condition only grows. Outside a conditional
/// block the outcome is exact: see [`instruction_done`].
pub fn execute_instruction<'a, S: SmtSolver>(
    state: &mut GAState2<'a>,
    paths: &mut DFSPathSelection<'a>,
    solver: &mut S,
    config: &Config,
    instruction: Instruction2,
) -> (r: Result<(), PathResult>)
    requires
        old(state).wf(),
    ensures
        proceeds(*old(state), *final(state)),
        paths_grow(*old(paths), *final(paths)),
        final(state).cycle_count >= old(state).cycle_count,
        final(state).count_cycles == old(state).count_cycles,
        r matches Err(end) ==> end is AssumptionUnsat || end is Failure,
        r is Ok ==> {
            &&& final(state).last_pc == old(state).memory.pc
            &&& final(state).last_instruction == Some(instruction)
            &&& final(state).current_instruction is None
            &&& final(state).instruction_counter == (if old(state).instruction_counter
                < usize::MAX {
                old(state).instruction_counter + 1
            } else {
                old(state).instruction_counter as int
            })
            &&& final(state).cycle_count == cycles_after(
                GAState2 { has_jumped: final(state).has_jumped, ..*old(state) },
                instruction.max_cycle,
            )
            &&& !final(state).pc_written ==> final(state).memory.pc == old(state).memory.pc
                + instruction.instruction_size / 8
        },
        instruction_done(
            instruction,
            *old(state),
            *final(state),
            *old(paths),
            *final(paths),
            r is Ok,
        ),
{
    let should_run: bool = match enter_instruction(state, paths, solver, &instruction) {
        Ok(should_run) => should_run,
        Err(end) => {
            return Err(end);
        },
    };
    let ghost entered = *state;
    let ghost paths_entered = *paths;
    let mut local: NameTable<Expr> = NameTable::new();
    let ghost local_entered = local;
    if should_run {
        let r = run_operations(state, paths, solver, config, &instruction, 0, &mut local);
        proof {
            lemma_steps_chain(*old(state), entered, *state);
            lemma_extends_chain(paths.paths@, paths_entered.paths@, old(paths).paths@);
        }
        if r.is_err() {
            proof {
                if old(state).instruction_conditions@.len() == 0 {
                    assert(operations_done(
                        instruction.operations@,
                        0,
                        entered,
                        *state,
                        *old(paths),
                        *paths,
                        local_entered,
                        local,
                        false,
                    ));
                }
            }
            return r;
        }
    }
    let ghost ran = *state;
    let ghost local_ran = local;
    let r = finish_instruction(state, instruction);
    proof {
        lemma_steps_chain(*old(state), ran, *state);
        if old(state).instruction_conditions@.len() == 0 {
            assert(operations_done(
                instruction.operations@,
                0,
                entered,
                ran,
                *old(paths),
                *paths,
                local_entered,
                local_ran,
                true,
            ));
        }
    }
    r
}

/// Goes on inside an instruction where a fork left it: see
/// [`instruction_continued`].
pub fn continue_executing_instruction<'a, S: SmtSolver>(
    state: &mut GAState2<'a>,
    paths: &mut DFSPathSelection<'a>,
    solver: &mut S,
    config: &Config,
    cursor: ContinueInsideInstruction2,
) -> (r: Result<(), PathResult>)
    requires
        old(state).wf(),
        local_wf(cursor.local),
    ensures
        proceeds(*old(state), *final(state)),
        paths_grow(*old(paths), *final(paths)),
        final(state).cycle_count >= old(state).cycle_count,
        final(state).count_cycles == old(state).count_cycles,
        r matches Err(end) ==> end is AssumptionUnsat || end is Failure,
        instruction_continued(
            cursor,
            *old(state),
            *final(state),
            *old(paths),
            *final(paths),
            r is Ok,
        ),
{
    let mut local: NameTable<Expr> = cursor.local;
    let r = run_operations(
        state,
        paths,
        solver,
        config,
        &cursor.instruction,
        cursor.index,
        &mut local,
    );
    if r.is_err() {
        proof {
            assert(operations_done(
                cursor.instruction.operations@,
                cursor.index as int,
                *old(state),
                *state,
                *old(paths),
                *paths,
                cursor.local,
                local,
                false,
            ));
        }
        return r;
    }
    let ghost ran = *state;
    let ghost local_ran = local;
    let r = finish_instruction(state, cursor.instruction);
    proof {
        lemma_steps_chain(*old(state), ran, *state);
        assert(operations_done(
            cursor.instruction.operations@,
            cursor.index as int,
            *old(state),
            ran,
            *old(paths),
            *paths,
            cursor.local,
            local_ran,
            true,
        ));
    }
    r
}

/// What the values of the solver do to a path is the same from every
/// state that shows the same.
pub proof fn lemma_pc_resolved_same(
    a: GAState2,
    b: GAState2,
    after: GAState2,
    waiting: Seq<Path>,
    waiting_after: Seq<Path>,
    limit: usize,
    value: Expr,
    index: usize,
    local: NameTable<Expr>,
    solutions: Solutions,
    r: Result<(), PathResult>,
)
    requires
        same_views(a, b),
        pc_resolved(b, after, waiting, waiting_after, limit, value, index, local, solutions, r),
    ensures
        pc_resolved(a, after, waiting, waiting_after, limit, value, index, local, solutions, r),
{
    if let Solutions::Exactly(values) = solutions {
        if r is Ok {
            assert forall|i: int| 1 <= i < values@.len() implies (#[trigger] waiting_after[waiting.len()
                + i - 1]).constraints@.len() == 0 && pc_sibling(
                waiting_after[waiting.len() + i - 1].state,
                a,
                index,
                local,
                value,
                values@[i],
            ) by {
                assert(pc_sibling(
                    waiting_after[waiting.len() + i - 1].state,
                    b,
                    index,
                    local,
                    value,
                    values@[i],
                ));
            }
        }
    }
}

/// What the return to the caller does where LR has a value and no read
/// hook. Where the value is a constant, the program counter takes it, as
/// written by the instruction under execution, and nothing else changes.
/// Where it is open, either the solver fails, and nothing changes, or the
/// path goes on as [`pc_resolved`] says for the values that the solver gave
/// for it, with at most `limit` of them resolved and siblings that go on
/// with the next fetch.
pub open spec fn returned(
    before: GAState2,
    after: GAState2,
    waiting: Seq<Path>,
    waiting_after: Seq<Path>,
    limit: usize,
    r: Result<(), PathResult>,
) -> bool {
    register_settled(before, "LR"@) matches Some(lr) ==> if lr is Const {
        r is Ok && after.memory.pc == lr->value && after.memory.same_but_pc(before.memory)
            && after.same_but_memory(GAState2 { pc_written: true, ..before }) && waiting_after
            == waiting
    } else {
        (solver_failed(r) && pc_kept(before, after, waiting, waiting_after)) || (exists|
            solutions: Solutions,
            local: NameTable<Expr>,
        | #[trigger]
            pc_resolved(before, after, waiting, waiting_after, limit, lr, 0, local, solutions, r)
                && local.entries() == Map::<Seq<char>, Expr>::empty())
    }
}

/// Returns to the caller: the program counter takes the value of LR (see
/// [`write_pc`]).
pub fn return_to_caller<'a, S: SmtSolver>(
    state: &mut GAState2<'a>,
    paths: &mut DFSPathSelection<'a>,
    solver: &mut S,
    config: &Config,
) -> (r: Result<(), PathResult>)
    requires
        old(state).wf(),
    ensures
        stays_inside(*old(state), *final(state)),
        paths_grow(*old(paths), *final(paths)),
        final(state).memory.ram.stores@ == old(state).memory.ram.stores@,
        r matches Err(end) ==> end is AssumptionUnsat || end is Failure,
        returned(
            *old(state),
            *final(state),
            old(paths).paths@,
            final(paths).paths@,
            config.max_pc_resolutions,
            r,
        ),
{
    proof {
        lemma_extends_self(old(paths).paths@);
        reveal_strlit("LR");
        reveal_strlit("PC");
        assert("LR"@[0] != "PC"@[0]);
        let registers = old(state).memory.registers();
        if registers.contains_key("LR"@) {
            assert(registers.insert("LR"@, registers["LR"@]) =~= registers);
        }
    }
    let lr: Expr = match state.get_register("LR".to_owned()) {
        Ok(lr) => lr,
        Err(e) => {
            proof {
                lemma_memory_step(*old(state), *state);
            }
            return Err(failure(&e));
        },
    };
    let ghost middle = *state;
    proof {
        lemma_memory_step(*old(state), middle);
    }
    let local: NameTable<Expr> = NameTable::new();
    let r = write_pc(state, paths, solver, config, lr, 0, &local);
    proof {
        lemma_steps_chain(*old(state), middle, *state);
        if register_settled(*old(state), "LR"@) is Some && !(lr is Const) && !solver_failed(r) {
            let solutions = choose|solutions: Solutions| #[trigger]
                pc_resolved(
                    middle,
                    *state,
                    old(paths).paths@,
                    paths.paths@,
                    config.max_pc_resolutions,
                    lr,
                    0,
                    local,
                    solutions,
                    r,
                );
            lemma_pc_resolved_same(
                *old(state),
                middle,
                *state,
                old(paths).paths@,
                paths.paths@,
                config.max_pc_resolutions,
                lr,
                0,
                local,
                solutions,
                r,
            );
        }
    }
    r
}

/// The end of a path on which an intrinsic was called with arguments that
/// it cannot work on.
pub fn bad_intrinsic_call() -> (r: PathResult)
    ensures
        r matches PathResult::Failure(text) && text@ == "intrinsic called with unusable arguments"@,
{
    PathResult::Failure("intrinsic called with unusable arguments".to_owned())
}

/// What making memory symbolic does where R0 and R1 have values and no
/// read hooks: it succeeds where R1 is a constant from one to the number
/// whose eightfold a `u32` holds, another label can be given, and memory
/// takes a value of that many bytes at the address in R0. Then one fresh
/// unconstrained value of that many bytes, labelled `any_` and the number of
/// labels given before, is written at that address and joins the inputs of
/// the path, and one more label counts as given. Else nothing is written.
/// Either way nothing but memory and the number of labels changes: the path
/// condition is as it was, so that nothing is known of the fresh value.
pub open spec fn made_symbolic(before: GAState2, after: GAState2, ok: bool) -> bool {
    (register_settled(before, "R0"@) is Some && register_settled(before, "R1"@) is Some) ==> {
        let pointer = register_settled(before, "R0"@).unwrap();
        let size = register_settled(before, "R1"@).unwrap();
        let ram = before.memory.ram;
        &&& after.same_but_memory(GAState2 { any_counter: after.any_counter, ..before })
        &&& if size is Const && 1 <= size->value <= u32::MAX / 8 && before.any_counter < u64::MAX
            && pointer.width() == before.memory.word_size {
            &&& ok
            &&& after.any_counter == before.any_counter + 1
            &&& after.memory.same_but_ram(
                BoolectorMemory { inputs: after.memory.inputs, ..before.memory },
            )
            &&& exists|fresh: Expr|
                (#[trigger] is_fresh(fresh, before.any_counter, (8 * size->value) as u32))
                    && after.memory.ram.stores@ == spec_write(
                    ram.stores@,
                    ram.ptr_size,
                    ram.endianness,
                    pointer,
                    fresh,
                ) && after.memory.inputs@ == before.memory.inputs@.push(fresh)
        } else {
            !ok && after.memory.ram.stores@ == ram.stores@ && after.memory.inputs@
                == before.memory.inputs@
        }
    }
}

/// The expression is the unconstrained value of `width` bits with the
/// label `any_` and `counter`.
pub open spec fn is_fresh(fresh: Expr, counter: u64, width: u32) -> bool {
    fresh matches Expr::Symbol { name, width: w } && name@ == "any"@ + "_"@
        + crate::text::decimal(counter as nat) && w == width
}

/// Makes the bytes that R0 points at symbolic: R1 holds their number, which
/// must be a constant from one to the number whose eightfold a `u32`
/// holds; that many bytes at the address in R0 become one fresh
/// unconstrained value, labelled `any_` and a number. The path fails where
/// R1 is no such constant or memory does not take the write.
pub fn make_symbolic(state: &mut GAState2) -> (r: Result<(), PathResult>)
    requires
        old(state).wf(),
    ensures
        stays_inside(
            GAState2 { any_counter: final(state).any_counter, ..*old(state) },
            *final(state),
        ),
        final(state).any_counter >= old(state).any_counter,
        final(state).memory.pc == old(state).memory.pc,
        r matches Err(end) ==> end is Failure,
        made_symbolic(*old(state), *final(state), r is Ok),
{
    proof {
        reveal_strlit("R0");
        reveal_strlit("R1");
        reveal_strlit("PC");
        assert("R0"@[0] != "PC"@[0]);
        assert("R1"@[0] != "PC"@[0]);
        assert("R0"@[1] != "R1"@[1]);
        let registers = old(state).memory.registers();
        if registers.contains_key("R0"@) {
            assert(registers.insert("R0"@, registers["R0"@]) =~= registers);
        }
        if registers.contains_key("R1"@) {
            assert(registers.insert("R1"@, registers["R1"@]) =~= registers);
        }
    }
    let value_ptr: Expr = match state.get_register("R0".to_owned()) {
        Ok(value) => value,
        Err(e) => {
            proof {
                lemma_memory_step(*old(state), *state);
            }
            return Err(failure(&e));
        },
    };
    let size: Expr = match state.get_register("R1".to_owned()) {
        Ok(value) => value,
        Err(e) => {
            proof {
                lemma_memory_step(*old(state), *state);
            }
            return Err(failure(&e));
        },
    };
    proof {
        lemma_memory_step(*old(state), *state);
    }
    let bytes: u64 = match size.get_constant() {
        Some(bytes) => bytes,
        None => {
            return Err(bad_intrinsic_call());
        },
    };
    if bytes == 0 || bytes > (u32::MAX / 8) as u64 {
        return Err(bad_intrinsic_call());
    }
    let bits: u32 = (bytes * 8) as u32;
    let ghost read = *state;
    let name: String = match state.label_new_symbolic("any") {
        Some(name) => name,
        None => {
            return Err(bad_intrinsic_call());
        },
    };
    let symb_value: Expr = state.memory.unconstrained(name.as_str(), bits);
    let ghost labelled = *state;
    proof {
        lemma_memory_step(
            GAState2 { any_counter: labelled.any_counter, ..*old(state) },
            labelled,
        );
    }
    let ghost fresh = symb_value;
    let input: Expr = symb_value.clone();
    let written = state.memory.set(&value_ptr, symb_value);
    if written.is_ok() {
        state.memory.inputs.push(input);
    }
    proof {
        lemma_memory_step(GAState2 { any_counter: state.any_counter, ..*old(state) }, *state);
        assert(is_fresh(fresh, old(state).any_counter, bits));
        if register_settled(*old(state), "R0"@) is Some && register_settled(
            *old(state),
            "R1"@,
        ) is Some {
            assert(value_ptr == register_settled(*old(state), "R0"@).unwrap());
            assert(size == register_settled(*old(state), "R1"@).unwrap());
            assert(labelled.memory.ram.stores@ == old(state).memory.ram.stores@);
            assert(fresh.width() == bits);
            if written is Ok {
                assert(state.memory.ram.stores@ == spec_write(
                    old(state).memory.ram.stores@,
                    old(state).memory.ram.ptr_size,
                    old(state).memory.ram.endianness,
                    value_ptr,
                    fresh,
                ));
                assert(state.memory.same_but_ram(
                    BoolectorMemory { inputs: state.memory.inputs, ..old(state).memory },
                ));
                assert(state.memory.inputs@ == old(state).memory.inputs@.push(fresh));
                assert(state.any_counter == old(state).any_counter + 1);
                assert(size is Const);
                assert(1 <= size->value <= u32::MAX / 8);
                assert(old(state).any_counter < u64::MAX);
                assert(value_ptr.width() == old(state).memory.word_size);
                assert((8 * size->value) as u32 == bits);
            } else {
                assert(state.memory.ram.stores@ == old(state).memory.ram.stores@);
                assert(value_ptr.width() != old(state).memory.word_size);
            }
            assert(made_symbolic(*old(state), *state, written is Ok));
        }
    }
    match written {
        Ok(_) => Ok(()),
        Err(e) => Err(failure(&GAError::MemoryError(e))),
    }
}

/// What an intrinsic does. The two for the cycle count set the count to
/// zero, or stop the counting, and return to the caller: see [`returned`].
/// The one that makes memory symbolic either fails with nothing written, or
/// goes through a state in which the memory is written as
/// [`made_symbolic`] says, with all else but the number of labels as
/// before, and returns to the caller from there.
pub open spec fn intrinsic_done(
    before: GAState2,
    after: GAState2,
    waiting: Seq<Path>,
    waiting_after: Seq<Path>,
    limit: usize,
    intrinsic: Intrinsic,
    r: Result<(), PathResult>,
) -> bool {
    match intrinsic {
        Intrinsic::StartCycleCount => returned(
            GAState2 { cycle_count: 0, ..before },
            after,
            waiting,
            waiting_after,
            limit,
            r,
        ),
        Intrinsic::EndCycleCount => returned(
            GAState2 { count_cycles: false, ..before },
            after,
            waiting,
            waiting_after,
            limit,
            r,
        ),
        Intrinsic::SymbolicSize => (r is Err && made_symbolic(before, after, false)
            && waiting_after == waiting) || (exists|written: GAState2| #[trigger]
            made_symbolic(before, written, true) && stays_inside(
                GAState2 { any_counter: written.any_counter, ..before },
                written,
            ) && written.memory.pc == before.memory.pc && returned(
                written,
                after,
                waiting,
                waiting_after,
                limit,
                r,
            )),
    }
}

/// Executes an intrinsic: see [`Intrinsic`] and [`intrinsic_done`].
pub fn run_intrinsic<'a, S: SmtSolver>(
    state: &mut GAState2<'a>,
    paths: &mut DFSPathSelection<'a>,
    solver: &mut S,
    config: &Config,
    intrinsic: Intrinsic,
) -> (r: Result<(), PathResult>)
    requires
        old(state).wf(),
    ensures
        proceeds(*old(state), *final(state)),
        paths_grow(*old(paths), *final(paths)),
        final(state).instruction_counter == old(state).instruction_counter,
        r matches Err(end) ==> end is AssumptionUnsat || end is Failure,
        match intrinsic {
            Intrinsic::StartCycleCount => final(state).cycle_count == 0 && final(state).count_cycles
                == old(state).count_cycles && final(state).memory.ram.stores@
                == old(state).memory.ram.stores@,
            Intrinsic::EndCycleCount => !final(state).count_cycles && final(state).cycle_count
                == old(state).cycle_count && final(state).memory.ram.stores@
                    == old(state).memory.ram.stores@,
            Intrinsic::SymbolicSize => final(state).cycle_count == old(state).cycle_count
                && final(state).count_cycles == old(state).count_cycles,
        },
        intrinsic_done(
            *old(state),
            *final(state),
            old(paths).paths@,
            final(paths).paths@,
            config.max_pc_resolutions,
            intrinsic,
            r,
        ),
{
    proof {
        lemma_steps_start(*old(state));
        lemma_extends_self(old(paths).paths@);
    }
    match intrinsic {
        Intrinsic::StartCycleCount => {
            state.cycle_count = 0;
        },
        Intrinsic::EndCycleCount => {
            // Stop counting.
            state.count_cycles = false;
        },
        Intrinsic::SymbolicSize => {
            let made = make_symbolic(state);
            if made.is_err() {
                proof {
                    lemma_extends_self(old(state).constraints@);
                }
                return made;
            }
        },
    }
    let ghost done = *state;
    proof {
        lemma_extends_self(old(state).constraints@);
        assert(proceeds(*old(state), done));
    }
    // Jump back to where the function was called from.
    let r = return_to_caller(state, paths, solver, config);
    proof {
        lemma_steps_chain(*old(state), done, *state);
        if intrinsic is SymbolicSize {
            assert(made_symbolic(*old(state), done, true));
        }
    }
    r
}

/// The end of a path that used up its budget of instructions and hooks.
pub fn budget_exceeded() -> (r: PathResult)
    ensures
        r matches PathResult::Failure(text) && text@ == "iteration budget exceeded"@,
{
    PathResult::Failure("iteration budget exceeded".to_owned())
}

/// What the hook at the program counter of `state` is, if there is one and
/// the state is not inside an instruction.
pub open spec fn hook_ahead(state: GAState2) -> Option<PCHook2> {
    let pc = state.memory.pc & !1u64;
    if state.continue_in_instruction is None && state.hooks.pc_hooks().contains_key(pc) {
        Some(state.hooks.pc_hooks()[pc])
    } else {
        None
    }
}

/// Whether the hook ends the path.
pub open spec fn ends_path(hook: Option<PCHook2>) -> bool {
    match hook {
        Some(PCHook2::EndSuccess) | Some(PCHook2::EndFailure(_)) | Some(PCHook2::Suppress) => true,
        _ => false,
    }
}

/// The end that a hook which ends a path gives it.
pub open spec fn ended_as(hook: PCHook2, end: PathResult) -> bool {
    match hook {
        PCHook2::EndSuccess => end == PathResult::Success(None),
        PCHook2::EndFailure(text) => end matches PathResult::Failure(said) && said@ == text@,
        PCHook2::Suppress => end == PathResult::Suppress,
        _ => false,
    }
}

/// The path ended for want of budget, with nothing changed.
pub open spec fn out_of_budget(
    before: GAState2,
    after: GAState2,
    waiting: DFSPathSelection,
    waiting_after: DFSPathSelection,
    r: Result<(), PathResult>,
) -> bool {
    &&& after == before
    &&& waiting_after.paths@ == waiting.paths@
    &&& r matches Err(PathResult::Failure(text)) && text@ == "iteration budget exceeded"@
}

/// What the execution of an instruction from its first operation on does:
/// what [`execute_instruction`] promises.
pub open spec fn executed(
    instruction: Instruction2,
    before: GAState2,
    after: GAState2,
    waiting: DFSPathSelection,
    waiting_after: DFSPathSelection,
    r: Result<(), PathResult>,
) -> bool {
    &&& after.cycle_count >= before.cycle_count
    &&& after.count_cycles == before.count_cycles
    &&& r matches Err(end) ==> end is AssumptionUnsat || end is Failure
    &&& r is Ok ==> {
        &&& after.last_pc == before.memory.pc
        &&& after.last_instruction == Some(instruction)
        &&& after.current_instruction is None
        &&& after.instruction_counter == (if before.instruction_counter < usize::MAX {
            before.instruction_counter + 1
        } else {
            before.instruction_counter as int
        })
        &&& after.cycle_count == cycles_after(
            GAState2 { has_jumped: after.has_jumped, ..before },
            instruction.max_cycle,
        )
        &&& !after.pc_written ==> after.memory.pc == before.memory.pc + instruction.instruction_size
            / 8
    }
    &&& instruction_done(instruction, before, after, waiting, waiting_after, r is Ok)
}

/// What one step of a path does with what was fetched, where `steps` steps
/// were made before.
///
/// An error of the fetch ends the path as a failure with the reason of the
/// error, and a hook that ends the path ends it as [`ended_as`] says;
/// nothing changes then. Anything else needs budget: the path fails where
/// as many steps were made as the configuration allows, and before an
/// instruction also where as many instructions were executed. With budget
/// left, `Continue` returns to the caller (see [`returned`]), an intrinsic
/// executes (see [`intrinsic_done`]), and an instruction executes (see
/// [`executed`]).
pub open spec fn stepped(
    before: GAState2,
    after: GAState2,
    waiting: DFSPathSelection,
    waiting_after: DFSPathSelection,
    config: Config,
    fetched: Result<HookOrInstruction2, GAError>,
    steps: usize,
    r: Result<(), PathResult>,
) -> bool {
    match fetched {
        Err(e) => after == before && waiting_after.paths@ == waiting.paths@ && (r matches Err(
            PathResult::Failure(text),
        ) && text@ == reason(e)),
        Ok(HookOrInstruction2::PcHook(hook)) => match *hook {
            PCHook2::Continue => if steps < config.max_iter_count {
                returned(
                    before,
                    after,
                    waiting.paths@,
                    waiting_after.paths@,
                    config.max_pc_resolutions,
                    r,
                )
            } else {
                out_of_budget(before, after, waiting, waiting_after, r)
            },
            PCHook2::Intrinsic(intrinsic) => if steps < config.max_iter_count {
                intrinsic_done(
                    before,
                    after,
                    waiting.paths@,
                    waiting_after.paths@,
                    config.max_pc_resolutions,
                    intrinsic,
                    r,
                )
            } else {
                out_of_budget(before, after, waiting, waiting_after, r)
            },
            ending => after == before && waiting_after.paths@ == waiting.paths@ && (r matches Err(
                end,
            ) && ended_as(ending, end)),
        },
        Ok(HookOrInstruction2::Instruction(instruction)) => if steps < config.max_iter_count
            && before.instruction_counter < config.max_iter_count {
            executed(instruction, before, after, waiting, waiting_after, r)
        } else {
            out_of_budget(before, after, waiting, waiting_after, r)
        },
    }
}

/// Makes one step of a path with what was fetched at its program counter:
/// see [`stepped`]. The path goes on where the result is `Ok`.
pub fn step<'a, S: SmtSolver>(
    state: &mut GAState2<'a>,
    paths: &mut DFSPathSelection<'a>,
    solver: &mut S,
    config: &Config,
    fetched: Result<HookOrInstruction2<'a>, GAError>,
    steps: usize,
) -> (r: Result<(), PathResult>)
    requires
        old(state).wf(),
    ensures
        proceeds(*old(state), *final(state)),
        paths_grow(*old(paths), *final(paths)),
        r is Ok ==> steps < config.max_iter_count,
        stepped(*old(state), *final(state), *old(paths), *final(paths), *config, fetched, steps, r),
{
    proof {
        lemma_steps_start(*old(state));
        lemma_extends_self(old(paths).paths@);
    }
    match fetched {
        Err(e) => Err(failure(&e)),
        Ok(HookOrInstruction2::PcHook(hook)) => match *hook {
            PCHook2::EndSuccess => Err(PathResult::Success(None)),
            PCHook2::EndFailure(reason) => Err(PathResult::Failure(reason.to_owned())),
            PCHook2::Suppress => Err(PathResult::Suppress),
            PCHook2::Continue => {
                if steps >= config.max_iter_count {
                    return Err(budget_exceeded());
                }
                let r = return_to_caller(state, paths, solver, config);
                proof {
                    lemma_memory_step(*old(state), *old(state));
                }
                r
            },
            PCHook2::Intrinsic(intrinsic) => {
                if steps >= config.max_iter_count {
                    return Err(budget_exceeded());
                }
                run_intrinsic(state, paths, solver, config, intrinsic)
            },
        },
        Ok(HookOrInstruction2::Instruction(instruction)) => {
            if steps >= config.max_iter_count || state.instruction_counter
                >= config.max_iter_count {
                return Err(budget_exceeded());
            }
            execute_instruction(state, paths, solver, config, instruction)
        },
    }
}

/// The state of a path that is taken up again where a fork left it inside
/// an instruction: the place inside the instruction is taken from it.
pub open spec fn taken_up(state: GAState2) -> GAState2 {
    GAState2 { continue_in_instruction: None, ..state }
}

/// A path that is not inside an instruction runs from `before`, with
/// `steps` steps made, to its end `r` in `after`: something is fetched at
/// its program counter (see [`fetched_at`]) and a step is made with it (see
/// [`stepped`]); where the step ends the path, that is its end, and else
/// the path runs on from there with one step more made.
pub open spec fn runs(
    before: GAState2,
    after: GAState2,
    waiting: DFSPathSelection,
    waiting_after: DFSPathSelection,
    config: Config,
    steps: usize,
    r: PathResult,
) -> bool
    decreases config.max_iter_count - steps,
{
    exists|
        fetched: Result<HookOrInstruction2, GAError>,
        next: GAState2,
        waiting_next: DFSPathSelection,
        made: Result<(), PathResult>,
    |
        #![trigger stepped(before, next, waiting, waiting_next, config, fetched, steps, made)]
        fetched_at(before, fetched) && stepped(
            before,
            next,
            waiting,
            waiting_next,
            config,
            fetched,
            steps,
            made,
        ) && (match made {
            Err(end) => r == end && after == next && waiting_after == waiting_next,
            Ok(_) => steps < config.max_iter_count && runs(
                next,
                after,
                waiting_next,
                waiting_after,
                config,
                (steps + 1) as usize,
                r,
            ),
        })
}

/// A path runs from `before` to its end `r` in `after`. A path that a fork
/// left inside an instruction first goes on inside it (see
/// [`instruction_continued`]); where that ends the path, it has ended
/// there. From there, and at once where the path is inside no instruction,
/// it runs as [`runs`] says.
pub open spec fn resumed(
    before: GAState2,
    after: GAState2,
    waiting: DFSPathSelection,
    waiting_after: DFSPathSelection,
    config: Config,
    r: PathResult,
) -> bool {
    match before.continue_in_instruction {
        None => runs(before, after, waiting, waiting_after, config, 0, r),
        Some(cursor) => exists|left: GAState2, waiting_left: DFSPathSelection, ok: bool|
            #![trigger instruction_continued(
                cursor,
                taken_up(before),
                left,
                waiting,
                waiting_left,
                ok,
            )]
            instruction_continued(cursor, taken_up(before), left, waiting, waiting_left, ok)
                && if ok {
                runs(left, after, waiting_left, waiting_after, config, 0, r)
            } else {
                after == left && waiting_after == waiting_left && (r is AssumptionUnsat
                    || r is Failure)
            },
    }
}

/// Runs the path to its end.
///
/// A path that a fork left inside an instruction first finishes that
/// instruction. Then, again and again, what stands at the program counter
/// is fetched and one step is made with it, as [`step`] says, until a step
/// ends the path: a hook ends it (`EndSuccess`, `EndFailure`, `Suppress`),
/// an error ends it as a failure with the reason of the error, and a path
/// that has executed as many instructions, or made as many steps, as the
/// configuration allows fails: see [`runs`].
///
/// The path condition only grows, and the waiting paths only become more.
/// A path that stands at a hook that ends it, such as the one at the
/// address that LR held at the start, ends at once with nothing executed
/// and nothing changed, whatever the budget. So does, as a failure, a path
/// that stands where neither a hook nor the image is, and a path without
/// budget that stands at no hook that ends it.
#[verifier::loop_isolation(false)]
pub fn resume_execution<'a, A: Arch, S: SmtSolver>(
    state: &mut GAState2<'a>,
    paths: &mut DFSPathSelection<'a>,
    arch: &A,
    solver: &mut S,
    config: &Config,
) -> (r: PathResult)
    requires
        old(state).wf(),
    ensures
        proceeds(*old(state), *final(state)),
        paths_grow(*old(paths), *final(paths)),
        hook_ahead(*old(state)) matches Some(hook) ==> ends_path(Some(hook)) ==> ended_as(hook, r)
            && *final(state) == *old(state) && final(paths).paths@ == old(paths).paths@,
        old(state).continue_in_instruction is None && hook_ahead(*old(state)) is None
            && !old(state).project.in_range(old(state).memory.pc & !1u64) ==> (
        r matches PathResult::Failure(text) && text@ == reason(
            GAError::MemoryError(MemoryError::OutOfBounds),
        )) && *final(state) == *old(state) && final(paths).paths@ == old(paths).paths@,
        old(state).continue_in_instruction is None && config.max_iter_count == 0 && !ends_path(
            hook_ahead(*old(state)),
        ) ==> r is Failure && *final(state) == *old(state) && final(paths).paths@ == old(
            paths,
        ).paths@,
        resumed(*old(state), *final(state), *old(paths), *final(paths), *config, r),
{
    proof {
        lemma_steps_start(*old(state));
        lemma_extends_self(old(paths).paths@);
    }
    if let Some(cursor) = state.continue_in_instruction.take() {
        let ghost taken = *state;
        proof {
            lemma_extends_self(old(state).constraints@);
            assert(proceeds(*old(state), taken));
        }
        let ghost place = cursor;
        let r = continue_executing_instruction(state, paths, solver, config, cursor);
        proof {
            lemma_steps_chain(*old(state), taken, *state);
            assert(taken == taken_up(*old(state)));
            assert(instruction_continued(place, taken, *state, *old(paths), *paths, r is Ok));
        }
        if let Err(end) = r {
            return end;
        }
    }
    let ghost start = *state;
    let ghost waiting_start = *paths;
    let mut steps: usize = 0;
    while steps <= config.max_iter_count
        invariant
            state.wf(),
            proceeds(*old(state), *state),
            paths_grow(*old(paths), *paths),
            steps <= config.max_iter_count,
            steps == 0 && old(state).continue_in_instruction is None ==> *state == *old(state)
                && paths.paths@ == old(paths).paths@,
            steps > 0 ==> !ends_path(hook_ahead(*old(state))),
            steps > 0 && old(state).continue_in_instruction is None ==> hook_ahead(*old(state))
                is Some || old(state).project.in_range(old(state).memory.pc & !1u64),
            old(state).continue_in_instruction is None ==> start == *old(state) && waiting_start
                == *old(paths),
            old(state).continue_in_instruction matches Some(cursor) ==> instruction_continued(
                cursor,
                taken_up(*old(state)),
                start,
                *old(paths),
                waiting_start,
                true,
            ),
            forall|after: GAState2, waiting_after: DFSPathSelection, end: PathResult| #[trigger]
                runs(*state, after, *paths, waiting_after, *config, steps, end) ==> runs(
                    start,
                    after,
                    waiting_start,
                    waiting_after,
                    *config,
                    0,
                    end,
                ),
        decreases config.max_iter_count - steps,
    {
        let ghost before = *state;
        let ghost paths_before = *paths;
        let next = state.get_next_instruction(arch);
        let ghost fetched = next;
        let made = step(state, paths, solver, config, next, steps);
        proof {
            lemma_steps_chain(*old(state), before, *state);
            lemma_extends_chain(paths.paths@, paths_before.paths@, old(paths).paths@);
            assert(stepped(before, *state, paths_before, *paths, *config, fetched, steps, made));
        }
        if let Err(end) = made {
            proof {
                assert(runs(before, *state, paths_before, *paths, *config, steps, end));
            }
            return end;
        }
        proof {
            let reached = *state;
            let waiting_reached = *paths;
            assert forall|after: GAState2, waiting_after: DFSPathSelection, end: PathResult| #[trigger]
                runs(
                    reached,
                    after,
                    waiting_reached,
                    waiting_after,
                    *config,
                    (steps + 1) as usize,
                    end,
                ) implies runs(start, after, waiting_start, waiting_after, *config, 0, end) by {
                assert(stepped(
                    before,
                    reached,
                    paths_before,
                    waiting_reached,
                    *config,
                    fetched,
                    steps,
                    made,
                ));
                assert(runs(before, after, paths_before, waiting_after, *config, steps, end));
            }
        }
        steps = steps + 1;
    }
    budget_exceeded()
}

} // verus!
