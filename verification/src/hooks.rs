//! Hooks on program counters, registers and memory addresses.
//!
//! A hook is a value that names what happens in place of the ordinary
//! access or instruction. The container keeps five tables of them; the
//! [`Reader`] and the [`Writer`] decide for one access whether memory
//! answers it or which hooks do, and in which order.

use vstd::prelude::*;
use crate::collections::{AddressTable, NameTable};
use crate::dwarf_helper::SubProgramMap;
use crate::error::{GAError, MemoryError};
use crate::expr::Expr;
use crate::general::DataWord;
use crate::memory::BoolectorMemory;
use crate::pattern::{regex_compiles, regex_is_match};

verus! {

/// What the engine does by itself in place of a called function.
#[derive(Debug, Clone, Copy, PartialEq, Eq, Structural)]
pub enum Intrinsic {
    /// The cycle count starts again at zero; execution returns to the
    /// caller.
    StartCycleCount,
    /// Cycles are counted no longer; execution returns to the caller.
    EndCycleCount,
    /// R0 holds an address and R1 a number of bytes: that many bytes at
    /// that address become one fresh unconstrained value; execution
    /// returns to the caller.
    SymbolicSize,
}

/// What happens where the program counter reaches a hooked address.
#[derive(Debug, Clone, Copy, PartialEq, Eq)]
pub enum PCHook2 {
    Continue,
    EndSuccess,
    EndFailure(&'static str),
    Intrinsic(Intrinsic),
    Suppress,
}

/// What a read of a hooked register yields.
#[derive(Debug, PartialEq, Eq)]
pub enum RegisterReadHook {
    /// The value of `register` plus `offset`.
    Offset { register: String, offset: u64 },
}

/// What a write to a hooked register does.
#[derive(Debug, PartialEq, Eq)]
pub enum RegisterWriteHook {
    /// The value goes to `register`.
    Redirect { register: String },
}

/// What a read of a hooked address yields.
#[derive(Debug, Clone, Copy, PartialEq, Eq, Structural)]
pub enum MemoryReadHook {
    /// The given constant.
    Constant(DataWord),
    /// What memory holds.
    Load,
}

/// What a write to a hooked address does.
#[derive(Debug, Clone, Copy, PartialEq, Eq, Structural)]
pub enum MemoryWriteHook {
    /// Nothing: the value is dropped.
    Discard,
    /// The value goes to memory.
    Store,
}

/// Either the result of an access or the hooks that stand in for it.
#[derive(Debug)]
pub enum ResultOrHook<A, B> {
    Result(A),
    Hook(B),
    Hooks(Vec<B>),
}

/// A memory hook for every address from `lower` to `upper`, both included.
#[derive(Debug, PartialEq, Eq)]
pub struct RangeHook<H> {
    pub lower: u64,
    pub upper: u64,
    pub hook: H,
}

/// The hooks of a run.
#[derive(Debug)]
pub struct HookContainer {
    pub register_read_hook: NameTable<RegisterReadHook>,
    pub register_write_hook: NameTable<RegisterWriteHook>,
    pub pc_hook: AddressTable<PCHook2>,
    pub single_memory_read_hook: AddressTable<MemoryReadHook>,
    pub single_memory_write_hook: AddressTable<MemoryWriteHook>,
    pub range_memory_read_hook: Vec<RangeHook<MemoryReadHook>>,
    pub range_memory_write_hook: Vec<RangeHook<MemoryWriteHook>>,
}

/// Decides what answers a read.
pub struct Reader<'a> {
    pub container: &'a HookContainer,
}

/// Decides what takes a write.
pub struct Writer<'a> {
    pub container: &'a HookContainer,
}

impl Clone for RegisterReadHook {
    fn clone(&self) -> (r: Self)
        ensures
            r == *self,
    {
        match self {
            RegisterReadHook::Offset { register, offset } => RegisterReadHook::Offset {
                register: register.clone(),
                offset: *offset,
            },
        }
    }
}

impl Clone for RegisterWriteHook {
    fn clone(&self) -> (r: Self)
        ensures
            r == *self,
    {
        match self {
            RegisterWriteHook::Redirect { register } => RegisterWriteHook::Redirect {
                register: register.clone(),
            },
        }
    }
}

/// The hooks of the ranges that hold `addr`, in the order of the ranges.
pub open spec fn hooks_in_range<H>(ranges: Seq<RangeHook<H>>, addr: u64) -> Seq<H>
    decreases ranges.len(),
{
    if ranges.len() == 0 {
        Seq::empty()
    } else if ranges.last().lower <= addr <= ranges.last().upper {
        hooks_in_range(ranges.drop_last(), addr).push(ranges.last().hook)
    } else {
        hooks_in_range(ranges.drop_last(), addr)
    }
}

/// The hooks that stand in for an access at the constant address `addr`:
/// those of the ranges that hold it, in their order, and after them the
/// hook of the address itself, if there is one.
pub open spec fn hooks_at<H>(single: Map<u64, H>, ranges: Seq<RangeHook<H>>, addr: u64) -> Seq<H> {
    if single.contains_key(addr) {
        hooks_in_range(ranges, addr).push(single[addr])
    } else {
        hooks_in_range(ranges, addr)
    }
}

/// Hook precedence: where an address has a hook of its own and lies in
/// hooked ranges too, the hook of the address comes last, after the hook of
/// every such range.
pub proof fn lemma_single_hook_comes_last<H>(
    single: Map<u64, H>,
    ranges: Seq<RangeHook<H>>,
    addr: u64,
)
    requires
        single.contains_key(addr),
    ensures
        hooks_at(single, ranges, addr).len() == hooks_in_range(ranges, addr).len() + 1,
        hooks_at(single, ranges, addr).last() == single[addr],
        hooks_at(single, ranges, addr).drop_last() == hooks_in_range(ranges, addr),
{
    assert(hooks_at(single, ranges, addr).drop_last() =~= hooks_in_range(ranges, addr));
}

/// The hooks of the ranges that hold `addr`, in the order of the ranges.
pub fn collect_range_hooks<H: Copy>(ranges: &Vec<RangeHook<H>>, addr: u64) -> (r: Vec<H>)
    ensures
        r@ == hooks_in_range(ranges@, addr),
{
    let mut found: Vec<H> = Vec::new();
    let mut i: usize = 0;
    while i < ranges.len()
        invariant
            0 <= i <= ranges@.len(),
            found@ == hooks_in_range(ranges@.take(i as int), addr),
        decreases ranges@.len() - i,
    {
        proof {
            let next = ranges@.take(i + 1);
            assert(next.drop_last() =~= ranges@.take(i as int));
            assert(next.last() == ranges@[i as int]);
        }
        if ranges[i].lower <= addr && addr <= ranges[i].upper {
            found.push(ranges[i].hook);
        }
        i = i + 1;
    }
    assert(ranges@.take(i as int) =~= ranges@);
    found
}

/// The pattern is a regular expression, and the hook is installed at the
/// start of a subprogram whose name the pattern matches.
pub open spec fn hooked(
    before: Map<u64, PCHook2>,
    after: Map<u64, PCHook2>,
    map: SubProgramMap,
    pattern: Seq<char>,
    hook: PCHook2,
) -> bool {
    regex_compiles(pattern) && exists|name: Seq<char>|
        #![trigger map.by_name().contains_key(name)]
        map.by_name().contains_key(name) && regex_is_match(pattern, name) && after
            == before.insert(map.by_name()[name].bounds.0, hook)
}

/// The pattern is a regular expression that matches the name of a
/// subprogram.
pub open spec fn resolvable(map: SubProgramMap, pattern: Seq<char>) -> bool {
    regex_compiles(pattern) && exists|name: Seq<char>|
        #![trigger map.by_name().contains_key(name)]
        map.by_name().contains_key(name) && regex_is_match(pattern, name)
}

/// The hooks that every run starts with, each with the pattern for the
/// name of the function that it stands in for.
pub open spec fn default_hooks() -> Seq<(Seq<char>, PCHook2)> {
    seq![
        ("^panic.*$"@, PCHook2::EndFailure("panic")),
        ("^panic_cold_explicit$"@, PCHook2::EndFailure("explicit panic")),
        ("^unwrap_failed$"@, PCHook2::EndFailure("unwrap failed")),
        ("^panic_bounds_check$"@, PCHook2::EndFailure("bounds check failed")),
        (
            "^unreachable_unchecked$"@,
            PCHook2::EndFailure("reached a unreachable unchecked call undefined behavior"),
        ),
        ("^suppress_path$"@, PCHook2::Suppress),
        ("^start_cyclecount$"@, PCHook2::Intrinsic(Intrinsic::StartCycleCount)),
        ("^end_cyclecount$"@, PCHook2::Intrinsic(Intrinsic::EndCycleCount)),
    ]
}

/// The tables of program-counter hooks after each of the first `upto`
/// default hooks was installed, beginning with the table `start`.
pub open spec fn installed(
    start: Map<u64, PCHook2>,
    stages: Seq<Map<u64, PCHook2>>,
    map: SubProgramMap,
    upto: int,
) -> bool {
    &&& stages.len() == upto + 1
    &&& stages[0] == start
    &&& forall|i: int|
        0 <= i < upto ==> hooked(
            #[trigger] stages[i],
            stages[i + 1],
            map,
            default_hooks()[i].0,
            default_hooks()[i].1,
        )
}

/// The container holds the hooks that every run starts with, installed
/// over the subprograms of `map` in their order, and no others.
pub open spec fn holds_defaults(hooks: HookContainer, map: SubProgramMap) -> bool {
    hooks.wf() && hooks.only_pc_hooks() && exists|stages: Seq<Map<u64, PCHook2>>|
        #![trigger installed(Map::<u64, PCHook2>::empty(), stages, map, 8)]
        installed(Map::<u64, PCHook2>::empty(), stages, map, 8) && stages[8] == hooks.pc_hooks()
}

/// The hooks that every run starts with were installed in `before` over
/// the subprograms of `map`, in their order, and nothing else has changed.
pub open spec fn defaults_added(
    before: HookContainer,
    after: HookContainer,
    map: SubProgramMap,
) -> bool {
    after.wf() && after.same_but_pc_hooks(before) && exists|stages: Seq<Map<u64, PCHook2>>|
        #![trigger installed(before.pc_hooks(), stages, map, 8)]
        installed(before.pc_hooks(), stages, map, 8) && stages[8] == after.pc_hooks()
}

impl HookContainer {
    /// Every table points at hooks that exist.
    pub open spec fn wf(self) -> bool {
        &&& self.register_read_hook.wf()
        &&& self.register_write_hook.wf()
        &&& self.pc_hook.wf()
        &&& self.single_memory_read_hook.wf()
        &&& self.single_memory_write_hook.wf()
    }

    /// The hook of each hooked program counter.
    pub open spec fn pc_hooks(self) -> Map<u64, PCHook2> {
        self.pc_hook.entries()
    }

    /// The two containers hold the same hooks but for those on program
    /// counters.
    pub open spec fn same_but_pc_hooks(self, other: Self) -> bool {
        &&& self.register_read_hook.entries() == other.register_read_hook.entries()
        &&& self.register_write_hook.entries() == other.register_write_hook.entries()
        &&& self.single_memory_read_hook.entries() == other.single_memory_read_hook.entries()
        &&& self.single_memory_write_hook.entries() == other.single_memory_write_hook.entries()
        &&& self.range_memory_read_hook@ == other.range_memory_read_hook@
        &&& self.range_memory_write_hook@ == other.range_memory_write_hook@
    }

    /// The container holds no hook but those on program counters.
    pub open spec fn only_pc_hooks(self) -> bool {
        &&& self.register_read_hook.entries() == Map::<Seq<char>, RegisterReadHook>::empty()
        &&& self.register_write_hook.entries() == Map::<Seq<char>, RegisterWriteHook>::empty()
        &&& self.single_memory_read_hook.entries() == Map::<u64, MemoryReadHook>::empty()
        &&& self.single_memory_write_hook.entries() == Map::<u64, MemoryWriteHook>::empty()
        &&& self.range_memory_read_hook@.len() == 0
        &&& self.range_memory_write_hook@.len() == 0
    }

    /// A container without hooks.
    pub fn new() -> (r: Self)
        ensures
            r.wf(),
            r.only_pc_hooks(),
            r.pc_hooks() == Map::<u64, PCHook2>::empty(),
    {
        HookContainer {
            register_read_hook: NameTable::new(),
            register_write_hook: NameTable::new(),
            pc_hook: AddressTable::new(),
            single_memory_read_hook: AddressTable::new(),
            single_memory_write_hook: AddressTable::new(),
            range_memory_read_hook: Vec::new(),
            range_memory_write_hook: Vec::new(),
        }
    }

    /// Adds a PC hook to the executor.
    ///
    /// If a hook already exists for this address it will be overwritten.
    pub fn add_pc_hook(&mut self, pc: u64, value: PCHook2)
        requires
            old(self).wf(),
        ensures
            final(self).wf(),
            final(self).pc_hooks() == old(self).pc_hooks().insert(pc, value),
            final(self).same_but_pc_hooks(*old(self)),
    {
        self.pc_hook.insert(pc, value);
    }

    /// Adds a register read hook to the executor.
    ///
    /// If a hook already exists for this register it will be overwritten.
    pub fn add_register_read_hook(&mut self, register: String, hook: RegisterReadHook)
        requires
            old(self).wf(),
        ensures
            final(self).wf(),
            final(self).register_read_hook.entries()
                == old(self).register_read_hook.entries().insert(register@, hook),
            final(self).register_write_hook.entries() == old(self).register_write_hook.entries(),
            final(self).pc_hooks() == old(self).pc_hooks(),
            final(self).single_memory_read_hook.entries()
                == old(self).single_memory_read_hook.entries(),
            final(self).single_memory_write_hook.entries()
                == old(self).single_memory_write_hook.entries(),
            final(self).range_memory_read_hook@ == old(self).range_memory_read_hook@,
            final(self).range_memory_write_hook@ == old(self).range_memory_write_hook@,
    {
        self.register_read_hook.insert(register, hook);
    }

    /// Adds a register write hook to the executor.
    ///
    /// If a hook already exists for this register it will be overwritten.
    pub fn add_register_write_hook(&mut self, register: String, hook: RegisterWriteHook)
        requires
            old(self).wf(),
        ensures
            final(self).wf(),
            final(self).register_write_hook.entries()
                == old(self).register_write_hook.entries().insert(register@, hook),
            final(self).register_read_hook.entries() == old(self).register_read_hook.entries(),
            final(self).pc_hooks() == old(self).pc_hooks(),
            final(self).single_memory_read_hook.entries()
                == old(self).single_memory_read_hook.entries(),
            final(self).single_memory_write_hook.entries()
                == old(self).single_memory_write_hook.entries(),
            final(self).range_memory_read_hook@ == old(self).range_memory_read_hook@,
            final(self).range_memory_write_hook@ == old(self).range_memory_write_hook@,
    {
        self.register_write_hook.insert(register, hook);
    }

    /// Adds a memory read hook to the executor.
    ///
    /// If a hook already exists for this address it will be overwritten.
    pub fn add_memory_read_hook(&mut self, address: u64, hook: MemoryReadHook)
        requires
            old(self).wf(),
        ensures
            final(self).wf(),
            final(self).single_memory_read_hook.entries()
                == old(self).single_memory_read_hook.entries().insert(address, hook),
            final(self).register_read_hook.entries() == old(self).register_read_hook.entries(),
            final(self).register_write_hook.entries() == old(self).register_write_hook.entries(),
            final(self).pc_hooks() == old(self).pc_hooks(),
            final(self).single_memory_write_hook.entries()
                == old(self).single_memory_write_hook.entries(),
            final(self).range_memory_read_hook@ == old(self).range_memory_read_hook@,
            final(self).range_memory_write_hook@ == old(self).range_memory_write_hook@,
    {
        self.single_memory_read_hook.insert(address, hook);
    }

    /// Adds a memory write hook to the executor.
    ///
    /// If a hook already exists for this address it will be overwritten.
    pub fn add_memory_write_hook(&mut self, address: u64, hook: MemoryWriteHook)
        requires
            old(self).wf(),
        ensures
            final(self).wf(),
            final(self).single_memory_write_hook.entries()
                == old(self).single_memory_write_hook.entries().insert(address, hook),
            final(self).register_read_hook.entries() == old(self).register_read_hook.entries(),
            final(self).register_write_hook.entries() == old(self).register_write_hook.entries(),
            final(self).pc_hooks() == old(self).pc_hooks(),
            final(self).single_memory_read_hook.entries()
                == old(self).single_memory_read_hook.entries(),
            final(self).range_memory_read_hook@ == old(self).range_memory_read_hook@,
            final(self).range_memory_write_hook@ == old(self).range_memory_write_hook@,
    {
        self.single_memory_write_hook.insert(address, hook);
    }

    /// Adds a range memory read hook to the executor.
    ///
    /// If any address in this range is read it will trigger this hook.
    pub fn add_range_memory_read_hook(&mut self, bounds: (u64, u64), hook: MemoryReadHook)
        requires
            old(self).wf(),
        ensures
            final(self).wf(),
            final(self).range_memory_read_hook@ == old(self).range_memory_read_hook@.push(
                RangeHook { lower: bounds.0, upper: bounds.1, hook },
            ),
            final(self).register_read_hook.entries() == old(self).register_read_hook.entries(),
            final(self).register_write_hook.entries() == old(self).register_write_hook.entries(),
            final(self).pc_hooks() == old(self).pc_hooks(),
            final(self).single_memory_read_hook.entries()
                == old(self).single_memory_read_hook.entries(),
            final(self).single_memory_write_hook.entries()
                == old(self).single_memory_write_hook.entries(),
            final(self).range_memory_write_hook@ == old(self).range_memory_write_hook@,
    {
        self.range_memory_read_hook.push(RangeHook { lower: bounds.0, upper: bounds.1, hook });
    }

    /// Adds a range memory write hook to the executor.
    ///
    /// If any address in this range is written it will trigger this hook.
    pub fn add_range_memory_write_hook(&mut self, bounds: (u64, u64), hook: MemoryWriteHook)
        requires
            old(self).wf(),
        ensures
            final(self).wf(),
            final(self).range_memory_write_hook@ == old(self).range_memory_write_hook@.push(
                RangeHook { lower: bounds.0, upper: bounds.1, hook },
            ),
            final(self).register_read_hook.entries() == old(self).register_read_hook.entries(),
            final(self).register_write_hook.entries() == old(self).register_write_hook.entries(),
            final(self).pc_hooks() == old(self).pc_hooks(),
            final(self).single_memory_read_hook.entries()
                == old(self).single_memory_read_hook.entries(),
            final(self).single_memory_write_hook.entries()
                == old(self).single_memory_write_hook.entries(),
            final(self).range_memory_read_hook@ == old(self).range_memory_read_hook@,
    {
        self.range_memory_write_hook.push(RangeHook { lower: bounds.0, upper: bounds.1, hook });
    }

    /// Adds a pc hook at the start of a subprogram whose name the pattern
    /// matches. Fails with `EntryFunctionNotFound`, which holds the
    /// pattern, and adds nothing, where the pattern matches no name or is no
    /// valid regular expression.
    pub fn add_pc_hook_regex(&mut self, map: &SubProgramMap, pattern: &str, hook: PCHook2) -> (r:
        Result<(), GAError>)
        requires
            old(self).wf(),
            map.wf(),
        ensures
            final(self).wf(),
            final(self).same_but_pc_hooks(*old(self)),
            match r {
                Ok(_) => hooked(
                    old(self).pc_hooks(),
                    final(self).pc_hooks(),
                    *map,
                    pattern@,
                    hook,
                ),
                Err(e) => !resolvable(*map, pattern@) && final(self).pc_hooks()
                    == old(self).pc_hooks()
                    && (e matches GAError::EntryFunctionNotFound(p) && p@ == pattern@),
            },
    {
        let start: u64 = match map.get_by_regex(pattern) {
            Some(program) => program.bounds.0,
            None => {
                return Err(GAError::EntryFunctionNotFound(pattern.to_owned()));
            },
        };
        self.add_pc_hook(start, hook);
        Ok(())
    }

    /// Adds the hooks that every run starts with to the hooks of this
    /// container: see [`default_hooks`]. Fails with the first pattern that
    /// matches no subprogram; the hooks before it are added then.
    pub fn add_defaults(&mut self, map: &SubProgramMap) -> (r: Result<(), GAError>)
        requires
            old(self).wf(),
            map.wf(),
        ensures
            final(self).wf(),
            final(self).same_but_pc_hooks(*old(self)),
            match r {
                Ok(_) => defaults_added(*old(self), *final(self), *map),
                Err(e) => exists|i: int|
                    #![trigger default_hooks()[i]]
                    0 <= i < 8 && !resolvable(*map, default_hooks()[i].0) && (forall|j: int|
                        0 <= j < i ==> resolvable(*map, (#[trigger] default_hooks()[j]).0)) && (e
                        matches GAError::EntryFunctionNotFound(p) && p@ == default_hooks()[i].0),
            },
    {
        let mut list: Vec<(&'static str, PCHook2)> = Vec::new();
        list.push(("^panic.*$", PCHook2::EndFailure("panic")));
        list.push(("^panic_cold_explicit$", PCHook2::EndFailure("explicit panic")));
        list.push(("^unwrap_failed$", PCHook2::EndFailure("unwrap failed")));
        list.push(("^panic_bounds_check$", PCHook2::EndFailure("bounds check failed")));
        list.push(
            (
                "^unreachable_unchecked$",
                PCHook2::EndFailure("reached a unreachable unchecked call undefined behavior"),
            ),
        );
        list.push(("^suppress_path$", PCHook2::Suppress));
        list.push(("^start_cyclecount$", PCHook2::Intrinsic(Intrinsic::StartCycleCount)));
        list.push(("^end_cyclecount$", PCHook2::Intrinsic(Intrinsic::EndCycleCount)));
        let ghost mut stages: Seq<Map<u64, PCHook2>> = seq![self.pc_hooks()];
        let mut i: usize = 0;
        while i < list.len()
            invariant
                map.wf(),
                self.wf(),
                self.same_but_pc_hooks(*old(self)),
                list@.len() == 8,
                0 <= i <= 8,
                forall|k: int|
                    0 <= k < 8 ==> (#[trigger] list@[k]).0@ == default_hooks()[k].0 && list@[k].1
                        == default_hooks()[k].1,
                installed(old(self).pc_hooks(), stages, *map, i as int),
                stages[i as int] == self.pc_hooks(),
                forall|j: int| 0 <= j < i ==> resolvable(*map, (#[trigger] default_hooks()[j]).0),
            decreases 8 - i,
        {
            let ghost before = self.pc_hooks();
            match self.add_pc_hook_regex(map, list[i].0, list[i].1) {
                Ok(_) => {},
                Err(e) => {
                    assert(default_hooks()[i as int].0 == list@[i as int].0@);
                    return Err(e);
                },
            }
            proof {
                let ghost earlier = stages;
                stages = stages.push(self.pc_hooks());
                assert(hooked(
                    before,
                    self.pc_hooks(),
                    *map,
                    default_hooks()[i as int].0,
                    default_hooks()[i as int].1,
                ));
                assert(resolvable(*map, default_hooks()[i as int].0));
                assert forall|k: int| 0 <= k < i + 1 implies hooked(
                    #[trigger] stages[k],
                    stages[k + 1],
                    *map,
                    default_hooks()[k].0,
                    default_hooks()[k].1,
                ) by {
                    if k < i {
                        assert(stages[k] == earlier[k]);
                        assert(stages[k + 1] == earlier[k + 1]);
                    }
                }
            }
            i = i + 1;
        }
        Ok(())
    }

    /// The hooks of a run that has no hooks of its own. Fails with the
    /// first pattern of [`default_hooks`] that matches no subprogram.
    pub fn default(map: &SubProgramMap) -> (r: Result<Self, GAError>)
        requires
            map.wf(),
        ensures
            match r {
                Ok(hooks) => holds_defaults(hooks, *map),
                Err(e) => exists|i: int|
                    #![trigger default_hooks()[i]]
                    0 <= i < 8 && !resolvable(*map, default_hooks()[i].0) && (forall|j: int|
                        0 <= j < i ==> resolvable(*map, (#[trigger] default_hooks()[j]).0)) && (e
                        matches GAError::EntryFunctionNotFound(p) && p@ == default_hooks()[i].0),
            },
    {
        let mut ret = Self::new();
        match ret.add_defaults(map) {
            Ok(_) => Ok(ret),
            Err(e) => Err(e),
        }
    }

    /// The reader over the hooks of this container.
    pub fn reader<'a>(&'a self) -> (r: Reader<'a>)
        ensures
            r.container == self,
    {
        Reader { container: self }
    }

    /// The writer over the hooks of this container.
    pub fn writer<'a>(&'a self) -> (r: Writer<'a>)
        ensures
            r.container == self,
    {
        Writer { container: self }
    }

    /// The hook at the program counter `value`, or `value` itself where
    /// there is none.
    pub fn get_pc_hooks(&self, value: u64) -> (r: ResultOrHook<u64, &PCHook2>)
        requires
            self.wf(),
        ensures
            match r {
                ResultOrHook::Hook(hook) => self.pc_hooks().contains_key(value) && *hook
                    == self.pc_hooks()[value],
                ResultOrHook::Result(pc) => !self.pc_hooks().contains_key(value) && pc
                    == value,
                ResultOrHook::Hooks(_) => false,
            },
    {
        if let Some(pchook) = self.pc_hook.get(value) {
            return ResultOrHook::Hook(pchook);
        }
        ResultOrHook::Result(value)
    }
}

impl<'a> Reader<'a> {
    /// Decides what answers a read of `size` bits at `addr`: memory where
    /// the address is symbolic or no hook applies, and else the hooks that
    /// apply, those of ranges first and the hook of the address last.
    pub fn read_memory(&self, memory: &BoolectorMemory, addr: &Expr, size: u32) -> (r:
        ResultOrHook<Result<Expr, MemoryError>, MemoryReadHook>)
        requires
            self.container.wf(),
            memory.wf(),
            addr.wf(),
        ensures
            match r {
                ResultOrHook::Result(read) => read == memory.spec_get(*addr, size) && (read
                    matches Ok(e) ==> e.wf() && e.width() == size) && (
                addr.spec_get_constant() matches Some(caddr) ==> hooks_at(
                    self.container.single_memory_read_hook.entries(),
                    self.container.range_memory_read_hook@,
                    caddr,
                ).len() == 0),
                ResultOrHook::Hooks(hooks) => hooks@.len() > 0 && (
                addr.spec_get_constant() matches Some(caddr) && hooks@ == hooks_at(
                    self.container.single_memory_read_hook.entries(),
                    self.container.range_memory_read_hook@,
                    caddr,
                )),
                ResultOrHook::Hook(_) => false,
            },
    {
        let caddr: u64 = match addr.get_constant() {
            Some(caddr) => caddr,
            None => {
                return ResultOrHook::Result(memory.get(addr, size));
            },
        };
        let mut ret: Vec<MemoryReadHook> = collect_range_hooks(
            &self.container.range_memory_read_hook,
            caddr,
        );
        if let Some(hook) = self.container.single_memory_read_hook.get(caddr) {
            ret.push(*hook);
            return ResultOrHook::Hooks(ret);
        }
        if ret.len() > 0 {
            return ResultOrHook::Hooks(ret);
        }
        ResultOrHook::Result(memory.get(addr, size))
    }

    /// Decides what answers a read of the register `id`: its hook where it
    /// has one, and else the register file.
    pub fn read_register(&self, memory: &mut BoolectorMemory, id: &str) -> (r: ResultOrHook<
        Result<Expr, MemoryError>,
        RegisterReadHook,
    >)
        requires
            self.container.wf(),
            old(memory).wf(),
        ensures
            final(memory).wf(),
            final(memory).same_but_registers(*old(memory)),
            match r {
                ResultOrHook::Hook(hook) => self.container.register_read_hook.entries().contains_key(
                    id@,
                ) && hook == self.container.register_read_hook.entries()[id@]
                    && final(memory).registers() == old(memory).registers(),
                ResultOrHook::Result(read) => !self.container.register_read_hook.entries().contains_key(
                    id@,
                ) && (read matches Ok(e) && e.wf() && e == crate::memory::recorded_or(
                    old(memory).registers(),
                    id@,
                    e,
                ) && final(memory).registers() == old(memory).registers().insert(id@, e) && (
                !old(memory).registers().contains_key(id@) ==> (e matches Expr::Symbol {
                    name,
                    width,
                } && name@ == id@ && width == old(memory).word_size))),
                ResultOrHook::Hooks(_) => false,
            },
    {
        if let Some(hook) = self.container.register_read_hook.get(id) {
            return ResultOrHook::Hook(hook.clone());
        }
        ResultOrHook::Result(memory.get_register(id))
    }

    /// The program counter.
    pub fn read_pc(&self, memory: &BoolectorMemory) -> (r: Result<Expr, MemoryError>)
        requires
            memory.wf(),
        ensures
            r == Ok::<Expr, MemoryError>(Expr::spec_from_u64(memory.pc, memory.word_size)),
    {
        memory.get_pc()
    }
}

impl<'a> Writer<'a> {
    /// Decides what takes a write of `value` at `addr`: memory where the
    /// address is symbolic or no hook applies, and else the hooks that
    /// apply, those of ranges first and the hook of the address last.
    /// Memory changes only in the first case.
    pub fn write_memory(&self, memory: &mut BoolectorMemory, addr: &Expr, value: Expr) -> (r:
        ResultOrHook<Result<(), MemoryError>, MemoryWriteHook>)
        requires
            self.container.wf(),
            old(memory).wf(),
            addr.wf(),
            value.wf(),
        ensures
            final(memory).wf(),
            final(memory).same_but_ram(*old(memory)),
            match r {
                ResultOrHook::Result(written) => (addr.spec_get_constant() matches Some(caddr)
                    ==> hooks_at(
                    self.container.single_memory_write_hook.entries(),
                    self.container.range_memory_write_hook@,
                    caddr,
                ).len() == 0) && (match written {
                    Ok(_) => crate::array_memory::access_ok(
                        old(memory).word_size,
                        *addr,
                        value.width() as u32,
                    ) && final(memory).ram.stores@ == crate::array_memory::spec_write(
                        old(memory).ram.stores@,
                        old(memory).ram.ptr_size,
                        old(memory).ram.endianness,
                        *addr,
                        value,
                    ),
                    Err(e) => e == MemoryError::InconsistentWidth
                        && !crate::array_memory::access_ok(
                        old(memory).word_size,
                        *addr,
                        value.width() as u32,
                    ) && final(memory).ram.stores@ == old(memory).ram.stores@,
                }),
                ResultOrHook::Hooks(hooks) => hooks@.len() > 0 && final(memory).ram.stores@
                    == old(memory).ram.stores@
                    && (addr.spec_get_constant() matches Some(caddr) && hooks@
                    == hooks_at(
                    self.container.single_memory_write_hook.entries(),
                    self.container.range_memory_write_hook@,
                    caddr,
                )),
                ResultOrHook::Hook(_) => false,
            },
    {
        let caddr: u64 = match addr.get_constant() {
            Some(caddr) => caddr,
            None => {
                return ResultOrHook::Result(memory.set(addr, value));
            },
        };
        let mut ret: Vec<MemoryWriteHook> = collect_range_hooks(
            &self.container.range_memory_write_hook,
            caddr,
        );
        if let Some(hook) = self.container.single_memory_write_hook.get(caddr) {
            ret.push(*hook);
            return ResultOrHook::Hooks(ret);
        }
        if ret.len() > 0 {
            return ResultOrHook::Hooks(ret);
        }
        ResultOrHook::Result(memory.set(addr, value))
    }

    /// Decides what takes a write of `value` to the register `id`: its hook
    /// where it has one, and else the register file.
    pub fn write_register(&self, memory: &mut BoolectorMemory, id: &str, value: &Expr) -> (r:
        ResultOrHook<Result<(), MemoryError>, RegisterWriteHook>)
        requires
            self.container.wf(),
            old(memory).wf(),
            value.wf(),
        ensures
            final(memory).wf(),
            final(memory).same_but_registers(*old(memory)),
            match r {
                ResultOrHook::Hook(hook) => self.container.register_write_hook.entries().contains_key(
                    id@,
                ) && hook == self.container.register_write_hook.entries()[id@]
                    && final(memory).registers() == old(memory).registers(),
                ResultOrHook::Result(written) => !self.container.register_write_hook.entries().contains_key(
                    id@,
                ) && written is Ok && final(memory).registers()
                    == old(memory).registers().insert(id@, *value),
                ResultOrHook::Hooks(_) => false,
            },
    {
        if let Some(hook) = self.container.register_write_hook.get(id) {
            return ResultOrHook::Hook(hook.clone());
        }
        ResultOrHook::Result(memory.set_register(id, value.clone()))
    }

    /// Sets the program counter.
    pub fn write_pc(&self, memory: &mut BoolectorMemory, value: u64) -> (r: Result<
        (),
        MemoryError,
    >)
        requires
            old(memory).wf(),
        ensures
            r is Ok,
            final(memory).wf(),
            final(memory).pc == value,
            final(memory).same_but_pc(*old(memory)),
    {
        memory.set_pc(value)
    }
}

} // verus!
