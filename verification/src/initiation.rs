//! Puts a run together, step by step: the binary, the architecture, the
//! solver, and from them the manager.

use vstd::prelude::*;
use crate::arm::{arm_hooks_added, BinaryInfo, Hookable, SupportedArchitechture};
use crate::debug_data::DebugEntry;
use crate::dwarf_helper::{
    lemma_pattern_names_entry,
    pattern_names_entry,
    readable,
    SubProgramMap,
};
use crate::error::{GAError, ProjectError};
use crate::executor::SmtSolver;
use crate::general::{Endianness, WordSize};
use crate::hooks::{default_hooks, holds_defaults, resolvable, HookContainer};
use crate::logging::Logger;
use crate::manager::SymexArbiter;
use crate::project::Project;

verus! {

/// Whether an architecture was chosen.
pub trait ArchOverride {

}

/// Whether a solver was chosen.
pub trait SmtSolverConfigured {

}

/// Whether a binary was loaded.
pub trait BinaryLoadingDone {

}

/// A solver was chosen.
pub struct SmtConfigured<Smt: SmtSolver> {
    pub smt: Smt,
}

/// No solver was chosen yet.
pub struct SmtNotConfigured;

/// What was read of a binary.
#[derive(Debug)]
pub struct LoadedBinary {
    /// What discovery looks at.
    pub info: BinaryInfo,
    pub is_little_endian: bool,
    pub word_size: WordSize,
    /// The symbols with their addresses, in the order of the symbol table.
    pub symbols: Vec<(String, u64)>,
    /// The bytes of the image, the first at `start_addr`.
    pub program_memory: Vec<u8>,
    pub start_addr: u64,
    /// The entries of the debugging information.
    pub entries: Vec<DebugEntry>,
}

/// A binary was loaded.
pub struct BinaryLoaded {
    pub object: LoadedBinary,
}

/// No binary was loaded yet.
pub struct BinaryNotLoaded;

/// No architecture was chosen: it is discovered from the binary.
#[derive(Debug, Clone, Copy)]
pub struct NoArchOverride;

/// A run while it is put together.
pub struct SymexConstructor<
    'str,
    Override: ArchOverride,
    Smt: SmtSolverConfigured,
    Binary: BinaryLoadingDone,
> {
    pub file: &'str str,
    pub override_arch: Override,
    pub smt: Smt,
    pub binary_file: Binary,
}

impl NoArchOverride {
    /// What stands for the architecture where none was chosen.
    pub fn to_string(&self) -> (r: String)
        ensures
            r@ == "Not overriding architecture"@,
    {
        "Not overriding architecture".to_owned()
    }
}

impl ArchOverride for SupportedArchitechture {

}

impl ArchOverride for NoArchOverride {

}

impl SmtSolverConfigured for SmtNotConfigured {

}

impl<S: SmtSolver> SmtSolverConfigured for SmtConfigured<S> {

}

impl BinaryLoadingDone for BinaryNotLoaded {

}

impl BinaryLoadingDone for BinaryLoaded {

}

impl<'str> SymexConstructor<'str, NoArchOverride, SmtNotConfigured, BinaryNotLoaded> {
    /// A run on the binary at `path`, with nothing chosen or loaded.
    pub fn new(path: &'str str) -> (r: Self)
        ensures
            r.file == path,
    {
        SymexConstructor {
            file: path,
            override_arch: NoArchOverride,
            smt: SmtNotConfigured,
            binary_file: BinaryNotLoaded,
        }
    }
}

impl<'str, S: SmtSolverConfigured, B: BinaryLoadingDone> SymexConstructor<
    'str,
    NoArchOverride,
    S,
    B,
> {
    /// Chooses the architecture, in place of its discovery.
    pub fn override_architecture(self, a: SupportedArchitechture) -> (r: SymexConstructor<
        'str,
        SupportedArchitechture,
        S,
        B,
    >)
        ensures
            r.file == self.file,
            r.override_arch == a,
            r.smt == self.smt,
            r.binary_file == self.binary_file,
    {
        SymexConstructor {
            file: self.file,
            override_arch: a,
            smt: self.smt,
            binary_file: self.binary_file,
        }
    }
}

impl<'str, A: ArchOverride, B: BinaryLoadingDone> SymexConstructor<'str, A, SmtNotConfigured, B> {
    /// Chooses the solver.
    pub fn configure_smt<S: SmtSolver>(self, smt: S) -> (r: SymexConstructor<
        'str,
        A,
        SmtConfigured<S>,
        B,
    >)
        ensures
            r.file == self.file,
            r.override_arch == self.override_arch,
            r.smt.smt == smt,
            r.binary_file == self.binary_file,
    {
        SymexConstructor {
            file: self.file,
            override_arch: self.override_arch,
            smt: SmtConfigured { smt },
            binary_file: self.binary_file,
        }
    }
}

impl<'str, A: ArchOverride, S: SmtSolverConfigured> SymexConstructor<'str, A, S, BinaryNotLoaded> {
    /// Takes what was read of the binary.
    pub fn load_binary(self, object: LoadedBinary) -> (r: SymexConstructor<
        'str,
        A,
        S,
        BinaryLoaded,
    >)
        ensures
            r.file == self.file,
            r.override_arch == self.override_arch,
            r.smt == self.smt,
            r.binary_file.object == object,
    {
        SymexConstructor {
            file: self.file,
            override_arch: self.override_arch,
            smt: self.smt,
            binary_file: BinaryLoaded { object },
        }
    }
}

impl<'str, S: SmtSolverConfigured> SymexConstructor<'str, NoArchOverride, S, BinaryLoaded> {
    /// Discovers the architecture of the binary. Fails with the
    /// architecture error that the discovery fails with.
    pub fn discover(self) -> (r: Result<
        SymexConstructor<'str, SupportedArchitechture, S, BinaryLoaded>,
        GAError,
    >)
        ensures
            match r {
                Ok(next) => next.file == self.file && next.smt == self.smt && next.binary_file
                    == self.binary_file && self.binary_file.object.info.is_arm
                    && self.binary_file.object.info.is_elf32
                    && self.binary_file.object.info.arm_attributes matches Some(Ok(_)),
                Err(e) => e is ArchError && !(self.binary_file.object.info.is_arm
                    && self.binary_file.object.info.is_elf32
                    && self.binary_file.object.info.arm_attributes matches Some(Ok(_))),
            },
    {
        let arch = match SupportedArchitechture::discover(&self.binary_file.object.info) {
            Ok(arch) => arch,
            Err(e) => {
                return Err(GAError::ArchError(e));
            },
        };
        Ok(
            SymexConstructor {
                file: self.file,
                override_arch: arch,
                smt: self.smt,
                binary_file: self.binary_file,
            },
        )
    }
}

/// The symbols of a binary as a map: of several symbols with one name the
/// last.
pub open spec fn symbol_map(symbols: Seq<(String, u64)>, upto: int) -> Map<Seq<char>, u64>
    decreases upto,
{
    if upto <= 0 || upto > symbols.len() {
        Map::empty()
    } else {
        symbol_map(symbols, upto - 1).insert(symbols[upto - 1].0@, symbols[upto - 1].1)
    }
}

impl<'str, S: SmtSolver> SymexConstructor<
    'str,
    SupportedArchitechture,
    SmtConfigured<S>,
    BinaryLoaded,
> {
    /// Puts the manager of the run together: the program image with the
    /// symbols of the binary, the subprograms that the debug entries
    /// describe, and the hooks: those that every run starts with (see
    /// [`holds_defaults`]) and, added to them, those of the architecture (see
    /// [`arm_hooks_added`]). The solver is handed back beside the manager.
    ///
    /// Fails with `EntryFunctionNotFound`, which holds the pattern, where
    /// one of the hooks that every run starts with finds no subprogram, and
    /// with `ProjectError` where the image would reach beyond the address
    /// space.
    pub fn compose<L: Logger>(self, logger: L) -> (r: Result<(SymexArbiter<L>, S), GAError>)
        requires
            forall|i: int|
                0 <= i < self.binary_file.object.entries@.len() ==> readable(
                    #[trigger] self.binary_file.object.entries@[i],
                ),
        ensures
            match r {
                Ok((arbiter, smt)) => {
                    let binary = self.binary_file.object;
                    &&& smt == self.smt.smt
                    &&& arbiter.wf()
                    &&& arbiter.logger == logger
                    &&& arbiter.project.program_memory == binary.program_memory
                    &&& arbiter.project.start_addr == binary.start_addr
                    &&& arbiter.project.word_size == binary.word_size
                    &&& arbiter.project.endianness == (if binary.is_little_endian {
                        Endianness::Little
                    } else {
                        Endianness::Big
                    })
                    &&& arbiter.project.symbols() == symbol_map(
                        binary.symbols@,
                        binary.symbols@.len() as int,
                    )
                    &&& crate::dwarf_helper::holds_entries(
                        arbiter.symbol_lookup,
                        binary.entries@,
                        binary.entries@.len() as int,
                    )
                    &&& forall|i: int|
                        0 <= i < 8 ==> pattern_names_entry(
                            binary.entries@,
                            (#[trigger] default_hooks()[i]).0,
                        )
                    &&& exists|defaults: HookContainer| #[trigger]
                        holds_defaults(defaults, arbiter.symbol_lookup) && arm_hooks_added(
                            defaults,
                            arbiter.hooks,
                            arbiter.symbol_lookup,
                        )
                },
                Err(GAError::EntryFunctionNotFound(pattern)) => exists|i: int|
                    #![trigger default_hooks()[i]]
                    0 <= i < 8 && pattern@ == default_hooks()[i].0 && !pattern_names_entry(
                        self.binary_file.object.entries@,
                        default_hooks()[i].0,
                    ) && forall|j: int|
                        0 <= j < i ==> pattern_names_entry(
                            self.binary_file.object.entries@,
                            (#[trigger] default_hooks()[j]).0,
                        ),
                Err(GAError::ProjectError(_)) => self.binary_file.object.start_addr
                    + self.binary_file.object.program_memory@.len() > u64::MAX,
                Err(_) => false,
            },
    {
        let binary: LoadedBinary = self.binary_file.object;
        let smt: S = self.smt.smt;
        let endianness: Endianness = if binary.is_little_endian {
            Endianness::Little
        } else {
            Endianness::Big
        };
        let map: SubProgramMap = SubProgramMap::new(&binary.entries);
        proof {
            assert forall|i: int| 0 <= i < 8 implies resolvable(
                map,
                (#[trigger] default_hooks()[i]).0,
            ) == pattern_names_entry(binary.entries@, default_hooks()[i].0) by {
                lemma_pattern_names_entry(map, binary.entries@, default_hooks()[i].0);
            }
        }
        let mut hooks: HookContainer = match HookContainer::default(&map) {
            Ok(hooks) => hooks,
            Err(e) => {
                return Err(e);
            },
        };
        let ghost defaults = hooks;
        self.override_arch.add_hooks(&mut hooks, &map);
        let mut project: Project = match Project::manual_project(
            binary.program_memory,
            binary.start_addr,
            binary.word_size,
            endianness,
        ) {
            Some(project) => project,
            None => {
                return Err(GAError::ProjectError(ProjectError::MalformedSection));
            },
        };
        let mut i: usize = 0;
        while i < binary.symbols.len()
            invariant
                0 <= i <= binary.symbols@.len(),
                project.wf(),
                project.program_memory == binary.program_memory,
                project.start_addr == binary.start_addr,
                project.word_size == binary.word_size,
                project.endianness == endianness,
                project.symbols() == symbol_map(binary.symbols@, i as int),
            decreases binary.symbols@.len() - i,
        {
            project.add_symbol(binary.symbols[i].0.clone(), binary.symbols[i].1);
            i = i + 1;
        }
        proof {
            assert(holds_defaults(defaults, map) && arm_hooks_added(defaults, hooks, map));
        }
        Ok((SymexArbiter::new(logger, project, hooks, map, self.override_arch), smt))
    }
}

} // verus!
