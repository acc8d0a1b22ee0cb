//! Reports of a run: regions of code and the logger that collects what
//! happens on each path.

use vstd::prelude::*;
use crate::executor::PathResult;
use crate::expr::Expr;
use crate::state::GAState2;
use crate::text::{decimal, push_str, u64_to_string};

verus! {

/// Denotes meta data regarding a region of code.
#[derive(Debug)]
pub struct RegionMetaData {
    /// Region label if any.
    pub name: Option<String>,
    /// Start value for delimiter.
    pub start: u64,
    /// End value for delimiter.
    pub end: u64,
    /// Typically delimited by PC.
    pub area_delimiter: String,
    /// The instructions contained in the region.
    pub instructions: Vec<String>,
    /// The execution times recorded in the region.
    pub execution_time: Vec<String>,
}

/// How a path ended, a text being known by its characters.
pub enum PathEnd {
    Success(Option<Expr>),
    Failure(Seq<char>),
    Suppress,
    AssumptionUnsat,
}

/// How a path with this result ended.
pub open spec fn end_of(result: PathResult) -> PathEnd {
    match result {
        PathResult::Success(value) => PathEnd::Success(value),
        PathResult::Failure(reason) => PathEnd::Failure(reason@),
        PathResult::Suppress => PathEnd::Suppress,
        PathResult::AssumptionUnsat => PathEnd::AssumptionUnsat,
    }
}

/// One thing that a logger was told.
pub enum LogStep {
    /// What follows is told of the path of this number.
    ChangePath(usize),
    /// The constraints that waited with the path.
    Constraints(Seq<Expr>),
    /// A constraint that is taken to hold.
    Assumption(Seq<char>),
    /// A warning.
    Warning(Seq<char>),
    /// An error.
    Error(Seq<char>),
    /// How the path ended.
    Ended(PathEnd),
    /// The cycles that the path took.
    ExecutionTime(u64),
    /// The state in which the path ended, by its program counter, its
    /// cycle count, its path condition and its inputs.
    FinalState(u64, u64, Seq<Expr>, Seq<Expr>),
}

/// The execution does not use a logger: this one keeps nothing of what it
/// is told.
pub struct NoLogger {
    /// What the logger was told.
    pub told: Ghost<Seq<LogStep>>,
}

/// Something that has a region for the whole program.
pub trait Region: Sized {
    /// Returns the global scope.
    fn global() -> Self;
}

/// A generic logger used to generate reports. Nothing is assumed of what a
/// logger does with what it is told, but that it was told: each method says
/// what it adds to [`Logger::told`].
pub trait Logger {
    /// What the logger was told, in the order in which it was told. A
    /// logger that is verified says here what it keeps track of; with the
    /// answer given here, that it was told nothing, no method meets its
    /// promise.
    open spec fn told(&self) -> Seq<LogStep> {
        Seq::empty()
    }

    /// Takes the constraint to hold.
    fn assumption(&mut self, region: RegionMetaData, assumption: &str)
        ensures
            final(self).told() == old(self).told().push(LogStep::Assumption(assumption@)),
    ;

    /// An issue occurred, non terminal but might be problematic.
    fn warn(&mut self, region: RegionMetaData, warning: &str)
        ensures
            final(self).told() == old(self).told().push(LogStep::Warning(warning@)),
    ;

    /// An issue occurred, probably terminal for the current path.
    fn error(&mut self, region: RegionMetaData, error: &str)
        ensures
            final(self).told() == old(self).told().push(LogStep::Error(error@)),
    ;

    /// Records the result of the current path.
    fn record_path_result(&mut self, path_result: PathResult)
        ensures
            final(self).told() == old(self).told().push(LogStep::Ended(end_of(path_result))),
    ;

    /// Records the final state of the current path.
    fn record_final_state(&mut self, state: GAState2)
        ensures
            final(self).told() == old(self).told().push(
                LogStep::FinalState(
                    state.memory.pc,
                    state.cycle_count,
                    state.constraints@,
                    state.memory.inputs@,
                ),
            ),
    ;

    /// Changes to a new path in the executor.
    ///
    /// If this is path has been partially explored before it will simply
    /// append to the previous logs.
    fn change_path(&mut self, new_path_idx: usize)
        ensures
            final(self).told() == old(self).told().push(LogStep::ChangePath(new_path_idx)),
    ;

    /// Adds constraint info to the currently executing path.
    fn add_constraints(&mut self, constraints: &Vec<Expr>)
        ensures
            final(self).told() == old(self).told().push(LogStep::Constraints(constraints@)),
    ;

    /// Report of execution time, typically this will include a set of meta
    /// data instructions such as start PC end PC etc.
    fn record_execution_time(&mut self, region: RegionMetaData, time: u64)
        ensures
            final(self).told() == old(self).told().push(LogStep::ExecutionTime(time)),
    ;

    /// Possibly changes region.
    ///
    /// This can be used to generate traces of the program.
    fn register_new_delimiter_value(&mut self, delimiter: u64, time: u64)
        ensures
            final(self).told() == old(self).told(),
    ;

    /// Returns the current region if any is detected.
    fn current_region(&self) -> Option<RegionMetaData>;

    /// Adds a new region to the logger.
    fn register_region(&mut self, region: RegionMetaData)
        ensures
            final(self).told() == old(self).told(),
    ;
}

impl NoLogger {
    /// A logger that was told nothing yet.
    pub fn new() -> (r: Self)
        ensures
            r.told@ == Seq::<LogStep>::empty(),
    {
        NoLogger { told: Ghost(Seq::empty()) }
    }
}

impl Logger for NoLogger {
    open spec fn told(&self) -> Seq<LogStep> {
        self.told@
    }

    fn warn(&mut self, _region: RegionMetaData, warning: &str) {
        proof {
            self.told@ = self.told@.push(LogStep::Warning(warning@));
        }
    }

    fn error(&mut self, _region: RegionMetaData, error: &str) {
        proof {
            self.told@ = self.told@.push(LogStep::Error(error@));
        }
    }

    fn assumption(&mut self, _region: RegionMetaData, assumption: &str) {
        proof {
            self.told@ = self.told@.push(LogStep::Assumption(assumption@));
        }
    }

    fn record_execution_time(&mut self, _region: RegionMetaData, time: u64) {
        proof {
            self.told@ = self.told@.push(LogStep::ExecutionTime(time));
        }
    }

    fn change_path(&mut self, new_path_idx: usize) {
        proof {
            self.told@ = self.told@.push(LogStep::ChangePath(new_path_idx));
        }
    }

    fn add_constraints(&mut self, constraints: &Vec<Expr>) {
        proof {
            self.told@ = self.told@.push(LogStep::Constraints(constraints@));
        }
    }

    fn current_region(&self) -> (r: Option<RegionMetaData>)
        ensures
            r is None,
    {
        None
    }

    fn record_final_state(&mut self, state: GAState2) {
        proof {
            self.told@ = self.told@.push(
                LogStep::FinalState(
                    state.memory.pc,
                    state.cycle_count,
                    state.constraints@,
                    state.memory.inputs@,
                ),
            );
        }
    }

    fn register_new_delimiter_value(&mut self, _delimiter: u64, _time: u64) {
    }

    fn register_region(&mut self, _region: RegionMetaData) {
    }

    fn record_path_result(&mut self, path_result: PathResult) {
        proof {
            self.told@ = self.told@.push(LogStep::Ended(end_of(path_result)));
        }
    }
}

impl From<RegionMetaData> for NoLogger {
    fn from(_value: RegionMetaData) -> (r: Self) {
        NoLogger::new()
    }
}

impl vstd::std_specs::convert::FromSpecImpl<RegionMetaData> for NoLogger {
    open spec fn obeys_from_spec() -> bool {
        true
    }

    open spec fn from_spec(value: RegionMetaData) -> Self {
        NoLogger { told: Ghost(Seq::empty()) }
    }
}

/// The text that describes a region: its name, or `No name`, and the values
/// of its delimiter at its start and at its end.
pub open spec fn region_text(
    name: Option<Seq<char>>,
    area_delimiter: Seq<char>,
    start: u64,
    end: u64,
) -> Seq<char> {
    "region (name: \\bold{"@ + (match name {
        Some(n) => n,
        None => "No name"@,
    }) + "} from $`"@ + area_delimiter + " = "@ + decimal(start as nat) + "`$ to $`"@
        + area_delimiter + " = "@ + decimal(end as nat) + "`$"@
}

impl RegionMetaData {
    /// The name of the region by its characters, if it has one.
    pub open spec fn name_view(self) -> Option<Seq<char>> {
        match self.name {
            Some(n) => Some(n@),
            None => None,
        }
    }

    /// The text that describes the region.
    pub fn to_string(&self) -> (r: String)
        ensures
            r@ == region_text(self.name_view(), self.area_delimiter@, self.start, self.end),
    {
        let mut text: String = "region (name: \\bold{".to_owned();
        match &self.name {
            Some(name) => push_str(&mut text, name.as_str()),
            None => push_str(&mut text, "No name"),
        }
        push_str(&mut text, "} from $`");
        push_str(&mut text, self.area_delimiter.as_str());
        push_str(&mut text, " = ");
        push_str(&mut text, u64_to_string(self.start).as_str());
        push_str(&mut text, "`$ to $`");
        push_str(&mut text, self.area_delimiter.as_str());
        push_str(&mut text, " = ");
        push_str(&mut text, u64_to_string(self.end).as_str());
        push_str(&mut text, "`$");
        text
    }
}

impl Region for RegionMetaData {
    /// The region of the whole program: every value of the program counter.
    fn global() -> (r: Self)
        ensures
            r.name_view() == Some("Gloabal scope"@),
            r.start == 0,
            r.end == u64::MAX,
            r.area_delimiter@ == "PC"@,
            r.instructions@.len() == 0,
            r.execution_time@.len() == 0,
    {
        RegionMetaData {
            name: Some("Gloabal scope".to_owned()),
            start: 0,
            end: u64::MAX,
            area_delimiter: "PC".to_owned(),
            instructions: Vec::new(),
            execution_time: Vec::new(),
        }
    }
}

} // verus!
