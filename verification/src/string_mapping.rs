//! Names for the program's scopes and variables.
//!
//! A [`Stack`] is a tree of function scopes, each with the range of program
//! counters it covers and the variables declared in it. It answers which
//! function a program counter lies in, and which variable lives in a
//! register or at an address there.

use vstd::prelude::*;
use vstd::string::StringExecFns;

verus! {

/// Where a variable lives.
#[derive(Debug, PartialEq, Eq)]
pub enum Location {
    /// The addresses from the first to the second, both included.
    Memory(u64, u64),
    Register(u8),
    List(Vec<Location>),
}

/// A function and the program counters it covers.
#[derive(Debug)]
pub struct FunctionMeta {
    /// The name of the function.
    pub name: String,
    /// The lower and upper bound of the function.
    pub pc_bound: (u64, u64),
    /// The path in the file system including an optional line number.
    pub path: Option<(String, Option<u64>)>,
}

/// A variable or an argument of a function.
#[derive(Debug)]
pub struct VariableMeta {
    pub name: String,
    pub path: Option<(String, Option<u64>)>,
    pub ty: String,
    pub location: Option<Location>,
}

/// What a scope declares.
#[derive(Debug)]
pub enum Member {
    Argument(VariableMeta),
    Variable(VariableMeta),
}

/// Option of either A or B.
#[derive(Debug)]
pub enum AorB<A, B> {
    A(A),
    B(B),
}

/// A scope of the program with the scopes nested in it.
#[derive(Debug)]
pub struct Stack {
    pub lower_bound: u64,
    pub upper_bound: u64,
    pub stack: Vec<Stack>,
    pub members: Vec<Member>,
    pub meta: FunctionMeta,
}

pub struct StructMeta {
    pub name: String,
    pub members: Vec<StructMeta>,
}

pub struct EnumMeta {
    pub name: String,
    pub members: Vec<StructMeta>,
}

pub enum StructType {
    Struct(StructMeta),
    Enum(EnumMeta),
}

pub struct StructLookup {
    pub structs: Vec<StructType>,
}

impl<A: Clone, B: Clone> Clone for AorB<A, B> {
    fn clone(&self) -> (r: Self)
        ensures
            match (*self, r) {
                (AorB::A(a), AorB::A(b)) => cloned(a, b),
                (AorB::B(a), AorB::B(b)) => cloned(a, b),
                _ => false,
            },
    {
        match self {
            AorB::A(a) => AorB::A(a.clone()),
            AorB::B(b) => AorB::B(b.clone()),
        }
    }
}

impl<A, B> AorB<A, B> {
    /// The value, where it is an `A`.
    pub fn a(&self) -> (r: Option<&A>)
        ensures
            r == match *self {
                AorB::A(a) => Some(&a),
                AorB::B(_) => None,
            },
    {
        match self {
            AorB::A(a) => Some(a),
            AorB::B(_b) => None,
        }
    }

    /// The value, where it is a `B`.
    pub fn b(&self) -> (r: Option<&B>)
        ensures
            r == match *self {
                AorB::B(b) => Some(&b),
                AorB::A(_) => None,
            },
    {
        match self {
            AorB::B(b) => Some(b),
            AorB::A(_a) => None,
        }
    }
}

impl Member {
    /// The variable that the member declares.
    pub open spec fn spec_inner(&self) -> VariableMeta {
        match *self {
            Member::Argument(val) => val,
            Member::Variable(val) => val,
        }
    }

    /// The variable that the member declares.
    pub fn inner(&self) -> (r: &VariableMeta)
        ensures
            *r == self.spec_inner(),
    {
        match self {
            Member::Argument(val) => val,
            Member::Variable(val) => val,
        }
    }
}

impl VariableMeta {
    /// Whether the variable lives in register `reg`.
    pub open spec fn in_register(self, reg: u8) -> bool {
        self.location == Some(Location::Register(reg))
    }

    /// Whether the variable lives in a range of memory that holds `addr`.
    pub open spec fn at_address(self, addr: u64) -> bool {
        match self.location {
            Some(Location::Memory(l, h)) => l <= addr && h >= addr,
            _ => false,
        }
    }

    /// The variable itself, if it lives in register `reg`.
    pub fn compare_to_register(&self, reg: u8) -> (r: Option<&Self>)
        ensures
            r == if self.in_register(reg) {
                Some(self)
            } else {
                None
            },
    {
        match &self.location {
            Some(Location::Register(r)) => {
                if reg == *r {
                    return Some(self);
                }
            },
            _ => {},
        }
        None
    }

    /// The variable itself, if it lives in a range of memory that holds
    /// `addr`.
    pub fn compare_to_memory_address(&self, addr: u64) -> (r: Option<&Self>)
        ensures
            r == if self.at_address(addr) {
                Some(self)
            } else {
                None
            },
    {
        match &self.location {
            Some(Location::Memory(l, h)) => {
                if *l <= addr && *h >= addr {
                    return Some(self);
                }
            },
            _ => {},
        }
        None
    }
}

impl Stack {
    /// The scope that answers for `pc`: none outside the open range of this
    /// scope; else what the first nested scope whose closed range holds
    /// `pc` answers; else this scope.
    pub open spec fn spec_tightest_fit(self, pc: u64) -> Option<Stack>
        decreases self,
    {
        if self.lower_bound < pc && self.upper_bound > pc {
            self.fit_from(pc, 0)
        } else {
            None
        }
    }

    /// The answer of the first nested scope from position `from` on whose
    /// closed range holds `pc`, and this scope where there is none.
    pub open spec fn fit_from(self, pc: u64, from: nat) -> Option<Stack>
        decreases self, self.stack@.len() - from,
    {
        if from >= self.stack@.len() {
            Some(self)
        } else if self.stack@[from as int].lower_bound <= pc && self.stack@[from as int].upper_bound
            >= pc {
            self.stack@[from as int].spec_tightest_fit(pc)
        } else {
            self.fit_from(pc, from + 1)
        }
    }
}

/// A location as a mathematical value.
pub enum LocationView {
    Memory(u64, u64),
    Register(u8),
    List(Seq<LocationView>),
}

/// A place in the source, file and line, as a mathematical value.
pub type PathView = Option<(Seq<char>, Option<u64>)>;

/// A function as a mathematical value.
pub struct FunctionView {
    pub name: Seq<char>,
    pub pc_bound: (u64, u64),
    pub path: PathView,
}

/// A variable as a mathematical value.
pub struct VariableView {
    pub name: Seq<char>,
    pub path: PathView,
    pub ty: Seq<char>,
    pub location: Option<LocationView>,
}

/// The place in the source as a mathematical value.
pub open spec fn path_view(path: Option<(String, Option<u64>)>) -> PathView {
    match path {
        Some((file, line)) => Some((file@, line)),
        None => None,
    }
}

impl FunctionMeta {
    /// The function as a mathematical value.
    pub open spec fn view(self) -> FunctionView {
        FunctionView { name: self.name@, pc_bound: self.pc_bound, path: path_view(self.path) }
    }
}

/// A member of a scope as a mathematical value.
pub enum MemberView {
    Argument(VariableView),
    Variable(VariableView),
}

/// A scope with the scopes nested in it, as a mathematical value.
pub struct Scope {
    pub lower_bound: u64,
    pub upper_bound: u64,
    pub nested: Seq<Scope>,
    pub members: Seq<MemberView>,
    pub meta: FunctionView,
}

impl Location {
    /// The location as a mathematical value.
    pub open spec fn view(self) -> LocationView
        decreases self,
    {
        match self {
            Location::Memory(a, b) => LocationView::Memory(a, b),
            Location::Register(r) => LocationView::Register(r),
            Location::List(v) => LocationView::List(
                Seq::new(
                    v@.len(),
                    |i: int|
                        if 0 <= i < v@.len() {
                            v@[i].view()
                        } else {
                            LocationView::Register(0)
                        },
                ),
            ),
        }
    }
}

/// The optional location as a mathematical value.
pub open spec fn location_view(location: Option<Location>) -> Option<LocationView> {
    match location {
        Some(l) => Some(l@),
        None => None,
    }
}

impl VariableMeta {
    /// The variable as a mathematical value.
    pub open spec fn view(self) -> VariableView {
        VariableView {
            name: self.name@,
            path: path_view(self.path),
            ty: self.ty@,
            location: location_view(self.location),
        }
    }
}

impl Member {
    /// The member as a mathematical value.
    pub open spec fn view(self) -> MemberView {
        match self {
            Member::Argument(v) => MemberView::Argument(v@),
            Member::Variable(v) => MemberView::Variable(v@),
        }
    }
}

impl Stack {
    /// The scope as a mathematical value.
    pub open spec fn view(self) -> Scope
        decreases self,
    {
        Scope {
            lower_bound: self.lower_bound,
            upper_bound: self.upper_bound,
            nested: Seq::new(
                self.stack@.len(),
                |i: int|
                    if 0 <= i < self.stack@.len() {
                        self.stack@[i].view()
                    } else {
                        arbitrary()
                    },
            ),
            members: Seq::new(
                self.members@.len(),
                |i: int|
                    if 0 <= i < self.members@.len() {
                        self.members@[i]@
                    } else {
                        arbitrary()
                    },
            ),
            meta: self.meta@,
        }
    }
}

impl Clone for Location {
    #[verifier::loop_isolation(false)]
    fn clone(&self) -> (r: Self)
        ensures
            r@ == self@,
        decreases *self,
    {
        match self {
            Location::Memory(a, b) => Location::Memory(*a, *b),
            Location::Register(r) => Location::Register(*r),
            Location::List(v) => {
                let mut copy: Vec<Location> = Vec::new();
                let mut i: usize = 0;
                while i < v.len()
                    invariant
                        *self == Location::List(*v),
                        0 <= i <= v@.len(),
                        copy@.len() == i,
                        forall|j: int| 0 <= j < i ==> (#[trigger] copy@[j])@ == v@[j]@,
                    decreases v@.len() - i,
                {
                    proof {
                        vstd::std_specs::vec::axiom_vec_index_decreases(*v, i as int);
                    }
                    let item: Location = v[i].clone();
                    copy.push(item);
                    i = i + 1;
                }
                let r = Location::List(copy);
                proof {
                    assert(r@ is List);
                    assert(self@ is List);
                    assert(r@->List_0.len() == copy@.len());
                    assert(self@->List_0.len() == v@.len());
                    assert forall|j: int| 0 <= j < copy@.len() implies r@->List_0[j]
                        == self@->List_0[j] by {
                        assert(r@->List_0[j] == copy@[j]@);
                        assert(self@->List_0[j] == v@[j]@);
                    }
                    assert(r@->List_0 =~= self@->List_0);
                }
                r
            },
        }
    }
}

impl Clone for FunctionMeta {
    fn clone(&self) -> (r: Self)
        ensures
            r == *self,
    {
        FunctionMeta {
            name: self.name.clone(),
            pc_bound: self.pc_bound,
            path: match &self.path {
                Some((file, line)) => Some((file.clone(), *line)),
                None => None,
            },
        }
    }
}

impl Clone for VariableMeta {
    fn clone(&self) -> (r: Self)
        ensures
            r@ == self@,
            r.name == self.name,
            r.ty == self.ty,
    {
        VariableMeta {
            name: self.name.clone(),
            path: match &self.path {
                Some((file, line)) => Some((file.clone(), *line)),
                None => None,
            },
            ty: self.ty.clone(),
            location: match &self.location {
                Some(location) => Some(location.clone()),
                None => None,
            },
        }
    }
}

impl PartialEq for FunctionMeta {
    /// Two functions are the same where their names are.
    fn eq(&self, other: &Self) -> (r: bool)
    {
        self.name == other.name
    }
}

impl vstd::std_specs::cmp::PartialEqSpecImpl for FunctionMeta {
    open spec fn obeys_eq_spec() -> bool {
        true
    }

    open spec fn eq_spec(&self, other: &Self) -> bool {
        self.name@ == other.name@
    }
}

impl Default for Stack {
    /// The scope of the whole program, with nothing nested or declared in it.
    fn default() -> (r: Self)
        ensures
            r.lower_bound == 0,
            r.upper_bound == u64::MAX,
            r.stack@.len() == 0,
            r.members@.len() == 0,
            r.meta.name@ == "global_scope"@,
            r.meta.pc_bound == (0u64, u64::MAX),
            r.meta.path is None,
    {
        Stack {
            lower_bound: 0,
            upper_bound: u64::MAX,
            stack: Vec::new(),
            members: Vec::new(),
            meta: FunctionMeta {
                name: "global_scope".to_owned(),
                pc_bound: (0, u64::MAX),
                path: None,
            },
        }
    }
}

/// Answers questions about names by program counter.
pub trait NameAccessor {
    fn get_function(&self, pc: u64) -> Option<FunctionMeta>;

    fn get_register(&self, pc: u64, register: u8) -> Option<VariableMeta>;

    fn get_address<'a>(&'a self, pc: u64, address: u64) -> Option<&'a VariableMeta>;
}

/// The first member from position `from` on that lives in register `reg`.
pub open spec fn first_in_register(members: Seq<Member>, reg: u8, from: nat) -> Option<
    VariableMeta,
>
    decreases members.len() - from,
{
    if from >= members.len() {
        None
    } else if members[from as int].spec_inner().in_register(reg) {
        Some(members[from as int].spec_inner())
    } else {
        first_in_register(members, reg, from + 1)
    }
}

/// The first member from position `from` on that lives at `addr`.
pub open spec fn first_at_address(members: Seq<Member>, addr: u64, from: nat) -> Option<
    VariableMeta,
>
    decreases members.len() - from,
{
    if from >= members.len() {
        None
    } else if members[from as int].spec_inner().at_address(addr) {
        Some(members[from as int].spec_inner())
    } else {
        first_at_address(members, addr, from + 1)
    }
}

/// The name under which a variable of a function is reported: the
/// function, two colons, the variable, and its type in brackets.
pub open spec fn qualified_name(function: Seq<char>, variable: Seq<char>, ty: Seq<char>) -> Seq<
    char,
> {
    function + "::"@ + variable + "("@ + ty + ")"@
}

impl Stack {
    /// The function that `pc` lies in: none outside the closed range of
    /// this scope; else what the first nested scope answers, if there is a
    /// nested scope; else the function of this scope.
    pub open spec fn spec_get_function(self, pc: u64) -> Option<FunctionMeta>
        decreases self,
    {
        if self.lower_bound <= pc && self.upper_bound >= pc {
            if self.stack@.len() > 0 {
                self.stack@[0].spec_get_function(pc)
            } else {
                Some(self.meta)
            }
        } else {
            None
        }
    }

    /// The scope that answers for `pc`.
    #[verifier::loop_isolation(false)]
    pub fn tightest_fit(&self, pc: u64) -> (r: Option<&Stack>)
        ensures
            match r {
                Some(frame) => self.spec_tightest_fit(pc) == Some(*frame),
                None => self.spec_tightest_fit(pc) is None,
            },
        decreases self,
    {
        if self.lower_bound < pc && self.upper_bound > pc {
            let mut idx: usize = 0;
            while idx < self.stack.len()
                invariant
                    0 <= idx <= self.stack@.len(),
                    self.fit_from(pc, idx as nat) == self.fit_from(pc, 0),
                decreases self.stack@.len() - idx,
            {
                let el: &Stack = &self.stack[idx];
                assert(self.fit_from(pc, idx as nat) == if el.lower_bound <= pc && el.upper_bound
                    >= pc {
                    el.spec_tightest_fit(pc)
                } else {
                    self.fit_from(pc, (idx + 1) as nat)
                });
                if el.lower_bound <= pc && el.upper_bound >= pc {
                    // The program counter lies in this nested scope, so the
                    // answer is the one that scope gives.
                    return el.tightest_fit(pc);
                }
                idx = idx + 1;
            }
            return Some(self);
        }
        None
    }
}

impl NameAccessor for Stack {
    fn get_function(&self, pc: u64) -> (r: Option<FunctionMeta>)
        ensures
            r == self.spec_get_function(pc),
        decreases self,
    {
        if self.lower_bound <= pc && self.upper_bound >= pc {
            if self.stack.len() > 0 {
                return self.stack[0].get_function(pc);
            }
            return Some(self.meta.clone());
        }
        // No valid meta.
        None
    }

    #[verifier::loop_isolation(false)]
    fn get_register(&self, pc: u64, register: u8) -> (r: Option<VariableMeta>)
        ensures
            match self.spec_tightest_fit(pc) {
                Some(frame) => match first_in_register(frame.members@, register, 0) {
                    Some(var) => r matches Some(found) && found@ == (VariableView {
                        name: qualified_name(frame.meta.name@, var.name@, var.ty@),
                        ..var@
                    }),
                    None => r is None,
                },
                None => r is None,
            },
    {
        let frame: &Stack = match self.tightest_fit(pc) {
            Some(frame) => frame,
            None => {
                return None;
            },
        };
        let mut i: usize = 0;
        while i < frame.members.len()
            invariant
                0 <= i <= frame.members@.len(),
                first_in_register(frame.members@, register, i as nat) == first_in_register(
                    frame.members@,
                    register,
                    0,
                ),
            decreases frame.members@.len() - i,
        {
            let var: &VariableMeta = frame.members[i].inner();
            assert(first_in_register(frame.members@, register, i as nat) == if var.in_register(
                register,
            ) {
                Some(*var)
            } else {
                first_in_register(frame.members@, register, (i + 1) as nat)
            });
            if let Some(val) = var.compare_to_register(register) {
                let mut found: VariableMeta = val.clone();
                let mut name: String = frame.meta.name.clone();
                name.append("::");
                name.append(val.name.as_str());
                name.append("(");
                name.append(val.ty.as_str());
                name.append(")");
                found.name = name;
                return Some(found);
            }
            i = i + 1;
        }
        None
    }

    #[verifier::loop_isolation(false)]
    fn get_address<'a>(&'a self, pc: u64, address: u64) -> (r: Option<&'a VariableMeta>)
        ensures
            match self.spec_tightest_fit(pc) {
                Some(frame) => match first_at_address(frame.members@, address, 0) {
                    Some(var) => r matches Some(found) && *found == var,
                    None => r is None,
                },
                None => r is None,
            },
    {
        let frame: &Stack = match self.tightest_fit(pc) {
            Some(frame) => frame,
            None => {
                return None;
            },
        };
        let mut i: usize = 0;
        while i < frame.members.len()
            invariant
                0 <= i <= frame.members@.len(),
                first_at_address(frame.members@, address, i as nat) == first_at_address(
                    frame.members@,
                    address,
                    0,
                ),
            decreases frame.members@.len() - i,
        {
            let var: &VariableMeta = frame.members[i].inner();
            assert(first_at_address(frame.members@, address, i as nat) == if var.at_address(
                address,
            ) {
                Some(*var)
            } else {
                first_at_address(frame.members@, address, (i + 1) as nat)
            });
            if let Some(val) = var.compare_to_memory_address(address) {
                return Some(val);
            }
            i = i + 1;
        }
        None
    }
}

} // verus!
