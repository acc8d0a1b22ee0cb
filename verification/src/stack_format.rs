//! The tree of scopes and the locations of variables as text.

use vstd::prelude::*;
use crate::string_mapping::{
    Location,
    LocationView,
    Member,
    MemberView,
    Scope,
    Stack,
    VariableMeta,
    VariableView,
};
use crate::text::{
    decimal,
    join,
    join_in,
    lemma_join_push,
    push_str,
    repeat_space,
    spaces,
    u64_to_string,
};

verus! {

/// The number of digits of `n`.
pub fn decimal_len(n: u64) -> (r: usize)
    ensures
        r == decimal(n as nat).len(),
        1 <= r <= 20,
    decreases n,
{
    if n < 10 {
        1
    } else {
        let r: usize = decimal_len(n / 10) + 1;
        proof {
            lemma_digits_bound(n);
        }
        r
    }
}

/// A number below ten to the power `k` has at most `k` digits; a `u64` has
/// at most twenty.
proof fn lemma_digits_bound(n: u64)
    ensures
        decimal(n as nat).len() <= 20,
{
    assert(pow10(0) == 1);
    assert(pow10(1) == 10 * pow10(0));
    assert(pow10(2) == 10 * pow10(1));
    assert(pow10(3) == 10 * pow10(2));
    assert(pow10(4) == 10 * pow10(3));
    assert(pow10(5) == 10 * pow10(4));
    assert(pow10(6) == 10 * pow10(5));
    assert(pow10(7) == 10 * pow10(6));
    assert(pow10(8) == 10 * pow10(7));
    assert(pow10(9) == 10 * pow10(8));
    assert(pow10(10) == 10 * pow10(9));
    assert(pow10(11) == 10 * pow10(10));
    assert(pow10(12) == 10 * pow10(11));
    assert(pow10(13) == 10 * pow10(12));
    assert(pow10(14) == 10 * pow10(13));
    assert(pow10(15) == 10 * pow10(14));
    assert(pow10(16) == 10 * pow10(15));
    assert(pow10(17) == 10 * pow10(16));
    assert(pow10(18) == 10 * pow10(17));
    assert(pow10(19) == 10 * pow10(18));
    assert(pow10(20) == 10 * pow10(19));
    lemma_digits(n as nat, 20);
}

/// Ten to the power `k`.
pub open spec fn pow10(k: nat) -> nat
    decreases k,
{
    if k == 0 {
        1
    } else {
        10 * pow10((k - 1) as nat)
    }
}

proof fn lemma_digits(n: nat, k: nat)
    requires
        k >= 1,
        n < pow10(k),
    ensures
        decimal(n).len() <= k,
    decreases k,
{
    if n >= 10 {
        assert(pow10(k) == 10 * pow10((k - 1) as nat));
        if k == 1 {
            assert(pow10(0) == 1);
        } else {
            lemma_digits(n / 10, (k - 1) as nat);
        }
    }
}

/// The texts of the locations of a list, as [`display_text`] writes each.
pub open spec fn display_parts(location: LocationView) -> Seq<Seq<char>>
    decreases location, 0nat,
{
    match location {
        LocationView::List(list) => Seq::new(
            list.len(),
            |i: int|
                if 0 <= i < list.len() {
                    display_text(list[i])
                } else {
                    Seq::empty()
                },
        ),
        _ => Seq::empty(),
    }
}

/// A location as text: a range of memory as its two bounds with a comma, a
/// register as `Register(` and its number and `)`, a list as `List(` and its
/// locations with commas and `)`.
pub open spec fn display_text(location: LocationView) -> Seq<char>
    decreases location, 1nat,
{
    match location {
        LocationView::Memory(start, stop) => decimal(start as nat) + ","@ + decimal(stop as nat),
        LocationView::Register(reg) => "Register("@ + decimal(reg as nat) + ")"@,
        LocationView::List(list) => "List("@ + join(display_parts(location), ","@) + ")"@,
    }
}

/// The texts of the locations of a list, as [`debug_text`] writes each.
pub open spec fn debug_parts(location: LocationView) -> Seq<Seq<char>>
    decreases location, 0nat,
{
    match location {
        LocationView::List(list) => Seq::new(
            list.len(),
            |i: int|
                if 0 <= i < list.len() {
                    debug_text(list[i])
                } else {
                    Seq::empty()
                },
        ),
        _ => Seq::empty(),
    }
}

/// A location as the text that names its parts: `Memory(1, 2)`,
/// `Register(3)`, `List([..])` with the parts of the list separated by a comma
/// and a space.
pub open spec fn debug_text(location: LocationView) -> Seq<char>
    decreases location, 1nat,
{
    match location {
        LocationView::Memory(start, stop) => "Memory("@ + decimal(start as nat) + ", "@ + decimal(
            stop as nat,
        ) + ")"@,
        LocationView::Register(reg) => "Register("@ + decimal(reg as nat) + ")"@,
        LocationView::List(list) => "List(["@ + join(debug_parts(location), ", "@) + "])"@,
    }
}

/// An optional location as the text that names its parts: `None`, or
/// `Some(` and the location and `)`.
pub open spec fn debug_option_text(location: Option<LocationView>) -> Seq<char> {
    match location {
        Some(l) => "Some("@ + debug_text(l) + ")"@,
        None => "None"@,
    }
}

impl Location {
    /// The location as text: see [`display_text`].
    #[verifier::loop_isolation(false)]
    pub fn to_string(&self) -> (r: String)
        ensures
            r@ == display_text(self@),
        decreases *self,
    {
        match self {
            Location::Memory(start, stop) => {
                let mut text: String = u64_to_string(*start);
                push_str(&mut text, ",");
                push_str(&mut text, u64_to_string(*stop).as_str());
                text
            },
            Location::Register(reg) => {
                let mut text: String = "Register(".to_owned();
                push_str(&mut text, u64_to_string(*reg as u64).as_str());
                push_str(&mut text, ")");
                text
            },
            Location::List(locations) => {
                let mut joined: String = String::new();
                let ghost parts = Seq::new(
                    locations@.len(),
                    |i: int|
                        if 0 <= i < locations@.len() {
                            display_text(locations@[i]@)
                        } else {
                            Seq::empty()
                        },
                );
                let mut i: usize = 0;
                while i < locations.len()
                    invariant
                        0 <= i <= locations@.len(),
                        joined@ == join(parts.take(i as int), ","@),
                    decreases locations@.len() - i,
                {
                    proof {
                        vstd::std_specs::vec::axiom_vec_index_decreases(*locations, i as int);
                        lemma_join_push(parts.take(i as int), ","@, parts[i as int]);
                        assert(parts.take(i + 1) =~= parts.take(i as int).push(parts[i as int]));
                    }
                    let part: String = locations[i].to_string();
                    join_in(&mut joined, i, ",", part.as_str());
                    i = i + 1;
                }
                proof {
                    assert(parts.take(i as int) =~= parts);
                    assert(parts =~= display_parts(self@));
                }
                let mut text: String = "List(".to_owned();
                push_str(&mut text, joined.as_str());
                push_str(&mut text, ")");
                text
            },
        }
    }

    /// The location as the text that names its parts: see [`debug_text`].
    #[verifier::loop_isolation(false)]
    pub fn debug_string(&self) -> (r: String)
        ensures
            r@ == debug_text(self@),
        decreases *self,
    {
        match self {
            Location::Memory(start, stop) => {
                let mut text: String = "Memory(".to_owned();
                push_str(&mut text, u64_to_string(*start).as_str());
                push_str(&mut text, ", ");
                push_str(&mut text, u64_to_string(*stop).as_str());
                push_str(&mut text, ")");
                text
            },
            Location::Register(reg) => {
                let mut text: String = "Register(".to_owned();
                push_str(&mut text, u64_to_string(*reg as u64).as_str());
                push_str(&mut text, ")");
                text
            },
            Location::List(locations) => {
                let mut joined: String = String::new();
                let ghost parts = Seq::new(
                    locations@.len(),
                    |i: int|
                        if 0 <= i < locations@.len() {
                            debug_text(locations@[i]@)
                        } else {
                            Seq::empty()
                        },
                );
                let mut i: usize = 0;
                while i < locations.len()
                    invariant
                        0 <= i <= locations@.len(),
                        joined@ == join(parts.take(i as int), ", "@),
                    decreases locations@.len() - i,
                {
                    proof {
                        vstd::std_specs::vec::axiom_vec_index_decreases(*locations, i as int);
                        lemma_join_push(parts.take(i as int), ", "@, parts[i as int]);
                        assert(parts.take(i + 1) =~= parts.take(i as int).push(parts[i as int]));
                    }
                    let part: String = locations[i].debug_string();
                    join_in(&mut joined, i, ", ", part.as_str());
                    i = i + 1;
                }
                proof {
                    assert(parts.take(i as int) =~= parts);
                    assert(parts =~= debug_parts(self@));
                }
                let mut text: String = "List([".to_owned();
                push_str(&mut text, joined.as_str());
                push_str(&mut text, "])");
                text
            },
        }
    }
}

/// An optional location as the text that names its parts.
pub fn debug_option_string(location: &Option<Location>) -> (r: String)
    ensures
        r@ == debug_option_text(crate::string_mapping::location_view(*location)),
{
    match location {
        Some(l) => {
            let mut text: String = "Some(".to_owned();
            push_str(&mut text, l.debug_string().as_str());
            push_str(&mut text, ")");
            text
        },
        None => "None".to_owned(),
    }
}

/// A variable as text: its name, its location in brackets, a colon and its
/// type.
pub open spec fn variable_text(variable: VariableView) -> Seq<char> {
    variable.name + "("@ + debug_option_text(variable.location) + "):"@ + variable.ty
}

/// A variable as text.
pub fn variable_string(variable: &VariableMeta) -> (r: String)
    ensures
        r@ == variable_text(variable@),
{
    let mut text: String = variable.name.clone();
    push_str(&mut text, "(");
    push_str(&mut text, debug_option_string(&variable.location).as_str());
    push_str(&mut text, "):");
    push_str(&mut text, variable.ty.as_str());
    text
}

/// The texts of the arguments among the first `upto` members.
pub open spec fn argument_texts(members: Seq<MemberView>, upto: int) -> Seq<Seq<char>>
    decreases upto,
{
    if upto <= 0 || upto > members.len() {
        Seq::empty()
    } else {
        match members[upto - 1] {
            MemberView::Argument(v) => argument_texts(members, upto - 1).push(variable_text(v)),
            MemberView::Variable(_) => argument_texts(members, upto - 1),
        }
    }
}

/// The texts of the variables among the first `upto` members, each behind
/// the word `var`.
pub open spec fn variable_texts(members: Seq<MemberView>, upto: int) -> Seq<Seq<char>>
    decreases upto,
{
    if upto <= 0 || upto > members.len() {
        Seq::empty()
    } else {
        match members[upto - 1] {
            MemberView::Variable(v) => variable_texts(members, upto - 1).push(
                "var "@ + variable_text(v),
            ),
            MemberView::Argument(_) => variable_texts(members, upto - 1),
        }
    }
}

/// The larger of two numbers.
pub open spec fn larger(a: int, b: int) -> int {
    if a >= b {
        a
    } else {
        b
    }
}

/// The width of the column that holds the bounds of a scope.
pub open spec fn column(scope: Scope) -> int {
    larger(
        9 + decimal(scope.meta.pc_bound.1 as nat).len() as int,
        5 + decimal(scope.meta.pc_bound.0 as nat).len() as int,
    )
}

/// The prefix of what is written inside a scope: the prefix of the scope, a
/// bar, and the column of the bounds left empty.
pub open spec fn inner_prefix(scope: Scope, prefix: Seq<char>) -> Seq<char> {
    prefix + "|"@ + spaces(column(scope) as nat)
}

/// The texts of the first `upto` nested scopes.
pub open spec fn nested_texts(scope: Scope, prefix: Seq<char>, upto: int) -> Seq<Seq<char>>
    decreases scope, 0nat, upto,
{
    if upto <= 0 || upto > scope.nested.len() {
        Seq::empty()
    } else {
        nested_texts(scope, prefix, upto - 1).push(scope_text(scope.nested[upto - 1], prefix))
    }
}

/// A scope as text, every line behind `prefix`:
///
/// - a line with a bar, the lower bound behind `PC : `, the word `fn`, the
///   name of the function and its arguments in brackets with commas, and a
///   colon;
/// - the variables, one per line, behind the prefix, a bar and an empty
///   column as wide as the bounds;
/// - the nested scopes, behind the same;
/// - a line with a bar, the upper bound behind `PC : `, and the word `end`;
/// - a line with the prefix alone.
///
/// The bounds are aligned to the right. Lines end with a carriage return
/// and a line feed.
pub open spec fn scope_text(scope: Scope, prefix: Seq<char>) -> Seq<char>
    decreases scope, 1nat, 0int,
{
    let low = "PC : "@ + decimal(scope.meta.pc_bound.0 as nat);
    let high = "    PC : "@ + decimal(scope.meta.pc_bound.1 as nat);
    let width = column(scope);
    let inner = inner_prefix(scope, prefix);
    let first = prefix + "|"@ + spaces((width - low.len()) as nat) + low + " fn "@
        + scope.meta.name + "("@ + join(
        argument_texts(scope.members, scope.members.len() as int),
        ","@,
    ) + "):"@;
    let last = prefix + "|"@ + spaces((width - high.len()) as nat) + high + " end"@;
    let vars = inner + join(
        variable_texts(scope.members, scope.members.len() as int),
        "\r\n"@ + inner,
    );
    let subs = join(nested_texts(scope, inner, scope.nested.len() as int), "\r\n"@);
    first + "\r\n"@ + vars + "\r\n"@ + subs + last + "\r\n"@ + prefix + "\r\n"@
}

/// The members as mathematical values.
pub open spec fn members_view(members: Seq<Member>) -> Seq<MemberView> {
    Seq::new(
        members.len(),
        |i: int|
            if 0 <= i < members.len() {
                members[i]@
            } else {
                arbitrary()
            },
    )
}

/// The arguments among the members, as texts joined with commas.
fn arguments_string(members: &Vec<Member>) -> (r: String)
    ensures
        r@ == join(
            argument_texts(members_view(members@), members@.len() as int),
            ","@,
        ),
{
    let ghost views = members_view(members@);
    let mut args: String = String::new();
    let mut n_args: usize = 0;
    let mut i: usize = 0;
    while i < members.len()
        invariant
            0 <= i <= members@.len(),
            views == members_view(members@),
            n_args <= i,
            n_args == argument_texts(views, i as int).len(),
            args@ == join(argument_texts(views, i as int), ","@),
        decreases members@.len() - i,
    {
        assert(views[i as int] == members@[i as int]@);
        if let Member::Argument(el) = &members[i] {
            proof {
                lemma_join_push(argument_texts(views, i as int), ","@, variable_text(el@));
            }
            join_in(&mut args, n_args, ",", variable_string(el).as_str());
            n_args = n_args + 1;
        }
        i = i + 1;
    }
    args
}

/// The variables among the members, as texts behind `inner`, one on each
/// line.
fn variables_string(members: &Vec<Member>, inner: &str) -> (r: String)
    ensures
        r@ == inner@ + join(
            variable_texts(members_view(members@), members@.len() as int),
            "\r\n"@ + inner@,
        ),
{
    let ghost views = members_view(members@);
    let mut separator: String = "\r\n".to_owned();
    push_str(&mut separator, inner);
    let mut vars: String = inner.to_owned();
    let mut n_vars: usize = 0;
    let mut i: usize = 0;
    proof {
        assert(vars@ =~= inner@ + join(variable_texts(views, 0), separator@));
    }
    while i < members.len()
        invariant
            0 <= i <= members@.len(),
            views == members_view(members@),
            separator@ == "\r\n"@ + inner@,
            n_vars <= i,
            n_vars == variable_texts(views, i as int).len(),
            vars@ == inner@ + join(variable_texts(views, i as int), separator@),
        decreases members@.len() - i,
    {
        assert(views[i as int] == members@[i as int]@);
        if let Member::Variable(el) = &members[i] {
            let mut text: String = "var ".to_owned();
            push_str(&mut text, variable_string(el).as_str());
            proof {
                lemma_join_push(
                    variable_texts(views, i as int),
                    separator@,
                    "var "@ + variable_text(el@),
                );
            }
            join_in(&mut vars, n_vars, separator.as_str(), text.as_str());
            proof {
                let joined = join(variable_texts(views, i as int), separator@);
                if n_vars == 0 {
                    assert(joined =~= Seq::<char>::empty());
                    assert(vars@ =~= inner@ + text@);
                } else {
                    assert(vars@ =~= inner@ + (joined + separator@ + text@));
                }
            }
            n_vars = n_vars + 1;
        }
        i = i + 1;
    }
    vars
}

/// One of the two lines with a bound of a scope: the prefix, a bar, the
/// bound behind `label` and moved right by `padding` spaces, and `tail`.
fn bound_line(prefix: &str, padding: usize, label: &str, bound: u64, tail: &str) -> (r: String)
    ensures
        r@ == prefix@ + "|"@ + spaces(padding as nat) + (label@ + decimal(bound as nat)) + tail@,
{
    let mut out: String = prefix.to_owned();
    push_str(&mut out, "|");
    push_str(&mut out, repeat_space(padding).as_str());
    push_str(&mut out, label);
    push_str(&mut out, u64_to_string(bound).as_str());
    push_str(&mut out, tail);
    assert(out@ =~= prefix@ + "|"@ + spaces(padding as nat) + (label@ + decimal(bound as nat))
        + tail@);
    out
}

impl Stack {
    /// The scopes nested in this one, as texts behind `inner`.
    fn nested_string(&self, inner: &str) -> (r: String)
        ensures
            r@ == join(nested_texts(self@, inner@, self@.nested.len() as int), "\r\n"@),
        decreases *self, 0nat,
    {
        let ghost scope = self@;
        let mut subs: String = String::new();
        let mut i: usize = 0;
        while i < self.stack.len()
            invariant
                0 <= i <= self.stack@.len(),
                scope == self@,
                subs@ == join(nested_texts(scope, inner@, i as int), "\r\n"@),
            decreases self.stack@.len() - i,
        {
            assert(scope.nested[i as int] == self.stack@[i as int]@);
            proof {
                vstd::std_specs::vec::axiom_vec_index_decreases(self.stack, i as int);
                lemma_join_push(
                    nested_texts(scope, inner@, i as int),
                    "\r\n"@,
                    scope_text(scope.nested[i as int], inner@),
                );
            }
            let sub: String = self.stack[i].fmt_internal(inner.to_owned());
            join_in(&mut subs, i, "\r\n", sub.as_str());
            i = i + 1;
        }
        subs
    }

    /// The scope as text, every line behind `prefix`: see [`scope_text`].
    pub fn fmt_internal(&self, prefix: String) -> (r: String)
        ensures
            r@ == scope_text(self@, prefix@),
        decreases *self, 1nat,
    {
        let ghost scope = self@;
        proof {
            assert(scope.members =~= members_view(self.members@));
        }
        let args: String = arguments_string(&self.members);
        let pc_start_len: usize = 5 + decimal_len(self.meta.pc_bound.0);
        let pc_end_len: usize = 9 + decimal_len(self.meta.pc_bound.1);
        let n_spaces: usize = if pc_end_len >= pc_start_len {
            pc_end_len
        } else {
            pc_start_len
        };
        proof {
            reveal_strlit("PC : ");
            reveal_strlit("    PC : ");
        }
        let mut inner: String = prefix.clone();
        push_str(&mut inner, "|");
        push_str(&mut inner, repeat_space(n_spaces).as_str());
        assert(inner@ == inner_prefix(scope, prefix@));
        let vars: String = variables_string(&self.members, inner.as_str());
        let subs: String = self.nested_string(inner.as_str());
        let mut tail: String = " fn ".to_owned();
        push_str(&mut tail, self.meta.name.as_str());
        push_str(&mut tail, "(");
        push_str(&mut tail, args.as_str());
        push_str(&mut tail, "):");
        let mut out: String = bound_line(
            prefix.as_str(),
            n_spaces - pc_start_len,
            "PC : ",
            self.meta.pc_bound.0,
            tail.as_str(),
        );
        push_str(&mut out, "\r\n");
        push_str(&mut out, vars.as_str());
        push_str(&mut out, "\r\n");
        push_str(&mut out, subs.as_str());
        let last: String = bound_line(
            prefix.as_str(),
            n_spaces - pc_end_len,
            "    PC : ",
            self.meta.pc_bound.1,
            " end",
        );
        push_str(&mut out, last.as_str());
        push_str(&mut out, "\r\n");
        push_str(&mut out, prefix.as_str());
        push_str(&mut out, "\r\n");
        proof {
            assert(out@ =~= scope_text(scope, prefix@));
        }
        out
    }

    /// The scope as text.
    pub fn to_string(&self) -> (r: String)
        ensures
            r@ == scope_text(self@, Seq::<char>::empty()),
    {
        self.fmt_internal(String::new())
    }
}

} // verus!
