use symex::debug_data::{AttributeValue, DebugEntry, Piece, RawLocation, Tag};
use symex::error::StackError;
use symex::stack_builder::{
    is_unit_ok, resolve_location, resolve_name, resolve_path, resolve_pc_bound, resolve_type, Meta,
};
use symex::string_mapping::{
    AorB, FunctionMeta, Location, Member, NameAccessor, Stack, VariableMeta,
};

fn entry(tag: Tag) -> DebugEntry {
    DebugEntry {
        tag,
        name: None,
        low_pc: None,
        high_pc: None,
        decl_file: None,
        decl_line: None,
        ty: None,
        location: None,
    }
}

fn text(s: &str) -> Option<String> {
    Some(s.to_owned())
}

fn function(name: &str, low: u64, size: u64) -> DebugEntry {
    DebugEntry {
        name: Some(AttributeValue::DebugStrRef(text(name))),
        low_pc: Some(AttributeValue::Addr(low)),
        high_pc: Some(AttributeValue::Udata(size)),
        decl_file: Some(AttributeValue::FileIndex(text("main.rs"))),
        decl_line: Some(AttributeValue::Data2(7)),
        ..entry(Tag::Subprogram)
    }
}

fn variable(tag: Tag, name: &str, ty: Option<&str>, location: AttributeValue) -> DebugEntry {
    DebugEntry {
        name: Some(AttributeValue::String(text(name))),
        ty: ty.map(|t| AttributeValue::UnitRef(text(t))),
        location: Some(location),
        ..entry(tag)
    }
}

fn sample_units() -> Vec<Vec<DebugEntry>> {
    vec![vec![
        entry(Tag::Other),
        function("main", 16, 16),
        variable(
            Tag::FormalParameter,
            "x",
            Some("u32"),
            AttributeValue::Exprloc(Some(Piece::Register(0))),
        ),
        variable(
            Tag::Variable,
            "y",
            Some("u8"),
            AttributeValue::LocationListsRef(vec![RawLocation::StartLength {
                begin: 100,
                length: 3,
            }]),
        ),
        variable(Tag::FormalParameter, "z", Some("i8"), AttributeValue::Exprloc(None)),
        variable(
            Tag::Variable,
            "w",
            None,
            AttributeValue::LocationListsRef(vec![
                RawLocation::StartEnd { begin: 1, end: 2 },
                RawLocation::BaseAddress { addr: 3 },
            ]),
        ),
    ]]
}

#[test]
fn attributes_are_resolved_by_their_form() {
    let f = function("main", 16, 16);
    assert_eq!(resolve_name(&f), text("main"));
    assert_eq!(resolve_pc_bound(&f), Some((16, 32)));
    assert_eq!(resolve_path(&f), Some(("main.rs".to_owned(), Some(7))));
    assert_eq!(resolve_type(&f), None);
    let absolute = DebugEntry { high_pc: Some(AttributeValue::Addr(40)), ..function("f", 16, 0) };
    assert_eq!(resolve_pc_bound(&absolute), Some((16, 40)));
    let no_high = DebugEntry { high_pc: None, ..function("f", 16, 0) };
    assert_eq!(resolve_pc_bound(&no_high), None);
    let data_high = DebugEntry { high_pc: Some(AttributeValue::Data4(4)), ..function("f", 16, 0) };
    assert_eq!(resolve_pc_bound(&data_high), None);
    let no_line = DebugEntry { decl_line: None, ..function("f", 16, 0) };
    assert_eq!(resolve_path(&no_line), Some(("main.rs".to_owned(), None)));
    let odd_line =
        DebugEntry { decl_line: Some(AttributeValue::Udata(9)), ..function("f", 16, 0) };
    assert_eq!(resolve_path(&odd_line), Some(("main.rs".to_owned(), Some(0))));
    let unreadable =
        DebugEntry { name: Some(AttributeValue::String(None)), ..function("f", 16, 0) };
    assert_eq!(resolve_name(&unreadable), None);
}

#[test]
fn locations_are_resolved_by_their_form() {
    let at = |location| DebugEntry { location: Some(location), ..entry(Tag::Variable) };
    assert_eq!(
        resolve_location(&at(AttributeValue::Exprloc(Some(Piece::Register(0x103))))),
        Some(Location::Register(3))
    );
    assert_eq!(
        resolve_location(&at(AttributeValue::Exprloc(Some(Piece::Address(64))))),
        Some(Location::Memory(64, 64))
    );
    assert_eq!(resolve_location(&at(AttributeValue::Exprloc(None))), None);
    assert_eq!(
        resolve_location(&at(AttributeValue::SecOffset(12))),
        Some(Location::Memory(12, 12))
    );
    assert_eq!(
        resolve_location(&at(AttributeValue::LocationListsRef(vec![
            RawLocation::AddressOrOffsetPair { begin: 1, end: 2 },
            RawLocation::StartEnd { begin: 3, end: 4 },
            RawLocation::StartxEndx { begin: 5, end: 6 },
            RawLocation::BaseAddress { addr: 7 },
            RawLocation::StartLength { begin: 8, length: 2 },
        ]))),
        Some(Location::List(vec![
            Location::Memory(1, 2),
            Location::Memory(3, 4),
            Location::Memory(5, 6),
            Location::Memory(7, 7),
            Location::Memory(8, 10),
        ]))
    );
    assert_eq!(resolve_location(&entry(Tag::Variable)), None);
}

#[test]
fn entries_are_classified_by_their_tag() {
    assert!(matches!(Meta::try_from(&function("main", 16, 16)), Ok(Meta::Function(_))));
    let nameless = DebugEntry { name: None, ..function("main", 16, 16) };
    assert!(matches!(Meta::try_from(&nameless), Err(StackError::InvalidFunction)));
    let typed = variable(Tag::FormalParameter, "x", Some("u32"), AttributeValue::SecOffset(1));
    assert!(matches!(Meta::try_from(&typed), Ok(Meta::Argument(_))));
    let untyped = variable(Tag::FormalParameter, "x", None, AttributeValue::SecOffset(1));
    assert!(matches!(Meta::try_from(&untyped), Err(StackError::InvalidArgument)));
    let untyped = variable(Tag::Variable, "x", None, AttributeValue::SecOffset(1));
    match Meta::try_from(&untyped) {
        Ok(Meta::Variable(v)) => assert_eq!(v.ty, ""),
        _ => panic!("variable expected"),
    }
    assert!(matches!(Meta::try_from(&entry(Tag::Variable)), Err(StackError::InvalidVariable)));
    assert!(matches!(
        Meta::try_from(&entry(Tag::StructureType)),
        Err(StackError::InvalidVariable)
    ));
    assert!(matches!(
        Meta::try_from(&entry(Tag::EnumerationType)),
        Err(StackError::InvalidVariable)
    ));
    assert!(matches!(Meta::try_from(&entry(Tag::Other)), Err(StackError::UnsupportedTag)));
    assert!(matches!(Meta::try_from(&entry(Tag::Member)), Err(StackError::UnsupportedTag)));
}

#[test]
fn tree_of_scopes_from_entries() {
    let units = sample_units();
    assert!(is_unit_ok(&units[0]));
    let stack = Stack::try_from(&units).unwrap();
    assert_eq!((stack.lower_bound, stack.upper_bound), (0, u64::MAX));
    assert_eq!(stack.meta.name, "global scope");
    assert!(stack.members.is_empty());
    assert_eq!(stack.stack.len(), 1);
    let main = &stack.stack[0];
    assert_eq!((main.lower_bound, main.upper_bound), (16, 32));
    assert_eq!(main.meta.name, "main");
    assert_eq!(main.meta.path, Some(("main.rs".to_owned(), Some(7))));
    let names: Vec<(bool, &str)> = main
        .members
        .iter()
        .map(|m| (matches!(m, Member::Argument(_)), m.inner().name.as_str()))
        .collect();
    assert_eq!(names, vec![(true, "x"), (false, "y"), (true, "z"), (false, "w")]);
    assert_eq!(
        stack.fmt_internal(String::new()),
        "|    PC : 0 fn global scope():\r\n|          \r\n|          |    PC : 16 fn main(x(Some(Register(0))):u32,z(None):i8):\r\n|          |           var y(Some(List([Memory(100, 103)]))):u8\r\n|          |           var w(Some(List([Memory(1, 2), Memory(3, 3)]))):\r\n|          |    PC : 32 end\r\n|          \r\n|    PC : 0 end\r\n\r\n"
    );
    assert_eq!(
        main.fmt_internal(">".to_owned()),
        ">|    PC : 16 fn main(x(Some(Register(0))):u32,z(None):i8):\r\n>|           var y(Some(List([Memory(100, 103)]))):u8\r\n>|           var w(Some(List([Memory(1, 2), Memory(3, 3)]))):\r\n>|    PC : 32 end\r\n>\r\n"
    );
    assert_eq!(stack.to_string(), stack.fmt_internal(String::new()));
}

#[test]
fn functions_nest_where_their_ranges_do() {
    let units = vec![vec![
        function("outer", 100, 100),
        variable(Tag::Variable, "a", Some("u8"), AttributeValue::SecOffset(1)),
        function("inner", 120, 20),
        variable(Tag::Variable, "b", Some("u8"), AttributeValue::SecOffset(2)),
        // Shares its lower bound with `outer`: not nested, no room.
        function("edge", 100, 10),
        variable(Tag::Variable, "c", Some("u8"), AttributeValue::SecOffset(3)),
        // A function that cannot be read: what follows is declared nowhere.
        DebugEntry { name: None, ..function("lost", 0, 0) },
        variable(Tag::Variable, "d", Some("u8"), AttributeValue::SecOffset(4)),
        function("deep", 125, 5),
        variable(Tag::FormalParameter, "e", Some("u8"), AttributeValue::SecOffset(5)),
    ]];
    let stack = Stack::try_from(&units).unwrap();
    let names = |s: &Stack| s.stack.iter().map(|c| c.meta.name.clone()).collect::<Vec<_>>();
    let vars = |s: &Stack| s.members.iter().map(|m| m.inner().name.clone()).collect::<Vec<_>>();
    assert_eq!(names(&stack), vec!["outer", "edge"]);
    assert_eq!(vars(&stack), Vec::<String>::new());
    let outer = &stack.stack[0];
    assert_eq!(vars(outer), vec!["a"]);
    assert_eq!(names(outer), vec!["inner"]);
    let inner = &outer.stack[0];
    assert_eq!(vars(inner), vec!["b"]);
    assert_eq!(names(inner), vec!["deep"]);
    assert_eq!(vars(&inner.stack[0]), vec!["e"]);
    assert_eq!(vars(&stack.stack[1]), vec!["c"]);
}

#[test]
fn structure_takes_its_members_and_the_entry_behind_them() {
    let named_structure = DebugEntry {
        name: Some(AttributeValue::String(text("S"))),
        ..entry(Tag::StructureType)
    };
    let member =
        DebugEntry { name: Some(AttributeValue::String(text("m"))), ..entry(Tag::Member) };
    let units = vec![
        vec![
            function("f", 16, 16),
            named_structure,
            member,
            // Taken with the structure.
            variable(Tag::Variable, "gone", Some("u8"), AttributeValue::SecOffset(1)),
            variable(Tag::Variable, "kept", Some("u8"), AttributeValue::SecOffset(2)),
            // A structure without a name takes nothing with it.
            entry(Tag::StructureType),
            variable(Tag::Variable, "also", Some("u8"), AttributeValue::SecOffset(3)),
        ],
        // The current scope goes on in the next unit.
        vec![variable(Tag::Variable, "next", Some("u8"), AttributeValue::SecOffset(4))],
    ];
    assert!(is_unit_ok(&units[0]));
    let stack = Stack::try_from(&units).unwrap();
    let vars: Vec<String> =
        stack.stack[0].members.iter().map(|m| m.inner().name.clone()).collect();
    assert_eq!(vars, vec!["kept", "also", "next"]);
}

#[test]
fn unreadable_entries_are_told() {
    let bad_name = DebugEntry { name: Some(AttributeValue::Udata(1)), ..entry(Tag::Variable) };
    assert!(!is_unit_ok(&vec![bad_name]));
    let bad_low =
        DebugEntry { low_pc: Some(AttributeValue::Udata(1)), ..function("f", 16, 16) };
    assert!(!is_unit_ok(&vec![bad_low]));
    let overflow = function("f", u64::MAX, 1);
    assert!(!is_unit_ok(&vec![overflow]));
    let bad_location = variable(
        Tag::Variable,
        "v",
        None,
        AttributeValue::LocationListsRef(vec![RawLocation::Unread]),
    );
    assert!(!is_unit_ok(&vec![bad_location]));
    // A location of another form is read as no location.
    let other_piece =
        variable(Tag::Variable, "v", None, AttributeValue::Exprloc(Some(Piece::Other)));
    assert!(is_unit_ok(&vec![other_piece]));
    let at = |location| DebugEntry { location: Some(location), ..entry(Tag::Variable) };
    assert_eq!(resolve_location(&at(AttributeValue::Exprloc(Some(Piece::Other)))), None);
    assert_eq!(resolve_location(&at(AttributeValue::Udata(3))), None);
    assert_eq!(resolve_location(&at(AttributeValue::Other)), None);
    // What a structure takes with it is not looked at.
    let named_structure = DebugEntry {
        name: Some(AttributeValue::String(text("S"))),
        ..entry(Tag::StructureType)
    };
    let bad_name = DebugEntry { name: Some(AttributeValue::Udata(1)), ..entry(Tag::Variable) };
    assert!(is_unit_ok(&vec![named_structure, bad_name]));
}

fn scope(name: &str, lower: u64, upper: u64, nested: Vec<Stack>, members: Vec<Member>) -> Stack {
    Stack {
        lower_bound: lower,
        upper_bound: upper,
        stack: nested,
        members,
        meta: FunctionMeta { name: name.to_owned(), pc_bound: (lower, upper), path: None },
    }
}

fn var(name: &str, ty: &str, location: Option<Location>) -> VariableMeta {
    VariableMeta { name: name.to_owned(), path: None, ty: ty.to_owned(), location }
}

#[test]
fn names_by_program_counter() {
    let inner = scope(
        "inner",
        20,
        30,
        vec![],
        vec![
            Member::Variable(var("a", "u8", Some(Location::Memory(100, 103)))),
            Member::Argument(var("b", "u32", Some(Location::Register(2)))),
            Member::Variable(var("c", "u16", Some(Location::Register(2)))),
        ],
    );
    let outer = scope(
        "outer",
        10,
        40,
        vec![inner],
        vec![Member::Variable(var("o", "u8", Some(Location::Register(1))))],
    );
    let root = scope("global", 0, u64::MAX, vec![outer], vec![]);

    // The scope that answers.
    assert_eq!(root.tightest_fit(25).unwrap().meta.name, "inner");
    assert_eq!(root.tightest_fit(15).unwrap().meta.name, "outer");
    assert_eq!(root.tightest_fit(5).unwrap().meta.name, "global");
    // On the bounds of a nested scope that scope is asked and does not answer.
    assert!(root.tightest_fit(10).is_none());
    assert!(root.tightest_fit(0).is_none());

    // Registers: the first member in the register, with its qualified name.
    let found = root.get_register(25, 2).unwrap();
    assert_eq!(found.name, "inner::b(u32)");
    assert_eq!(found.ty, "u32");
    assert_eq!(found.location, Some(Location::Register(2)));
    assert_eq!(root.get_register(15, 1).unwrap().name, "outer::o(u8)");
    assert!(root.get_register(25, 1).is_none());
    assert!(root.get_register(10, 1).is_none());

    // Addresses: bounds included.
    assert_eq!(root.get_address(25, 100).unwrap().name, "a");
    assert_eq!(root.get_address(25, 103).unwrap().name, "a");
    assert!(root.get_address(25, 104).is_none());
    assert!(root.get_address(15, 100).is_none());

    // Functions: the first nested scope answers for its parent.
    assert_eq!(root.get_function(25).unwrap().name, "inner");
    assert!(root.get_function(5).is_none());
    let lone = scope("lone", 10, 20, vec![], vec![]);
    assert_eq!(lone.get_function(10).unwrap().name, "lone");
    assert_eq!(lone.get_function(20).unwrap().name, "lone");
    assert!(lone.get_function(21).is_none());
}

#[test]
fn default_stack_is_the_global_scope() {
    let stack = Stack::default();
    assert_eq!((stack.lower_bound, stack.upper_bound), (0, u64::MAX));
    assert_eq!(stack.meta.name, "global_scope");
    assert_eq!(stack.meta.pc_bound, (0, u64::MAX));
    assert!(stack.stack.is_empty() && stack.members.is_empty());
    assert!(
        FunctionMeta { name: "f".to_owned(), pc_bound: (0, 1), path: None }
            == FunctionMeta { name: "f".to_owned(), pc_bound: (5, 9), path: None }
    );
}

#[test]
fn variable_compares_to_register_and_address() {
    let r = var("r", "u8", Some(Location::Register(4)));
    assert!(r.compare_to_register(4).is_some());
    assert!(r.compare_to_register(5).is_none());
    assert!(r.compare_to_memory_address(4).is_none());
    let m = var("m", "u8", Some(Location::Memory(8, 9)));
    assert!(m.compare_to_memory_address(8).is_some());
    assert!(m.compare_to_memory_address(9).is_some());
    assert!(m.compare_to_memory_address(7).is_none());
    assert!(m.compare_to_memory_address(10).is_none());
    assert!(m.compare_to_register(8).is_none());
    let none = var("n", "u8", None);
    assert!(none.compare_to_register(0).is_none());
    assert!(none.compare_to_memory_address(0).is_none());
    assert_eq!(Member::Argument(r.clone()).inner().name, "r");
}

#[test]
fn locations_as_text() {
    assert_eq!(Location::Memory(1, 20).to_string(), "1,20");
    assert_eq!(Location::Register(7).to_string(), "Register(7)");
    assert_eq!(
        Location::List(vec![
            Location::Memory(1, 2),
            Location::Register(3),
            Location::List(vec![])
        ])
        .to_string(),
        "List(1,2,Register(3),List())"
    );
    assert_eq!(
        Location::List(vec![Location::Memory(1, 2), Location::Register(3)]).debug_string(),
        "List([Memory(1, 2), Register(3)])"
    );
    assert_eq!(Location::Memory(0, u64::MAX).to_string(), "0,18446744073709551615");
}

#[test]
fn a_or_b() {
    let a: AorB<u8, String> = AorB::A(1);
    let b: AorB<u8, String> = AorB::B("x".to_owned());
    assert_eq!(a.a(), Some(&1));
    assert_eq!(a.b(), None);
    assert_eq!(b.a(), None);
    assert_eq!(b.b(), Some(&"x".to_owned()));
}
