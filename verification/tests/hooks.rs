use symex::arm::{ArmV6M, Hookable};
use symex::debug_data::{AttributeValue, DebugEntry, Tag};
use symex::dwarf_helper::{is_readable, SubProgram, SubProgramMap};
use symex::error::GAError;
use symex::general::DataWord;
use symex::hooks::{
    collect_range_hooks, HookContainer, Intrinsic, MemoryReadHook, PCHook2, RangeHook,
    RegisterReadHook, RegisterWriteHook, ResultOrHook,
};

fn program(name: &str, start: u64) -> SubProgram {
    SubProgram { name: name.to_owned(), bounds: (start, start + 8), file: None, call_file: None }
}

fn map_of(names: &[(&str, u64)]) -> SubProgramMap {
    let mut map = SubProgramMap::empty();
    for (name, start) in names {
        map.insert((*name).to_owned(), *start, program(name, *start));
    }
    map
}

fn all_default_functions() -> Vec<(&'static str, u64)> {
    vec![
        ("panic", 0x100),
        ("panic_cold_explicit", 0x110),
        ("unwrap_failed", 0x120),
        ("panic_bounds_check", 0x130),
        ("unreachable_unchecked", 0x140),
        ("suppress_path", 0x150),
        ("start_cyclecount", 0x160),
        ("end_cyclecount", 0x170),
    ]
}

#[test]
fn subprograms_are_found_by_name_address_and_pattern() {
    let map = map_of(&[("main", 0x100), ("helper", 0x200), ("symbolic_size<u32>", 0x300)]);
    assert_eq!(map.get_by_name("main"), Some(&program("main", 0x100)));
    assert_eq!(map.get_by_name("mai"), None);
    assert_eq!(map.get_by_address(&0x200), Some(&program("helper", 0x200)));
    assert_eq!(map.get_by_address(&0x201), None);
    assert_eq!(map.get_by_regex("^help.*$"), Some(&program("helper", 0x200)));
    assert_eq!(
        map.get_by_regex(r"^symbolic_size<.+>$"),
        Some(&program("symbolic_size<u32>", 0x300))
    );
    // A pattern is no name: it matches anywhere unless it is anchored.
    assert_eq!(map.get_by_regex("elpe"), Some(&program("helper", 0x200)));
    assert_eq!(map.get_by_regex("^elpe$"), None);
    // A pattern that is no regular expression finds nothing.
    assert_eq!(map.get_by_regex("("), None);
    // Where several names match, one of them is found.
    let found = map.get_by_regex("^.*$").unwrap();
    assert!(["main", "helper", "symbolic_size<u32>"].contains(&found.name.as_str()));
    assert_eq!(SubProgramMap::empty().get_by_regex("^.*$"), None);
}

#[test]
fn later_subprogram_replaces_the_earlier_of_its_name() {
    let mut map = map_of(&[("f", 0x100)]);
    map.insert("f".to_owned(), 0x200, program("f", 0x200));
    assert_eq!(map.get_by_name("f"), Some(&program("f", 0x200)));
    // The start address of the earlier one still finds the earlier one.
    assert_eq!(map.get_by_address(&0x100), Some(&program("f", 0x100)));
    assert_eq!(map.get_by_address(&0x200), Some(&program("f", 0x200)));
}

fn subprogram_entry(name: &str, low: AttributeValue, high: Option<AttributeValue>) -> DebugEntry {
    DebugEntry {
        tag: Tag::Subprogram,
        name: Some(AttributeValue::DebugStrRef(Some(name.to_owned()))),
        low_pc: Some(low),
        high_pc: high,
        decl_file: Some(AttributeValue::String(Some("src/main.rs".to_owned()))),
        decl_line: Some(AttributeValue::Data1(12)),
        ty: None,
        location: None,
    }
}

#[test]
fn subprogram_map_from_debug_entries() {
    let entries = vec![
        subprogram_entry("main", AttributeValue::Addr(0x100), Some(AttributeValue::Data4(0x20))),
        // The high PC of an address form counts as no size.
        subprogram_entry("flat", AttributeValue::Data2(0x200), Some(AttributeValue::Addr(0x300))),
        // No subprogram.
        DebugEntry {
            tag: Tag::Variable,
            ..subprogram_entry("var", AttributeValue::Addr(0x400), None)
        },
        // A name in place is not taken.
        DebugEntry {
            name: Some(AttributeValue::String(Some("inline".to_owned()))),
            ..subprogram_entry("", AttributeValue::Addr(0x500), None)
        },
        // No start.
        DebugEntry { low_pc: None, ..subprogram_entry("nowhere", AttributeValue::Addr(0), None) },
        // No file and no line.
        DebugEntry {
            decl_file: None,
            decl_line: None,
            ..subprogram_entry("bare", AttributeValue::Udata(0x600), None)
        },
    ];
    assert!(entries.iter().all(is_readable));
    let map = SubProgramMap::new(&entries);
    assert_eq!(
        map.get_by_name("main"),
        Some(&SubProgram {
            name: "main".to_owned(),
            bounds: (0x100, 0x120),
            file: Some(("src/main.rs".to_owned(), 12)),
            call_file: None,
        })
    );
    assert_eq!(map.get_by_address(&0x100).unwrap().name, "main");
    assert_eq!(map.get_by_name("flat").unwrap().bounds, (0x200, 0x200));
    assert_eq!(map.get_by_name("var"), None);
    assert_eq!(map.get_by_name("inline"), None);
    assert_eq!(map.get_by_name("nowhere"), None);
    assert_eq!(map.get_by_name("bare").unwrap().file, Some((String::new(), 0)));
    assert_eq!(map.get_by_address(&0x500), None);

    let unreadable = DebugEntry {
        name: Some(AttributeValue::DebugStrRef(None)),
        ..subprogram_entry("", AttributeValue::Addr(0), None)
    };
    assert!(!is_readable(&unreadable));
    let overflow =
        subprogram_entry("f", AttributeValue::Addr(u64::MAX), Some(AttributeValue::Data1(1)));
    assert!(!is_readable(&overflow));
}

#[test]
fn default_hooks_stand_at_the_functions_they_replace() {
    let map = map_of(&all_default_functions());
    let hooks = HookContainer::default(&map).unwrap();
    let at = |pc| match hooks.get_pc_hooks(pc) {
        ResultOrHook::Hook(hook) => Some(*hook),
        _ => None,
    };
    // `^panic.*$` matches several names: it stands at one of them, and the
    // patterns behind it overwrite where they stand.
    assert_eq!(at(0x110), Some(PCHook2::EndFailure("explicit panic")));
    assert_eq!(at(0x120), Some(PCHook2::EndFailure("unwrap failed")));
    assert_eq!(at(0x130), Some(PCHook2::EndFailure("bounds check failed")));
    assert_eq!(
        at(0x140),
        Some(PCHook2::EndFailure("reached a unreachable unchecked call undefined behavior"))
    );
    assert_eq!(at(0x150), Some(PCHook2::Suppress));
    assert_eq!(at(0x160), Some(PCHook2::Intrinsic(Intrinsic::StartCycleCount)));
    assert_eq!(at(0x170), Some(PCHook2::Intrinsic(Intrinsic::EndCycleCount)));
    assert_eq!(at(0x180), None);
    assert!(matches!(hooks.get_pc_hooks(0x180), ResultOrHook::Result(0x180)));

    let only_panic = map_of(&[
        ("panic", 0x100),
        ("unwrap_failed", 0x120),
        ("unreachable_unchecked", 0x140),
        ("suppress_path", 0x150),
        ("start_cyclecount", 0x160),
        ("end_cyclecount", 0x170),
    ]);
    let hooks = HookContainer::default(&only_panic);
    assert_eq!(
        hooks.err(),
        Some(GAError::EntryFunctionNotFound("^panic_cold_explicit$".to_owned()))
    );
    assert_eq!(
        HookContainer::default(&SubProgramMap::empty()).err(),
        Some(GAError::EntryFunctionNotFound("^panic.*$".to_owned()))
    );
}

#[test]
fn pc_hook_by_pattern() {
    let map = map_of(&[("main", 0x100), ("symbolic_size<u8>", 0x300)]);
    let mut hooks = HookContainer::new();
    assert_eq!(hooks.add_pc_hook_regex(&map, "^main$", PCHook2::Continue), Ok(()));
    assert!(matches!(hooks.get_pc_hooks(0x100), ResultOrHook::Hook(PCHook2::Continue)));
    assert_eq!(
        hooks.add_pc_hook_regex(&map, "^absent$", PCHook2::Continue),
        Err(GAError::EntryFunctionNotFound("^absent$".to_owned()))
    );
    assert_eq!(
        hooks.add_pc_hook_regex(&map, "[", PCHook2::Continue),
        Err(GAError::EntryFunctionNotFound("[".to_owned()))
    );
    // A later hook at the same address replaces the earlier.
    hooks.add_pc_hook(0x100, PCHook2::Suppress);
    assert!(matches!(hooks.get_pc_hooks(0x100), ResultOrHook::Hook(PCHook2::Suppress)));
}

#[test]
fn armv6m_hooks() {
    let map = map_of(&[("symbolic_size<u8>", 0x300)]);
    let mut hooks = HookContainer::new();
    ArmV6M::new().add_hooks(&mut hooks, &map);
    assert!(matches!(
        hooks.get_pc_hooks(0x300),
        ResultOrHook::Hook(PCHook2::Intrinsic(Intrinsic::SymbolicSize))
    ));
    assert_eq!(
        hooks.register_read_hook.get("PC+"),
        Some(&RegisterReadHook::Offset { register: "PC".to_owned(), offset: 1 })
    );
    assert_eq!(
        hooks.register_write_hook.get("PC+"),
        Some(&RegisterWriteHook::Redirect { register: "PC".to_owned() })
    );
    assert_eq!(hooks.register_read_hook.get("PC"), None);
    assert_eq!(
        hooks.single_memory_read_hook.get(0x4000_c008),
        Some(&MemoryReadHook::Constant(DataWord::Word32(0xffff_ffff)))
    );
    // Without the function the other hooks are there all the same.
    let mut hooks = HookContainer::new();
    ArmV6M::new().add_hooks(&mut hooks, &SubProgramMap::empty());
    assert!(matches!(hooks.get_pc_hooks(0x300), ResultOrHook::Result(0x300)));
    assert!(hooks.register_read_hook.get("PC+").is_some());
    // ARMv7E-M has the same hooks.
    let mut hooks = HookContainer::new();
    symex::arm::ArmV7EM {}.add_hooks(&mut hooks, &map);
    assert!(matches!(
        hooks.get_pc_hooks(0x300),
        ResultOrHook::Hook(PCHook2::Intrinsic(Intrinsic::SymbolicSize))
    ));
    assert!(hooks.register_write_hook.get("PC+").is_some());
}

#[test]
fn range_hooks_in_the_order_of_the_ranges() {
    let ranges = vec![
        RangeHook { lower: 0, upper: 10, hook: 'a' },
        RangeHook { lower: 20, upper: 30, hook: 'b' },
        RangeHook { lower: 5, upper: 25, hook: 'c' },
    ];
    assert_eq!(collect_range_hooks(&ranges, 7), vec!['a', 'c']);
    assert_eq!(collect_range_hooks(&ranges, 10), vec!['a', 'c']);
    assert_eq!(collect_range_hooks(&ranges, 20), vec!['b', 'c']);
    assert_eq!(collect_range_hooks(&ranges, 15), vec!['c']);
    assert_eq!(collect_range_hooks(&ranges, 31), Vec::<char>::new());
}

#[test]
fn default_hooks_are_added_to_hooks_that_are_there() {
    let mut map = SubProgramMap::empty();
    let names = [
        ("panic", 0x10),
        ("panic_cold_explicit", 0x20),
        ("unwrap_failed", 0x30),
        ("panic_bounds_check", 0x40),
        ("unreachable_unchecked", 0x50),
        ("suppress_path", 0x60),
        ("start_cyclecount", 0x70),
        ("end_cyclecount", 0x80),
    ];
    for (name, start) in names {
        map.insert(
            name.to_owned(),
            start,
            SubProgram {
                name: name.to_owned(),
                bounds: (start, start + 4),
                file: None,
                call_file: None,
            },
        );
    }
    let mut hooks = HookContainer::new();
    hooks.add_pc_hook(0x900, PCHook2::Continue);
    hooks.add_pc_hook(0x60, PCHook2::Continue);
    assert_eq!(hooks.add_defaults(&map), Ok(()));
    assert!(matches!(hooks.get_pc_hooks(0x900), ResultOrHook::Hook(PCHook2::Continue)));
    assert!(matches!(hooks.get_pc_hooks(0x60), ResultOrHook::Hook(PCHook2::Suppress)));
    assert!(matches!(
        hooks.get_pc_hooks(0x20),
        ResultOrHook::Hook(PCHook2::EndFailure("explicit panic"))
    ));
    assert!(matches!(
        hooks.get_pc_hooks(0x80),
        ResultOrHook::Hook(PCHook2::Intrinsic(Intrinsic::EndCycleCount))
    ));

    let mut hooks = HookContainer::new();
    hooks.add_pc_hook(0x900, PCHook2::Continue);
    assert_eq!(
        hooks.add_defaults(&SubProgramMap::empty()),
        Err(GAError::EntryFunctionNotFound("^panic.*$".to_owned()))
    );
    assert!(matches!(hooks.get_pc_hooks(0x900), ResultOrHook::Hook(PCHook2::Continue)));
}
