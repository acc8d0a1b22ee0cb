use symex::arm::{
    classify, map_err, ArmIsa, ArmV6M, ArmV7EM, BinaryInfo, ParserError, SupportedArchitechture,
};
use symex::arm_attributes::arm_isa;
use symex::error::{ArchError, MemoryError, ParseError};
use symex::expr::{bin_fold, mask_of, BinOp, Expr};
use symex::general::{DataWord, Endianness, WordSize};
use symex::logging::{Logger, NoLogger, Region, RegionMetaData};
use symex::project::Project;
use symex::text::{same_text, u64_to_string};

#[test]
fn masks_and_constants() {
    assert_eq!(mask_of(1), 1);
    assert_eq!(mask_of(8), 0xff);
    assert_eq!(mask_of(63), 0x7fff_ffff_ffff_ffff);
    assert_eq!(mask_of(64), u64::MAX);
    assert_eq!(Expr::from_u64(0x1ff, 8), Expr::Const { value: 0xff, width: 8 });
    assert_eq!(Expr::from_u64(u64::MAX, 64).get_constant(), Some(u64::MAX));
    assert_eq!(Expr::from_bool(true), Expr::Const { value: 1, width: 1 });
    assert_eq!(Expr::from_bool(false), Expr::Const { value: 0, width: 1 });
    assert_eq!(Expr::unconstrained(7, "x"), Expr::Symbol { name: "x".to_owned(), width: 7 });
    assert_eq!(Expr::unconstrained(7, "x").get_constant(), None);
    assert_eq!(Expr::unconstrained(7, "x").len(), 7);
}

#[test]
fn constants_fold_with_exact_values() {
    assert_eq!(bin_fold(BinOp::Add, 0xff, 1, 8), 0);
    assert_eq!(bin_fold(BinOp::Add, u64::MAX, 2, 64), 1);
    assert_eq!(bin_fold(BinOp::Add, 3, 4, 8), 7);
    assert_eq!(bin_fold(BinOp::Sub, 0, 1, 8), 0xff);
    assert_eq!(bin_fold(BinOp::Sub, 0, 1, 64), u64::MAX);
    assert_eq!(bin_fold(BinOp::Sub, 9, 4, 8), 5);
    assert_eq!(bin_fold(BinOp::And, 0b1100, 0b1010, 4), 0b1000);
    assert_eq!(bin_fold(BinOp::Or, 0b1100, 0b1010, 4), 0b1110);
    assert_eq!(bin_fold(BinOp::Xor, 0b1100, 0b1010, 4), 0b0110);
    assert_eq!(bin_fold(BinOp::Shl, 0b1001, 1, 4), 0b0010);
    assert_eq!(bin_fold(BinOp::Shl, 0b1001, 4, 4), 0);
    assert_eq!(bin_fold(BinOp::Lshr, 0b1001, 3, 4), 1);
    assert_eq!(bin_fold(BinOp::Lshr, 0b1001, 9, 4), 0);
    assert_eq!(bin_fold(BinOp::Ashr, 0b1001, 1, 4), 0b1100);
    assert_eq!(bin_fold(BinOp::Ashr, 0b1001, 7, 4), 0b1111);
    assert_eq!(bin_fold(BinOp::Ashr, 0b0101, 1, 4), 0b0010);
    assert_eq!(bin_fold(BinOp::Ashr, 0b0101, 7, 4), 0);
    assert_eq!(bin_fold(BinOp::Ashr, 1 << 63, 63, 64), u64::MAX);
}

#[test]
fn expression_constructors() {
    let a = Expr::from_u64(0b1100, 4);
    let b = Expr::from_u64(0b1010, 4);
    let x = Expr::unconstrained(4, "x");
    assert_eq!(a.not(), Expr::from_u64(0b0011, 4));
    assert_eq!(a.and(&b), Expr::from_u64(0b1000, 4));
    assert_eq!(a.or(&b), Expr::from_u64(0b1110, 4));
    assert_eq!(a.xor(&b), Expr::from_u64(0b0110, 4));
    assert_eq!(a.add(&b), Expr::from_u64(0b0110, 4));
    assert_eq!(a.sub(&b), Expr::from_u64(0b0010, 4));
    assert_eq!(a.sll(&Expr::from_u64(1, 4)), Expr::from_u64(0b1000, 4));
    assert_eq!(a.srl(&Expr::from_u64(2, 4)), Expr::from_u64(0b0011, 4));
    assert_eq!(a.sra(&Expr::from_u64(2, 4)), Expr::from_u64(0b1111, 4));
    assert_eq!(a.eq(&b), Expr::from_bool(false));
    assert_eq!(a.eq(&a), Expr::from_bool(true));
    assert_eq!(a.ne(&b), Expr::from_bool(true));
    assert_eq!(x.eq(&x), Expr::from_bool(true));
    assert_eq!(
        x.eq(&a),
        Expr::Equal { lhs: Box::new(x.clone()), rhs: Box::new(a.clone()) }
    );
    assert_eq!(
        x.add(&a),
        Expr::Binary { op: BinOp::Add, lhs: Box::new(x.clone()), rhs: Box::new(a.clone()) }
    );
    assert_eq!(x.not(), Expr::Not { arg: Box::new(x.clone()) });
    assert_eq!(x.simplify(), x);
    assert!(x.same(&x.clone()));
    assert!(!x.same(&a));

    // Slices and concatenation.
    let v = Expr::from_u64(0xabcd, 16);
    assert_eq!(v.slice(0, 7), Expr::from_u64(0xcd, 8));
    assert_eq!(v.slice(8, 15), Expr::from_u64(0xab, 8));
    assert_eq!(v.slice(4, 11), Expr::from_u64(0xbc, 8));
    assert_eq!(v.slice(8, 15).concat(&v.slice(0, 7)), v);
    let w = Expr::unconstrained(16, "w");
    assert_eq!(w.slice(0, 15), w);
    assert_eq!(w.slice(0, 7), Expr::Slice { arg: Box::new(w.clone()), lo: 0, hi: 7 });
    assert_eq!(w.slice(8, 15).concat(&w.slice(0, 7)), w);
    assert_eq!(
        w.slice(0, 7).concat(&w.slice(8, 15)),
        Expr::Concat { high: Box::new(w.slice(0, 7)), low: Box::new(w.slice(8, 15)) }
    );
    assert_eq!(w.concat(&v).len(), 32);
    // Constants wider than 64 bits in all are not joined.
    let wide = Expr::from_u64(1, 64).concat(&Expr::from_u64(1, 1));
    assert_eq!(wide.get_constant(), None);
    assert_eq!(wide.len(), 65);

    // Extension.
    assert_eq!(Expr::from_u64(5, 3).zero_ext(8), Expr::from_u64(5, 8));
    assert_eq!(Expr::from_u64(5, 3).zero_ext(3), Expr::from_u64(5, 3));
    assert_eq!(x.zero_ext(8), Expr::ZeroExt { arg: Box::new(x.clone()), width: 8 });
    assert_eq!(x.zero_ext(4), x);
    assert_eq!(Expr::from_u64(5, 3).zero_ext(65).get_constant(), None);

    // Selection.
    assert_eq!(Expr::ite(&Expr::from_bool(true), a.clone(), b.clone()), a);
    assert_eq!(Expr::ite(&Expr::from_bool(false), a.clone(), b.clone()), b);
    let g = Expr::unconstrained(1, "g");
    assert_eq!(
        Expr::ite(&g, a.clone(), b.clone()),
        Expr::Ite {
            cond: Box::new(g.clone()),
            then: Box::new(a.clone()),
            otherwise: Box::new(b.clone())
        }
    );
}

#[test]
fn image_is_read_in_its_byte_order() {
    let bytes = vec![0x01, 0x02, 0x03, 0x04, 0x05, 0x06, 0x07, 0x08, 0x09];
    let little =
        Project::manual_project(bytes.clone(), 0x100, WordSize::Bit32, Endianness::Little).unwrap();
    let big = Project::manual_project(bytes, 0x100, WordSize::Bit32, Endianness::Big).unwrap();
    assert_eq!(little.get(0x100, 8), Ok(DataWord::Word8(0x01)));
    assert_eq!(little.get(0x100, 16), Ok(DataWord::Word16(0x0201)));
    assert_eq!(little.get(0x100, 32), Ok(DataWord::Word32(0x0403_0201)));
    assert_eq!(little.get(0x100, 64), Ok(DataWord::Word64(0x0807_0605_0403_0201)));
    assert_eq!(big.get(0x100, 16), Ok(DataWord::Word16(0x0102)));
    assert_eq!(big.get(0x100, 32), Ok(DataWord::Word32(0x0102_0304)));
    assert_eq!(big.get(0x101, 64), Ok(DataWord::Word64(0x0203_0405_0607_0809)));
    assert_eq!(big.get_word(0x104), Ok(DataWord::Word32(0x0506_0708)));
    assert_eq!(little.get(0x100, 24), Err(MemoryError::InconsistentWidth));
    assert_eq!(little.get(0x100, 0), Err(MemoryError::InconsistentWidth));
    assert_eq!(little.get(0xff, 8), Err(MemoryError::OutOfBounds));
    assert_eq!(little.get(0x108, 8), Ok(DataWord::Word8(0x09)));
    assert_eq!(little.get(0x109, 8), Err(MemoryError::OutOfBounds));
    assert_eq!(little.get(0x106, 32), Err(MemoryError::OutOfBounds));
    assert_eq!(little.get(u64::MAX, 64), Err(MemoryError::OutOfBounds));
    assert!(little.address_in_range(0x100));
    assert!(little.address_in_range(0x108));
    assert!(!little.address_in_range(0x109));
    assert!(!little.address_in_range(0xff));
    assert_eq!(little.get_raw(0x107), Ok(&[0x08u8, 0x09][..]));
    assert_eq!(little.get_raw(0x109), Err(MemoryError::OutOfBounds));
    assert_eq!(little.get_ptr_size(), 32);
    assert_eq!(little.get_word_size(), 32);
    assert_eq!(big.get_endianness(), Endianness::Big);
    assert!(Project::manual_project(vec![0], u64::MAX, WordSize::Bit8, Endianness::Big).is_none());
    assert!(Project::manual_project(vec![], u64::MAX, WordSize::Bit8, Endianness::Big).is_some());
}

#[test]
fn symbols_of_the_image() {
    let mut project =
        Project::manual_project(vec![], 0, WordSize::Bit64, Endianness::Little).unwrap();
    assert_eq!(project.get_symbol_address("main"), None);
    project.add_symbol("main".to_owned(), 0x100);
    project.add_symbol("other".to_owned(), 0x200);
    project.add_symbol("main".to_owned(), 0x300);
    assert_eq!(project.get_symbol_address("main"), Some(0x300));
    assert_eq!(project.get_symbol_address("other"), Some(0x200));
    assert_eq!(project.get_ptr_size(), 64);
    assert_eq!(WordSize::Bit16.bits(), 16);
    assert_eq!(DataWord::Word16(7).bits(), 16);
    assert_eq!(DataWord::Word16(7).value(), 7);
}

#[test]
fn armv6m_parser_errors_are_mapped() {
    let cases = [
        (ParserError::InsufficientInput, ParseError::InsufficientInput),
        (ParserError::Malfromed32BitInstruction, ParseError::MalfromedInstruction),
        (ParserError::Invalid32BitInstruction, ParseError::InvalidInstruction),
        (ParserError::InvalidOpCode, ParseError::InvalidInstruction),
        (ParserError::Unpredictable, ParseError::Unpredictable),
        (ParserError::InvalidRegister, ParseError::InvalidRegister),
        (ParserError::InvalidCondition, ParseError::InvalidCondition),
    ];
    for (from, to) in cases {
        assert_eq!(map_err(from), ArchError::ParsingError(to));
    }
    assert_eq!(
        classify("input not long enough for a instruction"),
        Some(ParserError::InsufficientInput)
    );
    assert_eq!(
        classify("32 bit instruction not long enough"),
        Some(ParserError::Malfromed32BitInstruction)
    );
    assert_eq!(
        classify("opcode not matching valid 32 bit instruction"),
        Some(ParserError::Invalid32BitInstruction)
    );
    for message in
        ["Invalid opcode", "invalid opcode", "Not a valid op code", "Not a valid opcode", "not a valid opcode"]
    {
        assert_eq!(classify(message), Some(ParserError::InvalidOpCode));
    }
    assert_eq!(classify("unpredictable"), Some(ParserError::Unpredictable));
    assert_eq!(classify("Not a valid register."), Some(ParserError::InvalidRegister));
    assert_eq!(classify("not a valid register"), Some(ParserError::InvalidRegister));
    assert_eq!(classify("Invalid condition"), Some(ParserError::InvalidCondition));
    assert_eq!(classify("something else"), None);
}

#[test]
fn armv6m_instructions_are_decoded_with_their_size() {
    let v6 = ArmV6M::new();
    // BX LR
    assert_eq!(v6.decode(&[0x70, 0x47]).unwrap().size_bits, 16);
    // MOVS R0, #1, with bytes of the next instruction behind it.
    assert_eq!(v6.decode(&[0x01, 0x20, 0x70, 0x47]).unwrap().size_bits, 16);
    // BL
    assert_eq!(v6.decode(&[0x00, 0xf0, 0x00, 0xf8]).unwrap().size_bits, 32);
    assert_eq!(
        v6.decode(&[]).err(),
        Some(ArchError::ParsingError(ParseError::InsufficientInput))
    );
    assert_eq!(
        v6.decode(&[0x70]).err(),
        Some(ArchError::ParsingError(ParseError::InsufficientInput))
    );
    assert_eq!(
        v6.decode(&[0x00, 0xf0]).err(),
        Some(ArchError::ParsingError(ParseError::MalfromedInstruction))
    );
    // A 32-bit encoding that ARMv6-M does not have.
    assert_eq!(
        v6.decode(&[0x00, 0xe8, 0x00, 0x00]).err(),
        Some(ArchError::ParsingError(ParseError::InvalidInstruction))
    );
}

#[test]
fn architecture_is_discovered_from_the_binary() {
    let info = |is_arm, is_elf32, arm_attributes| BinaryInfo { is_arm, is_elf32, arm_attributes };
    assert!(matches!(
        SupportedArchitechture::discover(&info(true, true, Some(Ok(ArmIsa::ArmV6M)))),
        Ok(SupportedArchitechture::ArmV6M(_))
    ));
    assert!(matches!(
        SupportedArchitechture::discover(&info(true, true, Some(Ok(ArmIsa::ArmV7EM)))),
        Ok(SupportedArchitechture::ArmV7EM(_))
    ));
    assert_eq!(
        SupportedArchitechture::discover(&info(false, true, Some(Ok(ArmIsa::ArmV6M)))).err(),
        Some(ArchError::UnsuportedArchitechture)
    );
    assert_eq!(
        SupportedArchitechture::discover(&info(true, false, Some(Ok(ArmIsa::ArmV6M)))).err(),
        Some(ArchError::IncorrectFileType)
    );
    assert_eq!(
        SupportedArchitechture::discover(&info(true, true, None)).err(),
        Some(ArchError::MissingSection(".ARM.attributes".to_owned()))
    );
    assert_eq!(
        SupportedArchitechture::discover(&info(true, true, Some(Err(ArchError::MalformedSection))))
            .err(),
        Some(ArchError::MalformedSection)
    );
    assert!(ArmV6M::discover(&info(true, true, Some(Ok(ArmIsa::ArmV7EM)))).unwrap().is_none());
    assert!(ArmV6M::discover(&info(true, true, Some(Ok(ArmIsa::ArmV6M)))).unwrap().is_some());
    assert!(ArmV7EM::discover(&info(true, true, Some(Ok(ArmIsa::ArmV6M)))).unwrap().is_none());
    assert_eq!(
        ArmV7EM::discover(&info(true, false, None)).err(),
        Some(ArchError::IncorrectFileType)
    );
}

#[test]
fn numbers_and_texts() {
    assert_eq!(u64_to_string(0), "0");
    assert_eq!(u64_to_string(7), "7");
    assert_eq!(u64_to_string(10), "10");
    assert_eq!(u64_to_string(1234567890), "1234567890");
    assert_eq!(u64_to_string(u64::MAX), "18446744073709551615");
    assert!(same_text("PC", "PC"));
    assert!(!same_text("PC", "PC+"));
}

#[test]
fn regions_as_text() {
    let global = RegionMetaData::global();
    assert_eq!(global.name, Some("Gloabal scope".to_owned()));
    assert_eq!((global.start, global.end), (0, u64::MAX));
    assert_eq!(
        global.to_string(),
        "region (name: \\bold{Gloabal scope} from $`PC = 0`$ to $`PC = 18446744073709551615`$"
    );
    let unnamed = RegionMetaData {
        name: None,
        start: 16,
        end: 32,
        area_delimiter: "SP".to_owned(),
        instructions: vec![],
        execution_time: vec![],
    };
    assert_eq!(
        unnamed.to_string(),
        "region (name: \\bold{No name} from $`SP = 16`$ to $`SP = 32`$"
    );
    let mut logger = NoLogger::from(RegionMetaData::global());
    logger.change_path(3);
    assert!(logger.current_region().is_none());
}

fn attributes_section(vendor: &str, part_tag: u8, attributes: &[u8]) -> Vec<u8> {
    let mut part = vec![part_tag];
    part.extend_from_slice(&(5 + attributes.len() as u32).to_le_bytes());
    part.extend_from_slice(attributes);
    let mut sub = Vec::new();
    sub.extend_from_slice(&(4 + vendor.len() as u32 + 1 + part.len() as u32).to_le_bytes());
    sub.extend_from_slice(vendor.as_bytes());
    sub.push(0);
    sub.extend_from_slice(&part);
    let mut section = vec![b'A'];
    section.extend_from_slice(&sub);
    section
}

#[test]
fn instruction_set_from_the_build_attributes() {
    // CPU name "6S-M", architecture 12, profile 'M', THUMB use 1.
    let v6 = [0x05, b'6', b'S', b'-', b'M', 0, 0x06, 12, 0x07, b'M', 0x09, 1];
    assert_eq!(arm_isa(&attributes_section("aeabi", 1, &v6)), Ok(ArmIsa::ArmV6M));
    let plain_v6 = [0x06, 11];
    assert_eq!(arm_isa(&attributes_section("aeabi", 1, &plain_v6)), Ok(ArmIsa::ArmV6M));
    // Compatibility (32: a number and a text), odd tags with a text and an
    // even tag with a number come first.
    let v7 = [32, 1, b'x', 0, 67, b'2', b'.', b'0', 0, 0x81, 0x01, b'a', 0, 34, 5, 0x06, 13];
    assert_eq!(arm_isa(&attributes_section("aeabi", 1, &v7)), Ok(ArmIsa::ArmV7EM));
    // ARMv7-A is none of the two.
    assert_eq!(
        arm_isa(&attributes_section("aeabi", 1, &[0x06, 10])),
        Err(ArchError::UnsuportedArchitechture)
    );
    // Not named: another vendor, a part for a section, or no tag 6.
    assert_eq!(
        arm_isa(&attributes_section("gnu", 1, &plain_v6)),
        Err(ArchError::UnsuportedArchitechture)
    );
    assert_eq!(
        arm_isa(&attributes_section("aeabi", 2, &plain_v6)),
        Err(ArchError::UnsuportedArchitechture)
    );
    assert_eq!(
        arm_isa(&attributes_section("aeabi", 1, &[0x09, 1])),
        Err(ArchError::UnsuportedArchitechture)
    );
    assert_eq!(arm_isa(&[b'A']), Err(ArchError::UnsuportedArchitechture));
    // The subsection of another vendor is passed over.
    let mut two = attributes_section("gnu", 1, &[0x09, 1]);
    two.extend_from_slice(&attributes_section("aeabi", 1, &plain_v6)[1..]);
    assert_eq!(arm_isa(&two), Ok(ArmIsa::ArmV6M));
    // Malformed: no version, a length beyond the section, a text or a number without end.
    assert_eq!(arm_isa(&[]), Err(ArchError::MalformedSection));
    assert_eq!(arm_isa(&[b'B', 0, 0]), Err(ArchError::MalformedSection));
    let mut long = attributes_section("aeabi", 1, &plain_v6);
    long[1] += 1;
    assert_eq!(arm_isa(&long), Err(ArchError::MalformedSection));
    assert_eq!(
        arm_isa(&attributes_section("aeabi", 1, &[0x05, b'x'])),
        Err(ArchError::MalformedSection)
    );
    assert_eq!(
        arm_isa(&attributes_section("aeabi", 1, &[0x06, 0x80])),
        Err(ArchError::MalformedSection)
    );
    assert_eq!(arm_isa(&[b'A', 3, 0, 0, 0]), Err(ArchError::MalformedSection));
}

#[test]
fn parts_are_laid_out_as_one_image() {
    use_lay_out();
}

fn use_lay_out() {
    let parts = vec![
        (0x108u64, vec![1u8, 2, 3]),
        (0x100u64, vec![9u8, 8]),
        (0x200u64, vec![]),
        (0x109u64, vec![7u8]),
    ];
    let (start, memory) = symex::project::lay_out(&parts).unwrap();
    assert_eq!(start, 0x100);
    // Zeros where no part lies, and of two parts at one address the later.
    assert_eq!(memory, vec![9, 8, 0, 0, 0, 0, 0, 0, 1, 7, 3]);
    assert_eq!(symex::project::byte_of_image(&parts, 0x109), 7);
    assert_eq!(symex::project::byte_of_image(&parts, 0x10a), 3);
    assert_eq!(symex::project::byte_of_image(&parts, 0x102), 0);
    assert_eq!(symex::project::byte_of_image(&parts, 0x200), 0);

    assert_eq!(symex::project::lay_out(&vec![]), Ok((0, vec![])));
    assert_eq!(symex::project::lay_out(&vec![(0x40, vec![])]), Ok((0, vec![])));
    assert_eq!(symex::project::lay_out(&vec![(u64::MAX, vec![5])]), Ok((u64::MAX, vec![5])));
    assert_eq!(
        symex::project::lay_out(&vec![(0, vec![1]), (u64::MAX, vec![5])]),
        Err(symex::error::ProjectError::MalformedSection)
    );
}
