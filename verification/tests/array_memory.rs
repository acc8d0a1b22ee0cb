use symex::array_memory::ArrayMemory;
use symex::expr::Expr;
use symex::general::Endianness;

fn setup_test_memory(endianness: Endianness) -> ArrayMemory {
    ArrayMemory::new(32, endianness)
}

#[test]
fn test_little_endian_write() {
    let mut memory = setup_test_memory(Endianness::Little);
    let indata = Expr::from_u64(0x01020304, 32);
    let addr = Expr::from_u64(0, 32);
    let one = Expr::from_u64(1, 32);
    memory.write(&addr, indata).ok();
    let b1 = memory.read_u8(&addr);
    let addr = addr.add(&one);
    let b2 = memory.read_u8(&addr);
    let addr = addr.add(&one);
    let b3 = memory.read_u8(&addr);
    let addr = addr.add(&one);
    let b4 = memory.read_u8(&addr);

    assert_eq!(b1.get_constant().unwrap(), 0x04);
    assert_eq!(b2.get_constant().unwrap(), 0x03);
    assert_eq!(b3.get_constant().unwrap(), 0x02);
    assert_eq!(b4.get_constant().unwrap(), 0x01);
}

#[test]
fn test_big_endian_write() {
    let mut memory = setup_test_memory(Endianness::Big);
    let indata = Expr::from_u64(0x01020304, 32);
    let addr = Expr::from_u64(0, 32);
    let one = Expr::from_u64(1, 32);
    memory.write(&addr, indata).ok();
    let b1 = memory.read_u8(&addr);
    let addr = addr.add(&one);
    let b2 = memory.read_u8(&addr);
    let addr = addr.add(&one);
    let b3 = memory.read_u8(&addr);
    let addr = addr.add(&one);
    let b4 = memory.read_u8(&addr);

    assert_eq!(b1.get_constant().unwrap(), 0x01);
    assert_eq!(b2.get_constant().unwrap(), 0x02);
    assert_eq!(b3.get_constant().unwrap(), 0x03);
    assert_eq!(b4.get_constant().unwrap(), 0x04);
}

#[test]
fn test_little_endian_read() {
    let mut memory = setup_test_memory(Endianness::Little);
    let b1 = Expr::from_u64(0x04, 8);
    let b2 = Expr::from_u64(0x03, 8);
    let b3 = Expr::from_u64(0x02, 8);
    let b4 = Expr::from_u64(0x01, 8);

    let one = Expr::from_u64(1, 32);
    let addr = Expr::from_u64(0, 32);
    memory.write_u8(&addr, b1);
    let addr = addr.add(&one);
    memory.write_u8(&addr, b2);
    let addr = addr.add(&one);
    memory.write_u8(&addr, b3);
    let addr = addr.add(&one);
    memory.write_u8(&addr, b4);

    let addr = Expr::from_u64(0, 32);
    let result = memory.read(&addr, 32).ok().unwrap();
    assert_eq!(result.get_constant().unwrap(), 0x01020304);
}

#[test]
fn test_big_endian_read() {
    let mut memory = setup_test_memory(Endianness::Big);
    let b1 = Expr::from_u64(0x01, 8);
    let b2 = Expr::from_u64(0x02, 8);
    let b3 = Expr::from_u64(0x03, 8);
    let b4 = Expr::from_u64(0x04, 8);

    let one = Expr::from_u64(1, 32);
    let addr = Expr::from_u64(0, 32);
    memory.write_u8(&addr, b1);
    let addr = addr.add(&one);
    memory.write_u8(&addr, b2);
    let addr = addr.add(&one);
    memory.write_u8(&addr, b3);
    let addr = addr.add(&one);
    memory.write_u8(&addr, b4);

    let addr = Expr::from_u64(0, 32);
    let result = memory.read(&addr, 32).ok().unwrap();
    assert_eq!(result.get_constant().unwrap(), 0x01020304);
}

#[test]
fn round_trip_of_every_word_width() {
    for endianness in [Endianness::Little, Endianness::Big] {
        for (width, value) in [
            (8u32, 0xa5u64),
            (16, 0xbeef),
            (32, 0xdead_beef),
            (64, 0x0123_4567_89ab_cdef),
        ] {
            let mut memory = ArrayMemory::new(32, endianness);
            let addr = Expr::from_u64(0x2000_0000, 32);
            memory.write(&addr, Expr::from_u64(value, width)).unwrap();
            let back = memory.read(&addr, width).unwrap();
            assert_eq!(back, Expr::Const { value, width });
        }
    }
}

#[test]
fn round_trip_of_a_symbol() {
    let mut memory = ArrayMemory::new(32, Endianness::Little);
    let addr = Expr::from_u64(0x2000_0000, 32);
    let value = Expr::unconstrained(32, "any0");
    memory.write(&addr, value.clone()).unwrap();
    assert_eq!(memory.read(&addr, 32).unwrap(), value);
    assert_eq!(memory.read(&addr, 32).unwrap().get_constant(), None);
}

#[test]
fn later_write_wins_and_other_addresses_stay() {
    let mut memory = ArrayMemory::new(32, Endianness::Little);
    let a = Expr::from_u64(0x100, 32);
    let b = Expr::from_u64(0x104, 32);
    memory.write(&a, Expr::from_u64(1, 32)).unwrap();
    memory.write(&b, Expr::from_u64(2, 32)).unwrap();
    memory.write(&a, Expr::from_u64(3, 32)).unwrap();
    assert_eq!(memory.read(&a, 32).unwrap().get_constant(), Some(3));
    assert_eq!(memory.read(&b, 32).unwrap().get_constant(), Some(2));
}

#[test]
fn narrow_value_is_widened_to_a_byte() {
    let mut memory = ArrayMemory::new(32, Endianness::Little);
    let a = Expr::from_u64(0x100, 32);
    memory.write(&a, Expr::from_u64(0b101, 3)).unwrap();
    assert_eq!(memory.read(&a, 8).unwrap(), Expr::Const { value: 5, width: 8 });
    assert_eq!(memory.read(&a, 2).unwrap(), Expr::Const { value: 1, width: 2 });
}

#[test]
fn unwritten_memory_reads_as_initial_bytes() {
    let memory = ArrayMemory::new(32, Endianness::Little);
    let a = Expr::from_u64(0x100, 32);
    assert_eq!(
        memory.read_u8(&a),
        Expr::Initial { address: Box::new(Expr::Const { value: 0x100, width: 32 }) }
    );
    assert_eq!(memory.resolve_addresses(&a, 10).unwrap(), vec![a.clone()]);
}
