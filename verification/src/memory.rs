//! The memory of one path: registers, flags and program counter, and a
//! writable overlay over the immutable program image.

use vstd::prelude::*;
use crate::array_memory::{access_ok, spec_read, spec_write, ArrayMemory};
use crate::collections::NameTable;
use crate::error::{GAError, MemoryError};
use crate::expr::Expr;
use crate::general::{bytes_value, Endianness};
use crate::project::Project;

verus! {

/// Registers, flags, program counter and memory of one path.
#[derive(Debug)]
pub struct BoolectorMemory<'a> {
    /// What was written to memory outside the program image.
    pub ram: ArrayMemory,
    pub register_file: NameTable<Expr>,
    pub flags: NameTable<Expr>,
    pub program_memory: &'a Project,
    /// Size of a word, and of a pointer, in bits.
    pub word_size: u32,
    /// The program counter, which is always concrete.
    pub pc: u64,
    /// The inputs of the path, in the order of their making: the
    /// unconstrained value of each register that was read before it had a
    /// value, and each unconstrained value that memory was given.
    pub inputs: Vec<Expr>,
}

/// Every value of the table is a well-formed expression.
pub open spec fn values_wf(table: NameTable<Expr>) -> bool {
    forall|i: int| 0 <= i < table.values@.len() ==> (#[trigger] table.values@[i]).wf()
}

/// Every value of the table is one bit wide.
pub open spec fn one_bit(table: NameTable<Expr>) -> bool {
    forall|i: int| 0 <= i < table.values@.len() ==> (#[trigger] table.values@[i]).width() == 1
}

/// The value that a read of `name` yields where the table is `table`: the
/// value recorded for the name, or else `fresh`.
pub open spec fn recorded_or(table: Map<Seq<char>, Expr>, name: Seq<char>, fresh: Expr) -> Expr {
    if table.contains_key(name) {
        table[name]
    } else {
        fresh
    }
}

/// Register-read memoization: once a read of a name has recorded its
/// result, the next read of that name yields the same expression and
/// leaves the table as it is, whatever fresh value it is offered.
pub proof fn lemma_read_is_memoized(
    table: Map<Seq<char>, Expr>,
    name: Seq<char>,
    fresh: Expr,
    other: Expr,
)
    ensures
        ({
            let first = recorded_or(table, name, fresh);
            let after = table.insert(name, first);
            recorded_or(after, name, other) == first && after.insert(
                name,
                recorded_or(after, name, other),
            ) == after
        }),
{
    let first = recorded_or(table, name, fresh);
    let after = table.insert(name, first);
    assert(after.insert(name, first) =~= after);
}

/// A table with the entries of `table`.
pub fn copy_table(table: &NameTable<Expr>) -> (r: NameTable<Expr>)
    ensures
        r.entries() == table.entries(),
        r.values@ == table.values@,
        r.wf() == table.wf(),
{
    let values: Vec<Expr> = table.values.clone();
    assert(values@ =~= table.values@);
    let r = NameTable { index: table.index.duplicate(), values };
    assert(r.entries() =~= table.entries());
    r
}

impl<'a> Clone for BoolectorMemory<'a> {
    fn clone(&self) -> (r: Self)
        ensures
            r.same_but_pc(*self),
            r.pc == self.pc,
            r.wf() == self.wf(),
    {
        let inputs: Vec<Expr> = self.inputs.clone();
        assert(inputs@ =~= self.inputs@);
        BoolectorMemory {
            ram: self.ram.clone(),
            register_file: copy_table(&self.register_file),
            flags: copy_table(&self.flags),
            program_memory: self.program_memory,
            word_size: self.word_size,
            pc: self.pc,
            inputs,
        }
    }
}

impl<'a> BoolectorMemory<'a> {
    /// The parts are well formed and share one word size, which constants
    /// can hold.
    pub open spec fn wf(self) -> bool {
        &&& 1 <= self.word_size <= 64
        &&& self.ram.wf()
        &&& self.ram.ptr_size == self.word_size
        &&& self.register_file.wf()
        &&& values_wf(self.register_file)
        &&& self.flags.wf()
        &&& values_wf(self.flags)
        &&& one_bit(self.flags)
        &&& self.program_memory.wf()
    }

    /// The value of each register that was read or written.
    pub open spec fn registers(self) -> Map<Seq<char>, Expr> {
        self.register_file.entries()
    }

    /// The value of each flag that was read or written.
    pub open spec fn flag_values(self) -> Map<Seq<char>, Expr> {
        self.flags.entries()
    }

    /// Everything but the registers, and the inputs that reads of them
    /// make, is the same in the two memories.
    pub open spec fn same_but_registers(self, other: Self) -> bool {
        &&& self.ram.stores@ == other.ram.stores@
        &&& self.ram.ptr_size == other.ram.ptr_size
        &&& self.ram.endianness == other.ram.endianness
        &&& self.flag_values() == other.flag_values()
        &&& self.program_memory == other.program_memory
        &&& self.word_size == other.word_size
        &&& self.pc == other.pc
    }

    /// Everything but the flags is the same in the two memories.
    pub open spec fn same_but_flags(self, other: Self) -> bool {
        &&& self.ram.stores@ == other.ram.stores@
        &&& self.ram.ptr_size == other.ram.ptr_size
        &&& self.ram.endianness == other.ram.endianness
        &&& self.registers() == other.registers()
        &&& self.program_memory == other.program_memory
        &&& self.word_size == other.word_size
        &&& self.pc == other.pc
        &&& self.inputs@ == other.inputs@
    }

    /// Everything but what was written to memory is the same in the two
    /// memories.
    pub open spec fn same_but_ram(self, other: Self) -> bool {
        &&& self.ram.ptr_size == other.ram.ptr_size
        &&& self.ram.endianness == other.ram.endianness
        &&& self.registers() == other.registers()
        &&& self.flag_values() == other.flag_values()
        &&& self.program_memory == other.program_memory
        &&& self.word_size == other.word_size
        &&& self.pc == other.pc
        &&& self.inputs@ == other.inputs@
    }

    /// Everything but the program counter is the same in the two memories.
    pub open spec fn same_but_pc(self, other: Self) -> bool {
        &&& self.ram.stores@ == other.ram.stores@
        &&& self.ram.ptr_size == other.ram.ptr_size
        &&& self.ram.endianness == other.ram.endianness
        &&& self.registers() == other.registers()
        &&& self.flag_values() == other.flag_values()
        &&& self.program_memory == other.program_memory
        &&& self.word_size == other.word_size
        &&& self.inputs@ == other.inputs@
    }

    /// A memory over `program_memory` with nothing written and no register
    /// or flag recorded. Fails where `word_size` is more than the 64 bits
    /// that a constant holds, or zero.
    pub fn new(program_memory: &'a Project, word_size: u32, endianness: Endianness) -> (r: Result<
        Self,
        GAError,
    >)
        requires
            program_memory.wf(),
        ensures
            match r {
                Ok(m) => 1 <= word_size <= 64 && m.wf() && m.word_size == word_size
                    && m.ram.endianness == endianness && m.ram.stores@.len() == 0
                    && m.program_memory == program_memory && m.pc == 0 && m.registers()
                    == Map::<Seq<char>, Expr>::empty() && m.flag_values() == Map::<
                    Seq<char>,
                    Expr,
                >::empty() && m.inputs@.len() == 0,
                Err(e) => !(1 <= word_size <= 64) && e == GAError::MemoryError(
                    MemoryError::InconsistentWidth,
                ),
            },
    {
        if word_size < 1 || word_size > 64 {
            return Err(GAError::MemoryError(MemoryError::InconsistentWidth));
        }
        Ok(
            BoolectorMemory {
                ram: ArrayMemory::new(word_size, endianness),
                register_file: NameTable::new(),
                flags: NameTable::new(),
                program_memory,
                word_size,
                pc: 0,
                inputs: Vec::new(),
            },
        )
    }

    /// What a read of `size` bits at `idx` yields: the bytes of the program
    /// image where `idx` is a constant address inside it, whatever was
    /// written elsewhere, and else what was written to memory.
    pub open spec fn spec_get(self, idx: Expr, size: u32) -> Result<Expr, MemoryError> {
        if !access_ok(self.word_size, idx, size) {
            Err(MemoryError::InconsistentWidth)
        } else if idx is Const && self.program_memory.in_range(idx->value) {
            let address = idx->value;
            if !(size == 8 || size == 16 || size == 32 || size == 64) {
                Err(MemoryError::InconsistentWidth)
            } else if !self.program_memory.holds(address, (size / 8) as nat) {
                Err(MemoryError::OutOfBounds)
            } else {
                Ok(
                    Expr::Const {
                        value: bytes_value(
                            self.program_memory.bytes_at(address, (size / 8) as nat),
                            self.program_memory.endianness,
                        ) as u64,
                        width: size,
                    },
                )
            }
        } else {
            Ok(spec_read(self.ram.stores@, self.ram.ptr_size, self.ram.endianness, idx, size))
        }
    }

    /// Reads `size` bits at `idx`.
    pub fn get(&self, idx: &Expr, size: u32) -> (r: Result<Expr, MemoryError>)
        requires
            self.wf(),
            idx.wf(),
        ensures
            r == self.spec_get(*idx, size),
            r matches Ok(e) ==> e.wf() && e.width() == size,
    {
        if idx.len() != self.word_size || size < 1 || (size >= 8 && size % 8 != 0) {
            return Err(MemoryError::InconsistentWidth);
        }
        if let Some(address) = idx.get_constant() {
            if self.program_memory.address_in_range(address) {
                return match self.program_memory.get(address, size) {
                    Ok(word) => {
                        proof {
                            crate::general::lemma_bytes_value_bound(
                                self.program_memory.bytes_at(address, (size / 8) as nat),
                                self.program_memory.endianness,
                            );
                            crate::project::lemma_byte_range_values();
                            lemma_word_fits(word.spec_value(), size);
                        }
                        Ok(Expr::from_u64(word.value(), word.bits()))
                    },
                    Err(e) => Err(e),
                };
            }
        }
        self.ram.read(idx, size)
    }

    /// Writes `value` at `idx`.
    pub fn set(&mut self, idx: &Expr, value: Expr) -> (r: Result<(), MemoryError>)
        requires
            old(self).wf(),
            idx.wf(),
            value.wf(),
        ensures
            final(self).wf(),
            final(self).same_but_ram(*old(self)),
            match r {
                Ok(_) => access_ok(old(self).word_size, *idx, value.width() as u32)
                    && final(self).ram.stores@ == spec_write(
                    old(self).ram.stores@,
                    old(self).ram.ptr_size,
                    old(self).ram.endianness,
                    *idx,
                    value,
                ),
                Err(e) => e == MemoryError::InconsistentWidth && !access_ok(
                    old(self).word_size,
                    *idx,
                    value.width() as u32,
                ) && final(self).ram.stores@ == old(self).ram.stores@,
            },
    {
        self.ram.write(idx, value)
    }

    /// The program counter as a constant of word size.
    pub fn get_pc(&self) -> (r: Result<Expr, MemoryError>)
        requires
            self.wf(),
        ensures
            r == Ok::<Expr, MemoryError>(Expr::spec_from_u64(self.pc, self.word_size)),
    {
        Ok(Expr::from_u64(self.pc, self.word_size))
    }

    /// Sets the program counter.
    pub fn set_pc(&mut self, value: u64) -> (r: Result<(), MemoryError>)
        ensures
            r is Ok,
            final(self).pc == value,
            final(self).same_but_pc(*old(self)),
            old(self).wf() ==> final(self).wf(),
    {
        self.pc = value;
        Ok(())
    }

    /// Gives the flag `idx` the value `value`. Fails with
    /// `InconsistentWidth`, and changes nothing, where the value is not one
    /// bit wide.
    pub fn set_flag(&mut self, idx: &str, value: Expr) -> (r: Result<(), MemoryError>)
        requires
            old(self).wf(),
            value.wf(),
        ensures
            final(self).wf(),
            final(self).same_but_flags(*old(self)),
            match r {
                Ok(_) => value.width() == 1 && final(self).flag_values()
                    == old(self).flag_values().insert(idx@, value),
                Err(e) => e == MemoryError::InconsistentWidth && value.width() != 1
                    && final(self).flag_values() == old(self).flag_values(),
            },
    {
        if value.len() != 1 {
            return Err(MemoryError::InconsistentWidth);
        }
        self.flags.insert(idx.to_owned(), value);
        Ok(())
    }

    /// The value of the flag `idx`. A flag that has none yet gets an
    /// unconstrained bit, which is recorded, so that the next read yields
    /// the same.
    pub fn get_flag(&mut self, idx: &str) -> (r: Result<Expr, MemoryError>)
        requires
            old(self).wf(),
        ensures
            final(self).wf(),
            final(self).same_but_flags(*old(self)),
            r matches Ok(e) && e.wf() && final(self).flag_values()
                == old(self).flag_values().insert(idx@, e)
                && (if old(self).flag_values().contains_key(idx@) {
                e == old(self).flag_values()[idx@]
            } else {
                e matches Expr::Symbol { name, width } && name@ == idx@ && width == 1
            }),
    {
        match self.flags.get(idx) {
            Some(found) => {
                let e: Expr = found.clone();
                assert(final(self).flag_values().insert(idx@, e) =~= final(self).flag_values());
                Ok(e)
            },
            None => {
                let e: Expr = Expr::unconstrained(1, idx);
                self.flags.insert(idx.to_owned(), e.clone());
                Ok(e)
            },
        }
    }

    /// Gives the register `idx` the value `value`.
    pub fn set_register(&mut self, idx: &str, value: Expr) -> (r: Result<(), MemoryError>)
        requires
            old(self).wf(),
            value.wf(),
        ensures
            r is Ok,
            final(self).wf(),
            final(self).same_but_registers(*old(self)),
            final(self).inputs@ == old(self).inputs@,
            final(self).registers() == old(self).registers().insert(idx@, value),
    {
        self.register_file.insert(idx.to_owned(), value);
        Ok(())
    }

    /// The value of the register `idx`. A register that has none yet gets
    /// an unconstrained word, which is recorded as its value, so that the
    /// next read yields the same, and as an input of the path.
    pub fn get_register(&mut self, idx: &str) -> (r: Result<Expr, MemoryError>)
        requires
            old(self).wf(),
        ensures
            final(self).wf(),
            final(self).same_but_registers(*old(self)),
            r matches Ok(e) && e.wf() && final(self).registers() == old(self).registers().insert(
                idx@,
                e,
            ) && (if old(self).registers().contains_key(idx@) {
                e == old(self).registers()[idx@] && final(self).inputs@ == old(self).inputs@
            } else {
                (e matches Expr::Symbol { name, width } && name@ == idx@ && width
                    == old(self).word_size) && final(self).inputs@ == old(self).inputs@.push(e)
            }),
    {
        match self.register_file.get(idx) {
            Some(found) => {
                let e: Expr = found.clone();
                assert(final(self).registers().insert(idx@, e) =~= final(self).registers());
                Ok(e)
            },
            None => {
                let e: Expr = Expr::unconstrained(self.word_size, idx);
                self.register_file.insert(idx.to_owned(), e.clone());
                self.inputs.push(e.clone());
                Ok(e)
            },
        }
    }

    /// The constant of `size` bits that holds the low `size` bits of
    /// `value`.
    pub fn from_u64(&self, value: u64, size: u32) -> (r: Expr)
        requires
            1 <= size <= 64,
        ensures
            r == Expr::spec_from_u64(value, size),
            r.wf(),
    {
        Expr::from_u64(value, size)
    }

    /// The one-bit constant for `value`.
    pub fn from_bool(&self, value: bool) -> (r: Expr)
        ensures
            r == Expr::spec_from_bool(value),
            r.wf(),
    {
        Expr::from_bool(value)
    }

    /// A fresh unconstrained value of `size` bits known as `name`.
    pub fn unconstrained(&self, name: &str, size: u32) -> (r: Expr)
        requires
            1 <= size,
        ensures
            r matches Expr::Symbol { name: n, width } && n@ == name@ && width == size,
            r.wf(),
    {
        Expr::unconstrained(size, name)
    }

    /// Size of a pointer in bits.
    pub fn get_ptr_size(&self) -> (r: u32)
        ensures
            r == self.program_memory.word_size.spec_bits(),
    {
        self.program_memory.get_ptr_size()
    }

    /// Size of a word in bits.
    pub fn get_word_size(&self) -> (r: u32)
        ensures
            r == self.word_size,
    {
        self.word_size
    }
}

/// Static-read equivalence: a read of 8, 16, 32 or 64 bits at a constant
/// address inside the program image, where the image holds that many bytes,
/// yields the bytes of the image there, read in the byte order of the
/// image, whatever was written to memory: two memories over one image yield
/// the same.
pub proof fn lemma_static_read(a: BoolectorMemory, b: BoolectorMemory, addr: Expr, size: u32)
    requires
        a.program_memory == b.program_memory,
        a.word_size == b.word_size,
        addr is Const,
        a.program_memory.in_range(addr->value),
    ensures
        a.spec_get(addr, size) == b.spec_get(addr, size),
        addr.width() == a.word_size && (size == 8 || size == 16 || size == 32 || size == 64)
            && a.program_memory.holds(addr->value, (size / 8) as nat) ==> a.spec_get(addr, size)
            == Ok::<Expr, MemoryError>(
            Expr::Const {
                value: bytes_value(
                    a.program_memory.bytes_at(addr->value, (size / 8) as nat),
                    a.program_memory.endianness,
                ) as u64,
                width: size,
            },
        ),
{
}

/// Endianness round trip: a value of one to eight whole bytes that was
/// written at a constant address outside the program image is what a read
/// of its width at that address yields, whatever was written before. The
/// words of the memory must be three bits or more.
pub proof fn lemma_memory_round_trip(
    before: BoolectorMemory,
    after: BoolectorMemory,
    addr: Expr,
    value: Expr,
)
    requires
        3 <= before.word_size <= 64,
        before.ram.ptr_size == before.word_size,
        addr is Const,
        addr.wf(),
        addr.width() == before.word_size,
        !before.program_memory.in_range(addr->value),
        value.wf(),
        value.width() % 8 == 0,
        8 <= value.width() <= 64,
        after.same_but_ram(before),
        after.ram.stores@ == spec_write(
            before.ram.stores@,
            before.ram.ptr_size,
            before.ram.endianness,
            addr,
            value,
        ),
    ensures
        after.spec_get(addr, value.width() as u32) == Ok::<Expr, MemoryError>(value),
{
    crate::array_memory::lemma_write_read_round_trip(
        before.ram.stores@,
        before.ram.ptr_size,
        before.ram.endianness,
        addr,
        value,
    );
}

/// A number below 256 to the power of a word's bytes fits the word's bits.
pub proof fn lemma_word_fits(value: u64, bits: u32)
    requires
        bits == 8 || bits == 16 || bits == 32 || bits == 64,
        value < crate::general::byte_range((bits / 8) as nat),
    ensures
        value <= crate::expr::mask(bits),
{
    crate::project::lemma_byte_range_values();
    if bits < 64 {
        crate::expr::lemma_mask_shape(bits);
        assert((1u64 << 8u64) == 0x100 && (1u64 << 16u64) == 0x1_0000 && (1u64 << 32u64)
            == 0x1_0000_0000) by (bit_vector);
    }
}

} // verus!
