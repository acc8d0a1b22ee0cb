//! The program image: the bytes of the loaded segments, where they lie, and
//! the addresses of the symbols.

use vstd::prelude::*;
use crate::collections::{name_index_entries, NameIndex};
use crate::error::{MemoryError, ProjectError};
use crate::general::{
    be_value,
    byte_range,
    bytes_value,
    le_value,
    DataWord,
    Endianness,
    WordSize,
};

verus! {

/// An immutable program image.
#[derive(Debug)]
pub struct Project {
    /// The bytes of the image, the first at `start_addr`.
    pub program_memory: Vec<u8>,
    pub start_addr: u64,
    /// The address after the last byte of the image.
    pub end_addr: u64,
    pub word_size: WordSize,
    pub endianness: Endianness,
    /// Address of each symbol.
    pub symtab: NameIndex,
}

/// The powers of 256 up to the eighth.
pub proof fn lemma_byte_range_values()
    ensures
        byte_range(0) == 1,
        byte_range(1) == 0x100,
        byte_range(2) == 0x1_0000,
        byte_range(3) == 0x100_0000,
        byte_range(4) == 0x1_0000_0000,
        byte_range(5) == 0x100_0000_0000,
        byte_range(6) == 0x1_0000_0000_0000,
        byte_range(7) == 0x100_0000_0000_0000,
        byte_range(8) == 0x1_0000_0000_0000_0000,
{
    assert(byte_range(0) == 1);
    assert(byte_range(1) == 256 * byte_range(0));
    assert(byte_range(2) == 256 * byte_range(1));
    assert(byte_range(3) == 256 * byte_range(2));
    assert(byte_range(4) == 256 * byte_range(3));
    assert(byte_range(5) == 256 * byte_range(4));
    assert(byte_range(6) == 256 * byte_range(5));
    assert(byte_range(7) == 256 * byte_range(6));
    assert(byte_range(8) == 256 * byte_range(7));
}

impl Project {
    /// The image ends where its bytes end.
    pub open spec fn wf(self) -> bool {
        self.start_addr + self.program_memory@.len() == self.end_addr
    }

    /// Whether `address` lies in the image.
    pub open spec fn in_range(self, address: u64) -> bool {
        self.start_addr <= address < self.end_addr
    }

    /// Whether the image holds `count` bytes from `address` on.
    pub open spec fn holds(self, address: u64, count: nat) -> bool {
        self.start_addr <= address && address + count <= self.end_addr
    }

    /// The `count` bytes of the image from `address` on.
    pub open spec fn bytes_at(self, address: u64, count: nat) -> Seq<u8> {
        self.program_memory@.subrange(
            address - self.start_addr,
            address - self.start_addr + count,
        )
    }

    /// The address of each symbol, by the characters of its name.
    pub open spec fn symbols(self) -> Map<Seq<char>, u64> {
        name_index_entries(self.symtab)
    }

    /// An image of the given bytes at `start_addr`, without symbols. There
    /// is none where the bytes would reach beyond the address space.
    pub fn manual_project(
        program_memory: Vec<u8>,
        start_addr: u64,
        word_size: WordSize,
        endianness: Endianness,
    ) -> (r: Option<Self>)
        ensures
            r is Some == (start_addr + program_memory@.len() <= u64::MAX),
            r matches Some(p) ==> p.wf() && p.program_memory == program_memory && p.start_addr
                == start_addr && p.word_size == word_size && p.endianness == endianness
                && p.symbols() == Map::<Seq<char>, u64>::empty(),
    {
        let len: usize = program_memory.len();
        if len as u64 > u64::MAX - start_addr {
            return None;
        }
        let symtab = NameIndex::new();
        assert(name_index_entries(symtab) =~= Map::<Seq<char>, u64>::empty());
        Some(
            Project {
                program_memory,
                start_addr,
                end_addr: start_addr + len as u64,
                word_size,
                endianness,
                symtab,
            },
        )
    }

    /// Gives the symbol `name` the address `address`.
    pub fn add_symbol(&mut self, name: String, address: u64)
        ensures
            final(self).symbols() == old(self).symbols().insert(name@, address),
            final(self).program_memory == old(self).program_memory,
            final(self).start_addr == old(self).start_addr,
            final(self).end_addr == old(self).end_addr,
            final(self).word_size == old(self).word_size,
            final(self).endianness == old(self).endianness,
    {
        self.symtab.insert(name, address);
    }

    /// The address of the symbol `name`.
    pub fn get_symbol_address(&self, name: &str) -> (r: Option<u64>)
        ensures
            r == if self.symbols().contains_key(name@) {
                Some(self.symbols()[name@])
            } else {
                None
            },
    {
        self.symtab.get(name)
    }

    /// Size of a pointer in bits.
    pub fn get_ptr_size(&self) -> (r: u32)
        ensures
            r == self.word_size.spec_bits(),
    {
        self.word_size.bits()
    }

    /// Size of a word in bits.
    pub fn get_word_size(&self) -> (r: u32)
        ensures
            r == self.word_size.spec_bits(),
    {
        self.word_size.bits()
    }

    /// Byte order of the image.
    pub fn get_endianness(&self) -> (r: Endianness)
        ensures
            r == self.endianness,
    {
        self.endianness
    }

    /// Whether `address` lies in the image.
    pub fn address_in_range(&self, address: u64) -> (r: bool)
        ensures
            r == self.in_range(address),
    {
        self.start_addr <= address && address < self.end_addr
    }

    /// The `bits` bits at `address`, read in the image's byte order. Fails
    /// with `InconsistentWidth` where `bits` is none of 8, 16, 32 and 64,
    /// and else with `OutOfBounds` where the image does not hold that many
    /// bytes from `address` on.
    pub fn get(&self, address: u64, bits: u32) -> (r: Result<DataWord, MemoryError>)
        requires
            self.wf(),
        ensures
            match r {
                Ok(word) => (bits == 8 || bits == 16 || bits == 32 || bits == 64) && self.holds(
                    address,
                    (bits / 8) as nat,
                ) && word.spec_bits() == bits && word.spec_value() == bytes_value(
                    self.bytes_at(address, (bits / 8) as nat),
                    self.endianness,
                ),
                Err(MemoryError::InconsistentWidth) => !(bits == 8 || bits == 16 || bits == 32
                    || bits == 64),
                Err(MemoryError::OutOfBounds) => (bits == 8 || bits == 16 || bits == 32 || bits
                    == 64) && !self.holds(address, (bits / 8) as nat),
            },
    {
        if bits != 8 && bits != 16 && bits != 32 && bits != 64 {
            return Err(MemoryError::InconsistentWidth);
        }
        let count: usize = (bits / 8) as usize;
        let len: usize = self.program_memory.len();
        if address < self.start_addr || address > self.end_addr || self.end_addr - address
            < count as u64 {
            return Err(MemoryError::OutOfBounds);
        }
        let first: usize = (address - self.start_addr) as usize;
        let ghost bytes = self.bytes_at(address, count as nat);
        let mut value: u64 = 0;
        let mut i: usize = 0;
        proof {
            lemma_byte_range_values();
        }
        match self.endianness {
            Endianness::Big => {
                while i < count
                    invariant
                        0 <= i <= count <= 8,
                        first + count <= len,
                        len == self.program_memory@.len(),
                        bytes == self.program_memory@.subrange(
                            first as int,
                            first as int + count as int,
                        ),
                        value == be_value(bytes.take(i as int)),
                        value < byte_range(i as nat),
                    decreases count - i,
                {
                    proof {
                        lemma_byte_range_values();
                        let next = bytes.take(i + 1);
                        assert(next.drop_last() =~= bytes.take(i as int));
                        assert(next.last() == self.program_memory@[first + i]);
                        assert(byte_range((i + 1) as nat) == 256 * byte_range(i as nat));
                    }
                    value = value * 256 + self.program_memory[first + i] as u64;
                    i = i + 1;
                }
                assert(bytes.take(count as int) =~= bytes);
            },
            Endianness::Little => {
                while i < count
                    invariant
                        0 <= i <= count <= 8,
                        first + count <= len,
                        len == self.program_memory@.len(),
                        bytes == self.program_memory@.subrange(
                            first as int,
                            first as int + count as int,
                        ),
                        value == le_value(bytes.skip(count - i)),
                        value < byte_range(i as nat),
                    decreases count - i,
                {
                    proof {
                        lemma_byte_range_values();
                        let next = bytes.skip(count - i - 1);
                        assert(next.skip(1) =~= bytes.skip(count - i));
                        assert(next[0] == self.program_memory@[first + count - 1 - i]);
                        assert(byte_range((i + 1) as nat) == 256 * byte_range(i as nat));
                    }
                    value = value * 256 + self.program_memory[first + count - 1 - i] as u64;
                    i = i + 1;
                }
                assert(bytes.skip(0) =~= bytes);
            },
        }
        Ok(
            if bits == 8 {
                DataWord::Word8(value as u8)
            } else if bits == 16 {
                DataWord::Word16(value as u16)
            } else if bits == 32 {
                DataWord::Word32(value as u32)
            } else {
                DataWord::Word64(value)
            },
        )
    }

    /// The bytes of the image from `address` on, for the decoder. Fails
    /// with `OutOfBounds` where `address` lies outside the image.
    pub fn get_raw(&self, address: u64) -> (r: Result<&[u8], MemoryError>)
        requires
            self.wf(),
        ensures
            match r {
                Ok(bytes) => self.in_range(address) && bytes@ == self.program_memory@.subrange(
                    address - self.start_addr,
                    self.program_memory@.len() as int,
                ),
                Err(e) => e == MemoryError::OutOfBounds && !self.in_range(address),
            },
    {
        if !self.address_in_range(address) {
            return Err(MemoryError::OutOfBounds);
        }
        let len: usize = self.program_memory.len();
        let first: usize = (address - self.start_addr) as usize;
        Ok(vstd::slice::slice_subrange(self.program_memory.as_slice(), first, len))
    }

    /// The word at `address`, in the image's word size and byte order.
    pub fn get_word(&self, address: u64) -> (r: Result<DataWord, MemoryError>)
        requires
            self.wf(),
        ensures
            match r {
                Ok(word) => self.holds(address, (self.word_size.spec_bits() / 8) as nat)
                    && word.spec_bits() == self.word_size.spec_bits() && word.spec_value()
                    == bytes_value(
                    self.bytes_at(address, (self.word_size.spec_bits() / 8) as nat),
                    self.endianness,
                ),
                Err(e) => e == MemoryError::OutOfBounds && !self.holds(
                    address,
                    (self.word_size.spec_bits() / 8) as nat,
                ),
            },
    {
        self.get(address, self.word_size.bits())
    }
}

/// The part of a program that lies at an address holds the address.
pub open spec fn part_covers(part: (u64, Vec<u8>), address: int) -> bool {
    part.0 <= address < part.0 + part.1@.len()
}

/// The byte at `address` in an image laid out from the first `upto` parts:
/// that of the last of them that holds the address, and zero where none
/// does.
pub open spec fn image_byte(parts: Seq<(u64, Vec<u8>)>, upto: int, address: int) -> u8
    decreases upto,
{
    if upto <= 0 || upto > parts.len() {
        0
    } else if part_covers(parts[upto - 1], address) {
        parts[upto - 1].1@[address - parts[upto - 1].0]
    } else {
        image_byte(parts, upto - 1, address)
    }
}

/// The least address that one of the first `upto` parts holds, and the
/// address behind the greatest; nothing where all of them are empty.
pub open spec fn image_bounds(parts: Seq<(u64, Vec<u8>)>, upto: int) -> Option<(int, int)>
    decreases upto,
{
    if upto <= 0 || upto > parts.len() {
        None
    } else {
        let part = parts[upto - 1];
        let rest = image_bounds(parts, upto - 1);
        if part.1@.len() == 0 {
            rest
        } else {
            match rest {
                None => Some((part.0 as int, part.0 + part.1@.len())),
                Some((low, high)) => Some(
                    (
                        if part.0 < low {
                            part.0 as int
                        } else {
                            low
                        },
                        if part.0 + part.1@.len() > high {
                            part.0 + part.1@.len()
                        } else {
                            high
                        },
                    ),
                ),
            }
        }
    }
}

/// The byte at `address` in the image of the parts: see [`image_byte`].
pub fn byte_of_image(parts: &Vec<(u64, Vec<u8>)>, address: u128) -> (r: u8)
    ensures
        r == image_byte(parts@, parts@.len() as int, address as int),
{
    let mut found: u8 = 0;
    let mut i: usize = 0;
    while i < parts.len()
        invariant
            0 <= i <= parts@.len(),
            found == image_byte(parts@, i as int, address as int),
        decreases parts@.len() - i,
    {
        let first: u128 = parts[i].0 as u128;
        let len: usize = parts[i].1.len();
        if first <= address && address - first < len as u128 {
            let at: usize = (address - first) as usize;
            found = parts[i].1[at];
        }
        i = i + 1;
    }
    found
}

/// Lays the parts of a program, each with the address of its first byte,
/// out as one image: the image begins at the least address that a part
/// holds and ends behind the greatest; each of its bytes is that of the last
/// part that holds its address, and zero where none does. Without a byte
/// there is an empty image at address 0. Fails with `MalformedSection`
/// where the image would have more bytes than can be counted.
pub fn lay_out(parts: &Vec<(u64, Vec<u8>)>) -> (r: Result<(u64, Vec<u8>), ProjectError>)
    ensures
        match image_bounds(parts@, parts@.len() as int) {
            None => r matches Ok((start, memory)) && start == 0 && memory@.len() == 0,
            Some((low, high)) => if high - low <= usize::MAX {
                r matches Ok((start, memory)) && start == low && memory@.len() == high - low
                    && forall|k: int|
                    0 <= k < memory@.len() ==> #[trigger] memory@[k] == image_byte(
                        parts@,
                        parts@.len() as int,
                        low + k,
                    )
            } else {
                r == Err::<(u64, Vec<u8>), ProjectError>(ProjectError::MalformedSection)
            },
        },
{
    let mut bounds: Option<(u64, u128)> = None;
    let mut i: usize = 0;
    while i < parts.len()
        invariant
            0 <= i <= parts@.len(),
            match (bounds, image_bounds(parts@, i as int)) {
                (None, None) => true,
                (Some((low, high)), Some((l, h))) => low == l && high == h && low < high && high
                    <= u64::MAX + usize::MAX,
                _ => false,
            },
        decreases parts@.len() - i,
    {
        let len: usize = parts[i].1.len();
        if len > 0 {
            let first: u64 = parts[i].0;
            let end: u128 = first as u128 + len as u128;
            bounds = match bounds {
                None => Some((first, end)),
                Some((low, high)) => Some(
                    (
                        if first < low {
                            first
                        } else {
                            low
                        },
                        if end > high {
                            end
                        } else {
                            high
                        },
                    ),
                ),
            };
        }
        i = i + 1;
    }
    match bounds {
        None => Ok((0, Vec::new())),
        Some((low, high)) => {
            let span: u128 = high - low as u128;
            if span > usize::MAX as u128 {
                return Err(ProjectError::MalformedSection);
            }
            let len: usize = span as usize;
            let mut memory: Vec<u8> = Vec::new();
            let mut k: usize = 0;
            while k < len
                invariant
                    0 <= k <= len,
                    low + len <= u64::MAX + usize::MAX,
                    memory@.len() == k,
                    forall|j: int|
                        0 <= j < k ==> #[trigger] memory@[j] == image_byte(
                            parts@,
                            parts@.len() as int,
                            low + j,
                        ),
                decreases len - k,
            {
                memory.push(byte_of_image(parts, low as u128 + k as u128));
                k = k + 1;
            }
            Ok((low, memory))
        },
    }
}

} // verus!
