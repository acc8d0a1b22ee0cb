//! Word sizes, byte order and the data words read from a program image.

use vstd::prelude::*;

verus! {

/// Width of a machine word.
#[derive(Debug, Clone, Copy, PartialEq, Eq, Structural)]
pub enum WordSize {
    Bit64,
    Bit32,
    Bit16,
    Bit8,
}

/// Byte order of multi-byte memory accesses.
#[derive(Debug, Clone, Copy, PartialEq, Eq, Structural)]
pub enum Endianness {
    Little,
    Big,
}

impl WordSize {
    /// Number of bits in a word of this size.
    pub open spec fn spec_bits(self) -> u32 {
        match self {
            WordSize::Bit64 => 64,
            WordSize::Bit32 => 32,
            WordSize::Bit16 => 16,
            WordSize::Bit8 => 8,
        }
    }

    /// Number of bits in a word of this size.
    #[verifier::when_used_as_spec(spec_bits)]
    pub fn bits(self) -> (r: u32)
        ensures
            r == self.spec_bits(),
    {
        match self {
            WordSize::Bit64 => 64,
            WordSize::Bit32 => 32,
            WordSize::Bit16 => 16,
            WordSize::Bit8 => 8,
        }
    }
}

/// A value read from a program image, with its width.
#[derive(Debug, Clone, Copy, PartialEq, Eq, Structural)]
pub enum DataWord {
    Word64(u64),
    Word32(u32),
    Word16(u16),
    Word8(u8),
}

impl DataWord {
    /// Number of bits of the word.
    pub open spec fn spec_bits(self) -> u32 {
        match self {
            DataWord::Word64(_) => 64,
            DataWord::Word32(_) => 32,
            DataWord::Word16(_) => 16,
            DataWord::Word8(_) => 8,
        }
    }

    /// The number that the word holds.
    pub open spec fn spec_value(self) -> u64 {
        match self {
            DataWord::Word64(v) => v,
            DataWord::Word32(v) => v as u64,
            DataWord::Word16(v) => v as u64,
            DataWord::Word8(v) => v as u64,
        }
    }

    /// Number of bits of the word.
    #[verifier::when_used_as_spec(spec_bits)]
    pub fn bits(self) -> (r: u32)
        ensures
            r == self.spec_bits(),
    {
        match self {
            DataWord::Word64(_) => 64,
            DataWord::Word32(_) => 32,
            DataWord::Word16(_) => 16,
            DataWord::Word8(_) => 8,
        }
    }

    /// The number that the word holds.
    #[verifier::when_used_as_spec(spec_value)]
    pub fn value(self) -> (r: u64)
        ensures
            r == self.spec_value(),
    {
        match self {
            DataWord::Word64(v) => v,
            DataWord::Word32(v) => v as u64,
            DataWord::Word16(v) => v as u64,
            DataWord::Word8(v) => v as u64,
        }
    }
}

/// The number that a run of bytes stands for with the first byte lowest.
pub open spec fn le_value(bytes: Seq<u8>) -> nat
    decreases bytes.len(),
{
    if bytes.len() == 0 {
        0
    } else {
        bytes[0] as nat + 256 * le_value(bytes.skip(1))
    }
}

/// The number that a run of bytes stands for with the first byte highest.
pub open spec fn be_value(bytes: Seq<u8>) -> nat
    decreases bytes.len(),
{
    if bytes.len() == 0 {
        0
    } else {
        be_value(bytes.drop_last()) * 256 + bytes.last() as nat
    }
}

/// The number that a run of bytes stands for in the given byte order.
pub open spec fn bytes_value(bytes: Seq<u8>, endianness: Endianness) -> nat {
    match endianness {
        Endianness::Little => le_value(bytes),
        Endianness::Big => be_value(bytes),
    }
}

/// 256 to the power `n`.
pub open spec fn byte_range(n: nat) -> nat
    decreases n,
{
    if n == 0 {
        1
    } else {
        256 * byte_range((n - 1) as nat)
    }
}

/// A run of `n` bytes stands for a number below 256 to the power `n`, in
/// either byte order.
pub proof fn lemma_bytes_value_bound(bytes: Seq<u8>, endianness: Endianness)
    ensures
        bytes_value(bytes, endianness) < byte_range(bytes.len()),
    decreases bytes.len(),
{
    if bytes.len() > 0 {
        match endianness {
            Endianness::Little => {
                lemma_bytes_value_bound(bytes.skip(1), endianness);
            },
            Endianness::Big => {
                lemma_bytes_value_bound(bytes.drop_last(), endianness);
            },
        }
    }
}

} // verus!
