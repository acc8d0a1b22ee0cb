//! The build attributes of an ARM binary: the section `.ARM.attributes`.
//!
//! The section begins with the format version `A`. Subsections follow,
//! each with its length in four bytes, low byte first, and the name of its
//! vendor, which a zero byte ends. The subsection of the vendor `aeabi` is
//! made of parts, each with a tag of one byte (1 for the whole file) and a
//! length in four bytes. A part is a list of attributes: a tag, as a number
//! of variable length, with a value, which is such a number or a text that a
//! zero byte ends. The attribute with the tag 6 names the architecture.

use vstd::prelude::*;
use crate::arm::ArmIsa;
use crate::error::ArchError;

verus! {

/// The tag of the attribute that names the architecture.
pub const TAG_CPU_ARCH: u64 = 6;

/// The number that stands for ARMv6-M.
pub const ARCH_V6M: u64 = 11;

/// The number that stands for ARMv6S-M, which has the instructions of
/// ARMv6-M.
pub const ARCH_V6SM: u64 = 12;

/// The number that stands for ARMv7E-M.
pub const ARCH_V7EM: u64 = 13;

/// What reading a number of variable length gives: the number, and the
/// position behind it.
pub struct Number {
    pub value: u64,
    pub next: usize,
}

/// The number of variable length at `pos`, read from its lowest seven bits
/// on: every byte gives seven bits, and a byte below 128 is the last. There
/// is none where the bytes end before `end` allows, or the number has more
/// than nine bytes. `shift` is the number of bits read so far and `low` what
/// they hold.
pub open spec fn spec_uleb(data: Seq<u8>, pos: int, end: int, shift: int, low: u64) -> Option<
    Number,
>
    decreases end - pos,
{
    if pos < 0 || pos >= end || end > data.len() || shift < 0 || shift > 56 {
        None
    } else {
        let value = low | (((data[pos] & 0x7f) as u64) << (shift as u64));
        if data[pos] < 0x80 {
            Some(Number { value, next: (pos + 1) as usize })
        } else {
            spec_uleb(data, pos + 1, end, shift + 7, value)
        }
    }
}

/// The position behind the text at `pos`, which a zero byte ends; none
/// where there is no zero byte before `end`.
pub open spec fn spec_skip_text(data: Seq<u8>, pos: int, end: int) -> Option<usize>
    decreases end - pos,
{
    if pos < 0 || pos >= end || end > data.len() {
        None
    } else if data[pos] == 0 {
        Some((pos + 1) as usize)
    } else {
        spec_skip_text(data, pos + 1, end)
    }
}

/// Whether the value of the attribute with the tag `tag` is a text: the
/// tags 4 and 5 and every odd tag above 32.
pub open spec fn has_text(tag: u64) -> bool {
    tag == 4 || tag == 5 || (tag > 32 && tag % 2 == 1)
}

/// The four bytes at `pos` as a number, low byte first.
pub open spec fn spec_u32(data: Seq<u8>, pos: int) -> Option<u32> {
    if 0 <= pos && pos + 4 <= data.len() {
        Some(
            (data[pos] as u32) | ((data[pos + 1] as u32) << 8) | ((data[pos + 2] as u32) << 16) | ((
            data[pos + 3] as u32) << 24),
        )
    } else {
        None
    }
}

/// What a list of attributes says of the architecture.
pub enum Found {
    /// The architecture is the one of this number.
    Arch(u64),
    /// The list does not name the architecture.
    Nothing,
    /// The list cannot be read.
    Broken,
}

/// What the attributes from `pos` to `end` say of the architecture: the
/// value of the first attribute with the tag 6.
pub open spec fn spec_attributes(data: Seq<u8>, pos: int, end: int) -> Found
    decreases end - pos,
{
    if pos >= end {
        Found::Nothing
    } else {
        match spec_uleb(data, pos, end, 0, 0) {
            None => Found::Broken,
            Some(tag) => if tag.value == TAG_CPU_ARCH {
                match spec_uleb(data, tag.next as int, end, 0, 0) {
                    Some(value) => Found::Arch(value.value),
                    None => Found::Broken,
                }
            } else {
                let flag = if tag.value == 32 {
                    spec_uleb(data, tag.next as int, end, 0, 0)
                } else {
                    Some(Number { value: 0, next: tag.next })
                };
                match flag {
                    None => Found::Broken,
                    Some(flag) => {
                        let behind = if has_text(tag.value) || tag.value == 32 {
                            spec_skip_text(data, flag.next as int, end)
                        } else {
                            match spec_uleb(data, flag.next as int, end, 0, 0) {
                                Some(value) => Some(value.next),
                                None => None,
                            }
                        };
                        match behind {
                            Some(next) => if pos < next <= end {
                                spec_attributes(data, next as int, end)
                            } else {
                                Found::Broken
                            },
                            None => Found::Broken,
                        }
                    },
                }
            },
        }
    }
}

/// What the parts from `pos` to `end` say of the architecture: what the
/// first part for the whole file that names it says.
pub open spec fn spec_parts(data: Seq<u8>, pos: int, end: int) -> Found
    decreases end - pos,
{
    if pos >= end {
        Found::Nothing
    } else if pos < 0 || pos + 5 > end || end > data.len() {
        Found::Broken
    } else {
        let size = spec_u32(data, pos + 1).unwrap() as int;
        if size < 5 || pos + size > end {
            Found::Broken
        } else {
            let inside = if data[pos] == 1 {
                spec_attributes(data, pos + 5, pos + size)
            } else {
                Found::Nothing
            };
            match inside {
                Found::Nothing => spec_parts(data, pos + size, end),
                found => found,
            }
        }
    }
}

/// Whether the text at `pos` is `aeabi` with its zero byte.
pub open spec fn is_aeabi(data: Seq<u8>, pos: int) -> bool {
    0 <= pos && pos + 6 <= data.len() && data[pos] == 0x61 && data[pos + 1] == 0x65 && data[pos
        + 2] == 0x61 && data[pos + 3] == 0x62 && data[pos + 4] == 0x69 && data[pos + 5] == 0
}

/// What the subsections from `pos` on say of the architecture: what the
/// first subsection of the vendor `aeabi` that names it says.
pub open spec fn spec_subsections(data: Seq<u8>, pos: int) -> Found
    decreases data.len() - pos,
{
    if pos >= data.len() {
        Found::Nothing
    } else if pos < 0 || pos + 4 > data.len() {
        Found::Broken
    } else {
        let length = spec_u32(data, pos).unwrap() as int;
        if length < 5 || pos + length > data.len() {
            Found::Broken
        } else {
            let inside = if is_aeabi(data, pos + 4) && length >= 10 {
                spec_parts(data, pos + 10, pos + length)
            } else {
                Found::Nothing
            };
            match inside {
                Found::Nothing => spec_subsections(data, pos + length),
                found => found,
            }
        }
    }
}

/// The instruction set that the attributes name: ARMv6-M for the
/// architectures 11 and 12, ARMv7E-M for 13. They are malformed where they
/// do not begin with `A` or cannot be read; an architecture that is another
/// one, or is not named, is not supported.
pub open spec fn spec_arm_isa(data: Seq<u8>) -> Result<ArmIsa, ArchError> {
    if data.len() == 0 || data[0] != 0x41 {
        Err(ArchError::MalformedSection)
    } else {
        match spec_subsections(data, 1) {
            Found::Arch(arch) => if arch == ARCH_V6M || arch == ARCH_V6SM {
                Ok(ArmIsa::ArmV6M)
            } else if arch == ARCH_V7EM {
                Ok(ArmIsa::ArmV7EM)
            } else {
                Err(ArchError::UnsuportedArchitechture)
            },
            Found::Nothing => Err(ArchError::UnsuportedArchitechture),
            Found::Broken => Err(ArchError::MalformedSection),
        }
    }
}

/// The number of variable length at `pos`.
fn uleb(data: &[u8], pos: usize, end: usize) -> (r: Option<Number>)
    ensures
        r == spec_uleb(data@, pos as int, end as int, 0, 0),
        r matches Some(n) ==> pos < n.next <= end,
{
    let mut value: u64 = 0;
    let mut shift: u32 = 0;
    let mut at: usize = pos;
    while at < end && end <= data.len() && shift <= 56
        invariant
            pos <= at,
            shift == 7 * (at - pos),
            spec_uleb(data@, at as int, end as int, shift as int, value) == spec_uleb(
                data@,
                pos as int,
                end as int,
                0,
                0,
            ),
        decreases end - at,
    {
        let byte: u8 = data[at];
        let next: u64 = value | (((byte & 0x7f) as u64) << shift);
        if byte < 0x80 {
            return Some(Number { value: next, next: at + 1 });
        }
        value = next;
        shift = shift + 7;
        at = at + 1;
    }
    None
}

/// The position behind the text at `pos`.
fn skip_text(data: &[u8], pos: usize, end: usize) -> (r: Option<usize>)
    ensures
        r == spec_skip_text(data@, pos as int, end as int),
        r matches Some(next) ==> pos < next <= end,
{
    let mut at: usize = pos;
    while at < end && end <= data.len()
        invariant
            pos <= at,
            spec_skip_text(data@, at as int, end as int) == spec_skip_text(
                data@,
                pos as int,
                end as int,
            ),
        decreases end - at,
    {
        if data[at] == 0 {
            return Some(at + 1);
        }
        at = at + 1;
    }
    None
}

/// The four bytes at `pos` as a number, low byte first.
fn u32_at(data: &[u8], pos: usize) -> (r: Option<u32>)
    ensures
        r == spec_u32(data@, pos as int),
{
    if data.len() < 4 || pos > data.len() - 4 {
        return None;
    }
    Some(
        (data[pos] as u32) | ((data[pos + 1] as u32) << 8) | ((data[pos + 2] as u32) << 16) | ((
        data[pos + 3] as u32) << 24),
    )
}

/// What the attributes from `pos` to `end` say of the architecture.
fn attributes(data: &[u8], pos: usize, end: usize) -> (r: Found)
    ensures
        r == spec_attributes(data@, pos as int, end as int),
{
    let mut at: usize = pos;
    while at < end
        invariant
            spec_attributes(data@, at as int, end as int) == spec_attributes(
                data@,
                pos as int,
                end as int,
            ),
        decreases end - at,
    {
        let tag: Number = match uleb(data, at, end) {
            Some(tag) => tag,
            None => {
                return Found::Broken;
            },
        };
        if tag.value == TAG_CPU_ARCH {
            return match uleb(data, tag.next, end) {
                Some(value) => Found::Arch(value.value),
                None => Found::Broken,
            };
        }
        let mut from: usize = tag.next;
        if tag.value == 32 {
            match uleb(data, from, end) {
                Some(flag) => {
                    from = flag.next;
                },
                None => {
                    return Found::Broken;
                },
            }
        }
        let text: bool = tag.value == 4 || tag.value == 5 || (tag.value > 32 && tag.value % 2
            == 1) || tag.value == 32;
        let behind: Option<usize> = if text {
            skip_text(data, from, end)
        } else {
            match uleb(data, from, end) {
                Some(value) => Some(value.next),
                None => None,
            }
        };
        match behind {
            Some(next) => {
                at = next;
            },
            None => {
                return Found::Broken;
            },
        }
    }
    Found::Nothing
}

/// What the parts from `pos` to `end` say of the architecture.
fn parts(data: &[u8], pos: usize, end: usize) -> (r: Found)
    ensures
        r == spec_parts(data@, pos as int, end as int),
{
    let mut at: usize = pos;
    while at < end
        invariant
            spec_parts(data@, at as int, end as int) == spec_parts(data@, pos as int, end as int),
        decreases end - at,
    {
        if end > data.len() || end - at < 5 {
            return Found::Broken;
        }
        let size: usize = match u32_at(data, at + 1) {
            Some(size) => size as usize,
            None => {
                return Found::Broken;
            },
        };
        if size < 5 || size > end - at {
            return Found::Broken;
        }
        if data[at] == 1 {
            match attributes(data, at + 5, at + size) {
                Found::Nothing => {},
                found => {
                    return found;
                },
            }
        }
        at = at + size;
    }
    Found::Nothing
}

/// Whether the text at `pos` is `aeabi` with its zero byte.
fn aeabi_at(data: &[u8], pos: usize) -> (r: bool)
    ensures
        r == is_aeabi(data@, pos as int),
{
    if data.len() < 6 || pos > data.len() - 6 {
        return false;
    }
    data[pos] == 0x61 && data[pos + 1] == 0x65 && data[pos + 2] == 0x61 && data[pos + 3] == 0x62
        && data[pos + 4] == 0x69 && data[pos + 5] == 0
}

/// The instruction set that the build attributes of a binary name: see
/// [`spec_arm_isa`].
pub fn arm_isa(data: &[u8]) -> (r: Result<ArmIsa, ArchError>)
    ensures
        r == spec_arm_isa(data@),
{
    if data.len() == 0 || data[0] != 0x41 {
        return Err(ArchError::MalformedSection);
    }
    let mut at: usize = 1;
    while at < data.len()
        invariant
            data@.len() > 0,
            data@[0] == 0x41,
            spec_subsections(data@, at as int) == spec_subsections(data@, 1),
        decreases data@.len() - at,
    {
        let length: usize = match u32_at(data, at) {
            Some(length) => length as usize,
            None => {
                return Err(ArchError::MalformedSection);
            },
        };
        if length < 5 || length > data.len() - at {
            return Err(ArchError::MalformedSection);
        }
        if aeabi_at(data, at + 4) && length >= 10 {
            match parts(data, at + 10, at + length) {
                Found::Nothing => {},
                Found::Arch(arch) => {
                    return if arch == ARCH_V6M || arch == ARCH_V6SM {
                        Ok(ArmIsa::ArmV6M)
                    } else if arch == ARCH_V7EM {
                        Ok(ArmIsa::ArmV7EM)
                    } else {
                        Err(ArchError::UnsuportedArchitechture)
                    };
                },
                Found::Broken => {
                    return Err(ArchError::MalformedSection);
                },
            }
        }
        at = at + length;
    }
    Err(ArchError::UnsuportedArchitechture)
}

} // verus!
