//! The ARM architectures: ARMv6-M with its hooks and its instruction
//! parser, and the discovery of the architecture of a binary.

use vstd::prelude::*;
use crate::dwarf_helper::SubProgramMap;
use crate::error::{ArchError, ParseError};
use crate::general::DataWord;
use crate::hooks::{
    hooked,
    resolvable,
    HookContainer,
    Intrinsic,
    MemoryReadHook,
    PCHook2,
    RegisterReadHook,
    RegisterWriteHook,
};
use crate::text::same_text;

verus! {

#[verifier::external_type_specification]
#[verifier::external_body]
pub struct ExParsedInstruction(armv6_m_instruction_parser::instructons::Instruction);

/// Type level denotation for the Armv6-M ISA.
#[derive(Clone, Copy, Debug)]
pub struct ArmV6M {}

/// Type level denotation for the Armv7E-M ISA.
#[derive(Clone, Copy, Debug)]
pub struct ArmV7EM {}

/// The instruction sets that the attributes of an ARM binary name.
#[derive(Debug, Clone, Copy, PartialEq, Eq, Structural)]
pub enum ArmIsa {
    ArmV6M,
    ArmV7EM,
}

/// Enumerates all of the discoverable machine code formats.
#[derive(Clone, Copy, Debug)]
pub enum SupportedArchitechture {
    ArmV7EM(ArmV7EM),
    ArmV6M(ArmV6M),
}

/// What discovery looks at in a binary.
#[derive(Debug)]
pub struct BinaryInfo {
    /// Whether the binary is made for ARM.
    pub is_arm: bool,
    /// Whether the binary is a 32-bit ELF file.
    pub is_elf32: bool,
    /// What the section `.ARM.attributes` says of the instruction set, if
    /// the binary has that section.
    pub arm_attributes: Option<Result<ArmIsa, ArchError>>,
}

/// Why the parser did not give an instruction.
#[derive(Debug, Clone, Copy, PartialEq, Eq, Structural)]
pub enum ParserError {
    InsufficientInput,
    Malfromed32BitInstruction,
    Invalid32BitInstruction,
    InvalidOpCode,
    Unpredictable,
    InvalidRegister,
    InvalidCondition,
}

/// An instruction as the parser gives it.
#[derive(Debug)]
pub struct Decoded {
    /// Size of the instruction in bits: 16 or 32.
    pub size_bits: u32,
    /// The instruction in the parser's terms.
    pub instruction: armv6_m_instruction_parser::instructons::Instruction,
}

/// Whether the bytes begin with a 32-bit instruction: the leading five bits
/// of the first halfword, which is stored with its low byte first, are
/// 11101, 11110 or 11111.
pub open spec fn is_wide(buff: Seq<u8>) -> bool {
    buff.len() >= 2 && (buff[1] >> 3) >= 0b11101
}

/// The bytes are too few for an instruction.
pub open spec fn lacks_halfword(buff: Seq<u8>) -> bool {
    buff.len() < 2
}

/// The bytes begin a 32-bit instruction and are too few for it.
pub open spec fn lacks_second_halfword(buff: Seq<u8>) -> bool {
    is_wide(buff) && buff.len() < 4
}

/// The parser's message for bytes that are too few, if they are.
pub open spec fn message_for_short(buff: Seq<u8>) -> Option<Seq<char>> {
    if lacks_halfword(buff) {
        Some("input not long enough for a instruction"@)
    } else if lacks_second_halfword(buff) {
        Some("32 bit instruction not long enough"@)
    } else {
        None
    }
}

/// The size in bits of the instruction that the bytes begin with.
pub open spec fn size_of(buff: Seq<u8>) -> u32 {
    if is_wide(buff) {
        32
    } else {
        16
    }
}

/// The parser's error message for each kind of failure.
pub open spec fn kind_of(message: Seq<char>) -> Option<ParserError> {
    if message == "input not long enough for a instruction"@ {
        Some(ParserError::InsufficientInput)
    } else if message == "32 bit instruction not long enough"@ {
        Some(ParserError::Malfromed32BitInstruction)
    } else if message == "opcode not matching valid 32 bit instruction"@ {
        Some(ParserError::Invalid32BitInstruction)
    } else if message == "Invalid opcode"@ || message == "invalid opcode"@ || message
        == "Not a valid op code"@ || message == "Not a valid opcode"@ || message
        == "not a valid opcode"@ {
        Some(ParserError::InvalidOpCode)
    } else if message == "unpredictable"@ {
        Some(ParserError::Unpredictable)
    } else if message == "Not a valid register."@ || message == "not a valid register"@ {
        Some(ParserError::InvalidRegister)
    } else if message == "Invalid condition"@ {
        Some(ParserError::InvalidCondition)
    } else {
        None
    }
}

/// The error for a message of the parser: what [`map_err`] makes of the
/// kind of failure that the message stands for, and for a message that
/// stands for none, a generic parse error that holds the message.
pub open spec fn refusal_error(message: Seq<char>, error: ArchError) -> bool {
    match kind_of(message) {
        Some(kind) => error == spec_map_err(kind),
        None => error matches ArchError::ParsingError(ParseError::Generic(text)) && text@
            == message,
    }
}

/// The architecture error for each kind of parser failure.
pub open spec fn spec_map_err(err: ParserError) -> ArchError {
    ArchError::ParsingError(
        match err {
            ParserError::InsufficientInput => ParseError::InsufficientInput,
            ParserError::Malfromed32BitInstruction => ParseError::MalfromedInstruction,
            ParserError::Invalid32BitInstruction => ParseError::InvalidInstruction,
            ParserError::InvalidOpCode => ParseError::InvalidInstruction,
            ParserError::Unpredictable => ParseError::Unpredictable,
            ParserError::InvalidRegister => ParseError::InvalidRegister,
            ParserError::InvalidCondition => ParseError::InvalidCondition,
        },
    )
}

/// What `armv6_m_instruction_parser::parse` makes of the bytes: nothing
/// where it gives an instruction, and else its message.
pub uninterp spec fn parser_refusal(buff: Seq<u8>) -> Option<Seq<char>>;

/// `armv6_m_instruction_parser::parse`: the instruction that the bytes
/// begin with, or the parser's message, as [`parser_refusal`] names it.
/// Fewer than two bytes give no instruction, nor do fewer than four where
/// the first halfword begins a 32-bit instruction; an instruction that is
/// given has the size that the first halfword says.
#[verifier::external_body]
fn parse(buff: &[u8]) -> (r: Result<Decoded, String>)
    ensures
        r matches Ok(decoded) ==> parser_refusal(buff@) is None && message_for_short(buff@)
            is None && decoded.size_bits == size_of(buff@),
        r matches Err(message) ==> parser_refusal(buff@) == Some(message@) && (
        message_for_short(buff@) is None || message_for_short(buff@) == Some(message@)),
{
    match armv6_m_instruction_parser::parse(buff) {
        Ok(instruction) => Ok(
            Decoded {
                size_bits: match instruction.width {
                    armv6_m_instruction_parser::instructons::InstructionWidth::Bit32 => 32,
                    armv6_m_instruction_parser::instructons::InstructionWidth::Bit16 => 16,
                },
                instruction,
            },
        ),
        Err(message) => Err(message.to_owned()),
    }
}

/// The kind of failure that a message of the parser stands for.
pub fn classify(message: &str) -> (r: Option<ParserError>)
    ensures
        r == kind_of(message@),
{
    if same_text(message, "input not long enough for a instruction") {
        Some(ParserError::InsufficientInput)
    } else if same_text(message, "32 bit instruction not long enough") {
        Some(ParserError::Malfromed32BitInstruction)
    } else if same_text(message, "opcode not matching valid 32 bit instruction") {
        Some(ParserError::Invalid32BitInstruction)
    } else if same_text(message, "Invalid opcode") || same_text(message, "invalid opcode")
        || same_text(message, "Not a valid op code") || same_text(message, "Not a valid opcode")
        || same_text(message, "not a valid opcode") {
        Some(ParserError::InvalidOpCode)
    } else if same_text(message, "unpredictable") {
        Some(ParserError::Unpredictable)
    } else if same_text(message, "Not a valid register.") || same_text(
        message,
        "not a valid register",
    ) {
        Some(ParserError::InvalidRegister)
    } else if same_text(message, "Invalid condition") {
        Some(ParserError::InvalidCondition)
    } else {
        None
    }
}

/// The architecture error for each kind of parser failure.
pub fn map_err(err: ParserError) -> (r: ArchError)
    ensures
        r == spec_map_err(err),
{
    ArchError::ParsingError(
        match err {
            ParserError::InsufficientInput => ParseError::InsufficientInput,
            ParserError::Malfromed32BitInstruction => ParseError::MalfromedInstruction,
            ParserError::Invalid32BitInstruction => ParseError::InvalidInstruction,
            ParserError::InvalidOpCode => ParseError::InvalidInstruction,
            ParserError::Unpredictable => ParseError::Unpredictable,
            ParserError::InvalidRegister => ParseError::InvalidRegister,
            ParserError::InvalidCondition => ParseError::InvalidCondition,
        },
    )
}

/// The read hook yields the value of `register` plus `offset`.
pub open spec fn reads_with_offset(hook: RegisterReadHook, register: Seq<char>, offset: u64) -> bool {
    hook matches RegisterReadHook::Offset { register: from, offset: by } && from@ == register
        && by == offset
}

/// The write hook hands the value to `register`.
pub open spec fn writes_to(hook: RegisterWriteHook, register: Seq<char>) -> bool {
    hook matches RegisterWriteHook::Redirect { register: to } && to@ == register
}

/// One entry of the table is new or replaced; all others are as before.
pub open spec fn one_entry_set<V>(before: Map<Seq<char>, V>, after: Map<Seq<char>, V>, key: Seq<
    char,
>) -> bool {
    &&& after.dom() == before.dom().insert(key)
    &&& forall|k: Seq<char>| #[trigger] before.contains_key(k) && k != key ==> after[k] == before[k]
}

/// The hooks of the ARM architectures were added to a container:
///
/// - at the start of a function whose name matches `^symbolic_size<.+>$`,
///   if there is one, the intrinsic that makes memory symbolic;
/// - for reads of the register `PC+` the program counter plus one, and for
///   writes to it the program counter;
/// - for reads of the address `0x4000c008`, where the hardware says whether
///   its reset is done, the constant of 32 set bits.
pub open spec fn arm_hooks_added(
    before: HookContainer,
    after: HookContainer,
    map: SubProgramMap,
) -> bool {
    &&& after.wf()
    &&& if resolvable(map, "^symbolic_size<.+>$"@) {
        hooked(
            before.pc_hooks(),
            after.pc_hooks(),
            map,
            "^symbolic_size<.+>$"@,
            PCHook2::Intrinsic(Intrinsic::SymbolicSize),
        )
    } else {
        after.pc_hooks() == before.pc_hooks()
    }
    &&& one_entry_set(
        before.register_read_hook.entries(),
        after.register_read_hook.entries(),
        "PC+"@,
    )
    &&& reads_with_offset(after.register_read_hook.entries()["PC+"@], "PC"@, 1)
    &&& one_entry_set(
        before.register_write_hook.entries(),
        after.register_write_hook.entries(),
        "PC+"@,
    )
    &&& writes_to(after.register_write_hook.entries()["PC+"@], "PC"@)
    &&& after.single_memory_read_hook.entries()
        == before.single_memory_read_hook.entries().insert(
        0x4000c008,
        MemoryReadHook::Constant(DataWord::Word32(0xffff_ffff)),
    )
    &&& after.single_memory_write_hook.entries() == before.single_memory_write_hook.entries()
    &&& after.range_memory_read_hook@ == before.range_memory_read_hook@
    &&& after.range_memory_write_hook@ == before.range_memory_write_hook@
}

/// Adds the hooks of the ARM architectures: see [`arm_hooks_added`].
pub fn add_arm_hooks(cfg: &mut HookContainer, sub_program_lookup: &SubProgramMap)
    requires
        old(cfg).wf(),
        sub_program_lookup.wf(),
    ensures
        arm_hooks_added(*old(cfg), *final(cfg), *sub_program_lookup),
{
    let _ = cfg.add_pc_hook_regex(
        sub_program_lookup,
        "^symbolic_size<.+>$",
        PCHook2::Intrinsic(Intrinsic::SymbolicSize),
    );
    cfg.add_register_read_hook(
        "PC+".to_owned(),
        RegisterReadHook::Offset { register: "PC".to_owned(), offset: 1 },
    );
    cfg.add_register_write_hook(
        "PC+".to_owned(),
        RegisterWriteHook::Redirect { register: "PC".to_owned() },
    );
    // Reset always done.
    cfg.add_memory_read_hook(
        0x4000c008,
        MemoryReadHook::Constant(DataWord::Word32(0xffff_ffff)),
    );
    proof {
        assert(final(cfg).register_read_hook.entries().dom() =~= old(cfg).register_read_hook.entries().dom().insert("PC+"@));
        assert(final(cfg).register_write_hook.entries().dom() =~= old(cfg).register_write_hook.entries().dom().insert("PC+"@));
    }
}


/// Something that has hooks.
pub trait Hookable {
    /// Adds the hooks to the container.
    fn add_hooks(&self, cfg: &mut HookContainer, sub_program_lookup: &SubProgramMap)
        requires
            old(cfg).wf(),
            sub_program_lookup.wf(),
        ensures
            final(cfg).wf(),
    ;
}

impl Hookable for ArmV6M {
    /// Adds the hooks of the architecture: see [`arm_hooks_added`].
    fn add_hooks(&self, cfg: &mut HookContainer, sub_program_lookup: &SubProgramMap)
        ensures
            arm_hooks_added(*old(cfg), *final(cfg), *sub_program_lookup),
    {
        add_arm_hooks(cfg, sub_program_lookup)
    }
}

impl Hookable for ArmV7EM {
    /// Adds the hooks of the architecture: see [`arm_hooks_added`].
    fn add_hooks(&self, cfg: &mut HookContainer, sub_program_lookup: &SubProgramMap)
        ensures
            arm_hooks_added(*old(cfg), *final(cfg), *sub_program_lookup),
    {
        add_arm_hooks(cfg, sub_program_lookup)
    }
}

impl Hookable for SupportedArchitechture {
    /// Adds the hooks of the architecture: see [`arm_hooks_added`].
    fn add_hooks(&self, cfg: &mut HookContainer, sub_program_lookup: &SubProgramMap)
        ensures
            arm_hooks_added(*old(cfg), *final(cfg), *sub_program_lookup),
    {
        match self {
            SupportedArchitechture::ArmV7EM(v7) => v7.add_hooks(cfg, sub_program_lookup),
            SupportedArchitechture::ArmV6M(v6) => v6.add_hooks(cfg, sub_program_lookup),
        }
    }
}

impl ArmV6M {
    pub fn new() -> (r: Self) {
        ArmV6M {  }
    }

    /// The name of the architecture.
    pub fn to_string(&self) -> (r: String)
        ensures
            r@ == "ARMv6-M"@,
    {
        "ARMv6-M".to_owned()
    }

    /// Parses the instruction that the bytes begin with. An instruction
    /// that the parser gives is 32 bits wide where the first halfword says
    /// so, and else 16. Where the parser refuses, its message decides the
    /// error: see [`refusal_error`]. Fewer than two bytes, and fewer than
    /// four where a 32-bit instruction begins, give the parse errors that
    /// [`map_err`] makes of insufficient input and of a malformed
    /// instruction.
    pub fn decode(&self, buff: &[u8]) -> (r: Result<Decoded, ArchError>)
        ensures
            match parser_refusal(buff@) {
                None => r matches Ok(decoded) && decoded.size_bits == size_of(buff@),
                Some(message) => r matches Err(e) && refusal_error(message, e),
            },
            lacks_halfword(buff@) ==> r == Err::<Decoded, ArchError>(
                spec_map_err(ParserError::InsufficientInput),
            ),
            lacks_second_halfword(buff@) ==> r == Err::<Decoded, ArchError>(
                spec_map_err(ParserError::Malfromed32BitInstruction),
            ),
            r matches Ok(decoded) ==> decoded.size_bits == size_of(buff@) && buff@.len()
                >= decoded.size_bits / 8,
            r matches Err(e) ==> e is ParsingError,
    {
        proof {
            reveal_strlit("input not long enough for a instruction");
            reveal_strlit("32 bit instruction not long enough");
            assert("input not long enough for a instruction"@[0] == 'i');
            assert("32 bit instruction not long enough"@[0] == '3');
        }
        match parse(buff) {
            Ok(decoded) => Ok(decoded),
            Err(message) => match classify(message.as_str()) {
                Some(kind) => Err(map_err(kind)),
                None => Err(ArchError::ParsingError(ParseError::Generic(message))),
            },
        }
    }

    /// Returns an instance of self if the binary is made for this
    /// architecture: none where its attributes name another instruction
    /// set. Fails with `IncorrectFileType` where the binary is no 32-bit ELF
    /// file, else with `MissingSection` where it has no section
    /// `.ARM.attributes`, and else with what reading that section failed
    /// with.
    pub fn discover(file: &BinaryInfo) -> (r: Result<Option<Self>, ArchError>)
        ensures
            match r {
                Ok(found) => file.is_elf32 && (file.arm_attributes matches Some(Ok(isa)) && (
                found is Some <==> isa == ArmIsa::ArmV6M)),
                Err(e) => if !file.is_elf32 {
                    e == ArchError::IncorrectFileType
                } else {
                    match file.arm_attributes {
                        None => e matches ArchError::MissingSection(name) && name@
                            == ".ARM.attributes"@,
                        Some(Err(inner)) => e == inner,
                        Some(Ok(_)) => false,
                    }
                },
            },
    {
        if !file.is_elf32 {
            return Err(ArchError::IncorrectFileType);
        }
        match &file.arm_attributes {
            None => Err(ArchError::MissingSection(".ARM.attributes".to_owned())),
            Some(Err(e)) => Err(e.clone()),
            Some(Ok(ArmIsa::ArmV6M)) => Ok(Some(ArmV6M {  })),
            Some(Ok(ArmIsa::ArmV7EM)) => Ok(None),
        }
    }
}

impl ArmV7EM {
    /// Returns an instance of self if the binary is made for this
    /// architecture: none where its attributes name another instruction
    /// set. Fails with `IncorrectFileType` where the binary is no 32-bit ELF
    /// file, else with `MissingSection` where it has no section
    /// `.ARM.attributes`, and else with what reading that section failed
    /// with.
    pub fn discover(file: &BinaryInfo) -> (r: Result<Option<Self>, ArchError>)
        ensures
            match r {
                Ok(found) => file.is_elf32 && (file.arm_attributes matches Some(Ok(isa)) && (
                found is Some <==> isa == ArmIsa::ArmV7EM)),
                Err(e) => if !file.is_elf32 {
                    e == ArchError::IncorrectFileType
                } else {
                    match file.arm_attributes {
                        None => e matches ArchError::MissingSection(name) && name@
                            == ".ARM.attributes"@,
                        Some(Err(inner)) => e == inner,
                        Some(Ok(_)) => false,
                    }
                },
            },
    {
        if !file.is_elf32 {
            return Err(ArchError::IncorrectFileType);
        }
        match &file.arm_attributes {
            None => Err(ArchError::MissingSection(".ARM.attributes".to_owned())),
            Some(Err(e)) => Err(e.clone()),
            Some(Ok(ArmIsa::ArmV7EM)) => Ok(Some(ArmV7EM {  })),
            Some(Ok(ArmIsa::ArmV6M)) => Ok(None),
        }
    }
}

impl SupportedArchitechture {
    /// Discovers all supported binary formats from the binary file. A
    /// binary that is not made for ARM is `UnsuportedArchitechture`; one
    /// that is, is of the instruction set that its attributes name, and
    /// fails as the discovery of ARMv7E-M does where that cannot be told.
    pub fn discover(obj_file: &BinaryInfo) -> (r: Result<Self, ArchError>)
        ensures
            match r {
                Ok(SupportedArchitechture::ArmV7EM(_)) => obj_file.is_arm && obj_file.is_elf32
                    && obj_file.arm_attributes == Some(Ok::<ArmIsa, ArchError>(ArmIsa::ArmV7EM)),
                Ok(SupportedArchitechture::ArmV6M(_)) => obj_file.is_arm && obj_file.is_elf32
                    && obj_file.arm_attributes == Some(Ok::<ArmIsa, ArchError>(ArmIsa::ArmV6M)),
                Err(e) => if !obj_file.is_arm {
                    e == ArchError::UnsuportedArchitechture
                } else if !obj_file.is_elf32 {
                    e == ArchError::IncorrectFileType
                } else {
                    match obj_file.arm_attributes {
                        None => e matches ArchError::MissingSection(name) && name@
                            == ".ARM.attributes"@,
                        Some(Err(inner)) => e == inner,
                        Some(Ok(_)) => false,
                    }
                },
            },
    {
        if obj_file.is_arm {
            // Run the paths with architecture specific data.
            match ArmV7EM::discover(obj_file) {
                Ok(Some(v7)) => {
                    return Ok(SupportedArchitechture::ArmV7EM(v7));
                },
                Ok(None) => {},
                Err(e) => {
                    return Err(e);
                },
            }
            match ArmV6M::discover(obj_file) {
                Ok(Some(v6)) => {
                    return Ok(SupportedArchitechture::ArmV6M(v6));
                },
                Ok(None) => {},
                Err(e) => {
                    return Err(e);
                },
            }
        }
        Err(ArchError::UnsuportedArchitechture)
    }
}

} // verus!
