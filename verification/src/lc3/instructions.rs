//! The instruction codec: sixteen-bit machine words on one side, the
//! [`Instruction`] they stand for on the other.
use vstd::prelude::*;

verus! {

// The opcodes: the top four bits of a word.
pub const OPCODE_ADD: u16 = 0b0001;
pub const OPCODE_AND: u16 = 0b0101;
pub const OPCODE_BR: u16 = 0b0000;
pub const OPCODE_JMP: u16 = 0b1100;
pub const OPCODE_JSR: u16 = 0b0100;
pub const OPCODE_LD: u16 = 0b0010;
pub const OPCODE_LDI: u16 = 0b1010;
pub const OPCODE_LDR: u16 = 0b0110;
pub const OPCODE_LEA: u16 = 0b1110;
pub const OPCODE_NOT: u16 = 0b1001;
pub const OPCODE_RTI: u16 = 0b1000;
pub const OPCODE_ST: u16 = 0b0011;
pub const OPCODE_STI: u16 = 0b1011;
pub const OPCODE_STR: u16 = 0b0111;
pub const OPCODE_TRAP: u16 = 0b1111;
/// The one opcode the architecture leaves unassigned.
pub const OPCODE_RESERVED: u16 = 0b1101;

/// One decoded instruction. Register fields hold a register number, offset
/// and immediate fields hold the value already sign-extended to 16 bits.
#[derive(Clone, Copy, Debug, PartialEq, Eq, Structural)]
pub enum Instruction {
    Add { dest: u16, source_1: u16, source_2: u16 },
    AddImmediate { dest: u16, source: u16, value: u16 },
    And { dest: u16, source_1: u16, source_2: u16 },
    AndImmediate { dest: u16, source: u16, value: u16 },
    Br { n: bool, z: bool, p: bool, pc_offset: u16 },
    Jmp { base: u16 },
    Ret,
    Jsr { pc_offset: u16 },
    JsrR { base: u16 },
    Ld { dest: u16, pc_offset: u16 },
    LdI { dest: u16, pc_offset: u16 },
    LdR { dest: u16, base: u16, offset: u16 },
    Lea { dest: u16, pc_offset: u16 },
    Not { dest: u16, source: u16 },
    Rti,
    St { source: u16, pc_offset: u16 },
    StI { source: u16, pc_offset: u16 },
    StR { source: u16, base: u16, offset: u16 },
    Trap { vec: u16 },
    Illegal,
}

/// The word whose `size` lowest bits are set, and no others.
pub open spec fn low_mask(size: u16) -> u16 {
    if size >= 16 {
        0xFFFFu16
    } else {
        ((1u16 << size) - 1) as u16
    }
}

/// Bits `from` down to `to` of `word`, moved to the bottom of the result.
/// Bit 15 is the most significant, bit 0 the least.
pub open spec fn spec_slice_bits(word: u16, from: u16, to: u16) -> u16 {
    (word >> to) & low_mask((from - to + 1) as u16)
}

/// Whether bit `bit` of `word` is 1.
pub open spec fn spec_is_bit_set(word: u16, bit: u16) -> bool {
    word & (1u16 << bit) == (1u16 << bit)
}

/// `value` read as a two's-complement number of `width` bits and widened to
/// 16: where bit `width - 1` is set, every higher bit is set too.
pub open spec fn spec_sign_extend(value: u16, width: u16) -> u16 {
    if spec_is_bit_set(value, (width - 1) as u16) {
        value | !low_mask(width)
    } else {
        value
    }
}

/// Whether `value` is the sign extension of its own `width` lowest bits, that
/// is, whether a signed field of `width` bits can hold it.
pub open spec fn fits_signed(value: u16, width: u16) -> bool {
    spec_sign_extend(value & low_mask(width), width) == value
}

/// Bits `from` down to `to` of `word`, moved to the bottom of the result.
pub fn slice_bits(word: u16, from: u16, to: u16) -> (field: u16)
    requires
        to <= from <= 15,
    ensures
        field == spec_slice_bits(word, from, to),
        field <= low_mask((from - to + 1) as u16),
{
    let size: u16 = from - to + 1;
    let mask: u16 = if size == 16 {
        0xFFFF
    } else {
        assert((1u16 << size) >= 1) by (bit_vector)
            requires
                size < 16,
        ;
        (1u16 << size) - 1
    };
    let shifted: u16 = word >> to;
    assert(shifted & mask <= mask) by (bit_vector);
    shifted & mask
}

/// Whether bit `bit` of `word` is 1.
pub fn is_bit_set(word: u16, bit: u16) -> (set: bool)
    requires
        bit <= 15,
    ensures
        set == spec_is_bit_set(word, bit),
{
    word & (1u16 << bit) == (1u16 << bit)
}

/// `value`, a two's-complement number of `width` bits, widened to 16 bits.
pub fn sign_extend(value: u16, width: u16) -> (extended: u16)
    requires
        1 <= width <= 16,
    ensures
        extended == spec_sign_extend(value, width),
{
    if width == 16 {
        assert(value | !0xFFFFu16 == value) by (bit_vector);
        value
    } else if is_bit_set(value, width - 1) {
        assert((1u16 << width) >= 1) by (bit_vector)
            requires
                width < 16,
        ;
        value | !((1u16 << width) - 1)
    } else {
        value
    }
}


impl Instruction {
    /// Every register field names one of the eight registers.
    pub open spec fn well_formed(self) -> bool {
        match self {
            Instruction::Add { dest, source_1, source_2 } => dest < 8 && source_1 < 8 && source_2
                < 8,
            Instruction::AddImmediate { dest, source, .. } => dest < 8 && source < 8,
            Instruction::And { dest, source_1, source_2 } => dest < 8 && source_1 < 8 && source_2
                < 8,
            Instruction::AndImmediate { dest, source, .. } => dest < 8 && source < 8,
            Instruction::Jmp { base } => base < 8,
            Instruction::JsrR { base } => base < 8,
            Instruction::Ld { dest, .. } => dest < 8,
            Instruction::LdI { dest, .. } => dest < 8,
            Instruction::LdR { dest, base, .. } => dest < 8 && base < 8,
            Instruction::Lea { dest, .. } => dest < 8,
            Instruction::Not { dest, source } => dest < 8 && source < 8,
            Instruction::St { source, .. } => source < 8,
            Instruction::StI { source, .. } => source < 8,
            Instruction::StR { source, base, .. } => source < 8 && base < 8,
            _ => true,
        }
    }

    /// The instruction is one that a machine word can stand for: it is well
    /// formed, every immediate and offset fits its field, a trap vector fits
    /// 8 bits, and a jump through R7 is written as `Ret`.
    pub open spec fn encodable(self) -> bool {
        &&& self.well_formed()
        &&& match self {
            Instruction::AddImmediate { value, .. } => fits_signed(value, 5),
            Instruction::AndImmediate { value, .. } => fits_signed(value, 5),
            Instruction::Br { pc_offset, .. } => fits_signed(pc_offset, 9),
            Instruction::Jmp { base } => base != 7,
            Instruction::Jsr { pc_offset } => fits_signed(pc_offset, 11),
            Instruction::Ld { pc_offset, .. } => fits_signed(pc_offset, 9),
            Instruction::LdI { pc_offset, .. } => fits_signed(pc_offset, 9),
            Instruction::LdR { offset, .. } => fits_signed(offset, 6),
            Instruction::Lea { pc_offset, .. } => fits_signed(pc_offset, 9),
            Instruction::St { pc_offset, .. } => fits_signed(pc_offset, 9),
            Instruction::StI { pc_offset, .. } => fits_signed(pc_offset, 9),
            Instruction::StR { offset, .. } => fits_signed(offset, 6),
            Instruction::Trap { vec } => vec < 256,
            _ => true,
        }
    }

    /// The instruction that `word` stands for. The top four bits select the
    /// operation; bit 5 (ADD, AND), bit 11 (JSR) and the base register (JMP)
    /// select its form. The one unassigned opcode gives `Illegal`.
    pub open spec fn spec_from(word: u16) -> Instruction {
        let opcode = spec_slice_bits(word, 15, 12);
        let r1 = spec_slice_bits(word, 11, 9);
        let r2 = spec_slice_bits(word, 8, 6);
        let r3 = spec_slice_bits(word, 2, 0);
        let imm5 = spec_sign_extend(spec_slice_bits(word, 4, 0), 5);
        let off6 = spec_sign_extend(spec_slice_bits(word, 5, 0), 6);
        let off9 = spec_sign_extend(spec_slice_bits(word, 8, 0), 9);
        let off11 = spec_sign_extend(spec_slice_bits(word, 10, 0), 11);
        if opcode == OPCODE_ADD {
            if spec_is_bit_set(word, 5) {
                Instruction::AddImmediate { dest: r1, source: r2, value: imm5 }
            } else {
                Instruction::Add { dest: r1, source_1: r2, source_2: r3 }
            }
        } else if opcode == OPCODE_AND {
            if spec_is_bit_set(word, 5) {
                Instruction::AndImmediate { dest: r1, source: r2, value: imm5 }
            } else {
                Instruction::And { dest: r1, source_1: r2, source_2: r3 }
            }
        } else if opcode == OPCODE_BR {
            Instruction::Br {
                n: spec_is_bit_set(word, 11),
                z: spec_is_bit_set(word, 10),
                p: spec_is_bit_set(word, 9),
                pc_offset: off9,
            }
        } else if opcode == OPCODE_JMP {
            if r2 == 0b111 {
                Instruction::Ret
            } else {
                Instruction::Jmp { base: r2 }
            }
        } else if opcode == OPCODE_JSR {
            if spec_is_bit_set(word, 11) {
                Instruction::Jsr { pc_offset: off11 }
            } else {
                Instruction::JsrR { base: r2 }
            }
        } else if opcode == OPCODE_LD {
            Instruction::Ld { dest: r1, pc_offset: off9 }
        } else if opcode == OPCODE_LDI {
            Instruction::LdI { dest: r1, pc_offset: off9 }
        } else if opcode == OPCODE_LDR {
            Instruction::LdR { dest: r1, base: r2, offset: off6 }
        } else if opcode == OPCODE_LEA {
            Instruction::Lea { dest: r1, pc_offset: off9 }
        } else if opcode == OPCODE_NOT {
            Instruction::Not { dest: r1, source: r2 }
        } else if opcode == OPCODE_RTI {
            Instruction::Rti
        } else if opcode == OPCODE_ST {
            Instruction::St { source: r1, pc_offset: off9 }
        } else if opcode == OPCODE_STI {
            Instruction::StI { source: r1, pc_offset: off9 }
        } else if opcode == OPCODE_STR {
            Instruction::StR { source: r1, base: r2, offset: off6 }
        } else if opcode == OPCODE_TRAP {
            Instruction::Trap { vec: spec_slice_bits(word, 7, 0) }
        } else {
            Instruction::Illegal
        }
    }

    /// The word that stands for this instruction. Bits that no field of the
    /// instruction occupies are 0, but for NOT, whose six lowest bits are 1.
    pub open spec fn spec_encode(self) -> u16 {
        match self {
            Instruction::Add { dest, source_1, source_2 } => 0x1000u16 | (dest << 9) | (source_1
                << 6) | source_2,
            Instruction::AddImmediate { dest, source, value } => 0x1020u16 | (dest << 9) | (source
                << 6) | (value & 0x1F),
            Instruction::And { dest, source_1, source_2 } => 0x5000u16 | (dest << 9) | (source_1
                << 6) | source_2,
            Instruction::AndImmediate { dest, source, value } => 0x5020u16 | (dest << 9) | (source
                << 6) | (value & 0x1F),
            Instruction::Br { n, z, p, pc_offset } => (if n {
                0x0800u16
            } else {
                0u16
            }) | (if z {
                0x0400u16
            } else {
                0u16
            }) | (if p {
                0x0200u16
            } else {
                0u16
            }) | (pc_offset & 0x1FF),
            Instruction::Jmp { base } => 0xC000u16 | (base << 6),
            Instruction::Ret => 0xC1C0u16,
            Instruction::Jsr { pc_offset } => 0x4800u16 | (pc_offset & 0x7FF),
            Instruction::JsrR { base } => 0x4000u16 | (base << 6),
            Instruction::Ld { dest, pc_offset } => 0x2000u16 | (dest << 9) | (pc_offset & 0x1FF),
            Instruction::LdI { dest, pc_offset } => 0xA000u16 | (dest << 9) | (pc_offset & 0x1FF),
            Instruction::LdR { dest, base, offset } => 0x6000u16 | (dest << 9) | (base << 6) | (
            offset & 0x3F),
            Instruction::Lea { dest, pc_offset } => 0xE000u16 | (dest << 9) | (pc_offset & 0x1FF),
            Instruction::Not { dest, source } => 0x903Fu16 | (dest << 9) | (source << 6),
            Instruction::Rti => 0x8000u16,
            Instruction::St { source, pc_offset } => 0x3000u16 | (source << 9) | (pc_offset
                & 0x1FF),
            Instruction::StI { source, pc_offset } => 0xB000u16 | (source << 9) | (pc_offset
                & 0x1FF),
            Instruction::StR { source, base, offset } => 0x7000u16 | (source << 9) | (base << 6)
                | (offset & 0x3F),
            Instruction::Trap { vec } => 0xF000u16 | vec,
            Instruction::Illegal => 0xD000u16,
        }
    }

    /// Decodes a machine word. Every word decodes: the unassigned opcode gives
    /// `Illegal`, which only execution takes amiss.
    pub fn from(word: u16) -> (instruction: Instruction)
        ensures
            instruction == Instruction::spec_from(word),
            instruction.well_formed(),
            instruction.encodable(),
            instruction is Illegal <==> spec_slice_bits(word, 15, 12) == OPCODE_RESERVED,
    {
        proof {
            lemma_decoded_is_well_formed(word);
        }
        let opcode = slice_bits(word, 15, 12);
        if opcode == OPCODE_ADD {
            if is_bit_set(word, 5) {
                Instruction::AddImmediate {
                    dest: slice_bits(word, 11, 9),
                    source: slice_bits(word, 8, 6),
                    value: sign_extend(slice_bits(word, 4, 0), 5),
                }
            } else {
                Instruction::Add {
                    dest: slice_bits(word, 11, 9),
                    source_1: slice_bits(word, 8, 6),
                    source_2: slice_bits(word, 2, 0),
                }
            }
        } else if opcode == OPCODE_AND {
            if is_bit_set(word, 5) {
                Instruction::AndImmediate {
                    dest: slice_bits(word, 11, 9),
                    source: slice_bits(word, 8, 6),
                    value: sign_extend(slice_bits(word, 4, 0), 5),
                }
            } else {
                Instruction::And {
                    dest: slice_bits(word, 11, 9),
                    source_1: slice_bits(word, 8, 6),
                    source_2: slice_bits(word, 2, 0),
                }
            }
        } else if opcode == OPCODE_BR {
            Instruction::Br {
                n: is_bit_set(word, 11),
                z: is_bit_set(word, 10),
                p: is_bit_set(word, 9),
                pc_offset: sign_extend(slice_bits(word, 8, 0), 9),
            }
        } else if opcode == OPCODE_JMP {
            let base = slice_bits(word, 8, 6);
            if base == 0b111 {
                Instruction::Ret
            } else {
                Instruction::Jmp { base }
            }
        } else if opcode == OPCODE_JSR {
            if is_bit_set(word, 11) {
                Instruction::Jsr { pc_offset: sign_extend(slice_bits(word, 10, 0), 11) }
            } else {
                Instruction::JsrR { base: slice_bits(word, 8, 6) }
            }
        } else if opcode == OPCODE_LD {
            Instruction::Ld {
                dest: slice_bits(word, 11, 9),
                pc_offset: sign_extend(slice_bits(word, 8, 0), 9),
            }
        } else if opcode == OPCODE_LDI {
            Instruction::LdI {
                dest: slice_bits(word, 11, 9),
                pc_offset: sign_extend(slice_bits(word, 8, 0), 9),
            }
        } else if opcode == OPCODE_LDR {
            Instruction::LdR {
                dest: slice_bits(word, 11, 9),
                base: slice_bits(word, 8, 6),
                offset: sign_extend(slice_bits(word, 5, 0), 6),
            }
        } else if opcode == OPCODE_LEA {
            Instruction::Lea {
                dest: slice_bits(word, 11, 9),
                pc_offset: sign_extend(slice_bits(word, 8, 0), 9),
            }
        } else if opcode == OPCODE_NOT {
            Instruction::Not { dest: slice_bits(word, 11, 9), source: slice_bits(word, 8, 6) }
        } else if opcode == OPCODE_RTI {
            Instruction::Rti
        } else if opcode == OPCODE_ST {
            Instruction::St {
                source: slice_bits(word, 11, 9),
                pc_offset: sign_extend(slice_bits(word, 8, 0), 9),
            }
        } else if opcode == OPCODE_STI {
            Instruction::StI {
                source: slice_bits(word, 11, 9),
                pc_offset: sign_extend(slice_bits(word, 8, 0), 9),
            }
        } else if opcode == OPCODE_STR {
            Instruction::StR {
                source: slice_bits(word, 11, 9),
                base: slice_bits(word, 8, 6),
                offset: sign_extend(slice_bits(word, 5, 0), 6),
            }
        } else if opcode == OPCODE_TRAP {
            Instruction::Trap { vec: slice_bits(word, 7, 0) }
        } else {
            Instruction::Illegal
        }
    }
}

/// Every word decodes to an instruction whose register fields name
/// registers, and that a word can stand for; the instruction is `Illegal` for
/// the unassigned opcode and for no other.
pub proof fn lemma_decoded_is_well_formed(word: u16)
    ensures
        Instruction::spec_from(word).well_formed(),
        Instruction::spec_from(word).encodable(),
        Instruction::spec_from(word) is Illegal <==> spec_slice_bits(word, 15, 12)
            == OPCODE_RESERVED,
{
    lemma_low_masks();
    assert(spec_slice_bits(word, 15, 12) <= low_mask(4) && spec_slice_bits(word, 11, 9)
        <= low_mask(3) && spec_slice_bits(word, 8, 6) <= low_mask(3) && spec_slice_bits(word, 2, 0)
        <= low_mask(3) && spec_slice_bits(word, 7, 0) <= low_mask(8)) by (bit_vector);
    lemma_sign_extend(spec_slice_bits(word, 4, 0), 5);
    lemma_sign_extend(spec_slice_bits(word, 5, 0), 6);
    lemma_sign_extend(spec_slice_bits(word, 8, 0), 9);
    lemma_sign_extend(spec_slice_bits(word, 10, 0), 11);
    assert(spec_slice_bits(word, 4, 0) & low_mask(5) == spec_slice_bits(word, 4, 0)
        && spec_slice_bits(word, 5, 0) & low_mask(6) == spec_slice_bits(word, 5, 0)
        && spec_slice_bits(word, 8, 0) & low_mask(9) == spec_slice_bits(word, 8, 0)
        && spec_slice_bits(word, 10, 0) & low_mask(11) == spec_slice_bits(word, 10, 0))
        by (bit_vector);
}

/// The masks of the field widths that the instruction formats use.
pub proof fn lemma_low_masks()
    ensures
        low_mask(3) == 0x7,
        low_mask(4) == 0xF,
        low_mask(5) == 0x1F,
        low_mask(6) == 0x3F,
        low_mask(8) == 0xFF,
        low_mask(9) == 0x1FF,
        low_mask(11) == 0x7FF,
{
    assert((1u16 << 3u16) == 0x8 && (1u16 << 4u16) == 0x10 && (1u16 << 5u16) == 0x20 && (1u16
        << 6u16) == 0x40 && (1u16 << 8u16) == 0x100 && (1u16 << 9u16) == 0x200 && (1u16 << 11u16)
        == 0x800) by (bit_vector);
}


impl Instruction {
    /// Encodes the instruction as a machine word, which decodes to the
    /// instruction again.
    pub fn encode(&self) -> (word: u16)
        requires
            self.encodable(),
        ensures
            word == self.spec_encode(),
            Instruction::spec_from(word) == *self,
    {
        proof {
            lemma_decode_encode(*self);
        }
        match *self {
            Instruction::Add { dest, source_1, source_2 } => 0x1000u16 | (dest << 9) | (source_1
                << 6) | source_2,
            Instruction::AddImmediate { dest, source, value } => 0x1020u16 | (dest << 9) | (source
                << 6) | (value & 0x1F),
            Instruction::And { dest, source_1, source_2 } => 0x5000u16 | (dest << 9) | (source_1
                << 6) | source_2,
            Instruction::AndImmediate { dest, source, value } => 0x5020u16 | (dest << 9) | (source
                << 6) | (value & 0x1F),
            Instruction::Br { n, z, p, pc_offset } => {
                let n_bit: u16 = if n {
                    0x0800
                } else {
                    0
                };
                let z_bit: u16 = if z {
                    0x0400
                } else {
                    0
                };
                let p_bit: u16 = if p {
                    0x0200
                } else {
                    0
                };
                n_bit | z_bit | p_bit | (pc_offset & 0x1FF)
            },
            Instruction::Jmp { base } => 0xC000u16 | (base << 6),
            Instruction::Ret => 0xC1C0u16,
            Instruction::Jsr { pc_offset } => 0x4800u16 | (pc_offset & 0x7FF),
            Instruction::JsrR { base } => 0x4000u16 | (base << 6),
            Instruction::Ld { dest, pc_offset } => 0x2000u16 | (dest << 9) | (pc_offset & 0x1FF),
            Instruction::LdI { dest, pc_offset } => 0xA000u16 | (dest << 9) | (pc_offset & 0x1FF),
            Instruction::LdR { dest, base, offset } => 0x6000u16 | (dest << 9) | (base << 6) | (
            offset & 0x3F),
            Instruction::Lea { dest, pc_offset } => 0xE000u16 | (dest << 9) | (pc_offset & 0x1FF),
            Instruction::Not { dest, source } => 0x903Fu16 | (dest << 9) | (source << 6),
            Instruction::Rti => 0x8000u16,
            Instruction::St { source, pc_offset } => 0x3000u16 | (source << 9) | (pc_offset
                & 0x1FF),
            Instruction::StI { source, pc_offset } => 0xB000u16 | (source << 9) | (pc_offset
                & 0x1FF),
            Instruction::StR { source, base, offset } => 0x7000u16 | (source << 9) | (base << 6)
                | (offset & 0x3F),
            Instruction::Trap { vec } => 0xF000u16 | vec,
            Instruction::Illegal => 0xD000u16,
        }
    }
}

proof fn lemma_fields_three_registers(opcode: u16, a: u16, b: u16, c: u16)
    by (bit_vector)
    requires
        opcode < 16,
        a < 8,
        b < 8,
        c < 8,
    ensures
        ({
            let word = (opcode * 4096) as u16 | (a << 9) | (b << 6) | c;
            &&& spec_slice_bits(word, 15, 12) == opcode
            &&& spec_slice_bits(word, 11, 9) == a
            &&& spec_slice_bits(word, 8, 6) == b
            &&& spec_slice_bits(word, 2, 0) == c
            &&& !spec_is_bit_set(word, 5)
        }),
{
}

proof fn lemma_fields_immediate(opcode: u16, a: u16, b: u16, value: u16)
    by (bit_vector)
    requires
        opcode < 16,
        a < 8,
        b < 8,
        fits_signed(value, 5),
    ensures
        ({
            let word = (opcode * 4096 + 32) as u16 | (a << 9) | (b << 6) | (value & 0x1F);
            &&& spec_slice_bits(word, 15, 12) == opcode
            &&& spec_slice_bits(word, 11, 9) == a
            &&& spec_slice_bits(word, 8, 6) == b
            &&& spec_sign_extend(spec_slice_bits(word, 4, 0), 5) == value
            &&& spec_is_bit_set(word, 5)
        }),
{
}

proof fn lemma_fields_offset9(opcode: u16, a: u16, offset: u16)
    by (bit_vector)
    requires
        opcode < 16,
        a < 8,
        fits_signed(offset, 9),
    ensures
        ({
            let word = (opcode * 4096) as u16 | (a << 9) | (offset & 0x1FF);
            &&& spec_slice_bits(word, 15, 12) == opcode
            &&& spec_slice_bits(word, 11, 9) == a
            &&& spec_sign_extend(spec_slice_bits(word, 8, 0), 9) == offset
        }),
{
}

proof fn lemma_fields_branch(n: bool, z: bool, p: bool, offset: u16)
    by (bit_vector)
    requires
        fits_signed(offset, 9),
    ensures
        ({
            let word = (if n {
                0x0800u16
            } else {
                0u16
            }) | (if z {
                0x0400u16
            } else {
                0u16
            }) | (if p {
                0x0200u16
            } else {
                0u16
            }) | (offset & 0x1FF);
            &&& spec_slice_bits(word, 15, 12) == 0
            &&& spec_is_bit_set(word, 11) == n
            &&& spec_is_bit_set(word, 10) == z
            &&& spec_is_bit_set(word, 9) == p
            &&& spec_sign_extend(spec_slice_bits(word, 8, 0), 9) == offset
        }),
{
}

proof fn lemma_fields_offset6(opcode: u16, a: u16, b: u16, offset: u16)
    by (bit_vector)
    requires
        opcode < 16,
        a < 8,
        b < 8,
        fits_signed(offset, 6),
    ensures
        ({
            let word = (opcode * 4096) as u16 | (a << 9) | (b << 6) | (offset & 0x3F);
            &&& spec_slice_bits(word, 15, 12) == opcode
            &&& spec_slice_bits(word, 11, 9) == a
            &&& spec_slice_bits(word, 8, 6) == b
            &&& spec_sign_extend(spec_slice_bits(word, 5, 0), 6) == offset
        }),
{
}

proof fn lemma_fields_base(opcode: u16, base: u16)
    by (bit_vector)
    requires
        opcode < 16,
        base < 8,
    ensures
        ({
            let word = (opcode * 4096) as u16 | (base << 6);
            &&& spec_slice_bits(word, 15, 12) == opcode
            &&& spec_slice_bits(word, 8, 6) == base
            &&& !spec_is_bit_set(word, 11)
        }),
{
}

proof fn lemma_fields_not(a: u16, b: u16)
    by (bit_vector)
    requires
        a < 8,
        b < 8,
    ensures
        ({
            let word = 0x903Fu16 | (a << 9) | (b << 6);
            &&& spec_slice_bits(word, 15, 12) == 9
            &&& spec_slice_bits(word, 11, 9) == a
            &&& spec_slice_bits(word, 8, 6) == b
        }),
{
}

proof fn lemma_fields_subroutine(offset: u16)
    by (bit_vector)
    requires
        fits_signed(offset, 11),
    ensures
        ({
            let word = 0x4800u16 | (offset & 0x7FF);
            &&& spec_slice_bits(word, 15, 12) == 4
            &&& spec_is_bit_set(word, 11)
            &&& spec_sign_extend(spec_slice_bits(word, 10, 0), 11) == offset
        }),
{
}

proof fn lemma_fields_fixed(vec: u16)
    by (bit_vector)
    requires
        vec < 256,
    ensures
        spec_slice_bits(0xF000u16 | vec, 15, 12) == 15,
        spec_slice_bits(0xF000u16 | vec, 7, 0) == vec,
        spec_slice_bits(0xC1C0u16, 15, 12) == 12,
        spec_slice_bits(0xC1C0u16, 8, 6) == 7,
        spec_slice_bits(0x8000u16, 15, 12) == 8,
        spec_slice_bits(0xD000u16, 15, 12) == 13,
{
}

/// Decoding undoes encoding: the word of an encodable instruction decodes to
/// that instruction, with every field as it was.
pub proof fn lemma_decode_encode(instruction: Instruction)
    requires
        instruction.encodable(),
    ensures
        Instruction::spec_from(instruction.spec_encode()) == instruction,
{
    match instruction {
        Instruction::Add { dest, source_1, source_2 } => {
            lemma_fields_three_registers(1, dest, source_1, source_2);
        },
        Instruction::AddImmediate { dest, source, value } => {
            lemma_fields_immediate(1, dest, source, value);
        },
        Instruction::And { dest, source_1, source_2 } => {
            lemma_fields_three_registers(5, dest, source_1, source_2);
        },
        Instruction::AndImmediate { dest, source, value } => {
            lemma_fields_immediate(5, dest, source, value);
        },
        Instruction::Br { n, z, p, pc_offset } => {
            lemma_fields_branch(n, z, p, pc_offset);
        },
        Instruction::Jmp { base } => {
            lemma_fields_base(12, base);
        },
        Instruction::Ret => {
            lemma_fields_fixed(0);
        },
        Instruction::Jsr { pc_offset } => {
            lemma_fields_subroutine(pc_offset);
        },
        Instruction::JsrR { base } => {
            lemma_fields_base(4, base);
        },
        Instruction::Ld { dest, pc_offset } => {
            lemma_fields_offset9(2, dest, pc_offset);
        },
        Instruction::LdI { dest, pc_offset } => {
            lemma_fields_offset9(10, dest, pc_offset);
        },
        Instruction::LdR { dest, base, offset } => {
            lemma_fields_offset6(6, dest, base, offset);
        },
        Instruction::Lea { dest, pc_offset } => {
            lemma_fields_offset9(14, dest, pc_offset);
        },
        Instruction::Not { dest, source } => {
            lemma_fields_not(dest, source);
        },
        Instruction::Rti => {
            lemma_fields_fixed(0);
        },
        Instruction::St { source, pc_offset } => {
            lemma_fields_offset9(3, source, pc_offset);
        },
        Instruction::StI { source, pc_offset } => {
            lemma_fields_offset9(11, source, pc_offset);
        },
        Instruction::StR { source, base, offset } => {
            lemma_fields_offset6(7, source, base, offset);
        },
        Instruction::Trap { vec } => {
            lemma_fields_fixed(vec);
        },
        Instruction::Illegal => {
            lemma_fields_fixed(0);
        },
    }
}


/// What sign extension does, for every width from 1 to 16. A value that is
/// already 16 bits wide stays as it is, and extending twice is extending
/// once. A field of `width` bits whose top bit is clear keeps its value; one
/// whose top bit is set stands for `value - 2^width`, and comes out as the
/// 16-bit two's-complement word of that number, with every higher bit set.
pub proof fn lemma_sign_extend(value: u16, width: u16)
    by (bit_vector)
    requires
        1 <= width <= 16,
    ensures
        spec_sign_extend(value, 16) == value,
        spec_sign_extend(spec_sign_extend(value, width), width) == spec_sign_extend(value, width),
        fits_signed(spec_sign_extend(value & low_mask(width), width), width),
        (value as u32) < (1u32 << ((width - 1) as u32)) ==> spec_sign_extend(value, width)
            == value,
        (1u32 << ((width - 1) as u32)) <= (value as u32) < (1u32 << (width as u32))
            ==> spec_sign_extend(value, width) as u32 + (1u32 << (width as u32)) == value as u32
            + 0x10000u32,
{
}


/// Whether a signed field of `width` bits can hold `value`.
pub fn fits(value: u16, width: u16) -> (answer: bool)
    requires
        1 <= width <= 15,
    ensures
        answer == fits_signed(value, width),
{
    assert((1u16 << width) >= 1) by (bit_vector)
        requires
            width < 16,
    ;
    let mask: u16 = (1u16 << width) - 1;
    sign_extend(value & mask, width) == value
}

impl Instruction {
    /// Whether the operand of the instruction is an offset from the program
    /// counter.
    pub open spec fn spec_is_pc_relative(self) -> bool {
        self is Br || self is Jsr || self is Ld || self is LdI || self is Lea || self is St
            || self is StI
    }

    /// The instruction with `value` as its immediate, offset or trap vector.
    /// An instruction without such a field stays as it is.
    pub open spec fn spec_with_operand(self, value: u16) -> Instruction {
        match self {
            Instruction::AddImmediate { dest, source, .. } => Instruction::AddImmediate {
                dest,
                source,
                value,
            },
            Instruction::AndImmediate { dest, source, .. } => Instruction::AndImmediate {
                dest,
                source,
                value,
            },
            Instruction::Br { n, z, p, .. } => Instruction::Br { n, z, p, pc_offset: value },
            Instruction::Jsr { .. } => Instruction::Jsr { pc_offset: value },
            Instruction::Ld { dest, .. } => Instruction::Ld { dest, pc_offset: value },
            Instruction::LdI { dest, .. } => Instruction::LdI { dest, pc_offset: value },
            Instruction::LdR { dest, base, .. } => Instruction::LdR { dest, base, offset: value },
            Instruction::Lea { dest, .. } => Instruction::Lea { dest, pc_offset: value },
            Instruction::St { source, .. } => Instruction::St { source, pc_offset: value },
            Instruction::StI { source, .. } => Instruction::StI { source, pc_offset: value },
            Instruction::StR { source, base, .. } => Instruction::StR {
                source,
                base,
                offset: value,
            },
            Instruction::Trap { .. } => Instruction::Trap { vec: value },
            other => other,
        }
    }

    /// Whether the operand of the instruction is an offset from the program
    /// counter.
    pub fn is_pc_relative(&self) -> (answer: bool)
        ensures
            answer == self.spec_is_pc_relative(),
    {
        match self {
            Instruction::Br { .. } => true,
            Instruction::Jsr { .. } => true,
            Instruction::Ld { .. } => true,
            Instruction::LdI { .. } => true,
            Instruction::Lea { .. } => true,
            Instruction::St { .. } => true,
            Instruction::StI { .. } => true,
            _ => false,
        }
    }

    /// The instruction with `value` as its immediate, offset or trap vector.
    pub fn with_operand(&self, value: u16) -> (changed: Instruction)
        ensures
            changed == self.spec_with_operand(value),
    {
        match *self {
            Instruction::AddImmediate { dest, source, .. } => Instruction::AddImmediate {
                dest,
                source,
                value,
            },
            Instruction::AndImmediate { dest, source, .. } => Instruction::AndImmediate {
                dest,
                source,
                value,
            },
            Instruction::Br { n, z, p, .. } => Instruction::Br { n, z, p, pc_offset: value },
            Instruction::Jsr { .. } => Instruction::Jsr { pc_offset: value },
            Instruction::Ld { dest, .. } => Instruction::Ld { dest, pc_offset: value },
            Instruction::LdI { dest, .. } => Instruction::LdI { dest, pc_offset: value },
            Instruction::LdR { dest, base, .. } => Instruction::LdR { dest, base, offset: value },
            Instruction::Lea { dest, .. } => Instruction::Lea { dest, pc_offset: value },
            Instruction::St { source, .. } => Instruction::St { source, pc_offset: value },
            Instruction::StI { source, .. } => Instruction::StI { source, pc_offset: value },
            Instruction::StR { source, base, .. } => Instruction::StR {
                source,
                base,
                offset: value,
            },
            Instruction::Trap { .. } => Instruction::Trap { vec: value },
            other => other,
        }
    }

    /// Whether a machine word can stand for the instruction.
    pub fn is_encodable(&self) -> (answer: bool)
        ensures
            answer == self.encodable(),
    {
        match *self {
            Instruction::Add { dest, source_1, source_2 } => dest < 8 && source_1 < 8 && source_2
                < 8,
            Instruction::AddImmediate { dest, source, value } => dest < 8 && source < 8 && fits(
                value,
                5,
            ),
            Instruction::And { dest, source_1, source_2 } => dest < 8 && source_1 < 8 && source_2
                < 8,
            Instruction::AndImmediate { dest, source, value } => dest < 8 && source < 8 && fits(
                value,
                5,
            ),
            Instruction::Br { pc_offset, .. } => fits(pc_offset, 9),
            Instruction::Jmp { base } => base < 7,
            Instruction::Ret => true,
            Instruction::Jsr { pc_offset } => fits(pc_offset, 11),
            Instruction::JsrR { base } => base < 8,
            Instruction::Ld { dest, pc_offset } => dest < 8 && fits(pc_offset, 9),
            Instruction::LdI { dest, pc_offset } => dest < 8 && fits(pc_offset, 9),
            Instruction::LdR { dest, base, offset } => dest < 8 && base < 8 && fits(offset, 6),
            Instruction::Lea { dest, pc_offset } => dest < 8 && fits(pc_offset, 9),
            Instruction::Not { dest, source } => dest < 8 && source < 8,
            Instruction::Rti => true,
            Instruction::St { source, pc_offset } => source < 8 && fits(pc_offset, 9),
            Instruction::StI { source, pc_offset } => source < 8 && fits(pc_offset, 9),
            Instruction::StR { source, base, offset } => source < 8 && base < 8 && fits(
                offset,
                6,
            ),
            Instruction::Trap { vec } => vec < 256,
            Instruction::Illegal => true,
        }
    }
}

} // verus!
