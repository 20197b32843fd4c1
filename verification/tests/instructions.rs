use lc3_toolchain::lc3::instructions::{fits, is_bit_set, sign_extend, slice_bits, Instruction};

#[test]
fn test_slice_bits() {
    assert_eq!(slice_bits(0b1111_0000_0000_0000, 15, 12), 0b1111);
    assert_eq!(slice_bits(0b0000_1111_0000_0000, 11, 8), 0b1111);
    assert_eq!(slice_bits(0b0000_0000_1111_0000, 7, 4), 0b1111);
    assert_eq!(slice_bits(0b0000_0000_0000_1111, 3, 0), 0b1111);
}

#[test]
fn test_set() {
    assert!(is_bit_set(0b1, 0));
    assert!(is_bit_set(0b10001, 4));
}

#[test]
fn test_sign_extend() {
    assert_eq!(sign_extend(0b10001, 5), 0b1111111111110001);
    assert_eq!(sign_extend(0b1001, 5), 0b1001);

    assert_eq!(sign_extend(0b1_1000_0001, 9), 0b111111111000_0001);
    assert_eq!(sign_extend(0b0_1000_0001, 9), 0b1000_0001);
}

#[test]
fn test_parse_instruction() {
    assert_eq!(
        Instruction::from(0b0001_100_010_0_00_001),
        Instruction::Add { dest: 0b100, source_1: 0b010, source_2: 0b001 }
    );

    assert_eq!(
        Instruction::from(0b0001_100_010_1_10001),
        Instruction::AddImmediate { dest: 0b100, source: 0b010, value: 0b1111111111110001 }
    );

    assert_eq!(
        Instruction::from(0b0101_100_010_0_00_001),
        Instruction::And { dest: 0b100, source_1: 0b010, source_2: 0b001 }
    );

    assert_eq!(
        Instruction::from(0b0101_100_010_1_01001),
        Instruction::AndImmediate { dest: 0b100, source: 0b10, value: 0b1001 }
    );

    assert_eq!(
        Instruction::from(0b0000_000_000000000),
        Instruction::Br { n: false, z: false, p: false, pc_offset: 0 }
    );

    assert_eq!(
        Instruction::from(0b0000_111_000000000),
        Instruction::Br { n: true, z: true, p: true, pc_offset: 0 }
    );

    assert_eq!(
        Instruction::from(0b0000_000_000001000),
        Instruction::Br { n: false, z: false, p: false, pc_offset: 0b1000 }
    );

    assert_eq!(Instruction::from(0b1100_000_010_000000), Instruction::Jmp { base: 0b010 });

    assert_eq!(Instruction::from(0b1100_000_111_000000), Instruction::Ret,);

    assert_eq!(
        Instruction::from(0b0100_1_01000000001),
        Instruction::Jsr { pc_offset: 0b1000000001 },
    );

    assert_eq!(Instruction::from(0b0100_0_00_010_000000), Instruction::JsrR { base: 0b010 },);

    assert_eq!(
        Instruction::from(0b0010_010_010000001),
        Instruction::Ld { dest: 0b010, pc_offset: 0b10000001 },
    );

    assert_eq!(
        Instruction::from(0b1010_010_010000001),
        Instruction::LdI { dest: 0b010, pc_offset: 0b10000001 },
    );

    assert_eq!(
        Instruction::from(0b0110_010_010_100000),
        Instruction::LdR { dest: 0b010, base: 0b010, offset: 0b1111_1111_1110_0000 },
    );

    assert_eq!(
        Instruction::from(0b1110_010_010100000),
        Instruction::Lea { dest: 0b010, pc_offset: 0b10100000 },
    );

    assert_eq!(
        Instruction::from(0b1001_010_010_000000),
        Instruction::Not { dest: 0b010, source: 0b010 },
    );

    assert_eq!(Instruction::from(0b1000_000000000000), Instruction::Rti,);

    assert_eq!(
        Instruction::from(0b0011_010_100000000),
        Instruction::St { source: 0b010, pc_offset: 0b1111_1111_0000_0000 },
    );

    assert_eq!(
        Instruction::from(0b1011_010_100000000),
        Instruction::StI { source: 0b010, pc_offset: 0b1111_1111_0000_0000 },
    );

    assert_eq!(
        Instruction::from(0b0111_010_010_100000),
        Instruction::StR { source: 0b010, base: 0b010, offset: 0b1111_1111_1110_0000 },
    );

    assert_eq!(Instruction::from(0b1111_0000_1111_1111), Instruction::Trap { vec: 0b1111_1111 },);
}

#[test]
fn slice_bits_takes_the_whole_word() {
    assert_eq!(slice_bits(0xBEEF, 15, 0), 0xBEEF);
    assert_eq!(slice_bits(0x8000, 15, 15), 1);
    assert_eq!(slice_bits(0x7FFF, 15, 15), 0);
}

#[test]
fn is_bit_set_tells_clear_bits() {
    assert!(!is_bit_set(0b10, 0));
    assert!(is_bit_set(0x8000, 15));
    assert!(!is_bit_set(0x7FFF, 15));
}

#[test]
fn sign_extend_leaves_sixteen_bits_alone() {
    assert_eq!(sign_extend(0x0000, 16), 0x0000);
    assert_eq!(sign_extend(0x8001, 16), 0x8001);
    assert_eq!(sign_extend(0xFFFF, 16), 0xFFFF);
}

#[test]
fn sign_extend_is_idempotent() {
    for width in [5u16, 6, 9, 11] {
        for value in [0u16, 1, 0x1F, 0x20, 0x100, 0x3FF, 0x400, 0x7FF] {
            let once = sign_extend(value, width);
            assert_eq!(sign_extend(once, width), once);
        }
    }
}

#[test]
fn sign_extend_replicates_the_sign_bit() {
    assert_eq!(sign_extend(0b01111, 5), 15);
    assert_eq!(sign_extend(0b10000, 5), 0xFFF0);
    assert_eq!(sign_extend(0b011111, 6), 31);
    assert_eq!(sign_extend(0b100000, 6), 0xFFE0);
    assert_eq!(sign_extend(0b0_1111_1111, 9), 255);
    assert_eq!(sign_extend(0b1_0000_0000, 9), 0xFF00);
    assert_eq!(sign_extend(0b011_1111_1111, 11), 1023);
    assert_eq!(sign_extend(0b100_0000_0000, 11), 0xFC00);
    assert_eq!(sign_extend(0b1, 1), 0xFFFF);
}

#[test]
fn fits_tells_the_range_of_a_field() {
    assert!(fits(15, 5));
    assert!(!fits(16, 5));
    assert!(fits(0xFFF0, 5));
    assert!(!fits(0xFFEF, 5));
    assert!(fits(255, 9));
    assert!(!fits(256, 9));
    assert!(fits(0xFF00, 9));
}

#[test]
fn reserved_opcode_decodes_to_illegal() {
    assert_eq!(Instruction::from(0b1101_0000_0000_0000), Instruction::Illegal);
    assert_eq!(Instruction::from(0b1101_1111_1111_1111), Instruction::Illegal);
}

#[test]
fn decode_reads_negative_offsets() {
    assert_eq!(
        Instruction::from(0b0000_010_111111110),
        Instruction::Br { n: false, z: true, p: false, pc_offset: 0xFFFE }
    );
    assert_eq!(Instruction::from(0b0100_1_11111111111), Instruction::Jsr { pc_offset: 0xFFFF });
}

fn samples() -> Vec<Instruction> {
    vec![
        Instruction::Add { dest: 4, source_1: 2, source_2: 1 },
        Instruction::AddImmediate { dest: 4, source: 2, value: 0xFFF1 },
        Instruction::And { dest: 7, source_1: 0, source_2: 7 },
        Instruction::AndImmediate { dest: 0, source: 7, value: 15 },
        Instruction::Br { n: true, z: false, p: true, pc_offset: 0xFF00 },
        Instruction::Br { n: false, z: false, p: false, pc_offset: 255 },
        Instruction::Jmp { base: 6 },
        Instruction::Ret,
        Instruction::Jsr { pc_offset: 0xFC00 },
        Instruction::Jsr { pc_offset: 1023 },
        Instruction::JsrR { base: 7 },
        Instruction::Ld { dest: 1, pc_offset: 0xFFFF },
        Instruction::LdI { dest: 2, pc_offset: 1 },
        Instruction::LdR { dest: 3, base: 4, offset: 0xFFE0 },
        Instruction::Lea { dest: 5, pc_offset: 100 },
        Instruction::Not { dest: 6, source: 5 },
        Instruction::Rti,
        Instruction::St { source: 7, pc_offset: 0 },
        Instruction::StI { source: 0, pc_offset: 0xFFFE },
        Instruction::StR { source: 1, base: 2, offset: 31 },
        Instruction::Trap { vec: 0x25 },
        Instruction::Illegal,
    ]
}

#[test]
fn decode_undoes_encode() {
    for instruction in samples() {
        assert!(instruction.is_encodable());
        assert_eq!(Instruction::from(instruction.encode()), instruction);
    }
}

#[test]
fn encode_gives_the_words_of_the_manual() {
    assert_eq!(
        Instruction::Add { dest: 4, source_1: 2, source_2: 1 }.encode(),
        0b0001_100_010_0_00_001
    );
    assert_eq!(
        Instruction::AddImmediate { dest: 4, source: 2, value: 0xFFF1 }.encode(),
        0b0001_100_010_1_10001
    );
    assert_eq!(Instruction::Ret.encode(), 0xC1C0);
    assert_eq!(Instruction::Not { dest: 2, source: 2 }.encode(), 0b1001_010_010_111111);
    assert_eq!(Instruction::Trap { vec: 0x25 }.encode(), 0xF025);
    assert_eq!(Instruction::Rti.encode(), 0x8000);
    assert_eq!(Instruction::Illegal.encode(), 0xD000);
}

#[test]
fn is_encodable_refuses_what_no_word_holds() {
    assert!(!Instruction::AddImmediate { dest: 0, source: 0, value: 16 }.is_encodable());
    assert!(!Instruction::Br { n: true, z: true, p: true, pc_offset: 256 }.is_encodable());
    assert!(!Instruction::Jmp { base: 7 }.is_encodable());
    assert!(!Instruction::Jmp { base: 8 }.is_encodable());
    assert!(!Instruction::Trap { vec: 256 }.is_encodable());
    assert!(!Instruction::LdR { dest: 0, base: 0, offset: 32 }.is_encodable());
}

#[test]
fn with_operand_replaces_the_numeric_field() {
    assert_eq!(
        Instruction::Ld { dest: 3, pc_offset: 0 }.with_operand(7),
        Instruction::Ld { dest: 3, pc_offset: 7 }
    );
    assert_eq!(Instruction::Trap { vec: 0 }.with_operand(0x25), Instruction::Trap { vec: 0x25 });
    assert_eq!(Instruction::Ret.with_operand(7), Instruction::Ret);
    assert!(Instruction::Ld { dest: 3, pc_offset: 0 }.is_pc_relative());
    assert!(!Instruction::LdR { dest: 3, base: 1, offset: 0 }.is_pc_relative());
}
