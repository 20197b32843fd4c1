use lc3_toolchain::lc3::instructions::Instruction;
use lc3_toolchain::lc3::{Fault, Machine};

fn run_instructions(machine: &mut Machine, instructions: Vec<Instruction>) {
    for instruction in instructions {
        machine.execute(instruction).unwrap();
    }
}

fn from_regs(regs: [u16; 8]) -> Machine {
    let mut machine = Machine::new();
    for (reg, value) in regs.iter().enumerate() {
        machine.set_reg(reg as u16, *value);
    }
    machine
}

#[test]
fn lc3_test_run_machine() {
    let mut machine = from_regs([1, 2, 0, 0, 0, 0, 0, 0]);
    run_instructions(
        &mut machine,
        vec![Instruction::Add { dest: 0, source_1: 0, source_2: 1 }],
    );
    assert_eq!(machine.get_reg(0), 3);
}

#[test]
fn mod_test_run_machine() {
    let mut machine = from_regs([1, 2, 0, 0, 0, 0, 0, 0]);
    run_instructions(&mut machine, vec![
        Instruction::Add { dest: 0, source_1: 0, source_2: 1 },
    ]);
    assert_eq!(machine.get_reg(0), 3);
}

#[test]
fn new_machine_is_zeroed() {
    let machine = Machine::new();
    for reg in 0..8 {
        assert_eq!(machine.get_reg(reg), 0);
    }
    assert_eq!(machine.pc(), 0);
    assert_eq!(machine.condition_codes(), (false, false, false));
    assert_eq!(machine.read_memory(0x0000), 0);
    assert_eq!(machine.read_memory(0x3000), 0);
    assert_eq!(machine.read_memory(0xFFFF), 0);
}

#[test]
fn memory_holds_every_address() {
    let mut machine = Machine::new();
    machine.write_memory(0xFFFF, 0xABCD);
    machine.write_memory(0x0000, 0x1234);
    assert_eq!(machine.read_memory(0xFFFF), 0xABCD);
    assert_eq!(machine.read_memory(0x0000), 0x1234);
    assert_eq!(machine.read_memory(0xFFFE), 0);
}

#[test]
fn add_sets_positive() {
    let mut machine = from_regs([1, 2, 0, 0, 0, 0, 0, 0]);
    assert_eq!(machine.execute(Instruction::Add { dest: 0, source_1: 0, source_2: 1 }), Ok(()));
    assert_eq!(machine.get_reg(0), 3);
    assert_eq!(machine.get_reg(1), 2);
    assert_eq!(machine.condition_codes(), (false, false, true));
}

#[test]
fn add_wraps_and_sets_zero() {
    let mut machine = from_regs([0xFFFF, 1, 0, 0, 0, 0, 0, 0]);
    machine.execute(Instruction::Add { dest: 2, source_1: 0, source_2: 1 }).unwrap();
    assert_eq!(machine.get_reg(2), 0);
    assert_eq!(machine.condition_codes(), (false, true, false));
}

#[test]
fn add_immediate_sets_negative() {
    let mut machine = from_regs([0, 0, 0, 5, 0, 0, 0, 0]);
    machine.execute(Instruction::AddImmediate { dest: 4, source: 3, value: 0xFFF6 }).unwrap();
    assert_eq!(machine.get_reg(4), 0xFFFB);
    assert_eq!(machine.condition_codes(), (true, false, false));
}

#[test]
fn and_and_not_set_condition_codes() {
    let mut machine = from_regs([0b1100, 0b1010, 0, 0, 0, 0, 0, 0]);
    machine.execute(Instruction::And { dest: 2, source_1: 0, source_2: 1 }).unwrap();
    assert_eq!(machine.get_reg(2), 0b1000);
    assert_eq!(machine.condition_codes(), (false, false, true));
    machine.execute(Instruction::AndImmediate { dest: 3, source: 0, value: 0 }).unwrap();
    assert_eq!(machine.get_reg(3), 0);
    assert_eq!(machine.condition_codes(), (false, true, false));
    machine.execute(Instruction::Not { dest: 4, source: 3 }).unwrap();
    assert_eq!(machine.get_reg(4), 0xFFFF);
    assert_eq!(machine.condition_codes(), (true, false, false));
}

#[test]
fn loads_read_memory() {
    let mut machine = Machine::new();
    machine.write_memory(5, 0x0042);
    machine.write_memory(6, 0x0005);
    machine.write_memory(0x0105, 0x8000);
    machine.execute(Instruction::Ld { dest: 0, pc_offset: 5 }).unwrap();
    assert_eq!(machine.get_reg(0), 0x0042);
    assert_eq!(machine.condition_codes(), (false, false, true));
    machine.execute(Instruction::LdI { dest: 1, pc_offset: 6 }).unwrap();
    assert_eq!(machine.get_reg(1), 0x0042);
    machine.set_reg(2, 0x0100);
    machine.execute(Instruction::LdR { dest: 3, base: 2, offset: 5 }).unwrap();
    assert_eq!(machine.get_reg(3), 0x8000);
    assert_eq!(machine.condition_codes(), (true, false, false));
}

#[test]
fn lea_leaves_condition_codes() {
    let mut machine = Machine::new();
    machine.execute(Instruction::AddImmediate { dest: 0, source: 0, value: 1 }).unwrap();
    assert_eq!(machine.condition_codes(), (false, false, true));
    machine.execute(Instruction::Lea { dest: 1, pc_offset: 0xFFFF }).unwrap();
    assert_eq!(machine.get_reg(1), 0xFFFF);
    assert_eq!(machine.condition_codes(), (false, false, true));
}

#[test]
fn stores_write_memory_and_leave_condition_codes() {
    let mut machine = from_regs([0xAAAA, 0x0200, 0, 0, 0, 0, 0, 0]);
    machine.write_memory(9, 0x0300);
    machine.execute(Instruction::St { source: 0, pc_offset: 8 }).unwrap();
    assert_eq!(machine.read_memory(8), 0xAAAA);
    machine.execute(Instruction::StI { source: 0, pc_offset: 9 }).unwrap();
    assert_eq!(machine.read_memory(0x0300), 0xAAAA);
    machine.execute(Instruction::StR { source: 0, base: 1, offset: 0xFFFF }).unwrap();
    assert_eq!(machine.read_memory(0x01FF), 0xAAAA);
    assert_eq!(machine.condition_codes(), (false, false, false));
}

#[test]
fn branch_is_taken_on_a_matching_condition() {
    let mut machine = Machine::new();
    machine.execute(Instruction::Br { n: true, z: true, p: true, pc_offset: 4 }).unwrap();
    assert_eq!(machine.pc(), 0);
    machine.execute(Instruction::AndImmediate { dest: 0, source: 0, value: 0 }).unwrap();
    machine.execute(Instruction::Br { n: true, z: false, p: true, pc_offset: 4 }).unwrap();
    assert_eq!(machine.pc(), 0);
    machine.execute(Instruction::Br { n: false, z: true, p: false, pc_offset: 4 }).unwrap();
    assert_eq!(machine.pc(), 4);
    machine.execute(Instruction::Br { n: true, z: true, p: true, pc_offset: 0xFFFE }).unwrap();
    assert_eq!(machine.pc(), 2);
}

#[test]
fn jumps_set_the_program_counter() {
    let mut machine = from_regs([0, 0, 0x4000, 0, 0, 0, 0, 0x5000]);
    machine.execute(Instruction::Jmp { base: 2 }).unwrap();
    assert_eq!(machine.pc(), 0x4000);
    machine.execute(Instruction::Ret).unwrap();
    assert_eq!(machine.pc(), 0x5000);
    machine.execute(Instruction::Jsr { pc_offset: 0x10 }).unwrap();
    assert_eq!(machine.get_reg(7), 0x5000);
    assert_eq!(machine.pc(), 0x5010);
    machine.execute(Instruction::JsrR { base: 2 }).unwrap();
    assert_eq!(machine.get_reg(7), 0x5010);
    assert_eq!(machine.pc(), 0x4000);
}

#[test]
fn trap_goes_through_the_vector_table() {
    let mut machine = Machine::new();
    machine.write_memory(0x23, 0x0450);
    machine.execute(Instruction::Jmp { base: 0 }).unwrap();
    machine.execute(Instruction::Trap { vec: 0x23 }).unwrap();
    assert_eq!(machine.get_reg(7), 0);
    assert_eq!(machine.pc(), 0x0450);
}

#[test]
fn illegal_and_privileged_instructions_fault() {
    let mut machine = from_regs([1, 2, 3, 4, 5, 6, 7, 8]);
    assert_eq!(machine.execute(Instruction::Illegal), Err(Fault::IllegalInstruction));
    assert_eq!(machine.execute(Instruction::Rti), Err(Fault::PrivilegedInstruction));
    assert_eq!(machine.get_reg(0), 1);
    assert_eq!(machine.get_reg(7), 8);
    assert_eq!(machine.pc(), 0);
}

#[test]
fn run_executes_words_in_order() {
    let mut machine = Machine::new();
    // ADD R1, R1, #1; ADD R1, R1, R1; NOT R2, R1
    assert_eq!(machine.run(&[0x1261, 0x1241, 0x947F]), Ok(()));
    assert_eq!(machine.get_reg(1), 2);
    assert_eq!(machine.get_reg(2), 0xFFFD);
    assert_eq!(machine.condition_codes(), (true, false, false));
}

#[test]
fn run_of_nothing_changes_nothing() {
    let mut machine = from_regs([9, 0, 0, 0, 0, 0, 0, 0]);
    assert_eq!(machine.run(&[]), Ok(()));
    assert_eq!(machine.get_reg(0), 9);
    assert_eq!(machine.condition_codes(), (false, false, false));
}

#[test]
fn run_stops_at_halt() {
    let mut machine = Machine::new();
    // ADD R1, R1, #1; TRAP x25; ADD R1, R1, #1
    assert_eq!(machine.run(&[0x1261, 0xF025, 0x1261]), Ok(()));
    assert_eq!(machine.get_reg(1), 1);
}

#[test]
fn run_stops_at_the_first_fault() {
    let mut machine = Machine::new();
    // ADD R1, R1, #1; the reserved opcode; ADD R1, R1, #1
    assert_eq!(machine.run(&[0x1261, 0xD000, 0x1261]), Err(Fault::IllegalInstruction));
    assert_eq!(machine.get_reg(1), 1);
    let mut machine = Machine::new();
    assert_eq!(machine.run(&[0x8000]), Err(Fault::PrivilegedInstruction));
}
