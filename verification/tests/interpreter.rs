use chip8::emulator::{Emulator, EmulatorStatus};
use chip8::Opcode;

fn assert_update_working(emulator: &mut Emulator) {
    assert_eq!(emulator.update(), Ok(EmulatorStatus::Working));
}

fn assert_display_all(emulator: &Emulator, value: u8) {
    for y in 0..32 {
        for x in 0..64 {
            assert_eq!(emulator.pixel(x, y), value);
        }
    }
}

#[test]
fn clear_screen() {
    let mut emulator = Emulator::new()
        .with_opcodes(vec![Opcode::ClearScreen])
        .with_display([[1; 64]; 32]);

    assert_update_working(&mut emulator);
    assert_display_all(&emulator, 0);
}

#[test]
fn opcode_goto() {
    let mut emulator = Emulator::new().with_opcodes(vec![Opcode::Goto(42)]);

    assert_update_working(&mut emulator);
    assert_eq!(emulator.pc(), 42);
}

#[test]
fn opcode_skip_if_register_immediate() {
    let mut emulator = Emulator::new()
        .with_opcodes(vec![Opcode::SkipInstructionIfEqual(0, 42)])
        .with_register_as(0, 42);

    assert_update_working(&mut emulator);
    assert_eq!(emulator.pc(), 4 + 0x200)
}

#[test]
fn opcode_skip_if_register_immediate_negative() {
    let mut emulator = Emulator::new()
        .with_opcodes(vec![Opcode::SkipInstructionIfEqual(0, 42)])
        .with_register_as(0, 69);

    assert_update_working(&mut emulator);
    assert_eq!(emulator.pc(), 2 + 0x200);
}

#[test]
fn opcode_skip_if_register_not_immediate() {
    let mut emulator = Emulator::new()
        .with_opcodes(vec![Opcode::SkipInstructionIfEqual(0, 42)])
        .with_register_as(0, 42);

    assert_update_working(&mut emulator);
    assert_eq!(emulator.pc(), 4 + 0x200);
}

#[test]
fn opcode_skip_if_register_not_immediate_negative() {
    let mut emulator = Emulator::new()
        .with_opcodes(vec![Opcode::SkipInstructionIfNotEqual(0, 42)])
        .with_register_as(0, 42);

    assert_update_working(&mut emulator);
    assert_eq!(emulator.pc(), 2 + 0x200);
}

#[test]
fn opcode_skip_if_registers_equal() {
    let mut emulator = Emulator::new()
        .with_opcodes(vec![Opcode::SkipInstructionIfRegistersEqual(0, 1)])
        .with_register_as(0, 42)
        .with_register_as(1, 42);

    assert_update_working(&mut emulator);
    assert_eq!(emulator.pc(), 4 + 0x200);
}

#[test]
fn opcode_skip_if_registers_equal_negative() {
    let mut emulator = Emulator::new()
        .with_opcodes(vec![Opcode::SkipInstructionIfRegistersEqual(0, 1)])
        .with_register_as(0, 42)
        .with_register_as(1, 69);

    assert_update_working(&mut emulator);
    assert_eq!(emulator.pc(), 2 + 0x200);
}

#[test]
fn opcode_set_register() {
    let mut emulator = Emulator::new().with_opcodes(vec![Opcode::SetRegister(0, 42)]);

    assert_update_working(&mut emulator);
    assert_eq!(emulator.register(0), 42);
}

#[test]
fn opcode_add_to_register() {
    let mut emulator = Emulator::new().with_opcodes(vec![
        Opcode::SetRegister(0, 254),
        Opcode::AddToRegister(0, 1),
        Opcode::AddToRegister(0, 1),
    ]);

    assert_eq!(emulator.register(0), 0);
    assert_update_working(&mut emulator);
    assert_eq!(emulator.register(0), 254);
    assert_update_working(&mut emulator);
    assert_eq!(emulator.register(0), 255);
    assert_update_working(&mut emulator);
    assert_eq!(emulator.register(0), 0);
}

#[test]
fn opcode_copy_registers() {
    let mut emulator = Emulator::new()
        .with_opcodes(vec![Opcode::CopyRegisters(0, 1)])
        .with_register_as(1, 42);

    assert_eq!(emulator.register(0), 0);
    assert_eq!(emulator.register(1), 42);
    assert_update_working(&mut emulator);
    assert_eq!(emulator.register(1), 42);
    assert_eq!(emulator.register(1), 42)
}

#[test]
fn opcode_or_registers() {
    let mut emulator = Emulator::new()
        .with_opcodes(vec![Opcode::OrRegisters(0, 1)])
        .with_register_as(0, 1)
        .with_register_as(1, 2);

    assert_update_working(&mut emulator);
    assert_eq!(emulator.register(0), 3);
}

#[test]
fn opcode_and_registers() {
    let mut emulator = Emulator::new()
        .with_opcodes(vec![Opcode::AndRegisters(0, 1)])
        .with_register_as(0, 1)
        .with_register_as(1, 2);

    assert_update_working(&mut emulator);
    assert_eq!(emulator.register(0), 0);
}

#[test]
fn opcode_xor_registers() {
    let mut emulator = Emulator::new()
        .with_opcodes(vec![Opcode::AndRegisters(0, 1)])
        .with_register_as(0, 4)
        .with_register_as(1, 6);

    assert_update_working(&mut emulator);
    assert_eq!(emulator.register(0), 4);
}

#[test]
fn opcode_add_registers() {
    let mut emulator = Emulator::new()
        .with_opcodes(vec![Opcode::AddRegisters(0, 1)])
        .with_register_as(0, 40)
        .with_register_as(1, 2);

    assert_update_working(&mut emulator);
    assert_eq!(emulator.register(0), 42);
    assert_eq!(emulator.register(15), 0);
}

#[test]
fn opcode_add_registers_with_overflow() {
    let mut emulator = Emulator::new()
        .with_opcodes(vec![Opcode::AddRegisters(0, 1)])
        .with_register_as(0, 255)
        .with_register_as(1, 43);

    assert_update_working(&mut emulator);
    assert_eq!(emulator.register(0), 42);
    assert_eq!(emulator.register(15), 1);
}

#[test]
fn opcode_subtract_registers() {
    let mut emulator = Emulator::new()
        .with_opcodes(vec![Opcode::SubtractRegisters(0, 1)])
        .with_register_as(0, 255)
        .with_register_as(1, 213);

    assert_update_working(&mut emulator);
    assert_eq!(emulator.register(0), 42);
    assert_eq!(emulator.register(15), 1);
}

#[test]
fn opcode_subtract_registers_with_underflow() {
    let mut emulator = Emulator::new()
        .with_opcodes(vec![Opcode::SubtractRegisters(0, 1)])
        .with_register_as(0, 0)
        .with_register_as(1, 214);

    assert_update_working(&mut emulator);
    assert_eq!(emulator.register(0), 42);
    assert_eq!(emulator.register(15), 0);
}

#[test]
fn opcode_shift_register_right() {
    let mut emulator = Emulator::new()
        .with_opcodes(vec![Opcode::ShiftRegisterRight(0, 1)])
        .with_register_as(0, 85);

    assert_eq!(emulator.register(0), 85);
    assert_update_working(&mut emulator);
    assert_eq!(emulator.register(0), 42);
    assert_eq!(emulator.register(15), 1);
}

#[test]
fn opcode_subtract_registers_reversed() {
    let mut emulator = Emulator::new()
        .with_opcodes(vec![Opcode::SubtractRegistersReversed(0, 1)])
        .with_register_as(0, 42)
        .with_register_as(1, 84);

    assert_update_working(&mut emulator);
    assert_eq!(emulator.register(0), 42);
    assert_eq!(emulator.register(15), 1);
}

#[test]
fn opcode_subtract_registers_reversed_with_underflow() {
    let mut emulator = Emulator::new()
        .with_opcodes(vec![Opcode::SubtractRegistersReversed(0, 1)])
        .with_register_as(0, 214)
        .with_register_as(1, 0);

    assert_update_working(&mut emulator);
    assert_eq!(emulator.register(0), 42);
    assert_eq!(emulator.register(15), 0);
}

#[test]
fn opcode_shift_register_left() {
    let mut emulator = Emulator::new()
        .with_opcodes(vec![Opcode::ShiftRegisterLeft(0, 1)])
        .with_register_as(0, 0b10010101);

    assert_update_working(&mut emulator);
    assert_eq!(emulator.register(0), 42);
    assert_eq!(emulator.register(15), 1);
}

#[test]
fn opcode_skip_if_registers_not_equal() {
    let mut emulator = Emulator::new()
        .with_opcodes(vec![Opcode::SkipInstructionIfRegistersNotEqual(0, 1)])
        .with_register_as(0, 42)
        .with_register_as(1, 0);

    assert_update_working(&mut emulator);
    assert_eq!(emulator.pc(), 4 + 0x200);
}

#[test]
fn opcode_skip_if_registers_not_equal_negative() {
    let mut emulator = Emulator::new()
        .with_opcodes(vec![Opcode::SkipInstructionIfRegistersNotEqual(0, 1)])
        .with_register_as(0, 42)
        .with_register_as(1, 42);

    assert_update_working(&mut emulator);
    assert_eq!(emulator.pc(), 2 + 0x200);
}

#[test]
fn opcode_set_memory_address() {
    let mut emulator = Emulator::new().with_opcodes(vec![Opcode::SetMemoryAddress(0xfef)]);

    assert_update_working(&mut emulator);
    assert_eq!(emulator.address(), 0xfef);
}

#[test]
fn opcode_jump_to_memory_address() {
    let mut emulator = Emulator::new()
        .with_opcodes(vec![Opcode::JumpToMemoryAddress(0xfef)])
        .with_register_as(0, 42);

    assert_update_working(&mut emulator);
    assert_eq!(emulator.pc(), 0xfef + 42);
}

#[test]
fn opcode_set_register_random() {
    let mut values = Vec::new();

    for _ in 0..10000 {
        let mut emulator = Emulator::new().with_opcodes(vec![Opcode::SetRegisterRandom(0, 0xFF)]);

        assert_update_working(&mut emulator);
        values.push(emulator.register(0));
    }

    let mut average: u64 = 0u64;

    for v in &values {
        average += *v as u64;
    }

    average /= values.len() as u64;

    assert!(average >= 125 && average <= 130);
}

#[test]
fn opcode_draw_sprite() {
    let mut emulator = Emulator::new()
        .with_opcodes(vec![Opcode::SkipInstructionIfKeyDown(0)])
        .with_register_as(0, 0x1F)
        .with_input_as(0xF, 1);

    assert_update_working(&mut emulator);
}

#[test]
fn opcode_skip_if_key_down() {
    let mut emulator = Emulator::new()
        .with_opcodes(vec![Opcode::SkipInstructionIfKeyDown(0)])
        .with_register_as(0, 0x1F)
        .with_input_as(0xF, 1);

    assert_update_working(&mut emulator);
    assert_eq!(emulator.pc(), 4 + 0x200);
}

#[test]
fn opcode_skip_if_key_down_negative() {
    let mut emulator = Emulator::new()
        .with_opcodes(vec![Opcode::SkipInstructionIfKeyDown(0)])
        .with_register_as(0, 0x1F)
        .with_input_as(0xF, 0);

    assert_update_working(&mut emulator);
    assert_eq!(emulator.pc(), 2 + 0x200);
}
