use chip8::emulator::{Emulator, EmulatorStatus, ExecError, LoadError};
use chip8::opcode::{DecodeError, ToBits, ToBitsTuple};
use chip8::Opcode;

fn working(emulator: &mut Emulator) {
    assert_eq!(emulator.update(), Ok(EmulatorStatus::Working));
}

#[test]
fn round_trip_through_every_instruction_shape() {
    let samples = vec![
        Opcode::CallMachineCodeRoutine(0x123),
        Opcode::ClearScreen,
        Opcode::Return,
        Opcode::Goto(0xABC),
        Opcode::CallSubroutine(0x345),
        Opcode::SkipInstructionIfEqual(0x7, 0x9A),
        Opcode::SkipInstructionIfNotEqual(0xF, 0x01),
        Opcode::SkipInstructionIfRegistersEqual(0x3, 0xC),
        Opcode::SetRegister(0x0, 0xFF),
        Opcode::AddToRegister(0x5, 0x80),
        Opcode::CopyRegisters(0x1, 0x2),
        Opcode::OrRegisters(0x4, 0x5),
        Opcode::AndRegisters(0x6, 0x7),
        Opcode::XorRegisters(0x8, 0x9),
        Opcode::AddRegisters(0xA, 0xB),
        Opcode::SubtractRegisters(0xC, 0xD),
        Opcode::ShiftRegisterRight(0xE, 0xF),
        Opcode::SubtractRegistersReversed(0x0, 0x1),
        Opcode::ShiftRegisterLeft(0x2, 0x3),
        Opcode::SkipInstructionIfRegistersNotEqual(0x4, 0x5),
        Opcode::SetMemoryAddress(0xFFF),
        Opcode::JumpToMemoryAddress(0x200),
        Opcode::SetRegisterRandom(0x6, 0x0F),
        Opcode::DrawSprite(0x7, 0x8, 0x9),
        Opcode::SkipInstructionIfKeyDown(0xA),
        Opcode::SkipInstructionIfKeyUp(0xB),
        Opcode::StoreDelayTimerToRegister(0xC),
        Opcode::HaltAndStoreKeypressIntoRegister(0xD),
        Opcode::SetDelayTimerToRegister(0xE),
        Opcode::SetSoundTimerToRegister(0xF),
        Opcode::AddRegisterToMemoryAddress(0x0),
        Opcode::SetMemoryAddressToSpriteFromRegister(0x1),
        Opcode::SetMemoryAddressToBinaryEncodedDecimalFromRegister(0x2),
        Opcode::DumpRegistersIntoMemoryUpToRegister(0x3),
        Opcode::DumpMemoryIntoRegistersUpToRegister(0x4),
    ];
    for opcode in samples {
        let bytes = Opcode::encode(opcode).unwrap();
        assert_eq!(Opcode::decode(bytes), Ok(opcode));
    }
}

#[test]
fn decode_rejects_unsupported_nibbles() {
    assert_eq!(
        Opcode::decode((0xFF, 0xFF)),
        Err(DecodeError::UnsupportedInstruction(0xF, 0xF, 0xF, 0xF))
    );
    assert_eq!(
        Opcode::decode((0x5A, 0xB1)),
        Err(DecodeError::UnsupportedInstruction(0x5, 0xA, 0xB, 0x1))
    );
}

#[test]
fn decode_all_decodes_a_whole_rom() {
    let bytes = vec![0x00, 0xE0, 0x12, 0x34];
    assert_eq!(
        Opcode::decode_all(&bytes),
        Ok(vec![Opcode::ClearScreen, Opcode::Goto(0x234)])
    );
}

#[test]
fn decode_all_reports_the_offset_of_a_trailing_half_instruction() {
    let bytes = vec![0x00, 0xE0, 0x12];
    assert_eq!(
        Opcode::decode_all(&bytes),
        Err(DecodeError::IncompleteInstruction(2))
    );
}

#[test]
fn decode_all_reports_the_first_bad_pair() {
    let bytes = vec![0x00, 0xE0, 0xFF, 0xFF];
    assert_eq!(
        Opcode::decode_all(&bytes),
        Err(DecodeError::UnsupportedInstruction(0xF, 0xF, 0xF, 0xF))
    );
}

#[test]
fn to_bits_serialises_opcodes_in_order() {
    let bytes = vec![Opcode::ClearScreen, Opcode::Goto(0x234)].to_bits();
    assert_eq!(bytes, vec![0x00, 0xE0, 0x12, 0x34]);
}

#[test]
fn to_bits_splits_a_word_into_bytes() {
    assert_eq!(0x1234u16.to_bits(), (0x12, 0x34));
    assert_eq!(0x00FFu16.to_bits(), (0x00, 0xFF));
}

#[test]
fn subtract_wraps_and_clears_flag() {
    let mut emulator = Emulator::new()
        .with_opcodes(vec![Opcode::SubtractRegisters(0, 1)])
        .with_register_as(0, 5)
        .with_register_as(1, 10);

    working(&mut emulator);
    assert_eq!(emulator.register(0), 251);
    assert_eq!(emulator.register(15), 0);
}

#[test]
fn shift_right_captures_low_bit() {
    let mut emulator = Emulator::new()
        .with_opcodes(vec![Opcode::ShiftRegisterRight(0, 1)])
        .with_register_as(0, 0b101);

    working(&mut emulator);
    assert_eq!(emulator.register(0), 0b10);
    assert_eq!(emulator.register(15), 1);

    let mut emulator = Emulator::new()
        .with_opcodes(vec![Opcode::ShiftRegisterRight(0, 1)])
        .with_register_as(0, 0b110);

    working(&mut emulator);
    assert_eq!(emulator.register(0), 0b11);
    assert_eq!(emulator.register(15), 0);
}

#[test]
fn call_then_return_restores_program_counter() {
    let mut emulator = Emulator::new().with_opcodes(vec![
        Opcode::CallSubroutine(0x206),
        Opcode::ClearScreen,
        Opcode::ClearScreen,
        Opcode::Return,
    ]);

    working(&mut emulator);
    assert_eq!(emulator.pc(), 0x206);
    working(&mut emulator);
    assert_eq!(emulator.pc(), 0x202);
}

#[test]
fn return_with_empty_stack_underflows() {
    let mut emulator = Emulator::new().with_opcodes(vec![Opcode::Return]);

    assert_eq!(emulator.update(), Err(ExecError::StackUnderflow));
}

#[test]
fn seventeenth_nested_call_overflows_the_stack() {
    let mut emulator = Emulator::new().with_opcodes(vec![Opcode::CallSubroutine(0x200)]);

    for _ in 0..16 {
        working(&mut emulator);
    }
    assert_eq!(emulator.update(), Err(ExecError::StackOverflow));
}

#[test]
fn drawing_on_set_pixels_clears_them_and_reports_collision() {
    let mut emulator = Emulator::new()
        .with_opcodes(vec![
            Opcode::SetRegister(0, 255),
            Opcode::SetMemoryAddress(0x400),
            Opcode::DumpRegistersIntoMemoryUpToRegister(0),
            Opcode::DrawSprite(2, 3, 1),
        ])
        .with_display([[1; 64]; 32]);

    for _ in 0..4 {
        working(&mut emulator);
    }
    assert_eq!(emulator.register(15), 1);
    for x in 0..8 {
        assert_eq!(emulator.pixel(x, 0), 0);
    }
    assert_eq!(emulator.pixel(8, 0), 1);
}

#[test]
fn drawing_on_clear_pixels_sets_them_without_collision() {
    let mut emulator = Emulator::new().with_opcodes(vec![
        Opcode::SetRegister(0, 255),
        Opcode::SetMemoryAddress(0x400),
        Opcode::DumpRegistersIntoMemoryUpToRegister(0),
        Opcode::DrawSprite(2, 3, 1),
    ]);

    for _ in 0..4 {
        working(&mut emulator);
    }
    assert_eq!(emulator.register(15), 0);
    for x in 0..8 {
        assert_eq!(emulator.pixel(x, 0), 1);
    }
    assert_eq!(emulator.pixel(8, 0), 0);
}

#[test]
fn drawing_near_the_edge_wraps_around() {
    let mut emulator = Emulator::new()
        .with_opcodes(vec![
            Opcode::SetRegister(0, 255),
            Opcode::SetMemoryAddress(0x400),
            Opcode::DumpRegistersIntoMemoryUpToRegister(0),
            Opcode::DrawSprite(2, 3, 1),
        ])
        .with_register_as(2, 60)
        .with_register_as(3, 31);

    for _ in 0..4 {
        working(&mut emulator);
    }
    for x in [60, 61, 62, 63, 0, 1, 2, 3] {
        assert_eq!(emulator.pixel(x, 31), 1);
    }
    assert_eq!(emulator.pixel(4, 31), 0);
}

#[test]
fn loading_a_rom_and_stepping_clear_screen() {
    let mut emulator = Emulator::new().with_display([[1; 64]; 32]);

    emulator.load_instructions(vec![0x00, 0xE0]).unwrap();
    working(&mut emulator);
    assert_eq!(emulator.pc(), 0x202);
    for y in 0..32 {
        for x in 0..64 {
            assert_eq!(emulator.pixel(x, y), 0);
        }
    }
}

#[test]
fn an_oversized_rom_is_rejected() {
    let mut emulator = Emulator::new();

    assert_eq!(
        emulator.load_instructions(vec![0; 4096 - 0x200 + 1]),
        Err(LoadError::RomTooLarge)
    );
    assert_eq!(emulator.load_instructions(vec![0; 4096 - 0x200]), Ok(()));
}

#[test]
fn fetching_past_the_memory_boundary_fails() {
    let mut emulator = Emulator::new().with_opcodes(vec![Opcode::Goto(0xFFF)]);

    working(&mut emulator);
    assert_eq!(emulator.update(), Err(ExecError::MemoryOutOfBounds));
}

#[test]
fn drawing_a_sprite_read_past_the_memory_boundary_fails() {
    let mut emulator = Emulator::new().with_opcodes(vec![
        Opcode::SetMemoryAddress(0xFFF),
        Opcode::DrawSprite(0, 0, 2),
    ]);

    working(&mut emulator);
    assert_eq!(emulator.update(), Err(ExecError::MemoryOutOfBounds));
}

#[test]
fn a_machine_code_routine_is_unsupported() {
    let mut emulator = Emulator::new();

    emulator.load_instructions(vec![0x01, 0x23]).unwrap();
    assert_eq!(
        emulator.update(),
        Err(ExecError::UnsupportedOpcode(0, 1, 2, 3))
    );
}

#[test]
fn unrecognised_bytes_are_unsupported() {
    let mut emulator = Emulator::new();

    emulator.load_instructions(vec![0xFF, 0xFF]).unwrap();
    assert_eq!(
        emulator.update(),
        Err(ExecError::UnsupportedOpcode(0xF, 0xF, 0xF, 0xF))
    );
}

#[test]
fn timers_decrement_at_sixty_hertz() {
    let mut emulator = Emulator::new().with_opcodes(vec![
        Opcode::SetRegister(0, 60),
        Opcode::SetDelayTimerToRegister(0),
        Opcode::SetSoundTimerToRegister(0),
    ]);

    for _ in 0..3 {
        working(&mut emulator);
    }
    assert_eq!(emulator.delay_timer(), 60);
    assert_eq!(emulator.sound_timer(), 60);

    emulator.set_time_ms(500);
    assert_eq!(emulator.delay_timer(), 30);
    assert_eq!(emulator.sound_timer(), 30);

    emulator.set_time_ms(500);
    assert_eq!(emulator.delay_timer(), 30);

    emulator.set_time_ms(1000);
    assert_eq!(emulator.delay_timer(), 0);
    assert_eq!(emulator.sound_timer(), 0);
}

#[test]
fn updates_alone_do_not_decrement_timers() {
    let mut emulator = Emulator::new().with_opcodes(vec![
        Opcode::SetRegister(0, 7),
        Opcode::SetDelayTimerToRegister(0),
        Opcode::StoreDelayTimerToRegister(1),
    ]);

    for _ in 0..3 {
        working(&mut emulator);
    }
    assert_eq!(emulator.delay_timer(), 7);
    assert_eq!(emulator.register(1), 7);
}

#[test]
fn halt_waits_for_a_keypress_and_stores_it() {
    let mut emulator =
        Emulator::new().with_opcodes(vec![Opcode::HaltAndStoreKeypressIntoRegister(3)]);

    working(&mut emulator);
    assert!(emulator.is_awaiting_keypress());
    assert_eq!(emulator.pc(), 0x202);

    working(&mut emulator);
    assert!(emulator.is_awaiting_keypress());
    assert_eq!(emulator.pc(), 0x202);

    emulator.set_input(7, 1);
    working(&mut emulator);
    assert!(!emulator.is_awaiting_keypress());
    assert_eq!(emulator.register(3), 7);
    assert_eq!(emulator.pc(), 0x202);
}

#[test]
fn font_addresses_are_five_bytes_apart() {
    let mut emulator = Emulator::new().with_opcodes(vec![
        Opcode::SetRegister(0, 0xA),
        Opcode::SetMemoryAddressToSpriteFromRegister(0),
    ]);

    working(&mut emulator);
    working(&mut emulator);
    assert_eq!(emulator.address(), 0x20 + 5 * 0xA);
}

#[test]
fn binary_coded_decimal_splits_the_digits() {
    let mut emulator = Emulator::new().with_opcodes(vec![
        Opcode::SetRegister(0, 234),
        Opcode::SetMemoryAddress(0x400),
        Opcode::SetMemoryAddressToBinaryEncodedDecimalFromRegister(0),
        Opcode::DumpMemoryIntoRegistersUpToRegister(2),
    ]);

    for _ in 0..4 {
        working(&mut emulator);
    }
    assert_eq!(emulator.register(0), 2);
    assert_eq!(emulator.register(1), 3);
    assert_eq!(emulator.register(2), 4);
}

#[test]
fn registers_round_trip_through_memory() {
    let mut emulator = Emulator::new()
        .with_opcodes(vec![
            Opcode::SetMemoryAddress(0x500),
            Opcode::DumpRegistersIntoMemoryUpToRegister(2),
            Opcode::SetRegister(0, 0),
            Opcode::SetRegister(1, 0),
            Opcode::SetRegister(2, 0),
            Opcode::DumpMemoryIntoRegistersUpToRegister(2),
        ])
        .with_register_as(0, 11)
        .with_register_as(1, 22)
        .with_register_as(2, 33);

    for _ in 0..6 {
        working(&mut emulator);
    }
    assert_eq!(emulator.register(0), 11);
    assert_eq!(emulator.register(1), 22);
    assert_eq!(emulator.register(2), 33);
}

#[test]
fn the_index_register_adds_and_wraps() {
    let mut emulator = Emulator::new()
        .with_opcodes(vec![
            Opcode::SetMemoryAddress(0xFFF),
            Opcode::AddRegisterToMemoryAddress(0),
        ])
        .with_register_as(0, 2);

    working(&mut emulator);
    working(&mut emulator);
    assert_eq!(emulator.address(), 0x1001);
}

#[test]
fn a_masked_random_register_stays_within_the_mask() {
    for _ in 0..200 {
        let mut emulator =
            Emulator::new().with_opcodes(vec![Opcode::SetRegisterRandom(0, 0x0F)]);

        working(&mut emulator);
        assert!(emulator.register(0) <= 0x0F);
    }
}

#[test]
fn execute_masks_the_random_byte_it_is_handed() {
    let mut emulator = Emulator::new();

    assert_eq!(
        emulator.execute(Opcode::SetRegisterRandom(4, 0xF0), 0xAB),
        Ok(EmulatorStatus::Working)
    );
    assert_eq!(emulator.register(4), 0xA0);
}

#[test]
fn skip_if_key_up_skips_when_the_key_is_released() {
    let mut emulator = Emulator::new()
        .with_opcodes(vec![Opcode::SkipInstructionIfKeyUp(0)])
        .with_register_as(0, 5);

    working(&mut emulator);
    assert_eq!(emulator.pc(), 4 + 0x200);

    let mut emulator = Emulator::new()
        .with_opcodes(vec![Opcode::SkipInstructionIfKeyUp(0)])
        .with_register_as(0, 5)
        .with_input_as(5, 1);

    working(&mut emulator);
    assert_eq!(emulator.pc(), 2 + 0x200);
}
