use chip8::Opcode;

#[test]
fn can_decode_clear_display_instruction() {
    assert_eq!(Opcode::decode((0x00, 0xE0)), Ok(Opcode::ClearScreen))
}

#[test]
fn can_decode_add_registers_instruction() {
    assert_eq!(
        Opcode::decode((0x8F, 0xF4)),
        Ok(Opcode::AddRegisters(0x0F, 0x0F))
    );
}

#[test]
fn can_encode_add_registers_instruction() {
    assert_eq!(
        Opcode::encode(Opcode::AddRegisters(0x0F, 0x0F)),
        Ok((0x8F, 0xF4))
    );
}

#[test]
fn can_decode_goto_instruction() {
    assert_eq!(Opcode::decode((0x1F, 0xFF)), Ok(Opcode::Goto(0x0FFF)));
    assert_eq!(Opcode::decode((0x10, 0xAF)), Ok(Opcode::Goto(0x00AF)));
}

#[test]
fn can_decode_set_memory_address_instruction() {
    assert_eq!(
        Opcode::decode((0xA4, 0x20)),
        Ok(Opcode::SetMemoryAddress(0x420))
    );

    assert_eq!(
        Opcode::decode((0xA0, 0x2F)),
        Ok(Opcode::SetMemoryAddress(0x02F))
    );
}

#[test]
fn can_encode_set_memory_address_instruction() {
    assert_eq!(
        Opcode::encode(Opcode::SetMemoryAddress(0x420)),
        Ok((0xA4, 0x20))
    );

    assert_eq!(
        Opcode::encode(Opcode::SetMemoryAddress(0x0AF)),
        Ok((0xA0, 0xAF))
    );
}
