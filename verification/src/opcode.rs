//! The opcode codec: translation between the 2-byte on-wire instruction
//! encoding and a tagged in-memory instruction value. Pure and stateless.

use vstd::prelude::*;

verus! {

/// One decoded CHIP-8 instruction with its operand fields already extracted:
/// register indices 0-15, 8-bit immediates, or 12-bit addresses.
#[derive(Debug, PartialEq, Eq, Structural, Clone, Copy)]
pub enum Opcode {
    /// 0NNN: Calls machine code routine at address NNN. Not executable here.
    CallMachineCodeRoutine(u16),
    /// 00E0: Clears the screen.
    ClearScreen,
    /// 00EE: Returns from a subroutine.
    Return,
    /// 1NNN: Jumps to address NNN.
    Goto(u16),
    /// 2NNN: Calls subroutine at NNN.
    CallSubroutine(u16),
    /// 3XNN: Skips the next instruction if VX equals NN.
    SkipInstructionIfEqual(u8, u8),
    /// 4XNN: Skips the next instruction if VX does not equal NN.
    SkipInstructionIfNotEqual(u8, u8),
    /// 5XY0: Skips the next instruction if VX equals VY.
    SkipInstructionIfRegistersEqual(u8, u8),
    /// 6XNN: Sets VX to NN.
    SetRegister(u8, u8),
    /// 7XNN: Adds NN to VX (carry flag is not changed).
    AddToRegister(u8, u8),
    /// 8XY0: Sets VX to the value of VY.
    CopyRegisters(u8, u8),
    /// 8XY1: Sets VX to VX or VY (bitwise OR).
    OrRegisters(u8, u8),
    /// 8XY2: Sets VX to VX and VY (bitwise AND).
    AndRegisters(u8, u8),
    /// 8XY3: Sets VX to VX xor VY.
    XorRegisters(u8, u8),
    /// 8XY4: Adds VY to VX. VF is set to 1 on overflow and to 0 otherwise.
    AddRegisters(u8, u8),
    /// 8XY5: VY is subtracted from VX. VF is set to 0 on borrow and 1 otherwise
    /// (that is, VF is 1 if VX >= VY and 0 if not).
    SubtractRegisters(u8, u8),
    /// 8XY6: Shifts VX right by 1; VF receives the least significant bit of VX
    /// prior to the shift.
    ShiftRegisterRight(u8, u8),
    /// 8XY7: Sets VX to VY minus VX. VF is set to 0 on borrow and 1 otherwise
    /// (that is, VF is 1 if VY >= VX).
    SubtractRegistersReversed(u8, u8),
    /// 8XYE: Shifts VX left by 1; VF receives the most significant bit of VX
    /// prior to the shift.
    ShiftRegisterLeft(u8, u8),
    /// 9XY0: Skips the next instruction if VX does not equal VY.
    SkipInstructionIfRegistersNotEqual(u8, u8),
    /// ANNN: Sets I to the address NNN.
    SetMemoryAddress(u16),
    /// BNNN: Jumps to the address NNN plus V0.
    JumpToMemoryAddress(u16),
    /// CXNN: Sets VX to a random byte ANDed with NN.
    SetRegisterRandom(u8, u8),
    /// DXYN: Draws an 8-pixel-wide, N-pixel-high sprite at coordinate (VX, VY),
    /// read as bit-coded rows starting from memory location I; I is unchanged.
    /// VF is set to 1 if any screen pixel is flipped from set to unset.
    DrawSprite(u8, u8, u8),
    /// EX9E: Skips the next instruction if the key stored in VX (lowest nibble
    /// only) is pressed.
    SkipInstructionIfKeyDown(u8),
    /// EXA1: Skips the next instruction if the key stored in VX (lowest nibble
    /// only) is not pressed.
    SkipInstructionIfKeyUp(u8),
    /// FX07: Sets VX to the value of the delay timer.
    StoreDelayTimerToRegister(u8),
    /// FX0A: Awaits a key press, then stores the key index in VX (blocking;
    /// the timers keep running while execution is suspended).
    HaltAndStoreKeypressIntoRegister(u8),
    /// FX15: Sets the delay timer to VX.
    SetDelayTimerToRegister(u8),
    /// FX18: Sets the sound timer to VX.
    SetSoundTimerToRegister(u8),
    /// FX1E: Adds VX to I (wrapping). VF is not affected.
    AddRegisterToMemoryAddress(u8),
    /// FX29: Sets I to the location of the font sprite for the hex digit in VX
    /// (lowest nibble only).
    SetMemoryAddressToSpriteFromRegister(u8),
    /// FX33: Stores the binary-coded decimal representation of VX at I
    /// (hundreds digit), I+1 (tens digit) and I+2 (ones digit).
    SetMemoryAddressToBinaryEncodedDecimalFromRegister(u8),
    /// FX55: Stores V0 through VX in memory starting at address I; I itself is
    /// left unmodified.
    DumpRegistersIntoMemoryUpToRegister(u8),
    /// FX65: Fills V0 through VX with values from memory starting at address I;
    /// I itself is left unmodified.
    DumpMemoryIntoRegistersUpToRegister(u8),
}

/// A malformed or unsupported instruction.
#[derive(Debug, PartialEq, Eq, Structural, Clone, Copy)]
pub enum DecodeError {
    /// No entry of the 35-instruction table matches these four nibbles.
    UnsupportedInstruction(u8, u8, u8, u8),
    /// A byte stream of odd length ends in a half instruction; the payload is
    /// the byte offset of the incomplete instruction.
    IncompleteInstruction(usize),
}

/// The 12-bit address held in three nibbles, high nibble first.
pub open spec fn spec_triple_hex(n0: u8, n1: u8, n2: u8) -> u16
    recommends
        n0 < 16,
        n1 < 16,
        n2 < 16,
{
    ((n0 as u16) << 8) | ((n1 as u16) << 4) | (n2 as u16)
}

/// The 8-bit immediate held in two nibbles, high nibble first.
pub open spec fn spec_imm(n0: u8, n1: u8) -> u8
    recommends
        n0 < 16,
        n1 < 16,
{
    (n0 << 4) | n1
}

/// What decoding the two instruction bytes yields: the instruction table of
/// the ISA, dispatched on the four nibbles with literal matches taking
/// priority over the 0NNN catch-all.
pub open spec fn spec_decode(b0: u8, b1: u8) -> Result<Opcode, DecodeError> {
    let n0 = b0 >> 4;
    let n1 = b0 & 0xF;
    let n2 = b1 >> 4;
    let n3 = b1 & 0xF;
    if n0 == 0x0 && n1 == 0x0 && n2 == 0xE && n3 == 0x0 {
        Ok(Opcode::ClearScreen)
    } else if n0 == 0x0 && n1 == 0x0 && n2 == 0xE && n3 == 0xE {
        Ok(Opcode::Return)
    } else if n0 == 0x0 {
        Ok(Opcode::CallMachineCodeRoutine(spec_triple_hex(n1, n2, n3)))
    } else if n0 == 0x1 {
        Ok(Opcode::Goto(spec_triple_hex(n1, n2, n3)))
    } else if n0 == 0x2 {
        Ok(Opcode::CallSubroutine(spec_triple_hex(n1, n2, n3)))
    } else if n0 == 0x3 {
        Ok(Opcode::SkipInstructionIfEqual(n1, spec_imm(n2, n3)))
    } else if n0 == 0x4 {
        Ok(Opcode::SkipInstructionIfNotEqual(n1, spec_imm(n2, n3)))
    } else if n0 == 0x5 && n3 == 0x0 {
        Ok(Opcode::SkipInstructionIfRegistersEqual(n1, n2))
    } else if n0 == 0x6 {
        Ok(Opcode::SetRegister(n1, spec_imm(n2, n3)))
    } else if n0 == 0x7 {
        Ok(Opcode::AddToRegister(n1, spec_imm(n2, n3)))
    } else if n0 == 0x8 && n3 == 0x0 {
        Ok(Opcode::CopyRegisters(n1, n2))
    } else if n0 == 0x8 && n3 == 0x1 {
        Ok(Opcode::OrRegisters(n1, n2))
    } else if n0 == 0x8 && n3 == 0x2 {
        Ok(Opcode::AndRegisters(n1, n2))
    } else if n0 == 0x8 && n3 == 0x3 {
        Ok(Opcode::XorRegisters(n1, n2))
    } else if n0 == 0x8 && n3 == 0x4 {
        Ok(Opcode::AddRegisters(n1, n2))
    } else if n0 == 0x8 && n3 == 0x5 {
        Ok(Opcode::SubtractRegisters(n1, n2))
    } else if n0 == 0x8 && n3 == 0x6 {
        Ok(Opcode::ShiftRegisterRight(n1, n2))
    } else if n0 == 0x8 && n3 == 0x7 {
        Ok(Opcode::SubtractRegistersReversed(n1, n2))
    } else if n0 == 0x8 && n3 == 0xE {
        Ok(Opcode::ShiftRegisterLeft(n1, n2))
    } else if n0 == 0x9 && n3 == 0x0 {
        Ok(Opcode::SkipInstructionIfRegistersNotEqual(n1, n2))
    } else if n0 == 0xA {
        Ok(Opcode::SetMemoryAddress(spec_triple_hex(n1, n2, n3)))
    } else if n0 == 0xB {
        Ok(Opcode::JumpToMemoryAddress(spec_triple_hex(n1, n2, n3)))
    } else if n0 == 0xC {
        Ok(Opcode::SetRegisterRandom(n1, spec_imm(n2, n3)))
    } else if n0 == 0xD {
        Ok(Opcode::DrawSprite(n1, n2, n3))
    } else if n0 == 0xE && n2 == 0x9 && n3 == 0xE {
        Ok(Opcode::SkipInstructionIfKeyDown(n1))
    } else if n0 == 0xE && n2 == 0xA && n3 == 0x1 {
        Ok(Opcode::SkipInstructionIfKeyUp(n1))
    } else if n0 == 0xF && n2 == 0x0 && n3 == 0x7 {
        Ok(Opcode::StoreDelayTimerToRegister(n1))
    } else if n0 == 0xF && n2 == 0x0 && n3 == 0xA {
        Ok(Opcode::HaltAndStoreKeypressIntoRegister(n1))
    } else if n0 == 0xF && n2 == 0x1 && n3 == 0x5 {
        Ok(Opcode::SetDelayTimerToRegister(n1))
    } else if n0 == 0xF && n2 == 0x1 && n3 == 0x8 {
        Ok(Opcode::SetSoundTimerToRegister(n1))
    } else if n0 == 0xF && n2 == 0x1 && n3 == 0xE {
        Ok(Opcode::AddRegisterToMemoryAddress(n1))
    } else if n0 == 0xF && n2 == 0x2 && n3 == 0x9 {
        Ok(Opcode::SetMemoryAddressToSpriteFromRegister(n1))
    } else if n0 == 0xF && n2 == 0x3 && n3 == 0x3 {
        Ok(Opcode::SetMemoryAddressToBinaryEncodedDecimalFromRegister(n1))
    } else if n0 == 0xF && n2 == 0x5 && n3 == 0x5 {
        Ok(Opcode::DumpRegistersIntoMemoryUpToRegister(n1))
    } else if n0 == 0xF && n2 == 0x6 && n3 == 0x5 {
        Ok(Opcode::DumpMemoryIntoRegistersUpToRegister(n1))
    } else {
        Err(DecodeError::UnsupportedInstruction(n0, n1, n2, n3))
    }
}

/// The two bytes of a 16-bit word, high byte first.
pub open spec fn spec_u16_bytes(w: u16) -> (u8, u8) {
    ((w >> 8) as u8, (w & 0xFF) as u8)
}

/// What encoding an opcode yields: the exact inverse of the instruction
/// table, composing operand fields back into the two instruction bytes.
pub open spec fn spec_encode(opcode: Opcode) -> (u8, u8) {
    match opcode {
        Opcode::CallMachineCodeRoutine(data) => spec_u16_bytes(data),
        Opcode::ClearScreen => (0x00, 0xE0),
        Opcode::Return => (0x00, 0xEE),
        Opcode::Goto(data) => spec_u16_bytes(0x1000 | data),
        Opcode::CallSubroutine(data) => spec_u16_bytes(0x2000 | data),
        Opcode::SkipInstructionIfEqual(l, r) => (0x30 | l, r),
        Opcode::SkipInstructionIfNotEqual(l, r) => (0x40 | l, r),
        Opcode::SkipInstructionIfRegistersEqual(l, r) => (0x50 | l, r << 4),
        Opcode::SetRegister(l, r) => (0x60 | l, r),
        Opcode::AddToRegister(l, r) => (0x70 | l, r),
        Opcode::CopyRegisters(l, r) => (0x80 | l, r << 4),
        Opcode::OrRegisters(l, r) => (0x80 | l, (r << 4) | 0x01),
        Opcode::AndRegisters(l, r) => (0x80 | l, (r << 4) | 0x02),
        Opcode::XorRegisters(l, r) => (0x80 | l, (r << 4) | 0x03),
        Opcode::AddRegisters(l, r) => (0x80 | l, (r << 4) | 0x04),
        Opcode::SubtractRegisters(l, r) => (0x80 | l, (r << 4) | 0x05),
        Opcode::ShiftRegisterRight(l, r) => (0x80 | l, (r << 4) | 0x06),
        Opcode::SubtractRegistersReversed(l, r) => (0x80 | l, (r << 4) | 0x07),
        Opcode::ShiftRegisterLeft(l, r) => (0x80 | l, (r << 4) | 0x0E),
        Opcode::SkipInstructionIfRegistersNotEqual(l, r) => (0x90 | l, r << 4),
        Opcode::SetMemoryAddress(data) => spec_u16_bytes(0xA000 | data),
        Opcode::JumpToMemoryAddress(data) => spec_u16_bytes(0xB000 | data),
        Opcode::SetRegisterRandom(l, r) => (0xC0 | l, r),
        Opcode::DrawSprite(l, m, r) => (0xD0 | l, (m << 4) | r),
        Opcode::SkipInstructionIfKeyDown(data) => spec_u16_bytes(0xE09E | ((data as u16) << 8)),
        Opcode::SkipInstructionIfKeyUp(data) => spec_u16_bytes(0xE0A1 | ((data as u16) << 8)),
        Opcode::StoreDelayTimerToRegister(data) => spec_u16_bytes(0xF007 | ((data as u16) << 8)),
        Opcode::HaltAndStoreKeypressIntoRegister(data) => spec_u16_bytes(
            0xF00A | ((data as u16) << 8),
        ),
        Opcode::SetDelayTimerToRegister(data) => spec_u16_bytes(0xF015 | ((data as u16) << 8)),
        Opcode::SetSoundTimerToRegister(data) => spec_u16_bytes(0xF018 | ((data as u16) << 8)),
        Opcode::AddRegisterToMemoryAddress(data) => spec_u16_bytes(0xF01E | ((data as u16) << 8)),
        Opcode::SetMemoryAddressToSpriteFromRegister(data) => spec_u16_bytes(
            0xF029 | ((data as u16) << 8),
        ),
        Opcode::SetMemoryAddressToBinaryEncodedDecimalFromRegister(data) => spec_u16_bytes(
            0xF033 | ((data as u16) << 8),
        ),
        Opcode::DumpRegistersIntoMemoryUpToRegister(data) => spec_u16_bytes(
            0xF055 | ((data as u16) << 8),
        ),
        Opcode::DumpMemoryIntoRegistersUpToRegister(data) => spec_u16_bytes(
            0xF065 | ((data as u16) << 8),
        ),
    }
}

impl Opcode {
    /// A representable opcode: every operand field is within its range, so the
    /// value is one that decoding two bytes can produce. Addresses are 12 bits
    /// and register indices 4 bits; a machine-code-routine address must not
    /// collide with the literal encodings of ClearScreen and Return, which
    /// take priority when decoding.
    pub open spec fn wf(self) -> bool {
        match self {
            Opcode::CallMachineCodeRoutine(a) => a < 0x1000 && a != 0x0E0 && a != 0x0EE,
            Opcode::ClearScreen => true,
            Opcode::Return => true,
            Opcode::Goto(a) => a < 0x1000,
            Opcode::CallSubroutine(a) => a < 0x1000,
            Opcode::SkipInstructionIfEqual(l, _r) => l < 16,
            Opcode::SkipInstructionIfNotEqual(l, _r) => l < 16,
            Opcode::SkipInstructionIfRegistersEqual(l, r) => l < 16 && r < 16,
            Opcode::SetRegister(l, _r) => l < 16,
            Opcode::AddToRegister(l, _r) => l < 16,
            Opcode::CopyRegisters(l, r) => l < 16 && r < 16,
            Opcode::OrRegisters(l, r) => l < 16 && r < 16,
            Opcode::AndRegisters(l, r) => l < 16 && r < 16,
            Opcode::XorRegisters(l, r) => l < 16 && r < 16,
            Opcode::AddRegisters(l, r) => l < 16 && r < 16,
            Opcode::SubtractRegisters(l, r) => l < 16 && r < 16,
            Opcode::ShiftRegisterRight(l, r) => l < 16 && r < 16,
            Opcode::SubtractRegistersReversed(l, r) => l < 16 && r < 16,
            Opcode::ShiftRegisterLeft(l, r) => l < 16 && r < 16,
            Opcode::SkipInstructionIfRegistersNotEqual(l, r) => l < 16 && r < 16,
            Opcode::SetMemoryAddress(a) => a < 0x1000,
            Opcode::JumpToMemoryAddress(a) => a < 0x1000,
            Opcode::SetRegisterRandom(l, _r) => l < 16,
            Opcode::DrawSprite(l, m, r) => l < 16 && m < 16 && r < 16,
            Opcode::SkipInstructionIfKeyDown(r) => r < 16,
            Opcode::SkipInstructionIfKeyUp(r) => r < 16,
            Opcode::StoreDelayTimerToRegister(r) => r < 16,
            Opcode::HaltAndStoreKeypressIntoRegister(r) => r < 16,
            Opcode::SetDelayTimerToRegister(r) => r < 16,
            Opcode::SetSoundTimerToRegister(r) => r < 16,
            Opcode::AddRegisterToMemoryAddress(r) => r < 16,
            Opcode::SetMemoryAddressToSpriteFromRegister(r) => r < 16,
            Opcode::SetMemoryAddressToBinaryEncodedDecimalFromRegister(r) => r < 16,
            Opcode::DumpRegistersIntoMemoryUpToRegister(r) => r < 16,
            Opcode::DumpMemoryIntoRegistersUpToRegister(r) => r < 16,
        }
    }

    /// Encodes an opcode into its two instruction bytes: the exact inverse of
    /// decoding. Pure; the fallible return type is kept for callers, but every
    /// opcode encodes successfully.
    pub fn encode(opcode: Opcode) -> (res: Result<(u8, u8), DecodeError>)
        ensures
            res == Ok::<(u8, u8), DecodeError>(spec_encode(opcode)),
    {
        let bits = match opcode {
            Opcode::CallMachineCodeRoutine(data) => data.to_bits(),
            Opcode::ClearScreen => (0x00, 0xE0),
            Opcode::Return => (0x00, 0xEE),
            Opcode::Goto(data) => (0x1000 | data).to_bits(),
            Opcode::CallSubroutine(data) => (0x2000 | data).to_bits(),
            Opcode::SkipInstructionIfEqual(l, r) => (0x30 | l, r),
            Opcode::SkipInstructionIfNotEqual(l, r) => (0x40 | l, r),
            Opcode::SkipInstructionIfRegistersEqual(l, r) => (0x50 | l, r << 4),
            Opcode::SetRegister(l, r) => (0x60 | l, r),
            Opcode::AddToRegister(l, r) => (0x70 | l, r),
            Opcode::CopyRegisters(l, r) => (0x80 | l, r << 4),
            Opcode::OrRegisters(l, r) => (0x80 | l, (r << 4) | 0x01),
            Opcode::AndRegisters(l, r) => (0x80 | l, (r << 4) | 0x02),
            Opcode::XorRegisters(l, r) => (0x80 | l, (r << 4) | 0x03),
            Opcode::AddRegisters(l, r) => (0x80 | l, (r << 4) | 0x04),
            Opcode::SubtractRegisters(l, r) => (0x80 | l, (r << 4) | 0x05),
            Opcode::ShiftRegisterRight(l, r) => (0x80 | l, (r << 4) | 0x06),
            Opcode::SubtractRegistersReversed(l, r) => (0x80 | l, (r << 4) | 0x07),
            Opcode::ShiftRegisterLeft(l, r) => (0x80 | l, (r << 4) | 0x0E),
            Opcode::SkipInstructionIfRegistersNotEqual(l, r) => (0x90 | l, r << 4),
            Opcode::SetMemoryAddress(data) => (0xA000 | data).to_bits(),
            Opcode::JumpToMemoryAddress(data) => (0xB000 | data).to_bits(),
            Opcode::SetRegisterRandom(l, r) => (0xC0 | l, r),
            Opcode::DrawSprite(l, m, r) => (0xD0 | l, (m << 4) | r),
            Opcode::SkipInstructionIfKeyDown(data) => (0xE09E | ((data as u16) << 8)).to_bits(),
            Opcode::SkipInstructionIfKeyUp(data) => (0xE0A1 | ((data as u16) << 8)).to_bits(),
            Opcode::StoreDelayTimerToRegister(data) => (0xF007 | ((data as u16) << 8)).to_bits(),
            Opcode::HaltAndStoreKeypressIntoRegister(data) => (0xF00A | ((data as u16) << 8)).to_bits(),
            Opcode::SetDelayTimerToRegister(data) => (0xF015 | ((data as u16) << 8)).to_bits(),
            Opcode::SetSoundTimerToRegister(data) => (0xF018 | ((data as u16) << 8)).to_bits(),
            Opcode::AddRegisterToMemoryAddress(data) => (0xF01E | ((data as u16) << 8)).to_bits(),
            Opcode::SetMemoryAddressToSpriteFromRegister(data) => (0xF029 | ((data as u16) << 8)).to_bits(),
            Opcode::SetMemoryAddressToBinaryEncodedDecimalFromRegister(data) => (0xF033 | ((data as u16) << 8)).to_bits(),
            Opcode::DumpRegistersIntoMemoryUpToRegister(data) => (0xF055 | ((data as u16) << 8)).to_bits(),
            Opcode::DumpMemoryIntoRegistersUpToRegister(data) => (0xF065 | ((data as u16) << 8)).to_bits(),
        };

        Ok(bits)
    }

    /// Decodes two instruction bytes, high byte first, into an opcode; any
    /// nibble combination outside the 35-entry table is an error carrying the
    /// four raw nibbles.
    pub fn decode(data: (u8, u8)) -> (res: Result<Opcode, DecodeError>)
        ensures
            res == spec_decode(data.0, data.1),
    {
        proof {
            lemma_byte_recompose(data.0);
            lemma_byte_recompose(data.1);
        }
        let bits = (data.0 >> 4, data.0 & 0xF, data.1 >> 4, data.1 & 0xF);

        Opcode::decode_bits(bits)
    }

    /// Composes the 12-bit address held in three nibbles, high nibble first.
    pub fn decode_triple_hex_bit(n0: u8, n1: u8, n2: u8) -> (res: u16)
        requires
            n0 < 16,
            n1 < 16,
            n2 < 16,
        ensures
            res == spec_triple_hex(n0, n1, n2),
    {
        proof {
            lemma_triple_hex_parts(n0, n1, n2);
        }
        ((n0 as u16) << 8) + ((n1 as u16) << 4) + (n2 as u16)
    }

    /// Decodes a four-nibble tuple against the instruction table, literal
    /// matches first, then the patterned entries, then the 0NNN catch-all.
    pub fn decode_bits(bits: (u8, u8, u8, u8)) -> (res: Result<Opcode, DecodeError>)
        requires
            bits.0 < 16,
            bits.1 < 16,
            bits.2 < 16,
            bits.3 < 16,
        ensures
            ({
                let (n0, n1, n2, n3) = bits;
                res == spec_decode((n0 << 4) | n1, (n2 << 4) | n3)
            }),
    {
        proof {
            lemma_nibbles_of_bytes(bits.0, bits.1);
            lemma_nibbles_of_bytes(bits.2, bits.3);
        }
        let opcode = match bits {
            (0x0, 0x0, 0xE, 0x0) => Opcode::ClearScreen,
            (0x0, 0x0, 0xE, 0xE) => Opcode::Return,
            (0x0, n0, n1, n2) => Opcode::CallMachineCodeRoutine(
                Opcode::decode_triple_hex_bit(n0, n1, n2),
            ),
            (0x1, n0, n1, n2) => Opcode::Goto(Opcode::decode_triple_hex_bit(n0, n1, n2)),
            (0x2, n0, n1, n2) => Opcode::CallSubroutine(Opcode::decode_triple_hex_bit(n0, n1, n2)),
            (0x3, r0, n0, n1) => Opcode::SkipInstructionIfEqual(r0, (n0 << 4) + n1),
            (0x4, r0, n0, n1) => Opcode::SkipInstructionIfNotEqual(r0, (n0 << 4) + n1),
            (0x5, r0, r1, 0) => Opcode::SkipInstructionIfRegistersEqual(r0, r1),
            (0x6, r0, n0, n1) => Opcode::SetRegister(r0, (n0 << 4) + n1),
            (0x7, r0, n0, n1) => Opcode::AddToRegister(r0, (n0 << 4) + n1),
            (0x8, r0, r1, 0) => Opcode::CopyRegisters(r0, r1),
            (0x8, r0, r1, 1) => Opcode::OrRegisters(r0, r1),
            (0x8, r0, r1, 2) => Opcode::AndRegisters(r0, r1),
            (0x8, r0, r1, 3) => Opcode::XorRegisters(r0, r1),
            (0x8, r0, r1, 4) => Opcode::AddRegisters(r0, r1),
            (0x8, r0, r1, 5) => Opcode::SubtractRegisters(r0, r1),
            (0x8, r0, r1, 6) => Opcode::ShiftRegisterRight(r0, r1),
            (0x8, r0, r1, 7) => Opcode::SubtractRegistersReversed(r0, r1),
            (0x8, r0, r1, 0xE) => Opcode::ShiftRegisterLeft(r0, r1),
            (0x9, r0, r1, 0x0) => Opcode::SkipInstructionIfRegistersNotEqual(r0, r1),
            (0xA, n0, n1, n2) => Opcode::SetMemoryAddress(
                Opcode::decode_triple_hex_bit(n0, n1, n2),
            ),
            (0xB, n0, n1, n2) => Opcode::JumpToMemoryAddress(
                Opcode::decode_triple_hex_bit(n0, n1, n2),
            ),
            (0xC, r0, n0, n1) => Opcode::SetRegisterRandom(r0, (n0 << 4) + n1),
            (0xD, r0, r1, n0) => Opcode::DrawSprite(r0, r1, n0),
            (0xE, r0, 0x9, 0xE) => Opcode::SkipInstructionIfKeyDown(r0),
            (0xE, r0, 0xA, 0x1) => Opcode::SkipInstructionIfKeyUp(r0),
            (0xF, r0, 0x0, 0x7) => Opcode::StoreDelayTimerToRegister(r0),
            (0xF, r0, 0x0, 0xA) => Opcode::HaltAndStoreKeypressIntoRegister(r0),
            (0xF, r0, 0x1, 0x5) => Opcode::SetDelayTimerToRegister(r0),
            (0xF, r0, 0x1, 0x8) => Opcode::SetSoundTimerToRegister(r0),
            (0xF, r0, 0x1, 0xE) => Opcode::AddRegisterToMemoryAddress(r0),
            (0xF, r0, 0x2, 0x9) => Opcode::SetMemoryAddressToSpriteFromRegister(r0),
            (0xF, r0, 0x3, 0x3) => Opcode::SetMemoryAddressToBinaryEncodedDecimalFromRegister(r0),
            (0xF, r0, 0x5, 0x5) => Opcode::DumpRegistersIntoMemoryUpToRegister(r0),
            (0xF, r0, 0x6, 0x5) => Opcode::DumpMemoryIntoRegistersUpToRegister(r0),
            (n0, n1, n2, n3) => {
                return Err(DecodeError::UnsupportedInstruction(n0, n1, n2, n3));
            },
        };

        Ok(opcode)
    }
}

/// What decoding a whole even-length byte stream yields: the opcodes of each
/// 2-byte pair in order, or the first pair's decode error.
pub open spec fn spec_decode_pairs(bytes: Seq<u8>) -> Result<Seq<Opcode>, DecodeError>
    recommends
        bytes.len() % 2 == 0,
    decreases bytes.len(),
{
    if bytes.len() < 2 {
        Ok(Seq::empty())
    } else {
        match spec_decode(bytes[0], bytes[1]) {
            Err(e) => Err(e),
            Ok(op) => match spec_decode_pairs(bytes.skip(2)) {
                Err(e) => Err(e),
                Ok(rest) => Ok(seq![op] + rest),
            },
        }
    }
}

/// What decoding a whole ROM yields: an odd byte count is malformed input,
/// reported with the byte offset of the trailing half instruction; otherwise
/// the stream decodes pair by pair.
pub open spec fn spec_decode_all(bytes: Seq<u8>) -> Result<Seq<Opcode>, DecodeError> {
    if bytes.len() % 2 != 0 {
        Err(DecodeError::IncompleteInstruction((bytes.len() - 1) as usize))
    } else {
        spec_decode_pairs(bytes)
    }
}

impl Opcode {
    /// Decodes a whole ROM byte stream, consuming 2 bytes per instruction. An
    /// odd byte count fails with the offset of the trailing half instruction;
    /// an unsupported pair fails with its raw nibbles.
    pub fn decode_all(bytes: &Vec<u8>) -> (res: Result<Vec<Opcode>, DecodeError>)
        ensures
            res matches Ok(ops) ==> spec_decode_all(bytes@) == Ok::<Seq<Opcode>, DecodeError>(
                ops@,
            ),
            res matches Err(e) ==> spec_decode_all(bytes@) == Err::<Seq<Opcode>, DecodeError>(e),
    {
        if bytes.len() % 2 != 0 {
            return Err(DecodeError::IncompleteInstruction(bytes.len() - 1));
        }
        let mut opcodes: Vec<Opcode> = Vec::new();
        let mut i: usize = 0;
        proof {
            assert(bytes@.skip(0) =~= bytes@);
            match spec_decode_pairs(bytes@) {
                Ok(rest) => {
                    assert(Seq::<Opcode>::empty() + rest =~= rest);
                },
                Err(_) => {},
            }
        }
        while i < bytes.len()
            invariant
                i % 2 == 0,
                i <= bytes@.len(),
                bytes@.len() % 2 == 0,
                spec_decode_pairs(bytes@) == match spec_decode_pairs(bytes@.skip(i as int)) {
                    Ok(rest) => Ok::<Seq<Opcode>, DecodeError>(opcodes@ + rest),
                    Err(e) => Err::<Seq<Opcode>, DecodeError>(e),
                },
            decreases bytes@.len() - i,
        {
            let ghost tail = bytes@.skip(i as int);
            proof {
                assert(tail.skip(2) =~= bytes@.skip(i + 2));
                assert(tail[0] == bytes@[i as int] && tail[1] == bytes@[i as int + 1]);
            }
            let ghost prev = opcodes@;
            match Opcode::decode((bytes[i], bytes[i + 1])) {
                Ok(op) => {
                    opcodes.push(op);
                    proof {
                        match spec_decode_pairs(bytes@.skip(i + 2)) {
                            Ok(rest) => {
                                assert(opcodes@ + rest =~= prev + (seq![op] + rest));
                            },
                            Err(_) => {},
                        }
                    }
                    i = i + 2;
                },
                Err(e) => {
                    return Err(e);
                },
            }
        }
        proof {
            assert(bytes@.skip(bytes@.len() as int) =~= Seq::<u8>::empty());
            assert(opcodes@ + Seq::<Opcode>::empty() =~= opcodes@);
        }
        Ok(opcodes)
    }
}

/// The byte stream a sequence of opcodes encodes to: two bytes per opcode, in
/// order.
pub open spec fn spec_opcodes_bytes(ops: Seq<Opcode>) -> Seq<u8>
    decreases ops.len(),
{
    if ops.len() == 0 {
        Seq::empty()
    } else {
        spec_opcodes_bytes(ops.drop_last()) + seq![
            spec_encode(ops.last()).0,
            spec_encode(ops.last()).1,
        ]
    }
}

/// An instruction list encodes to exactly two bytes per opcode.
pub proof fn lemma_opcodes_bytes_len(ops: Seq<Opcode>)
    ensures
        spec_opcodes_bytes(ops).len() == 2 * ops.len(),
    decreases ops.len(),
{
    if ops.len() > 0 {
        lemma_opcodes_bytes_len(ops.drop_last());
    }
}

/// Appending one opcode appends exactly its two encoded bytes.
pub proof fn lemma_opcodes_bytes_push(ops: Seq<Opcode>, op: Opcode)
    ensures
        spec_opcodes_bytes(ops.push(op)) == spec_opcodes_bytes(ops) + seq![
            spec_encode(op).0,
            spec_encode(op).1,
        ],
{
    assert(ops.push(op).drop_last() =~= ops);
}

/// Serialisation of a whole instruction list into the flat byte stream of a
/// ROM image, each instruction contributing its two encoded bytes in order.
pub trait ToBits {
    /// The byte stream this value serialises to.
    spec fn spec_to_bits(&self) -> Seq<u8>;

    /// Serialises this value into its flat byte stream.
    fn to_bits(self) -> (res: Vec<u8>)
        ensures
            res@ == self.spec_to_bits(),
    ;
}

impl ToBits for Vec<Opcode> {
    open spec fn spec_to_bits(&self) -> Seq<u8> {
        spec_opcodes_bytes(self@)
    }

    fn to_bits(self) -> (res: Vec<u8>) {
        let mut bits: Vec<u8> = Vec::new();

        let mut i: usize = 0;
        while i < self.len()
            invariant
                i <= self@.len(),
                bits@ == spec_opcodes_bytes(self@.take(i as int)),
            decreases self@.len() - i,
        {
            let (l, r) = Opcode::encode(self[i]).unwrap();
            bits.push(l);
            bits.push(r);
            proof {
                lemma_opcodes_bytes_push(self@.take(i as int), self@[i as int]);
                assert(self@.take(i as int).push(self@[i as int]) =~= self@.take(i + 1));
            }
            i = i + 1;
        }
        proof {
            assert(self@.take(self@.len() as int) =~= self@);
        }

        bits
    }
}

/// Splitting a 16-bit word into its two bytes, high byte first.
pub trait ToBitsTuple {
    /// The two bytes this value splits into.
    spec fn spec_to_bits(&self) -> (u8, u8);

    /// Splits this value into its two bytes, high byte first.
    fn to_bits(&self) -> (res: (u8, u8))
        ensures
            res == self.spec_to_bits(),
    ;
}

impl ToBitsTuple for u16 {
    open spec fn spec_to_bits(&self) -> (u8, u8) {
        spec_u16_bytes(*self)
    }

    fn to_bits(&self) -> (res: (u8, u8)) {
        ((*self >> 8) as u8, (*self & 0xFF) as u8)
    }
}

/// A byte splits into its high and low nibbles, each below 16, and recomposing
/// them gives the byte back.
proof fn lemma_byte_recompose(b: u8)
    ensures
        b >> 4 < 16,
        b & 0xF < 16,
        ((b >> 4) << 4) | (b & 0xF) == b,
{
    assert(b >> 4 < 16 && b & 0xF < 16 && ((b >> 4) << 4) | (b & 0xF) == b) by (bit_vector);
}

/// Rebuilding a byte from its two nibbles, and taking the nibbles of a byte so
/// built, are mutually inverse.
proof fn lemma_nibbles_of_bytes(hi: u8, lo: u8)
    requires
        hi < 16,
        lo < 16,
    ensures
        ((hi << 4) | lo) >> 4 == hi,
        ((hi << 4) | lo) & 0xF == lo,
        (hi << 4) | lo == (hi << 4) + lo,
{
    assert(hi < 16 && lo < 16 ==> ((hi << 4) | lo) >> 4 == hi && ((hi << 4) | lo) & 0xF == lo && (
    (hi << 4) | lo) == (hi << 4) + lo) by (bit_vector);
}

/// Composing a 12-bit address from three nibbles by shifted addition equals
/// the bitwise composition, the result is below 0x1000, and the composition
/// hits the two reserved literal encodings only on their own nibbles.
proof fn lemma_triple_hex_parts(n0: u8, n1: u8, n2: u8)
    requires
        n0 < 16,
        n1 < 16,
        n2 < 16,
    ensures
        spec_triple_hex(n0, n1, n2) == ((n0 as u16) << 8) + ((n1 as u16) << 4) + (n2 as u16),
        spec_triple_hex(n0, n1, n2) < 0x1000,
        spec_triple_hex(n0, n1, n2) == 0x0E0 <==> (n0 == 0 && n1 == 0xE && n2 == 0),
        spec_triple_hex(n0, n1, n2) == 0x0EE <==> (n0 == 0 && n1 == 0xE && n2 == 0xE),
{
    assert(n0 < 16 && n1 < 16 && n2 < 16 ==> ((n0 as u16) << 8) | ((n1 as u16) << 4) | (n2 as u16)
        == ((n0 as u16) << 8) + ((n1 as u16) << 4) + (n2 as u16) && (((n0 as u16) << 8) | ((
    n1 as u16) << 4) | (n2 as u16)) < 0x1000 && ((((n0 as u16) << 8) | ((n1 as u16) << 4) | (
    n2 as u16)) == 0x0E0 <==> (n0 == 0 && n1 == 0xE && n2 == 0)) && ((((n0 as u16) << 8) | ((
    n1 as u16) << 4) | (n2 as u16)) == 0x0EE <==> (n0 == 0 && n1 == 0xE && n2 == 0xE)))
        by (bit_vector);
}

/// The two bytes of a tagged 12-bit address recompose to the tag nibble and
/// the address: the decoding direction for the 1NNN, 2NNN, ANNN and BNNN
/// shapes.
proof fn lemma_addr_bytes(tn: u8, t: u16, a: u16)
    requires
        tn < 16,
        t == tn * 0x1000,
        a < 0x1000,
    ensures
        spec_u16_bytes(t | a).0 >> 4 == tn,
        spec_triple_hex(
            spec_u16_bytes(t | a).0 & 0xF,
            spec_u16_bytes(t | a).1 >> 4,
            spec_u16_bytes(t | a).1 & 0xF,
        ) == a,
{
    assert(tn < 16 && t == tn * 0x1000 && a < 0x1000 ==> ((((t | a) >> 8) as u8) >> 4 == tn && ((((
    (t | a) >> 8) as u8) & 0xF) as u16) << 8 | (((((t | a) & 0xFF) as u8) >> 4) as u16) << 4 | ((((
    t | a) & 0xFF) as u8) & 0xF) as u16 == a)) by (bit_vector);
}

/// The two bytes of a bare 12-bit address recompose to a zero tag nibble and
/// the address: the decoding direction for the 0NNN shape.
proof fn lemma_bare_addr_bytes(a: u16)
    requires
        a < 0x1000,
    ensures
        spec_u16_bytes(a).0 >> 4 == 0,
        spec_triple_hex(
            spec_u16_bytes(a).0 & 0xF,
            spec_u16_bytes(a).1 >> 4,
            spec_u16_bytes(a).1 & 0xF,
        ) == a,
{
    assert(a < 0x1000 ==> ((a >> 8) as u8) >> 4 == 0 && ((((a >> 8) as u8) & 0xF) as u16) << 8 | ((
    ((a & 0xFF) as u8) >> 4) as u16) << 4 | (((a & 0xFF) as u8) & 0xF) as u16 == a)
        by (bit_vector);
}

/// A high byte built from a tag nibble and a register index splits back into
/// them, and an immediate byte recomposes from its own nibbles: the decoding
/// direction for the 3XNN through 7XNN and CXNN shapes.
proof fn lemma_reg_imm_bytes(kn: u8, k: u8, l: u8, r: u8)
    requires
        kn < 16,
        k == kn * 16,
        l < 16,
    ensures
        (k | l) >> 4 == kn,
        (k | l) & 0xF == l,
        spec_imm(r >> 4, r & 0xF) == r,
{
    assert(kn < 16 && k == kn * 16 && l < 16 ==> (k | l) >> 4 == kn && (k | l) & 0xF == l && ((r
        >> 4) << 4) | (r & 0xF) == r) by (bit_vector);
}

/// A low byte built from a register index and an opcode-group nibble splits
/// back into them: the decoding direction for the 5XY0, 8XY_, 9XY0 and DXYN
/// shapes.
proof fn lemma_two_reg_bytes(r: u8, low: u8)
    requires
        r < 16,
        low < 16,
    ensures
        ((r << 4) | low) >> 4 == r,
        ((r << 4) | low) & 0xF == low,
        (r << 4) >> 4 == r,
        (r << 4) & 0xF == 0,
{
    assert(r < 16 && low < 16 ==> ((r << 4) | low) >> 4 == r && ((r << 4) | low) & 0xF == low && (r
        << 4) >> 4 == r && (r << 4) & 0xF == 0) by (bit_vector);
}

/// The two bytes of an EX__ or FX__ instruction word split back into the
/// group nibble, the register index and the two selector nibbles.
proof fn lemma_ext_bytes(t: u16, hn: u8, n2: u8, n3: u8, r: u8)
    requires
        hn < 16,
        n2 < 16,
        n3 < 16,
        r < 16,
        t == hn * 0x1000 + n2 * 16 + n3,
    ensures
        spec_u16_bytes(t | ((r as u16) << 8)).0 >> 4 == hn,
        spec_u16_bytes(t | ((r as u16) << 8)).0 & 0xF == r,
        spec_u16_bytes(t | ((r as u16) << 8)).1 >> 4 == n2,
        spec_u16_bytes(t | ((r as u16) << 8)).1 & 0xF == n3,
{
    assert(hn < 16 && n2 < 16 && n3 < 16 && r < 16 && t == hn * 0x1000 + n2 * 16 + n3 ==> (((t | ((
    r as u16) << 8)) >> 8) as u8) >> 4 == hn && (((t | ((r as u16) << 8)) >> 8) as u8) & 0xF == r
        && (((t | ((r as u16) << 8)) & 0xFF) as u8) >> 4 == n2 && (((t | ((r as u16) << 8))
        & 0xFF) as u8) & 0xF == n3) by (bit_vector);
}

/// The nibbles of the two literal instruction words 00E0 and 00EE.
proof fn lemma_literal_nibbles()
    ensures
        0x00u8 >> 4 == 0,
        0x00u8 & 0xF == 0,
        0xE0u8 >> 4 == 0xE,
        0xE0u8 & 0xF == 0,
        0xEEu8 >> 4 == 0xE,
        0xEEu8 & 0xF == 0xE,
{
    assert(0x00u8 >> 4 == 0 && 0x00u8 & 0xF == 0 && 0xE0u8 >> 4 == 0xE && 0xE0u8 & 0xF == 0
        && 0xEEu8 >> 4 == 0xE && 0xEEu8 & 0xF == 0xE) by (bit_vector);
}

/// Round-trip law: decoding the two bytes that a representable opcode encodes
/// to yields that opcode back.
pub proof fn lemma_encode_decode_round_trip(opcode: Opcode)
    requires
        opcode.wf(),
    ensures
        spec_decode(spec_encode(opcode).0, spec_encode(opcode).1) == Ok::<
            Opcode,
            DecodeError,
        >(opcode),
{
    lemma_literal_nibbles();
    match opcode {
        Opcode::CallMachineCodeRoutine(a) => {
            lemma_bare_addr_bytes(a);
            let b = spec_encode(opcode);
            lemma_byte_recompose(b.0);
            lemma_byte_recompose(b.1);
            lemma_triple_hex_parts(b.0 & 0xF, b.1 >> 4, b.1 & 0xF);
        },
        Opcode::ClearScreen => {},
        Opcode::Return => {},
        Opcode::Goto(a) => {
            lemma_addr_bytes(0x1, 0x1000, a);
        },
        Opcode::CallSubroutine(a) => {
            lemma_addr_bytes(0x2, 0x2000, a);
        },
        Opcode::SkipInstructionIfEqual(l, r) => {
            lemma_reg_imm_bytes(0x3, 0x30, l, r);
        },
        Opcode::SkipInstructionIfNotEqual(l, r) => {
            lemma_reg_imm_bytes(0x4, 0x40, l, r);
        },
        Opcode::SkipInstructionIfRegistersEqual(l, r) => {
            lemma_reg_imm_bytes(0x5, 0x50, l, 0);
            lemma_two_reg_bytes(r, 0);
        },
        Opcode::SetRegister(l, r) => {
            lemma_reg_imm_bytes(0x6, 0x60, l, r);
        },
        Opcode::AddToRegister(l, r) => {
            lemma_reg_imm_bytes(0x7, 0x70, l, r);
        },
        Opcode::CopyRegisters(l, r) => {
            lemma_reg_imm_bytes(0x8, 0x80, l, 0);
            lemma_two_reg_bytes(r, 0x0);
        },
        Opcode::OrRegisters(l, r) => {
            lemma_reg_imm_bytes(0x8, 0x80, l, 0);
            lemma_two_reg_bytes(r, 0x1);
        },
        Opcode::AndRegisters(l, r) => {
            lemma_reg_imm_bytes(0x8, 0x80, l, 0);
            lemma_two_reg_bytes(r, 0x2);
        },
        Opcode::XorRegisters(l, r) => {
            lemma_reg_imm_bytes(0x8, 0x80, l, 0);
            lemma_two_reg_bytes(r, 0x3);
        },
        Opcode::AddRegisters(l, r) => {
            lemma_reg_imm_bytes(0x8, 0x80, l, 0);
            lemma_two_reg_bytes(r, 0x4);
        },
        Opcode::SubtractRegisters(l, r) => {
            lemma_reg_imm_bytes(0x8, 0x80, l, 0);
            lemma_two_reg_bytes(r, 0x5);
        },
        Opcode::ShiftRegisterRight(l, r) => {
            lemma_reg_imm_bytes(0x8, 0x80, l, 0);
            lemma_two_reg_bytes(r, 0x6);
        },
        Opcode::SubtractRegistersReversed(l, r) => {
            lemma_reg_imm_bytes(0x8, 0x80, l, 0);
            lemma_two_reg_bytes(r, 0x7);
        },
        Opcode::ShiftRegisterLeft(l, r) => {
            lemma_reg_imm_bytes(0x8, 0x80, l, 0);
            lemma_two_reg_bytes(r, 0xE);
        },
        Opcode::SkipInstructionIfRegistersNotEqual(l, r) => {
            lemma_reg_imm_bytes(0x9, 0x90, l, 0);
            lemma_two_reg_bytes(r, 0);
        },
        Opcode::SetMemoryAddress(a) => {
            lemma_addr_bytes(0xA, 0xA000, a);
        },
        Opcode::JumpToMemoryAddress(a) => {
            lemma_addr_bytes(0xB, 0xB000, a);
        },
        Opcode::SetRegisterRandom(l, r) => {
            lemma_reg_imm_bytes(0xC, 0xC0, l, r);
        },
        Opcode::DrawSprite(l, m, r) => {
            lemma_reg_imm_bytes(0xD, 0xD0, l, 0);
            lemma_two_reg_bytes(m, r);
        },
        Opcode::SkipInstructionIfKeyDown(r) => {
            lemma_ext_bytes(0xE09E, 0xE, 0x9, 0xE, r);
        },
        Opcode::SkipInstructionIfKeyUp(r) => {
            lemma_ext_bytes(0xE0A1, 0xE, 0xA, 0x1, r);
        },
        Opcode::StoreDelayTimerToRegister(r) => {
            lemma_ext_bytes(0xF007, 0xF, 0x0, 0x7, r);
        },
        Opcode::HaltAndStoreKeypressIntoRegister(r) => {
            lemma_ext_bytes(0xF00A, 0xF, 0x0, 0xA, r);
        },
        Opcode::SetDelayTimerToRegister(r) => {
            lemma_ext_bytes(0xF015, 0xF, 0x1, 0x5, r);
        },
        Opcode::SetSoundTimerToRegister(r) => {
            lemma_ext_bytes(0xF018, 0xF, 0x1, 0x8, r);
        },
        Opcode::AddRegisterToMemoryAddress(r) => {
            lemma_ext_bytes(0xF01E, 0xF, 0x1, 0xE, r);
        },
        Opcode::SetMemoryAddressToSpriteFromRegister(r) => {
            lemma_ext_bytes(0xF029, 0xF, 0x2, 0x9, r);
        },
        Opcode::SetMemoryAddressToBinaryEncodedDecimalFromRegister(r) => {
            lemma_ext_bytes(0xF033, 0xF, 0x3, 0x3, r);
        },
        Opcode::DumpRegistersIntoMemoryUpToRegister(r) => {
            lemma_ext_bytes(0xF055, 0xF, 0x5, 0x5, r);
        },
        Opcode::DumpMemoryIntoRegistersUpToRegister(r) => {
            lemma_ext_bytes(0xF065, 0xF, 0x6, 0x5, r);
        },
    }
}

/// Every opcode that decoding produces is representable: its operand fields
/// are within their ranges.
pub proof fn lemma_decode_wf(b0: u8, b1: u8)
    ensures
        spec_decode(b0, b1) matches Ok(op) ==> op.wf(),
{
    lemma_byte_recompose(b0);
    lemma_byte_recompose(b1);
    lemma_triple_hex_parts(b0 & 0xF, b1 >> 4, b1 & 0xF);
}

} // verus!
