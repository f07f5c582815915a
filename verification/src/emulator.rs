//! The interpreter: the machine state (memory, registers, stack, timers,
//! input, framebuffer) and the fetch-decode-execute cycle that mutates it one
//! instruction per step.

use vstd::prelude::*;

use crate::opcode::DecodeError;
use crate::opcode::Opcode;
use crate::opcode::ToBits;
use crate::opcode::spec_decode;
use crate::opcode::spec_opcodes_bytes;

verus! {

pub const DISPLAY_WIDTH: usize = 64;

pub const DISPLAY_HEIGHT: usize = 32;

pub const DISPLAY_PIXELS: usize = 2048;

pub const MEMORY_SIZE: usize = 4096;

pub const REGISTER_COUNT: usize = 16;

pub const INPUT_KEYS: usize = 16;

/// The canonical CHIP-8 call stack: 16 word-sized return addresses.
pub const STACK_SIZE: usize = 16;

/// Where the font glyph bitmaps start in the reserved low-memory region.
pub const FONT_DATA_ADDRESS: usize = 0x20;

/// 16 glyphs of 5 bytes each.
pub const FONT_DATA_BYTES: usize = 80;

/// The standard program origin: loaded ROMs start here and the program
/// counter is reset here.
pub const PROGRAM_ORIGIN: usize = 0x200;

/// What one successful step reports. A correctly authored ROM runs forever in
/// its own loop, so there is no terminal status for well-formed input: the
/// only exits are a driver-initiated stop and an execution error.
#[derive(Debug, PartialEq, Eq, Structural)]
pub enum EmulatorStatus {
    Working,
    Done,
}

/// A fatal execution error: the interpreter has no recovery path
/// mid-instruction-stream.
#[derive(Debug, PartialEq, Eq, Structural, Clone, Copy)]
pub enum ExecError {
    /// A subroutine call found all 16 stack slots occupied.
    StackOverflow,
    /// A return was executed with an empty stack.
    StackUnderflow,
    /// A fetch, sprite read or bulk transfer would touch an address at or
    /// beyond the 4096-byte boundary.
    MemoryOutOfBounds,
    /// The fetched bytes decode to no supported instruction, or to one the
    /// interpreter cannot execute; the payload is the four raw nibbles.
    UnsupportedOpcode(u8, u8, u8, u8),
}

/// A failure to load a ROM image. An unreadable source is reported by the
/// external file-loading collaborator; the core itself only rejects oversized
/// images.
#[derive(Debug, PartialEq, Eq, Structural, Clone, Copy)]
pub enum LoadError {
    /// The image exceeds the space between the program origin and the end of
    /// memory.
    RomTooLarge,
    /// The byte source could not be read; raised by the loading collaborator.
    UnreadableSource,
}

/// The mathematical value of the machine: every field of the interpreter as
/// a plain sequence or scalar. The return stack holds only its occupied
/// slots; the display is the 64x32 pixel grid in row-major order; `waiting`
/// carries the target register of a pending blocking key-wait; `ticks` counts
/// the 60 Hz timer periods already applied from the externally supplied
/// millisecond clock.
pub ghost struct State {
    pub mem: Seq<u8>,
    pub regs: Seq<u8>,
    pub index: u16,
    pub pc: u16,
    pub ret_stack: Seq<u16>,
    pub delay: u8,
    pub sound: u8,
    pub input: Seq<u8>,
    pub display: Seq<u8>,
    pub waiting: Option<u8>,
    pub ticks: int,
}

impl State {
    /// Every sequence has its fixed machine size, the stack is within its 16
    /// slots, and a pending key-wait targets a real register.
    pub open spec fn wf(self) -> bool {
        &&& self.mem.len() == MEMORY_SIZE
        &&& self.regs.len() == REGISTER_COUNT
        &&& self.input.len() == INPUT_KEYS
        &&& self.display.len() == DISPLAY_PIXELS
        &&& self.ret_stack.len() <= STACK_SIZE
        &&& match self.waiting {
            Some(r) => r < 16,
            None => true,
        }
    }
}

/// The CHIP-8 machine: 4096 bytes of memory, 16 8-bit registers, the 16-bit
/// index register I, a 16-level return stack, two 8-bit timers, a 16-key
/// input vector and a 64x32 monochrome framebuffer stored row-major.
#[derive(Debug)]
pub struct Emulator {
    display: [u8; DISPLAY_PIXELS],
    memory: [u8; MEMORY_SIZE],
    registers: [u8; REGISTER_COUNT],
    address: u16,
    delay_timer: u8,
    sound_timer: u8,
    input: [u8; INPUT_KEYS],
    stack: [u16; STACK_SIZE],
    sp: usize,
    pc: u16,
    awaiting_keypress: bool,
    keypress_register: u8,
    ticks_done: u64,
}

impl View for Emulator {
    type V = State;

    closed spec fn view(&self) -> State {
        State {
            mem: self.memory@,
            regs: self.registers@,
            index: self.address,
            pc: self.pc,
            ret_stack: self.stack@.take(self.sp as int),
            delay: self.delay_timer,
            sound: self.sound_timer,
            input: self.input@,
            display: self.display@,
            waiting: if self.awaiting_keypress {
                Some(self.keypress_register)
            } else {
                None
            },
            ticks: self.ticks_done as int,
        }
    }
}

/// The font glyph bitmaps: 16 glyphs of 5 bytes, one per hex digit.
pub open spec fn spec_font() -> Seq<u8> {
    seq![
        0xF0u8, 0x90, 0x90, 0x90, 0xF0, 0x20, 0x60, 0x20, 0x20, 0x70, 0xF0, 0x10, 0xF0, 0x80, 0xF0,
        0xF0, 0x10, 0xF0, 0x10, 0xF0, 0x90, 0x90, 0xF0, 0x10, 0x10, 0xF0, 0x80, 0xF0, 0x10, 0xF0,
        0xF0, 0x80, 0xF0, 0x90, 0xF0, 0xF0, 0x10, 0x20, 0x40, 0x40, 0xF0, 0x90, 0xF0, 0x90, 0xF0,
        0xF0, 0x90, 0xF0, 0x10, 0xF0, 0xF0, 0x90, 0xF0, 0x90, 0x90, 0xE0, 0x90, 0xE0, 0x90, 0xE0,
        0xF0, 0x80, 0x80, 0x80, 0xF0, 0xE0, 0x90, 0x90, 0x90, 0xE0, 0xF0, 0x80, 0xF0, 0x80, 0xF0,
        0xF0, 0x80, 0xF0, 0x80, 0x80,
    ]
}

/// Memory at power-on: all zero but for the font glyphs in their reserved
/// region.
pub open spec fn spec_initial_memory() -> Seq<u8> {
    Seq::new(
        MEMORY_SIZE as nat,
        |i: int|
            if FONT_DATA_ADDRESS <= i < FONT_DATA_ADDRESS + FONT_DATA_BYTES {
                spec_font()[i - FONT_DATA_ADDRESS]
            } else {
                0u8
            },
    )
}

/// The given memory with the first `n` font bytes overlaid at the font
/// region.
pub open spec fn spec_font_overlay(base: Seq<u8>, n: int) -> Seq<u8> {
    Seq::new(
        MEMORY_SIZE as nat,
        |j: int|
            if FONT_DATA_ADDRESS <= j < FONT_DATA_ADDRESS + n {
                spec_font()[j - FONT_DATA_ADDRESS]
            } else {
                base[j]
            },
    )
}

/// A 64x32 grid of rows flattened into the row-major pixel sequence, for the
/// first `n` pixels; the rest comes from `base`.
pub open spec fn spec_grid_overlay(
    base: Seq<u8>,
    grid: [[u8; DISPLAY_WIDTH]; DISPLAY_HEIGHT],
    n: int,
) -> Seq<u8> {
    Seq::new(
        DISPLAY_PIXELS as nat,
        |p: int|
            if p < n {
                grid@[p / DISPLAY_WIDTH as int]@[p % DISPLAY_WIDTH as int]
            } else {
                base[p]
            },
    )
}

/// A 64x32 grid of rows flattened into the row-major pixel sequence.
pub open spec fn spec_grid(grid: [[u8; DISPLAY_WIDTH]; DISPLAY_HEIGHT]) -> Seq<u8> {
    Seq::new(
        DISPLAY_PIXELS as nat,
        |p: int| grid@[p / DISPLAY_WIDTH as int]@[p % DISPLAY_WIDTH as int],
    )
}

/// The machine at power-on: font installed, everything else zero, program
/// counter at the program origin.
pub open spec fn spec_initial_state() -> State {
    State {
        mem: spec_initial_memory(),
        regs: Seq::new(REGISTER_COUNT as nat, |i: int| 0u8),
        index: 0,
        pc: PROGRAM_ORIGIN as u16,
        ret_stack: Seq::empty(),
        delay: 0,
        sound: 0,
        input: Seq::new(INPUT_KEYS as nat, |i: int| 0u8),
        display: Seq::new(DISPLAY_PIXELS as nat, |i: int| 0u8),
        waiting: None,
        ticks: 0,
    }
}

/// An all-clear framebuffer.
pub open spec fn spec_zero_display() -> Seq<u8> {
    Seq::new(DISPLAY_PIXELS as nat, |i: int| 0u8)
}

/// The given memory with a ROM image overlaid verbatim at the program origin.
pub open spec fn spec_loaded_memory(mem: Seq<u8>, rom: Seq<u8>) -> Seq<u8> {
    Seq::new(
        MEMORY_SIZE as nat,
        |i: int|
            if PROGRAM_ORIGIN <= i < PROGRAM_ORIGIN + rom.len() {
                rom[i - PROGRAM_ORIGIN]
            } else {
                mem[i]
            },
    )
}

/// The given memory with the first `n` bytes of a ROM image overlaid at the
/// program origin.
pub open spec fn spec_loaded_memory_upto(mem: Seq<u8>, rom: Seq<u8>, n: int) -> Seq<u8> {
    Seq::new(
        MEMORY_SIZE as nat,
        |i: int|
            if PROGRAM_ORIGIN <= i < PROGRAM_ORIGIN + n {
                rom[i - PROGRAM_ORIGIN]
            } else {
                mem[i]
            },
    )
}

/// The given memory with the first `n` of the registers V0.. stored at
/// `index` onward: the bulk register-to-memory transfer.
pub open spec fn spec_regs_into_mem(mem: Seq<u8>, regs: Seq<u8>, index: int, n: int) -> Seq<u8> {
    Seq::new(
        MEMORY_SIZE as nat,
        |i: int|
            if index <= i < index + n {
                regs[i - index]
            } else {
                mem[i]
            },
    )
}

/// The given registers with the first `n` filled from memory at `index`
/// onward: the bulk memory-to-register transfer.
pub open spec fn spec_mem_into_regs(regs: Seq<u8>, mem: Seq<u8>, index: int, n: int) -> Seq<u8> {
    Seq::new(
        REGISTER_COUNT as nat,
        |r: int|
            if r < n {
                mem[index + r]
            } else {
                regs[r]
            },
    )
}

/// Bit `dx` (left to right) of sprite row `dy`, read from memory at
/// `index + dy`.
pub open spec fn spec_sprite_bit(mem: Seq<u8>, index: int, dy: int, dx: int) -> u8 {
    (mem[index + dy] >> ((7 - dx) as u8)) & 1
}

/// The framebuffer after XOR-blitting the first `n` of the `h * 8` sprite
/// cells, rows read from memory at `index` onward, the top-left corner at the
/// wrapped coordinates (x0, y0); cell `k` covers row `k / 8`, column `k % 8`,
/// and both coordinates wrap at the display edges.
pub open spec fn spec_draw_pixels(
    disp: Seq<u8>,
    mem: Seq<u8>,
    index: int,
    x0: int,
    y0: int,
    h: int,
    n: int,
) -> Seq<u8> {
    Seq::new(
        DISPLAY_PIXELS as nat,
        |p: int|
            {
                let y = p / DISPLAY_WIDTH as int;
                let x = p % DISPLAY_WIDTH as int;
                let dy = (y - y0 + DISPLAY_HEIGHT) % DISPLAY_HEIGHT as int;
                let dx = (x - x0 + DISPLAY_WIDTH) % DISPLAY_WIDTH as int;
                if dy < h && dx < 8 && dy * 8 + dx < n {
                    disp[p] ^ spec_sprite_bit(mem, index, dy, dx)
                } else {
                    disp[p]
                }
            },
    )
}

/// Whether any of the first `n` sprite cells carries a set bit onto an
/// already-set pixel: the collision the draw instruction reports in VF.
pub open spec fn spec_draw_collision(
    disp: Seq<u8>,
    mem: Seq<u8>,
    index: int,
    x0: int,
    y0: int,
    h: int,
    n: int,
) -> bool {
    exists|k: int|
        0 <= k < n && #[trigger] spec_sprite_bit(mem, index, k / 8, k % 8) == 1 && disp[((y0 + k
            / 8) % (DISPLAY_HEIGHT as int)) * (DISPLAY_WIDTH as int) + (x0 + k % 8) % (
        DISPLAY_WIDTH as int)] == 1
}

/// The state after a conditional skip: the program counter moves one more
/// instruction width when the condition holds.
pub open spec fn spec_skip(s: State, cond: bool) -> State {
    if cond {
        State { pc: (s.pc + 2) as u16, ..s }
    } else {
        s
    }
}

/// The error reported for a machine-code-routine instruction, which this
/// interpreter recognises but cannot execute: its four raw nibbles.
pub open spec fn spec_mcr_error(a: u16) -> ExecError {
    ExecError::UnsupportedOpcode(
        0,
        ((a >> 8) & 0xF) as u8,
        ((a >> 4) & 0xF) as u8,
        (a & 0xF) as u8,
    )
}

/// The lowest pressed key at or after slot `i`, if any.
pub open spec fn spec_first_pressed(input: Seq<u8>, i: int) -> Option<u8>
    decreases INPUT_KEYS as int - i when i <= INPUT_KEYS as int
{
    if i >= INPUT_KEYS as int {
        None
    } else if input[i] != 0 {
        Some(i as u8)
    } else {
        spec_first_pressed(input, i + 1)
    }
}

/// One step taken in the blocking key-wait state: if some key is pressed, the
/// lowest pressed key index lands in the waiting register and normal
/// execution resumes; otherwise nothing changes.
pub open spec fn spec_key_wait(s: State) -> State
    recommends
        s.waiting is Some,
{
    match s.waiting {
        None => s,
        Some(reg) => match spec_first_pressed(s.input, 0) {
            None => s,
            Some(k) => State {
                regs: s.regs.update(reg as int, k),
                waiting: None,
                ..s
            },
        },
    }
}

/// The semantic effect of one decoded instruction on the machine state `s`,
/// in which the program counter has already advanced past the instruction.
/// `rnd` is the random byte consumed by the random-register instruction and
/// ignored by every other. An error leaves the state unchanged.
pub open spec fn spec_step(s: State, op: Opcode, rnd: u8) -> Result<State, ExecError>
    recommends
        s.wf(),
        op.wf(),
{
    match op {
        Opcode::CallMachineCodeRoutine(a) => Err(spec_mcr_error(a)),
        Opcode::ClearScreen => Ok(State { display: spec_zero_display(), ..s }),
        Opcode::Return => {
            if s.ret_stack.len() == 0 {
                Err(ExecError::StackUnderflow)
            } else {
                Ok(State { pc: s.ret_stack.last(), ret_stack: s.ret_stack.drop_last(), ..s })
            }
        },
        Opcode::Goto(a) => Ok(State { pc: a, ..s }),
        Opcode::CallSubroutine(a) => {
            if s.ret_stack.len() >= STACK_SIZE {
                Err(ExecError::StackOverflow)
            } else {
                Ok(State { pc: a, ret_stack: s.ret_stack.push(s.pc), ..s })
            }
        },
        Opcode::SkipInstructionIfEqual(r, imm) => Ok(spec_skip(s, s.regs[r as int] == imm)),
        Opcode::SkipInstructionIfNotEqual(r, imm) => Ok(spec_skip(s, s.regs[r as int] != imm)),
        Opcode::SkipInstructionIfRegistersEqual(r0, r1) => Ok(
            spec_skip(s, s.regs[r0 as int] == s.regs[r1 as int]),
        ),
        Opcode::SetRegister(r, imm) => Ok(State { regs: s.regs.update(r as int, imm), ..s }),
        Opcode::AddToRegister(r, imm) => Ok(
            State {
                regs: s.regs.update(r as int, ((s.regs[r as int] + imm) % 256) as u8),
                ..s
            },
        ),
        Opcode::CopyRegisters(r0, r1) => Ok(
            State { regs: s.regs.update(r0 as int, s.regs[r1 as int]), ..s },
        ),
        Opcode::OrRegisters(r0, r1) => Ok(
            State { regs: s.regs.update(r0 as int, s.regs[r0 as int] | s.regs[r1 as int]), ..s },
        ),
        Opcode::AndRegisters(r0, r1) => Ok(
            State { regs: s.regs.update(r0 as int, s.regs[r0 as int] & s.regs[r1 as int]), ..s },
        ),
        Opcode::XorRegisters(r0, r1) => Ok(
            State { regs: s.regs.update(r0 as int, s.regs[r0 as int] ^ s.regs[r1 as int]), ..s },
        ),
        Opcode::AddRegisters(r0, r1) => {
            let sum = s.regs[r0 as int] + s.regs[r1 as int];
            Ok(
                State {
                    regs: s.regs.update(r0 as int, (sum % 256) as u8).update(
                        15,
                        if sum > 255 {
                            1u8
                        } else {
                            0u8
                        },
                    ),
                    ..s
                },
            )
        },
        Opcode::SubtractRegisters(r0, r1) => {
            let a = s.regs[r0 as int];
            let b = s.regs[r1 as int];
            Ok(
                State {
                    regs: s.regs.update(r0 as int, ((a - b + 256) % 256) as u8).update(
                        15,
                        if a >= b {
                            1u8
                        } else {
                            0u8
                        },
                    ),
                    ..s
                },
            )
        },
        Opcode::ShiftRegisterRight(r0, _r1) => {
            let a = s.regs[r0 as int];
            Ok(State { regs: s.regs.update(r0 as int, a >> 1).update(15, a & 1), ..s })
        },
        Opcode::SubtractRegistersReversed(r0, r1) => {
            let a = s.regs[r0 as int];
            let b = s.regs[r1 as int];
            Ok(
                State {
                    regs: s.regs.update(r0 as int, ((b - a + 256) % 256) as u8).update(
                        15,
                        if b >= a {
                            1u8
                        } else {
                            0u8
                        },
                    ),
                    ..s
                },
            )
        },
        Opcode::ShiftRegisterLeft(r0, _r1) => {
            let a = s.regs[r0 as int];
            Ok(
                State {
                    regs: s.regs.update(r0 as int, (a << 1) as u8).update(
                        15,
                        if a & 0x80 != 0 {
                            1u8
                        } else {
                            0u8
                        },
                    ),
                    ..s
                },
            )
        },
        Opcode::SkipInstructionIfRegistersNotEqual(r0, r1) => Ok(
            spec_skip(s, s.regs[r0 as int] != s.regs[r1 as int]),
        ),
        Opcode::SetMemoryAddress(a) => Ok(State { index: a, ..s }),
        Opcode::JumpToMemoryAddress(a) => Ok(State { pc: (a + s.regs[0]) as u16, ..s }),
        Opcode::SetRegisterRandom(r, mask) => Ok(
            State { regs: s.regs.update(r as int, rnd & mask), ..s },
        ),
        Opcode::DrawSprite(rx, ry, height) => {
            let x0 = s.regs[rx as int] as int % DISPLAY_WIDTH as int;
            let y0 = s.regs[ry as int] as int % DISPLAY_HEIGHT as int;
            let h = height as int;
            if s.index + h > MEMORY_SIZE {
                Err(ExecError::MemoryOutOfBounds)
            } else {
                Ok(
                    State {
                        display: spec_draw_pixels(
                            s.display,
                            s.mem,
                            s.index as int,
                            x0,
                            y0,
                            h,
                            h * 8,
                        ),
                        regs: s.regs.update(
                            15,
                            if spec_draw_collision(
                                s.display,
                                s.mem,
                                s.index as int,
                                x0,
                                y0,
                                h,
                                h * 8,
                            ) {
                                1u8
                            } else {
                                0u8
                            },
                        ),
                        ..s
                    },
                )
            }
        },
        Opcode::SkipInstructionIfKeyDown(r) => Ok(
            spec_skip(s, s.input[(s.regs[r as int] & 0xF) as int] != 0),
        ),
        Opcode::SkipInstructionIfKeyUp(r) => Ok(
            spec_skip(s, s.input[(s.regs[r as int] & 0xF) as int] == 0),
        ),
        Opcode::StoreDelayTimerToRegister(r) => Ok(
            State { regs: s.regs.update(r as int, s.delay), ..s },
        ),
        Opcode::HaltAndStoreKeypressIntoRegister(r) => Ok(State { waiting: Some(r), ..s }),
        Opcode::SetDelayTimerToRegister(r) => Ok(State { delay: s.regs[r as int], ..s }),
        Opcode::SetSoundTimerToRegister(r) => Ok(State { sound: s.regs[r as int], ..s }),
        Opcode::AddRegisterToMemoryAddress(r) => Ok(
            State { index: ((s.index + s.regs[r as int]) % 0x10000) as u16, ..s },
        ),
        Opcode::SetMemoryAddressToSpriteFromRegister(r) => Ok(
            State {
                index: (FONT_DATA_ADDRESS + 5 * (s.regs[r as int] & 0xF)) as u16,
                ..s
            },
        ),
        Opcode::SetMemoryAddressToBinaryEncodedDecimalFromRegister(r) => {
            let v = s.regs[r as int];
            if s.index + 2 >= MEMORY_SIZE {
                Err(ExecError::MemoryOutOfBounds)
            } else {
                Ok(
                    State {
                        mem: s.mem.update(s.index as int, (v / 100) as u8).update(
                            s.index as int + 1,
                            ((v / 10) % 10) as u8,
                        ).update(s.index as int + 2, (v % 10) as u8),
                        ..s
                    },
                )
            }
        },
        Opcode::DumpRegistersIntoMemoryUpToRegister(x) => {
            if s.index + x >= MEMORY_SIZE {
                Err(ExecError::MemoryOutOfBounds)
            } else {
                Ok(
                    State {
                        mem: spec_regs_into_mem(s.mem, s.regs, s.index as int, x as int + 1),
                        ..s
                    },
                )
            }
        },
        Opcode::DumpMemoryIntoRegistersUpToRegister(x) => {
            if s.index + x >= MEMORY_SIZE {
                Err(ExecError::MemoryOutOfBounds)
            } else {
                Ok(
                    State {
                        regs: spec_mem_into_regs(s.regs, s.mem, s.index as int, x as int + 1),
                        ..s
                    },
                )
            }
        },
    }
}

/// The execution error a malformed instruction raises: its raw nibbles. The
/// incomplete-instruction case cannot arise from decoding a fetched pair.
pub open spec fn spec_exec_error_of(e: DecodeError) -> ExecError {
    match e {
        DecodeError::UnsupportedInstruction(n0, n1, n2, n3) => ExecError::UnsupportedOpcode(
            n0,
            n1,
            n2,
            n3,
        ),
        DecodeError::IncompleteInstruction(_) => ExecError::UnsupportedOpcode(0, 0, 0, 0),
    }
}

/// The one per-cycle contract. Suspended in the key-wait state, the machine
/// only observes input. Otherwise it fetches the 2 bytes at the program
/// counter (failing at the memory boundary), advances the program counter by
/// one instruction width, decodes (a decode failure is fatal, with the
/// program counter left advanced), and applies the instruction's semantic
/// effect. The result pairs what the step reports with the state it leaves.
pub open spec fn spec_update(s: State, rnd: u8) -> (Result<EmulatorStatus, ExecError>, State)
    recommends
        s.wf(),
{
    if s.waiting is Some {
        (Ok(EmulatorStatus::Working), spec_key_wait(s))
    } else if s.pc + 1 >= MEMORY_SIZE {
        (Err(ExecError::MemoryOutOfBounds), s)
    } else {
        let b0 = s.mem[s.pc as int];
        let b1 = s.mem[s.pc as int + 1];
        let adv = State { pc: (s.pc + 2) as u16, ..s };
        match spec_decode(b0, b1) {
            Err(e) => (Err(spec_exec_error_of(e)), adv),
            Ok(op) => match spec_step(adv, op, rnd) {
                Ok(s2) => (Ok(EmulatorStatus::Working), s2),
                Err(e) => (Err(e), adv),
            },
        }
    }
}

/// The whole 60 Hz timer periods contained in a millisecond clock value.
pub open spec fn spec_total_ticks(now_ms: u64) -> int {
    now_ms * 3 / 50
}

/// The state after consuming an externally supplied millisecond clock value:
/// both timers decrement once per whole 60 Hz period not yet applied, and
/// saturate at zero. A clock that has not advanced a whole period changes
/// nothing.
pub open spec fn spec_tick(s: State, now_ms: u64) -> State {
    let total = spec_total_ticks(now_ms);
    if total <= s.ticks {
        s
    } else {
        let d = total - s.ticks;
        State {
            delay: if d >= s.delay {
                0u8
            } else {
                (s.delay - d) as u8
            },
            sound: if d >= s.sound {
                0u8
            } else {
                (s.sound - d) as u8
            },
            ticks: total,
            ..s
        }
    }
}

/// Wrapping a coordinate offset and recovering the offset from the wrapped
/// coordinate are mutually inverse.
proof fn lemma_wrap_inverse(c0: int, d: int, m: int)
    requires
        0 <= c0 < m,
        0 <= d < m,
    ensures
        0 <= (c0 + d) % m < m,
        ((c0 + d) % m - c0 + m) % m == d,
{
    if c0 + d < m {
        vstd::arithmetic::div_mod::lemma_small_mod((c0 + d) as nat, m as nat);
        vstd::arithmetic::div_mod::lemma_mod_add_multiples_vanish(d, m);
        vstd::arithmetic::div_mod::lemma_small_mod(d as nat, m as nat);
    } else {
        vstd::arithmetic::div_mod::lemma_mod_sub_multiples_vanish(c0 + d, m);
        vstd::arithmetic::div_mod::lemma_small_mod((c0 + d - m) as nat, m as nat);
        vstd::arithmetic::div_mod::lemma_small_mod(d as nat, m as nat);
    }
}

/// Recovering an offset from a wrapped coordinate and wrapping it again
/// gives the coordinate back.
proof fn lemma_unwrap_inverse(c0: int, c: int, m: int)
    requires
        0 <= c0 < m,
        0 <= c < m,
    ensures
        0 <= (c - c0 + m) % m < m,
        (c0 + (c - c0 + m) % m) % m == c,
{
    if c >= c0 {
        vstd::arithmetic::div_mod::lemma_mod_sub_multiples_vanish(c - c0 + m, m);
        vstd::arithmetic::div_mod::lemma_small_mod((c - c0) as nat, m as nat);
        vstd::arithmetic::div_mod::lemma_small_mod(c as nat, m as nat);
    } else {
        vstd::arithmetic::div_mod::lemma_small_mod((c - c0 + m) as nat, m as nat);
        vstd::arithmetic::div_mod::lemma_mod_sub_multiples_vanish(c + m, m);
        vstd::arithmetic::div_mod::lemma_small_mod(c as nat, m as nat);
    }
}

/// A row-major pixel position splits back into its row and column.
proof fn lemma_pixel_coords(y: int, x: int)
    requires
        0 <= y < DISPLAY_HEIGHT,
        0 <= x < DISPLAY_WIDTH,
    ensures
        0 <= y * DISPLAY_WIDTH + x < DISPLAY_PIXELS,
        (y * DISPLAY_WIDTH + x) / DISPLAY_WIDTH as int == y,
        (y * DISPLAY_WIDTH + x) % DISPLAY_WIDTH as int == x,
{
    vstd::arithmetic::div_mod::lemma_fundamental_div_mod_converse(
        y * DISPLAY_WIDTH + x,
        DISPLAY_WIDTH as int,
        y,
        x,
    );
}

/// Blitting one more sprite cell changes exactly that cell's wrapped pixel,
/// which no earlier cell has touched: the loop step of the draw instruction.
proof fn lemma_draw_step(
    disp: Seq<u8>,
    mem: Seq<u8>,
    index: int,
    x0: int,
    y0: int,
    h: int,
    k: int,
)
    requires
        disp.len() == DISPLAY_PIXELS,
        0 <= x0 < DISPLAY_WIDTH,
        0 <= y0 < DISPLAY_HEIGHT,
        0 <= k < h * 8,
        h <= 16,
    ensures
        ({
            let dy = k / 8;
            let dx = k % 8;
            let p = ((y0 + dy) % (DISPLAY_HEIGHT as int)) * (DISPLAY_WIDTH as int) + (x0 + dx) % (
            DISPLAY_WIDTH as int);
            &&& 0 <= p < DISPLAY_PIXELS
            &&& spec_draw_pixels(disp, mem, index, x0, y0, h, k)[p] == disp[p]
            &&& spec_draw_pixels(disp, mem, index, x0, y0, h, k + 1) == spec_draw_pixels(
                disp,
                mem,
                index,
                x0,
                y0,
                h,
                k,
            ).update(p, disp[p] ^ spec_sprite_bit(mem, index, dy, dx))
        }),
{
    let dy = k / 8;
    let dx = k % 8;
    assert(0 <= dx < 8);
    assert(0 <= dy < h);
    let py = (y0 + dy) % (DISPLAY_HEIGHT as int);
    let px = (x0 + dx) % (DISPLAY_WIDTH as int);
    lemma_wrap_inverse(y0, dy, DISPLAY_HEIGHT as int);
    lemma_wrap_inverse(x0, dx, DISPLAY_WIDTH as int);
    lemma_pixel_coords(py, px);
    let p = py * (DISPLAY_WIDTH as int) + px;
    let prev = spec_draw_pixels(disp, mem, index, x0, y0, h, k);
    let next = spec_draw_pixels(disp, mem, index, x0, y0, h, k + 1);
    assert(prev[p] == disp[p]);
    assert forall|q: int| 0 <= q < DISPLAY_PIXELS implies next[q] == prev.update(
        p,
        (disp[p] ^ spec_sprite_bit(mem, index, dy, dx)) as u8,
    )[q] by {
        let yq = q / (DISPLAY_WIDTH as int);
        let xq = q % (DISPLAY_WIDTH as int);
        vstd::arithmetic::div_mod::lemma_fundamental_div_mod(q, DISPLAY_WIDTH as int);
        assert(0 <= yq < DISPLAY_HEIGHT && 0 <= xq < DISPLAY_WIDTH);
        let dyq = (yq - y0 + DISPLAY_HEIGHT) % (DISPLAY_HEIGHT as int);
        let dxq = (xq - x0 + DISPLAY_WIDTH) % (DISPLAY_WIDTH as int);
        if q != p && 0 <= dyq && dyq < h && 0 <= dxq && dxq < 8 && dyq * 8 + dxq == k {
            assert(dyq == dy && dxq == dx);
            lemma_unwrap_inverse(y0, yq, DISPLAY_HEIGHT as int);
            lemma_unwrap_inverse(x0, xq, DISPLAY_WIDTH as int);
            assert(yq == py && xq == px);
            assert(false);
        }
    }
    assert(next =~= prev.update(p, (disp[p] ^ spec_sprite_bit(mem, index, dy, dx)) as u8));
}

/// Blitting one more sprite cell reports a collision exactly when an earlier
/// cell did, or when this cell carries a set bit onto an already-set pixel.
proof fn lemma_collision_step(
    disp: Seq<u8>,
    mem: Seq<u8>,
    index: int,
    x0: int,
    y0: int,
    h: int,
    k: int,
)
    requires
        disp.len() == DISPLAY_PIXELS,
        0 <= x0 < DISPLAY_WIDTH,
        0 <= y0 < DISPLAY_HEIGHT,
        0 <= k < h * 8,
        h <= 16,
    ensures
        ({
            let dy = k / 8;
            let dx = k % 8;
            let p = ((y0 + dy) % (DISPLAY_HEIGHT as int)) * (DISPLAY_WIDTH as int) + (x0 + dx) % (
            DISPLAY_WIDTH as int);
            spec_draw_collision(disp, mem, index, x0, y0, h, k + 1) == (spec_draw_collision(
                disp,
                mem,
                index,
                x0,
                y0,
                h,
                k,
            ) || (spec_sprite_bit(mem, index, dy, dx) == 1 && disp[p] == 1))
        }),
{
    let dy = k / 8;
    let dx = k % 8;
    let p = ((y0 + dy) % (DISPLAY_HEIGHT as int)) * (DISPLAY_WIDTH as int) + (x0 + dx) % (
    DISPLAY_WIDTH as int);
    if spec_draw_collision(disp, mem, index, x0, y0, h, k) {
        let k2 = choose|k2: int|
            0 <= k2 < k && #[trigger] spec_sprite_bit(mem, index, k2 / 8, k2 % 8) == 1 && disp[((y0
                + k2 / 8) % (DISPLAY_HEIGHT as int)) * (DISPLAY_WIDTH as int) + (x0 + k2 % 8) % (
            DISPLAY_WIDTH as int)] == 1;
        assert(0 <= k2 < k + 1);
        assert(spec_draw_collision(disp, mem, index, x0, y0, h, k + 1));
    } else if spec_sprite_bit(mem, index, dy, dx) == 1 && disp[p] == 1 {
        assert(0 <= k < k + 1 && spec_sprite_bit(mem, index, k / 8, k % 8) == 1 && disp[((y0 + k
            / 8) % (DISPLAY_HEIGHT as int)) * (DISPLAY_WIDTH as int) + (x0 + k % 8) % (
        DISPLAY_WIDTH as int)] == 1);
        assert(spec_draw_collision(disp, mem, index, x0, y0, h, k + 1));
    } else {
        if spec_draw_collision(disp, mem, index, x0, y0, h, k + 1) {
            let k2 = choose|k2: int|
                0 <= k2 < k + 1 && #[trigger] spec_sprite_bit(mem, index, k2 / 8, k2 % 8) == 1
                    && disp[((y0 + k2 / 8) % (DISPLAY_HEIGHT as int)) * (DISPLAY_WIDTH as int) + (
                x0 + k2 % 8) % (DISPLAY_WIDTH as int)] == 1;
            if k2 < k {
                assert(spec_draw_collision(disp, mem, index, x0, y0, h, k));
                assert(false);
            } else {
                assert(k2 == k);
                assert(false);
            }
        }
    }
}

/// Relies on rand::random_range: draws a uniformly random value from the
/// given non-empty range, here a full byte. Nothing is promised of the value;
/// every caller must be correct for every byte that comes back.
#[verifier::external_body]
fn random_byte() -> u8 {
    let number: u32 = rand::random_range(0..=255);
    number as u8
}

/// The low nibble of a byte is below 16.
proof fn lemma_low_nibble(v: u8)
    ensures
        v & 0xF < 16,
{
    assert(v & 0xF < 16) by (bit_vector);
}

/// Converts a decode failure of a fetched pair into its execution error.
fn exec_error_of(e: DecodeError) -> (res: ExecError)
    ensures
        res == spec_exec_error_of(e),
{
    match e {
        DecodeError::UnsupportedInstruction(n0, n1, n2, n3) => ExecError::UnsupportedOpcode(
            n0,
            n1,
            n2,
            n3,
        ),
        DecodeError::IncompleteInstruction(_) => ExecError::UnsupportedOpcode(0, 0, 0, 0),
    }
}

impl Emulator {
    /// Sets the program counter: the jump primitive.
    fn goto(&mut self, address: u16)
        ensures
            final(self)@ == (State { pc: address, ..old(self)@ }),
            final(self).wf() == old(self).wf(),
    {
        self.pc = address;
    }

    /// Pushes the current program counter and jumps to the subroutine; fails
    /// with a stack overflow when all 16 slots are occupied.
    fn call_subroutine(&mut self, address: u16) -> (res: Result<(), ExecError>)
        requires
            old(self).wf(),
        ensures
            final(self).wf(),
            old(self)@.ret_stack.len() >= STACK_SIZE ==> res == Err::<(), ExecError>(
                ExecError::StackOverflow,
            ) && final(self)@ == old(self)@,
            old(self)@.ret_stack.len() < STACK_SIZE ==> res == Ok::<(), ExecError>(())
                && final(self)@ == (State {
                pc: address,
                ret_stack: old(self)@.ret_stack.push(old(self)@.pc),
                ..old(self)@
            }),
    {
        if self.sp >= STACK_SIZE {
            return Err(ExecError::StackOverflow);
        }
        self.stack[self.sp] = self.pc;
        self.sp = self.sp + 1;
        proof {
            assert(self.stack@.take(self.sp as int) =~= old(self).stack@.take(
                old(self).sp as int,
            ).push(old(self).pc));
        }
        self.goto(address);

        Ok(())
    }

    /// Pops the return address into the program counter; fails with a stack
    /// underflow when the stack is empty.
    fn return_from_subroutine(&mut self) -> (res: Result<(), ExecError>)
        requires
            old(self).wf(),
        ensures
            final(self).wf(),
            old(self)@.ret_stack.len() == 0 ==> res == Err::<(), ExecError>(
                ExecError::StackUnderflow,
            ) && final(self)@ == old(self)@,
            old(self)@.ret_stack.len() > 0 ==> res == Ok::<(), ExecError>(()) && final(self)@
                == (State {
                pc: old(self)@.ret_stack.last(),
                ret_stack: old(self)@.ret_stack.drop_last(),
                ..old(self)@
            }),
    {
        if self.sp == 0 {
            return Err(ExecError::StackUnderflow);
        }
        self.sp = self.sp - 1;
        let target = self.stack[self.sp];
        proof {
            assert(self.stack@.take(self.sp as int) =~= old(self)@.ret_stack.drop_last());
        }
        self.goto(target);

        Ok(())
    }

    /// Fetches the 2 bytes at the program counter, advances the counter by
    /// one instruction width and decodes. A fetch that would cross the
    /// 4096-byte boundary is a fatal boundary violation; a pair that decodes
    /// to no supported instruction is fatal with the counter left advanced.
    fn fetch_and_decode(&mut self) -> (res: Result<Opcode, ExecError>)
        requires
            old(self).wf(),
        ensures
            final(self).wf(),
            old(self)@.pc + 1 >= MEMORY_SIZE ==> res == Err::<Opcode, ExecError>(
                ExecError::MemoryOutOfBounds,
            ) && final(self)@ == old(self)@,
            old(self)@.pc + 1 < MEMORY_SIZE ==> final(self)@ == (State {
                pc: (old(self)@.pc + 2) as u16,
                ..old(self)@
            }) && (match spec_decode(
                old(self)@.mem[old(self)@.pc as int],
                old(self)@.mem[old(self)@.pc as int + 1],
            ) {
                Ok(op) => res == Ok::<Opcode, ExecError>(op),
                Err(e) => res == Err::<Opcode, ExecError>(spec_exec_error_of(e)),
            }),
    {
        if self.pc as usize + 1 >= MEMORY_SIZE {
            return Err(ExecError::MemoryOutOfBounds);
        }
        let instruction = (self.memory[self.pc as usize], self.memory[self.pc as usize + 1]);
        self.pc = self.pc + 2;
        match Opcode::decode(instruction) {
            Ok(op) => Ok(op),
            Err(e) => Err(exec_error_of(e)),
        }
    }

    /// XOR-blits a sprite of `height` rows of 8 pixels, read from memory at
    /// the index register onward, onto the display at the coordinates held
    /// in registers `rx` and `ry`; both coordinates wrap at the display
    /// edges. VF reports whether any set pixel was flipped to unset. A
    /// sprite whose rows would be read past the memory boundary is rejected
    /// unchanged.
    #[verifier::rlimit(100)]
    #[verifier::spinoff_prover]
    fn draw_sprite(&mut self, rx: u8, ry: u8, height: u8) -> (res: Result<(), ExecError>)
        requires
            old(self).wf(),
            rx < 16,
            ry < 16,
            height < 16,
        ensures
            final(self).wf(),
            old(self)@.index + height > MEMORY_SIZE ==> res == Err::<(), ExecError>(
                ExecError::MemoryOutOfBounds,
            ) && final(self)@ == old(self)@,
            old(self)@.index + height <= MEMORY_SIZE ==> res == Ok::<(), ExecError>(())
                && final(self)@ == (State {
                display: spec_draw_pixels(
                    old(self)@.display,
                    old(self)@.mem,
                    old(self)@.index as int,
                    old(self)@.regs[rx as int] as int % DISPLAY_WIDTH as int,
                    old(self)@.regs[ry as int] as int % DISPLAY_HEIGHT as int,
                    height as int,
                    height as int * 8,
                ),
                regs: old(self)@.regs.update(
                    15,
                    if spec_draw_collision(
                        old(self)@.display,
                        old(self)@.mem,
                        old(self)@.index as int,
                        old(self)@.regs[rx as int] as int % DISPLAY_WIDTH as int,
                        old(self)@.regs[ry as int] as int % DISPLAY_HEIGHT as int,
                        height as int,
                        height as int * 8,
                    ) {
                        1u8
                    } else {
                        0u8
                    },
                ),
                ..old(self)@
            }),
    {
        if self.address as usize + height as usize > MEMORY_SIZE {
            return Err(ExecError::MemoryOutOfBounds);
        }
        let x0 = (self.registers[rx as usize] % (DISPLAY_WIDTH as u8)) as usize;
        let y0 = (self.registers[ry as usize] % (DISPLAY_HEIGHT as u8)) as usize;
        let h = height as usize;
        let base = self.address as usize;
        let ghost disp0 = self@.display;
        let ghost mem0 = self@.mem;

        self.registers[15] = 0;

        proof {
            assert(self@.display =~= spec_draw_pixels(
                disp0,
                mem0,
                base as int,
                x0 as int,
                y0 as int,
                h as int,
                0,
            ));
        }

        let mut k: usize = 0;
        while k < h * 8
            invariant
                old(self).wf(),
                k <= h * 8,
                h < 16,
                rx < 16,
                ry < 16,
                base == old(self)@.index,
                base + h <= MEMORY_SIZE,
                disp0 == old(self)@.display,
                mem0 == old(self)@.mem,
                x0 == old(self)@.regs[rx as int] as int % DISPLAY_WIDTH as int,
                y0 == old(self)@.regs[ry as int] as int % DISPLAY_HEIGHT as int,
                x0 < DISPLAY_WIDTH,
                y0 < DISPLAY_HEIGHT,
                self@ == (State {
                    display: spec_draw_pixels(
                        disp0,
                        mem0,
                        base as int,
                        x0 as int,
                        y0 as int,
                        h as int,
                        k as int,
                    ),
                    regs: old(self)@.regs.update(
                        15,
                        if spec_draw_collision(
                            disp0,
                            mem0,
                            base as int,
                            x0 as int,
                            y0 as int,
                            h as int,
                            k as int,
                        ) {
                            1u8
                        } else {
                            0u8
                        },
                    ),
                    ..old(self)@
                }),
                self.wf(),
            decreases h * 8 - k,
        {
            let ghost d1 = spec_draw_pixels(
                disp0,
                mem0,
                base as int,
                x0 as int,
                y0 as int,
                h as int,
                k as int,
            );
            let ghost c1 = spec_draw_collision(
                disp0,
                mem0,
                base as int,
                x0 as int,
                y0 as int,
                h as int,
                k as int,
            );
            let dy = k / 8;
            let dx = k % 8;
            let row = self.memory[base + dy];
            let shift: u8 = (7 - dx) as u8;
            let bit = (row >> shift) & 1;
            let px = (x0 + dx) % DISPLAY_WIDTH;
            let py = (y0 + dy) % DISPLAY_HEIGHT;
            let idx = py * DISPLAY_WIDTH + px;

            proof {
                assert(bit == spec_sprite_bit(mem0, base as int, dy as int, dx as int));
                assert(d1[idx as int] == disp0[idx as int]);
            }

            let collided = bit == 1 && self.display[idx] == 1;
            if collided {
                self.registers[15] = 1;
            }
            self.display[idx] = self.display[idx] ^ bit;
            k = k + 1;

            proof {
                let kp = k as int - 1;
                lemma_draw_step(disp0, mem0, base as int, x0 as int, y0 as int, h as int, kp);
                lemma_collision_step(disp0, mem0, base as int, x0 as int, y0 as int, h as int, kp);
                assert(self@.display == d1.update(idx as int, (d1[idx as int] ^ bit) as u8));
                assert(self@.display =~= spec_draw_pixels(
                    disp0,
                    mem0,
                    base as int,
                    x0 as int,
                    y0 as int,
                    h as int,
                    k as int,
                ));
                if c1 {
                    assert(old(self)@.regs.update(15, 1u8).update(15, 1u8) =~= old(
                        self,
                    )@.regs.update(15, 1u8));
                } else if collided {
                    assert(old(self)@.regs.update(15, 0u8).update(15, 1u8) =~= old(
                        self,
                    )@.regs.update(15, 1u8));
                }
            }
        }

        Ok(())
    }

    /// Stores the binary-coded decimal digits of register `r` at the index
    /// register onward: hundreds, tens, ones. Fails unchanged when the three
    /// bytes would not fit below the memory boundary.
    fn store_bcd(&mut self, r: u8) -> (res: Result<(), ExecError>)
        requires
            old(self).wf(),
            r < 16,
        ensures
            final(self).wf(),
            old(self)@.index + 2 >= MEMORY_SIZE ==> res == Err::<(), ExecError>(
                ExecError::MemoryOutOfBounds,
            ) && final(self)@ == old(self)@,
            old(self)@.index + 2 < MEMORY_SIZE ==> res == Ok::<(), ExecError>(()) && final(self)@
                == (State {
                mem: old(self)@.mem.update(
                    old(self)@.index as int,
                    (old(self)@.regs[r as int] / 100) as u8,
                ).update(
                    old(self)@.index as int + 1,
                    ((old(self)@.regs[r as int] / 10) % 10) as u8,
                ).update(old(self)@.index as int + 2, (old(self)@.regs[r as int] % 10) as u8),
                ..old(self)@
            }),
    {
        if self.address as usize + 2 >= MEMORY_SIZE {
            return Err(ExecError::MemoryOutOfBounds);
        }
        let v = self.registers[r as usize];
        let base = self.address as usize;
        self.memory[base] = v / 100;
        self.memory[base + 1] = (v / 10) % 10;
        self.memory[base + 2] = v % 10;

        Ok(())
    }

    /// Stores registers V0 through Vx in memory at the index register
    /// onward; the index register itself is left unmodified. Fails unchanged
    /// when the transfer would cross the memory boundary.
    fn dump_registers(&mut self, x: u8) -> (res: Result<(), ExecError>)
        requires
            old(self).wf(),
            x < 16,
        ensures
            final(self).wf(),
            old(self)@.index + x >= MEMORY_SIZE ==> res == Err::<(), ExecError>(
                ExecError::MemoryOutOfBounds,
            ) && final(self)@ == old(self)@,
            old(self)@.index + x < MEMORY_SIZE ==> res == Ok::<(), ExecError>(())
                && final(self)@ == (State {
                mem: spec_regs_into_mem(
                    old(self)@.mem,
                    old(self)@.regs,
                    old(self)@.index as int,
                    x as int + 1,
                ),
                ..old(self)@
            }),
    {
        if self.address as usize + x as usize >= MEMORY_SIZE {
            return Err(ExecError::MemoryOutOfBounds);
        }
        let base = self.address as usize;
        proof {
            assert(self@.mem =~= spec_regs_into_mem(
                old(self)@.mem,
                old(self)@.regs,
                base as int,
                0,
            ));
        }
        let mut j: usize = 0;
        while j <= x as usize
            invariant
                j <= x as usize + 1,
                x < 16,
                base == old(self)@.index,
                base + x < MEMORY_SIZE,
                self.wf() == old(self).wf(),
                self@ == (State {
                    mem: spec_regs_into_mem(
                        old(self)@.mem,
                        old(self)@.regs,
                        base as int,
                        j as int,
                    ),
                    ..old(self)@
                }),
            decreases x as usize + 1 - j,
        {
            self.memory[base + j] = self.registers[j];
            j = j + 1;
            proof {
                assert(self@.mem =~= spec_regs_into_mem(
                    old(self)@.mem,
                    old(self)@.regs,
                    base as int,
                    j as int,
                ));
            }
        }

        Ok(())
    }

    /// Fills registers V0 through Vx from memory at the index register
    /// onward; the index register itself is left unmodified. Fails unchanged
    /// when the transfer would cross the memory boundary.
    fn load_registers(&mut self, x: u8) -> (res: Result<(), ExecError>)
        requires
            old(self).wf(),
            x < 16,
        ensures
            final(self).wf(),
            old(self)@.index + x >= MEMORY_SIZE ==> res == Err::<(), ExecError>(
                ExecError::MemoryOutOfBounds,
            ) && final(self)@ == old(self)@,
            old(self)@.index + x < MEMORY_SIZE ==> res == Ok::<(), ExecError>(())
                && final(self)@ == (State {
                regs: spec_mem_into_regs(
                    old(self)@.regs,
                    old(self)@.mem,
                    old(self)@.index as int,
                    x as int + 1,
                ),
                ..old(self)@
            }),
    {
        if self.address as usize + x as usize >= MEMORY_SIZE {
            return Err(ExecError::MemoryOutOfBounds);
        }
        let base = self.address as usize;
        proof {
            assert(self@.regs =~= spec_mem_into_regs(
                old(self)@.regs,
                old(self)@.mem,
                base as int,
                0,
            ));
        }
        let mut j: usize = 0;
        while j <= x as usize
            invariant
                j <= x as usize + 1,
                x < 16,
                base == old(self)@.index,
                base + x < MEMORY_SIZE,
                self.wf() == old(self).wf(),
                self@ == (State {
                    regs: spec_mem_into_regs(
                        old(self)@.regs,
                        old(self)@.mem,
                        base as int,
                        j as int,
                    ),
                    ..old(self)@
                }),
            decreases x as usize + 1 - j,
        {
            self.registers[j] = self.memory[base + j];
            j = j + 1;
            proof {
                assert(self@.regs =~= spec_mem_into_regs(
                    old(self)@.regs,
                    old(self)@.mem,
                    base as int,
                    j as int,
                ));
            }
        }

        Ok(())
    }

    /// Applies the semantic effect of one decoded instruction to the machine
    /// state, with the program counter already advanced past the
    /// instruction. The random-register instruction consumes `random`; every
    /// other instruction ignores it, so this function is exact for every
    /// byte the random source may hand back. An error leaves the state
    /// unchanged.
    #[verifier::rlimit(100)]
    #[verifier::spinoff_prover]
    pub fn execute(&mut self, opcode: Opcode, random: u8) -> (res: Result<
        EmulatorStatus,
        ExecError,
    >)
        requires
            old(self).wf(),
            opcode.wf(),
            old(self)@.pc + 2 <= u16::MAX,
        ensures
            final(self).wf(),
            (match spec_step(old(self)@, opcode, random) {
                Ok(s2) => res == Ok::<EmulatorStatus, ExecError>(EmulatorStatus::Working)
                    && final(self)@ == s2,
                Err(e) => res == Err::<EmulatorStatus, ExecError>(e) && final(self)@ == old(
                    self,
                )@,
            }),
    {
        match opcode {
            Opcode::CallMachineCodeRoutine(a) => {
                return Err(
                    ExecError::UnsupportedOpcode(
                        0,
                        ((a >> 8) & 0xF) as u8,
                        ((a >> 4) & 0xF) as u8,
                        (a & 0xF) as u8,
                    ),
                );
            },
            Opcode::ClearScreen => {
                self.display = [0; DISPLAY_PIXELS];
                proof {
                    assert(self@.display =~= spec_zero_display());
                }
            },
            Opcode::Return => {
                match self.return_from_subroutine() {
                    Ok(()) => {},
                    Err(e) => {
                        return Err(e);
                    },
                }
            },
            Opcode::Goto(address) => {
                self.goto(address);
            },
            Opcode::CallSubroutine(address) => {
                match self.call_subroutine(address) {
                    Ok(()) => {},
                    Err(e) => {
                        return Err(e);
                    },
                }
            },
            Opcode::SkipInstructionIfEqual(r0, immediate) => {
                if self.registers[r0 as usize] == immediate {
                    self.pc = self.pc + 2;
                }
            },
            Opcode::SkipInstructionIfNotEqual(r0, immediate) => {
                if self.registers[r0 as usize] != immediate {
                    self.pc = self.pc + 2;
                }
            },
            Opcode::SkipInstructionIfRegistersEqual(r0, r1) => {
                if self.registers[r0 as usize] == self.registers[r1 as usize] {
                    self.pc = self.pc + 2;
                }
            },
            Opcode::SetRegister(r0, immediate) => {
                self.registers[r0 as usize] = immediate;
            },
            Opcode::AddToRegister(r0, immediate) => {
                let sum = self.registers[r0 as usize] as u16 + immediate as u16;
                self.registers[r0 as usize] = (sum % 256) as u8;
            },
            Opcode::CopyRegisters(r0, r1) => {
                self.registers[r0 as usize] = self.registers[r1 as usize];
            },
            Opcode::OrRegisters(r0, r1) => {
                self.registers[r0 as usize] = self.registers[r0 as usize] | self.registers[r1
                    as usize];
            },
            Opcode::AndRegisters(r0, r1) => {
                self.registers[r0 as usize] = self.registers[r0 as usize] & self.registers[r1
                    as usize];
            },
            Opcode::XorRegisters(r0, r1) => {
                self.registers[r0 as usize] = self.registers[r0 as usize] ^ self.registers[r1
                    as usize];
            },
            Opcode::AddRegisters(r0, r1) => {
                let sum = self.registers[r0 as usize] as u16 + self.registers[r1 as usize] as u16;
                self.registers[r0 as usize] = (sum % 256) as u8;
                self.registers[15] = if sum > 255 {
                    1
                } else {
                    0
                };
            },
            Opcode::SubtractRegisters(r0, r1) => {
                let a = self.registers[r0 as usize];
                let b = self.registers[r1 as usize];
                let diff = (a as u16 + 256) - b as u16;
                self.registers[r0 as usize] = (diff % 256) as u8;
                self.registers[15] = if a >= b {
                    1
                } else {
                    0
                };
            },
            Opcode::ShiftRegisterRight(r0, _r1) => {
                let a = self.registers[r0 as usize];
                self.registers[r0 as usize] = a >> 1;
                self.registers[15] = a & 1;
            },
            Opcode::SubtractRegistersReversed(r0, r1) => {
                let a = self.registers[r0 as usize];
                let b = self.registers[r1 as usize];
                let diff = (b as u16 + 256) - a as u16;
                self.registers[r0 as usize] = (diff % 256) as u8;
                self.registers[15] = if b >= a {
                    1
                } else {
                    0
                };
            },
            Opcode::ShiftRegisterLeft(r0, _r1) => {
                let a = self.registers[r0 as usize];
                self.registers[r0 as usize] = a << 1;
                self.registers[15] = if a & 0x80 != 0 {
                    1
                } else {
                    0
                };
            },
            Opcode::SkipInstructionIfRegistersNotEqual(r0, r1) => {
                if self.registers[r0 as usize] != self.registers[r1 as usize] {
                    self.pc = self.pc + 2;
                }
            },
            Opcode::SetMemoryAddress(immediate) => {
                self.address = immediate;
            },
            Opcode::JumpToMemoryAddress(immediate) => {
                self.pc = immediate + self.registers[0] as u16;
            },
            Opcode::SetRegisterRandom(r0, immediate) => {
                self.registers[r0 as usize] = random & immediate;
            },
            Opcode::DrawSprite(r0, r1, immediate) => {
                match self.draw_sprite(r0, r1, immediate) {
                    Ok(()) => {},
                    Err(e) => {
                        return Err(e);
                    },
                }
            },
            Opcode::SkipInstructionIfKeyDown(r0) => {
                let key = self.registers[r0 as usize] & 0xF;
                proof {
                    lemma_low_nibble(self.registers[r0 as int]);
                }
                if self.input[key as usize] != 0 {
                    self.pc = self.pc + 2;
                }
            },
            Opcode::SkipInstructionIfKeyUp(r0) => {
                let key = self.registers[r0 as usize] & 0xF;
                proof {
                    lemma_low_nibble(self.registers[r0 as int]);
                }
                if self.input[key as usize] == 0 {
                    self.pc = self.pc + 2;
                }
            },
            Opcode::StoreDelayTimerToRegister(r0) => {
                self.registers[r0 as usize] = self.delay_timer;
            },
            Opcode::HaltAndStoreKeypressIntoRegister(r0) => {
                self.awaiting_keypress = true;
                self.keypress_register = r0;
            },
            Opcode::SetDelayTimerToRegister(r0) => {
                self.delay_timer = self.registers[r0 as usize];
            },
            Opcode::SetSoundTimerToRegister(r0) => {
                self.sound_timer = self.registers[r0 as usize];
            },
            Opcode::AddRegisterToMemoryAddress(r0) => {
                let sum = self.address as u32 + self.registers[r0 as usize] as u32;
                self.address = (sum % 0x10000) as u16;
            },
            Opcode::SetMemoryAddressToSpriteFromRegister(r0) => {
                let digit = self.registers[r0 as usize] & 0xF;
                proof {
                    lemma_low_nibble(self.registers[r0 as int]);
                }
                self.address = FONT_DATA_ADDRESS as u16 + 5 * digit as u16;
            },
            Opcode::SetMemoryAddressToBinaryEncodedDecimalFromRegister(r0) => {
                match self.store_bcd(r0) {
                    Ok(()) => {},
                    Err(e) => {
                        return Err(e);
                    },
                }
            },
            Opcode::DumpRegistersIntoMemoryUpToRegister(r0) => {
                match self.dump_registers(r0) {
                    Ok(()) => {},
                    Err(e) => {
                        return Err(e);
                    },
                }
            },
            Opcode::DumpMemoryIntoRegistersUpToRegister(r0) => {
                match self.load_registers(r0) {
                    Ok(()) => {},
                    Err(e) => {
                        return Err(e);
                    },
                }
            },
        }

        Ok(EmulatorStatus::Working)
    }

    /// Copies a ROM image verbatim into memory starting at the program
    /// origin and resets the program counter there; an image that exceeds
    /// the remaining address space is rejected unchanged.
    pub fn load_instructions(&mut self, instructions: Vec<u8>) -> (res: Result<(), LoadError>)
        requires
            old(self).wf(),
        ensures
            final(self).wf(),
            instructions@.len() > MEMORY_SIZE - PROGRAM_ORIGIN ==> res == Err::<(), LoadError>(
                LoadError::RomTooLarge,
            ) && final(self)@ == old(self)@,
            instructions@.len() <= MEMORY_SIZE - PROGRAM_ORIGIN ==> res == Ok::<(), LoadError>(())
                && final(self)@ == (State {
                mem: spec_loaded_memory(old(self)@.mem, instructions@),
                pc: PROGRAM_ORIGIN as u16,
                ..old(self)@
            }),
    {
        if instructions.len() > MEMORY_SIZE - PROGRAM_ORIGIN {
            return Err(LoadError::RomTooLarge);
        }
        proof {
            assert(self@.mem =~= spec_loaded_memory_upto(old(self)@.mem, instructions@, 0));
        }
        let mut i: usize = 0;
        while i < instructions.len()
            invariant
                i <= instructions@.len(),
                instructions@.len() <= MEMORY_SIZE - PROGRAM_ORIGIN,
                self.wf() == old(self).wf(),
                self@ == (State {
                    mem: spec_loaded_memory_upto(old(self)@.mem, instructions@, i as int),
                    ..old(self)@
                }),
            decreases instructions@.len() - i,
        {
            self.memory[PROGRAM_ORIGIN + i] = instructions[i];
            i = i + 1;
            proof {
                assert(self@.mem =~= spec_loaded_memory_upto(
                    old(self)@.mem,
                    instructions@,
                    i as int,
                ));
            }
        }
        self.pc = 0x200;
        proof {
            assert(self@.mem =~= spec_loaded_memory(old(self)@.mem, instructions@));
        }

        Ok(())
    }

    /// Returns self with a program loaded at the program origin: each opcode
    /// encoded to its two instruction bytes, in order.
    pub fn with_opcodes(self, opcodes: Vec<Opcode>) -> (res: Emulator)
        requires
            self.wf(),
            opcodes@.len() * 2 <= MEMORY_SIZE - PROGRAM_ORIGIN,
        ensures
            res.wf(),
            res@ == (State {
                mem: spec_loaded_memory(self@.mem, spec_opcodes_bytes(opcodes@)),
                pc: PROGRAM_ORIGIN as u16,
                ..self@
            }),
    {
        let mut this = self;
        proof {
            crate::opcode::lemma_opcodes_bytes_len(opcodes@);
        }
        let bits = opcodes.to_bits();
        this.load_instructions(bits).unwrap();
        this
    }

    /// One step of the fetch-decode-execute cycle. Suspended in the blocking
    /// key-wait state, the machine only observes the input vector: when some
    /// key is pressed, the lowest pressed key index lands in the waiting
    /// register and normal execution resumes. Otherwise the 2 bytes at the
    /// program counter are fetched (a fetch across the memory boundary is a
    /// fatal boundary violation), the counter advances one instruction
    /// width, the pair is decoded (a decode failure is fatal, the counter
    /// stays advanced) and the instruction's effect is applied. Success
    /// reports `Working`: a correct ROM has no terminal state.
    pub fn update(&mut self) -> (res: Result<EmulatorStatus, ExecError>)
        requires
            old(self).wf(),
        ensures
            final(self).wf(),
            exists|rnd: u8| spec_update(old(self)@, rnd) == (res, final(self)@),
    {
        if self.awaiting_keypress {
            let reg = self.keypress_register;
            let mut k: usize = 0;
            while k < INPUT_KEYS
                invariant
                    k <= INPUT_KEYS,
                    *self == *old(self),
                    old(self).wf(),
                    reg == old(self).keypress_register,
                    reg < 16,
                    self.awaiting_keypress,
                    spec_first_pressed(self@.input, 0) == spec_first_pressed(
                        self@.input,
                        k as int,
                    ),
                decreases INPUT_KEYS - k,
            {
                if self.input[k] != 0 {
                    self.registers[reg as usize] = k as u8;
                    self.awaiting_keypress = false;
                    proof {
                        assert(spec_first_pressed(old(self)@.input, k as int) == Some(k as u8));
                        assert(spec_update(old(self)@, 0u8) == (
                            Ok::<EmulatorStatus, ExecError>(EmulatorStatus::Working),
                            self@,
                        ));
                    }
                    return Ok(EmulatorStatus::Working);
                }
                k = k + 1;
            }
            proof {
                assert(spec_first_pressed(old(self)@.input, INPUT_KEYS as int) is None);
                assert(spec_update(old(self)@, 0u8) == (
                    Ok::<EmulatorStatus, ExecError>(EmulatorStatus::Working),
                    self@,
                ));
            }
            return Ok(EmulatorStatus::Working);
        }

        let opcode = match self.fetch_and_decode() {
            Ok(op) => op,
            Err(e) => {
                proof {
                    assert(spec_update(old(self)@, 0u8) == (
                        Err::<EmulatorStatus, ExecError>(e),
                        self@,
                    ));
                }
                return Err(e);
            },
        };

        proof {
            crate::opcode::lemma_decode_wf(
                old(self)@.mem[old(self)@.pc as int],
                old(self)@.mem[old(self)@.pc as int + 1],
            );
        }

        let random = match opcode {
            Opcode::SetRegisterRandom(_, _) => random_byte(),
            _ => 0,
        };

        let res = self.execute(opcode, random);

        proof {
            assert(spec_update(old(self)@, random) == (res, self@));
        }

        res
    }

    /// Consumes an externally supplied millisecond clock value: both timers
    /// decrement once per whole 60 Hz period that has elapsed since the last
    /// application, saturating at zero. Timer decrement is driven by this
    /// wall-clock value alone, never by the instruction execution rate.
    pub fn set_time_ms(&mut self, now_ms: u64)
        requires
            old(self).wf(),
        ensures
            final(self).wf(),
            final(self)@ == spec_tick(old(self)@, now_ms),
    {
        let total_wide: u128 = (now_ms as u128) * 3 / 50;
        proof {
            vstd::arithmetic::div_mod::lemma_div_is_ordered(
                now_ms as int * 3,
                u64::MAX as int * 3,
                50,
            );
        }
        let total: u64 = total_wide as u64;
        let elapsed: u64 = if total > self.ticks_done {
            total - self.ticks_done
        } else {
            0
        };
        if elapsed > 0 {
            self.delay_timer = if elapsed >= self.delay_timer as u64 {
                0
            } else {
                self.delay_timer - elapsed as u8
            };
            self.sound_timer = if elapsed >= self.sound_timer as u64 {
                0
            } else {
                self.sound_timer - elapsed as u8
            };
            self.ticks_done = total;
        }
    }

    /// The interpreter's internal invariant: the stack pointer counts at most
    /// the 16 slots, and a pending key-wait targets a real register.
    pub closed spec fn wf(self) -> bool {
        &&& self.sp <= STACK_SIZE
        &&& (self.awaiting_keypress ==> self.keypress_register < 16)
    }

    /// A well-formed interpreter has a well-formed mathematical value.
    pub proof fn lemma_wf_view(self)
        requires
            self.wf(),
        ensures
            self@.wf(),
    {
    }

    /// A fresh machine: zeroed state, font glyphs installed in their reserved
    /// region, program counter at the program origin.
    pub fn new() -> (res: Emulator)
        ensures
            res.wf(),
            res@ == spec_initial_state(),
    {
        let mut emulator = Emulator {
            memory: [0; MEMORY_SIZE],
            registers: [0; REGISTER_COUNT],
            address: 0,
            display: [0; DISPLAY_PIXELS],
            delay_timer: 0,
            sound_timer: 0,
            input: [0; INPUT_KEYS],
            stack: [0; STACK_SIZE],
            sp: 0,
            pc: 0x200,
            awaiting_keypress: false,
            keypress_register: 0,
            ticks_done: 0,
        };

        emulator.init();

        proof {
            assert(emulator@.mem =~= spec_initial_memory());
            assert(emulator@.regs =~= spec_initial_state().regs);
            assert(emulator@.input =~= spec_initial_state().input);
            assert(emulator@.display =~= spec_initial_state().display);
            assert(emulator@.ret_stack =~= spec_initial_state().ret_stack);
        }

        emulator
    }

    /// Installs the font glyph bitmaps into the reserved low-memory region;
    /// nothing else changes.
    fn init(&mut self)
        ensures
            final(self)@ == (State {
                mem: spec_font_overlay(old(self)@.mem, FONT_DATA_BYTES as int),
                ..old(self)@
            }),
            final(self).wf() == old(self).wf(),
    {
        let font_data: [u8; FONT_DATA_BYTES] = [
            0xF0, 0x90, 0x90, 0x90, 0xF0,  // 0
            0x20, 0x60, 0x20, 0x20, 0x70,  // 1
            0xF0, 0x10, 0xF0, 0x80, 0xF0,  // 2
            0xF0, 0x10, 0xF0, 0x10, 0xF0,  // 3
            0x90, 0x90, 0xF0, 0x10, 0x10,  // 4
            0xF0, 0x80, 0xF0, 0x10, 0xF0,  // 5
            0xF0, 0x80, 0xF0, 0x90, 0xF0,  // 6
            0xF0, 0x10, 0x20, 0x40, 0x40,  // 7
            0xF0, 0x90, 0xF0, 0x90, 0xF0,  // 8
            0xF0, 0x90, 0xF0, 0x10, 0xF0,  // 9
            0xF0, 0x90, 0xF0, 0x90, 0x90,  // A
            0xE0, 0x90, 0xE0, 0x90, 0xE0,  // B
            0xF0, 0x80, 0x80, 0x80, 0xF0,  // C
            0xE0, 0x90, 0x90, 0x90, 0xE0,  // D
            0xF0, 0x80, 0xF0, 0x80, 0xF0,  // E
            0xF0, 0x80, 0xF0, 0x80, 0x80,  // F
        ];

        proof {
            assert(font_data@ =~= spec_font());
            assert(self@.mem =~= spec_font_overlay(old(self)@.mem, 0));
        }

        let mut i: usize = 0;
        while i < FONT_DATA_BYTES
            invariant
                i <= FONT_DATA_BYTES,
                font_data@ == spec_font(),
                self.wf() == old(self).wf(),
                self@ == (State {
                    mem: spec_font_overlay(old(self)@.mem, i as int),
                    ..old(self)@
                }),
            decreases FONT_DATA_BYTES - i,
        {
            self.memory[FONT_DATA_ADDRESS + i] = font_data[i];
            i = i + 1;
            proof {
                assert(self@.mem =~= spec_font_overlay(old(self)@.mem, i as int));
            }
        }
    }

    /// The current program counter.
    pub fn pc(&self) -> (res: u16)
        ensures
            res == self@.pc,
    {
        self.pc
    }

    /// The current value of the index register I.
    pub fn address(&self) -> (res: u16)
        ensures
            res == self@.index,
    {
        self.address
    }

    /// The current value of one general-purpose register.
    pub fn register(&self, r: u8) -> (res: u8)
        requires
            r < 16,
        ensures
            res == self@.regs[r as int],
    {
        self.registers[r as usize]
    }

    /// The current delay timer value.
    pub fn delay_timer(&self) -> (res: u8)
        ensures
            res == self@.delay,
    {
        self.delay_timer
    }

    /// The current sound timer value.
    pub fn sound_timer(&self) -> (res: u8)
        ensures
            res == self@.sound,
    {
        self.sound_timer
    }

    /// Whether the machine is suspended in the blocking key-wait state.
    pub fn is_awaiting_keypress(&self) -> (res: bool)
        ensures
            res == (self@.waiting is Some),
    {
        self.awaiting_keypress
    }

    /// One pixel of the 64x32 framebuffer, 0 or as drawn.
    pub fn pixel(&self, x: usize, y: usize) -> (res: u8)
        requires
            x < DISPLAY_WIDTH,
            y < DISPLAY_HEIGHT,
        ensures
            res == self@.display[y * DISPLAY_WIDTH + x],
    {
        self.display[y * DISPLAY_WIDTH + x]
    }

    /// Writes one slot of the 16-key input vector: the input collaborator's
    /// interface.
    pub fn set_input(&mut self, key: u8, pressed: u8)
        requires
            key < 16,
        ensures
            final(self)@ == (State { input: old(self)@.input.update(key as int, pressed), ..old(self)@ }),
            final(self).wf() == old(self).wf(),
    {
        self.input[key as usize] = pressed;
    }

    /// Returns self with one register preset: a test and setup convenience.
    pub fn with_register_as(self, r: u8, v: u8) -> (res: Emulator)
        requires
            r < 16,
        ensures
            res@ == (State { regs: self@.regs.update(r as int, v), ..self@ }),
            res.wf() == self.wf(),
    {
        let mut this = self;
        this.registers[r as usize] = v;
        this
    }

    /// Returns self with one input key preset: a test and setup convenience.
    pub fn with_input_as(self, k: u8, v: u8) -> (res: Emulator)
        requires
            k < 16,
        ensures
            res@ == (State { input: self@.input.update(k as int, v), ..self@ }),
            res.wf() == self.wf(),
    {
        let mut this = self;
        this.input[k as usize] = v;
        this
    }

    /// Returns self with the framebuffer replaced by the given 64x32 grid of
    /// rows: a test and setup convenience.
    pub fn with_display(self, display: [[u8; DISPLAY_WIDTH]; DISPLAY_HEIGHT]) -> (res: Emulator)
        ensures
            res@ == (State { display: spec_grid(display), ..self@ }),
            res.wf() == self.wf(),
    {
        let mut this = self;
        let ghost orig = this@;
        let ghost orig_wf = this.wf();
        proof {
            assert(this@.display =~= spec_grid_overlay(orig.display, display, 0));
        }
        let mut y: usize = 0;
        while y < DISPLAY_HEIGHT
            invariant
                y <= DISPLAY_HEIGHT,
                this.wf() == orig_wf,
                this@ == (State {
                    display: spec_grid_overlay(orig.display, display, y * DISPLAY_WIDTH),
                    ..orig
                }),
            decreases DISPLAY_HEIGHT - y,
        {
            let row = display[y];
            let mut x: usize = 0;
            while x < DISPLAY_WIDTH
                invariant
                    y < DISPLAY_HEIGHT,
                    x <= DISPLAY_WIDTH,
                    row == display@[y as int],
                    this.wf() == orig_wf,
                    this@ == (State {
                        display: spec_grid_overlay(orig.display, display, y * DISPLAY_WIDTH + x),
                        ..orig
                    }),
                decreases DISPLAY_WIDTH - x,
            {
                this.display[y * DISPLAY_WIDTH + x] = row[x];
                x = x + 1;
                proof {
                    assert(this@.display =~= spec_grid_overlay(
                        orig.display,
                        display,
                        y * DISPLAY_WIDTH + x,
                    ));
                }
            }
            y = y + 1;
        }
        proof {
            assert(this@.display =~= spec_grid(display));
        }
        this
    }
}

/// Flag polarity of subtraction: VX >= VY leaves VF = 1 (no borrow); VX < VY
/// leaves VF = 0 and the difference wrapped modulo 256. The difference lands
/// in VX itself unless VX is the flag register, which the flag write then
/// clobbers.
pub proof fn lemma_subtract_flag_polarity(s: State, r0: u8, r1: u8)
    requires
        s.wf(),
        r0 < 16,
        r1 < 16,
    ensures
        spec_step(s, Opcode::SubtractRegisters(r0, r1), 0) matches Ok(s2) && {
            &&& s.regs[r0 as int] >= s.regs[r1 as int] ==> s2.regs[15] == 1
            &&& s.regs[r0 as int] < s.regs[r1 as int] ==> s2.regs[15] == 0
            &&& r0 != 15 ==> s2.regs[r0 as int] == ((s.regs[r0 as int] - s.regs[r1 as int] + 256)
                % 256) as u8
        },
{
}

/// Flag polarity of addition: a sum above 255 wraps modulo 256 and sets
/// VF = 1; a sum within range leaves VF = 0. The sum lands in VX itself
/// unless VX is the flag register, which the flag write then clobbers.
pub proof fn lemma_add_overflow_flag(s: State, r0: u8, r1: u8)
    requires
        s.wf(),
        r0 < 16,
        r1 < 16,
    ensures
        spec_step(s, Opcode::AddRegisters(r0, r1), 0) matches Ok(s2) && {
            &&& s.regs[r0 as int] + s.regs[r1 as int] > 255 ==> s2.regs[15] == 1
            &&& s.regs[r0 as int] + s.regs[r1 as int] <= 255 ==> s2.regs[15] == 0
            &&& r0 != 15 ==> s2.regs[r0 as int] == ((s.regs[r0 as int] + s.regs[r1 as int]) % 256) as u8
        },
{
}

/// The right shift halves VX and captures its pre-shift least significant
/// bit in VF; the left shift doubles VX modulo 256 and captures the
/// pre-shift most significant bit.
pub proof fn lemma_shift_captures_bit(s: State, r0: u8, r1: u8)
    requires
        s.wf(),
        r0 < 16,
        r1 < 16,
    ensures
        spec_step(s, Opcode::ShiftRegisterRight(r0, r1), 0) matches Ok(s2) && {
            &&& s2.regs[15] == s.regs[r0 as int] & 1
            &&& r0 != 15 ==> s2.regs[r0 as int] == s.regs[r0 as int] >> 1
        },
        spec_step(s, Opcode::ShiftRegisterLeft(r0, r1), 0) matches Ok(s3) && {
            &&& s3.regs[15] == (if s.regs[r0 as int] & 0x80 != 0 {
                1u8
            } else {
                0u8
            })
            &&& r0 != 15 ==> s3.regs[r0 as int] == (s.regs[r0 as int] << 1) as u8
        },
{
}

/// Skip addressing: when the instruction at the program counter is a
/// skip-if-equal and the register holds the immediate, one whole update
/// advances the counter by 4 from its pre-instruction value; when it does
/// not, by 2. Either way the step succeeds.
pub proof fn lemma_skip_addressing(s: State, rnd: u8, r: u8, imm: u8)
    requires
        s.wf(),
        s.waiting is None,
        s.pc + 1 < MEMORY_SIZE,
        spec_decode(s.mem[s.pc as int], s.mem[s.pc as int + 1]) == Ok::<Opcode, DecodeError>(
            Opcode::SkipInstructionIfEqual(r, imm),
        ),
    ensures
        spec_update(s, rnd).0 == Ok::<EmulatorStatus, ExecError>(EmulatorStatus::Working),
        s.regs[r as int] == imm ==> spec_update(s, rnd).1.pc == s.pc + 4,
        s.regs[r as int] != imm ==> spec_update(s, rnd).1.pc == s.pc + 2,
{
    crate::opcode::lemma_decode_wf(s.mem[s.pc as int], s.mem[s.pc as int + 1]);
}

/// Stack discipline: a subroutine call followed by a return restores the
/// program counter to its value after the call instruction and leaves the
/// stack as it was; a return on an empty stack fails with a stack underflow.
pub proof fn lemma_call_return(s: State, addr: u16)
    requires
        s.wf(),
        s.ret_stack.len() < STACK_SIZE,
    ensures
        spec_step(s, Opcode::CallSubroutine(addr), 0) matches Ok(s1) && {
            &&& s1.pc == addr
            &&& spec_step(s1, Opcode::Return, 0) matches Ok(s2) && s2.pc == s.pc && s2.ret_stack
                == s.ret_stack
        },
        s.ret_stack.len() == 0 ==> spec_step(s, Opcode::Return, 0) == Err::<State, ExecError>(
            ExecError::StackUnderflow,
        ),
{
    let pushed = s.ret_stack.push(s.pc);
    assert(pushed.drop_last() =~= s.ret_stack);
}

/// Sprite collision: an 8x1 sprite of all-set bits drawn at a location whose
/// eight wrapped pixels are all set clears those pixels by XOR and sets
/// VF = 1; drawn onto eight clear pixels it sets them and leaves VF = 0.
pub proof fn lemma_sprite_collision(s: State, rx: u8, ry: u8)
    requires
        s.wf(),
        rx < 16,
        ry < 16,
        s.index + 1 <= MEMORY_SIZE,
        s.mem[s.index as int] == 0xFF,
    ensures
        spec_step(s, Opcode::DrawSprite(rx, ry, 1), 0) matches Ok(s2) && {
            let x0 = s.regs[rx as int] as int % DISPLAY_WIDTH as int;
            let y0 = s.regs[ry as int] as int % DISPLAY_HEIGHT as int;
            &&& (forall|dx: int|
                0 <= dx < 8 ==> #[trigger] s.display[y0 * DISPLAY_WIDTH + (x0 + dx) % DISPLAY_WIDTH as int]
                    == 1) ==> {
                &&& s2.regs[15] == 1
                &&& forall|dx: int|
                    0 <= dx < 8 ==> #[trigger] s2.display[y0 * DISPLAY_WIDTH + (x0 + dx) % (
                    DISPLAY_WIDTH as int)] == 0
            }
            &&& (forall|dx: int|
                0 <= dx < 8 ==> #[trigger] s.display[y0 * DISPLAY_WIDTH + (x0 + dx) % DISPLAY_WIDTH as int]
                    == 0) ==> {
                &&& s2.regs[15] == 0
                &&& forall|dx: int|
                    0 <= dx < 8 ==> #[trigger] s2.display[y0 * DISPLAY_WIDTH + (x0 + dx) % (
                    DISPLAY_WIDTH as int)] == 1
            }
        },
{
    let x0 = s.regs[rx as int] as int % DISPLAY_WIDTH as int;
    let y0 = s.regs[ry as int] as int % DISPLAY_HEIGHT as int;
    let index = s.index as int;
    assert(forall|dx: int| 0 <= dx < 8 ==> #[trigger] spec_sprite_bit(s.mem, index, 0, dx) == 1)
        by {
        assert forall|dx: int| 0 <= dx < 8 implies #[trigger] spec_sprite_bit(s.mem, index, 0, dx)
            == 1 by {
            let sh = (7 - dx) as u8;
            assert((0xFFu8 >> sh) & 1 == 1) by (bit_vector)
                requires
                    sh < 8,
            ;
        }
    }
    assert(1u8 ^ 1 == 0 && 0u8 ^ 1 == 1) by (bit_vector);
    let s2 = spec_step(s, Opcode::DrawSprite(rx, ry, 1), 0)->Ok_0;
    assert forall|dx: int| 0 <= dx < 8 implies #[trigger] s2.display[y0 * DISPLAY_WIDTH + (x0 + dx)
        % (DISPLAY_WIDTH as int)] == s.display[y0 * DISPLAY_WIDTH + (x0 + dx) % (
    DISPLAY_WIDTH as int)] ^ 1 by {
        let px = (x0 + dx) % (DISPLAY_WIDTH as int);
        lemma_wrap_inverse(x0, dx, DISPLAY_WIDTH as int);
        lemma_pixel_coords(y0, px);
        vstd::arithmetic::div_mod::lemma_small_mod(0nat, DISPLAY_HEIGHT as nat);
        vstd::arithmetic::div_mod::lemma_small_mod(y0 as nat, DISPLAY_HEIGHT as nat);
        let p = y0 * DISPLAY_WIDTH + px;
        assert((p / DISPLAY_WIDTH as int - y0 + DISPLAY_HEIGHT) % DISPLAY_HEIGHT as int == 0);
        assert(s2.display[p] == s.display[p] ^ spec_sprite_bit(s.mem, index, 0, dx));
    }
    if forall|dx: int|
        0 <= dx < 8 ==> #[trigger] s.display[y0 * DISPLAY_WIDTH + (x0 + dx) % DISPLAY_WIDTH as int] == 1 {
        let p0 = y0 * DISPLAY_WIDTH + x0 % (DISPLAY_WIDTH as int);
        vstd::arithmetic::div_mod::lemma_small_mod(x0 as nat, DISPLAY_WIDTH as nat);
        vstd::arithmetic::div_mod::lemma_small_mod(y0 as nat, DISPLAY_HEIGHT as nat);
        assert(spec_sprite_bit(s.mem, index, 0int / 8, 0int % 8) == 1);
        assert(s.display[((y0 + 0int / 8) % (DISPLAY_HEIGHT as int)) * (DISPLAY_WIDTH as int) + (x0
            + 0int % 8) % (DISPLAY_WIDTH as int)] == 1);
        assert(spec_draw_collision(s.display, s.mem, index, x0, y0, 1, 8));
    }
    if forall|dx: int|
        0 <= dx < 8 ==> #[trigger] s.display[y0 * DISPLAY_WIDTH + (x0 + dx) % DISPLAY_WIDTH as int] == 0 {
        if spec_draw_collision(s.display, s.mem, index, x0, y0, 1, 8) {
            let k = choose|k: int|
                0 <= k < 8 && #[trigger] spec_sprite_bit(s.mem, index, k / 8, k % 8) == 1
                    && s.display[((y0 + k / 8) % (DISPLAY_HEIGHT as int)) * (DISPLAY_WIDTH as int)
                    + (x0 + k % 8) % (DISPLAY_WIDTH as int)] == 1;
            vstd::arithmetic::div_mod::lemma_small_mod(y0 as nat, DISPLAY_HEIGHT as nat);
            assert(s.display[y0 * DISPLAY_WIDTH + (x0 + k) % DISPLAY_WIDTH as int] == 1);
            assert(false);
        }
    }
}

} // verus!
