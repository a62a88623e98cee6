use vstd::prelude::*;

use crate::display::{Display, PIXELS, spec_blit, spec_collision};
use crate::errors::Chip8Error;
use crate::input::{InputLatch, NUM_KEYS};
use crate::ram::{MEM_SIZE, Ram};
use crate::timers::TimerPair;

verus! {

/// Number of general-purpose registers.
pub const NUM_REGISTERS: usize = 16;

/// One decoded instruction. Decoding happens once, by ordered pattern
/// matching on the fetched word; execution is a handler per variant.
#[derive(Clone, Copy, Debug, PartialEq, Eq, Structural)]
pub enum Instr {
    /// `0000`: do nothing.
    Nop,
    /// `00E0`: clear the display.
    ClearScreen,
    /// `00EE`: pop the stack into the program counter.
    Return,
    /// `1NNN`: jump.
    Jump(u16),
    /// `2NNN`: push the program counter, then jump.
    Call(u16),
    /// `3XNN`: skip the next word if `VX == NN`.
    SkipEqImm(u8, u8),
    /// `4XNN`: skip the next word if `VX != NN`.
    SkipNeImm(u8, u8),
    /// `5XY0`: skip the next word if `VX == VY`.
    SkipEqReg(u8, u8),
    /// `6XNN`: `VX := NN`.
    SetImm(u8, u8),
    /// `7XNN`: `VX := (VX + NN) mod 256`, carry flag untouched.
    AddImm(u8, u8),
    /// `8XY0`: `VX := VY`.
    CopyReg(u8, u8),
    /// `8XY1`: `VX := VX | VY`.
    BitOr(u8, u8),
    /// `8XY2`: `VX := VX & VY`.
    BitAnd(u8, u8),
    /// `8XY3`: `VX := VX ^ VY`.
    BitXor(u8, u8),
    /// `8XY4`: `VX := (VX + VY) mod 256`; `VF` := carry.
    AddReg(u8, u8),
    /// `8XY5`: `VF := 1` iff `VX > VY`; `VX := (VX - VY) mod 256`.
    SubReg(u8, u8),
    /// `8XY6`: `VF` := low bit of `VY`; `VX := VY >> 1`.
    ShiftRight(u8, u8),
    /// `8XY7`: `VF := 1` iff `VY > VX`; `VX := (VY - VX) mod 256`.
    SubFrom(u8, u8),
    /// `8XYE`: `VF` := high bit of `VY`; `VX := (VY << 1) mod 256`.
    ShiftLeft(u8, u8),
    /// `9XY0`: skip the next word if `VX != VY`.
    SkipNeReg(u8, u8),
    /// `ANNN`: `I := NNN`.
    SetIndex(u16),
    /// `BNNN`: jump to `V0 + NNN`.
    JumpPlusV0(u16),
    /// `CXNN`: `VX` := a random byte masked with `NN`.
    Random(u8, u8),
    /// `DXYN`: blit `N` sprite rows from `memory[I..]` at `(VX, VY)`;
    /// `VF` := collision.
    Draw(u8, u8, u8),
    /// `EX9E`: skip the next word if the key numbered by `VX` is pressed.
    SkipKeyPressed(u8),
    /// `EXA1`: skip the next word if the key numbered by `VX` is not
    /// pressed.
    SkipKeyNotPressed(u8),
    /// `FX07`: `VX` := delay timer.
    ReadDelay(u8),
    /// `FX0A`: block until a key press, whose index will land in `VX`.
    WaitKey(u8),
    /// `FX15`: delay timer := `VX`.
    SetDelay(u8),
    /// `FX18`: sound timer := `VX`.
    SetSound(u8),
    /// `FX1E`: `I := (I + VX) mod 65536`.
    AddIndex(u8),
    /// `FX29`: `I` := address of the glyph sprite for digit `VX`.
    GlyphAddr(u8),
    /// `FX33`: store the decimal digits of `VX` at `memory[I..I+3]`.
    StoreBcd(u8),
    /// `FX55`: store `V0..=VX` at `memory[I..=I+X]`.
    StoreRegs(u8),
    /// `FX65`: load `V0..=VX` from `memory[I..=I+X]`.
    LoadRegs(u8),
}

/// Bits 12..16 of an instruction word.
pub open spec fn op_field(instr: u16) -> u16 {
    instr / 0x1000
}

/// Bits 8..12: the X register selector.
pub open spec fn x_field(instr: u16) -> u8 {
    ((instr / 0x100) % 0x10) as u8
}

/// Bits 4..8: the Y register selector.
pub open spec fn y_field(instr: u16) -> u8 {
    ((instr / 0x10) % 0x10) as u8
}

/// Bits 0..4.
pub open spec fn n_field(instr: u16) -> u8 {
    (instr % 0x10) as u8
}

/// Bits 0..8.
pub open spec fn nn_field(instr: u16) -> u8 {
    (instr % 0x100) as u8
}

/// Bits 0..12.
pub open spec fn nnn_field(instr: u16) -> u16 {
    instr % 0x1000
}

/// The closed set of opcode families, first match wins; a word matching no
/// family decodes to nothing and faults the step.
pub open spec fn spec_decode(instr: u16) -> Option<Instr> {
    let op = op_field(instr);
    let x = x_field(instr);
    let y = y_field(instr);
    let n = n_field(instr);
    let nn = nn_field(instr);
    let nnn = nnn_field(instr);
    if instr == 0x0000 {
        Some(Instr::Nop)
    } else if instr == 0x00E0 {
        Some(Instr::ClearScreen)
    } else if instr == 0x00EE {
        Some(Instr::Return)
    } else if op == 0x1 {
        Some(Instr::Jump(nnn))
    } else if op == 0x2 {
        Some(Instr::Call(nnn))
    } else if op == 0x3 {
        Some(Instr::SkipEqImm(x, nn))
    } else if op == 0x4 {
        Some(Instr::SkipNeImm(x, nn))
    } else if op == 0x5 && n == 0x0 {
        Some(Instr::SkipEqReg(x, y))
    } else if op == 0x6 {
        Some(Instr::SetImm(x, nn))
    } else if op == 0x7 {
        Some(Instr::AddImm(x, nn))
    } else if op == 0x8 && n == 0x0 {
        Some(Instr::CopyReg(x, y))
    } else if op == 0x8 && n == 0x1 {
        Some(Instr::BitOr(x, y))
    } else if op == 0x8 && n == 0x2 {
        Some(Instr::BitAnd(x, y))
    } else if op == 0x8 && n == 0x3 {
        Some(Instr::BitXor(x, y))
    } else if op == 0x8 && n == 0x4 {
        Some(Instr::AddReg(x, y))
    } else if op == 0x8 && n == 0x5 {
        Some(Instr::SubReg(x, y))
    } else if op == 0x8 && n == 0x6 {
        Some(Instr::ShiftRight(x, y))
    } else if op == 0x8 && n == 0x7 {
        Some(Instr::SubFrom(x, y))
    } else if op == 0x8 && n == 0xE {
        Some(Instr::ShiftLeft(x, y))
    } else if op == 0x9 && n == 0x0 {
        Some(Instr::SkipNeReg(x, y))
    } else if op == 0xA {
        Some(Instr::SetIndex(nnn))
    } else if op == 0xB {
        Some(Instr::JumpPlusV0(nnn))
    } else if op == 0xC {
        Some(Instr::Random(x, nn))
    } else if op == 0xD {
        Some(Instr::Draw(x, y, n))
    } else if op == 0xE && nn == 0x9E {
        Some(Instr::SkipKeyPressed(x))
    } else if op == 0xE && nn == 0xA1 {
        Some(Instr::SkipKeyNotPressed(x))
    } else if op == 0xF && nn == 0x07 {
        Some(Instr::ReadDelay(x))
    } else if op == 0xF && nn == 0x0A {
        Some(Instr::WaitKey(x))
    } else if op == 0xF && nn == 0x15 {
        Some(Instr::SetDelay(x))
    } else if op == 0xF && nn == 0x18 {
        Some(Instr::SetSound(x))
    } else if op == 0xF && nn == 0x1E {
        Some(Instr::AddIndex(x))
    } else if op == 0xF && nn == 0x29 {
        Some(Instr::GlyphAddr(x))
    } else if op == 0xF && nn == 0x33 {
        Some(Instr::StoreBcd(x))
    } else if op == 0xF && nn == 0x55 {
        Some(Instr::StoreRegs(x))
    } else if op == 0xF && nn == 0x65 {
        Some(Instr::LoadRegs(x))
    } else {
        None
    }
}

/// The whole state a step reads and writes, as one mathematical value.
#[verifier::ext_equal]
pub ghost struct MachineView {
    /// The sixteen registers `V0..VF`.
    pub regs: Seq<u8>,
    /// The program counter.
    pub pc: u16,
    /// The index register `I`.
    pub index: u16,
    /// The call stack of return addresses, newest last.
    pub stack: Seq<u16>,
    /// The memory bytes.
    pub mem: Seq<u8>,
    /// The display pixels, row-major.
    pub disp: Seq<bool>,
    /// The sixteen key states.
    pub keys: Seq<bool>,
    /// The register waiting for a key press, if blocked.
    pub blocked: Option<u8>,
    /// The delay timer.
    pub delay: u8,
    /// The sound timer.
    pub sound: u8,
}

/// Dimensions every machine state keeps.
pub open spec fn wf_view(m: MachineView) -> bool {
    &&& m.regs.len() == NUM_REGISTERS
    &&& m.mem.len() == MEM_SIZE
    &&& m.disp.len() == PIXELS
    &&& m.keys.len() == NUM_KEYS
    &&& match m.blocked {
        Some(t) => t < NUM_KEYS,
        None => true,
    }
}

/// The big-endian instruction word at the program counter.
pub open spec fn spec_fetch(m: MachineView) -> u16 {
    (m.mem[m.pc as int] * 256 + m.mem[m.pc as int + 1]) as u16
}

/// The same state with the program counter past the current word.
pub open spec fn adv(m: MachineView) -> MachineView {
    MachineView { pc: (m.pc + 2) as u16, ..m }
}

/// The same state with the program counter past the current word and the
/// one after it.
pub open spec fn skip(m: MachineView) -> MachineView {
    MachineView { pc: (m.pc + 4) as u16, ..m }
}

/// A display with every pixel unset.
pub open spec fn blank_display() -> Seq<bool> {
    Seq::new(PIXELS as nat, |p: int| false)
}

/// Whether key number `v` counts as pressed; values past the keypad count
/// as unpressed.
pub open spec fn key_pressed(m: MachineView, v: u8) -> bool {
    v < NUM_KEYS && m.keys[v as int]
}

/// The effect of one decoded instruction: the next state, or a fault that
/// leaves the state untouched. `rnd` is the byte the random source
/// delivered, read only by the random-mask instruction.
pub open spec fn spec_execute(m: MachineView, ins: Instr, rnd: u8) -> Result<
    MachineView,
    Chip8Error,
> {
    match ins {
        Instr::Nop => Ok(adv(m)),
        Instr::ClearScreen => Ok(adv(MachineView { disp: blank_display(), ..m })),
        Instr::Return => if m.stack.len() == 0 {
            Err(Chip8Error::StackUnderflow(m.pc))
        } else {
            Ok(MachineView { pc: m.stack.last(), stack: m.stack.drop_last(), ..m })
        },
        Instr::Jump(nnn) => Ok(MachineView { pc: nnn, ..m }),
        Instr::Call(nnn) => Ok(MachineView { pc: nnn, stack: m.stack.push(m.pc), ..m }),
        Instr::SkipEqImm(x, nn) => Ok(
            if m.regs[x as int] == nn {
                skip(m)
            } else {
                adv(m)
            },
        ),
        Instr::SkipNeImm(x, nn) => Ok(
            if m.regs[x as int] != nn {
                skip(m)
            } else {
                adv(m)
            },
        ),
        Instr::SkipEqReg(x, y) => Ok(
            if m.regs[x as int] == m.regs[y as int] {
                skip(m)
            } else {
                adv(m)
            },
        ),
        Instr::SetImm(x, nn) => Ok(adv(MachineView { regs: m.regs.update(x as int, nn), ..m })),
        Instr::AddImm(x, nn) => Ok(
            adv(
                MachineView {
                    regs: m.regs.update(x as int, ((m.regs[x as int] + nn) % 256) as u8),
                    ..m
                },
            ),
        ),
        Instr::CopyReg(x, y) => Ok(
            adv(MachineView { regs: m.regs.update(x as int, m.regs[y as int]), ..m }),
        ),
        Instr::BitOr(x, y) => Ok(
            adv(
                MachineView {
                    regs: m.regs.update(x as int, m.regs[x as int] | m.regs[y as int]),
                    ..m
                },
            ),
        ),
        Instr::BitAnd(x, y) => Ok(
            adv(
                MachineView {
                    regs: m.regs.update(x as int, m.regs[x as int] & m.regs[y as int]),
                    ..m
                },
            ),
        ),
        Instr::BitXor(x, y) => Ok(
            adv(
                MachineView {
                    regs: m.regs.update(x as int, m.regs[x as int] ^ m.regs[y as int]),
                    ..m
                },
            ),
        ),
        Instr::AddReg(x, y) => {
            let total = m.regs[x as int] + m.regs[y as int];
            let flag: u8 = if total > 255 {
                1
            } else {
                0
            };
            Ok(
                adv(
                    MachineView {
                        regs: m.regs.update(x as int, (total % 256) as u8).update(15, flag),
                        ..m
                    },
                ),
            )
        },
        Instr::SubReg(x, y) => {
            let vx = m.regs[x as int];
            let vy = m.regs[y as int];
            let flag: u8 = if vx > vy {
                1
            } else {
                0
            };
            Ok(
                adv(
                    MachineView {
                        regs: m.regs.update(15, flag).update(x as int, ((vx - vy) % 256) as u8),
                        ..m
                    },
                ),
            )
        },
        Instr::ShiftRight(x, y) => {
            let vy = m.regs[y as int];
            Ok(
                adv(
                    MachineView {
                        regs: m.regs.update(15, vy % 2).update(x as int, vy / 2),
                        ..m
                    },
                ),
            )
        },
        Instr::SubFrom(x, y) => {
            let vx = m.regs[x as int];
            let vy = m.regs[y as int];
            let flag: u8 = if vy > vx {
                1
            } else {
                0
            };
            Ok(
                adv(
                    MachineView {
                        regs: m.regs.update(15, flag).update(x as int, ((vy - vx) % 256) as u8),
                        ..m
                    },
                ),
            )
        },
        Instr::ShiftLeft(x, y) => {
            let vy = m.regs[y as int];
            Ok(
                adv(
                    MachineView {
                        regs: m.regs.update(15, vy / 128).update(
                            x as int,
                            ((vy * 2) % 256) as u8,
                        ),
                        ..m
                    },
                ),
            )
        },
        Instr::SkipNeReg(x, y) => Ok(
            if m.regs[x as int] != m.regs[y as int] {
                skip(m)
            } else {
                adv(m)
            },
        ),
        Instr::SetIndex(nnn) => Ok(adv(MachineView { index: nnn, ..m })),
        Instr::JumpPlusV0(nnn) => Ok(
            MachineView { pc: (m.regs[0] + nnn) as u16, ..m },
        ),
        Instr::Random(x, nn) => Ok(
            adv(MachineView { regs: m.regs.update(x as int, rnd & nn), ..m }),
        ),
        Instr::Draw(x, y, n) => {
            if m.index as int + n as int > MEM_SIZE {
                Err(Chip8Error::OutOfBounds)
            } else {
                let rows = m.mem.subrange(m.index as int, m.index as int + n as int);
                let coll = spec_collision(m.disp, rows, m.regs[x as int] as int, m.regs[y as int] as int);
                let flag: u8 = if coll {
                    1
                } else {
                    0
                };
                Ok(
                    adv(
                        MachineView {
                            disp: spec_blit(m.disp, rows, m.regs[x as int] as int, m.regs[y as int] as int),
                            regs: m.regs.update(15, flag),
                            ..m
                        },
                    ),
                )
            }
        },
        Instr::SkipKeyPressed(x) => Ok(
            if key_pressed(m, m.regs[x as int]) {
                skip(m)
            } else {
                adv(m)
            },
        ),
        Instr::SkipKeyNotPressed(x) => Ok(
            if !key_pressed(m, m.regs[x as int]) {
                skip(m)
            } else {
                adv(m)
            },
        ),
        Instr::ReadDelay(x) => Ok(
            adv(MachineView { regs: m.regs.update(x as int, m.delay), ..m }),
        ),
        Instr::WaitKey(x) => Ok(adv(MachineView { blocked: Some(x), ..m })),
        Instr::SetDelay(x) => Ok(adv(MachineView { delay: m.regs[x as int], ..m })),
        Instr::SetSound(x) => Ok(adv(MachineView { sound: m.regs[x as int], ..m })),
        Instr::AddIndex(x) => Ok(
            adv(
                MachineView {
                    index: ((m.index + m.regs[x as int]) % 0x10000) as u16,
                    ..m
                },
            ),
        ),
        Instr::GlyphAddr(x) => Ok(
            adv(MachineView { index: (m.regs[x as int] * 5) as u16, ..m }),
        ),
        Instr::StoreBcd(x) => {
            if m.index as int + 2 >= MEM_SIZE {
                Err(Chip8Error::OutOfBounds)
            } else {
                let vx = m.regs[x as int];
                Ok(
                    adv(
                        MachineView {
                            mem: m.mem.update(m.index as int, vx / 100).update(
                                m.index as int + 1,
                                (vx / 10) % 10,
                            ).update(m.index as int + 2, vx % 10),
                            ..m
                        },
                    ),
                )
            }
        },
        Instr::StoreRegs(x) => {
            if m.index as int + x as int >= MEM_SIZE {
                Err(Chip8Error::OutOfBounds)
            } else {
                Ok(
                    adv(
                        MachineView {
                            mem: Seq::new(
                                MEM_SIZE as nat,
                                |a: int|
                                    if m.index as int <= a <= m.index as int + x as int {
                                        m.regs[a - m.index as int]
                                    } else {
                                        m.mem[a]
                                    },
                            ),
                            ..m
                        },
                    ),
                )
            }
        },
        Instr::LoadRegs(x) => {
            if m.index as int + x as int >= MEM_SIZE {
                Err(Chip8Error::OutOfBounds)
            } else {
                Ok(
                    adv(
                        MachineView {
                            regs: Seq::new(
                                NUM_REGISTERS as nat,
                                |j: int|
                                    if 0 <= j <= x as int {
                                        m.mem[m.index as int + j]
                                    } else {
                                        m.regs[j]
                                    },
                            ),
                            ..m
                        },
                    ),
                )
            }
        },
    }
}

/// One whole step: bounds check, block check, fetch, decode, execute.
/// A fault leaves the state exactly as it was.
pub open spec fn spec_step(m: MachineView, rnd: u8) -> Result<MachineView, Chip8Error> {
    if m.pc as int + 1 >= MEM_SIZE {
        Err(Chip8Error::OutOfBounds)
    } else if m.blocked is Some {
        Ok(m)
    } else {
        let instr = spec_fetch(m);
        match spec_decode(instr) {
            None => Err(Chip8Error::UnsupportedInstruction(instr, m.pc)),
            Some(ins) => spec_execute(m, ins, rnd),
        }
    }
}

/// Whether the step about to run reads the random source; every other step
/// is a function of the state alone.
pub open spec fn randomized(m: MachineView) -> bool {
    &&& m.pc as int + 1 < MEM_SIZE
    &&& m.blocked is None
    &&& spec_decode(spec_fetch(m)) matches Some(Instr::Random(x, nn))
}


/// Field bounds that every decoded instruction satisfies.
pub open spec fn decoded_wf(ins: Instr) -> bool {
    match ins {
        Instr::Nop => true,
        Instr::ClearScreen => true,
        Instr::Return => true,
        Instr::Jump(nnn) => nnn < 0x1000,
        Instr::Call(nnn) => nnn < 0x1000,
        Instr::SkipEqImm(x, nn) => x < 16,
        Instr::SkipNeImm(x, nn) => x < 16,
        Instr::SkipEqReg(x, y) => x < 16 && y < 16,
        Instr::SetImm(x, nn) => x < 16,
        Instr::AddImm(x, nn) => x < 16,
        Instr::CopyReg(x, y) => x < 16 && y < 16,
        Instr::BitOr(x, y) => x < 16 && y < 16,
        Instr::BitAnd(x, y) => x < 16 && y < 16,
        Instr::BitXor(x, y) => x < 16 && y < 16,
        Instr::AddReg(x, y) => x < 16 && y < 16,
        Instr::SubReg(x, y) => x < 16 && y < 16,
        Instr::ShiftRight(x, y) => x < 16 && y < 16,
        Instr::SubFrom(x, y) => x < 16 && y < 16,
        Instr::ShiftLeft(x, y) => x < 16 && y < 16,
        Instr::SkipNeReg(x, y) => x < 16 && y < 16,
        Instr::SetIndex(nnn) => nnn < 0x1000,
        Instr::JumpPlusV0(nnn) => nnn < 0x1000,
        Instr::Random(x, nn) => x < 16,
        Instr::Draw(x, y, n) => x < 16 && y < 16 && n < 16,
        Instr::SkipKeyPressed(x) => x < 16,
        Instr::SkipKeyNotPressed(x) => x < 16,
        Instr::ReadDelay(x) => x < 16,
        Instr::WaitKey(x) => x < 16,
        Instr::SetDelay(x) => x < 16,
        Instr::SetSound(x) => x < 16,
        Instr::AddIndex(x) => x < 16,
        Instr::GlyphAddr(x) => x < 16,
        Instr::StoreBcd(x) => x < 16,
        Instr::StoreRegs(x) => x < 16,
        Instr::LoadRegs(x) => x < 16,
    }
}

/// Executable twin of `spec_decode`.
fn decode(instr: u16) -> (r: Option<Instr>)
    ensures
        r == spec_decode(instr),
        r matches Some(ins) ==> decoded_wf(ins),
{
    let op: u16 = instr / 0x1000;
    let x: u8 = ((instr / 0x100) % 0x10) as u8;
    let y: u8 = ((instr / 0x10) % 0x10) as u8;
    let n: u8 = (instr % 0x10) as u8;
    let nn: u8 = (instr % 0x100) as u8;
    let nnn: u16 = instr % 0x1000;
    if instr == 0x0000 {
        Some(Instr::Nop)
    } else if instr == 0x00E0 {
        Some(Instr::ClearScreen)
    } else if instr == 0x00EE {
        Some(Instr::Return)
    } else if op == 0x1 {
        Some(Instr::Jump(nnn))
    } else if op == 0x2 {
        Some(Instr::Call(nnn))
    } else if op == 0x3 {
        Some(Instr::SkipEqImm(x, nn))
    } else if op == 0x4 {
        Some(Instr::SkipNeImm(x, nn))
    } else if op == 0x5 && n == 0x0 {
        Some(Instr::SkipEqReg(x, y))
    } else if op == 0x6 {
        Some(Instr::SetImm(x, nn))
    } else if op == 0x7 {
        Some(Instr::AddImm(x, nn))
    } else if op == 0x8 && n == 0x0 {
        Some(Instr::CopyReg(x, y))
    } else if op == 0x8 && n == 0x1 {
        Some(Instr::BitOr(x, y))
    } else if op == 0x8 && n == 0x2 {
        Some(Instr::BitAnd(x, y))
    } else if op == 0x8 && n == 0x3 {
        Some(Instr::BitXor(x, y))
    } else if op == 0x8 && n == 0x4 {
        Some(Instr::AddReg(x, y))
    } else if op == 0x8 && n == 0x5 {
        Some(Instr::SubReg(x, y))
    } else if op == 0x8 && n == 0x6 {
        Some(Instr::ShiftRight(x, y))
    } else if op == 0x8 && n == 0x7 {
        Some(Instr::SubFrom(x, y))
    } else if op == 0x8 && n == 0xE {
        Some(Instr::ShiftLeft(x, y))
    } else if op == 0x9 && n == 0x0 {
        Some(Instr::SkipNeReg(x, y))
    } else if op == 0xA {
        Some(Instr::SetIndex(nnn))
    } else if op == 0xB {
        Some(Instr::JumpPlusV0(nnn))
    } else if op == 0xC {
        Some(Instr::Random(x, nn))
    } else if op == 0xD {
        Some(Instr::Draw(x, y, n))
    } else if op == 0xE && nn == 0x9E {
        Some(Instr::SkipKeyPressed(x))
    } else if op == 0xE && nn == 0xA1 {
        Some(Instr::SkipKeyNotPressed(x))
    } else if op == 0xF && nn == 0x07 {
        Some(Instr::ReadDelay(x))
    } else if op == 0xF && nn == 0x0A {
        Some(Instr::WaitKey(x))
    } else if op == 0xF && nn == 0x15 {
        Some(Instr::SetDelay(x))
    } else if op == 0xF && nn == 0x18 {
        Some(Instr::SetSound(x))
    } else if op == 0xF && nn == 0x1E {
        Some(Instr::AddIndex(x))
    } else if op == 0xF && nn == 0x29 {
        Some(Instr::GlyphAddr(x))
    } else if op == 0xF && nn == 0x33 {
        Some(Instr::StoreBcd(x))
    } else if op == 0xF && nn == 0x55 {
        Some(Instr::StoreRegs(x))
    } else if op == 0xF && nn == 0x65 {
        Some(Instr::LoadRegs(x))
    } else {
        None
    }
}

/// Relies on rand::random: one byte drawn from the thread-local generator.
/// Nothing is assumed of the value; every caller must be correct for every
/// possible byte.
#[verifier::external_body]
fn random_byte() -> u8 {
    rand::random::<u8>()
}

/// Registers, call stack, program counter and index register, together
/// with the fetch-decode-execute step that drives the lent collaborators.
pub struct Cpu {
    vx: Vec<u8>,
    pc: u16,
    index: u16,
    stack: Vec<u16>,
}

/// The mathematical state of the whole machine a step acts on.
pub open spec fn machine_view(
    cpu: Cpu,
    ram: Ram,
    display: Display,
    input: InputLatch,
    timers: TimerPair,
) -> MachineView {
    MachineView {
        regs: cpu.spec_regs(),
        pc: cpu.spec_pc(),
        index: cpu.spec_index(),
        stack: cpu.spec_stack(),
        mem: ram@,
        disp: display@,
        keys: input.spec_keys(),
        blocked: input.spec_blocked(),
        delay: timers.spec_delay(),
        sound: timers.spec_sound(),
    }
}

impl Cpu {
    /// The sixteen registers.
    pub closed spec fn spec_regs(&self) -> Seq<u8> {
        self.vx@
    }

    /// The program counter.
    pub closed spec fn spec_pc(&self) -> u16 {
        self.pc
    }

    /// The index register.
    pub closed spec fn spec_index(&self) -> u16 {
        self.index
    }

    /// The call stack, newest return address last.
    pub closed spec fn spec_stack(&self) -> Seq<u16> {
        self.stack@
    }

    pub open spec fn wf(&self) -> bool {
        self.spec_regs().len() == NUM_REGISTERS
    }

    /// A fresh processor: registers and index zero, empty stack, program
    /// counter at the start of the loadable region.
    pub fn new() -> (r: Cpu)
        ensures
            r.wf(),
            r.spec_pc() == 0x200,
            r.spec_index() == 0,
            r.spec_stack() == Seq::<u16>::empty(),
            forall|k: int| 0 <= k < NUM_REGISTERS ==> r.spec_regs()[k] == 0,
    {
        let mut vx: Vec<u8> = Vec::new();
        while vx.len() < NUM_REGISTERS
            invariant
                vx@.len() <= NUM_REGISTERS,
                forall|k: int| 0 <= k < vx@.len() ==> vx@[k] == 0,
            decreases NUM_REGISTERS - vx@.len(),
        {
            vx.push(0);
        }
        Cpu { vx, pc: 0x200, index: 0, stack: Vec::new() }
    }

    /// The value of register `x`.
    pub fn register(&self, x: u8) -> (v: u8)
        requires
            self.wf(),
            x < NUM_REGISTERS,
        ensures
            v == self.spec_regs()[x as int],
    {
        self.vx[x as usize]
    }

    /// Stores `v` into register `x`; nothing else moves.
    pub fn write_register(&mut self, x: u8, v: u8)
        requires
            old(self).wf(),
            x < NUM_REGISTERS,
        ensures
            final(self).wf(),
            final(self).spec_regs() == old(self).spec_regs().update(x as int, v),
            final(self).spec_pc() == old(self).spec_pc(),
            final(self).spec_index() == old(self).spec_index(),
            final(self).spec_stack() == old(self).spec_stack(),
    {
        self.vx.set(x as usize, v);
    }

    /// The current program counter.
    pub fn program_counter(&self) -> (p: u16)
        ensures
            p == self.spec_pc(),
    {
        self.pc
    }

    /// The current index register.
    pub fn index_register(&self) -> (v: u16)
        ensures
            v == self.spec_index(),
    {
        self.index
    }

    /// How many return addresses the call stack holds.
    pub fn stack_depth(&self) -> (d: usize)
        ensures
            d == self.spec_stack().len(),
    {
        self.stack.len()
    }

    /// One fetch-decode-execute step over the lent collaborators. The
    /// whole effect is `spec_step` of the machine state for some byte of
    /// the random source; every step but the random-mask instruction is
    /// the function of the state alone given by `spec_step` at byte zero.
    /// A fault leaves the machine exactly as it was.
    #[verifier::rlimit(100)]
    pub fn tick(
        &mut self,
        ram: &mut Ram,
        display: &mut Display,
        input: &mut InputLatch,
        timers: &mut TimerPair,
    ) -> (r: Result<(), Chip8Error>)
        requires
            old(self).wf(),
            old(ram).wf(),
            old(display).wf(),
            old(input).wf(),
        ensures
            final(self).wf(),
            final(ram).wf(),
            final(display).wf(),
            final(input).wf(),
            ({
                let pre = machine_view(
                    *old(self),
                    *old(ram),
                    *old(display),
                    *old(input),
                    *old(timers),
                );
                let post = machine_view(
                    *final(self),
                    *final(ram),
                    *final(display),
                    *final(input),
                    *final(timers),
                );
                &&& match r {
                    Ok(_) => exists|rnd: u8|
                        spec_step(pre, rnd) == Ok::<MachineView, Chip8Error>(post),
                    Err(e) => spec_step(pre, 0) == Err::<MachineView, Chip8Error>(e) && post
                        == pre,
                }
                &&& (!randomized(pre) && r is Ok ==> spec_step(pre, 0) == Ok::<
                    MachineView,
                    Chip8Error,
                >(post))
            }),
    {
        let ghost pre = machine_view(*self, *ram, *display, *input, *timers);
        if self.pc >= (MEM_SIZE - 1) as u16 {
            return Err(Chip8Error::OutOfBounds);
        }
        if input.is_blocked() {
            proof {
                assert(spec_step(pre, 0) == Ok::<MachineView, Chip8Error>(pre));
            }
            return Ok(());
        }
        let hi = ram.read_byte(self.pc);
        let lo = ram.read_byte(self.pc + 1);
        let instr: u16 = (hi as u16) * 256 + (lo as u16);
        proof {
            assert(instr == spec_fetch(pre));
        }
        let decoded = decode(instr);
        match decoded {
            None => {
                return Err(Chip8Error::UnsupportedInstruction(instr, self.pc));
            },
            Some(ins) => {
                let res = self.execute_ins(ram, display, input, timers, ins);
                proof {
                    let post = machine_view(*self, *ram, *display, *input, *timers);
                    if res is Ok {
                        let w = choose|rnd: u8|
                            spec_execute(pre, ins, rnd) == Ok::<MachineView, Chip8Error>(post);
                        assert(spec_step(pre, w) == Ok::<MachineView, Chip8Error>(post));
                    }
                }
                return res;
            },
        }
    }

    /// The per-variant handlers: executes one decoded instruction.
    #[verifier::rlimit(100)]
    fn execute_ins(
        &mut self,
        ram: &mut Ram,
        display: &mut Display,
        input: &mut InputLatch,
        timers: &mut TimerPair,
        ins: Instr,
    ) -> (r: Result<(), Chip8Error>)
        requires
            old(self).wf(),
            old(ram).wf(),
            old(display).wf(),
            old(input).wf(),
            decoded_wf(ins),
            old(self).spec_pc() as int + 1 < MEM_SIZE,
        ensures
            final(self).wf(),
            final(ram).wf(),
            final(display).wf(),
            final(input).wf(),
            ({
                let pre = machine_view(
                    *old(self),
                    *old(ram),
                    *old(display),
                    *old(input),
                    *old(timers),
                );
                let post = machine_view(
                    *final(self),
                    *final(ram),
                    *final(display),
                    *final(input),
                    *final(timers),
                );
                &&& match r {
                    Ok(_) => exists|rnd: u8|
                        spec_execute(pre, ins, rnd) == Ok::<MachineView, Chip8Error>(post),
                    Err(e) => spec_execute(pre, ins, 0) == Err::<MachineView, Chip8Error>(e)
                        && post == pre,
                }
                &&& (!(ins is Random) && r is Ok ==> spec_execute(pre, ins, 0) == Ok::<
                    MachineView,
                    Chip8Error,
                >(post))
            }),
    {
        let ghost pre = machine_view(*self, *ram, *display, *input, *timers);
        match ins {

            Instr::Nop => {
                self.pc = self.pc + 2;
                proof {
                    assert(spec_execute(pre, ins, 0) == Ok::<MachineView, Chip8Error>(
                        machine_view(*self, *ram, *display, *input, *timers),
                    ));
                }
                return Ok(());
            },
            Instr::ClearScreen => {
                display.clear();
                self.pc = self.pc + 2;
                proof {
                    assert(display@ =~= blank_display());
                    assert(spec_execute(pre, ins, 0) == Ok::<MachineView, Chip8Error>(
                        machine_view(*self, *ram, *display, *input, *timers),
                    ));
                }
                return Ok(());
            },
            Instr::Return => {
                if self.stack.len() == 0 {
                    return Err(Chip8Error::StackUnderflow(self.pc));
                }
                let t = self.stack.pop().unwrap();
                self.pc = t;
                proof {
                    assert(spec_execute(pre, ins, 0) == Ok::<MachineView, Chip8Error>(
                        machine_view(*self, *ram, *display, *input, *timers),
                    ));
                }
                return Ok(());
            },
            Instr::Jump(nnn) => {
                self.pc = nnn;
                proof {
                    assert(spec_execute(pre, ins, 0) == Ok::<MachineView, Chip8Error>(
                        machine_view(*self, *ram, *display, *input, *timers),
                    ));
                }
                return Ok(());
            },
            Instr::Call(nnn) => {
                self.stack.push(self.pc);
                self.pc = nnn;
                proof {
                    assert(spec_execute(pre, ins, 0) == Ok::<MachineView, Chip8Error>(
                        machine_view(*self, *ram, *display, *input, *timers),
                    ));
                }
                return Ok(());
            },
            Instr::SkipEqImm(x, nn) => {
                let vx = self.register(x);
                self.pc = if vx == nn {
                    self.pc + 4
                } else {
                    self.pc + 2
                };
                proof {
                    assert(spec_execute(pre, ins, 0) == Ok::<MachineView, Chip8Error>(
                        machine_view(*self, *ram, *display, *input, *timers),
                    ));
                }
                return Ok(());
            },
            Instr::SkipNeImm(x, nn) => {
                let vx = self.register(x);
                self.pc = if vx != nn {
                    self.pc + 4
                } else {
                    self.pc + 2
                };
                proof {
                    assert(spec_execute(pre, ins, 0) == Ok::<MachineView, Chip8Error>(
                        machine_view(*self, *ram, *display, *input, *timers),
                    ));
                }
                return Ok(());
            },
            Instr::SkipEqReg(x, y) => {
                let vx = self.register(x);
                let vy = self.register(y);
                self.pc = if vx == vy {
                    self.pc + 4
                } else {
                    self.pc + 2
                };
                proof {
                    assert(spec_execute(pre, ins, 0) == Ok::<MachineView, Chip8Error>(
                        machine_view(*self, *ram, *display, *input, *timers),
                    ));
                }
                return Ok(());
            },
            Instr::SetImm(x, nn) => {
                self.write_register(x, nn);
                self.pc = self.pc + 2;
                proof {
                    assert(spec_execute(pre, ins, 0) == Ok::<MachineView, Chip8Error>(
                        machine_view(*self, *ram, *display, *input, *timers),
                    ));
                }
                return Ok(());
            },
            Instr::AddImm(x, nn) => {
                let vx = self.register(x);
                let total: u16 = vx as u16 + nn as u16;
                self.write_register(x, (total % 256) as u8);
                self.pc = self.pc + 2;
                proof {
                    assert(spec_execute(pre, ins, 0) == Ok::<MachineView, Chip8Error>(
                        machine_view(*self, *ram, *display, *input, *timers),
                    ));
                }
                return Ok(());
            },
            Instr::CopyReg(x, y) => {
                let vy = self.register(y);
                self.write_register(x, vy);
                self.pc = self.pc + 2;
                proof {
                    assert(spec_execute(pre, ins, 0) == Ok::<MachineView, Chip8Error>(
                        machine_view(*self, *ram, *display, *input, *timers),
                    ));
                }
                return Ok(());
            },
            Instr::BitOr(x, y) => {
                let vx = self.register(x);
                let vy = self.register(y);
                self.write_register(x, vx | vy);
                self.pc = self.pc + 2;
                proof {
                    assert(spec_execute(pre, ins, 0) == Ok::<MachineView, Chip8Error>(
                        machine_view(*self, *ram, *display, *input, *timers),
                    ));
                }
                return Ok(());
            },
            Instr::BitAnd(x, y) => {
                let vx = self.register(x);
                let vy = self.register(y);
                self.write_register(x, vx & vy);
                self.pc = self.pc + 2;
                proof {
                    assert(spec_execute(pre, ins, 0) == Ok::<MachineView, Chip8Error>(
                        machine_view(*self, *ram, *display, *input, *timers),
                    ));
                }
                return Ok(());
            },
            Instr::BitXor(x, y) => {
                let vx = self.register(x);
                let vy = self.register(y);
                self.write_register(x, vx ^ vy);
                self.pc = self.pc + 2;
                proof {
                    assert(spec_execute(pre, ins, 0) == Ok::<MachineView, Chip8Error>(
                        machine_view(*self, *ram, *display, *input, *timers),
                    ));
                }
                return Ok(());
            },
            Instr::AddReg(x, y) => {
                let vx = self.register(x);
                let vy = self.register(y);
                let total: u16 = vx as u16 + vy as u16;
                self.write_register(x, (total % 256) as u8);
                self.write_register(15, if total > 255 { 1 } else { 0 });
                self.pc = self.pc + 2;
                proof {
                    assert(spec_execute(pre, ins, 0) == Ok::<MachineView, Chip8Error>(
                        machine_view(*self, *ram, *display, *input, *timers),
                    ));
                }
                return Ok(());
            },
            Instr::SubReg(x, y) => {
                let vx = self.register(x);
                let vy = self.register(y);
                self.write_register(15, if vx > vy { 1 } else { 0 });
                let diff: u16 = (vx as u16 + 256) - vy as u16;
                self.write_register(x, (diff % 256) as u8);
                self.pc = self.pc + 2;
                proof {
                    assert((diff % 256) as u8 == ((pre.regs[x as int] - pre.regs[y as int]) % 256) as u8);
                    assert(spec_execute(pre, ins, 0) == Ok::<MachineView, Chip8Error>(
                        machine_view(*self, *ram, *display, *input, *timers),
                    ));
                }
                return Ok(());
            },
            Instr::ShiftRight(x, y) => {
                let vy = self.register(y);
                self.write_register(15, vy % 2);
                self.write_register(x, vy / 2);
                self.pc = self.pc + 2;
                proof {
                    assert(spec_execute(pre, ins, 0) == Ok::<MachineView, Chip8Error>(
                        machine_view(*self, *ram, *display, *input, *timers),
                    ));
                }
                return Ok(());
            },
            Instr::SubFrom(x, y) => {
                let vx = self.register(x);
                let vy = self.register(y);
                self.write_register(15, if vy > vx { 1 } else { 0 });
                let diff: u16 = (vy as u16 + 256) - vx as u16;
                self.write_register(x, (diff % 256) as u8);
                self.pc = self.pc + 2;
                proof {
                    assert((diff % 256) as u8 == ((pre.regs[y as int] - pre.regs[x as int]) % 256) as u8);
                    assert(spec_execute(pre, ins, 0) == Ok::<MachineView, Chip8Error>(
                        machine_view(*self, *ram, *display, *input, *timers),
                    ));
                }
                return Ok(());
            },
            Instr::ShiftLeft(x, y) => {
                let vy = self.register(y);
                self.write_register(15, vy / 128);
                let doubled: u16 = vy as u16 * 2;
                self.write_register(x, (doubled % 256) as u8);
                self.pc = self.pc + 2;
                proof {
                    assert(spec_execute(pre, ins, 0) == Ok::<MachineView, Chip8Error>(
                        machine_view(*self, *ram, *display, *input, *timers),
                    ));
                }
                return Ok(());
            },
            Instr::SkipNeReg(x, y) => {
                let vx = self.register(x);
                let vy = self.register(y);
                self.pc = if vx != vy {
                    self.pc + 4
                } else {
                    self.pc + 2
                };
                proof {
                    assert(spec_execute(pre, ins, 0) == Ok::<MachineView, Chip8Error>(
                        machine_view(*self, *ram, *display, *input, *timers),
                    ));
                }
                return Ok(());
            },
            Instr::SetIndex(nnn) => {
                self.index = nnn;
                self.pc = self.pc + 2;
                proof {
                    assert(spec_execute(pre, ins, 0) == Ok::<MachineView, Chip8Error>(
                        machine_view(*self, *ram, *display, *input, *timers),
                    ));
                }
                return Ok(());
            },
            Instr::JumpPlusV0(nnn) => {
                let v0 = self.register(0);
                self.pc = v0 as u16 + nnn;
                proof {
                    assert(spec_execute(pre, ins, 0) == Ok::<MachineView, Chip8Error>(
                        machine_view(*self, *ram, *display, *input, *timers),
                    ));
                }
                return Ok(());
            },
            Instr::Random(x, nn) => {
                let rnd = random_byte();
                self.write_register(x, rnd & nn);
                self.pc = self.pc + 2;
                proof {
                    assert(spec_execute(pre, ins, rnd) == Ok::<MachineView, Chip8Error>(
                        machine_view(*self, *ram, *display, *input, *timers),
                    ));
                }
                return Ok(());
            },
            Instr::Draw(x, y, n) => {
                if self.index as usize + n as usize > MEM_SIZE {
                    return Err(Chip8Error::OutOfBounds);
                }
                let base = self.index;
                let mut rows_v: Vec<u8> = Vec::new();
                let mut j: usize = 0;
                while j < n as usize
                    invariant
                        j <= n as usize,
                        n < 16,
                        base as int + n as int <= MEM_SIZE,
                        ram.wf(),
                        ram@ == pre.mem,
                        rows_v@ == pre.mem.subrange(base as int, base as int + j as int),
                    decreases n as int - j as int,
                {
                    let b = ram.read_byte(base + j as u16);
                    rows_v.push(b);
                    proof {
                        assert(pre.mem.subrange(base as int, base as int + j as int + 1)
                            =~= pre.mem.subrange(base as int, base as int + j as int).push(
                            pre.mem[base as int + j as int],
                        ));
                    }
                    j = j + 1;
                }
                let vx = self.register(x);
                let vy = self.register(y);
                let coll = display.display_sprite(rows_v.as_slice(), vx as u16, vy as u16);
                self.write_register(15, if coll { 1 } else { 0 });
                self.pc = self.pc + 2;
                proof {
                    assert(spec_execute(pre, ins, 0) == Ok::<MachineView, Chip8Error>(
                        machine_view(*self, *ram, *display, *input, *timers),
                    ));
                }
                return Ok(());
            },
            Instr::SkipKeyPressed(x) => {
                let vx = self.register(x);
                let pressed = if vx < (NUM_KEYS as u8) {
                    input.is_pressed(vx)
                } else {
                    false
                };
                self.pc = if pressed {
                    self.pc + 4
                } else {
                    self.pc + 2
                };
                proof {
                    assert(spec_execute(pre, ins, 0) == Ok::<MachineView, Chip8Error>(
                        machine_view(*self, *ram, *display, *input, *timers),
                    ));
                }
                return Ok(());
            },
            Instr::SkipKeyNotPressed(x) => {
                let vx = self.register(x);
                let pressed = if vx < (NUM_KEYS as u8) {
                    input.is_pressed(vx)
                } else {
                    false
                };
                self.pc = if !pressed {
                    self.pc + 4
                } else {
                    self.pc + 2
                };
                proof {
                    assert(spec_execute(pre, ins, 0) == Ok::<MachineView, Chip8Error>(
                        machine_view(*self, *ram, *display, *input, *timers),
                    ));
                }
                return Ok(());
            },
            Instr::ReadDelay(x) => {
                let d = timers.get_delay();
                self.write_register(x, d);
                self.pc = self.pc + 2;
                proof {
                    assert(spec_execute(pre, ins, 0) == Ok::<MachineView, Chip8Error>(
                        machine_view(*self, *ram, *display, *input, *timers),
                    ));
                }
                return Ok(());
            },
            Instr::WaitKey(x) => {
                input.block(x);
                self.pc = self.pc + 2;
                proof {
                    assert(spec_execute(pre, ins, 0) == Ok::<MachineView, Chip8Error>(
                        machine_view(*self, *ram, *display, *input, *timers),
                    ));
                }
                return Ok(());
            },
            Instr::SetDelay(x) => {
                let vx = self.register(x);
                timers.set_delay(vx);
                self.pc = self.pc + 2;
                proof {
                    assert(spec_execute(pre, ins, 0) == Ok::<MachineView, Chip8Error>(
                        machine_view(*self, *ram, *display, *input, *timers),
                    ));
                }
                return Ok(());
            },
            Instr::SetSound(x) => {
                let vx = self.register(x);
                timers.set_sound(vx);
                self.pc = self.pc + 2;
                proof {
                    assert(spec_execute(pre, ins, 0) == Ok::<MachineView, Chip8Error>(
                        machine_view(*self, *ram, *display, *input, *timers),
                    ));
                }
                return Ok(());
            },
            Instr::AddIndex(x) => {
                let vx = self.register(x);
                self.index = ((self.index as u32 + vx as u32) % 0x10000) as u16;
                self.pc = self.pc + 2;
                proof {
                    assert(spec_execute(pre, ins, 0) == Ok::<MachineView, Chip8Error>(
                        machine_view(*self, *ram, *display, *input, *timers),
                    ));
                }
                return Ok(());
            },
            Instr::GlyphAddr(x) => {
                let vx = self.register(x);
                self.index = vx as u16 * 5;
                self.pc = self.pc + 2;
                proof {
                    assert(spec_execute(pre, ins, 0) == Ok::<MachineView, Chip8Error>(
                        machine_view(*self, *ram, *display, *input, *timers),
                    ));
                }
                return Ok(());
            },
            Instr::StoreBcd(x) => {
                if self.index as usize + 2 >= MEM_SIZE {
                    return Err(Chip8Error::OutOfBounds);
                }
                let vx = self.register(x);
                ram.write_byte(self.index, vx / 100);
                ram.write_byte(self.index + 1, (vx / 10) % 10);
                ram.write_byte(self.index + 2, vx % 10);
                self.pc = self.pc + 2;
                proof {
                    assert(spec_execute(pre, ins, 0) == Ok::<MachineView, Chip8Error>(
                        machine_view(*self, *ram, *display, *input, *timers),
                    ));
                }
                return Ok(());
            },
            Instr::StoreRegs(x) => {
                if self.index as usize + x as usize >= MEM_SIZE {
                    return Err(Chip8Error::OutOfBounds);
                }
                let base = self.index;
                let mut j: u8 = 0;
                while j <= x
                    invariant
                        j <= x + 1,
                        x < 16,
                        base == pre.index,
                        base as int + x as int + 1 <= MEM_SIZE,
                        self.wf(),
                        ram.wf(),
                        self.spec_regs() == pre.regs,
                        pre.mem.len() == MEM_SIZE,
                        forall|a: int|
                            base as int <= a < base as int + j as int ==> ram@[a]
                                == pre.regs[a - base as int],
                        forall|a: int|
                            0 <= a < MEM_SIZE && !(base as int <= a < base as int
                                + j as int) ==> ram@[a] == pre.mem[a],
                    decreases x as int + 1 - j as int,
                {
                    let v = self.register(j);
                    ram.write_byte(base + j as u16, v);
                    j = j + 1;
                }
                self.pc = self.pc + 2;
                proof {
                    assert(ram@ =~= Seq::new(
                        MEM_SIZE as nat,
                        |a: int|
                            if base as int <= a <= base as int + x as int {
                                pre.regs[a - base as int]
                            } else {
                                pre.mem[a]
                            },
                    ));
                    assert(spec_execute(pre, ins, 0) == Ok::<MachineView, Chip8Error>(
                        machine_view(*self, *ram, *display, *input, *timers),
                    ));
                }
                return Ok(());
            },
            Instr::LoadRegs(x) => {
                if self.index as usize + x as usize >= MEM_SIZE {
                    return Err(Chip8Error::OutOfBounds);
                }
                let base = self.index;
                let mut j: u8 = 0;
                while j <= x
                    invariant
                        j <= x + 1,
                        x < 16,
                        base == pre.index,
                        base as int + x as int + 1 <= MEM_SIZE,
                        self.wf(),
                        ram.wf(),
                        ram@ == pre.mem,
                        self.spec_pc() == pre.pc,
                        self.spec_index() == pre.index,
                        self.spec_stack() == pre.stack,
                        pre.regs.len() == NUM_REGISTERS,
                        forall|t: int|
                            0 <= t < j as int ==> self.spec_regs()[t] == pre.mem[base as int
                                + t],
                        forall|t: int|
                            j as int <= t < NUM_REGISTERS ==> self.spec_regs()[t]
                                == pre.regs[t],
                    decreases x as int + 1 - j as int,
                {
                    let v = ram.read_byte(base + j as u16);
                    self.write_register(j, v);
                    j = j + 1;
                }
                self.pc = self.pc + 2;
                proof {
                    assert(self.spec_regs() =~= Seq::new(
                        NUM_REGISTERS as nat,
                        |t: int|
                            if 0 <= t <= x as int {
                                pre.mem[base as int + t]
                            } else {
                                pre.regs[t]
                            },
                    ));
                    assert(spec_execute(pre, ins, 0) == Ok::<MachineView, Chip8Error>(
                        machine_view(*self, *ram, *display, *input, *timers),
                    ));
                }
                return Ok(());
            },
        }
    }

}


/// While blocked on input a step is a no-op: the machine, program counter
/// included, stays exactly as it was; only an external key press moves it.
pub proof fn lemma_blocked_step(m: MachineView, rnd: u8)
    requires
        m.blocked is Some,
        m.pc as int + 1 < MEM_SIZE,
    ensures
        spec_step(m, rnd) == Ok::<MachineView, Chip8Error>(m),
{
}

/// Adding an immediate wraps modulo 256, for every register and every
/// addend, and leaves every other register alone.
pub proof fn lemma_add_imm_wraps(m: MachineView, rnd: u8, x: u8, nn: u8)
    requires
        wf_view(m),
        m.pc as int + 1 < MEM_SIZE,
        m.blocked is None,
        spec_decode(spec_fetch(m)) == Some(Instr::AddImm(x, nn)),
    ensures
        spec_step(m, rnd) matches Ok(m2) && m2.regs == m.regs.update(
            x as int,
            ((m.regs[x as int] + nn) % 256) as u8,
        ),
{
}

/// The register add stores the sum wrapped modulo 256 and sets the flag
/// register to one exactly when the unwrapped sum exceeds 255, else to
/// zero, for every pair of operand values.
pub proof fn lemma_add_reg_carry(m: MachineView, rnd: u8, x: u8, y: u8)
    requires
        wf_view(m),
        m.pc as int + 1 < MEM_SIZE,
        m.blocked is None,
        spec_decode(spec_fetch(m)) == Some(Instr::AddReg(x, y)),
    ensures
        spec_step(m, rnd) matches Ok(m2) && (m2.regs[15] == 1 <==> m.regs[x as int]
            + m.regs[y as int] > 255) && (m2.regs[15] == 1 || m2.regs[15] == 0) && (x != 15
            ==> m2.regs[x as int] == ((m.regs[x as int] + m.regs[y as int]) % 256) as u8),
{
}

/// The register subtract sets the flag register to one exactly when
/// `VX > VY` before the subtraction, else to zero, and stores the
/// difference wrapped modulo 256 (so a larger `VY` wraps around). When the
/// flag register is itself the target, the difference overwrites the flag.
pub proof fn lemma_sub_reg_borrow(m: MachineView, rnd: u8, x: u8, y: u8)
    requires
        wf_view(m),
        m.pc as int + 1 < MEM_SIZE,
        m.blocked is None,
        spec_decode(spec_fetch(m)) == Some(Instr::SubReg(x, y)),
    ensures
        spec_step(m, rnd) matches Ok(m2) && m2.regs[x as int] == ((m.regs[x as int]
            - m.regs[y as int]) % 256) as u8 && (x != 15 ==> (m2.regs[15] == 1 <==> m.regs[
            x as int] > m.regs[y as int])),
{
}

/// The decimal store writes the hundreds, tens and ones digits of `VX` at
/// `I`, `I + 1` and `I + 2`, for every register value.
pub proof fn lemma_bcd_digits(m: MachineView, rnd: u8, x: u8)
    requires
        wf_view(m),
        m.pc as int + 1 < MEM_SIZE,
        m.blocked is None,
        m.index as int + 2 < MEM_SIZE,
        spec_decode(spec_fetch(m)) == Some(Instr::StoreBcd(x)),
    ensures
        spec_step(m, rnd) matches Ok(m2) && m2.mem[m.index as int] == m.regs[x as int] / 100
            && m2.mem[m.index as int + 1] == (m.regs[x as int] / 10) % 10 && m2.mem[
            m.index as int + 2] == m.regs[x as int] % 10,
{
}

/// A return on an empty call stack faults with a stack underflow carrying
/// the offending program counter, and moves nothing.
pub proof fn lemma_return_underflow(m: MachineView, rnd: u8)
    requires
        m.pc as int + 1 < MEM_SIZE,
        m.blocked is None,
        m.stack.len() == 0,
        spec_decode(spec_fetch(m)) == Some(Instr::Return),
    ensures
        spec_step(m, rnd) == Err::<MachineView, Chip8Error>(Chip8Error::StackUnderflow(m.pc)),
{
}

/// One machine step from `pre` to `post` that executes a subroutine call.
pub open spec fn is_call_step(pre: MachineView, post: MachineView) -> bool {
    &&& pre.blocked is None
    &&& spec_decode(spec_fetch(pre)) matches Some(Instr::Call(_))
    &&& spec_step(pre, 0) == Ok::<MachineView, Chip8Error>(post)
}

/// One machine step from `pre` to `post` that executes a subroutine
/// return.
pub open spec fn is_return_step(pre: MachineView, post: MachineView) -> bool {
    &&& pre.blocked is None
    &&& spec_decode(spec_fetch(pre)) matches Some(Instr::Return)
    &&& spec_step(pre, 0) == Ok::<MachineView, Chip8Error>(post)
}

/// What a call step does to the program counter and the stack.
pub proof fn lemma_call_step_facts(pre: MachineView, post: MachineView)
    requires
        is_call_step(pre, post),
    ensures
        post.stack == pre.stack.push(pre.pc),
{
}

/// What a return step does: it pops the newest return address into the
/// program counter, so the stack cannot have been empty.
pub proof fn lemma_return_step_facts(pre: MachineView, post: MachineView)
    requires
        is_return_step(pre, post),
    ensures
        pre.stack.len() > 0,
        post.pc == pre.stack.last(),
        post.stack == pre.stack.drop_last(),
{
}

/// Stack discipline: a run of `n` nested calls followed by `n` returns
/// restores the program counter and the call stack exactly, each return
/// resolving to its matching call in reverse order.
#[verifier::rlimit(100)]
pub proof fn lemma_calls_then_returns_restore(trace: Seq<MachineView>, n: int)
    requires
        0 <= n,
        trace.len() == 2 * n + 1,
        forall|k: int| 0 <= k < n ==> #[trigger] is_call_step(trace[k], trace[k + 1]),
        forall|k: int| n <= k < 2 * n ==> #[trigger] is_return_step(trace[k], trace[k + 1]),
    ensures
        trace[2 * n].pc == trace[0].pc,
        trace[2 * n].stack == trace[0].stack,
    decreases n,
{
    if n > 0 {
        let inner = trace.subrange(1, 2 * n);
        assert forall|k: int| 0 <= k < n - 1 implies #[trigger] is_call_step(
            inner[k],
            inner[k + 1],
        ) by {
            let a = k + 1;
            assert(0 <= a < n);
            assert(is_call_step(trace[a], trace[a + 1]));
            assert(inner[k] == trace[a] && inner[k + 1] == trace[a + 1]);
        }
        assert forall|k: int| n - 1 <= k < 2 * (n - 1) implies #[trigger] is_return_step(
            inner[k],
            inner[k + 1],
        ) by {
            let a = k + 1;
            assert(n <= a < 2 * n);
            assert(is_return_step(trace[a], trace[a + 1]));
            assert(inner[k] == trace[a] && inner[k + 1] == trace[a + 1]);
        }
        lemma_calls_then_returns_restore(inner, n - 1);
        assert(inner[2 * (n - 1)] == trace[2 * n - 1] && inner[0] == trace[1]);
        let z: int = 0;
        assert(is_call_step(trace[z], trace[z + 1]));
        lemma_call_step_facts(trace[0], trace[1]);
        let last = 2 * n - 1;
        assert(is_return_step(trace[last], trace[last + 1]));
        lemma_return_step_facts(trace[last], trace[last + 1]);
        assert(trace[2 * n].stack =~= trace[0].stack);
    }
}

} // verus!
