use vstd::prelude::*;

use crate::cpu::{Cpu, MachineView, NUM_REGISTERS, machine_view, randomized, spec_step, wf_view};
use crate::display::{Display, HEIGHT, PIXELS, WIDTH};
use crate::errors::Chip8Error;
use crate::input::{InputLatch, NUM_KEYS};
use crate::ram::{GLYPH_TABLE_LEN, MEM_SIZE, PROGRAM_START, Ram, glyph_byte};
use crate::timers::TimerPair;

verus! {

/// Instruction steps per timer decrement: the driver's clock divider.
pub const CLOCK_RATIO: u8 = 8;

/// One whole machine: the processor plus the four collaborators it is lent
/// on every step, and the clock divider that slows the timers down to a
/// sub-rate of the instruction clock.
pub struct Chip8 {
    cpu: Cpu,
    ram: Ram,
    display: Display,
    input: InputLatch,
    timers: TimerPair,
    divider: u8,
}

/// The clock-divider phase of one driver step: on every `CLOCK_RATIO`-th
/// step both timers count down once; in between only the divider moves.
pub open spec fn spec_advance_clock(m: MachineView, divider: u8) -> (MachineView, u8) {
    if divider == 1 {
        (
            MachineView {
                delay: TimerPair::ticked(m.delay),
                sound: TimerPair::ticked(m.sound),
                ..m
            },
            CLOCK_RATIO,
        )
    } else {
        (m, (divider - 1) as u8)
    }
}

impl Chip8 {
    /// The machine's state as one mathematical value.
    pub closed spec fn mview(&self) -> MachineView {
        machine_view(self.cpu, self.ram, self.display, self.input, self.timers)
    }

    /// Steps left until the next timer decrement.
    pub closed spec fn spec_divider(&self) -> u8 {
        self.divider
    }

    pub open spec fn wf(&self) -> bool {
        &&& wf_view(self.mview())
        &&& 1 <= self.spec_divider() <= CLOCK_RATIO
    }

    /// A fresh machine: glyphs in low memory, everything else zeroed, the
    /// program counter at the start of the loadable region.
    pub fn new() -> (r: Chip8)
        ensures
            r.wf(),
            r.spec_divider() == CLOCK_RATIO,
            r.mview().pc == 0x200,
            r.mview().index == 0,
            r.mview().stack == Seq::<u16>::empty(),
            forall|k: int| 0 <= k < NUM_REGISTERS ==> r.mview().regs[k] == 0,
            forall|k: int| 0 <= k < GLYPH_TABLE_LEN ==> r.mview().mem[k] == glyph_byte(k),
            forall|a: int| GLYPH_TABLE_LEN <= a < MEM_SIZE ==> r.mview().mem[a] == 0,
            forall|p: int| 0 <= p < PIXELS ==> !r.mview().disp[p],
            forall|k: int| 0 <= k < NUM_KEYS ==> !r.mview().keys[k],
            r.mview().blocked is None,
            r.mview().delay == 0,
            r.mview().sound == 0,
    {
        Chip8 {
            cpu: Cpu::new(),
            ram: Ram::new(),
            display: Display::new(),
            input: InputLatch::new(),
            timers: TimerPair::new(),
            divider: CLOCK_RATIO,
        }
    }

    /// Copies a program into memory starting at `PROGRAM_START`. A program
    /// that does not fit above the reserved region is refused whole, and
    /// nothing moves.
    pub fn load_rom(&mut self, data: &Vec<u8>) -> (r: Result<(), Chip8Error>)
        requires
            old(self).wf(),
        ensures
            final(self).wf(),
            data@.len() > MEM_SIZE - PROGRAM_START ==> r == Err::<(), Chip8Error>(
                Chip8Error::RomTooLarge,
            ) && final(self).mview() == old(self).mview() && final(self).spec_divider() == old(
                self,
            ).spec_divider(),
            data@.len() <= MEM_SIZE - PROGRAM_START ==> r is Ok && final(self).mview()
                == (MachineView {
                mem: Seq::new(
                    MEM_SIZE as nat,
                    |a: int|
                        if PROGRAM_START <= a < PROGRAM_START + data@.len() {
                            data@[a - PROGRAM_START]
                        } else {
                            old(self).mview().mem[a]
                        },
                ),
                ..old(self).mview()
            }) && final(self).spec_divider() == old(self).spec_divider(),
    {
        if data.len() > MEM_SIZE - PROGRAM_START {
            return Err(Chip8Error::RomTooLarge);
        }
        let ghost pre = self.mview();
        let ghost prediv = self.spec_divider();
        let mut i: usize = 0;
        while i < data.len()
            invariant
                i <= data@.len(),
                data@.len() <= MEM_SIZE - PROGRAM_START,
                self.wf(),
                self.spec_divider() == prediv,
                pre.mem.len() == MEM_SIZE,
                self.mview() == (MachineView { mem: self.mview().mem, ..pre }),
                forall|a: int|
                    PROGRAM_START <= a < PROGRAM_START + i ==> self.mview().mem[a] == data@[a
                        - PROGRAM_START],
                forall|a: int|
                    0 <= a < MEM_SIZE && !(PROGRAM_START <= a < PROGRAM_START + i)
                        ==> self.mview().mem[a] == pre.mem[a],
            decreases data@.len() - i,
        {
            self.ram.write_byte((PROGRAM_START + i) as u16, data[i]);
            i = i + 1;
        }
        proof {
            assert(self.mview().mem =~= Seq::new(
                MEM_SIZE as nat,
                |a: int|
                    if PROGRAM_START <= a < PROGRAM_START + data@.len() {
                        data@[a - PROGRAM_START]
                    } else {
                        pre.mem[a]
                    },
            ));
            assert(self.mview() =~= (MachineView {
                mem: Seq::new(
                    MEM_SIZE as nat,
                    |a: int|
                        if PROGRAM_START <= a < PROGRAM_START + data@.len() {
                            data@[a - PROGRAM_START]
                        } else {
                            pre.mem[a]
                        },
                ),
                ..pre
            }));
        }
        Ok(())
    }

    /// One driver step: first the clock divider (and, every
    /// `CLOCK_RATIO`-th step, a timer decrement), then one processor step.
    /// While the machine is blocked on input the processor step is a
    /// no-op, but the timers keep counting.
    pub fn update_step(&mut self) -> (r: Result<(), Chip8Error>)
        requires
            old(self).wf(),
        ensures
            final(self).wf(),
            ({
                let clocked = spec_advance_clock(old(self).mview(), old(self).spec_divider());
                &&& final(self).spec_divider() == clocked.1
                &&& match r {
                    Ok(_) => exists|rnd: u8|
                        spec_step(clocked.0, rnd) == Ok::<MachineView, Chip8Error>(
                            final(self).mview(),
                        ),
                    Err(e) => spec_step(clocked.0, 0) == Err::<MachineView, Chip8Error>(e)
                        && final(self).mview() == clocked.0,
                }
                &&& (!randomized(clocked.0) && r is Ok ==> spec_step(clocked.0, 0) == Ok::<
                    MachineView,
                    Chip8Error,
                >(final(self).mview()))
            }),
    {
        if self.divider == 1 {
            self.timers.tick_clock();
            self.divider = CLOCK_RATIO;
        } else {
            self.divider = self.divider - 1;
        }
        proof {
            assert(self.mview() =~= spec_advance_clock(
                old(self).mview(),
                old(self).spec_divider(),
            ).0);
        }
        self.cpu.tick(&mut self.ram, &mut self.display, &mut self.input, &mut self.timers)
    }

    /// A key-press event from the host. The key is latched; if the machine
    /// was blocked waiting for a key, the key's index lands in the recorded
    /// register and execution may resume.
    pub fn key_down(&mut self, key: u8)
        requires
            old(self).wf(),
            key < NUM_KEYS,
        ensures
            final(self).wf(),
            final(self).mview().keys == old(self).mview().keys.update(key as int, true),
            final(self).mview().blocked is None,
            match old(self).mview().blocked {
                Some(t) => final(self).mview().regs == old(self).mview().regs.update(
                    t as int,
                    key,
                ),
                None => final(self).mview().regs == old(self).mview().regs,
            },
            final(self).mview().pc == old(self).mview().pc,
            final(self).mview().index == old(self).mview().index,
            final(self).mview().stack == old(self).mview().stack,
            final(self).mview().mem == old(self).mview().mem,
            final(self).mview().disp == old(self).mview().disp,
            final(self).mview().delay == old(self).mview().delay,
            final(self).mview().sound == old(self).mview().sound,
            final(self).spec_divider() == old(self).spec_divider(),
    {
        self.input.set_key(key, true);
        let target = self.input.unblock();
        match target {
            Some(t) => {
                self.cpu.write_register(t, key);
            },
            None => {},
        }
    }

    /// A key-release event from the host; it never resolves a block.
    pub fn key_up(&mut self, key: u8)
        requires
            old(self).wf(),
            key < NUM_KEYS,
        ensures
            final(self).wf(),
            final(self).mview() == (MachineView {
                keys: old(self).mview().keys.update(key as int, false),
                ..old(self).mview()
            }),
            final(self).spec_divider() == old(self).spec_divider(),
    {
        self.input.set_key(key, false);
    }

    /// The value of register `x`.
    pub fn register(&self, x: u8) -> (v: u8)
        requires
            self.wf(),
            x < NUM_REGISTERS,
        ensures
            v == self.mview().regs[x as int],
    {
        self.cpu.register(x)
    }

    /// The current program counter.
    pub fn program_counter(&self) -> (p: u16)
        ensures
            p == self.mview().pc,
    {
        self.cpu.program_counter()
    }

    /// The current index register.
    pub fn index_register(&self) -> (v: u16)
        ensures
            v == self.mview().index,
    {
        self.cpu.index_register()
    }

    /// The delay timer's current value.
    pub fn delay_timer(&self) -> (v: u8)
        ensures
            v == self.mview().delay,
    {
        self.timers.get_delay()
    }

    /// The sound timer's current value.
    pub fn sound_timer(&self) -> (v: u8)
        ensures
            v == self.mview().sound,
    {
        self.timers.get_sound()
    }

    /// Whether the machine is blocked waiting for a key.
    pub fn is_blocked(&self) -> (b: bool)
        ensures
            b == (self.mview().blocked is Some),
    {
        self.input.is_blocked()
    }

    /// The pixel at `(x, y)` of the read-only display snapshot.
    pub fn pixel_at(&self, x: u16, y: u16) -> (b: bool)
        requires
            self.wf(),
            x < WIDTH,
            y < HEIGHT,
        ensures
            b == self.mview().disp[y as int * WIDTH + x as int],
    {
        self.display.is_set(x, y)
    }

    /// The byte at `addr` of memory.
    pub fn memory_byte(&self, addr: u16) -> (b: u8)
        requires
            self.wf(),
            addr < MEM_SIZE,
        ensures
            b == self.mview().mem[addr as int],
    {
        self.ram.read_byte(addr)
    }
}

} // verus!
