//! The interpreter state and its operations. Construction, the timer step
//! and the instruction cycle are specified exactly against the abstract
//! model in [`crate::semantics`].

use vstd::prelude::*;

use crate::drivers::{AudioDriver, Drivers, InputDriver};
use crate::grid::{grid_of, PixelGrid};
use crate::quirks::Quirks;
use crate::semantics::{
    font_seq, init_memory, init_state, spec_decr_timers, state_wf, MachineState, DISPLAY_HEIGHT,
    DISPLAY_WIDTH, FONT_START, MEMORY_SIZE, PROGRAM_START,
};

verus! {

/// Construction failure: the only operation of the core that can fail.
#[derive(Debug, PartialEq, Eq, Structural)]
pub enum RomError {
    /// The program image does not fit between the program start offset and
    /// the end of memory.
    TooLarge,
}

/// A CHIP-8 virtual machine: registers, memory, display, stack and timers,
/// stepped one instruction at a time by [`Machine::cycle`] and one timer
/// tick at a time by [`Machine::decr_timers`].
#[must_use]
pub struct Machine<A: AudioDriver, I: InputDriver> {
    /// Memory, of fixed size [`MEMORY_SIZE`].
    pub memory: Vec<u8>,
    /// The pixel buffer, [`DISPLAY_WIDTH`] by [`DISPLAY_HEIGHT`].
    pub display: PixelGrid,
    /// Address of the next instruction to fetch.
    pub pc: u16,
    /// The index register.
    pub index: u16,
    /// Return addresses of entered subroutines, most recent last.
    pub stack: Vec<u16>,
    /// The delay timer.
    pub dt: u8,
    /// The sound timer.
    pub st: u8,
    /// The sixteen general-purpose registers; the last doubles as the
    /// flags/carry register.
    pub registers: Vec<u8>,
    /// Whether the display changed since the host last reset this flag; the
    /// core sets it and never clears it itself.
    pub is_dirty: bool,
    /// The quirk selection, immutable after construction.
    pub quirks: Quirks,
    /// The platform capabilities, kept for the machine's lifetime.
    pub drivers: Drivers<A, I>,
}

impl<A: AudioDriver, I: InputDriver> View for Machine<A, I> {
    type V = MachineState;

    open spec fn view(&self) -> MachineState {
        MachineState {
            memory: self.memory@,
            display: grid_of(self.display),
            pc: self.pc,
            index: self.index,
            stack: self.stack@,
            dt: self.dt,
            st: self.st,
            registers: self.registers@,
            is_dirty: self.is_dirty,
        }
    }
}

impl<A: AudioDriver, I: InputDriver> Machine<A, I> {
    /// The shape every machine has from construction on.
    pub open spec fn wf(self) -> bool {
        state_wf(self@)
    }

    /// Build a machine from a program image, a quirk selection and a driver
    /// bundle. Rejects an image too large for the memory region after the
    /// program start offset; otherwise the machine starts in
    /// [`init_state`]: font and program written, everything else zeroed.
    pub fn from_rom(rom: &[u8], quirks: Quirks, drivers: Drivers<A, I>) -> (r: Result<
        Machine<A, I>,
        RomError,
    >)
        ensures
            rom@.len() + PROGRAM_START <= MEMORY_SIZE ==> (r matches Ok(m) && m@ == init_state(
                rom@,
            ) && m.wf() && m.quirks == quirks && m.drivers == drivers),
            rom@.len() + PROGRAM_START > MEMORY_SIZE ==> r == Err::<Machine<A, I>, RomError>(
                RomError::TooLarge,
            ),
    {
        if rom.len() > MEMORY_SIZE - (PROGRAM_START as usize) {
            return Err(RomError::TooLarge);
        }
        let mut memory: Vec<u8> = Vec::new();
        let mut a: usize = 0;
        while a < MEMORY_SIZE
            invariant
                memory@.len() == a,
                a <= MEMORY_SIZE,
                forall|i: int| 0 <= i < a ==> memory@[i] == 0u8,
            decreases MEMORY_SIZE - a,
        {
            memory.push(0);
            a += 1;
        }
        let font = font_bytes();
        let mut k: usize = 0;
        while k < 80
            invariant
                memory@.len() == MEMORY_SIZE,
                k <= 80,
                font@ == font_seq(),
                forall|i: int|
                    FONT_START <= i < FONT_START + k ==> memory@[i] == font_seq()[i - FONT_START],
                forall|i: int|
                    0 <= i < MEMORY_SIZE && !(FONT_START <= i < FONT_START + k) ==> memory@[i]
                        == 0u8,
            decreases 80 - k,
        {
            memory[(FONT_START as usize) + k] = font[k];
            k += 1;
        }
        let mut p: usize = 0;
        while p < rom.len()
            invariant
                memory@.len() == MEMORY_SIZE,
                p <= rom@.len(),
                rom@.len() + PROGRAM_START <= MEMORY_SIZE,
                forall|i: int|
                    FONT_START <= i < FONT_START + font_seq().len() ==> memory@[i] == font_seq()[i
                        - FONT_START],
                forall|i: int|
                    PROGRAM_START <= i < PROGRAM_START + p ==> memory@[i] == rom@[i
                        - PROGRAM_START],
                forall|i: int|
                    0 <= i < MEMORY_SIZE && !(FONT_START <= i < FONT_START + font_seq().len()) && !(
                    PROGRAM_START <= i < PROGRAM_START + p) ==> memory@[i] == 0u8,
            decreases rom@.len() - p,
        {
            memory[(PROGRAM_START as usize) + p] = rom[p];
            p += 1;
        }
        let mut registers: Vec<u8> = Vec::new();
        let mut j: usize = 0;
        while j < 16
            invariant
                registers@.len() == j,
                j <= 16,
                forall|i: int| 0 <= i < j ==> registers@[i] == 0u8,
            decreases 16 - j,
        {
            registers.push(0);
            j += 1;
        }
        let m = Machine {
            memory,
            display: PixelGrid::new(DISPLAY_WIDTH, DISPLAY_HEIGHT, false),
            pc: PROGRAM_START,
            index: 0,
            stack: Vec::new(),
            dt: 0,
            st: 0,
            registers,
            is_dirty: false,
            quirks,
            drivers,
        };
        proof {
            assert(m@.memory =~= init_memory(rom@));
            assert(m@.registers =~= init_state(rom@).registers);
            assert(m@.stack =~= init_state(rom@).stack);
            assert(m@ =~~= init_state(rom@));
        }
        Ok(m)
    }

    /// One timer tick: each nonzero timer is decremented; the stop-beep
    /// capability is invoked exactly when the sound timer's decrement
    /// reaches zero.
    pub fn decr_timers(&mut self)
        ensures
            final(self)@ == spec_decr_timers(old(self)@),
            final(self).quirks == old(self).quirks,
    {
        if self.dt > 0 {
            self.dt = self.dt - 1;
        }
        if self.st > 0 {
            self.st = self.st - 1;
            if self.st == 0 {
                self.drivers.audio.stop_beep();
            }
        }
        proof {
            assert(self@ =~~= spec_decr_timers(old(self)@));
        }
    }

    /// The register-to-register operations, selected by the instruction's
    /// low nibble.
    fn exec_alu(&mut self, x: usize, y: usize, n4: u8)
        requires
            old(self).wf(),
            x < 16,
            y < 16,
        ensures
            final(self).wf(),
            final(self)@ == crate::semantics::spec_alu(
                old(self)@,
                old(self).quirks,
                x as int,
                y as int,
                n4,
            ),
            final(self).quirks == old(self).quirks,
            final(self).drivers == old(self).drivers,
    {
        let vx = self.registers[x];
        let vy = self.registers[y];
        if n4 == 0x0 {
            self.registers[x] = vy;
        } else if n4 == 0x1 {
            self.registers[x] = vx | vy;
        } else if n4 == 0x2 {
            self.registers[x] = vx & vy;
        } else if n4 == 0x3 {
            self.registers[x] = vx ^ vy;
        } else if n4 == 0x4 {
            let sum = vx as u16 + vy as u16;
            self.registers[x] = (sum % 256) as u8;
            self.registers[0xF] = if sum > 255 {
                1
            } else {
                0
            };
        } else if n4 == 0x5 {
            self.registers[x] = vx.wrapping_sub(vy);
            self.registers[0xF] = if vx >= vy {
                1
            } else {
                0
            };
        } else if n4 == 0x7 {
            self.registers[x] = vy.wrapping_sub(vx);
            self.registers[0xF] = if vy >= vx {
                1
            } else {
                0
            };
        } else if n4 == 0x6 {
            let v = if self.quirks.set_vx_to_vy {
                vy
            } else {
                vx
            };
            self.registers[x] = v >> 1u8;
            self.registers[0xF] = v & 1;
        } else if n4 == 0xE {
            let v = if self.quirks.set_vx_to_vy {
                vy
            } else {
                vx
            };
            self.registers[x] = v << 1u8;
            self.registers[0xF] = (v & 0x80) >> 7u8;
        }
        proof {
            assert(self@ =~~= crate::semantics::spec_alu(
                old(self)@,
                old(self).quirks,
                x as int,
                y as int,
                n4,
            ));
        }
    }

    /// Register dump: store registers `0..=x` to the consecutive memory
    /// cells starting at the index register; the quirk gates only whether
    /// the index register itself ends up incremented once per register.
    fn exec_dump(&mut self, x: usize)
        requires
            old(self).wf(),
            x < 16,
        ensures
            final(self).wf(),
            final(self)@ == crate::semantics::spec_reg_dump(old(self)@, old(self).quirks, x as int),
            final(self).quirks == old(self).quirks,
            final(self).drivers == old(self).drivers,
    {
        let i0 = self.index as usize;
        if i0 + x >= MEMORY_SIZE {
            // Recoverable anomaly: the writes would run past the end of
            // memory, so the instruction is ignored.
            return ;
        }
        let ghost mem0 = self.memory@;
        let mut k: usize = 0;
        while k <= x
            invariant
                old(self).wf(),
                x < 16,
                i0 == old(self).index as int,
                i0 + x < MEMORY_SIZE,
                mem0 == old(self).memory@,
                k <= x + 1,
                self.memory@ == crate::semantics::dump_mem(
                    mem0,
                    old(self).registers@,
                    i0 as int,
                    k as int,
                ),
                self.memory@.len() == MEMORY_SIZE,
                self.display == old(self).display,
                self.pc == old(self).pc,
                self.index == old(self).index,
                self.stack == old(self).stack,
                self.dt == old(self).dt,
                self.st == old(self).st,
                self.registers == old(self).registers,
                self.is_dirty == old(self).is_dirty,
                self.quirks == old(self).quirks,
                self.drivers == old(self).drivers,
            decreases x + 1 - k,
        {
            self.memory[i0 + k] = self.registers[k];
            k += 1;
        }
        if self.quirks.fx_incr_index {
            self.index = self.index + (x as u16) + 1;
        }
        proof {
            assert(self@ =~~= crate::semantics::spec_reg_dump(
                old(self)@,
                old(self).quirks,
                x as int,
            ));
        }
    }

    /// Register load: read registers `0..=x` from the consecutive memory
    /// cells starting at the index register; the quirk gates only whether
    /// the index register itself ends up incremented once per register.
    fn exec_load(&mut self, x: usize)
        requires
            old(self).wf(),
            x < 16,
        ensures
            final(self).wf(),
            final(self)@ == crate::semantics::spec_reg_load(old(self)@, old(self).quirks, x as int),
            final(self).quirks == old(self).quirks,
            final(self).drivers == old(self).drivers,
    {
        let i0 = self.index as usize;
        if i0 + x >= MEMORY_SIZE {
            // Recoverable anomaly: the reads would run past the end of
            // memory, so the instruction is ignored.
            return ;
        }
        let ghost regs0 = self.registers@;
        let mut k: usize = 0;
        while k <= x
            invariant
                old(self).wf(),
                x < 16,
                i0 == old(self).index as int,
                i0 + x < MEMORY_SIZE,
                regs0 == old(self).registers@,
                k <= x + 1,
                self.registers@ == crate::semantics::load_regs(
                    regs0,
                    old(self).memory@,
                    i0 as int,
                    k as int,
                ),
                self.registers@.len() == 16,
                self.memory == old(self).memory,
                self.display == old(self).display,
                self.pc == old(self).pc,
                self.index == old(self).index,
                self.stack == old(self).stack,
                self.dt == old(self).dt,
                self.st == old(self).st,
                self.is_dirty == old(self).is_dirty,
                self.quirks == old(self).quirks,
                self.drivers == old(self).drivers,
            decreases x + 1 - k,
        {
            self.registers[k] = self.memory[i0 + k];
            k += 1;
        }
        if self.quirks.fx_incr_index {
            self.index = self.index + (x as u16) + 1;
        }
        proof {
            assert(self@ =~~= crate::semantics::spec_reg_load(
                old(self)@,
                old(self).quirks,
                x as int,
            ));
        }
    }

    /// Sprite draw: XOR-composite `n` sprite rows read at the index register
    /// onto the display at the coordinates in registers `x` and `y`, clipped
    /// at the display's edges, reporting collisions in the flags register.
    fn draw_sprite(&mut self, x: usize, y: usize, n: u8)
        requires
            old(self).wf(),
            x < 16,
            y < 16,
        ensures
            final(self).wf(),
            final(self)@ == crate::semantics::spec_draw(old(self)@, x as int, y as int, n as int),
            final(self).quirks == old(self).quirks,
            final(self).drivers == old(self).drivers,
    {
        let x0 = (self.registers[x] as usize) % DISPLAY_WIDTH;
        let y0 = (self.registers[y] as usize) % DISPLAY_HEIGHT;
        let rows = if (n as usize) <= DISPLAY_HEIGHT - y0 {
            n as usize
        } else {
            DISPLAY_HEIGHT - y0
        };
        if rows > 0 && self.index as usize + rows > MEMORY_SIZE {
            // Recoverable anomaly: the sprite's row reads would run past the
            // end of memory, so the draw is ignored.
            return ;
        }
        let cols = if 8 <= DISPLAY_WIDTH - x0 {
            8
        } else {
            DISPLAY_WIDTH - x0
        };
        let ghost d0 = grid_of(self.display);
        let ghost mem0 = self.memory@;
        let ghost i0 = self.index as int;
        let mut collided = false;
        proof {
            assert(d0 =~~= crate::semantics::draw_prefix(d0, mem0, i0, x0 as int, y0 as int, 0, 0));
        }
        let mut r: usize = 0;
        while r < rows
            invariant
                old(self).wf(),
                x < 16,
                y < 16,
                self.memory == old(self).memory,
                self.pc == old(self).pc,
                self.index == old(self).index,
                self.stack == old(self).stack,
                self.dt == old(self).dt,
                self.st == old(self).st,
                self.registers == old(self).registers,
                self.is_dirty == old(self).is_dirty,
                self.quirks == old(self).quirks,
                self.drivers == old(self).drivers,
                d0 == grid_of(old(self).display),
                mem0 == old(self).memory@,
                i0 == old(self).index as int,
                x0 == old(self)@.registers[x as int] as int % (DISPLAY_WIDTH as int),
                y0 == old(self)@.registers[y as int] as int % (DISPLAY_HEIGHT as int),
                rows == if (n as int) <= (DISPLAY_HEIGHT as int) - y0 {
                    n as int
                } else {
                    (DISPLAY_HEIGHT as int) - y0
                },
                cols == if 8 <= (DISPLAY_WIDTH as int) - x0 {
                    8int
                } else {
                    (DISPLAY_WIDTH as int) - x0
                },
                rows > 0 ==> i0 + rows <= MEMORY_SIZE,
                r <= rows,
                grid_of(self.display) == crate::semantics::draw_prefix(
                    d0,
                    mem0,
                    i0,
                    x0 as int,
                    y0 as int,
                    r as int,
                    0,
                ),
                collided == crate::semantics::collision_prefix(
                    d0,
                    mem0,
                    i0,
                    x0 as int,
                    y0 as int,
                    r as int,
                    0,
                ),
            decreases rows - r,
        {
            let sprite = self.memory[self.index as usize + r];
            let bits = get_bits(sprite);
            let mut c: usize = 0;
            while c < cols
                invariant
                    old(self).wf(),
                    x < 16,
                    y < 16,
                    self.memory == old(self).memory,
                    self.pc == old(self).pc,
                    self.index == old(self).index,
                    self.stack == old(self).stack,
                    self.dt == old(self).dt,
                    self.st == old(self).st,
                    self.registers == old(self).registers,
                    self.is_dirty == old(self).is_dirty,
                    self.quirks == old(self).quirks,
                    self.drivers == old(self).drivers,
                    d0 == grid_of(old(self).display),
                    mem0 == old(self).memory@,
                    i0 == old(self).index as int,
                    x0 == old(self)@.registers[x as int] as int % (DISPLAY_WIDTH as int),
                    y0 == old(self)@.registers[y as int] as int % (DISPLAY_HEIGHT as int),
                    rows == if (n as int) <= (DISPLAY_HEIGHT as int) - y0 {
                        n as int
                    } else {
                        (DISPLAY_HEIGHT as int) - y0
                    },
                    cols == if 8 <= (DISPLAY_WIDTH as int) - x0 {
                        8int
                    } else {
                        (DISPLAY_WIDTH as int) - x0
                    },
                    rows > 0 ==> i0 + rows <= MEMORY_SIZE,
                    r < rows,
                    c <= cols,
                    sprite == mem0[i0 + r],
                    forall|j: int|
                        0 <= j < 8 ==> bits@[j] == crate::semantics::byte_bit(sprite, j),
                    grid_of(self.display) == crate::semantics::draw_prefix(
                        d0,
                        mem0,
                        i0,
                        x0 as int,
                        y0 as int,
                        r as int,
                        c as int,
                    ),
                    collided == crate::semantics::collision_prefix(
                        d0,
                        mem0,
                        i0,
                        x0 as int,
                        y0 as int,
                        r as int,
                        c as int,
                    ),
                decreases cols - c,
            {
                if bits[c] {
                    let px = x0 + c;
                    let py = y0 + r;
                    let cur = self.display.get(px, py);
                    if cur {
                        collided = true;
                    }
                    self.display.set(px, py, !cur);
                    proof {
                        crate::semantics::lemma_draw_step_set(
                            d0,
                            mem0,
                            i0,
                            x0 as int,
                            y0 as int,
                            r as int,
                            c as int,
                        );
                    }
                } else {
                    proof {
                        crate::semantics::lemma_draw_step_clear(
                            d0,
                            mem0,
                            i0,
                            x0 as int,
                            y0 as int,
                            r as int,
                            c as int,
                        );
                    }
                }
                c += 1;
            }
            proof {
                crate::semantics::lemma_draw_row_end(
                    d0,
                    mem0,
                    i0,
                    x0 as int,
                    y0 as int,
                    r as int,
                    c as int,
                );
            }
            r += 1;
        }
        proof {
            crate::semantics::lemma_draw_complete(
                d0,
                mem0,
                i0,
                x0 as int,
                y0 as int,
                n as int,
                r as int,
            );
        }
        self.registers[0xF] = if collided {
            1
        } else {
            0
        };
        self.is_dirty = true;
        proof {
            assert(self@ =~~= crate::semantics::spec_draw(old(self)@, x as int, y as int, n as int));
        }
    }

    /// One fetch/decode/execute cycle with the polled key supplied by the
    /// caller: deterministic, and exactly the abstract step
    /// [`crate::semantics::spec_cycle`] on that key.
    #[verifier::rlimit(100)]
    pub fn cycle_with_key(&mut self, key: Option<u8>)
        requires
            old(self).wf(),
        ensures
            final(self).wf(),
            final(self)@ == crate::semantics::spec_cycle(old(self)@, old(self).quirks, key),
            final(self).quirks == old(self).quirks,
            final(self).drivers == old(self).drivers,
    {
        if self.pc as usize + 1 >= MEMORY_SIZE {
            // Recoverable anomaly: no instruction can be fetched from here.
            return ;
        }
        let hi = self.memory[self.pc as usize];
        let lo = self.memory[self.pc as usize + 1];
        self.pc = self.pc + 2;
        let n1 = hi / 16;
        let n3 = lo / 16;
        let n4 = lo % 16;
        let x = (hi % 16) as usize;
        let y = (lo / 16) as usize;
        let nn = lo;
        let nnn: u16 = ((hi % 16) as u16) * 256 + (lo as u16);
        if n1 == 0x0 && n4 == 0x0 {
            // Clear the display
            self.display.fill(false);
            self.is_dirty = true;
        } else if n1 == 0x0 && n4 == 0xE {
            // Return from a subroutine; with an empty stack the return is
            // ignored and the already-advanced counter stands
            match self.stack.pop() {
                Some(addr) => self.pc = addr,
                None => {},
            }
        } else if n1 == 0x1 {
            // Jump
            self.pc = nnn;
        } else if n1 == 0x2 {
            // Call subroutine
            self.stack.push(self.pc);
            self.pc = nnn;
        } else if n1 == 0x3 {
            // Skip next instruction on register == immediate
            if self.registers[x] == nn {
                self.pc = self.pc + 2;
            }
        } else if n1 == 0x4 {
            if self.registers[x] != nn {
                self.pc = self.pc + 2;
            }
        } else if n1 == 0x5 {
            // Skip next instruction on register == register
            if self.registers[x] == self.registers[y] {
                self.pc = self.pc + 2;
            }
        } else if n1 == 0x9 {
            if self.registers[x] != self.registers[y] {
                self.pc = self.pc + 2;
            }
        } else if n1 == 0x6 {
            // Load immediate
            self.registers[x] = nn;
        } else if n1 == 0x7 {
            // Add immediate, wrapping, no flag effect
            let vx = self.registers[x];
            self.registers[x] = vx.wrapping_add(nn);
        } else if n1 == 0xA {
            // Load index register
            self.index = nnn;
        } else if n1 == 0x8 {
            self.exec_alu(x, y, n4);
        } else if n1 == 0xD {
            self.draw_sprite(x, y, n4);
        } else if n1 == 0xB {
            // Jump with offset; the quirk selects the offset register
            let off = if self.quirks.bxnn {
                self.registers[x]
            } else {
                self.registers[0]
            };
            self.pc = nnn + off as u16;
        } else if n1 == 0xE && n3 == 0x9 && n4 == 0xE {
            // Skip next instruction if the key in the register is pressed
            let pressed = match key {
                Some(k) => k == self.registers[x],
                None => false,
            };
            if pressed {
                self.pc = self.pc + 2;
            }
        } else if n1 == 0xE && n3 == 0xA && n4 == 0x1 {
            let pressed = match key {
                Some(k) => k == self.registers[x],
                None => false,
            };
            if !pressed {
                self.pc = self.pc + 2;
            }
        } else if n1 == 0xF && n3 == 0x0 && n4 == 0x7 {
            // Read the delay timer
            self.registers[x] = self.dt;
        } else if n1 == 0xF && n3 == 0x0 && n4 == 0xA {
            // Key-wait: rewind to re-execute this instruction until a key is
            // reported
            match key {
                Some(k) => self.registers[x] = k,
                None => self.pc = self.pc - 2,
            }
        } else if n1 == 0xF && n3 == 0x1 && n4 == 0x5 {
            self.dt = self.registers[x];
        } else if n1 == 0xF && n3 == 0x1 && n4 == 0x8 {
            self.st = self.registers[x];
        } else if n1 == 0xF && n3 == 0x1 && n4 == 0xE {
            // Add register into the index register, wrapping; the flag
            // effect the quirk gates is historically tautological
            let vx = self.registers[x];
            self.index = self.index.wrapping_add(vx as u16);
            if self.quirks.set_vf_on_fx1e_overflow {
                self.registers[0xF] = 1;
            }
        } else if n1 == 0xF && n3 == 0x3 && n4 == 0x3 {
            // Binary-coded-decimal conversion
            let i0 = self.index as usize;
            if i0 + 2 < MEMORY_SIZE {
                let v = self.registers[x];
                self.memory[i0] = v / 100;
                self.memory[i0 + 1] = (v / 10) % 10;
                self.memory[i0 + 2] = v % 10;
            }
            // otherwise the writes would run past the end of memory and the
            // instruction is ignored
        } else if n1 == 0xF && n3 == 0x5 {
            self.exec_dump(x);
        } else if n1 == 0xF && n3 == 0x6 {
            self.exec_load(x);
        }
        // any other pattern is an unknown instruction: ignored, with the
        // program counter already advanced
        proof {
            assert(self@ =~~= crate::semantics::spec_cycle(old(self)@, old(self).quirks, key));
        }
    }

    /// One fetch/decode/execute cycle, polling the input capability exactly
    /// when the fetched instruction queries the key state. Every outcome is
    /// one abstract step on some polled key, and an instruction that does
    /// not query keys steps as if none were pressed.
    pub fn cycle(&mut self)
        requires
            old(self).wf(),
        ensures
            final(self).wf(),
            final(self).quirks == old(self).quirks,
            exists|k: Option<u8>|
                final(self)@ == #[trigger] crate::semantics::spec_cycle(
                    old(self)@,
                    old(self).quirks,
                    k,
                ),
            old(self)@.pc + 1 < MEMORY_SIZE ==> !crate::semantics::is_key_instruction(
                old(self)@.memory[old(self)@.pc as int],
                old(self)@.memory[old(self)@.pc as int + 1],
            ) ==> final(self)@ == crate::semantics::spec_cycle(
                old(self)@,
                old(self).quirks,
                None,
            ),
    {
        let key: Option<u8> = if self.pc as usize + 1 < MEMORY_SIZE {
            let hi = self.memory[self.pc as usize];
            let lo = self.memory[self.pc as usize + 1];
            let n1 = hi / 16;
            let n3 = lo / 16;
            let n4 = lo % 16;
            if (n1 == 0xE && n3 == 0x9 && n4 == 0xE) || (n1 == 0xE && n3 == 0xA && n4 == 0x1) || (
            n1 == 0xF && n3 == 0x0 && n4 == 0xA) {
                self.drivers.input.get_key_pressed()
            } else {
                None
            }
        } else {
            None
        };
        self.cycle_with_key(key);
        proof {
            assert(self@ == crate::semantics::spec_cycle(old(self)@, old(self).quirks, key));
        }
    }

    /// The state of one display pixel, for hosts rendering the buffer.
    pub fn pixel(&self, x: usize, y: usize) -> (b: bool)
        requires
            self.wf(),
            x < DISPLAY_WIDTH,
            y < DISPLAY_HEIGHT,
        ensures
            b == self@.display[x as int][y as int],
    {
        self.display.get(x, y)
    }
}

/// The font glyph bytes as an executable vector, equal to [`font_seq`].
pub fn font_bytes() -> (v: Vec<u8>)
    ensures
        v@ == font_seq(),
{
    let v: Vec<u8> = vec![
        0xF0, 0x90, 0x90, 0x90, 0xF0,  // 0
        0x20, 0x60, 0x20, 0x20, 0x70,  // 1
        0xF0, 0x10, 0xF0, 0x80, 0xF0,  // 2
        0xF0, 0x10, 0xF0, 0x10, 0xF0,  // 3
        0x90, 0x90, 0xF0, 0x10, 0x10,  // 4
        0xF0, 0x80, 0xF0, 0x10, 0xF0,  // 5
        0xF0, 0x80, 0xF0, 0x90, 0xF0,  // 6
        0xF0, 0x10, 0x20, 0x40, 0x40,  // 7
        0xF0, 0x90, 0xF0, 0x90, 0xF0,  // 8
        0xF0, 0x90, 0xF0, 0x10, 0xF0,  // 9
        0xF0, 0x90, 0xF0, 0x90, 0x90,  // A
        0xE0, 0x90, 0xE0, 0x90, 0xE0,  // B
        0xF0, 0x80, 0x80, 0x80, 0xF0,  // C
        0xE0, 0x90, 0x90, 0x90, 0xE0,  // D
        0xF0, 0x80, 0xF0, 0x80, 0xF0,  // E
        0xF0, 0x80, 0xF0, 0x80, 0x80,  // F
    ];
    proof {
        assert(v@ =~= font_seq());
    }
    v
}

/// The bits of a byte in big-endian order: entry 0 is the most significant
/// bit.
pub fn get_bits(value: u8) -> (bits: [bool; 8])
    ensures
        forall|i: int| 0 <= i < 8 ==> bits@[i] == crate::semantics::byte_bit(value, i),
{
    let mut bits: [bool; 8] = [false;8];
    let mut i: usize = 0;
    while i < 8
        invariant
            i <= 8,
            forall|j: int| 0 <= j < i ==> bits@[j] == crate::semantics::byte_bit(value, j),
        decreases 8 - i,
    {
        bits[i] = (value >> ((7 - i) as u8)) & 1 == 1;
        i += 1;
    }
    bits
}

} // verus!
