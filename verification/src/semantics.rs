//! The mathematical model of the interpreter: an abstract machine state and
//! a total step function [`spec_cycle`] that says exactly what one
//! fetch/decode/execute cycle does, for every state and every polled key.
//!
//! Anomalies never halt the abstract machine: an unknown instruction, a
//! return with an empty stack, or an instruction whose memory operands would
//! reach past the end of memory leaves the state unchanged apart from the
//! usual program-counter advance.

use vstd::prelude::*;

use crate::quirks::Quirks;

verus! {

/// Number of memory cells, addressable 0..=4095.
pub const MEMORY_SIZE: usize = 4096;

/// Number of pixel columns of the display.
pub const DISPLAY_WIDTH: usize = 64;

/// Number of pixel rows of the display.
pub const DISPLAY_HEIGHT: usize = 32;

/// Memory offset at which the font glyphs are written at construction.
pub const FONT_START: u16 = 0x050;

/// Memory offset at which the program image is written at construction;
/// also the initial program counter.
pub const PROGRAM_START: u16 = 0x200;

/// Default instruction rate for hosts that pace execution in real time.
pub const CYCLES_PER_SECOND: usize = 700;

/// The abstract state of the interpreter: every observable of the machine,
/// with collections replaced by mathematical sequences.
#[verifier::ext_equal]
pub struct MachineState {
    /// The byte contents of memory, of length [`MEMORY_SIZE`].
    pub memory: Seq<u8>,
    /// The pixel states, a sequence of [`DISPLAY_WIDTH`] columns, each of
    /// length [`DISPLAY_HEIGHT`].
    pub display: Seq<Seq<bool>>,
    /// Address of the next instruction to fetch.
    pub pc: u16,
    /// The index register, an address pointer for memory-block and sprite
    /// instructions.
    pub index: u16,
    /// Return addresses of the subroutines currently entered, most recent
    /// last.
    pub stack: Seq<u16>,
    /// The delay timer.
    pub dt: u8,
    /// The sound timer.
    pub st: u8,
    /// The sixteen general-purpose registers; the last one is the flags
    /// register.
    pub registers: Seq<u8>,
    /// Whether the display changed since the host last reset this flag.
    pub is_dirty: bool,
}

/// The shape every reachable machine state has: full-size memory, sixteen
/// registers, and a display of fixed dimensions.
pub open spec fn state_wf(m: MachineState) -> bool {
    &&& m.memory.len() == MEMORY_SIZE
    &&& m.registers.len() == 16
    &&& m.display.len() == DISPLAY_WIDTH
    &&& forall|x: int|
        0 <= x < DISPLAY_WIDTH ==> (#[trigger] m.display[x]).len() == DISPLAY_HEIGHT
}

/// Addition of 8-bit values with silent wraparound.
pub open spec fn wrap_add8(a: u8, b: u8) -> u8 {
    (((a + b) % 256) as u8)
}

/// Subtraction of 8-bit values with silent wraparound.
pub open spec fn wrap_sub8(a: u8, b: u8) -> u8 {
    (((a - b) % 256) as u8)
}

/// Addition of 16-bit values with silent wraparound.
pub open spec fn wrap_add16(a: u16, b: u16) -> u16 {
    (((a + b) % 0x10000) as u16)
}

/// Bit `i` of a byte in big-endian order: bit 0 is the most significant.
pub open spec fn byte_bit(b: u8, i: int) -> bool
    recommends
        0 <= i < 8,
{
    (b >> ((7 - i) as u8)) & 1 == 1
}

/// Whether the sprite cell landing on pixel `(px, py)` is set and has been
/// processed, when the sprite's rows `0..r` are done and, in row `r`, its
/// columns `0..c` are done. The sprite is `n` rows of 8 bits starting at
/// memory address `i`, drawn with its top-left corner at `(x0, y0)`; a full
/// draw is `covers_prefix(mem, i, x0, y0, n, 0, px, py)`.
pub open spec fn covers_prefix(
    mem: Seq<u8>,
    i: int,
    x0: int,
    y0: int,
    r: int,
    c: int,
    px: int,
    py: int,
) -> bool {
    &&& x0 <= px < x0 + 8
    &&& y0 <= py
    &&& (py - y0 < r || (py - y0 == r && px - x0 < c))
    &&& byte_bit(mem[i + (py - y0)], px - x0)
}

/// The display after XOR-compositing the processed part of the sprite:
/// a set sprite bit flips the pixel under it, a clear bit leaves it alone,
/// and drawing is clipped at the right and bottom edges.
pub open spec fn draw_prefix(
    d: Seq<Seq<bool>>,
    mem: Seq<u8>,
    i: int,
    x0: int,
    y0: int,
    r: int,
    c: int,
) -> Seq<Seq<bool>> {
    Seq::new(
        d.len(),
        |px: int|
            Seq::new(
                d[px].len(),
                |py: int| d[px][py] != covers_prefix(mem, i, x0, y0, r, c, px, py),
            ),
    )
}

/// Whether the processed part of the sprite has a set bit over an
/// already-set pixel.
pub open spec fn collision_prefix(
    d: Seq<Seq<bool>>,
    mem: Seq<u8>,
    i: int,
    x0: int,
    y0: int,
    r: int,
    c: int,
) -> bool {
    exists|px: int, py: int|
        0 <= px < d.len() && 0 <= py < d[px].len() && d[px][py] && #[trigger] covers_prefix(
            mem,
            i,
            x0,
            y0,
            r,
            c,
            px,
            py,
        )
}

/// Memory after the first `cnt` registers are stored to the consecutive
/// cells starting at address `i0`.
pub open spec fn dump_mem(mem: Seq<u8>, regs: Seq<u8>, i0: int, cnt: int) -> Seq<u8>
    decreases cnt,
{
    if cnt <= 0 {
        mem
    } else {
        dump_mem(mem, regs, i0, cnt - 1).update(i0 + (cnt - 1), regs[cnt - 1])
    }
}

/// Registers after the first `cnt` of them are loaded from the consecutive
/// cells starting at address `i0`.
pub open spec fn load_regs(regs: Seq<u8>, mem: Seq<u8>, i0: int, cnt: int) -> Seq<u8>
    decreases cnt,
{
    if cnt <= 0 {
        regs
    } else {
        load_regs(regs, mem, i0, cnt - 1).update(cnt - 1, mem[i0 + (cnt - 1)])
    }
}

/// A register dump changes the memory's length not at all, and its cells
/// only at the dumped region, which holds the registers dumped into it.
pub proof fn lemma_dump_mem_facts(mem: Seq<u8>, regs: Seq<u8>, i0: int, cnt: int)
    requires
        0 <= i0,
        cnt >= 0,
        i0 + cnt - 1 < mem.len(),
    ensures
        dump_mem(mem, regs, i0, cnt).len() == mem.len(),
        forall|j: int| 0 <= j < cnt ==> dump_mem(mem, regs, i0, cnt)[i0 + j] == regs[j],
        forall|a: int|
            0 <= a < mem.len() && !(i0 <= a < i0 + cnt) ==> dump_mem(mem, regs, i0, cnt)[a]
                == mem[a],
    decreases cnt,
{
    if cnt > 0 {
        lemma_dump_mem_facts(mem, regs, i0, cnt - 1);
    }
}

/// A register load changes the registers' length not at all, fills the
/// loaded ones from their cells, and leaves the rest.
pub proof fn lemma_load_regs_facts(regs: Seq<u8>, mem: Seq<u8>, i0: int, cnt: int)
    requires
        0 <= cnt <= regs.len(),
    ensures
        load_regs(regs, mem, i0, cnt).len() == regs.len(),
        forall|j: int|
            0 <= j < cnt && j < regs.len() ==> load_regs(regs, mem, i0, cnt)[j] == mem[i0 + j],
        forall|j: int| cnt <= j < regs.len() ==> load_regs(regs, mem, i0, cnt)[j] == regs[j],
    decreases cnt,
{
    if cnt > 0 {
        lemma_load_regs_facts(regs, mem, i0, cnt - 1);
    }
}

/// Clear-screen: every pixel off, and the display marked dirty.
pub open spec fn spec_clear(m: MachineState) -> MachineState {
    MachineState {
        display: Seq::new(m.display.len(), |px: int| Seq::new(m.display[px].len(), |py: int| false)),
        is_dirty: true,
        ..m
    }
}

/// Return-from-subroutine: pop the stack into the program counter; with an
/// empty stack the return is ignored and the already-advanced program
/// counter stands.
pub open spec fn spec_ret(m: MachineState) -> MachineState {
    if m.stack.len() == 0 {
        m
    } else {
        MachineState { pc: m.stack.last(), stack: m.stack.drop_last(), ..m }
    }
}

/// The register-to-register operations, selected by the instruction's low
/// nibble. An unknown low nibble leaves the state unchanged.
pub open spec fn spec_alu(m: MachineState, q: Quirks, x: int, y: int, n4: u8) -> MachineState {
    let vx = m.registers[x];
    let vy = m.registers[y];
    if n4 == 0x0 {
        MachineState { registers: m.registers.update(x, vy), ..m }
    } else if n4 == 0x1 {
        MachineState { registers: m.registers.update(x, vx | vy), ..m }
    } else if n4 == 0x2 {
        MachineState { registers: m.registers.update(x, vx & vy), ..m }
    } else if n4 == 0x3 {
        MachineState { registers: m.registers.update(x, vx ^ vy), ..m }
    } else if n4 == 0x4 {
        // Add with carry: the flags register reports overflow.
        MachineState {
            registers: m.registers.update(x, wrap_add8(vx, vy)).update(
                0xF,
                if vx + vy > 255 {
                    1u8
                } else {
                    0u8
                },
            ),
            ..m
        }
    } else if n4 == 0x5 {
        // Subtract with borrow: the flags register is 1 when no borrow
        // occurred (minuend at least subtrahend) -- opposite polarity from a
        // carry-out bit.
        MachineState {
            registers: m.registers.update(x, wrap_sub8(vx, vy)).update(
                0xF,
                if vx >= vy {
                    1u8
                } else {
                    0u8
                },
            ),
            ..m
        }
    } else if n4 == 0x7 {
        MachineState {
            registers: m.registers.update(x, wrap_sub8(vy, vx)).update(
                0xF,
                if vy >= vx {
                    1u8
                } else {
                    0u8
                },
            ),
            ..m
        }
    } else if n4 == 0x6 {
        // Right shift; under the quirk the second operand is first copied in.
        // The flags register receives the bit shifted out of the original
        // value.
        let v = if q.set_vx_to_vy {
            vy
        } else {
            vx
        };
        MachineState { registers: m.registers.update(x, v >> 1u8).update(0xF, v & 1), ..m }
    } else if n4 == 0xE {
        let v = if q.set_vx_to_vy {
            vy
        } else {
            vx
        };
        MachineState {
            registers: m.registers.update(x, v << 1u8).update(0xF, (v & 0x80) >> 7u8),
            ..m
        }
    } else {
        m
    }
}

/// How many sprite rows a draw actually processes: the sprite's height,
/// clipped at the display's bottom edge.
pub open spec fn sprite_rows(m: MachineState, y: int, n: int) -> int {
    let y0 = m.registers[y] as int % (DISPLAY_HEIGHT as int);
    if n <= (DISPLAY_HEIGHT as int) - y0 {
        n
    } else {
        (DISPLAY_HEIGHT as int) - y0
    }
}

/// Whether a draw's row reads all fall inside memory; a draw that does not
/// fit is ignored as a recoverable anomaly.
pub open spec fn sprite_in_bounds(m: MachineState, y: int, n: int) -> bool {
    sprite_rows(m, y, n) > 0 ==> m.index + sprite_rows(m, y, n) <= MEMORY_SIZE
}

/// Sprite draw: `n` rows of 8 bits starting at the index register,
/// XOR-composited at `(VX mod width, VY mod height)`, clipped at the right
/// and bottom edges. The flags register reports whether any set bit landed
/// on an already-set pixel. A sprite whose row reads would reach past the
/// end of memory is ignored.
pub open spec fn spec_draw(m: MachineState, x: int, y: int, n: int) -> MachineState {
    let x0 = m.registers[x] as int % (DISPLAY_WIDTH as int);
    let y0 = m.registers[y] as int % (DISPLAY_HEIGHT as int);
    if !sprite_in_bounds(m, y, n) {
        m
    } else {
        MachineState {
            display: draw_prefix(m.display, m.memory, m.index as int, x0, y0, n, 0),
            registers: m.registers.update(
                0xF,
                if collision_prefix(m.display, m.memory, m.index as int, x0, y0, n, 0) {
                    1u8
                } else {
                    0u8
                },
            ),
            is_dirty: true,
            ..m
        }
    }
}

/// Register dump: stores registers 0..=x to the consecutive memory cells
/// starting at the index register. The quirk gates only whether the index
/// register itself ends up incremented once per register copied; the cells
/// written are the same either way. An instruction whose writes would reach
/// past the end of memory is ignored.
pub open spec fn spec_reg_dump(m: MachineState, q: Quirks, x: int) -> MachineState {
    let i0 = m.index as int;
    if i0 + x >= MEMORY_SIZE {
        m
    } else {
        MachineState {
            memory: dump_mem(m.memory, m.registers, i0, x + 1),
            index: if q.fx_incr_index {
                (m.index + x + 1) as u16
            } else {
                m.index
            },
            ..m
        }
    }
}

/// Register load: the converse of [`spec_reg_dump`], reading the consecutive
/// memory cells starting at the index register into registers 0..=x, with
/// the same index rule.
pub open spec fn spec_reg_load(m: MachineState, q: Quirks, x: int) -> MachineState {
    let i0 = m.index as int;
    if i0 + x >= MEMORY_SIZE {
        m
    } else {
        MachineState {
            registers: load_regs(m.registers, m.memory, i0, x + 1),
            index: if q.fx_incr_index {
                (m.index + x + 1) as u16
            } else {
                m.index
            },
            ..m
        }
    }
}

/// Index-add: adds a register into the index register with 16-bit
/// wraparound. The historical overflow condition gated by the quirk is
/// tautological, so with the quirk on the flags register is always set.
pub open spec fn spec_index_add(m: MachineState, q: Quirks, x: int) -> MachineState {
    MachineState {
        index: wrap_add16(m.index, m.registers[x] as u16),
        registers: if q.set_vf_on_fx1e_overflow {
            m.registers.update(0xF, 1u8)
        } else {
            m.registers
        },
        ..m
    }
}

/// Binary-coded-decimal conversion: the three decimal digits of a register,
/// written to three consecutive memory cells starting at the index register.
/// Ignored when those cells would reach past the end of memory.
pub open spec fn spec_bcd(m: MachineState, x: int) -> MachineState {
    let i0 = m.index as int;
    let v = m.registers[x];
    if i0 + 2 >= MEMORY_SIZE {
        m
    } else {
        MachineState {
            memory: m.memory.update(i0, ((v as int / 100) as u8)).update(
                i0 + 1,
                (((v as int / 10) % 10) as u8),
            ).update(i0 + 2, ((v as int % 10) as u8)),
            ..m
        }
    }
}

/// Key-wait: with a key reported it is stored in the register and execution
/// proceeds; with none the program counter is rewound to re-execute the same
/// instruction on the next cycle. `pc0` is the instruction's own address.
pub open spec fn spec_key_wait(m: MachineState, x: int, key: Option<u8>, pc0: u16) -> MachineState {
    match key {
        Some(k) => MachineState { registers: m.registers.update(x, k), ..m },
        None => MachineState { pc: pc0, ..m },
    }
}

/// Execute one decoded instruction. `m` still holds the program counter of
/// the fetched instruction; the counter is advanced by 2 before any
/// instruction effect, so control-flow instructions overwrite the advance.
pub open spec fn spec_exec(
    m: MachineState,
    q: Quirks,
    key: Option<u8>,
    hi: u8,
    lo: u8,
) -> MachineState {
    let n1 = hi / 16;
    let n3 = lo / 16;
    let n4 = lo % 16;
    let x = (hi % 16) as int;
    let y = (lo / 16) as int;
    let nn = lo;
    let nnn_int = (hi % 16) as int * 256 + lo;
    let pc0 = m.pc;
    let pc2 = wrap_add16(m.pc, 2);
    let pc_skip = wrap_add16(m.pc, 4);
    let m = MachineState { pc: pc2, ..m };
    if n1 == 0x0 && n4 == 0x0 {
        spec_clear(m)
    } else if n1 == 0x0 && n4 == 0xE {
        spec_ret(m)
    } else if n1 == 0x1 {
        MachineState { pc: nnn_int as u16, ..m }
    } else if n1 == 0x2 {
        MachineState { pc: nnn_int as u16, stack: m.stack.push(pc2), ..m }
    } else if n1 == 0x3 {
        MachineState { pc: if m.registers[x] == nn { pc_skip } else { pc2 }, ..m }
    } else if n1 == 0x4 {
        MachineState { pc: if m.registers[x] != nn { pc_skip } else { pc2 }, ..m }
    } else if n1 == 0x5 {
        MachineState { pc: if m.registers[x] == m.registers[y] { pc_skip } else { pc2 }, ..m }
    } else if n1 == 0x9 {
        MachineState { pc: if m.registers[x] != m.registers[y] { pc_skip } else { pc2 }, ..m }
    } else if n1 == 0x6 {
        MachineState { registers: m.registers.update(x, nn), ..m }
    } else if n1 == 0x7 {
        MachineState { registers: m.registers.update(x, wrap_add8(m.registers[x], nn)), ..m }
    } else if n1 == 0xA {
        MachineState { index: nnn_int as u16, ..m }
    } else if n1 == 0x8 {
        spec_alu(m, q, x, y, n4)
    } else if n1 == 0xD {
        spec_draw(m, x, y, n4 as int)
    } else if n1 == 0xB {
        // Jump with offset; the quirk selects which register supplies it.
        let off = if q.bxnn {
            m.registers[x]
        } else {
            m.registers[0]
        };
        MachineState { pc: (nnn_int + off) as u16, ..m }
    } else if n1 == 0xE && n3 == 0x9 && n4 == 0xE {
        MachineState { pc: if key == Some(m.registers[x]) { pc_skip } else { pc2 }, ..m }
    } else if n1 == 0xE && n3 == 0xA && n4 == 0x1 {
        MachineState { pc: if key != Some(m.registers[x]) { pc_skip } else { pc2 }, ..m }
    } else if n1 == 0xF && n3 == 0x0 && n4 == 0x7 {
        MachineState { registers: m.registers.update(x, m.dt), ..m }
    } else if n1 == 0xF && n3 == 0x0 && n4 == 0xA {
        spec_key_wait(m, x, key, pc0)
    } else if n1 == 0xF && n3 == 0x1 && n4 == 0x5 {
        MachineState { dt: m.registers[x], ..m }
    } else if n1 == 0xF && n3 == 0x1 && n4 == 0x8 {
        MachineState { st: m.registers[x], ..m }
    } else if n1 == 0xF && n3 == 0x1 && n4 == 0xE {
        spec_index_add(m, q, x)
    } else if n1 == 0xF && n3 == 0x3 && n4 == 0x3 {
        spec_bcd(m, x)
    } else if n1 == 0xF && n3 == 0x5 {
        spec_reg_dump(m, q, x)
    } else if n1 == 0xF && n3 == 0x6 {
        spec_reg_load(m, q, x)
    } else {
        // Unknown instruction: ignored, with the counter already advanced.
        m
    }
}

/// Whether the instruction two big-endian bytes spell queries the key state,
/// so that its outcome depends on the polled key.
pub open spec fn is_key_instruction(hi: u8, lo: u8) -> bool {
    let n1 = hi / 16;
    let n3 = lo / 16;
    let n4 = lo % 16;
    ||| n1 == 0xE && n3 == 0x9 && n4 == 0xE
    ||| n1 == 0xE && n3 == 0xA && n4 == 0x1
    ||| n1 == 0xF && n3 == 0x0 && n4 == 0xA
}

/// One full cycle: fetch the two bytes at the program counter, advance it by
/// 2, then execute. A program counter from which no two bytes can be fetched
/// leaves the state unchanged, the counter included: the machine parks on
/// that address, since no instruction stream exists past the end of memory
/// to make progress through.
pub open spec fn spec_cycle(m: MachineState, q: Quirks, key: Option<u8>) -> MachineState {
    if m.pc + 1 >= MEMORY_SIZE {
        m
    } else {
        spec_exec(m, q, key, m.memory[m.pc as int], m.memory[m.pc as int + 1])
    }
}

/// Drawing one set sprite bit: extending the processed part of the sprite by
/// a set bit over pixel `(x0 + c, y0 + r)` flips exactly that pixel, and
/// extends the collision report by that pixel's prior state.
pub(crate) proof fn lemma_draw_step_set(
    d: Seq<Seq<bool>>,
    mem: Seq<u8>,
    i: int,
    x0: int,
    y0: int,
    r: int,
    c: int,
)
    requires
        0 <= x0,
        0 <= y0,
        0 <= r,
        0 <= c < 8,
        x0 + c < d.len(),
        y0 + r < d[x0 + c].len(),
        byte_bit(mem[i + r], c),
    ensures
        draw_prefix(d, mem, i, x0, y0, r, c)[x0 + c][y0 + r] == d[x0 + c][y0 + r],
        draw_prefix(d, mem, i, x0, y0, r, c + 1) =~~= draw_prefix(d, mem, i, x0, y0, r, c).update(
            x0 + c,
            draw_prefix(d, mem, i, x0, y0, r, c)[x0 + c].update(y0 + r, !d[x0 + c][y0 + r]),
        ),
        collision_prefix(d, mem, i, x0, y0, r, c + 1) == (collision_prefix(d, mem, i, x0, y0, r, c)
            || d[x0 + c][y0 + r]),
{
    assert forall|px: int, py: int| #[trigger] covers_prefix(mem, i, x0, y0, r, c + 1, px, py)
        implies covers_prefix(mem, i, x0, y0, r, c, px, py) || (px == x0 + c && py == y0
        + r) by {}
    if collision_prefix(d, mem, i, x0, y0, r, c + 1) {
        let (px, py) = choose|px: int, py: int|
            0 <= px < d.len() && 0 <= py < d[px].len() && d[px][py] && #[trigger] covers_prefix(
                mem,
                i,
                x0,
                y0,
                r,
                c + 1,
                px,
                py,
            );
        assert(collision_prefix(d, mem, i, x0, y0, r, c) || d[x0 + c][y0 + r]);
    }
    if collision_prefix(d, mem, i, x0, y0, r, c) {
        let (px, py) = choose|px: int, py: int|
            0 <= px < d.len() && 0 <= py < d[px].len() && d[px][py] && #[trigger] covers_prefix(
                mem,
                i,
                x0,
                y0,
                r,
                c,
                px,
                py,
            );
        assert(covers_prefix(mem, i, x0, y0, r, c + 1, px, py));
    }
    if d[x0 + c][y0 + r] {
        assert(covers_prefix(mem, i, x0, y0, r, c + 1, x0 + c, y0 + r));
    }
}

/// Drawing one clear sprite bit: extending the processed part of the sprite
/// by a clear bit changes nothing.
pub(crate) proof fn lemma_draw_step_clear(
    d: Seq<Seq<bool>>,
    mem: Seq<u8>,
    i: int,
    x0: int,
    y0: int,
    r: int,
    c: int,
)
    requires
        0 <= x0,
        0 <= y0,
        0 <= r,
        0 <= c < 8,
        !byte_bit(mem[i + r], c),
    ensures
        draw_prefix(d, mem, i, x0, y0, r, c + 1) =~~= draw_prefix(d, mem, i, x0, y0, r, c),
        collision_prefix(d, mem, i, x0, y0, r, c + 1) == collision_prefix(d, mem, i, x0, y0, r, c),
{
    assert forall|px: int, py: int|
        covers_prefix(mem, i, x0, y0, r, c + 1, px, py) == covers_prefix(
            mem,
            i,
            x0,
            y0,
            r,
            c,
            px,
            py,
        ) by {}
    if collision_prefix(d, mem, i, x0, y0, r, c + 1) {
        let (px, py) = choose|px: int, py: int|
            0 <= px < d.len() && 0 <= py < d[px].len() && d[px][py] && #[trigger] covers_prefix(
                mem,
                i,
                x0,
                y0,
                r,
                c + 1,
                px,
                py,
            );
        assert(covers_prefix(mem, i, x0, y0, r, c, px, py));
    }
    if collision_prefix(d, mem, i, x0, y0, r, c) {
        let (px, py) = choose|px: int, py: int|
            0 <= px < d.len() && 0 <= py < d[px].len() && d[px][py] && #[trigger] covers_prefix(
                mem,
                i,
                x0,
                y0,
                r,
                c,
                px,
                py,
            );
        assert(covers_prefix(mem, i, x0, y0, r, c + 1, px, py));
    }
}

/// Finishing a sprite row: once the processed columns reach the sprite's
/// width or the display's right edge, the row is as drawn in full.
pub(crate) proof fn lemma_draw_row_end(
    d: Seq<Seq<bool>>,
    mem: Seq<u8>,
    i: int,
    x0: int,
    y0: int,
    r: int,
    c: int,
)
    requires
        0 <= x0,
        0 <= y0,
        0 <= r,
        0 <= c,
        c >= 8 || x0 + c >= d.len(),
    ensures
        draw_prefix(d, mem, i, x0, y0, r, c) =~~= draw_prefix(d, mem, i, x0, y0, r + 1, 0),
        collision_prefix(d, mem, i, x0, y0, r, c) == collision_prefix(d, mem, i, x0, y0, r + 1, 0),
{
    assert forall|px: int, py: int| 0 <= px < d.len() implies covers_prefix(
        mem,
        i,
        x0,
        y0,
        r,
        c,
        px,
        py,
    ) == covers_prefix(mem, i, x0, y0, r + 1, 0, px, py) by {}
    if collision_prefix(d, mem, i, x0, y0, r, c) {
        let (px, py) = choose|px: int, py: int|
            0 <= px < d.len() && 0 <= py < d[px].len() && d[px][py] && #[trigger] covers_prefix(
                mem,
                i,
                x0,
                y0,
                r,
                c,
                px,
                py,
            );
        assert(covers_prefix(mem, i, x0, y0, r + 1, 0, px, py));
    }
    if collision_prefix(d, mem, i, x0, y0, r + 1, 0) {
        let (px, py) = choose|px: int, py: int|
            0 <= px < d.len() && 0 <= py < d[px].len() && d[px][py] && #[trigger] covers_prefix(
                mem,
                i,
                x0,
                y0,
                r + 1,
                0,
                px,
                py,
            );
        assert(covers_prefix(mem, i, x0, y0, r, c, px, py));
    }
}

/// Finishing a sprite: once the processed rows reach the sprite's height or
/// the display's bottom edge, the sprite is as drawn in full.
pub(crate) proof fn lemma_draw_complete(
    d: Seq<Seq<bool>>,
    mem: Seq<u8>,
    i: int,
    x0: int,
    y0: int,
    n: int,
    r: int,
)
    requires
        0 <= x0,
        0 <= y0,
        0 <= r <= n,
        r == n || forall|px: int| 0 <= px < d.len() ==> y0 + r >= (#[trigger] d[px]).len(),
    ensures
        draw_prefix(d, mem, i, x0, y0, r, 0) =~~= draw_prefix(d, mem, i, x0, y0, n, 0),
        collision_prefix(d, mem, i, x0, y0, r, 0) == collision_prefix(d, mem, i, x0, y0, n, 0),
{
    assert forall|px: int, py: int| 0 <= px < d.len() && 0 <= py < d[px].len() implies
        covers_prefix(mem, i, x0, y0, r, 0, px, py) == covers_prefix(
        mem,
        i,
        x0,
        y0,
        n,
        0,
        px,
        py,
    ) by {}
    if collision_prefix(d, mem, i, x0, y0, r, 0) {
        let (px, py) = choose|px: int, py: int|
            0 <= px < d.len() && 0 <= py < d[px].len() && d[px][py] && #[trigger] covers_prefix(
                mem,
                i,
                x0,
                y0,
                r,
                0,
                px,
                py,
            );
        assert(covers_prefix(mem, i, x0, y0, n, 0, px, py));
    }
    if collision_prefix(d, mem, i, x0, y0, n, 0) {
        let (px, py) = choose|px: int, py: int|
            0 <= px < d.len() && 0 <= py < d[px].len() && d[px][py] && #[trigger] covers_prefix(
                mem,
                i,
                x0,
                y0,
                n,
                0,
                px,
                py,
            );
        assert(covers_prefix(mem, i, x0, y0, r, 0, px, py));
    }
}

/// The font glyphs written into memory at construction: sixteen sprites of
/// five bytes each, the hexadecimal digit shapes.
pub open spec fn font_seq() -> Seq<u8> {
    seq![
        0xF0u8, 0x90u8, 0x90u8, 0x90u8, 0xF0u8,  // 0
        0x20u8, 0x60u8, 0x20u8, 0x20u8, 0x70u8,  // 1
        0xF0u8, 0x10u8, 0xF0u8, 0x80u8, 0xF0u8,  // 2
        0xF0u8, 0x10u8, 0xF0u8, 0x10u8, 0xF0u8,  // 3
        0x90u8, 0x90u8, 0xF0u8, 0x10u8, 0x10u8,  // 4
        0xF0u8, 0x80u8, 0xF0u8, 0x10u8, 0xF0u8,  // 5
        0xF0u8, 0x80u8, 0xF0u8, 0x90u8, 0xF0u8,  // 6
        0xF0u8, 0x10u8, 0x20u8, 0x40u8, 0x40u8,  // 7
        0xF0u8, 0x90u8, 0xF0u8, 0x90u8, 0xF0u8,  // 8
        0xF0u8, 0x90u8, 0xF0u8, 0x10u8, 0xF0u8,  // 9
        0xF0u8, 0x90u8, 0xF0u8, 0x90u8, 0x90u8,  // A
        0xE0u8, 0x90u8, 0xE0u8, 0x90u8, 0xE0u8,  // B
        0xF0u8, 0x80u8, 0x80u8, 0x80u8, 0xF0u8,  // C
        0xE0u8, 0x90u8, 0x90u8, 0x90u8, 0xE0u8,  // D
        0xF0u8, 0x80u8, 0xF0u8, 0x80u8, 0xF0u8,  // E
        0xF0u8, 0x80u8, 0xF0u8, 0x80u8, 0x80u8,  // F
    ]
}

/// Memory as construction leaves it: zeroed, with the font glyphs at
/// [`FONT_START`] and the program image at [`PROGRAM_START`].
pub open spec fn init_memory(rom: Seq<u8>) -> Seq<u8> {
    Seq::new(
        MEMORY_SIZE as nat,
        |a: int|
            if FONT_START <= a < FONT_START + font_seq().len() {
                font_seq()[a - FONT_START]
            } else if PROGRAM_START <= a < PROGRAM_START + rom.len() {
                rom[a - PROGRAM_START]
            } else {
                0u8
            },
    )
}

/// The machine state construction establishes: initialized memory, a cleared
/// display and dirty flag, the program counter at the program start, and all
/// registers, timers and the stack zeroed.
pub open spec fn init_state(rom: Seq<u8>) -> MachineState {
    MachineState {
        memory: init_memory(rom),
        display: Seq::new(
            DISPLAY_WIDTH as nat,
            |x: int| Seq::new(DISPLAY_HEIGHT as nat, |y: int| false),
        ),
        pc: PROGRAM_START,
        index: 0,
        stack: Seq::empty(),
        dt: 0,
        st: 0,
        registers: Seq::new(16, |i: int| 0u8),
        is_dirty: false,
    }
}

/// One timer step: each nonzero timer is decremented. The host drives this
/// at a fixed real-time cadence; the sound timer's transition to zero is
/// when the machine signals the stop-beep capability.
pub open spec fn spec_decr_timers(m: MachineState) -> MachineState {
    MachineState {
        dt: if m.dt > 0 {
            (m.dt - 1) as u8
        } else {
            m.dt
        },
        st: if m.st > 0 {
            (m.st - 1) as u8
        } else {
            m.st
        },
        ..m
    }
}

} // verus!
