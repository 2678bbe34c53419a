//! Laws of the instruction semantics, each proved of the abstract step
//! function that [`crate::machine::Machine::cycle_with_key`] is specified
//! against: arithmetic wraparound and flag polarity, XOR-draw involution,
//! clear-screen, dump/load round-trips, key-wait blocking, and call/return
//! pairing.

use vstd::prelude::*;

use crate::quirks::Quirks;
use crate::semantics::{
    collision_prefix, covers_prefix, draw_prefix, lemma_dump_mem_facts, lemma_load_regs_facts,
    spec_cycle, spec_reg_dump, spec_reg_load, state_wf, wrap_add16, MachineState, DISPLAY_HEIGHT,
    DISPLAY_WIDTH, MEMORY_SIZE,
};

verus! {

/// 8-bit addition wraps silently, and the flags register reports the carry:
/// executing an add-with-carry instruction leaves the sum modulo 256 in the
/// target register and 1 in the flags register exactly on overflow.
pub proof fn lemma_add_wraps(m: MachineState, q: Quirks, key: Option<u8>, x: int, y: int)
    requires
        state_wf(m),
        m.pc + 1 < MEMORY_SIZE,
        0 <= x < 15,
        0 <= y < 16,
        m.memory[m.pc as int] / 16 == 0x8,
        m.memory[m.pc as int] % 16 == x,
        m.memory[m.pc as int + 1] / 16 == y,
        m.memory[m.pc as int + 1] % 16 == 0x4,
    ensures
        spec_cycle(m, q, key).registers[x] == (m.registers[x] + m.registers[y]) % 256,
        spec_cycle(m, q, key).registers[0xF] == if m.registers[x] + m.registers[y] > 255 {
            1u8
        } else {
            0u8
        },
{
}

/// 8-bit subtraction wraps silently, and the flags register reports the
/// absence of a borrow: executing a subtract-with-borrow instruction leaves
/// the difference modulo 256 in the target register, and 1 in the flags
/// register exactly when the minuend was at least the subtrahend.
pub proof fn lemma_sub_borrow(m: MachineState, q: Quirks, key: Option<u8>, x: int, y: int)
    requires
        state_wf(m),
        m.pc + 1 < MEMORY_SIZE,
        0 <= x < 15,
        0 <= y < 16,
        m.memory[m.pc as int] / 16 == 0x8,
        m.memory[m.pc as int] % 16 == x,
        m.memory[m.pc as int + 1] / 16 == y,
        m.memory[m.pc as int + 1] % 16 == 0x5,
    ensures
        spec_cycle(m, q, key).registers[x] == (m.registers[x] - m.registers[y] + 256) % 256,
        spec_cycle(m, q, key).registers[0xF] == if m.registers[x] >= m.registers[y] {
            1u8
        } else {
            0u8
        },
{
    assert((m.registers[x] - m.registers[y]) % 256 == (m.registers[x] - m.registers[y] + 256)
        % 256);
}

/// Clearing the display sets every cell false and raises the dirty flag.
pub proof fn lemma_clear_display(m: MachineState, q: Quirks, key: Option<u8>)
    requires
        state_wf(m),
        m.pc + 1 < MEMORY_SIZE,
        m.memory[m.pc as int] / 16 == 0x0,
        m.memory[m.pc as int + 1] % 16 == 0x0,
    ensures
        forall|px: int, py: int|
            0 <= px < DISPLAY_WIDTH && 0 <= py < DISPLAY_HEIGHT ==> !(#[trigger] spec_cycle(
                m,
                q,
                key,
            ).display[px][py]),
        spec_cycle(m, q, key).is_dirty,
{
}

/// XOR-drawing is an involution: drawing the same sprite at the same
/// position twice restores every pixel, and the second draw reports a
/// collision on exactly the pixels the first draw set.
pub proof fn lemma_draw_involutive(d: Seq<Seq<bool>>, mem: Seq<u8>, i: int, x0: int, y0: int, n: int)
    ensures
        draw_prefix(draw_prefix(d, mem, i, x0, y0, n, 0), mem, i, x0, y0, n, 0) =~~= d,
        collision_prefix(draw_prefix(d, mem, i, x0, y0, n, 0), mem, i, x0, y0, n, 0) == (exists|
            px: int,
            py: int,
        |
            0 <= px < d.len() && 0 <= py < d[px].len() && !d[px][py] && #[trigger] covers_prefix(
                mem,
                i,
                x0,
                y0,
                n,
                0,
                px,
                py,
            )),
{
    let d1 = draw_prefix(d, mem, i, x0, y0, n, 0);
    if collision_prefix(d1, mem, i, x0, y0, n, 0) {
        let (px, py) = choose|px: int, py: int|
            0 <= px < d1.len() && 0 <= py < d1[px].len() && d1[px][py] && #[trigger] covers_prefix(
                mem,
                i,
                x0,
                y0,
                n,
                0,
                px,
                py,
            );
        assert(!d[px][py] && covers_prefix(mem, i, x0, y0, n, 0, px, py));
    }
    if exists|px: int, py: int|
        0 <= px < d.len() && 0 <= py < d[px].len() && !d[px][py] && #[trigger] covers_prefix(
            mem,
            i,
            x0,
            y0,
            n,
            0,
            px,
            py,
        ) {
        let (px, py) = choose|px: int, py: int|
            0 <= px < d.len() && 0 <= py < d[px].len() && !d[px][py] && #[trigger] covers_prefix(
                mem,
                i,
                x0,
                y0,
                n,
                0,
                px,
                py,
            );
        assert(d1[px][py] && covers_prefix(mem, i, x0, y0, n, 0, px, py));
    }
}

/// Two consecutive identical draw instructions cancel on the display: the
/// second draw clears every pixel the first one set, restores every pixel
/// it cleared, and reports collision flag 1 whenever the first draw set any
/// pixel at all. The coordinate registers must not be the flags register,
/// which the first draw overwrites.
#[verifier::rlimit(100)]
pub proof fn lemma_draw_twice(m: MachineState, q: Quirks, key1: Option<u8>, key2: Option<u8>)
    requires
        state_wf(m),
        m.pc + 3 < MEMORY_SIZE,
        m.memory[m.pc as int] / 16 == 0xD,
        m.memory[m.pc as int] % 16 != 0xF,
        m.memory[m.pc as int + 1] / 16 != 0xF,
        m.memory[m.pc as int + 2] == m.memory[m.pc as int],
        m.memory[m.pc as int + 3] == m.memory[m.pc as int + 1],
        crate::semantics::sprite_in_bounds(
            m,
            (m.memory[m.pc as int + 1] / 16) as int,
            (m.memory[m.pc as int + 1] % 16) as int,
        ),
    ensures
        spec_cycle(spec_cycle(m, q, key1), q, key2).display =~~= m.display,
        (exists|px: int, py: int|
            0 <= px < DISPLAY_WIDTH && 0 <= py < DISPLAY_HEIGHT && !m.display[px][py]
                && #[trigger] covers_prefix(
                m.memory,
                m.index as int,
                m.registers[(m.memory[m.pc as int] % 16) as int] as int % (DISPLAY_WIDTH as int),
                m.registers[(m.memory[m.pc as int + 1] / 16) as int] as int % (
                DISPLAY_HEIGHT as int),
                (m.memory[m.pc as int + 1] % 16) as int,
                0,
                px,
                py,
            )) ==> spec_cycle(spec_cycle(m, q, key1), q, key2).registers[0xF] == 1,
{
    let x = (m.memory[m.pc as int] % 16) as int;
    let y = (m.memory[m.pc as int + 1] / 16) as int;
    let n = (m.memory[m.pc as int + 1] % 16) as int;
    let x0 = m.registers[x] as int % (DISPLAY_WIDTH as int);
    let y0 = m.registers[y] as int % (DISPLAY_HEIGHT as int);
    let i = m.index as int;
    let m1 = spec_cycle(m, q, key1);
    assert(m1.display == draw_prefix(m.display, m.memory, i, x0, y0, n, 0));
    assert(m1.memory == m.memory && m1.index == m.index && m1.pc == wrap_add16(m.pc, 2));
    assert(m1.registers[x] == m.registers[x] && m1.registers[y] == m.registers[y]);
    assert(m1.memory[m1.pc as int] == m.memory[m.pc as int]);
    assert(m1.memory[m1.pc as int + 1] == m.memory[m.pc as int + 1]);
    assert(crate::semantics::sprite_rows(m1, y, n) == crate::semantics::sprite_rows(m, y, n));
    let m2 = spec_cycle(m1, q, key2);
    assert(m2.display == draw_prefix(m1.display, m.memory, i, x0, y0, n, 0));
    lemma_draw_involutive(m.display, m.memory, i, x0, y0, n);
    assert(m2.display =~~= m.display);
    assert(m2.registers[0xF] == if collision_prefix(m1.display, m.memory, i, x0, y0, n, 0) {
        1u8
    } else {
        0u8
    });
}

/// A register dump followed by a register load through the same memory
/// region round-trips every register value, whatever the index-increment
/// quirk, as long as the load runs with the dump's quirk selection and the
/// dump's starting index. Both operations use the consecutive cells from
/// that index; the quirk moves only the index register afterwards.
pub proof fn lemma_dump_load_round_trip(m: MachineState, q: Quirks, x: int)
    requires
        state_wf(m),
        0 <= x < 16,
        m.index + x < MEMORY_SIZE,
    ensures
        ({
            let dumped = spec_reg_dump(m, q, x);
            let reread = spec_reg_load(MachineState { index: m.index, ..dumped }, q, x);
            reread.registers =~= m.registers
        }),
{
    let i0 = m.index as int;
    lemma_dump_mem_facts(m.memory, m.registers, i0, x + 1);
    let dumped = spec_reg_dump(m, q, x);
    lemma_load_regs_facts(m.registers, dumped.memory, i0, x + 1);
}

/// The key-wait instruction blocks by re-execution: with no key reported
/// the cycle leaves the machine exactly as it was, so the same instruction
/// runs again; with a key reported it is stored and execution proceeds past
/// the instruction.
pub proof fn lemma_key_wait(m: MachineState, q: Quirks)
    requires
        state_wf(m),
        m.pc + 1 < MEMORY_SIZE,
        m.memory[m.pc as int] / 16 == 0xF,
        m.memory[m.pc as int + 1] == 0x0A,
    ensures
        spec_cycle(m, q, None) == m,
        forall|k: u8| (#[trigger] spec_cycle(m, q, Some(k))).pc == wrap_add16(m.pc, 2),
        forall|k: u8|
            (#[trigger] spec_cycle(m, q, Some(k))).registers == m.registers.update(
                (m.memory[m.pc as int] % 16) as int,
                k,
            ),
{
    assert(spec_cycle(m, q, None) =~~= m);
}

/// A subroutine call followed by the return it reaches restores the program
/// counter to the instruction immediately after the call, and the stack to
/// its prior contents.
pub proof fn lemma_call_return(m: MachineState, q: Quirks, key1: Option<u8>, key2: Option<u8>)
    requires
        state_wf(m),
        m.pc + 1 < MEMORY_SIZE,
        m.memory[m.pc as int] / 16 == 0x2,
        (m.memory[m.pc as int] % 16) as int * 256 + m.memory[m.pc as int + 1] + 1 < MEMORY_SIZE,
        m.memory[(m.memory[m.pc as int] % 16) as int * 256 + m.memory[m.pc as int + 1]] == 0x00,
        m.memory[(m.memory[m.pc as int] % 16) as int * 256 + m.memory[m.pc as int + 1] + 1]
            == 0xEE,
    ensures
        spec_cycle(spec_cycle(m, q, key1), q, key2).pc == wrap_add16(m.pc, 2),
        spec_cycle(spec_cycle(m, q, key1), q, key2).stack =~= m.stack,
{
    let m1 = spec_cycle(m, q, key1);
    assert(m1.stack.drop_last() =~= m.stack);
}

/// A return with an empty stack is a recoverable anomaly: the cycle does
/// not fail, and the machine is unchanged but for the ordinary advance of
/// the program counter past the malformed return.
pub proof fn lemma_return_empty_stack(m: MachineState, q: Quirks, key: Option<u8>)
    requires
        state_wf(m),
        m.pc + 1 < MEMORY_SIZE,
        m.stack.len() == 0,
        m.memory[m.pc as int] / 16 == 0x0,
        m.memory[m.pc as int + 1] % 16 == 0xE,
    ensures
        spec_cycle(m, q, key) == (MachineState { pc: wrap_add16(m.pc, 2), ..m }),
{
    assert(spec_cycle(m, q, key) =~~= MachineState { pc: wrap_add16(m.pc, 2), ..m });
}

/// Binary-coded-decimal conversion writes the hundreds, tens and units
/// digits of the register's value, each below ten, to three consecutive
/// cells starting at the index register.
pub proof fn lemma_bcd_digits(m: MachineState, q: Quirks, key: Option<u8>)
    requires
        state_wf(m),
        m.pc + 1 < MEMORY_SIZE,
        m.memory[m.pc as int] / 16 == 0xF,
        m.memory[m.pc as int + 1] == 0x33,
        m.index + 2 < MEMORY_SIZE,
    ensures
        ({
            let v = m.registers[(m.memory[m.pc as int] % 16) as int];
            let out = spec_cycle(m, q, key).memory;
            &&& out[m.index as int] == v as int / 100
            &&& out[m.index as int + 1] == (v as int / 10) % 10
            &&& out[m.index as int + 2] == v as int % 10
            &&& out[m.index as int] < 10
            &&& out[m.index as int + 1] < 10
            &&& out[m.index as int + 2] < 10
        }),
{
}

} // verus!
