//! The mathematical semantics of the instruction set: decode views of the
//! two-byte instruction word and, per opcode family, the machine state,
//! display and step report after executing it. The interpreter in
//! `step` is verified against `spec_tick` and `spec_exec_opcode`.

use vstd::prelude::*;

use crate::draw::{spec_draw_collision, spec_draw_screen};
use crate::state::{Fault, Model, StepResult, spec_fetch};

verus! {

/// The opcode family: the top 4 bits of the instruction word.
pub open spec fn op_family(op: u16) -> u16 {
    op / 0x1000
}

/// The 12-bit address field.
pub open spec fn op_addr(op: u16) -> u16 {
    op % 0x1000
}

/// The 8-bit immediate: the low byte.
pub open spec fn op_nn(op: u16) -> u8 {
    (op % 0x100) as u8
}

/// The 4-bit immediate: the low nibble.
pub open spec fn op_n(op: u16) -> u16 {
    op % 0x10
}

/// The first register-index field: bits 8..12.
pub open spec fn op_x(op: u16) -> int {
    (op as int / 0x100) % 0x10
}

/// The second register-index field: bits 4..8.
pub open spec fn op_y(op: u16) -> int {
    (op as int / 0x10) % 0x10
}

/// The lowest memory address outside the 4096-cell range that an access
/// beginning at `base` would touch: `base` itself if already out of
/// range, else the first cell past the end of memory.
pub open spec fn oob_addr(base: int) -> u16 {
    if base >= 4096 {
        base as u16
    } else {
        4096u16
    }
}

/// The index of the first held key in `keys` at or after `start`,
/// scanning in increasing key order.
pub open spec fn first_held(keys: Seq<bool>, start: int) -> Option<u8>
    decreases 16 - start,
{
    if start < 0 || start >= 16 {
        None
    } else if keys[start] {
        Some(start as u8)
    } else {
        first_held(keys, start + 1)
    }
}

/// Scanning for the first held key may skip over keys known not to be
/// held: if none of the keys before `start` is held, the scan from 0
/// finds whatever the scan from `start` finds.
pub proof fn lemma_first_held_prefix(keys: Seq<bool>, start: int)
    requires
        0 <= start <= 16,
        forall|j: int| 0 <= j < start ==> !keys[j],
    ensures
        first_held(keys, 0) == first_held(keys, start),
    decreases start,
{
    if start > 0 {
        lemma_first_held_prefix(keys, start - 1);
        assert(first_held(keys, start - 1) == first_held(keys, start));
    }
}

/// The arithmetic/logic family (top nibble 8), sub-selected by the low
/// nibble. Updates are written in assignment order, so an operation whose
/// destination is VF itself ends with whatever the last assignment left.
pub open spec fn spec_alu(m: Model, op: u16) -> (Model, StepResult) {
    let x = op_x(op);
    let y = op_y(op);
    let vx = m.v[x];
    let vy = m.v[y];
    match op_n(op) {
        0x0 => (Model { v: m.v.update(x, vy), ..m }, StepResult::Continued),
        0x1 => (Model { v: m.v.update(x, vx | vy), ..m }, StepResult::Continued),
        0x2 => (Model { v: m.v.update(x, vx & vy), ..m }, StepResult::Continued),
        0x3 => (Model { v: m.v.update(x, vx ^ vy), ..m }, StepResult::Continued),
        0x4 => {
            let sum = vx + vy;
            let flag: u8 = if sum > 255 { 1 } else { 0 };
            (
                Model { v: m.v.update(x, (sum % 256) as u8).update(15, flag), ..m },
                StepResult::Continued,
            )
        },
        0x5 => {
            let flag: u8 = if vx >= vy { 1 } else { 0 };
            (
                Model { v: m.v.update(x, ((vx - vy) % 256) as u8).update(15, flag), ..m },
                StepResult::Continued,
            )
        },
        0x6 => {
            let v1 = if m.shift_uses_vy { m.v.update(x, vy) } else { m.v };
            let v2 = v1.update(15, v1[x] & 1);
            (Model { v: v2.update(x, v2[x] >> 1), ..m }, StepResult::Continued)
        },
        0x7 => {
            let flag: u8 = if vy >= vx { 1 } else { 0 };
            (
                Model { v: m.v.update(x, ((vy - vx) % 256) as u8).update(15, flag), ..m },
                StepResult::Continued,
            )
        },
        0xE => {
            let v1 = if m.shift_uses_vy { m.v.update(x, vy) } else { m.v };
            let v2 = v1.update(15, (v1[x] >> 7) & 1);
            (Model { v: v2.update(x, v2[x] << 1), ..m }, StepResult::Continued)
        },
        _ => (m, StepResult::UnknownOpcode(op)),
    }
}

/// The key-test family (top nibble E): skip the next instruction according
/// to whether the key named by VX is held; a register value outside the 16
/// key indices is a fatal fault.
pub open spec fn spec_keyop(m: Model, op: u16, keys: Seq<bool>) -> (Model, StepResult) {
    let vx = m.v[op_x(op)];
    match op_nn(op) {
        0x9E => if vx >= 16 {
            (m, StepResult::Faulted(Fault::KeyOutOfRange(vx)))
        } else if keys[vx as int] {
            (Model { pc: (m.pc + 2) as u16, ..m }, StepResult::Continued)
        } else {
            (m, StepResult::Continued)
        },
        0xA1 => if vx >= 16 {
            (m, StepResult::Faulted(Fault::KeyOutOfRange(vx)))
        } else if !keys[vx as int] {
            (Model { pc: (m.pc + 2) as u16, ..m }, StepResult::Continued)
        } else {
            (m, StepResult::Continued)
        },
        _ => (m, StepResult::UnknownOpcode(op)),
    }
}

/// Memory with the registers V0..VX stored consecutively at `base`.
pub open spec fn spec_store_regs(ram: Seq<u8>, v: Seq<u8>, base: int, x: int) -> Seq<u8> {
    Seq::new(4096, |a: int| if base <= a < base + x + 1 {
        v[a - base]
    } else {
        ram[a]
    })
}

/// Registers with V0..VX loaded from memory starting at `base`.
pub open spec fn spec_load_regs(ram: Seq<u8>, v: Seq<u8>, base: int, x: int) -> Seq<u8> {
    Seq::new(16, |r: int| if r <= x {
        ram[base + r]
    } else {
        v[r]
    })
}

/// The miscellaneous/timer family (top nibble F), sub-selected by the low
/// byte: timer reads and writes, the wait-for-key latch, index-register
/// arithmetic, the font lookup, decimal decomposition and the two bulk
/// register transfers.
pub open spec fn spec_misc(m: Model, op: u16) -> (Model, StepResult) {
    let x = op_x(op);
    let vx = m.v[x];
    match op_nn(op) {
        0x07 => (Model { v: m.v.update(x, m.delay_timer), ..m }, StepResult::Continued),
        0x0A => (
            Model { wait_for_key: true, key_reg: x as u8, ..m },
            StepResult::Continued,
        ),
        0x15 => (Model { delay_timer: vx, ..m }, StepResult::Continued),
        0x18 => (Model { sound_timer: vx, ..m }, StepResult::Continued),
        0x1E => (Model { i: ((m.i + vx) % 0x10000) as u16, ..m }, StepResult::Continued),
        0x29 => (Model { i: (0x50 + (vx % 16) * 5) as u16, ..m }, StepResult::Continued),
        0x33 => if m.i + 3 > 4096 {
            (m, StepResult::Faulted(Fault::MemoryFault(oob_addr(m.i as int))))
        } else {
            let ram = m.ram
                .update(m.i as int, (vx / 100) as u8)
                .update(m.i as int + 1, ((vx / 10) % 10) as u8)
                .update(m.i as int + 2, (vx % 10) as u8);
            (Model { ram: ram, ..m }, StepResult::Continued)
        },
        0x55 => if m.i + x + 1 > 4096 {
            (m, StepResult::Faulted(Fault::MemoryFault(oob_addr(m.i as int))))
        } else {
            (
                Model { ram: spec_store_regs(m.ram, m.v, m.i as int, x), ..m },
                StepResult::Continued,
            )
        },
        0x65 => if m.i + x + 1 > 4096 {
            (m, StepResult::Faulted(Fault::MemoryFault(oob_addr(m.i as int))))
        } else {
            (
                Model { v: spec_load_regs(m.ram, m.v, m.i as int, x), ..m },
                StepResult::Continued,
            )
        },
        _ => (m, StepResult::UnknownOpcode(op)),
    }
}

/// The draw family (top nibble D): paint the `op_n`-byte sprite at memory
/// address I onto the display at (VX, VY), coordinates wrapping modulo the
/// display dimensions. With XOR semantics VF reports whether any pixel was
/// turned off; with overwrite semantics pixels are replaced and VF is left
/// alone.
pub open spec fn spec_draw_step(m: Model, d: Seq<bool>, op: u16) -> (Model, Seq<bool>, StepResult) {
    let n = op_n(op) as int;
    let base = m.i as int;
    let x0 = m.v[op_x(op)] as int;
    let y0 = m.v[op_y(op)] as int;
    if n > 0 && base + n > 4096 {
        (m, d, StepResult::Faulted(Fault::MemoryFault(oob_addr(base))))
    } else {
        let xor = m.draw_uses_xor_with_collision;
        let d2 = spec_draw_screen(d, m.ram, base, n, x0, y0, xor);
        if xor {
            let flag: u8 = if spec_draw_collision(d, m.ram, base, n, x0, y0) { 1 } else { 0 };
            (Model { v: m.v.update(15, flag), ..m }, d2, StepResult::Continued)
        } else {
            (m, d2, StepResult::Continued)
        }
    }
}

/// The machine state, display and step report after executing the
/// instruction word `op`, the program counter already advanced past it.
pub open spec fn spec_exec_opcode(
    m: Model,
    d: Seq<bool>,
    op: u16,
    keys: Seq<bool>,
    rnd: u8,
) -> (Model, Seq<bool>, StepResult) {
    let addr = op_addr(op);
    let nn = op_nn(op);
    let x = op_x(op);
    let y = op_y(op);
    match op_family(op) {
        0x0 => if op == 0x00E0 {
            (m, Seq::new(2048, |p: int| false), StepResult::Continued)
        } else if op == 0x00EE {
            if m.stack.len() == 0 {
                (m, d, StepResult::Faulted(Fault::StackUnderflow))
            } else {
                (
                    Model { pc: m.stack.last(), stack: m.stack.drop_last(), ..m },
                    d,
                    StepResult::Continued,
                )
            }
        } else {
            (m, d, StepResult::UnknownOpcode(op))
        },
        0x1 => (Model { pc: addr, ..m }, d, StepResult::Continued),
        0x2 => if m.stack.len() >= 16 {
            (m, d, StepResult::Faulted(Fault::StackOverflow))
        } else {
            (Model { stack: m.stack.push(m.pc), pc: addr, ..m }, d, StepResult::Continued)
        },
        0x3 => if m.v[x] == nn {
            (Model { pc: (m.pc + 2) as u16, ..m }, d, StepResult::Continued)
        } else {
            (m, d, StepResult::Continued)
        },
        0x4 => if m.v[x] != nn {
            (Model { pc: (m.pc + 2) as u16, ..m }, d, StepResult::Continued)
        } else {
            (m, d, StepResult::Continued)
        },
        0x5 => if m.v[x] == m.v[y] {
            (Model { pc: (m.pc + 2) as u16, ..m }, d, StepResult::Continued)
        } else {
            (m, d, StepResult::Continued)
        },
        0x6 => (Model { v: m.v.update(x, nn), ..m }, d, StepResult::Continued),
        0x7 => (
            Model { v: m.v.update(x, ((m.v[x] + nn) % 256) as u8), ..m },
            d,
            StepResult::Continued,
        ),
        0x8 => {
            let (m2, r) = spec_alu(m, op);
            (m2, d, r)
        },
        0x9 => if m.v[x] != m.v[y] {
            (Model { pc: (m.pc + 2) as u16, ..m }, d, StepResult::Continued)
        } else {
            (m, d, StepResult::Continued)
        },
        0xA => (Model { i: addr, ..m }, d, StepResult::Continued),
        0xB => {
            let offset = if m.jump_offset_uses_v0 { m.v[0] } else { m.v[x] };
            (Model { pc: (addr + offset) as u16, ..m }, d, StepResult::Continued)
        },
        0xC => (Model { v: m.v.update(x, rnd & nn), ..m }, d, StepResult::Continued),
        0xD => spec_draw_step(m, d, op),
        0xE => {
            let (m2, r) = spec_keyop(m, op, keys);
            (m2, d, r)
        },
        _ => {
            let (m2, r) = spec_misc(m, op);
            (m2, d, r)
        },
    }
}

/// One interpreter step. While the wait-for-key latch is set nothing is
/// fetched: the first held key (in increasing key order) lands in the
/// target register and clears the latch, and an empty snapshot leaves the
/// state untouched. Otherwise the word at the program counter is fetched
/// (a fatal fault if the fetch would leave memory), the counter advances
/// by two, and the word is executed.
pub open spec fn spec_tick(
    m: Model,
    d: Seq<bool>,
    keys: Seq<bool>,
    rnd: u8,
) -> (Model, Seq<bool>, StepResult) {
    if m.wait_for_key {
        match first_held(keys, 0) {
            Some(k) => (
                Model { v: m.v.update(m.key_reg as int, k), wait_for_key: false, ..m },
                d,
                StepResult::Continued,
            ),
            None => (m, d, StepResult::Continued),
        }
    } else if m.pc + 1 >= 4096 {
        (m, d, StepResult::Faulted(Fault::MemoryFault(oob_addr(m.pc as int))))
    } else {
        let op = spec_fetch(m);
        spec_exec_opcode(Model { pc: (m.pc + 2) as u16, ..m }, d, op, keys, rnd)
    }
}

} // verus!
