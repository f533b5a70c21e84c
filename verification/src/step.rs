//! The fetch-decode-execute cycle: one interpreter step, verified against
//! the mathematical semantics in `semantics`.

use vstd::prelude::*;

use vstd::arithmetic::div_mod::{lemma_mod_add_multiples_vanish, lemma_small_mod};

use crate::display::{Display, pix_index};
use crate::draw::{
    lemma_draw_collision_step, lemma_draw_partial_full, lemma_draw_partial_step,
    lemma_draw_partial_zero, lemma_draw_row_roll, lemma_target_offsets, spec_draw_collision_partial,
    spec_draw_partial, sprite_bit,
};
use crate::semantics::{
    lemma_first_held_prefix, spec_alu, spec_draw_step, spec_exec_opcode, spec_misc, spec_tick,
};
use crate::state::{Chip8, Fault, Model, StepResult};

verus! {

impl Chip8 {
    /// The arithmetic/logic family: assignment, bitwise operations,
    /// add-with-carry, the two subtract-with-borrow orders and the two
    /// shifts, with the flag register written exactly as the semantics
    /// prescribe.
    fn exec_alu(&mut self, opcode: u16) -> (r: StepResult)
        requires
            old(self).wf(),
        ensures
            final(self).wf(),
            (final(self)@, r) == spec_alu(old(self)@, opcode),
    {
        let x = ((opcode / 0x100) % 0x10) as usize;
        let y = ((opcode / 0x10) % 0x10) as usize;
        let vx = self.v[x];
        let vy = self.v[y];
        match opcode % 0x10 {
            0x0 => {
                self.v[x] = vy;
                StepResult::Continued
            },
            0x1 => {
                self.v[x] = vx | vy;
                StepResult::Continued
            },
            0x2 => {
                self.v[x] = vx & vy;
                StepResult::Continued
            },
            0x3 => {
                self.v[x] = vx ^ vy;
                StepResult::Continued
            },
            0x4 => {
                let sum: u16 = vx as u16 + vy as u16;
                self.v[x] = (sum % 256) as u8;
                self.v[15] = if sum > 255 { 1 } else { 0 };
                StepResult::Continued
            },
            0x5 => {
                let diff: u16 = (vx as u16 + 256 - vy as u16) % 256;
                proof {
                    lemma_mod_add_multiples_vanish(vx as int - vy as int, 256);
                }
                self.v[x] = diff as u8;
                self.v[15] = if vx >= vy { 1 } else { 0 };
                StepResult::Continued
            },
            0x6 => {
                if self.shift_uses_vy {
                    self.v[x] = vy;
                }
                let src = self.v[x];
                self.v[15] = src & 1;
                let src2 = self.v[x];
                self.v[x] = src2 >> 1u8;
                StepResult::Continued
            },
            0x7 => {
                let diff: u16 = (vy as u16 + 256 - vx as u16) % 256;
                proof {
                    lemma_mod_add_multiples_vanish(vy as int - vx as int, 256);
                }
                self.v[x] = diff as u8;
                self.v[15] = if vy >= vx { 1 } else { 0 };
                StepResult::Continued
            },
            0xE => {
                if self.shift_uses_vy {
                    self.v[x] = vy;
                }
                let src = self.v[x];
                self.v[15] = (src >> 7u8) & 1;
                let src2 = self.v[x];
                self.v[x] = src2 << 1u8;
                StepResult::Continued
            },
            _ => StepResult::UnknownOpcode(opcode),
        }
    }

    /// The miscellaneous/timer family: timer transfers, the wait-for-key
    /// latch, index-register arithmetic, the font lookup, decimal
    /// decomposition and the bulk register store/load.
    fn exec_misc(&mut self, opcode: u16) -> (r: StepResult)
        requires
            old(self).wf(),
        ensures
            final(self).wf(),
            (final(self)@, r) == spec_misc(old(self)@, opcode),
    {
        let x = ((opcode / 0x100) % 0x10) as usize;
        let vx = self.v[x];
        match (opcode % 0x100) as u8 {
            0x07 => {
                self.v[x] = self.delay_timer;
                StepResult::Continued
            },
            0x0A => {
                self.wait_for_key = true;
                self.key_reg = x as u8;
                StepResult::Continued
            },
            0x15 => {
                self.delay_timer = vx;
                StepResult::Continued
            },
            0x18 => {
                self.sound_timer = vx;
                StepResult::Continued
            },
            0x1E => {
                let sum: u32 = (self.i as u32 + vx as u32) % 0x10000;
                self.i = sum as u16;
                StepResult::Continued
            },
            0x29 => {
                self.i = 0x50 + (vx % 16) as u16 * 5;
                StepResult::Continued
            },
            0x33 => {
                let base = self.i as usize;
                if base + 3 > 4096 {
                    let a: u16 = if base >= 4096 { self.i } else { 4096 };
                    return StepResult::Faulted(Fault::MemoryFault(a));
                }
                self.ram[base] = vx / 100;
                self.ram[base + 1] = (vx / 10) % 10;
                self.ram[base + 2] = vx % 10;
                StepResult::Continued
            },
            0x55 => {
                let base = self.i as usize;
                if base + x + 1 > 4096 {
                    let a: u16 = if base >= 4096 { self.i } else { 4096 };
                    return StepResult::Faulted(Fault::MemoryFault(a));
                }
                let mut k: usize = 0;
                while k < x + 1
                    invariant
                        k <= x + 1,
                        x < 16,
                        base + x + 1 <= 4096,
                        old(self).wf(),
                        self@.ram.len() == 4096,
                        self@ == (Model { ram: self@.ram, ..old(self)@ }),
                        forall|a: int| base <= a < base + k
                            ==> self@.ram[a] == old(self)@.v[a - base],
                        forall|a: int| 0 <= a < 4096 && !(base <= a < base + k)
                            ==> self@.ram[a] == old(self)@.ram[a],
                    decreases x + 1 - k,
                {
                    self.ram[base + k] = self.v[k];
                    k = k + 1;
                }
                proof {
                    assert(self@.ram =~= crate::semantics::spec_store_regs(
                        old(self)@.ram,
                        old(self)@.v,
                        base as int,
                        x as int,
                    ));
                    assert(self@ =~= (Model {
                        ram: crate::semantics::spec_store_regs(
                            old(self)@.ram,
                            old(self)@.v,
                            base as int,
                            x as int,
                        ),
                        ..old(self)@
                    }));
                }
                StepResult::Continued
            },
            0x65 => {
                let base = self.i as usize;
                if base + x + 1 > 4096 {
                    let a: u16 = if base >= 4096 { self.i } else { 4096 };
                    return StepResult::Faulted(Fault::MemoryFault(a));
                }
                let mut k: usize = 0;
                while k < x + 1
                    invariant
                        k <= x + 1,
                        x < 16,
                        base + x + 1 <= 4096,
                        old(self).wf(),
                        self@.v.len() == 16,
                        self@ == (Model { v: self@.v, ..old(self)@ }),
                        forall|r: int| 0 <= r < k ==> self@.v[r] == old(self)@.ram[base + r],
                        forall|r: int| k <= r < 16 ==> self@.v[r] == old(self)@.v[r],
                    decreases x + 1 - k,
                {
                    self.v[k] = self.ram[base + k];
                    k = k + 1;
                }
                proof {
                    assert(self@.v =~= crate::semantics::spec_load_regs(
                        old(self)@.ram,
                        old(self)@.v,
                        base as int,
                        x as int,
                    ));
                    assert(self@ =~= (Model {
                        v: crate::semantics::spec_load_regs(
                            old(self)@.ram,
                            old(self)@.v,
                            base as int,
                            x as int,
                        ),
                        ..old(self)@
                    }));
                }
                StepResult::Continued
            },
            _ => StepResult::UnknownOpcode(opcode),
        }
    }

    /// The draw family: blit an `n`-row sprite from memory at I onto the
    /// display at (VX, VY), wrapping coordinates, with XOR-and-collision
    /// or plain overwrite semantics according to the configuration.
    fn exec_draw(&mut self, opcode: u16, display: &mut Display) -> (r: StepResult)
        requires
            old(self).wf(),
            old(display).wf(),
        ensures
            final(self).wf(),
            final(display).wf(),
            (final(self)@, final(display)@, r) == spec_draw_step(old(self)@, old(display)@, opcode),
    {
        let x = ((opcode / 0x100) % 0x10) as usize;
        let y = ((opcode / 0x10) % 0x10) as usize;
        let n = (opcode % 0x10) as usize;
        let x0 = self.v[x];
        let y0 = self.v[y];
        let base = self.i as usize;
        if n > 0 && base + n > 4096 {
            let a: u16 = if base >= 4096 { self.i } else { 4096 };
            return StepResult::Faulted(Fault::MemoryFault(a));
        }
        let xor = self.draw_uses_xor_with_collision;
        let ghost d0 = display@;
        let ghost ram0 = self.ram@;
        let ghost bi = base as int;
        let ghost ni = n as int;
        let ghost xi = x0 as int;
        let ghost yi = y0 as int;
        proof {
            lemma_draw_partial_zero(d0, ram0, bi, ni, xi, yi, xor);
        }
        let mut collision = false;
        let mut dy: usize = 0;
        while dy < n
            invariant
                dy <= n,
                n < 16,
                n > 0 ==> base + n <= 4096,
                self@ == old(self)@,
                self.wf(),
                display.wf(),
                display@ == spec_draw_partial(d0, ram0, bi, ni, xi, yi, xor, dy as int, 0),
                xor ==> collision == spec_draw_collision_partial(
                    d0,
                    ram0,
                    bi,
                    ni,
                    xi,
                    yi,
                    dy as int,
                    0,
                ),
                d0 == old(display)@,
                d0.len() == 2048,
                ram0 == self@.ram,
                bi == base as int,
                ni == n as int,
                xi == x0 as int,
                yi == y0 as int,
                xor == self@.draw_uses_xor_with_collision,
            decreases n - dy,
        {
            let byte = self.ram[base + dy];
            let mut dx: usize = 0;
            while dx < 8
                invariant
                    dx <= 8,
                    dy < n,
                    n < 16,
                    base + n <= 4096,
                    self@ == old(self)@,
                    self.wf(),
                    display.wf(),
                    byte == ram0[bi + dy],
                    display@ == spec_draw_partial(
                        d0,
                        ram0,
                        bi,
                        ni,
                        xi,
                        yi,
                        xor,
                        dy as int,
                        dx as int,
                    ),
                    xor ==> collision == spec_draw_collision_partial(
                        d0,
                        ram0,
                        bi,
                        ni,
                        xi,
                        yi,
                        dy as int,
                        dx as int,
                    ),
                    d0 == old(display)@,
                    d0.len() == 2048,
                    ram0 == self@.ram,
                    bi == base as int,
                    ni == n as int,
                    xi == x0 as int,
                    yi == y0 as int,
                    xor == self@.draw_uses_xor_with_collision,
                decreases 8 - dx,
            {
                let sh: u8 = (7 - dx) as u8;
                let bit = (byte >> sh) & 1 == 1;
                let px: u8 = ((x0 as usize + dx) % 64) as u8;
                let py: u8 = ((y0 as usize + dy) % 32) as u8;
                proof {
                    assert(bit == sprite_bit(ram0[bi + dy as int], dx as int));
                    lemma_draw_partial_step(d0, ram0, bi, ni, xi, yi, xor, dy as int, dx as int);
                    lemma_draw_collision_step(d0, ram0, bi, ni, xi, yi, dy as int, dx as int);
                    lemma_target_offsets(xi, yi, dx as int, dy as int);
                    lemma_small_mod(px as nat, 64);
                    lemma_small_mod(py as nat, 32);
                    assert(pix_index(px as int, py as int) == pix_index(xi + dx, yi + dy));
                }
                if xor {
                    let oldp = display.get_pixel(px, py);
                    if oldp && bit {
                        collision = true;
                    }
                    display.set_pixel(px, py, oldp != bit);
                } else {
                    display.set_pixel(px, py, bit);
                }
                dx = dx + 1;
            }
            proof {
                lemma_draw_row_roll(d0, ram0, bi, ni, xi, yi, xor, dy as int);
            }
            dy = dy + 1;
        }
        proof {
            lemma_draw_partial_full(d0, ram0, bi, ni, xi, yi, xor);
        }
        if xor {
            self.v[15] = if collision { 1 } else { 0 };
        }
        StepResult::Continued
    }

    /// Execute one already-fetched instruction word, the program counter
    /// already advanced past it, against the given input snapshot and
    /// random byte, painting into `display`.
    pub fn process_opcode(
        &mut self,
        opcode: u16,
        kbd_state: [bool; 16],
        rnd: u8,
        display: &mut Display,
    ) -> (r: StepResult)
        requires
            old(self).wf(),
            old(display).wf(),
            old(self)@.pc <= 4096,
        ensures
            final(self).wf(),
            final(display).wf(),
            (final(self)@, final(display)@, r) == spec_exec_opcode(
                old(self)@,
                old(display)@,
                opcode,
                kbd_state@,
                rnd,
            ),
    {
        let addr: u16 = opcode % 0x1000;
        let nn: u8 = (opcode % 0x100) as u8;
        let x = ((opcode / 0x100) % 0x10) as usize;
        let y = ((opcode / 0x10) % 0x10) as usize;
        match opcode / 0x1000 {
            0x0 => {
                if opcode == 0x00E0 {
                    display.clear();
                    StepResult::Continued
                } else if opcode == 0x00EE {
                    match self.stack.pop() {
                        Some(a) => {
                            self.pc = a;
                            proof {
                                assert(self.stack@ =~= old(self)@.stack.drop_last());
                            }
                            StepResult::Continued
                        },
                        None => StepResult::Faulted(Fault::StackUnderflow),
                    }
                } else {
                    StepResult::UnknownOpcode(opcode)
                }
            },
            0x1 => {
                self.pc = addr;
                StepResult::Continued
            },
            0x2 => {
                if self.stack.len() >= 16 {
                    StepResult::Faulted(Fault::StackOverflow)
                } else {
                    self.stack.push(self.pc);
                    self.pc = addr;
                    StepResult::Continued
                }
            },
            0x3 => {
                if self.v[x] == nn {
                    self.pc = self.pc + 2;
                }
                StepResult::Continued
            },
            0x4 => {
                if self.v[x] != nn {
                    self.pc = self.pc + 2;
                }
                StepResult::Continued
            },
            0x5 => {
                if self.v[x] == self.v[y] {
                    self.pc = self.pc + 2;
                }
                StepResult::Continued
            },
            0x6 => {
                self.v[x] = nn;
                StepResult::Continued
            },
            0x7 => {
                let sum: u16 = self.v[x] as u16 + nn as u16;
                self.v[x] = (sum % 256) as u8;
                StepResult::Continued
            },
            0x8 => self.exec_alu(opcode),
            0x9 => {
                if self.v[x] != self.v[y] {
                    self.pc = self.pc + 2;
                }
                StepResult::Continued
            },
            0xA => {
                self.i = addr;
                StepResult::Continued
            },
            0xB => {
                let offset = if self.jump_offset_uses_v0 {
                    self.v[0]
                } else {
                    self.v[x]
                };
                self.pc = addr + offset as u16;
                StepResult::Continued
            },
            0xC => {
                self.v[x] = rnd & nn;
                StepResult::Continued
            },
            0xD => self.exec_draw(opcode, display),
            0xE => {
                let vx = self.v[x];
                match nn {
                    0x9E => {
                        if vx >= 16 {
                            StepResult::Faulted(Fault::KeyOutOfRange(vx))
                        } else {
                            if kbd_state[vx as usize] {
                                self.pc = self.pc + 2;
                            }
                            StepResult::Continued
                        }
                    },
                    0xA1 => {
                        if vx >= 16 {
                            StepResult::Faulted(Fault::KeyOutOfRange(vx))
                        } else {
                            if !kbd_state[vx as usize] {
                                self.pc = self.pc + 2;
                            }
                            StepResult::Continued
                        }
                    },
                    _ => StepResult::UnknownOpcode(opcode),
                }
            },
            _ => self.exec_misc(opcode),
        }
    }

    /// One interpreter step. While the wait-for-key latch is set, no
    /// instruction is fetched: the first held key of the snapshot (in
    /// increasing key order) lands in the target register and clears the
    /// latch, and an empty snapshot leaves the machine untouched.
    /// Otherwise the word at the program counter is fetched (a memory
    /// fault if the fetch would leave the 4096-cell memory), the counter
    /// advances by two and the word is executed.
    pub fn tick(&mut self, kbd_state: [bool; 16], rnd: u8, display: &mut Display) -> (r: StepResult)
        requires
            old(self).wf(),
            old(display).wf(),
        ensures
            final(self).wf(),
            final(display).wf(),
            (final(self)@, final(display)@, r) == spec_tick(
                old(self)@,
                old(display)@,
                kbd_state@,
                rnd,
            ),
    {
        if self.wait_for_key {
            let mut k: usize = 0;
            while k < 16
                invariant
                    k <= 16,
                    self@ == old(self)@,
                    self.wf(),
                    self.wait_for_key,
                    display.wf(),
                    display@ == old(display)@,
                    forall|j: int| 0 <= j < k ==> !kbd_state@[j],
                decreases 16 - k,
            {
                if kbd_state[k] {
                    proof {
                        lemma_first_held_prefix(kbd_state@, k as int);
                    }
                    let reg = self.key_reg as usize;
                    self.v[reg] = k as u8;
                    self.wait_for_key = false;
                    return StepResult::Continued;
                }
                k = k + 1;
            }
            proof {
                lemma_first_held_prefix(kbd_state@, 16);
            }
            StepResult::Continued
        } else if self.pc >= 4095 {
            let a: u16 = if self.pc >= 4096 {
                self.pc
            } else {
                4096
            };
            StepResult::Faulted(Fault::MemoryFault(a))
        } else {
            let opcode = self.get_opcode();
            self.pc = self.pc + 2;
            self.process_opcode(opcode, kbd_state, rnd, display)
        }
    }
}

} // verus!
