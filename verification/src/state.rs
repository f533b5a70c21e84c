//! The machine state: memory, registers, program counter, call stack,
//! timers and the wait-for-key latch, together with its mathematical
//! model and the operations that set it up (reset, font and ROM loading).

use vstd::prelude::*;

verus! {

/// Number of addressable memory cells.
pub const MEM_SIZE: usize = 4096;

/// Address at which a loaded program begins.
pub const ROM_BASE: usize = 0x200;

/// Largest ROM that fits between `ROM_BASE` and the end of memory.
pub const MAX_ROM_LEN: usize = 3584;

/// Address of the font glyph table.
pub const FONT_BASE: usize = 0x050;

/// Depth of the call stack.
pub const STACK_DEPTH: usize = 16;

/// A fatal condition that stops execution.
#[derive(Clone, Copy, Debug, PartialEq, Eq, Structural)]
pub enum Fault {
    /// An instruction fetch or a memory-indexed access needed an address
    /// outside the 4096-cell memory; carries the lowest such address.
    MemoryFault(u16),
    /// A call was attempted with the stack already full.
    StackOverflow,
    /// A return was attempted with the stack already empty.
    StackUnderflow,
    /// A key-test opcode named a key index outside 0..16; carries the index.
    KeyOutOfRange(u8),
}

/// What one interpreter step reports back to the caller.
#[derive(Clone, Copy, Debug, PartialEq, Eq, Structural)]
pub enum StepResult {
    /// The step completed and execution may continue.
    Continued,
    /// The fetched word matched no known opcode; it was skipped as a
    /// no-op and execution may continue. Carries the word as a diagnostic.
    UnknownOpcode(u16),
    /// A fatal fault; the machine state is left as it was at the fault.
    Faulted(Fault),
}

/// Why loading a program failed.
#[derive(Clone, Copy, Debug, PartialEq, Eq, Structural)]
pub enum LoadError {
    /// The ROM is larger than the 3584 bytes available above `ROM_BASE`.
    RomTooLarge,
}

/// The mathematical model of the machine state.
#[verifier::ext_equal]
pub ghost struct Model {
    /// The 4096 memory cells.
    pub ram: Seq<u8>,
    /// The saved return addresses, oldest first; its length is the
    /// stack pointer.
    pub stack: Seq<u16>,
    /// The 16-bit index register.
    pub i: u16,
    /// The sixteen 8-bit general-purpose registers V0..VF.
    pub v: Seq<u8>,
    /// The 16-bit program counter.
    pub pc: u16,
    /// The sound timer; a tone should play while it is nonzero.
    pub sound_timer: u8,
    /// The delay timer.
    pub delay_timer: u8,
    /// Set while the machine is stalled waiting for a key.
    pub wait_for_key: bool,
    /// The register that receives the key index once a key is held.
    pub key_reg: u8,
    /// Elapsed time not yet turned into timer decrements, counted in
    /// sixtieths of a nanosecond (so one timer period is exactly
    /// `TIMER_PERIOD` units).
    pub timer_acc: u64,
    /// Shift opcodes read VY before shifting instead of shifting VX in place.
    pub shift_uses_vy: bool,
    /// The indexed jump adds V0 instead of the register named by the
    /// address field's high nibble.
    pub jump_offset_uses_v0: bool,
    /// Sprites are drawn by XOR with collision detection instead of
    /// overwriting pixels.
    pub draw_uses_xor_with_collision: bool,
}

impl Model {
    /// The structural invariant of the machine state.
    pub open spec fn wf(self) -> bool {
        &&& self.ram.len() == 4096
        &&& self.v.len() == 16
        &&& self.stack.len() <= 16
        &&& self.key_reg < 16
        &&& self.timer_acc < crate::timer::TIMER_PERIOD
    }
}

/// The interpreter and the machine state it exclusively owns.
pub struct Chip8 {
    /// Memory: `0x000`..`0x200` is interpreter-owned (the font table lives
    /// at `FONT_BASE`), `0x200`..`0x1000` holds the loaded program.
    pub ram: Vec<u8>,
    /// Saved return addresses; pushed by call, popped by return.
    pub stack: Vec<u16>,
    /// The index register.
    pub i: u16,
    /// The registers V0..VF. VF doubles as the carry/borrow/shift/collision
    /// flag and is overwritten, never read, by the opcodes that set it.
    pub v: Vec<u8>,
    /// The program counter.
    pub pc: u16,
    /// Decremented at 60 Hz; a tone should play while nonzero.
    pub sound_timer: u8,
    /// Decremented at 60 Hz.
    pub delay_timer: u8,
    /// Set by the block-on-key opcode; while set, steps fetch nothing.
    pub wait_for_key: bool,
    /// The register that receives the key index once a key is held.
    pub key_reg: u8,
    /// Elapsed time not yet turned into timer decrements, in sixtieths
    /// of a nanosecond.
    pub timer_acc: u64,
    /// Shift opcodes read VY before shifting instead of shifting VX in place.
    pub shift_uses_vy: bool,
    /// The indexed jump adds V0 instead of the register named by the
    /// address field's high nibble.
    pub jump_offset_uses_v0: bool,
    /// Sprites are drawn by XOR with collision detection instead of
    /// overwriting pixels.
    pub draw_uses_xor_with_collision: bool,
}

impl View for Chip8 {
    type V = Model;

    open spec fn view(&self) -> Model {
        Model {
            ram: self.ram@,
            stack: self.stack@,
            i: self.i,
            v: self.v@,
            pc: self.pc,
            sound_timer: self.sound_timer,
            delay_timer: self.delay_timer,
            wait_for_key: self.wait_for_key,
            key_reg: self.key_reg,
            timer_acc: self.timer_acc,
            shift_uses_vy: self.shift_uses_vy,
            jump_offset_uses_v0: self.jump_offset_uses_v0,
            draw_uses_xor_with_collision: self.draw_uses_xor_with_collision,
        }
    }
}

/// The fixed glyph table: 16 five-byte sprites, one per hexadecimal digit.
pub open spec fn font_table() -> Seq<u8> {
    seq![
        0xF0u8, 0x90, 0x90, 0x90, 0xF0, // 0
        0x20, 0x60, 0x20, 0x20, 0x70, // 1
        0xF0, 0x10, 0xF0, 0x80, 0xF0, // 2
        0xF0, 0x10, 0xF0, 0x10, 0xF0, // 3
        0x90, 0x90, 0xF0, 0x10, 0x10, // 4
        0xF0, 0x80, 0xF0, 0x10, 0xF0, // 5
        0xF0, 0x80, 0xF0, 0x90, 0xF0, // 6
        0xF0, 0x10, 0x20, 0x40, 0x40, // 7
        0xF0, 0x90, 0xF0, 0x90, 0xF0, // 8
        0xF0, 0x90, 0xF0, 0x10, 0xF0, // 9
        0xF0, 0x90, 0xF0, 0x90, 0x90, // A
        0xE0, 0x90, 0xE0, 0x90, 0xE0, // B
        0xF0, 0x80, 0x80, 0x80, 0xF0, // C
        0xE0, 0x90, 0x90, 0x90, 0xE0, // D
        0xF0, 0x80, 0xF0, 0x80, 0xF0, // E
        0xF0, 0x80, 0xF0, 0x80, 0x80, // F
    ]
}

/// Memory with the glyph table written over `FONT_BASE`..`FONT_BASE + 80`
/// and every other cell unchanged.
pub open spec fn with_font(ram: Seq<u8>) -> Seq<u8> {
    Seq::new(4096, |a: int| if 0x50 <= a < 0xA0 {
        font_table()[a - 0x50]
    } else {
        ram[a]
    })
}

/// Memory with `rom` copied in at `ROM_BASE` and every other cell unchanged.
pub open spec fn with_rom(ram: Seq<u8>, rom: Seq<u8>) -> Seq<u8> {
    Seq::new(4096, |a: int| if 0x200 <= a < 0x200 + rom.len() {
        rom[a - 0x200]
    } else {
        ram[a]
    })
}

/// The machine as reset leaves it: zeroed but for the font table, the
/// program counter at `ROM_BASE`, and the given configuration switches.
pub open spec fn initial_model(
    shift_uses_vy: bool,
    jump_offset_uses_v0: bool,
    draw_uses_xor_with_collision: bool,
) -> Model {
    Model {
        ram: with_font(Seq::new(4096, |a: int| 0u8)),
        stack: Seq::empty(),
        i: 0,
        v: Seq::new(16, |r: int| 0u8),
        pc: 0x200,
        sound_timer: 0,
        delay_timer: 0,
        wait_for_key: false,
        key_reg: 0,
        timer_acc: 0,
        shift_uses_vy: shift_uses_vy,
        jump_offset_uses_v0: jump_offset_uses_v0,
        draw_uses_xor_with_collision: draw_uses_xor_with_collision,
    }
}

/// The two-byte instruction word at the program counter, high byte first.
pub open spec fn spec_fetch(m: Model) -> u16 {
    (m.ram[m.pc as int] * 256 + m.ram[m.pc as int + 1]) as u16
}

impl Chip8 {
    /// The structural invariant of the machine state.
    pub open spec fn wf(&self) -> bool {
        self@.wf()
    }

    /// A fresh machine: memory zeroed but for the font table, program
    /// counter at `ROM_BASE`, canonical configuration (shifts act on VX
    /// in place, the indexed jump uses the register named by the address
    /// field's high nibble, and sprites are drawn by XOR with collision
    /// detection).
    pub fn new() -> (c: Chip8)
        ensures
            c.wf(),
            c@ == initial_model(false, false, true),
    {
        let mut temp = Chip8 {
            ram: vec![0u8; 4096],
            stack: Vec::new(),
            i: 0,
            v: vec![0u8; 16],
            pc: 0x200,
            sound_timer: 0,
            delay_timer: 0,
            wait_for_key: false,
            key_reg: 0,
            timer_acc: 0,
            shift_uses_vy: false,
            jump_offset_uses_v0: false,
            draw_uses_xor_with_collision: true,
        };
        temp.load_font();
        proof {
            assert(temp@ =~= initial_model(false, false, true));
        }
        temp
    }

    /// Re-zero the whole machine state and reload the font table; the
    /// configuration switches keep their values.
    pub fn reset(&mut self)
        ensures
            final(self).wf(),
            final(self)@ == initial_model(
                old(self).shift_uses_vy,
                old(self).jump_offset_uses_v0,
                old(self).draw_uses_xor_with_collision,
            ),
    {
        self.ram = vec![0u8; 4096];
        self.stack = Vec::new();
        self.i = 0;
        self.v = vec![0u8; 16];
        self.pc = 0x200;
        self.sound_timer = 0;
        self.delay_timer = 0;
        self.wait_for_key = false;
        self.key_reg = 0;
        self.timer_acc = 0;
        self.load_font();
        proof {
            assert(self@ =~= initial_model(
                self.shift_uses_vy,
                self.jump_offset_uses_v0,
                self.draw_uses_xor_with_collision,
            ));
        }
    }

    /// Write the 80-byte glyph table at `FONT_BASE`, leaving every other
    /// cell and every other part of the state unchanged.
    pub fn load_font(&mut self)
        requires
            old(self)@.ram.len() == 4096,
        ensures
            final(self)@ == (Model { ram: with_font(old(self)@.ram), ..old(self)@ }),
    {
        let font: Vec<u8> = vec![
            0xF0u8, 0x90, 0x90, 0x90, 0xF0, // 0
            0x20, 0x60, 0x20, 0x20, 0x70, // 1
            0xF0, 0x10, 0xF0, 0x80, 0xF0, // 2
            0xF0, 0x10, 0xF0, 0x10, 0xF0, // 3
            0x90, 0x90, 0xF0, 0x10, 0x10, // 4
            0xF0, 0x80, 0xF0, 0x10, 0xF0, // 5
            0xF0, 0x80, 0xF0, 0x90, 0xF0, // 6
            0xF0, 0x10, 0x20, 0x40, 0x40, // 7
            0xF0, 0x90, 0xF0, 0x90, 0xF0, // 8
            0xF0, 0x90, 0xF0, 0x10, 0xF0, // 9
            0xF0, 0x90, 0xF0, 0x90, 0x90, // A
            0xE0, 0x90, 0xE0, 0x90, 0xE0, // B
            0xF0, 0x80, 0x80, 0x80, 0xF0, // C
            0xE0, 0x90, 0x90, 0x90, 0xE0, // D
            0xF0, 0x80, 0xF0, 0x80, 0xF0, // E
            0xF0, 0x80, 0xF0, 0x80, 0x80, // F
        ];
        proof {
            assert(font@ =~= font_table());
        }
        let mut k: usize = 0;
        while k < 80
            invariant
                k <= 80,
                font@ == font_table(),
                self@.ram.len() == 4096,
                forall|a: int| 0x50 <= a < 0x50 + k ==> self@.ram[a] == font_table()[a - 0x50],
                forall|a: int| 0 <= a < 4096 && !(0x50 <= a < 0x50 + k)
                    ==> self@.ram[a] == old(self)@.ram[a],
                self.stack@ == old(self).stack@,
                self.i == old(self).i,
                self.v@ == old(self).v@,
                self.pc == old(self).pc,
                self.sound_timer == old(self).sound_timer,
                self.delay_timer == old(self).delay_timer,
                self.wait_for_key == old(self).wait_for_key,
                self.key_reg == old(self).key_reg,
                self.timer_acc == old(self).timer_acc,
                self.shift_uses_vy == old(self).shift_uses_vy,
                self.jump_offset_uses_v0 == old(self).jump_offset_uses_v0,
                self.draw_uses_xor_with_collision == old(self).draw_uses_xor_with_collision,
            decreases 80 - k,
        {
            self.ram[0x50 + k] = font[k];
            k = k + 1;
        }
        proof {
            assert(self@ =~= Model { ram: with_font(old(self)@.ram), ..old(self)@ });
        }
    }

    /// Copy `rom` into memory at `ROM_BASE`. A ROM longer than
    /// `MAX_ROM_LEN` bytes is rejected and the state is left unchanged.
    pub fn load_rom(&mut self, rom: Vec<u8>) -> (r: Result<(), LoadError>)
        requires
            old(self)@.ram.len() == 4096,
        ensures
            rom@.len() <= 3584 ==> r == (Ok::<(), LoadError>(()))
                && final(self)@ == (Model { ram: with_rom(old(self)@.ram, rom@), ..old(self)@ }),
            rom@.len() > 3584 ==> r == (Err::<(), LoadError>(LoadError::RomTooLarge))
                && final(self)@ == old(self)@,
    {
        if rom.len() > MAX_ROM_LEN {
            return Err(LoadError::RomTooLarge);
        }
        let mut k: usize = 0;
        while k < rom.len()
            invariant
                k <= rom@.len() <= 3584,
                self@.ram.len() == 4096,
                forall|a: int| 0x200 <= a < 0x200 + k ==> self@.ram[a] == rom@[a - 0x200],
                forall|a: int| 0 <= a < 4096 && !(0x200 <= a < 0x200 + k)
                    ==> self@.ram[a] == old(self)@.ram[a],
                self.stack@ == old(self).stack@,
                self.i == old(self).i,
                self.v@ == old(self).v@,
                self.pc == old(self).pc,
                self.sound_timer == old(self).sound_timer,
                self.delay_timer == old(self).delay_timer,
                self.wait_for_key == old(self).wait_for_key,
                self.key_reg == old(self).key_reg,
                self.timer_acc == old(self).timer_acc,
                self.shift_uses_vy == old(self).shift_uses_vy,
                self.jump_offset_uses_v0 == old(self).jump_offset_uses_v0,
                self.draw_uses_xor_with_collision == old(self).draw_uses_xor_with_collision,
            decreases rom@.len() - k,
        {
            self.ram[ROM_BASE + k] = rom[k];
            k = k + 1;
        }
        proof {
            assert(self@ =~= Model { ram: with_rom(old(self)@.ram, rom@), ..old(self)@ });
        }
        Ok(())
    }

    /// The two-byte instruction word at the program counter, high byte first.
    pub fn get_opcode(&self) -> (op: u16)
        requires
            self@.ram.len() == 4096,
            self@.pc + 1 < 4096,
        ensures
            op == spec_fetch(self@),
    {
        let hi = self.ram[self.pc as usize];
        let lo = self.ram[self.pc as usize + 1];
        (hi as u16) * 256 + (lo as u16)
    }
}

} // verus!
