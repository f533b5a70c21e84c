use chip8::display::Display;
use chip8::state::{Chip8, Fault, StepResult};

const NO_KEYS: [bool; 16] = [false; 16];

fn exec(c: &mut Chip8, d: &mut Display, op: u16) -> StepResult {
    c.process_opcode(op, NO_KEYS, 0, d)
}

#[test]
fn load_immediate_reads_back() {
    let mut c = Chip8::new();
    let mut d = Display::new();
    let r = exec(&mut c, &mut d, 0x6A2B);
    assert_eq!(r, StepResult::Continued);
    assert_eq!(c.v[0xA], 0x2B);
    for reg in 0..16 {
        if reg != 0xA {
            assert_eq!(c.v[reg], 0);
        }
    }
}

#[test]
fn add_immediate_wraps_without_flag() {
    let mut c = Chip8::new();
    let mut d = Display::new();
    exec(&mut c, &mut d, 0x60FA); // V0 = 250
    c.v[0xF] = 0xEE; // a sentinel the add must not touch
    exec(&mut c, &mut d, 0x700A); // V0 += 10
    assert_eq!(c.v[0], 4);
    assert_eq!(c.v[0xF], 0xEE);
}

#[test]
fn add_with_carry_sets_flag() {
    let mut c = Chip8::new();
    let mut d = Display::new();
    c.v[2] = 200;
    c.v[3] = 100;
    exec(&mut c, &mut d, 0x8234); // V2 += V3
    assert_eq!(c.v[2], 44);
    assert_eq!(c.v[0xF], 1);
    c.v[4] = 10;
    c.v[5] = 20;
    exec(&mut c, &mut d, 0x8454);
    assert_eq!(c.v[4], 30);
    assert_eq!(c.v[0xF], 0);
}

#[test]
fn subtract_with_borrow_polarity() {
    let mut c = Chip8::new();
    let mut d = Display::new();
    c.v[2] = 5;
    c.v[3] = 10;
    exec(&mut c, &mut d, 0x8235); // V2 = V2 - V3: borrow occurred
    assert_eq!(c.v[2], 251);
    assert_eq!(c.v[0xF], 0);
    c.v[4] = 10;
    c.v[5] = 5;
    exec(&mut c, &mut d, 0x8455); // no borrow
    assert_eq!(c.v[4], 5);
    assert_eq!(c.v[0xF], 1);
    // equal operands count as "no borrow"
    c.v[6] = 7;
    c.v[7] = 7;
    exec(&mut c, &mut d, 0x8675);
    assert_eq!(c.v[6], 0);
    assert_eq!(c.v[0xF], 1);
}

#[test]
fn subtract_reversed_polarity() {
    let mut c = Chip8::new();
    let mut d = Display::new();
    c.v[2] = 10;
    c.v[3] = 5;
    exec(&mut c, &mut d, 0x8237); // V2 = V3 - V2: borrow occurred
    assert_eq!(c.v[2], 251);
    assert_eq!(c.v[0xF], 0);
    c.v[4] = 5;
    c.v[5] = 10;
    exec(&mut c, &mut d, 0x8457); // V4 = V5 - V4: no borrow
    assert_eq!(c.v[4], 5);
    assert_eq!(c.v[0xF], 1);
}

#[test]
fn bitwise_ops() {
    let mut c = Chip8::new();
    let mut d = Display::new();
    c.v[0] = 0b1100;
    c.v[1] = 0b1010;
    exec(&mut c, &mut d, 0x8011);
    assert_eq!(c.v[0], 0b1110); // OR
    c.v[0] = 0b1100;
    exec(&mut c, &mut d, 0x8012);
    assert_eq!(c.v[0], 0b1000); // AND
    c.v[0] = 0b1100;
    exec(&mut c, &mut d, 0x8013);
    assert_eq!(c.v[0], 0b0110); // XOR
    exec(&mut c, &mut d, 0x8010);
    assert_eq!(c.v[0], 0b1010); // assign
}

#[test]
fn shift_right_flag_is_shifted_out_bit() {
    let mut c = Chip8::new();
    let mut d = Display::new();
    c.v[4] = 0b0000_0011;
    exec(&mut c, &mut d, 0x8406);
    assert_eq!(c.v[4], 0b0000_0001);
    assert_eq!(c.v[0xF], 1);
    c.v[4] = 0b0000_0100;
    exec(&mut c, &mut d, 0x8406);
    assert_eq!(c.v[4], 0b0000_0010);
    assert_eq!(c.v[0xF], 0);
}

#[test]
fn shift_left_flag_is_shifted_out_bit() {
    let mut c = Chip8::new();
    let mut d = Display::new();
    c.v[4] = 0x81;
    exec(&mut c, &mut d, 0x840E);
    assert_eq!(c.v[4], 0x02);
    assert_eq!(c.v[0xF], 1);
}

#[test]
fn shift_uses_vy_configuration() {
    let mut c = Chip8::new();
    let mut d = Display::new();
    c.shift_uses_vy = true;
    c.v[4] = 0xFF;
    c.v[5] = 0b0000_0110;
    exec(&mut c, &mut d, 0x8456);
    assert_eq!(c.v[4], 0b0000_0011); // VY shifted, not old VX
    assert_eq!(c.v[0xF], 0);
}

#[test]
fn jump_sets_pc() {
    let mut c = Chip8::new();
    let mut d = Display::new();
    exec(&mut c, &mut d, 0x1ABC);
    assert_eq!(c.pc, 0xABC);
}

#[test]
fn indexed_jump_both_configurations() {
    let mut c = Chip8::new();
    let mut d = Display::new();
    c.v[1] = 5;
    c.v[0] = 7;
    exec(&mut c, &mut d, 0xB100); // adds the register named by the high nibble: V1
    assert_eq!(c.pc, 0x105);
    let mut c2 = Chip8::new();
    c2.jump_offset_uses_v0 = true;
    c2.v[1] = 5;
    c2.v[0] = 7;
    exec(&mut c2, &mut d, 0xB100); // adds V0
    assert_eq!(c2.pc, 0x107);
}

#[test]
fn call_return_round_trip() {
    let mut c = Chip8::new();
    let mut d = Display::new();
    // call to 0x300 written at 0x200, return written at 0x300
    c.load_rom(vec![0x23, 0x00]).unwrap();
    c.ram[0x300] = 0x00;
    c.ram[0x301] = 0xEE;
    let r1 = c.tick(NO_KEYS, 0, &mut d);
    assert_eq!(r1, StepResult::Continued);
    assert_eq!(c.pc, 0x300);
    assert_eq!(c.stack, vec![0x202]);
    let r2 = c.tick(NO_KEYS, 0, &mut d);
    assert_eq!(r2, StepResult::Continued);
    assert_eq!(c.pc, 0x202); // resumes after the call, not at it
    assert_eq!(c.stack.len(), 0);
}

#[test]
fn stack_depth_sixteen_then_overflow() {
    let mut c = Chip8::new();
    let mut d = Display::new();
    for k in 0..16 {
        let r = exec(&mut c, &mut d, 0x2300);
        assert_eq!(r, StepResult::Continued, "call {} should fit", k);
    }
    assert_eq!(c.stack.len(), 16);
    let r = exec(&mut c, &mut d, 0x2300);
    assert_eq!(r, StepResult::Faulted(Fault::StackOverflow));
    assert_eq!(c.stack.len(), 16);
}

#[test]
fn return_on_empty_stack_underflows() {
    let mut c = Chip8::new();
    let mut d = Display::new();
    let pc = c.pc;
    let r = exec(&mut c, &mut d, 0x00EE);
    assert_eq!(r, StepResult::Faulted(Fault::StackUnderflow));
    assert_eq!(c.pc, pc);
}

#[test]
fn skip_if_equal_immediate() {
    let mut c = Chip8::new();
    let mut d = Display::new();
    c.pc = 0x202;
    c.v[1] = 0x42;
    exec(&mut c, &mut d, 0x3142);
    assert_eq!(c.pc, 0x204);
    exec(&mut c, &mut d, 0x3143);
    assert_eq!(c.pc, 0x204);
    exec(&mut c, &mut d, 0x4143);
    assert_eq!(c.pc, 0x206);
    exec(&mut c, &mut d, 0x4142);
    assert_eq!(c.pc, 0x206);
}

#[test]
fn skip_register_comparisons() {
    let mut c = Chip8::new();
    let mut d = Display::new();
    c.pc = 0x202;
    c.v[1] = 7;
    c.v[2] = 7;
    c.v[3] = 8;
    exec(&mut c, &mut d, 0x5120);
    assert_eq!(c.pc, 0x204);
    exec(&mut c, &mut d, 0x5130);
    assert_eq!(c.pc, 0x204);
    exec(&mut c, &mut d, 0x9130);
    assert_eq!(c.pc, 0x206);
    exec(&mut c, &mut d, 0x9120);
    assert_eq!(c.pc, 0x206);
}

#[test]
fn set_index_register() {
    let mut c = Chip8::new();
    let mut d = Display::new();
    exec(&mut c, &mut d, 0xA123);
    assert_eq!(c.i, 0x123);
}

#[test]
fn add_register_into_index_wraps() {
    let mut c = Chip8::new();
    let mut d = Display::new();
    c.i = 0xFFFF;
    c.v[0] = 2;
    exec(&mut c, &mut d, 0xF01E);
    assert_eq!(c.i, 1);
}

#[test]
fn masked_random_uses_injected_byte() {
    let mut c = Chip8::new();
    let mut d = Display::new();
    let r = c.process_opcode(0xC0FF, NO_KEYS, 0xAB, &mut d);
    assert_eq!(r, StepResult::Continued);
    assert_eq!(c.v[0], 0xAB);
    c.process_opcode(0xC10F, NO_KEYS, 0xAB, &mut d);
    assert_eq!(c.v[1], 0x0B);
}

#[test]
fn timer_opcodes_transfer_values() {
    let mut c = Chip8::new();
    let mut d = Display::new();
    c.v[1] = 42;
    exec(&mut c, &mut d, 0xF115); // delay = V1
    assert_eq!(c.delay_timer, 42);
    exec(&mut c, &mut d, 0xF118); // sound = V1
    assert_eq!(c.sound_timer, 42);
    exec(&mut c, &mut d, 0xF207); // V2 = delay
    assert_eq!(c.v[2], 42);
}

#[test]
fn font_address_uses_low_nibble() {
    let mut c = Chip8::new();
    let mut d = Display::new();
    c.v[0] = 0xAB;
    exec(&mut c, &mut d, 0xF029);
    assert_eq!(c.i, 0x50 + 0xB * 5);
}

#[test]
fn bcd_decomposition() {
    let mut c = Chip8::new();
    let mut d = Display::new();
    c.v[3] = 147;
    c.i = 0x300;
    exec(&mut c, &mut d, 0xF333);
    assert_eq!(&c.ram[0x300..0x303], &[1, 4, 7]);
    c.v[3] = 9;
    exec(&mut c, &mut d, 0xF333);
    assert_eq!(&c.ram[0x300..0x303], &[0, 0, 9]);
}

#[test]
fn bulk_store_and_load_registers() {
    let mut c = Chip8::new();
    let mut d = Display::new();
    for k in 0..16 {
        c.v[k] = (10 + k) as u8;
    }
    c.i = 0x300;
    exec(&mut c, &mut d, 0xF255); // store V0..V2
    assert_eq!(&c.ram[0x300..0x303], &[10, 11, 12]);
    assert_eq!(c.ram[0x303], 0); // V3 not stored
    c.ram[0x301] = 99;
    exec(&mut c, &mut d, 0xF165); // load V0..V1 back
    assert_eq!(c.v[0], 10);
    assert_eq!(c.v[1], 99);
    assert_eq!(c.v[2], 12); // untouched
}

#[test]
fn indexed_access_out_of_memory_faults() {
    let mut c = Chip8::new();
    let mut d = Display::new();
    c.i = 4095;
    c.v[0] = 1;
    let r = exec(&mut c, &mut d, 0xF155); // needs cells 4095 and 4096
    assert_eq!(r, StepResult::Faulted(Fault::MemoryFault(4096)));
    c.i = 4094;
    let r2 = exec(&mut c, &mut d, 0xF333); // BCD needs three cells
    assert_eq!(r2, StepResult::Faulted(Fault::MemoryFault(4096)));
    c.i = 5000;
    let r3 = exec(&mut c, &mut d, 0xF055);
    assert_eq!(r3, StepResult::Faulted(Fault::MemoryFault(5000)));
}

#[test]
fn fetch_outside_memory_faults() {
    let mut c = Chip8::new();
    let mut d = Display::new();
    c.pc = 4095;
    let r = c.tick(NO_KEYS, 0, &mut d);
    assert_eq!(r, StepResult::Faulted(Fault::MemoryFault(4096)));
    c.pc = 5000;
    let r2 = c.tick(NO_KEYS, 0, &mut d);
    assert_eq!(r2, StepResult::Faulted(Fault::MemoryFault(5000)));
}

#[test]
fn unknown_opcodes_are_nonfatal() {
    let mut c = Chip8::new();
    let mut d = Display::new();
    assert_eq!(exec(&mut c, &mut d, 0x8128), StepResult::UnknownOpcode(0x8128));
    assert_eq!(exec(&mut c, &mut d, 0xE1FF), StepResult::UnknownOpcode(0xE1FF));
    assert_eq!(exec(&mut c, &mut d, 0xF1FF), StepResult::UnknownOpcode(0xF1FF));
    assert_eq!(exec(&mut c, &mut d, 0x0123), StepResult::UnknownOpcode(0x0123));
    // the machine is untouched and can keep running
    assert_eq!(c.pc, 0x200);
    assert_eq!(exec(&mut c, &mut d, 0x6001), StepResult::Continued);
}

#[test]
fn unknown_opcode_in_rom_continues_execution() {
    let mut c = Chip8::new();
    let mut d = Display::new();
    c.load_rom(vec![0x81, 0x28, 0x61, 0x42]).unwrap();
    let r = c.tick(NO_KEYS, 0, &mut d);
    assert_eq!(r, StepResult::UnknownOpcode(0x8128));
    assert_eq!(c.pc, 0x202); // already advanced past it
    c.tick(NO_KEYS, 0, &mut d);
    assert_eq!(c.v[1], 0x42);
}

#[test]
fn key_skip_opcodes() {
    let mut c = Chip8::new();
    let mut d = Display::new();
    let mut keys = [false; 16];
    keys[5] = true;
    c.pc = 0x202;
    c.v[1] = 5;
    c.process_opcode(0xE19E, keys, 0, &mut d); // skip if held
    assert_eq!(c.pc, 0x204);
    c.process_opcode(0xE1A1, keys, 0, &mut d); // skip if not held: it is held
    assert_eq!(c.pc, 0x204);
    c.v[1] = 6;
    c.process_opcode(0xE19E, keys, 0, &mut d);
    assert_eq!(c.pc, 0x204);
    c.process_opcode(0xE1A1, keys, 0, &mut d);
    assert_eq!(c.pc, 0x206);
}

#[test]
fn key_index_out_of_range_faults() {
    let mut c = Chip8::new();
    let mut d = Display::new();
    c.v[1] = 20;
    let r = exec(&mut c, &mut d, 0xE19E);
    assert_eq!(r, StepResult::Faulted(Fault::KeyOutOfRange(20)));
    let r2 = exec(&mut c, &mut d, 0xE1A1);
    assert_eq!(r2, StepResult::Faulted(Fault::KeyOutOfRange(20)));
}

#[test]
fn wait_for_key_stalls_until_a_key_is_held() {
    let mut c = Chip8::new();
    let mut d = Display::new();
    // wait-for-key into V1, then load V2 immediate
    c.load_rom(vec![0xF1, 0x0A, 0x62, 0x77]).unwrap();
    let r = c.tick(NO_KEYS, 0, &mut d);
    assert_eq!(r, StepResult::Continued);
    assert_eq!(c.pc, 0x202);
    assert!(c.wait_for_key);
    // idle steps never advance the program counter
    for _ in 0..5 {
        let r2 = c.tick(NO_KEYS, 0, &mut d);
        assert_eq!(r2, StepResult::Continued);
        assert_eq!(c.pc, 0x202);
        assert!(c.wait_for_key);
        assert_eq!(c.v[1], 0);
    }
    // the first held key's index lands in V1; the lowest held key wins
    let mut keys = [false; 16];
    keys[9] = true;
    keys[12] = true;
    let r3 = c.tick(keys, 0, &mut d);
    assert_eq!(r3, StepResult::Continued);
    assert_eq!(c.v[1], 9);
    assert!(!c.wait_for_key);
    assert_eq!(c.pc, 0x202); // key step fetches nothing
    // the next step fetches normally again
    c.tick(NO_KEYS, 0, &mut d);
    assert_eq!(c.v[2], 0x77);
    assert_eq!(c.pc, 0x204);
}
