use chip8::display::Display;
use chip8::state::{Chip8, LoadError};

#[test]
fn new_machine_initial_state() {
    let c = Chip8::new();
    assert_eq!(c.pc, 0x200);
    assert_eq!(c.i, 0);
    assert_eq!(c.stack.len(), 0);
    assert_eq!(c.v, vec![0u8; 16]);
    assert_eq!(c.delay_timer, 0);
    assert_eq!(c.sound_timer, 0);
    assert!(!c.wait_for_key);
    assert_eq!(c.ram.len(), 4096);
    // canonical configuration
    assert!(!c.shift_uses_vy);
    assert!(!c.jump_offset_uses_v0);
    assert!(c.draw_uses_xor_with_collision);
}

#[test]
fn font_table_loaded_at_0x50() {
    let c = Chip8::new();
    // glyph "0"
    assert_eq!(&c.ram[0x50..0x55], &[0xF0, 0x90, 0x90, 0x90, 0xF0]);
    // glyph "F" ends the table
    assert_eq!(&c.ram[0x9B..0xA0], &[0xF0, 0x80, 0xF0, 0x80, 0x80]);
    // cells around the table stay zero
    assert_eq!(c.ram[0x4F], 0);
    assert_eq!(c.ram[0xA0], 0);
}

#[test]
fn load_rom_copies_at_0x200() {
    let mut c = Chip8::new();
    let r = c.load_rom(vec![0xAA, 0xBB, 0xCC]);
    assert!(r.is_ok());
    assert_eq!(&c.ram[0x200..0x203], &[0xAA, 0xBB, 0xCC]);
    assert_eq!(c.ram[0x203], 0);
}

#[test]
fn load_rom_of_maximum_size_fits() {
    let mut c = Chip8::new();
    let r = c.load_rom(vec![0x42; 3584]);
    assert!(r.is_ok());
    assert_eq!(c.ram[0x200], 0x42);
    assert_eq!(c.ram[0xFFF], 0x42);
}

#[test]
fn oversized_rom_rejected_memory_untouched() {
    let mut c = Chip8::new();
    let before = c.ram.clone();
    let r = c.load_rom(vec![0x42; 3585]);
    assert_eq!(r, Err(LoadError::RomTooLarge));
    assert_eq!(c.ram, before);
    assert_eq!(c.pc, 0x200);
}

#[test]
fn reset_rezeroes_and_keeps_configuration() {
    let mut c = Chip8::new();
    c.shift_uses_vy = true;
    c.load_rom(vec![0x12, 0x34]).unwrap();
    c.pc = 0x400;
    c.v[3] = 9;
    c.stack.push(0x222);
    c.delay_timer = 7;
    c.reset();
    assert_eq!(c.pc, 0x200);
    assert_eq!(c.ram[0x200], 0);
    assert_eq!(c.v[3], 0);
    assert_eq!(c.stack.len(), 0);
    assert_eq!(c.delay_timer, 0);
    assert_eq!(&c.ram[0x50..0x55], &[0xF0, 0x90, 0x90, 0x90, 0xF0]);
    assert!(c.shift_uses_vy);
}

#[test]
fn get_opcode_reads_big_endian() {
    let mut c = Chip8::new();
    c.load_rom(vec![0x6A, 0x2B]).unwrap();
    assert_eq!(c.get_opcode(), 0x6A2B);
}

#[test]
fn timer_decrements_once_per_sixtieth_of_a_second() {
    let mut c = Chip8::new();
    c.delay_timer = 5;
    c.sound_timer = 3;
    // just under one period: 16_666_666 ns accumulate 999_999_960 units
    let beep = c.advance_timers(16_666_666);
    assert_eq!(c.delay_timer, 5);
    assert_eq!(c.sound_timer, 3);
    assert!(beep);
    // 1 more ns crosses the 1/60 s boundary exactly once
    c.advance_timers(1);
    assert_eq!(c.delay_timer, 4);
    assert_eq!(c.sound_timer, 2);
}

#[test]
fn timer_never_goes_below_zero() {
    let mut c = Chip8::new();
    c.delay_timer = 2;
    c.sound_timer = 0;
    // one full second: 60 periods
    let beep = c.advance_timers(1_000_000_000);
    assert_eq!(c.delay_timer, 0);
    assert_eq!(c.sound_timer, 0);
    assert!(!beep);
}

#[test]
fn beep_while_sound_timer_nonzero() {
    let mut c = Chip8::new();
    c.sound_timer = 1;
    assert!(c.advance_timers(0));
    // a bit over one period zeroes it
    assert!(!c.advance_timers(20_000_000));
}

#[test]
fn timers_decouple_from_instruction_rate() {
    // many small slices accumulate exactly like one big one
    let mut a = Chip8::new();
    let mut b = Chip8::new();
    a.delay_timer = 10;
    b.delay_timer = 10;
    for _ in 0..100 {
        a.advance_timers(1_000_000);
    }
    b.advance_timers(100_000_000);
    assert_eq!(a.delay_timer, b.delay_timer);
    assert_eq!(a.timer_acc, b.timer_acc);
}

#[test]
fn display_set_and_get_pixel_wrap() {
    let mut d = Display::new();
    d.set_pixel(64 + 3, 32 + 5, true);
    assert!(d.get_pixel(3, 5));
    assert!(d.get_pixel(67, 37));
    assert!(!d.get_pixel(3, 6));
}

#[test]
fn display_clear_turns_everything_off() {
    let mut d = Display::new();
    d.set_pixel(0, 0, true);
    d.set_pixel(63, 31, true);
    d.clear();
    for y in 0..32u8 {
        for x in 0..64u8 {
            assert!(!d.get_pixel(x, y));
        }
    }
}
