use chip8::chip8::Chip8;
use chip8::cpu::Cpu;
use chip8::display::Display;
use chip8::errors::Chip8Error;
use chip8::input::InputLatch;
use chip8::ram::Ram;
use chip8::timers::TimerPair;

fn run(rom: &[u8], steps: usize) -> Chip8 {
    let mut m = Chip8::new();
    m.load_rom(&rom.to_vec()).unwrap();
    for _ in 0..steps {
        m.update_step().unwrap();
    }
    m
}

#[test]
fn add_immediate_wraps_modulo_256() {
    // V0 := 0xFF; V0 += 0x02 wraps to 0x01 and the flag stays untouched.
    let m = run(&[0x60, 0xFF, 0x70, 0x02], 2);
    assert_eq!(m.register(0), 0x01);
    assert_eq!(m.register(0xF), 0);
}

#[test]
fn add_registers_sets_carry_iff_sum_exceeds_255() {
    let m = run(&[0x60, 0xFF, 0x61, 0x02, 0x80, 0x14], 3);
    assert_eq!(m.register(0), 0x01);
    assert_eq!(m.register(0xF), 1);
    let m2 = run(&[0x60, 0x05, 0x61, 0x03, 0x80, 0x14], 3);
    assert_eq!(m2.register(0), 8);
    assert_eq!(m2.register(0xF), 0);
}

#[test]
fn sub_registers_sets_flag_iff_minuend_larger() {
    let m = run(&[0x60, 0x05, 0x61, 0x03, 0x80, 0x15], 3);
    assert_eq!(m.register(0), 2);
    assert_eq!(m.register(0xF), 1);
    // The difference wraps modulo 256 when VY > VX.
    let m2 = run(&[0x60, 0x03, 0x61, 0x05, 0x80, 0x15], 3);
    assert_eq!(m2.register(0), 254);
    assert_eq!(m2.register(0xF), 0);
}

#[test]
fn sub_from_sets_flag_iff_subtrahend_larger() {
    let m = run(&[0x60, 0x03, 0x61, 0x05, 0x80, 0x17], 3);
    assert_eq!(m.register(0), 2);
    assert_eq!(m.register(0xF), 1);
    let m2 = run(&[0x60, 0x05, 0x61, 0x03, 0x80, 0x17], 3);
    assert_eq!(m2.register(0), 254);
    assert_eq!(m2.register(0xF), 0);
}

#[test]
fn bitwise_ops_and_copy() {
    let m = run(&[0x60, 0x0C, 0x61, 0x0A, 0x80, 0x11], 3);
    assert_eq!(m.register(0), 0x0E);
    let m2 = run(&[0x60, 0x0C, 0x61, 0x0A, 0x80, 0x12], 3);
    assert_eq!(m2.register(0), 0x08);
    let m3 = run(&[0x60, 0x0C, 0x61, 0x0A, 0x80, 0x13], 3);
    assert_eq!(m3.register(0), 0x06);
    let m4 = run(&[0x61, 0x0A, 0x80, 0x10], 2);
    assert_eq!(m4.register(0), 0x0A);
}

#[test]
fn shift_right_takes_source_low_bit() {
    // V1 := 5; V0 := V1 >> 1, flag := low bit of V1 before the shift.
    let m = run(&[0x61, 0x05, 0x80, 0x16], 2);
    assert_eq!(m.register(0), 2);
    assert_eq!(m.register(1), 5);
    assert_eq!(m.register(0xF), 1);
}

#[test]
fn shift_left_takes_source_high_bit_and_wraps() {
    let m = run(&[0x61, 0x81, 0x80, 0x1E], 2);
    assert_eq!(m.register(0), 0x02);
    assert_eq!(m.register(0xF), 1);
    let m2 = run(&[0x61, 0x41, 0x80, 0x1E], 2);
    assert_eq!(m2.register(0), 0x82);
    assert_eq!(m2.register(0xF), 0);
}

#[test]
fn conditional_skips() {
    // 3XNN taken and not taken.
    let m = run(&[0x60, 0x07, 0x30, 0x07], 2);
    assert_eq!(m.program_counter(), 0x206);
    let m2 = run(&[0x60, 0x07, 0x30, 0x08], 2);
    assert_eq!(m2.program_counter(), 0x204);
    // 4XNN, 5XY0, 9XY0.
    let m3 = run(&[0x60, 0x07, 0x40, 0x08], 2);
    assert_eq!(m3.program_counter(), 0x206);
    let m4 = run(&[0x60, 0x07, 0x61, 0x07, 0x50, 0x10], 3);
    assert_eq!(m4.program_counter(), 0x208);
    let m5 = run(&[0x60, 0x07, 0x61, 0x08, 0x90, 0x10], 3);
    assert_eq!(m5.program_counter(), 0x208);
}

#[test]
fn jumps_and_index() {
    let m = run(&[0x13, 0x10], 1);
    assert_eq!(m.program_counter(), 0x310);
    // BNNN jumps to V0 + NNN.
    let m2 = run(&[0x60, 0x10, 0xB3, 0x00], 2);
    assert_eq!(m2.program_counter(), 0x310);
    let m3 = run(&[0xA1, 0x23], 1);
    assert_eq!(m3.index_register(), 0x123);
    // FX1E adds VX into the index register.
    let m4 = run(&[0xA1, 0x23, 0x60, 0x05, 0xF0, 0x1E], 3);
    assert_eq!(m4.index_register(), 0x128);
}

#[test]
fn glyph_address_is_five_times_digit() {
    let m = run(&[0x60, 0x0A, 0xF0, 0x29], 2);
    assert_eq!(m.index_register(), 50);
}

#[test]
fn bcd_writes_decimal_digits() {
    // I := 0x300; V0 := 156; store its digits 1, 5, 6.
    let m = run(&[0xA3, 0x00, 0x60, 0x9C, 0xF0, 0x33], 3);
    assert_eq!(m.memory_byte(0x300), 1);
    assert_eq!(m.memory_byte(0x301), 5);
    assert_eq!(m.memory_byte(0x302), 6);
}

#[test]
fn store_and_load_register_ranges() {
    let m = run(
        &[0xA3, 0x00, 0x60, 0x11, 0x61, 0x22, 0x62, 0x33, 0xF2, 0x55],
        5,
    );
    assert_eq!(m.memory_byte(0x300), 0x11);
    assert_eq!(m.memory_byte(0x301), 0x22);
    assert_eq!(m.memory_byte(0x302), 0x33);
    assert_eq!(m.memory_byte(0x303), 0x00);
    // Load them back into zeroed registers.
    let m2 = run(
        &[
            0xA3, 0x00, 0x60, 0x11, 0x61, 0x22, 0x62, 0x33, 0xF2, 0x55, 0x60, 0x00, 0x61, 0x00,
            0x62, 0x00, 0xF2, 0x65,
        ],
        9,
    );
    assert_eq!(m2.register(0), 0x11);
    assert_eq!(m2.register(1), 0x22);
    assert_eq!(m2.register(2), 0x33);
}

#[test]
fn timer_reads_and_writes() {
    let m = run(&[0x60, 0x2A, 0xF0, 0x15, 0xF0, 0x18, 0xF1, 0x07], 4);
    assert_eq!(m.delay_timer(), 42);
    assert_eq!(m.sound_timer(), 42);
    assert_eq!(m.register(1), 42);
}

#[test]
fn random_byte_is_masked() {
    let m = run(&[0xC0, 0x00], 1);
    assert_eq!(m.register(0), 0);
    let m2 = run(&[0xC1, 0x0F], 1);
    assert!(m2.register(1) < 16);
}

#[test]
fn zero_word_is_a_no_op_but_one_is_not() {
    let mut m = Chip8::new();
    m.load_rom(&vec![0x00, 0x00, 0x00, 0x01]).unwrap();
    m.update_step().unwrap();
    assert_eq!(m.program_counter(), 0x202);
    assert_eq!(
        m.update_step(),
        Err(Chip8Error::UnsupportedInstruction(0x0001, 0x202))
    );
    // The fault left the machine where it was.
    assert_eq!(m.program_counter(), 0x202);
}

#[test]
fn unsupported_instruction_reports_word_and_pc() {
    let mut m = Chip8::new();
    m.load_rom(&vec![0xFF, 0xFF]).unwrap();
    assert_eq!(
        m.update_step(),
        Err(Chip8Error::UnsupportedInstruction(0xFFFF, 0x200))
    );
}

#[test]
fn program_counter_out_of_bounds_faults() {
    let mut m = Chip8::new();
    m.load_rom(&vec![0x1F, 0xFF]).unwrap();
    m.update_step().unwrap();
    assert_eq!(m.program_counter(), 0xFFF);
    assert_eq!(m.update_step(), Err(Chip8Error::OutOfBounds));
}

#[test]
fn memory_access_out_of_bounds_faults_without_mutation() {
    let mut m = Chip8::new();
    m.load_rom(&vec![0xAF, 0xFF, 0xF0, 0x33]).unwrap();
    m.update_step().unwrap();
    assert_eq!(m.update_step(), Err(Chip8Error::OutOfBounds));
    assert_eq!(m.program_counter(), 0x202);
    assert_eq!(m.memory_byte(0xFFF), 0);
}

#[test]
fn return_on_empty_stack_underflows() {
    let mut m = Chip8::new();
    m.load_rom(&vec![0x00, 0xEE]).unwrap();
    assert_eq!(m.update_step(), Err(Chip8Error::StackUnderflow(0x200)));
}

#[test]
fn nested_calls_unwind_in_reverse_order() {
    let mut cpu = Cpu::new();
    let mut ram = Ram::new();
    let mut display = Display::new();
    let mut input = InputLatch::new();
    let mut timers = TimerPair::new();
    // 0x200: call 0x206; 0x206: call 0x20C; 0x20C: return.
    ram.write_byte(0x200, 0x22);
    ram.write_byte(0x201, 0x06);
    ram.write_byte(0x206, 0x22);
    ram.write_byte(0x207, 0x0C);
    ram.write_byte(0x20C, 0x00);
    ram.write_byte(0x20D, 0xEE);
    cpu.tick(&mut ram, &mut display, &mut input, &mut timers).unwrap();
    assert_eq!(cpu.program_counter(), 0x206);
    assert_eq!(cpu.stack_depth(), 1);
    cpu.tick(&mut ram, &mut display, &mut input, &mut timers).unwrap();
    assert_eq!(cpu.program_counter(), 0x20C);
    assert_eq!(cpu.stack_depth(), 2);
    cpu.tick(&mut ram, &mut display, &mut input, &mut timers).unwrap();
    assert_eq!(cpu.program_counter(), 0x206);
    assert_eq!(cpu.stack_depth(), 1);
    // Turn the call site into a return and unwind the outer frame too.
    ram.write_byte(0x206, 0x00);
    ram.write_byte(0x207, 0xEE);
    cpu.tick(&mut ram, &mut display, &mut input, &mut timers).unwrap();
    assert_eq!(cpu.program_counter(), 0x200);
    assert_eq!(cpu.stack_depth(), 0);
    // One return too many underflows.
    ram.write_byte(0x200, 0x00);
    ram.write_byte(0x201, 0xEE);
    assert_eq!(
        cpu.tick(&mut ram, &mut display, &mut input, &mut timers),
        Err(Chip8Error::StackUnderflow(0x200))
    );
}

#[test]
fn draw_uses_memory_at_index_and_reports_collision() {
    // I := 0 (glyph "0": F0 90 90 90 F0); draw 5 rows at (0, 0).
    let mut m = Chip8::new();
    m.load_rom(&vec![0xA0, 0x00, 0xD0, 0x05, 0xD0, 0x05]).unwrap();
    m.update_step().unwrap();
    m.update_step().unwrap();
    assert_eq!(m.register(0xF), 0);
    assert!(m.pixel_at(0, 0) && m.pixel_at(3, 0) && !m.pixel_at(4, 0));
    assert!(m.pixel_at(0, 1) && !m.pixel_at(1, 1) && !m.pixel_at(2, 1) && m.pixel_at(3, 1));
    // The identical second draw collides and restores the blank screen.
    m.update_step().unwrap();
    assert_eq!(m.register(0xF), 1);
    for y in 0..32u16 {
        for x in 0..64u16 {
            assert!(!m.pixel_at(x, y));
        }
    }
}
