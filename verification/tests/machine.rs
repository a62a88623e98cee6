use chip8::chip8::Chip8;
use chip8::errors::Chip8Error;

fn machine_with(rom: &[u8]) -> Chip8 {
    let mut m = Chip8::new();
    m.load_rom(&rom.to_vec()).unwrap();
    m
}

#[test]
fn end_to_end_add_and_clear() {
    // V0 := 5; V1 := 3; V0 += V1; clear screen.
    let mut m = machine_with(&[0x60, 0x05, 0x61, 0x03, 0x80, 0x14, 0x00, 0xE0]);
    for _ in 0..4 {
        m.update_step().unwrap();
    }
    assert_eq!(m.register(0), 8);
    assert_eq!(m.register(0xF), 0);
    for y in 0..32u16 {
        for x in 0..64u16 {
            assert!(!m.pixel_at(x, y));
        }
    }
}

#[test]
fn timer_cadence_eight_steps_per_tick() {
    // V0 := 10; delay := V0; then no-ops. With 8 instruction steps per
    // timer tick, ticks land on steps 8 and 16, so 18 steps read 8.
    let mut m = machine_with(&[0x60, 0x0A, 0xF0, 0x15]);
    for _ in 0..18 {
        m.update_step().unwrap();
    }
    assert_eq!(m.delay_timer(), 8);
}

#[test]
fn blocked_until_key_press_resumes() {
    // Wait for a key into V3, then a no-op.
    let mut m = machine_with(&[0xF3, 0x0A]);
    m.update_step().unwrap();
    assert!(m.is_blocked());
    assert_eq!(m.program_counter(), 0x202);
    for _ in 0..5 {
        m.update_step().unwrap();
        assert_eq!(m.program_counter(), 0x202);
    }
    m.key_down(7);
    assert!(!m.is_blocked());
    assert_eq!(m.register(3), 7);
    m.update_step().unwrap();
    assert_eq!(m.program_counter(), 0x204);
}

#[test]
fn rom_too_large_is_refused() {
    let mut m = Chip8::new();
    let big = vec![0u8; 4096 - 0x200 + 1];
    assert_eq!(m.load_rom(&big), Err(Chip8Error::RomTooLarge));
    // The largest program that fits is accepted.
    let fits = vec![0u8; 4096 - 0x200];
    assert!(m.load_rom(&fits).is_ok());
}

#[test]
fn rom_bytes_land_at_program_start() {
    let m = machine_with(&[0xAB, 0xCD]);
    assert_eq!(m.memory_byte(0x200), 0xAB);
    assert_eq!(m.memory_byte(0x201), 0xCD);
    assert_eq!(m.memory_byte(0x202), 0x00);
}

#[test]
fn skip_when_key_pressed() {
    // V0 := 7; skip next if key V0 pressed.
    let mut m = machine_with(&[0x60, 0x07, 0xE0, 0x9E]);
    m.key_down(7);
    m.update_step().unwrap();
    m.update_step().unwrap();
    assert_eq!(m.program_counter(), 0x206);
}

#[test]
fn no_skip_when_key_released() {
    let mut m = machine_with(&[0x60, 0x07, 0xE0, 0x9E]);
    m.key_down(7);
    m.key_up(7);
    m.update_step().unwrap();
    m.update_step().unwrap();
    assert_eq!(m.program_counter(), 0x204);
}

#[test]
fn skip_when_key_not_pressed() {
    let mut m = machine_with(&[0x60, 0x07, 0xE0, 0xA1]);
    m.update_step().unwrap();
    m.update_step().unwrap();
    assert_eq!(m.program_counter(), 0x206);
}

#[test]
fn key_press_does_not_write_register_when_not_blocked() {
    let mut m = machine_with(&[0x00, 0x00]);
    m.key_down(5);
    assert_eq!(m.register(5), 0);
    m.update_step().unwrap();
    assert_eq!(m.program_counter(), 0x202);
}

#[test]
fn timers_keep_counting_while_blocked() {
    // delay := 10 (via V0), then wait for a key.
    let mut m = machine_with(&[0x60, 0x0A, 0xF0, 0x15, 0xF1, 0x0A]);
    for _ in 0..18 {
        m.update_step().unwrap();
    }
    assert!(m.is_blocked());
    assert_eq!(m.delay_timer(), 8);
}
