use chip8::input::InputLatch;
use chip8::ram::Ram;
use chip8::timers::TimerPair;

#[test]
fn memory_preloads_the_glyph_table() {
    let ram = Ram::new();
    // Glyph "0" is F0 90 90 90 F0 at address 0.
    assert_eq!(ram.read_byte(0), 0xF0);
    assert_eq!(ram.read_byte(1), 0x90);
    assert_eq!(ram.read_byte(4), 0xF0);
    // Glyph "1" starts five bytes later.
    assert_eq!(ram.read_byte(5), 0x20);
    // The last byte of glyph "F".
    assert_eq!(ram.read_byte(79), 0x80);
    // Everything after the table starts zeroed.
    assert_eq!(ram.read_byte(80), 0);
    assert_eq!(ram.read_byte(0x200), 0);
    assert_eq!(ram.read_byte(4095), 0);
}

#[test]
fn memory_reads_back_writes() {
    let mut ram = Ram::new();
    assert_eq!(ram.capacity(), 4096);
    ram.write_byte(0x300, 0xAB);
    assert_eq!(ram.read_byte(0x300), 0xAB);
    ram.write_byte(4095, 0x01);
    assert_eq!(ram.read_byte(4095), 0x01);
}

#[test]
fn latch_tracks_key_states() {
    let mut latch = InputLatch::new();
    for k in 0..16u8 {
        assert!(!latch.is_pressed(k));
    }
    latch.set_key(4, true);
    assert!(latch.is_pressed(4));
    assert!(!latch.is_pressed(5));
    latch.set_key(4, false);
    assert!(!latch.is_pressed(4));
}

#[test]
fn latch_blocks_and_resolves_to_the_recorded_register() {
    let mut latch = InputLatch::new();
    assert!(!latch.is_blocked());
    assert_eq!(latch.unblock(), None);
    latch.block(3);
    assert!(latch.is_blocked());
    assert_eq!(latch.unblock(), Some(3));
    assert!(!latch.is_blocked());
}

#[test]
fn timers_count_down_and_stop_at_zero() {
    let mut t = TimerPair::new();
    t.set_delay(2);
    t.set_sound(1);
    t.tick_clock();
    assert_eq!(t.get_delay(), 1);
    assert_eq!(t.get_sound(), 0);
    t.tick_clock();
    assert_eq!(t.get_delay(), 0);
    assert_eq!(t.get_sound(), 0);
    t.tick_clock();
    assert_eq!(t.get_delay(), 0);
    assert_eq!(t.get_sound(), 0);
}

#[test]
fn timer_writes_take_effect_before_the_next_tick() {
    let mut t = TimerPair::new();
    t.set_delay(5);
    t.tick_clock();
    t.set_delay(9);
    t.tick_clock();
    assert_eq!(t.get_delay(), 8);
}
