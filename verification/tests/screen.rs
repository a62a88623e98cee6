use chip8::display::Display;

#[test]
fn sprite_wraps_around_the_right_edge() {
    let mut d = Display::new();
    let collision = d.display_sprite(&[0xFF], 62, 0);
    assert!(!collision);
    // An 8-wide row at x = 62 touches columns 62, 63, 0, 1, 2, 3, 4, 5.
    for x in [62u16, 63, 0, 1, 2, 3, 4, 5] {
        assert!(d.is_set(x, 0));
    }
    for x in 6..62u16 {
        assert!(!d.is_set(x, 0));
    }
    for y in 1..32u16 {
        for x in 0..64u16 {
            assert!(!d.is_set(x, y));
        }
    }
}

#[test]
fn sprite_wraps_around_the_bottom_edge() {
    let mut d = Display::new();
    d.display_sprite(&[0x80, 0x80], 0, 31);
    assert!(d.is_set(0, 31));
    assert!(d.is_set(0, 0));
    assert!(!d.is_set(0, 1));
}

#[test]
fn double_blit_restores_the_grid_and_collides() {
    let mut d = Display::new();
    let first = d.display_sprite(&[0xA5, 0x3C], 10, 30);
    assert!(!first);
    assert!(d.is_set(10, 30));
    let second = d.display_sprite(&[0xA5, 0x3C], 10, 30);
    assert!(second);
    for y in 0..32u16 {
        for x in 0..64u16 {
            assert!(!d.is_set(x, y));
        }
    }
}

#[test]
fn collision_reported_exactly_when_a_lit_pixel_turns_off() {
    let mut d = Display::new();
    assert!(!d.display_sprite(&[0x80], 0, 0));
    // A disjoint sprite never collides.
    assert!(!d.display_sprite(&[0x40], 0, 0));
    // One that overlays a lit pixel does, turning it off.
    assert!(d.display_sprite(&[0xC0], 0, 0));
    assert!(!d.is_set(0, 0));
    assert!(!d.is_set(1, 0));
}

#[test]
fn most_significant_bit_is_leftmost() {
    let mut d = Display::new();
    d.display_sprite(&[0x81], 0, 0);
    assert!(d.is_set(0, 0));
    assert!(d.is_set(7, 0));
    for x in 1..7u16 {
        assert!(!d.is_set(x, 0));
    }
}

#[test]
fn clear_unsets_every_pixel() {
    let mut d = Display::new();
    d.display_sprite(&[0xFF, 0xFF], 20, 5);
    d.clear();
    for y in 0..32u16 {
        for x in 0..64u16 {
            assert!(!d.is_set(x, y));
        }
    }
}

#[test]
fn empty_sprite_changes_nothing() {
    let mut d = Display::new();
    let rows: [u8; 0] = [];
    assert!(!d.display_sprite(&rows, 3, 3));
    for y in 0..32u16 {
        for x in 0..64u16 {
            assert!(!d.is_set(x, y));
        }
    }
}
