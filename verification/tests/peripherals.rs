use rusty_8::Memory;
use rusty_8::Timer60Hz;
use rusty_8::timer::decayed;
use rusty_8::translate_keypad;

#[test]
fn memory_construction_seeds_font() {
    let m = Memory::new();
    assert_eq!(m.ram.len(), 4096);
    assert_eq!(m.ram[0], 0xF0);
    assert_eq!(m.ram[5], 0x20);
    assert_eq!(m.ram[79], 0x80);
    assert_eq!(m.ram[80], 0);
    assert!(m.stack.is_empty());
    assert!(m.display.iter().all(|&p| p == 0));
}

#[test]
fn memory_load_copies_at_program_address() {
    let mut m = Memory::new();
    m.load(&[0xDE, 0xAD, 0xBE, 0xEF]);
    assert_eq!(m.ram[0x200], 0xDE);
    assert_eq!(m.ram[0x203], 0xEF);
    assert_eq!(m.ram[0x204], 0);
    assert_eq!(m.ram[0], 0xF0);
}

#[test]
fn memory_reload_clears_before_loading() {
    let mut m = Memory::new();
    m.load(&[0x11, 0x22, 0x33]);
    m.stack.push(0x202);
    m.write_u8(0x400, 0x99);
    m.reload(&[0x44]);
    assert_eq!(m.ram[0x200], 0x44);
    assert_eq!(m.ram[0x201], 0);
    assert_eq!(m.ram[0x202], 0);
    assert_eq!(m.ram[0x400], 0);
    assert_eq!(m.ram[0], 0xF0);
    assert!(m.stack.is_empty());
}

#[test]
fn memory_word_read_is_big_endian() {
    let mut m = Memory::new();
    m.write_u8(0x400, 0x12);
    m.write_u8(0x401, 0x34);
    assert_eq!(m.read_u16(0x400), 0x1234);
    assert_eq!(m.read_u8(0x400), 0x12);
}

#[test]
fn sprite_draw_twice_restores_pixels() {
    let mut m = Memory::new();
    let sprite = [0xFF, 0x81];
    assert!(!m.write_sprite(3, 4, &sprite));
    assert_eq!(&m.display[4 * 64 + 3..4 * 64 + 11], &[1, 1, 1, 1, 1, 1, 1, 1]);
    assert_eq!(&m.display[5 * 64 + 3..5 * 64 + 11], &[1, 0, 0, 0, 0, 0, 0, 1]);
    assert!(m.write_sprite(3, 4, &sprite));
    assert!(m.display.iter().all(|&p| p == 0));
}

#[test]
fn sprite_coordinates_wrap_but_drawing_clips() {
    let mut m = Memory::new();
    // x and y wrap modulo the display size before drawing
    m.write_sprite(64, 32, &[0x80]);
    assert_eq!(m.display[0], 1);

    // at the right and bottom edges the sprite clips instead of wrapping
    let mut m = Memory::new();
    m.write_sprite(60, 31, &[0xFF, 0xFF]);
    let set: usize = m.display.iter().filter(|&&p| p == 1).count();
    assert_eq!(set, 4);
    assert_eq!(&m.display[31 * 64 + 60..31 * 64 + 64], &[1, 1, 1, 1]);
}

#[test]
fn sprite_collision_needs_an_overlapping_set_pixel() {
    let mut m = Memory::new();
    assert!(!m.write_sprite(0, 0, &[0x0F]));
    assert!(!m.write_sprite(0, 0, &[0xF0]));
    assert!(m.write_sprite(0, 0, &[0x10]));
}

#[test]
fn clear_display_zeroes_every_cell() {
    let mut m = Memory::new();
    m.write_sprite(10, 10, &[0xFF]);
    m.clear_display();
    assert!(m.display.iter().all(|&p| p == 0));
}

#[test]
fn timer_decay_formula() {
    assert_eq!(decayed(5, 0, 1), 5);
    assert_eq!(decayed(5, 15, 1), 5);
    assert_eq!(decayed(5, 16, 1), 4);
    assert_eq!(decayed(5, 32, 1), 3);
    assert_eq!(decayed(5, 80, 1), 0);
    assert_eq!(decayed(5, 95, 1), 0);
    assert_eq!(decayed(5, 96, 1), 0);
    assert_eq!(decayed(200, 16 * 300, 1), 0);
    // the time scale slows the mutating read path down
    assert_eq!(decayed(5, 32, 2), 4);
    assert_eq!(decayed(0, 0, 1), 0);
}

#[test]
fn timer_set_then_immediate_reads() {
    let mut t = Timer60Hz::new();
    assert_eq!(t.get(), 0);
    t.set(5);
    assert_eq!(t.get_no_mod(), 5);
    assert_eq!(t.get(), 5);
    t.set(0);
    assert_eq!(t.get(), 0);
}

#[test]
fn timer_scale_does_not_affect_peek() {
    let mut t = Timer60Hz::with_time_scale(10);
    t.set(7);
    assert_eq!(t.get_no_mod(), 7);
    assert_eq!(t.get(), 7);
    t.set_time_scale(3);
    assert_eq!(t.get_no_mod(), 7);
}

#[test]
fn keypad_layout_maps_all_sixteen_keys() {
    let mapped = [
        ('1', 0x1),
        ('2', 0x2),
        ('3', 0x3),
        ('4', 0xC),
        ('q', 0x4),
        ('w', 0x5),
        ('e', 0x6),
        ('r', 0xD),
        ('a', 0x7),
        ('s', 0x8),
        ('d', 0x9),
        ('f', 0xE),
        ('z', 0xA),
        ('x', 0x0),
        ('c', 0xB),
        ('v', 0xF),
    ];
    for (key, code) in mapped {
        assert_eq!(translate_keypad(key), Some(code));
    }
    assert_eq!(translate_keypad('5'), None);
    assert_eq!(translate_keypad('p'), None);
    assert_eq!(translate_keypad(' '), None);
}
