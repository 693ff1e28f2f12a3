use teruic::vga::{Color, ColorCode, Writer};

#[test]
fn color_code_puts_background_high() {
    assert_eq!(ColorCode::new(Color::Yellow, Color::Black).0, 0x0E);
    assert_eq!(ColorCode::new(Color::White, Color::DarkGray).0, 0x8F);
    assert_eq!(ColorCode::new(Color::Black, Color::White).0, 0xF0);
    assert_eq!(ColorCode::new(Color::LightGray, Color::Black).0, 0x07);
    assert_eq!(Color::LightCyan.number(), 11);
}

#[test]
fn new_writer_is_blank_yellow_on_black() {
    let w = Writer::new();
    let c = w.cell(24, 0);
    assert_eq!(c.ascii_character, b' ');
    assert_eq!(c.color_code.0, 0x0E);
    assert_eq!(w.cell(0, 79).ascii_character, b' ');
}

#[test]
fn write_string_writes_on_bottom_row() {
    let mut w = Writer::new();
    w.write_string("Hi");
    assert_eq!(w.cell(24, 0).ascii_character, b'H');
    assert_eq!(w.cell(24, 1).ascii_character, b'i');
    assert_eq!(w.cell(24, 2).ascii_character, b' ');
}

#[test]
fn unprintable_bytes_become_blocks() {
    let mut w = Writer::new();
    w.write_string("a\tb\u{e9}");
    assert_eq!(w.cell(24, 0).ascii_character, b'a');
    assert_eq!(w.cell(24, 1).ascii_character, 0xfe);
    assert_eq!(w.cell(24, 2).ascii_character, b'b');
    // the two bytes of the UTF-8 encoding of 'é'
    assert_eq!(w.cell(24, 3).ascii_character, 0xfe);
    assert_eq!(w.cell(24, 4).ascii_character, 0xfe);
    assert_eq!(w.cell(24, 5).ascii_character, b' ');
}

#[test]
fn newline_scrolls_up() {
    let mut w = Writer::new();
    w.write_string("one\ntwo");
    assert_eq!(w.cell(23, 0).ascii_character, b'o');
    assert_eq!(w.cell(23, 2).ascii_character, b'e');
    assert_eq!(w.cell(24, 0).ascii_character, b't');
    assert_eq!(w.cell(24, 3).ascii_character, b' ');
}

#[test]
fn full_row_wraps_to_a_new_line() {
    let mut w = Writer::new();
    let s: String = std::iter::repeat('x').take(80).collect();
    w.write_string(&s);
    assert_eq!(w.cell(24, 79).ascii_character, b'x');
    w.write_byte(b'y');
    assert_eq!(w.cell(23, 79).ascii_character, b'x');
    assert_eq!(w.cell(24, 0).ascii_character, b'y');
    assert_eq!(w.cell(24, 1).ascii_character, b' ');
}

#[test]
fn colors_apply_to_later_writes() {
    let mut w = Writer::new();
    w.set_colors(Color::Black, Color::White);
    w.write_byte(b'z');
    assert_eq!(w.cell(24, 0).color_code.0, 0xF0);
    w.clear_row(24);
    assert_eq!(w.cell(24, 0).ascii_character, b' ');
    assert_eq!(w.cell(24, 0).color_code.0, 0xF0);
}

#[test]
fn write_bytes_at_clips_at_the_edge() {
    let mut w = Writer::new();
    w.write_bytes_at(3, 78, &b"abc".to_vec());
    assert_eq!(w.cell(3, 78).ascii_character, b'a');
    assert_eq!(w.cell(3, 79).ascii_character, b'b');
    assert_eq!(w.cell(4, 0).ascii_character, b' ');
}

#[test]
fn clear_screen_blanks_everything() {
    let mut w = Writer::new();
    w.write_string("abc\ndef");
    w.clear_screen();
    for row in 0..25 {
        for col in 0..80 {
            assert_eq!(w.cell(row, col).ascii_character, b' ');
        }
    }
    w.write_byte(b'q');
    assert_eq!(w.cell(24, 0).ascii_character, b'q');
}
