use teruic::gui::UI;
use teruic::vga::Writer;

#[test]
fn draw_window_frames_title_and_lines() {
    let lines = UI::draw_window("C Runtime", &vec!["Result: 5".to_string()]);
    let frame = "+---------------------------------------------------+";
    assert_eq!(lines.len(), 5);
    assert_eq!(lines[0], format!("\n{}", frame));
    assert_eq!(lines[1], format!("| APP: {:<45} |", "C Runtime"));
    assert_eq!(lines[2], frame);
    assert_eq!(lines[3], format!("| {:<49} |", "Result: 5"));
    assert_eq!(lines[4], format!("{}\n", frame));
    assert_eq!(lines[1].chars().count(), 54);
}

#[test]
fn draw_window_keeps_long_lines() {
    let long = "x".repeat(60);
    let lines = UI::draw_window("T", &vec![long.clone()]);
    assert_eq!(lines[3], format!("| {} |", long));
}

#[test]
fn draw_window_without_content() {
    let lines = UI::draw_window("Empty", &vec![]);
    assert_eq!(lines.len(), 4);
}

#[test]
fn draw_header_paints_top_row() {
    let mut w = Writer::new();
    UI::draw_header(&mut w, "Shell");
    let bar = "  [Teruic OS v0.1.0] | Application Layer: Active | System: Shell";
    for (i, b) in bar.bytes().enumerate() {
        assert_eq!(w.cell(0, i).ascii_character, b);
        assert_eq!(w.cell(0, i).color_code.0, 0x8F);
    }
    assert_eq!(w.cell(0, 79).ascii_character, b' ');
    assert_eq!(w.cell(0, 79).color_code.0, 0x8F);
    // later output is light green on black
    w.write_byte(b'k');
    assert_eq!(w.cell(24, 0).color_code.0, 0x0A);
}
