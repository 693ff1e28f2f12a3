//! The text-mode user interface: the status bar at the top of the screen and the
//! framed cards shown for running applications.
use vstd::prelude::*;
use crate::shell::strings_view;
use crate::text::{chars_of, encode_utf8_chars, pad_right, pad_to, push_all, push_str, string_of};
use crate::vga::{
    clear_row_spec, color_code_value, screen_wf, write_at_spec, Color, ColorCode, ScreenView,
    Writer,
};
use vstd::utf8::encode_utf8;

verus! {

/// The screen with the given colours current.
pub open spec fn with_colors(v: ScreenView, foreground: Color, background: Color) -> ScreenView {
    ScreenView { color: ColorCode(color_code_value(foreground, background)), ..v }
}

/// The text of the status bar.
pub open spec fn header_text(title: Seq<char>) -> Seq<char> {
    "  [Teruic OS v0.1.0] | Application Layer: Active | System: "@ + title
}

/// The screen after drawing the status bar: the top row cleared in white on dark gray
/// and the bar written there, then light green on black for terminal output.
pub open spec fn header_screen(v: ScreenView, title: Seq<char>) -> ScreenView {
    let w = clear_row_spec(with_colors(v, Color::White, Color::DarkGray), 0);
    with_colors(write_at_spec(w, 0, 0, encode_utf8(header_text(title))), Color::LightGreen, Color::Black)
}

/// A line of the frame of a card.
pub open spec fn frame_line() -> Seq<char> {
    "+---------------------------------------------------+"@
}

/// The lines of a card for an application: a frame, the title padded to 45 characters,
/// and each content line padded to 49 characters.
pub open spec fn window_lines(title: Seq<char>, content: Seq<Seq<char>>) -> Seq<Seq<char>> {
    seq!["\n"@ + frame_line(), "| APP: "@ + pad_right(title, 45) + " |"@, frame_line()]
        + content.map_values(|l: Seq<char>| "| "@ + pad_right(l, 49) + " |"@)
        + seq![frame_line() + "\n"@]
}

/// The user interface.
pub struct UI;

impl UI {
    /// Draws the status bar on the top row, then leaves the colours at light green on black.
    pub fn draw_header(writer: &mut Writer, title: &str)
        requires
            screen_wf(old(writer)@),
        ensures
            screen_wf(final(writer)@),
            final(writer)@ == header_screen(old(writer)@, title@),
    {
        writer.set_colors(Color::White, Color::DarkGray);
        writer.clear_row(0);
        let mut h: Vec<char> = Vec::new();
        push_str(&mut h, "  [Teruic OS v0.1.0] | Application Layer: Active | System: ");
        push_str(&mut h, title);
        let bytes = encode_utf8_chars(&h);
        writer.write_bytes_at(0, 0, &bytes);
        writer.set_colors(Color::LightGreen, Color::Black);
    }

    /// The lines of a card for an application, to be printed in order.
    pub fn draw_window(title: &str, content: &Vec<String>) -> (r: Vec<String>)
        ensures
            strings_view(r@) == window_lines(title@, strings_view(content@)),
    {
        let mut r: Vec<String> = Vec::new();
        let mut first: Vec<char> = Vec::new();
        push_str(&mut first, "\n");
        push_str(&mut first, "+---------------------------------------------------+");
        r.push(string_of(&first));
        let mut t = chars_of(title);
        pad_to(&mut t, 45);
        let mut second: Vec<char> = Vec::new();
        push_str(&mut second, "| APP: ");
        push_all(&mut second, &t);
        push_str(&mut second, " |");
        r.push(string_of(&second));
        r.push("+---------------------------------------------------+".to_owned());
        let ghost head = strings_view(r@);
        let ghost cv = strings_view(content@);
        let mut i: usize = 0;
        while i < content.len()
            invariant
                i <= content@.len(),
                cv == strings_view(content@),
                head.len() == 3,
                strings_view(r@) == head + cv.take(i as int).map_values(|l: Seq<char>| "| "@ + pad_right(l, 49) + " |"@),
            decreases content.len() - i,
        {
            let mut l = chars_of(content[i].as_str());
            pad_to(&mut l, 49);
            let mut line: Vec<char> = Vec::new();
            push_str(&mut line, "| ");
            push_all(&mut line, &l);
            push_str(&mut line, " |");
            let s = string_of(&line);
            let ghost before = r@;
            r.push(s);
            assert(strings_view(r@) =~= strings_view(before).push(s@));
            assert(cv.take(i + 1) =~= cv.take(i as int).push(cv[i as int]));
            i += 1;
        }
        let mut last: Vec<char> = Vec::new();
        push_str(&mut last, "+---------------------------------------------------+");
        push_str(&mut last, "\n");
        let s = string_of(&last);
        let ghost before = r@;
        r.push(s);
        assert(strings_view(r@) =~= strings_view(before).push(s@));
        assert(cv.take(content.len() as int) =~= cv);
        assert(strings_view(r@) =~= window_lines(title@, cv));
        r
    }
}

} // verus!
