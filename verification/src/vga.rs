//! The VGA text buffer: a grid of 25 rows by 80 columns of character cells, each an
//! ASCII byte and a colour attribute, written at the bottom row and scrolled upwards.
use vstd::prelude::*;
use vstd::utf8::encode_utf8;

verus! {

/// Rows of the text buffer.
pub const BUFFER_HEIGHT: usize = 25;
/// Columns of the text buffer.
pub const BUFFER_WIDTH: usize = 80;

/// Standard 16-color palette supported by VGA text hardware.
#[derive(Debug, Clone, Copy, PartialEq, Eq, Structural)]
pub enum Color {
    Black,
    Blue,
    Green,
    Cyan,
    Red,
    Magenta,
    Brown,
    LightGray,
    DarkGray,
    LightBlue,
    LightGreen,
    LightCyan,
    LightRed,
    Pink,
    Yellow,
    White,
}

/// The hardware number of a colour.
pub open spec fn color_number(c: Color) -> u8 {
    match c {
        Color::Black => 0,
        Color::Blue => 1,
        Color::Green => 2,
        Color::Cyan => 3,
        Color::Red => 4,
        Color::Magenta => 5,
        Color::Brown => 6,
        Color::LightGray => 7,
        Color::DarkGray => 8,
        Color::LightBlue => 9,
        Color::LightGreen => 10,
        Color::LightCyan => 11,
        Color::LightRed => 12,
        Color::Pink => 13,
        Color::Yellow => 14,
        Color::White => 15,
    }
}

impl Color {
    /// The hardware number of the colour (0 to 15).
    pub fn number(self) -> (r: u8)
        ensures
            r == color_number(self),
            r < 16,
    {
        match self {
            Color::Black => 0,
            Color::Blue => 1,
            Color::Green => 2,
            Color::Cyan => 3,
            Color::Red => 4,
            Color::Magenta => 5,
            Color::Brown => 6,
            Color::LightGray => 7,
            Color::DarkGray => 8,
            Color::LightBlue => 9,
            Color::LightGreen => 10,
            Color::LightCyan => 11,
            Color::LightRed => 12,
            Color::Pink => 13,
            Color::Yellow => 14,
            Color::White => 15,
        }
    }
}

/// A foreground and a background colour combined into one attribute byte.
#[derive(Debug, Clone, Copy, PartialEq, Eq, Structural)]
pub struct ColorCode(pub u8);

/// The attribute byte: the background in the high four bits, the foreground in the low four.
pub open spec fn color_code_value(foreground: Color, background: Color) -> u8 {
    (color_number(background) * 16 + color_number(foreground)) as u8
}

impl ColorCode {
    /// Combines a foreground and a background colour.
    pub fn new(foreground: Color, background: Color) -> (r: ColorCode)
        ensures
            r.0 == color_code_value(foreground, background),
    {
        let b = background.number();
        let f = foreground.number();
        assert((b << 4u8) | f == b * 16 + f) by (bit_vector)
            requires
                b < 16,
                f < 16,
        ;
        ColorCode((b << 4u8) | f)
    }
}

/// A character cell: an ASCII byte and its colour attribute.
#[derive(Debug, Clone, Copy, PartialEq, Eq, Structural)]
pub struct ScreenChar {
    pub ascii_character: u8,
    pub color_code: ColorCode,
}

/// What the screen shows: the cells row by row (cell `(r, c)` at `r * 80 + c`), the
/// column where the next byte goes on the bottom row, and the current colours.
pub struct ScreenView {
    pub cells: Seq<ScreenChar>,
    pub column: int,
    pub color: ColorCode,
}

/// A blank cell in the given colours.
pub open spec fn blank(color: ColorCode) -> ScreenChar {
    ScreenChar { ascii_character: 32, color_code: color }
}

/// The screen after a new line: every row moved up one, the bottom row blank, and the
/// column back at 0.
pub open spec fn new_line_spec(v: ScreenView) -> ScreenView {
    ScreenView {
        cells: Seq::new(2000, |i: int| if i < 1920 { v.cells[i + 80] } else { blank(v.color) }),
        column: 0,
        ..v
    }
}

/// The screen with row `row` blank.
pub open spec fn clear_row_spec(v: ScreenView, row: int) -> ScreenView {
    ScreenView {
        cells: Seq::new(2000, |i: int| if row * 80 <= i < row * 80 + 80 { blank(v.color) } else { v.cells[i] }),
        ..v
    }
}

/// The screen after one byte: a newline starts a new line; any other byte goes at the
/// column on the bottom row (after a new line where the row is full).
pub open spec fn write_byte_spec(v: ScreenView, b: u8) -> ScreenView {
    if b == 10 {
        new_line_spec(v)
    } else {
        let w = if v.column >= 80 { new_line_spec(v) } else { v };
        ScreenView {
            cells: w.cells.update(24 * 80 + w.column, ScreenChar { ascii_character: b, color_code: w.color }),
            column: w.column + 1,
            ..w
        }
    }
}

/// The byte shown for `b`: printable ASCII and newline as they are, any other byte as
/// the block character 0xfe.
pub open spec fn shown_byte(b: u8) -> u8 {
    if (0x20 <= b <= 0x7e) || b == 10 { b } else { 0xfe }
}

/// The screen after writing bytes in order.
pub open spec fn write_bytes_spec(v: ScreenView, bytes: Seq<u8>) -> ScreenView
    decreases bytes.len(),
{
    if bytes.len() == 0 {
        v
    } else {
        write_byte_spec(write_bytes_spec(v, bytes.drop_last()), shown_byte(bytes.last()))
    }
}

/// The screen with `bytes` written from `(row, col)` onwards, clipped at the right edge.
pub open spec fn write_at_spec(v: ScreenView, row: int, col: int, bytes: Seq<u8>) -> ScreenView {
    ScreenView {
        cells: Seq::new(2000, |i: int|
            if row * 80 + col <= i < row * 80 + 80 && i - (row * 80 + col) < bytes.len() {
                ScreenChar { ascii_character: shown_byte(bytes[i - (row * 80 + col)]), color_code: v.color }
            } else {
                v.cells[i]
            }),
        ..v
    }
}

/// The writer: the cell grid, the cursor column on the bottom row and the colours.
pub struct Writer {
    column_position: usize,
    color_code: ColorCode,
    buffer: Vec<ScreenChar>,
}

impl View for Writer {
    type V = ScreenView;

    closed spec fn view(&self) -> ScreenView {
        ScreenView { cells: self.buffer@, column: self.column_position as int, color: self.color_code }
    }
}

/// A well-formed screen: 2000 cells and the column at most 80.
pub open spec fn screen_wf(v: ScreenView) -> bool {
    v.cells.len() == 2000 && 0 <= v.column <= 80
}

impl Writer {
    /// A blank screen written in yellow on black from the first column.
    pub fn new() -> (r: Self)
        ensures
            screen_wf(r@),
            r@.column == 0,
            r@.color.0 == color_code_value(Color::Yellow, Color::Black),
            forall|i: int| 0 <= i < 2000 ==> #[trigger] r@.cells[i] == blank(r@.color),
    {
        let color = ColorCode::new(Color::Yellow, Color::Black);
        let mut buffer: Vec<ScreenChar> = Vec::new();
        let mut i: usize = 0;
        while i < 2000
            invariant
                i <= 2000,
                buffer@.len() == i,
                forall|j: int| 0 <= j < i ==> #[trigger] buffer@[j] == blank(color),
            decreases 2000 - i,
        {
            buffer.push(ScreenChar { ascii_character: 32, color_code: color });
            i += 1;
        }
        Writer { column_position: 0, color_code: color, buffer }
    }

    /// Uses the given colours for what is written next.
    pub fn set_colors(&mut self, foreground: Color, background: Color)
        ensures
            final(self)@ == (ScreenView { color: ColorCode(color_code_value(foreground, background)), ..old(self)@ }),
    {
        self.color_code = ColorCode::new(foreground, background);
    }

    /// Clears a row by filling it with blank spaces.
    pub fn clear_row(&mut self, row: usize)
        requires
            screen_wf(old(self)@),
            row < 25,
        ensures
            screen_wf(final(self)@),
            final(self)@ == clear_row_spec(old(self)@, row as int),
    {
        let blank_cell = ScreenChar { ascii_character: 32, color_code: self.color_code };
        let start = row * 80;
        let mut col: usize = 0;
        let ghost before = self.buffer@;
        while col < 80
            invariant
                col <= 80,
                start == row * 80,
                row < 25,
                blank_cell == blank(self.color_code),
                self.color_code == old(self)@.color,
                self.column_position == old(self)@.column,
                before == old(self)@.cells,
                self.buffer@.len() == 2000,
                forall|i: int| 0 <= i < 2000 ==> #[trigger] self.buffer@[i] == if start <= i < start + col { blank_cell } else { before[i] },
            decreases 80 - col,
        {
            self.buffer.set(start + col, blank_cell);
            col += 1;
        }
        assert(self@.cells =~= clear_row_spec(old(self)@, row as int).cells);
    }

    /// Scrolls all lines up by one, clears the bottom row and returns to the first column.
    pub fn new_line(&mut self)
        requires
            screen_wf(old(self)@),
        ensures
            screen_wf(final(self)@),
            final(self)@ == new_line_spec(old(self)@),
    {
        let ghost before = self.buffer@;
        let mut i: usize = 0;
        while i < 1920
            invariant
                i <= 1920,
                self.buffer@.len() == 2000,
                before.len() == 2000,
                before == old(self)@.cells,
                self.color_code == old(self)@.color,
                self.column_position == old(self)@.column,
                0 <= old(self)@.column <= 80,
                forall|j: int| 0 <= j < 2000 ==> #[trigger] self.buffer@[j] == if j < i { before[j + 80] } else { before[j] },
            decreases 1920 - i,
        {
            let c = self.buffer[i + 80];
            self.buffer.set(i, c);
            i += 1;
        }
        self.clear_row(24);
        self.column_position = 0;
        assert(self@.cells =~= new_line_spec(old(self)@).cells);
    }

    /// Writes a single byte (ASCII character) to the screen.
    pub fn write_byte(&mut self, byte: u8)
        requires
            screen_wf(old(self)@),
        ensures
            screen_wf(final(self)@),
            final(self)@ == write_byte_spec(old(self)@, byte),
    {
        if byte == 10 {
            self.new_line();
        } else {
            if self.column_position >= 80 {
                self.new_line();
            }
            let col = self.column_position;
            let cell = ScreenChar { ascii_character: byte, color_code: self.color_code };
            self.buffer.set(24 * 80 + col, cell);
            self.column_position = col + 1;
        }
    }

    /// Writes a full string to the screen; bytes other than printable ASCII and newline
    /// are shown as the block character 0xfe.
    pub fn write_string(&mut self, s: &str)
        requires
            screen_wf(old(self)@),
        ensures
            screen_wf(final(self)@),
            final(self)@ == write_bytes_spec(old(self)@, encode_utf8(s@)),
    {
        let bytes = s.as_bytes();
        let mut i: usize = 0;
        while i < bytes.len()
            invariant
                i <= bytes@.len(),
                bytes@ == encode_utf8(s@),
                screen_wf(self@),
                self@ == write_bytes_spec(old(self)@, bytes@.take(i as int)),
            decreases bytes.len() - i,
        {
            let b = bytes[i];
            let shown: u8 = if (0x20 <= b && b <= 0x7e) || b == 10 { b } else { 0xfe };
            assert(bytes@.take(i + 1).drop_last() =~= bytes@.take(i as int));
            self.write_byte(shown);
            i += 1;
        }
        assert(bytes@.take(bytes@.len() as int) =~= bytes@);
    }

    /// Writes bytes at `(row, col)` onwards in the current colours, without moving the
    /// cursor, dropping what goes past the right edge.
    pub fn write_bytes_at(&mut self, row: usize, col: usize, bytes: &Vec<u8>)
        requires
            screen_wf(old(self)@),
            row < 25,
            col < 80,
        ensures
            screen_wf(final(self)@),
            final(self)@ == write_at_spec(old(self)@, row as int, col as int, bytes@),
    {
        let ghost before = self.buffer@;
        let start = row * 80 + col;
        let end = row * 80 + 80;
        let mut k: usize = 0;
        while k < bytes.len() && start + k < end
            invariant
                start == row * 80 + col,
                end == row * 80 + 80,
                row < 25,
                col < 80,
                start + k <= end,
                k <= bytes@.len(),
                self.buffer@.len() == 2000,
                self.color_code == old(self)@.color,
                self.column_position == old(self)@.column,
                0 <= old(self)@.column <= 80,
                before == old(self)@.cells,
                forall|i: int| 0 <= i < 2000 ==> #[trigger] self.buffer@[i] == if start <= i < start + k {
                    ScreenChar { ascii_character: shown_byte(bytes@[i - start]), color_code: self.color_code }
                } else {
                    before[i]
                },
            decreases bytes.len() - k,
        {
            let b = bytes[k];
            let shown: u8 = if (0x20 <= b && b <= 0x7e) || b == 10 { b } else { 0xfe };
            self.buffer.set(start + k, ScreenChar { ascii_character: shown, color_code: self.color_code });
            k += 1;
        }
        assert(k == bytes@.len() || start + k == end);
        let ghost want = write_at_spec(old(self)@, row as int, col as int, bytes@).cells;
        assert forall|i: int| 0 <= i < 2000 implies #[trigger] self@.cells[i] == want[i] by {
            if start <= i < start + k {
                assert(i - start < bytes@.len());
            }
        }
        assert(self@.cells =~= want);
    }

    /// Blanks the whole screen and returns to the first column.
    pub fn clear_screen(&mut self)
        requires
            screen_wf(old(self)@),
        ensures
            screen_wf(final(self)@),
            final(self)@.column == 0,
            final(self)@.color == old(self)@.color,
            forall|i: int| 0 <= i < 2000 ==> #[trigger] final(self)@.cells[i] == blank(old(self)@.color),
    {
        let mut row: usize = 0;
        while row < 25
            invariant
                row <= 25,
                screen_wf(self@),
                self@.color == old(self)@.color,
                forall|i: int| 0 <= i < row * 80 ==> #[trigger] self@.cells[i] == blank(old(self)@.color),
            decreases 25 - row,
        {
            self.clear_row(row);
            row += 1;
        }
        self.column_position = 0;
    }

    /// The cell at `(row, col)`.
    pub fn cell(&self, row: usize, col: usize) -> (r: ScreenChar)
        requires
            screen_wf(self@),
            row < 25,
            col < 80,
        ensures
            r == self@.cells[row * 80 + col],
    {
        self.buffer[row * 80 + col]
    }
}

} // verus!

verus! {

/// `k` newline bytes.
pub open spec fn newlines(k: nat) -> Seq<u8> {
    Seq::new(k, |i: int| 10u8)
}

/// Writing `s` and then `t` is writing `s + t`.
pub proof fn lemma_write_bytes_concat(v: ScreenView, s: Seq<u8>, t: Seq<u8>)
    ensures
        write_bytes_spec(v, s + t) == write_bytes_spec(write_bytes_spec(v, s), t),
    decreases t.len(),
{
    if t.len() == 0 {
        assert(s + t =~= s);
    } else {
        lemma_write_bytes_concat(v, s, t.drop_last());
        assert((s + t).drop_last() =~= s + t.drop_last());
        assert((s + t).last() == t.last());
    }
}

/// Newlines scroll the whole screen: after `k` newlines every row shows what the row
/// `k` below it showed, the bottom `k` rows are blank in the current colours, and the
/// next byte goes to the first column.
pub proof fn law_newlines_scroll(v: ScreenView, k: nat)
    ensures
        ({
            let w = write_bytes_spec(v, newlines(k));
            &&& w.color == v.color
            &&& k > 0 ==> w.column == 0
            &&& forall|r: int, c: int| 0 <= r < 25 && 0 <= c < 80 ==> #[trigger] w.cells[r * 80 + c]
                == if k > 0 { if r + k < 25 { v.cells[(r + k) * 80 + c] } else { blank(v.color) } } else { v.cells[r * 80 + c] }
        }),
    decreases k,
{
    if k > 0 {
        let k1 = (k - 1) as nat;
        law_newlines_scroll(v, k1);
        assert(newlines(k).drop_last() =~= newlines(k1));
        assert(newlines(k).last() == 10u8);
        let p = write_bytes_spec(v, newlines(k1));
        let w = write_bytes_spec(v, newlines(k));
        assert(w == new_line_spec(p));
        assert forall|r: int, c: int| 0 <= r < 25 && 0 <= c < 80 implies #[trigger] w.cells[r * 80 + c]
            == if r + k < 25 { v.cells[(r + k) * 80 + c] } else { blank(v.color) } by {
            if r < 24 {
                assert(w.cells[r * 80 + c] == p.cells[(r + 1) * 80 + c]);
            }
        }
    }
}

/// Text written before newlines moves up with them: after writing `s` and then `k`
/// newlines, row `r` shows what row `r + k` showed after `s`, and the bottom `k` rows
/// are blank.
pub proof fn law_text_scrolls_up(v: ScreenView, s: Seq<u8>, k: nat)
    requires
        k > 0,
    ensures
        forall|r: int, c: int| 0 <= r < 25 && 0 <= c < 80 ==> #[trigger] write_bytes_spec(v, s + newlines(k)).cells[r * 80 + c]
            == if r + k < 25 { write_bytes_spec(v, s).cells[(r + k) * 80 + c] } else { blank(v.color) },
{
    lemma_write_bytes_concat(v, s, newlines(k));
    law_newlines_scroll(write_bytes_spec(v, s), k);
    lemma_write_bytes_keep_color(v, s);
}

/// Writing bytes never changes the colours.
pub proof fn lemma_write_bytes_keep_color(v: ScreenView, s: Seq<u8>)
    ensures
        write_bytes_spec(v, s).color == v.color,
    decreases s.len(),
{
    if s.len() > 0 {
        lemma_write_bytes_keep_color(v, s.drop_last());
    }
}

} // verus!
