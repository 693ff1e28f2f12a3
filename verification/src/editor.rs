//! TeruicPad, the full-screen text editor: a list of lines held as UTF-8 bytes, a
//! cursor (a byte column and a line number) and a clipboard.
use vstd::prelude::*;
use crate::text::{
    chars_of, copy_range, decode_utf8_chars, encode_utf8_chars, join_with, lemma_lines_of_join, lines_of, nat_decimal, strip_last, pad_right, pad_to,
    push_all, push_str, string_of, u64_decimal,
};
use crate::gui::with_colors;
use crate::vga::{clear_row_spec, screen_wf, write_at_spec, Color, ScreenView, Writer};
use crate::vfs::{NodeView, VFSManager};
use vstd::utf8::{
    decode_utf8, encode_utf8, is_char_boundary, length_of_first_scalar, valid_utf8,
};

verus! {

broadcast use vstd::utf8::group_utf8_lib;

/// What the editor holds.
pub struct EditorView {
    pub active: bool,
    pub lines: Seq<Seq<u8>>,
    pub cursor_x: int,
    pub cursor_y: int,
    pub clipboard: Seq<u8>,
}

/// The bytes of each line.
pub open spec fn lines_view(v: Seq<Vec<u8>>) -> Seq<Seq<u8>> {
    v.map_values(|l: Vec<u8>| l@)
}

/// The editor's invariant: every line and the clipboard are UTF-8 text, and an
/// active editor has at least one line.
pub open spec fn editor_wf(v: EditorView) -> bool {
    &&& v.active ==> v.lines.len() >= 1
    &&& forall|i: int| 0 <= i < v.lines.len() ==> valid_utf8(#[trigger] v.lines[i])
    &&& valid_utf8(v.clipboard)
    &&& 0 <= v.cursor_x
    &&& 0 <= v.cursor_y
}

/// The cursor brought back onto the text: the line number to the last line, the
/// column to the end of its line.
pub open spec fn clamped(v: EditorView) -> EditorView {
    let cy = if v.cursor_y >= v.lines.len() {
        if v.lines.len() > 0 { v.lines.len() - 1 } else { 0 }
    } else {
        v.cursor_y
    };
    let len = v.lines[cy].len() as int;
    let cx = if v.cursor_x > len { len } else { v.cursor_x };
    EditorView { cursor_x: cx, cursor_y: cy, ..v }
}

/// Ctrl+S, Esc or a backtick: save and close.
pub open spec fn is_save_key(c: char) -> bool {
    c == '\x13' || c == '\x1b' || c == '`'
}

/// The left-arrow key (or Ctrl+Q).
pub open spec fn is_left_key(c: char) -> bool {
    c == '\u{E000}' || c == '\x11'
}

/// The right-arrow key (or Ctrl+R).
pub open spec fn is_right_key(c: char) -> bool {
    c == '\u{E001}' || c == '\x12'
}

/// The up-arrow key (or Ctrl+T).
pub open spec fn is_up_key(c: char) -> bool {
    c == '\u{E002}' || c == '\x14'
}

/// The down-arrow key (or Ctrl+U).
pub open spec fn is_down_key(c: char) -> bool {
    c == '\u{E003}' || c == '\x15'
}

/// Enter.
pub open spec fn is_enter_key(c: char) -> bool {
    c == '\n' || c == '\r'
}

/// Backspace or Delete.
pub open spec fn is_backspace_key(c: char) -> bool {
    c == '\x08' || c == '\x7f'
}

/// A printable ASCII character that the editor inserts.
pub open spec fn is_text_key(c: char) -> bool {
    ' ' <= c <= '~' && c != '`'
}

/// The number of bytes of the character that starts at byte `i` of `line`.
pub open spec fn char_len_at(line: Seq<u8>, i: int) -> int {
    length_of_first_scalar(line.skip(i))
}

/// The editor after key `c`, from a state whose cursor is already on the text.
pub open spec fn edit_step(v: EditorView, c: char) -> EditorView {
    let cy = v.cursor_y;
    let cx = v.cursor_x;
    let line = v.lines[cy];
    if is_save_key(c) {
        EditorView { active: false, ..v }
    } else if c == '\x01' {
        EditorView { cursor_x: 0, cursor_y: 0, ..v }
    } else if c == '\x03' {
        EditorView { clipboard: line, ..v }
    } else if c == '\x16' {
        if v.clipboard.len() > 0 {
            EditorView {
                lines: v.lines.update(cy, line.take(cx) + v.clipboard + line.skip(cx)),
                cursor_x: cx + v.clipboard.len(),
                ..v
            }
        } else {
            v
        }
    } else if is_left_key(c) {
        if cx > 0 {
            EditorView { cursor_x: cx - 1, ..v }
        } else if cy > 0 {
            EditorView { cursor_y: cy - 1, cursor_x: v.lines[cy - 1].len() as int, ..v }
        } else {
            v
        }
    } else if is_right_key(c) {
        if cx < line.len() {
            EditorView { cursor_x: cx + 1, ..v }
        } else if cy + 1 < v.lines.len() {
            EditorView { cursor_y: cy + 1, cursor_x: 0, ..v }
        } else {
            v
        }
    } else if is_up_key(c) {
        if cy > 0 {
            let above = v.lines[cy - 1].len() as int;
            EditorView { cursor_y: cy - 1, cursor_x: if cx > above { above } else { cx }, ..v }
        } else {
            v
        }
    } else if is_down_key(c) {
        if cy + 1 < v.lines.len() {
            let below = v.lines[cy + 1].len() as int;
            EditorView { cursor_y: cy + 1, cursor_x: if cx > below { below } else { cx }, ..v }
        } else {
            v
        }
    } else if is_enter_key(c) {
        EditorView {
            lines: v.lines.update(cy, line.take(cx)).insert(cy + 1, line.skip(cx)),
            cursor_y: cy + 1,
            cursor_x: 0,
            ..v
        }
    } else if is_backspace_key(c) {
        if cx > 0 {
            EditorView {
                lines: v.lines.update(cy, line.take(cx - 1) + line.skip(cx - 1 + char_len_at(line, cx - 1))),
                cursor_x: cx - 1,
                ..v
            }
        } else if cy > 0 {
            EditorView {
                lines: v.lines.update(cy - 1, v.lines[cy - 1] + line).remove(cy),
                cursor_y: cy - 1,
                cursor_x: v.lines[cy - 1].len() as int,
                ..v
            }
        } else {
            v
        }
    } else if is_text_key(c) {
        EditorView {
            lines: v.lines.update(cy, line.take(cx).push((c as u32) as u8) + line.skip(cx)),
            cursor_x: cx + 1,
            ..v
        }
    } else {
        v
    }
}

/// The keys whose edit stays within a line's characters (the text operations need the
/// cursor on a character boundary) and within the machine's sizes.
pub open spec fn key_allowed(v: EditorView, c: char) -> bool {
    let cy = v.cursor_y;
    let cx = v.cursor_x;
    let line = v.lines[cy];
    if is_save_key(c) || c == '\x01' || c == '\x03' {
        true
    } else if c == '\x16' {
        v.clipboard.len() > 0 ==> is_char_boundary(line, cx) && line.len() + v.clipboard.len() <= usize::MAX
    } else if is_left_key(c) || is_right_key(c) || is_up_key(c) || is_down_key(c) {
        true
    } else if is_enter_key(c) {
        is_char_boundary(line, cx)
    } else if is_backspace_key(c) {
        cx > 0 ==> is_char_boundary(line, cx - 1)
    } else if is_text_key(c) {
        is_char_boundary(line, cx) && line.len() < usize::MAX
    } else {
        true
    }
}

/// The bytes that saving writes: the lines joined by newlines.
pub open spec fn saved_text(lines: Seq<Seq<u8>>) -> Seq<u8> {
    crate::text::join_with(lines, seq![10u8])
}

/// The lines that opening a file of these bytes shows: its text lines (UTF-8 encoded),
/// or one empty line where the file is missing, not text, or has no lines.
pub open spec fn opened_lines(bytes: Option<Seq<u8>>) -> Seq<Seq<u8>> {
    let ls = match bytes {
        Some(b) => if valid_utf8(b) {
            lines_of(decode_utf8(b), '\n', '\r').map_values(|l: Seq<char>| encode_utf8(l))
        } else {
            seq![]
        },
        None => seq![],
    };
    if ls.len() == 0 { seq![seq![]] } else { ls }
}

/// What is printed when the editor closes: the saved-file notice and the shell prompt.
pub open spec fn closed_text(name: Seq<char>) -> Seq<char> {
    "\n[Saved file '"@ + name + "' to VFS]\nteruic> "@
}

/// What is printed after the edited file is deleted: the notice and the shell prompt.
pub open spec fn deleted_text(name: Seq<char>) -> Seq<char> {
    "\n[Permanently deleted file '"@ + name + "']\nteruic> "@
}

/// What a key press did.
pub enum EditorOutcome {
    /// The editor is not active; the key was ignored.
    Inactive,
    /// The text was saved and the editor closed: the text to print after clearing the
    /// screen and drawing the shell's status bar.
    SavedAndClosed(String),
    /// The editor is still open; the screen is to be redrawn.
    Redraw,
}

/// Inserting UTF-8 text at a character boundary of UTF-8 text gives UTF-8 text.
pub proof fn lemma_insert_valid(line: Seq<u8>, at: int, mid: Seq<u8>)
    requires
        valid_utf8(line),
        valid_utf8(mid),
        is_char_boundary(line, at),
    ensures
        valid_utf8(line.take(at) + mid + line.skip(at)),
        valid_utf8(line.take(at)),
        valid_utf8(line.skip(at)),
        0 <= at <= line.len(),
{
    vstd::utf8::valid_utf8_split(line, at);
    vstd::utf8::valid_utf8_concat(line.take(at), mid);
    vstd::utf8::valid_utf8_concat(line.take(at) + mid, line.skip(at));
    if at < 0 || at > line.len() {
        assert(false) by {
            lemma_boundary_in_range(line, at);
        }
    }
}

/// A character boundary lies within the text.
pub proof fn lemma_boundary_in_range(line: Seq<u8>, at: int)
    requires
        valid_utf8(line),
        is_char_boundary(line, at),
    ensures
        0 <= at <= line.len(),
    decreases line.len(),
{
    if at != 0 && line.len() > 0 {
        reveal_with_fuel(is_char_boundary, 2);
        let rest = vstd::utf8::pop_first_scalar(line);
        lemma_boundary_in_range(rest, at - length_of_first_scalar(line));
    }
}

/// A single ASCII byte is UTF-8 text.
pub proof fn lemma_ascii_byte_valid(b: u8)
    requires
        b < 0x80,
    ensures
        valid_utf8(seq![b]),
{
    reveal_with_fuel(valid_utf8, 2);
    assert(vstd::utf8::pop_first_scalar(seq![b]) =~= Seq::<u8>::empty());
}

/// Removing the character that starts at a boundary inside UTF-8 text leaves UTF-8
/// text; that character has one to four bytes, as its first byte says.
pub proof fn lemma_remove_char_valid(line: Seq<u8>, at: int)
    requires
        valid_utf8(line),
        is_char_boundary(line, at),
        at < line.len(),
    ensures
        0 <= at,
        1 <= char_len_at(line, at) <= 4,
        at + char_len_at(line, at) <= line.len(),
        char_len_at(line, at) == (if line[at] < 0x80 { 1int } else if line[at] < 0xe0 { 2int } else if line[at] < 0xf0 { 3int } else { 4int }),
        valid_utf8(line.take(at) + line.skip(at + char_len_at(line, at))),
{
    lemma_boundary_in_range(line, at);
    vstd::utf8::valid_utf8_split(line, at);
    let rest = line.skip(at);
    assert(rest[0] == line[at]);
    let k = length_of_first_scalar(rest);
    assert(vstd::utf8::pop_first_scalar(rest) =~= line.skip(at + k));
    vstd::utf8::valid_utf8_concat(line.take(at), line.skip(at + k));
}

/// The text editor.
pub struct TextEditor {
    pub active: bool,
    pub filename: String,
    lines: Vec<Vec<u8>>,
    cursor_x: usize,
    cursor_y: usize,
    clipboard: Vec<u8>,
}

impl View for TextEditor {
    type V = EditorView;

    closed spec fn view(&self) -> EditorView {
        EditorView {
            active: self.active,
            lines: lines_view(self.lines@),
            cursor_x: self.cursor_x as int,
            cursor_y: self.cursor_y as int,
            clipboard: self.clipboard@,
        }
    }
}

impl TextEditor {
    /// The name of the file being edited.
    pub closed spec fn name(&self) -> Seq<char> {
        self.filename@
    }

    /// A closed editor with no file, no lines and an empty clipboard.
    pub fn new() -> (r: Self)
        ensures
            r@ == (EditorView { active: false, lines: seq![], cursor_x: 0, cursor_y: 0, clipboard: seq![] }),
            r.name() == Seq::<char>::empty(),
            editor_wf(r@),
    {
        let r = TextEditor {
            active: false,
            filename: String::new(),
            lines: Vec::new(),
            cursor_x: 0,
            cursor_y: 0,
            clipboard: Vec::new(),
        };
        assert(lines_view(r.lines@) =~= seq![]);
        proof {
            reveal_with_fuel(valid_utf8, 1);
        }
        r
    }

    /// Opens `filename`: the editor becomes active with the file's text lines, the
    /// cursor at the start and an empty clipboard.
    pub fn open(&mut self, fs: &VFSManager, filename: &str)
        requires
            fs.wf(),
        ensures
            final(self).name() == filename@,
            final(self)@ == (EditorView {
                active: true,
                lines: opened_lines(crate::shell::file_bytes(*fs, filename@)),
                cursor_x: 0,
                cursor_y: 0,
                clipboard: seq![],
            }),
            editor_wf(final(self)@),
    {
        self.filename = string_of(&chars_of(filename));
        self.active = true;
        self.cursor_x = 0;
        self.cursor_y = 0;
        self.clipboard.clear();
        self.lines.clear();
        let ghost text_lines: Seq<Seq<u8>> = seq![];
        match fs.read_file(filename) {
            Some(bytes) => {
                match decode_utf8_chars(&bytes) {
                    Some(text) => {
                        let ls = crate::text::lines(&text);
                        let ghost want = ls.deep_view().map_values(|l: Seq<char>| encode_utf8(l));
                        let mut i: usize = 0;
                        while i < ls.len()
                            invariant
                                i <= ls.len(),
                                self.filename@ == filename@,
                                self.active,
                                self.cursor_x == 0,
                                self.cursor_y == 0,
                                self.clipboard@ == Seq::<u8>::empty(),
                                ls.deep_view() == lines_of(text@, '\n', '\r'),
                                want == ls.deep_view().map_values(|l: Seq<char>| encode_utf8(l)),
                                lines_view(self.lines@) == want.take(i as int),
                            decreases ls.len() - i,
                        {
                            let enc = encode_utf8_chars(&ls[i]);
                            assert(ls.deep_view()[i as int] =~= ls@[i as int]@);
                            let ghost before = self.lines@;
                            self.lines.push(enc);
                            assert(lines_view(self.lines@) =~= lines_view(before).push(enc@));
                            assert(want.take(i + 1) =~= want.take(i as int).push(want[i as int]));
                            i += 1;
                        }
                        assert(want.take(ls.len() as int) =~= want);
                        proof {
                            text_lines = want;
                        }
                    },
                    None => {},
                }
            },
            None => {},
        }
        if self.lines.len() == 0 {
            self.lines.push(Vec::new());
            assert(lines_view(self.lines@) =~= seq![seq![]]);
        }
        proof {
            reveal_with_fuel(valid_utf8, 1);
            assert(self@.lines == opened_lines(crate::shell::file_bytes(*fs, filename@)));
            assert forall|i: int| 0 <= i < self@.lines.len() implies valid_utf8(#[trigger] self@.lines[i]) by {
                if text_lines.len() > 0 {
                    vstd::utf8::encode_utf8_valid_utf8(
                        lines_of(decode_utf8(crate::shell::file_bytes(*fs, filename@)->0), '\n', '\r')[i],
                    );
                }
            }
        }
    }

    /// Writes the lines, joined by newlines, to the file being edited.
    pub fn save(&self, fs: &mut VFSManager)
        requires
            old(fs).wf(),
        ensures
            final(fs).wf(),
            final(fs)@ == old(fs)@.insert(self.name(), NodeView::File(saved_text(self@.lines))),
    {
        let mut full: Vec<u8> = Vec::new();
        let ghost ls = self@.lines;
        let mut i: usize = 0;
        while i < self.lines.len()
            invariant
                i <= self.lines.len(),
                ls == lines_view(self.lines@),
                full@ == crate::text::join_with(ls.take(i as int), seq![10u8]),
            decreases self.lines.len() - i,
        {
            if i > 0 {
                full.push(10u8);
            }
            push_all(&mut full, &self.lines[i]);
            assert(ls.take(i + 1).drop_last() =~= ls.take(i as int));
            assert(i == 0 ==> full@ =~= ls.take(1)[0]);
            assert(i > 0 ==> full@ =~= crate::text::join_with(ls.take(i as int), seq![10u8]) + seq![10u8] + ls[i as int]);
            i += 1;
        }
        assert(ls.take(self.lines.len() as int) =~= ls);
        fs.write_file(self.filename.as_str(), full);
    }

    /// Leaves the editor (the text stays as it is); returns the text to print after
    /// clearing the screen and drawing the shell's status bar: the saved-file notice and
    /// the shell prompt.
    pub fn close(&mut self) -> (r: String)
        ensures
            final(self)@ == (EditorView { active: false, ..old(self)@ }),
            final(self).name() == old(self).name(),
            r@ == closed_text(old(self).name()),
    {
        self.active = false;
        let name = chars_of(self.filename.as_str());
        let mut m: Vec<char> = Vec::new();
        push_str(&mut m, "\n[Saved file '");
        push_all(&mut m, &name);
        push_str(&mut m, "' to VFS]\nteruic> ");
        string_of(&m)
    }

    /// Deletes the file being edited from the file system and leaves the editor with
    /// one empty line; returns the text to print after clearing the screen and drawing
    /// the shell's status bar: the deletion notice and the shell prompt.
    pub fn delete_file(&mut self, fs: &mut VFSManager) -> (r: String)
        requires
            old(fs).wf(),
            editor_wf(old(self)@),
        ensures
            final(fs).wf(),
            (old(fs)@.contains_key(old(self).name()) && old(fs)@[old(self).name()] is File)
                ==> final(fs)@ == old(fs)@.remove(old(self).name()),
            !(old(fs)@.contains_key(old(self).name()) && old(fs)@[old(self).name()] is File)
                ==> final(fs)@ == old(fs)@,
            final(self)@ == (EditorView { active: false, lines: seq![seq![]], ..old(self)@ }),
            final(self).name() == old(self).name(),
            editor_wf(final(self)@),
            r@ == deleted_text(old(self).name()),
    {
        fs.remove_file(self.filename.as_str());
        self.lines.clear();
        self.lines.push(Vec::new());
        self.active = false;
        assert(lines_view(self.lines@) =~= seq![seq![]]);
        proof {
            reveal_with_fuel(valid_utf8, 1);
        }
        let name = chars_of(self.filename.as_str());
        let mut m: Vec<char> = Vec::new();
        push_str(&mut m, "\n[Permanently deleted file '");
        push_all(&mut m, &name);
        push_str(&mut m, "']\nteruic> ");
        string_of(&m)
    }

    /// Replaces line `i`.
    fn set_line(&mut self, i: usize, line: Vec<u8>)
        requires
            i < old(self).lines@.len(),
        ensures
            final(self)@ == (EditorView { lines: old(self)@.lines.update(i as int, line@), ..old(self)@ }),
            final(self).name() == old(self).name(),
    {
        let ghost before = self.lines@;
        self.lines.set(i, line);
        assert(lines_view(self.lines@) =~= lines_view(before).update(i as int, line@));
    }

    /// The cursor is on the text.
    spec fn on_text(&self) -> bool {
        &&& self.cursor_y < self.lines@.len()
        &&& self.cursor_x <= self.lines@[self.cursor_y as int]@.len()
    }

    /// Brings the cursor back onto the text.
    fn clamp_cursor(&mut self)
        requires
            old(self)@.lines.len() >= 1,
        ensures
            final(self)@ == clamped(old(self)@),
            final(self).name() == old(self).name(),
            final(self).on_text(),
    {
        if self.cursor_y >= self.lines.len() {
            self.cursor_y = self.lines.len() - 1;
        }
        if self.cursor_x > self.lines[self.cursor_y].len() {
            self.cursor_x = self.lines[self.cursor_y].len();
        }
        assert(self.lines@[self.cursor_y as int]@ == self@.lines[self.cursor_y as int]);
    }

    /// Ctrl+V: inserts the clipboard at the cursor.
    fn paste(&mut self)
        requires
            old(self).on_text(),
            editor_wf(old(self)@),
            key_allowed(old(self)@, '\x16'),
        ensures
            final(self)@ == edit_step(old(self)@, '\x16'),
            final(self).name() == old(self).name(),
            editor_wf(final(self)@),
    {
        let ghost v = self@;
        let cy = self.cursor_y;
        let cx = self.cursor_x;
        assert(self.lines@[cy as int]@ == v.lines[cy as int]);
        if self.clipboard.len() > 0 {
            let line = &self.lines[cy];
            proof {
                lemma_insert_valid(line@, cx as int, self.clipboard@);
            }
            let mut nl = copy_range(line, 0, cx);
            push_all(&mut nl, &self.clipboard);
            let rest = copy_range(line, cx, line.len());
            push_all(&mut nl, &rest);
            let added = self.clipboard.len();
            self.set_line(cy, nl);
            self.cursor_x = cx + added;
        }
    }

    /// The arrow keys.
    fn move_cursor(&mut self, c: char)
        requires
            old(self).on_text(),
            editor_wf(old(self)@),
            is_left_key(c) || is_right_key(c) || is_up_key(c) || is_down_key(c),
        ensures
            final(self)@ == edit_step(old(self)@, c),
            final(self).name() == old(self).name(),
            editor_wf(final(self)@),
    {
        let ghost v = self@;
        let cy = self.cursor_y;
        let cx = self.cursor_x;
        assert(self.lines@[cy as int]@ == v.lines[cy as int]);
        if c == '\u{E000}' || c == '\x11' {
            if cx > 0 {
                self.cursor_x = cx - 1;
            } else if cy > 0 {
                self.cursor_y = cy - 1;
                self.cursor_x = self.lines[cy - 1].len();
                assert(self.lines@[cy - 1]@ == v.lines[cy - 1]);
            }
        } else if c == '\u{E001}' || c == '\x12' {
            if cx < self.lines[cy].len() {
                self.cursor_x = cx + 1;
            } else if cy < self.lines.len() - 1 {
                self.cursor_y = cy + 1;
                self.cursor_x = 0;
            }
        } else if c == '\u{E002}' || c == '\x14' {
            if cy > 0 {
                self.cursor_y = cy - 1;
                assert(self.lines@[cy - 1]@ == v.lines[cy - 1]);
                if cx > self.lines[cy - 1].len() {
                    self.cursor_x = self.lines[cy - 1].len();
                }
            }
        } else {
            if cy < self.lines.len() - 1 {
                self.cursor_y = cy + 1;
                assert(self.lines@[cy + 1]@ == v.lines[cy + 1]);
                if cx > self.lines[cy + 1].len() {
                    self.cursor_x = self.lines[cy + 1].len();
                }
            }
        }
    }

    /// Enter: splits the line at the cursor.
    fn split_line(&mut self, c: char)
        requires
            old(self).on_text(),
            editor_wf(old(self)@),
            is_enter_key(c),
            key_allowed(old(self)@, c),
        ensures
            final(self)@ == edit_step(old(self)@, c),
            final(self).name() == old(self).name(),
            editor_wf(final(self)@),
    {
        let ghost v = self@;
        let cy = self.cursor_y;
        let cx = self.cursor_x;
        assert(self.lines@[cy as int]@ == v.lines[cy as int]);
        let line = &self.lines[cy];
        proof {
            lemma_insert_valid(line@, cx as int, seq![]);
        }
        let head = copy_range(line, 0, cx);
        let tail = copy_range(line, cx, line.len());
        let n = self.lines.len();
        assert(cy < n);
        self.set_line(cy, head);
        assert(self@.lines.len() == self.lines@.len());
        let ghost before = self.lines@;
        self.lines.insert(cy + 1, tail);
        assert(lines_view(self.lines@) =~= lines_view(before).insert(cy + 1, tail@));
        self.cursor_y = cy + 1;
        self.cursor_x = 0;
        proof {
            let w = self@;
            assert forall|i: int| 0 <= i < w.lines.len() implies valid_utf8(#[trigger] w.lines[i]) by {
                if i < cy {
                    assert(w.lines[i] == v.lines[i]);
                } else if i > cy + 1 {
                    assert(w.lines[i] == v.lines[i - 1]);
                }
            }
        }
    }

    /// Backspace: removes the character before the cursor, or joins the line to the
    /// one above when the cursor is at its start.
    fn backspace(&mut self, c: char)
        requires
            old(self).on_text(),
            editor_wf(old(self)@),
            is_backspace_key(c),
            key_allowed(old(self)@, c),
        ensures
            final(self)@ == edit_step(old(self)@, c),
            final(self).name() == old(self).name(),
            editor_wf(final(self)@),
    {
        let ghost v = self@;
        let cy = self.cursor_y;
        let cx = self.cursor_x;
        assert(self.lines@[cy as int]@ == v.lines[cy as int]);
        if cx > 0 {
            let line = &self.lines[cy];
            proof {
                lemma_remove_char_valid(line@, cx - 1);
            }
            let b = line[cx - 1];
            let k: usize = if b < 0x80 { 1 } else if b < 0xe0 { 2 } else if b < 0xf0 { 3 } else { 4 };
            let n = line.len();
            assert(cx - 1 + k <= n);
            let mut nl = copy_range(line, 0, cx - 1);
            let rest = copy_range(line, cx - 1 + k, n);
            push_all(&mut nl, &rest);
            self.set_line(cy, nl);
            self.cursor_x = cx - 1;
            proof {
                let w = self@;
                assert forall|i: int| 0 <= i < w.lines.len() implies valid_utf8(#[trigger] w.lines[i]) by {
                    if i != cy {
                        assert(w.lines[i] == v.lines[i]);
                    }
                }
            }
        } else if cy > 0 {
            assert(self.lines@[cy - 1]@ == v.lines[cy - 1]);
            let prev_len = self.lines[cy - 1].len();
            let mut joined = self.lines[cy - 1].clone();
            assert(joined@ =~= v.lines[cy - 1]);
            push_all(&mut joined, &self.lines[cy]);
            proof {
                vstd::utf8::valid_utf8_concat(v.lines[cy - 1], v.lines[cy as int]);
            }
            let ghost before = self.lines@;
            self.lines.remove(cy);
            assert(lines_view(self.lines@) =~= lines_view(before).remove(cy as int));
            self.set_line(cy - 1, joined);
            assert(self@.lines =~= v.lines.update(cy - 1, v.lines[cy - 1] + v.lines[cy as int]).remove(cy as int));
            self.cursor_y = cy - 1;
            self.cursor_x = prev_len;
            proof {
                let w = self@;
                assert forall|i: int| 0 <= i < w.lines.len() implies valid_utf8(#[trigger] w.lines[i]) by {
                    if i < cy - 1 {
                        assert(w.lines[i] == v.lines[i]);
                    } else if i > cy - 1 {
                        assert(w.lines[i] == v.lines[i + 1]);
                    }
                }
            }
        }
    }

    /// A printable character: inserted at the cursor.
    fn insert_char(&mut self, c: char)
        requires
            old(self).on_text(),
            editor_wf(old(self)@),
            is_text_key(c),
            !is_save_key(c),
            key_allowed(old(self)@, c),
        ensures
            final(self)@ == edit_step(old(self)@, c),
            final(self).name() == old(self).name(),
            editor_wf(final(self)@),
    {
        let ghost v = self@;
        let cy = self.cursor_y;
        let cx = self.cursor_x;
        assert(self.lines@[cy as int]@ == v.lines[cy as int]);
        let line = &self.lines[cy];
        let b = (c as u32) as u8;
        proof {
            lemma_ascii_byte_valid(b);
            lemma_insert_valid(line@, cx as int, seq![b]);
        }
        let mut nl = copy_range(line, 0, cx);
        nl.push(b);
        let rest = copy_range(line, cx, line.len());
        push_all(&mut nl, &rest);
        assert(nl@ =~= line@.take(cx as int).push(b) + line@.skip(cx as int));
        assert(line@.take(cx as int).push(b) =~= line@.take(cx as int) + seq![b]);
        self.set_line(cy, nl);
        self.cursor_x = cx + 1;
        proof {
            let w = self@;
            assert forall|i: int| 0 <= i < w.lines.len() implies valid_utf8(#[trigger] w.lines[i]) by {
                if i != cy {
                    assert(w.lines[i] == v.lines[i]);
                }
            }
        }
    }

    /// Handles one key while the editor is open: cursor movement, text editing,
    /// copy and paste of whole lines, and save-and-close. The screen is redrawn by
    /// the caller after each key.
    pub fn handle_key(&mut self, fs: &mut VFSManager, c: char) -> (r: EditorOutcome)
        requires
            old(fs).wf(),
            editor_wf(old(self)@),
            old(self)@.active ==> key_allowed(clamped(old(self)@), c),
        ensures
            final(fs).wf(),
            editor_wf(final(self)@),
            final(self).name() == old(self).name(),
            !old(self)@.active ==> final(self)@ == old(self)@ && r is Inactive && final(fs)@ == old(fs)@,
            old(self)@.active ==> final(self)@ == edit_step(clamped(old(self)@), c),
            old(self)@.active && is_save_key(c) ==> (r matches EditorOutcome::SavedAndClosed(m) && m@ == closed_text(old(self).name()))
                && final(fs)@ == old(fs)@.insert(old(self).name(), NodeView::File(saved_text(old(self)@.lines))),
            old(self)@.active && !is_save_key(c) ==> r is Redraw && final(fs)@ == old(fs)@,
    {
        if !self.active {
            return EditorOutcome::Inactive;
        }
        self.clamp_cursor();
        let ghost v = self@;
        if c == '\x13' || c == '\x1b' || c == '`' {
            self.save(fs);
            let m = self.close();
            return EditorOutcome::SavedAndClosed(m);
        }
        if c == '\x01' {
            self.cursor_x = 0;
            self.cursor_y = 0;
        } else if c == '\x03' {
            let copy = self.lines[self.cursor_y].clone();
            assert(copy@ =~= v.lines[v.cursor_y]);
            self.clipboard = copy;
        } else if c == '\x16' {
            self.paste();
        } else if c == '\u{E000}' || c == '\x11' || c == '\u{E001}' || c == '\x12' || c == '\u{E002}'
            || c == '\x14' || c == '\u{E003}' || c == '\x15' {
            self.move_cursor(c);
        } else if c == '\n' || c == '\r' {
            self.split_line(c);
        } else if c == '\x08' || c == '\x7f' {
            self.backspace(c);
        } else if ' ' <= c && c <= '~' {
            self.insert_char(c);
        }
        EditorOutcome::Redraw
    }
}

} // verus!

verus! {

/// Whether `at` is a character boundary of the UTF-8 text `line`.
pub fn is_boundary(line: &Vec<u8>, at: usize) -> (r: bool)
    requires
        valid_utf8(line@),
    ensures
        r == is_char_boundary(line@, at as int),
{
    proof {
        vstd::utf8::is_char_boundary_start_end_of_seq(line@);
        if at > line@.len() && is_char_boundary(line@, at as int) {
            lemma_boundary_in_range(line@, at as int);
        }
        if at < line@.len() {
            vstd::utf8::is_char_boundary_iff_not_is_continuation_byte(line@, at as int);
        }
    }
    if at == 0 || at == line.len() {
        true
    } else if at > line.len() {
        false
    } else {
        !(0x80 <= line[at] && line[at] <= 0xbf)
    }
}

impl TextEditor {
    /// Whether `handle_key` may be given `c` now: always where the editor is closed;
    /// where it is open, when the edit keeps to character boundaries and machine sizes
    /// (elsewhere the editing operations have no defined result).
    pub fn key_is_safe(&self, c: char) -> (r: bool)
        requires
            editor_wf(self@),
        ensures
            r == (!self@.active || key_allowed(clamped(self@), c)),
    {
        if !self.active {
            return true;
        }
        let cy = if self.cursor_y >= self.lines.len() { self.lines.len() - 1 } else { self.cursor_y };
        let line = &self.lines[cy];
        let cx = if self.cursor_x > line.len() { line.len() } else { self.cursor_x };
        let ghost v = clamped(self@);
        assert(v.lines[cy as int] == line@);
        assert(valid_utf8(line@));
        if c == '\x13' || c == '\x1b' || c == '`' || c == '\x01' || c == '\x03' {
            true
        } else if c == '\x16' {
            self.clipboard.len() == 0 || (is_boundary(line, cx) && line.len() <= usize::MAX - self.clipboard.len())
        } else if c == '\u{E000}' || c == '\x11' || c == '\u{E001}' || c == '\x12' || c == '\u{E002}'
            || c == '\x14' || c == '\u{E003}' || c == '\x15' {
            true
        } else if c == '\n' || c == '\r' {
            is_boundary(line, cx)
        } else if c == '\x08' || c == '\x7f' {
            cx == 0 || is_boundary(line, cx - 1)
        } else if ' ' <= c && c <= '~' {
            is_boundary(line, cx) && line.len() < usize::MAX
        } else {
            true
        }
    }
}

/// The cursor is on the text: on an existing line, at most at its end.
pub open spec fn cursor_on_text(v: EditorView) -> bool {
    0 <= v.cursor_y < v.lines.len() && 0 <= v.cursor_x <= v.lines[v.cursor_y].len()
}

/// Left undoes Right: from a cursor on the text, Right then Left gives back the same
/// state (Right at a line's end goes to the next line's start, and Left from there to
/// the end of the line before), unless the cursor is at the very end of the text.
pub proof fn law_left_undoes_right(v: EditorView, right: char, left: char)
    requires
        cursor_on_text(v),
        is_right_key(right),
        is_left_key(left),
        v.cursor_x < v.lines[v.cursor_y].len() || v.cursor_y + 1 < v.lines.len(),
    ensures
        cursor_on_text(edit_step(v, right)),
        clamped(edit_step(v, right)) == edit_step(v, right),
        edit_step(edit_step(v, right), left) == v,
{
}

/// Right undoes Left: from a cursor on the text, Left then Right gives back the same
/// state (Left at a line's start goes to the end of the line before, and Right from
/// there to the next line's start), unless the cursor is at the very start of the text.
pub proof fn law_right_undoes_left(v: EditorView, right: char, left: char)
    requires
        cursor_on_text(v),
        is_right_key(right),
        is_left_key(left),
        v.cursor_x > 0 || v.cursor_y > 0,
    ensures
        cursor_on_text(edit_step(v, left)),
        clamped(edit_step(v, left)) == edit_step(v, left),
        edit_step(edit_step(v, left), right) == v,
{
}

/// Left at the start of any line but the first puts the cursor at the end of the line
/// before; elsewhere it moves one byte back, and at the start of the text it stays.
pub proof fn law_left_at_line_start(v: EditorView, left: char)
    requires
        cursor_on_text(v),
        is_left_key(left),
    ensures
        v.cursor_x == 0 && v.cursor_y > 0 ==> edit_step(v, left).cursor_y == v.cursor_y - 1
            && edit_step(v, left).cursor_x == v.lines[v.cursor_y - 1].len(),
        v.cursor_x > 0 ==> edit_step(v, left).cursor_y == v.cursor_y
            && edit_step(v, left).cursor_x == v.cursor_x - 1,
        edit_step(v, left).lines == v.lines,
{
}

/// Every key keeps the cursor on the text: on an existing line, at most at its end.
pub proof fn law_keys_keep_cursor_on_text(v: EditorView, c: char)
    requires
        editor_wf(v),
        v.active,
        key_allowed(clamped(v), c),
    ensures
        cursor_on_text(edit_step(clamped(v), c)),
{
    let u = clamped(v);
    let cy = u.cursor_y;
    let cx = u.cursor_x;
    let line = u.lines[cy];
    let w = edit_step(u, c);
    assert(cursor_on_text(u));
    if is_backspace_key(c) && cx > 0 {
        lemma_remove_char_valid(line, cx - 1);
        assert(w.lines[cy] == line.take(cx - 1) + line.skip(cx - 1 + char_len_at(line, cx - 1)));
    } else if is_backspace_key(c) && cy > 0 {
        assert(w.lines[cy - 1] == u.lines[cy - 1] + line);
    } else if is_enter_key(c) {
        lemma_boundary_in_range(line, cx);
        assert(w.lines[cy + 1] == line.skip(cx));
    } else if c == '\x16' && u.clipboard.len() > 0 {
        lemma_boundary_in_range(line, cx);
        assert(w.lines[cy] == line.take(cx) + u.clipboard + line.skip(cx));
    } else if is_text_key(c) {
        lemma_boundary_in_range(line, cx);
        assert(w.lines[cy] == line.take(cx).push((c as u32) as u8) + line.skip(cx));
    }
}

/// Typing a printable character and then Backspace gives back the same text and cursor.
pub proof fn law_backspace_undoes_insert(v: EditorView, c: char)
    requires
        editor_wf(v),
        v.active,
        cursor_on_text(v),
        is_text_key(c),
        key_allowed(v, c),
    ensures
        ({
            let w = edit_step(v, c);
            &&& cursor_on_text(w)
            &&& clamped(w) == w
            &&& key_allowed(w, '\x08')
            &&& edit_step(w, '\x08') == v
        }),
{
    let cy = v.cursor_y;
    let cx = v.cursor_x;
    let line = v.lines[cy];
    let b = (c as u32) as u8;
    assert(b < 0x80);
    lemma_ascii_byte_valid(b);
    lemma_insert_valid(line, cx, seq![b]);
    assert(line.take(cx) + seq![b] + line.skip(cx) =~= line.take(cx).push(b) + line.skip(cx));
    vstd::utf8::is_char_boundary_iff_not_is_continuation_byte(line.take(cx).push(b) + line.skip(cx), cx);
    let nl = line.take(cx).push(b) + line.skip(cx);
    let w = edit_step(v, c);
    assert(w.lines[cy] == nl);
    assert(nl.skip(cx) =~= seq![b] + line.skip(cx));
    reveal_with_fuel(vstd::utf8::valid_utf8, 1);
    assert(char_len_at(nl, cx) == 1);
    assert(nl.take(cx) + nl.skip(cx + 1) =~= line);
    assert(w.lines.update(cy, line) =~= v.lines);
}

/// Enter and then Backspace join the two halves again: the same text and cursor.
pub proof fn law_backspace_undoes_enter(v: EditorView, c: char)
    requires
        editor_wf(v),
        v.active,
        cursor_on_text(v),
        is_enter_key(c),
        key_allowed(v, c),
    ensures
        ({
            let w = edit_step(v, c);
            &&& cursor_on_text(w)
            &&& clamped(w) == w
            &&& key_allowed(w, '\x08')
            &&& edit_step(w, '\x08') == v
        }),
{
    let cy = v.cursor_y;
    let cx = v.cursor_x;
    let line = v.lines[cy];
    let w = edit_step(v, c);
    assert(w.lines[cy] == line.take(cx));
    assert(w.lines[cy + 1] == line.skip(cx));
    assert(line.take(cx) + line.skip(cx) =~= line);
    assert(w.lines.update(cy, line.take(cx) + line.skip(cx)).remove(cy + 1) =~= v.lines);
}

} // verus!

verus! {

/// The text of the editor's status bar.
pub open spec fn editor_header(name: Seq<char>) -> Seq<char> {
    " TeruicPad v1.0 | File: "@ + pad_right(name, 20) + " | [`] Save & Exit "@
}

/// The text of the editor's footer: the shortcuts and the cursor's line and column,
/// counted from 1.
pub open spec fn editor_footer(cx: int, cy: int) -> Seq<char> {
    " Ctl+C:Copy | Ctl+V:Paste | Ctl+A:Start | Ln "@ + nat_decimal((cy + 1) as nat) + ", Col "@
        + nat_decimal((cx + 1) as nat) + " "@
}

/// The bytes of a bar: padded with spaces to 80 characters where its encoding is
/// shorter than 80 bytes, else its first 80 bytes.
pub open spec fn bar_bytes(text: Seq<char>) -> Seq<u8> {
    let b = encode_utf8(text);
    if b.len() < 80 {
        encode_utf8(pad_right(text, 80))
    } else {
        b.take(80)
    }
}

/// A bar can be cut at 80 bytes (byte 80 starts a character).
pub open spec fn bar_ok(text: Seq<char>) -> bool {
    encode_utf8(text).len() >= 80 ==> is_char_boundary(encode_utf8(text), 80)
}

/// The first line shown: the view scrolls so that the cursor's line is among the 22
/// lines below the status bar.
pub open spec fn scroll_top(cy: int) -> int {
    if cy >= 22 { cy - 21 } else { 0 }
}

/// The character under the cursor: the `cx`-th character of the line where the byte
/// column is inside the line and the line has that many characters, else a space.
pub open spec fn cursor_char(line: Seq<u8>, cx: int) -> char {
    if cx < line.len() && cx < decode_utf8(line).len() {
        decode_utf8(line)[cx]
    } else {
        ' '
    }
}

/// The line shown on screen row `row` (1 to 23), if any.
pub open spec fn shown_line(v: EditorView, row: int) -> Option<int> {
    let idx = scroll_top(v.cursor_y) + row - 1;
    if 0 <= idx < v.lines.len() { Some(idx) } else { None }
}

/// The shown part of a line: at most its first 80 bytes.
pub open spec fn shown_bytes(line: Seq<u8>) -> Seq<u8> {
    line.take(if line.len() < 80 { line.len() as int } else { 80 })
}

/// Screen row `row` drawn: the line in light gray on black, and where the cursor is on
/// it (in the first 80 columns) the character under it in black on white.
pub open spec fn draw_text_row(w: ScreenView, v: EditorView, row: int) -> ScreenView {
    match shown_line(v, row) {
        Some(idx) => {
            let line = v.lines[idx];
            let w1 = write_at_spec(with_colors(w, Color::LightGray, Color::Black), row, 0, shown_bytes(line));
            if idx == v.cursor_y && v.cursor_x < 80 {
                write_at_spec(
                    with_colors(w1, Color::Black, Color::White),
                    row,
                    v.cursor_x,
                    encode_utf8(seq![cursor_char(line, v.cursor_x)]),
                )
            } else {
                w1
            }
        },
        None => w,
    }
}

/// Rows `row` to 23 drawn in order.
pub open spec fn draw_text_rows(w: ScreenView, v: EditorView, row: int) -> ScreenView
    decreases 24 - row,
{
    if row >= 24 { w } else { draw_text_rows(draw_text_row(w, v, row), v, row + 1) }
}

/// Rows `row` to 23 cleared in order.
pub open spec fn clear_rows(w: ScreenView, row: int) -> ScreenView
    decreases 24 - row,
{
    if row >= 24 { w } else { clear_rows(clear_row_spec(w, row), row + 1) }
}

/// The editor screen: the status bar on row 0 (black on light gray), the text on rows
/// 1 to 23, the footer on row 24 (black on light cyan), then light green on black.
pub open spec fn editor_screen(w: ScreenView, v: EditorView, name: Seq<char>) -> ScreenView {
    let w1 = write_at_spec(clear_row_spec(with_colors(w, Color::Black, Color::LightGray), 0), 0, 0, bar_bytes(editor_header(name)));
    let w2 = clear_rows(with_colors(w1, Color::White, Color::Black), 1);
    let w3 = draw_text_rows(w2, v, 1);
    let w4 = write_at_spec(
        clear_row_spec(with_colors(w3, Color::Black, Color::LightCyan), 24),
        24,
        0,
        bar_bytes(editor_footer(v.cursor_x, v.cursor_y)),
    );
    with_colors(w4, Color::LightGreen, Color::Black)
}

/// The screen can be drawn: the bars can be cut at 80 bytes, each shown line at its
/// 80th byte, and the cursor's line and column counted from 1 fit.
pub open spec fn render_allowed(v: EditorView, name: Seq<char>) -> bool {
    &&& bar_ok(editor_header(name))
    &&& bar_ok(editor_footer(v.cursor_x, v.cursor_y))
    &&& v.cursor_x < usize::MAX
    &&& v.cursor_y < usize::MAX
    &&& forall|row: int| 1 <= row < 24 && #[trigger] shown_line(v, row) is Some ==>
        is_char_boundary(v.lines[shown_line(v, row)->0], shown_bytes(v.lines[shown_line(v, row)->0]).len() as int)
}

} // verus!

verus! {

/// The bytes of a bar.
fn bar(text: &Vec<char>) -> (r: Vec<u8>)
    requires
        bar_ok(text@),
    ensures
        r@ == bar_bytes(text@),
{
    let b = encode_utf8_chars(text);
    if b.len() < 80 {
        let mut padded = copy_range(text, 0, text.len());
        assert(padded@ =~= text@);
        pad_to(&mut padded, 80);
        encode_utf8_chars(&padded)
    } else {
        copy_range(&b, 0, 80)
    }
}

/// The characters of the footer.
fn footer_chars(cx: usize, cy: usize) -> (r: Vec<char>)
    requires
        cx < usize::MAX,
        cy < usize::MAX,
    ensures
        r@ == editor_footer(cx as int, cy as int),
{
    let mut f: Vec<char> = Vec::new();
    push_str(&mut f, " Ctl+C:Copy | Ctl+V:Paste | Ctl+A:Start | Ln ");
    push_all(&mut f, &u64_decimal((cy + 1) as u64));
    push_str(&mut f, ", Col ");
    push_all(&mut f, &u64_decimal((cx + 1) as u64));
    push_str(&mut f, " ");
    f
}

/// The characters of the status bar.
fn header_chars(name: &String) -> (r: Vec<char>)
    ensures
        r@ == editor_header(name@),
{
    let mut h: Vec<char> = Vec::new();
    push_str(&mut h, " TeruicPad v1.0 | File: ");
    let mut n = chars_of(name.as_str());
    pad_to(&mut n, 20);
    push_all(&mut h, &n);
    push_str(&mut h, " | [`] Save & Exit ");
    h
}

impl TextEditor {
    /// Draws screen row `row`.
    fn draw_row(&self, writer: &mut Writer, row: usize)
        requires
            1 <= row < 24,
            screen_wf(old(writer)@),
            editor_wf(self@),
            render_allowed(self@, self.name()),
        ensures
            screen_wf(final(writer)@),
            final(writer)@ == draw_text_row(old(writer)@, self@, row as int),
    {
        let ghost v = self@;
        let top: usize = if self.cursor_y >= 22 { self.cursor_y - 21 } else { 0 };
        let idx = top + (row - 1);
        if idx < self.lines.len() {
            assert(shown_line(v, row as int) == Some(idx as int));
            let line = &self.lines[idx];
            assert(line@ == v.lines[idx as int]);
            let shown_len = if line.len() < 80 { line.len() } else { 80 };
            let shown = copy_range(line, 0, shown_len);
            writer.set_colors(Color::LightGray, Color::Black);
            writer.write_bytes_at(row, 0, &shown);
            if idx == self.cursor_y && self.cursor_x < 80 {
                let cx = self.cursor_x;
                let c: char = if cx < line.len() {
                    match decode_utf8_chars(line) {
                        Some(cs) => if cx < cs.len() { cs[cx] } else { ' ' },
                        None => ' ',
                    }
                } else {
                    ' '
                };
                let mut one: Vec<char> = Vec::new();
                one.push(c);
                assert(one@ =~= seq![cursor_char(line@, cx as int)]);
                let cb = encode_utf8_chars(&one);
                writer.set_colors(Color::Black, Color::White);
                writer.write_bytes_at(row, cx, &cb);
            }
        } else {
            assert(shown_line(v, row as int) is None);
        }
    }

    /// Whether the screen can be drawn now (see `render_allowed`).
    pub fn render_is_safe(&self) -> (r: bool)
        requires
            editor_wf(self@),
        ensures
            r == render_allowed(self@, self.name()),
    {
        let ghost v = self@;
        if self.cursor_x == usize::MAX || self.cursor_y == usize::MAX {
            return false;
        }
        let h = header_chars(&self.filename);
        let hb = encode_utf8_chars(&h);
        proof {
            vstd::utf8::encode_utf8_valid_utf8(h@);
        }
        if hb.len() >= 80 && !is_boundary(&hb, 80) {
            return false;
        }
        let f = footer_chars(self.cursor_x, self.cursor_y);
        let fb = encode_utf8_chars(&f);
        proof {
            vstd::utf8::encode_utf8_valid_utf8(f@);
        }
        if fb.len() >= 80 && !is_boundary(&fb, 80) {
            return false;
        }
        let top: usize = if self.cursor_y >= 22 { self.cursor_y - 21 } else { 0 };
        let mut row: usize = 1;
        while row < 24
            invariant
                1 <= row <= 24,
                v == self@,
                editor_wf(v),
                top as int == scroll_top(v.cursor_y),
                v.cursor_y < usize::MAX,
                forall|r: int| 1 <= r < row && #[trigger] shown_line(v, r) is Some ==>
                    is_char_boundary(v.lines[shown_line(v, r)->0], shown_bytes(v.lines[shown_line(v, r)->0]).len() as int),
            decreases 24 - row,
        {
            let idx = top + (row - 1);
            if idx < self.lines.len() {
                let line = &self.lines[idx];
                assert(line@ == v.lines[idx as int]);
                assert(shown_line(v, row as int) == Some(idx as int));
                let shown_len = if line.len() < 80 { line.len() } else { 80 };
                if !is_boundary(line, shown_len) {
                    return false;
                }
            }
            row += 1;
        }
        true
    }

    /// Draws the whole editor screen: status bar, visible text with the cursor, footer.
    pub fn render_full_screen(&self, writer: &mut Writer)
        requires
            screen_wf(old(writer)@),
            editor_wf(self@),
            render_allowed(self@, self.name()),
        ensures
            screen_wf(final(writer)@),
            final(writer)@ == editor_screen(old(writer)@, self@, self.name()),
    {
        let ghost v = self@;
        writer.set_colors(Color::Black, Color::LightGray);
        writer.clear_row(0);
        let h = header_chars(&self.filename);
        writer.write_bytes_at(0, 0, &bar(&h));
        writer.set_colors(Color::White, Color::Black);
        let ghost w2 = clear_rows(writer@, 1);
        let mut row: usize = 1;
        while row < 24
            invariant
                1 <= row <= 24,
                screen_wf(writer@),
                clear_rows(writer@, row as int) == w2,
            decreases 24 - row,
        {
            writer.clear_row(row);
            row += 1;
        }
        let ghost w3 = draw_text_rows(writer@, v, 1);
        let mut row: usize = 1;
        while row < 24
            invariant
                1 <= row <= 24,
                v == self@,
                editor_wf(v),
                render_allowed(v, self.name()),
                screen_wf(writer@),
                draw_text_rows(writer@, v, row as int) == w3,
            decreases 24 - row,
        {
            self.draw_row(writer, row);
            row += 1;
        }
        writer.set_colors(Color::Black, Color::LightCyan);
        writer.clear_row(24);
        let f = footer_chars(self.cursor_x, self.cursor_y);
        writer.write_bytes_at(24, 0, &bar(&f));
        writer.set_colors(Color::LightGreen, Color::Black);
    }
}

} // verus!

verus! {

impl TextEditor {
    /// The cursor as (byte column, line number).
    pub fn cursor(&self) -> (r: (usize, usize))
        ensures
            r.0 as int == self@.cursor_x,
            r.1 as int == self@.cursor_y,
    {
        (self.cursor_x, self.cursor_y)
    }

    /// The number of lines.
    pub fn line_count(&self) -> (r: usize)
        ensures
            r == self@.lines.len(),
    {
        self.lines.len()
    }

    /// A copy of line `i`.
    pub fn line(&self, i: usize) -> (r: Vec<u8>)
        requires
            i < self@.lines.len(),
        ensures
            r@ == self@.lines[i as int],
    {
        let r = self.lines[i].clone();
        assert(r@ =~= self.lines@[i as int]@);
        r
    }

    /// A copy of the clipboard.
    pub fn clipboard(&self) -> (r: Vec<u8>)
        ensures
            r@ == self@.clipboard,
    {
        let r = self.clipboard.clone();
        assert(r@ =~= self.clipboard@);
        r
    }
}

} // verus!

verus! {

/// The encoding of joined character sequences is the joined encodings.
pub proof fn lemma_encode_concat(a: Seq<char>, b: Seq<char>)
    ensures
        encode_utf8(a + b) == encode_utf8(a) + encode_utf8(b),
    decreases a.len(),
{
    if a.len() == 0 {
        assert(a + b =~= b);
        assert(encode_utf8(a) + encode_utf8(b) =~= encode_utf8(b));
    } else {
        lemma_encode_concat(a.drop_first(), b);
        assert((a + b).drop_first() =~= a.drop_first() + b);
        assert((a + b)[0] == a[0]);
        assert(encode_utf8(a + b) =~= encode_utf8(a) + encode_utf8(b));
    }
}

/// A newline is encoded as the single byte 10.
pub proof fn lemma_encode_newline()
    ensures
        encode_utf8(seq!['\n']) == seq![10u8],
{
    let s = seq!['\n'];
    assert(s[0] as u32 == 10);
    assert((10u32 & 0x7F) as u8 == 10u8) by (bit_vector);
    assert(s.drop_first() =~= Seq::<char>::empty());
    assert(encode_utf8(s.drop_first()) =~= Seq::<u8>::empty());
    assert(vstd::utf8::leading_byte_width_1(10u32) == 10u8);
    assert(vstd::utf8::encode_scalar(10u32) =~= seq![10u8]);
    assert(encode_utf8(s) == vstd::utf8::encode_scalar(s[0] as u32) + encode_utf8(s.drop_first()));
    assert(encode_utf8(s) =~= seq![10u8]);
}

/// Joining encoded lines with the byte 10 encodes the lines joined with newlines.
pub proof fn lemma_encode_join(ls: Seq<Seq<char>>)
    ensures
        join_with(ls.map_values(|l: Seq<char>| encode_utf8(l)), seq![10u8]) == encode_utf8(join_with(ls, seq!['\n'])),
    decreases ls.len(),
{
    let f = |l: Seq<char>| encode_utf8(l);
    if ls.len() == 1 {
        assert(ls.map_values(f)[0] == encode_utf8(ls[0]));
    } else if ls.len() > 1 {
        let front = ls.drop_last();
        lemma_encode_join(front);
        assert(ls.map_values(f).drop_last() =~= front.map_values(f));
        assert(ls.map_values(f).last() == encode_utf8(ls.last()));
        lemma_encode_newline();
        let j = join_with(front, seq!['\n']);
        lemma_encode_concat(j, seq!['\n']);
        lemma_encode_concat(j + seq!['\n'], ls.last());
    }
}

/// A character in a sequence leaves its encoding's bytes in the encoding of the sequence;
/// so a newline leaves the byte 10.
pub proof fn lemma_newline_encoded(chars: Seq<char>)
    requires
        chars.contains('\n'),
    ensures
        encode_utf8(chars).contains(10u8),
    decreases chars.len(),
{
    if chars[0] == '\n' {
        lemma_encode_newline();
        lemma_encode_concat(seq!['\n'], chars.drop_first());
        assert(seq!['\n'] + chars.drop_first() =~= chars);
        assert(encode_utf8(chars)[0] == 10u8);
    } else {
        let j = choose|j: int| 0 <= j < chars.len() && chars[j] == '\n';
        assert(chars.drop_first()[j - 1] == '\n');
        lemma_newline_encoded(chars.drop_first());
        let rest = chars.drop_first();
        lemma_encode_concat(seq![chars[0]], rest);
        assert(seq![chars[0]] + rest =~= chars);
        let k = choose|k: int| 0 <= k < encode_utf8(rest).len() && encode_utf8(rest)[k] == 10u8;
        let pre = encode_utf8(seq![chars[0]]);
        assert(encode_utf8(chars)[pre.len() + k] == 10u8);
    }
}

/// A text ending with a carriage return has an encoding ending with the byte 13.
pub proof fn lemma_cr_encoded(chars: Seq<char>)
    requires
        chars.len() > 0,
        chars.last() == '\r',
    ensures
        encode_utf8(chars).len() > 0,
        encode_utf8(chars).last() == 13u8,
{
    let front = chars.drop_last();
    lemma_encode_concat(front, seq!['\r']);
    assert(front + seq!['\r'] =~= chars);
    let s = seq!['\r'];
    assert(s[0] as u32 == 13);
    assert((13u32 & 0x7F) as u8 == 13u8) by (bit_vector);
    assert(s.drop_first() =~= Seq::<char>::empty());
    assert(encode_utf8(s.drop_first()) =~= Seq::<u8>::empty());
    assert(vstd::utf8::leading_byte_width_1(13u32) == 13u8);
    assert(vstd::utf8::encode_scalar(13u32) =~= seq![13u8]);
    assert(encode_utf8(s) == vstd::utf8::encode_scalar(s[0] as u32) + encode_utf8(s.drop_first()));
    assert(encode_utf8(s) =~= seq![13u8]);
}

/// Saving the editor's lines and opening the file again gives back the same lines, where
/// no line holds a newline byte, no line but the last ends with a carriage return, and
/// the last line is empty only when it is the only one (saving drops a trailing empty
/// line, and opening drops the carriage return before a newline).
pub proof fn law_save_then_open(before: VFSManager, after: VFSManager, name: Seq<char>, lines: Seq<Seq<u8>>)
    requires
        lines.len() >= 1,
        lines.len() > 1 ==> lines.last().len() > 0,
        forall|i: int| 0 <= i < lines.len() ==> valid_utf8(#[trigger] lines[i]),
        forall|i: int| 0 <= i < lines.len() ==> !(#[trigger] lines[i]).contains(10u8),
        forall|i: int| 0 <= i < lines.len() - 1 ==> (#[trigger] lines[i]).len() == 0 || lines[i].last() != 13u8,
        after@ == before@.insert(name, NodeView::File(saved_text(lines))),
    ensures
        opened_lines(crate::shell::file_bytes(after, name)) == lines,
{
    let f = |l: Seq<char>| encode_utf8(l);
    let ls = lines.map_values(|b: Seq<u8>| decode_utf8(b));
    assert forall|i: int| 0 <= i < lines.len() implies #[trigger] ls.map_values(f)[i] == lines[i] by {
        vstd::utf8::decode_utf8_encode_utf8(lines[i]);
    }
    assert(ls.map_values(f) =~= lines);
    lemma_encode_join(ls);
    let joined = join_with(ls, seq!['\n']);
    assert(saved_text(lines) == encode_utf8(joined));
    assert(crate::shell::file_bytes(after, name) == Some(encode_utf8(joined)));
    vstd::utf8::encode_utf8_valid_utf8(joined);
    vstd::utf8::encode_utf8_decode_utf8(joined);
    assert forall|i: int| 0 <= i < ls.len() implies !(#[trigger] ls[i]).contains('\n') by {
        vstd::utf8::decode_utf8_encode_utf8(lines[i]);
        if ls[i].contains('\n') {
            lemma_newline_encoded(ls[i]);
        }
    }
    assert forall|i: int| 0 <= i < ls.len() - 1 implies strip_last(#[trigger] ls[i], '\r') == ls[i] by {
        vstd::utf8::decode_utf8_encode_utf8(lines[i]);
        if ls[i].len() > 0 && ls[i].last() == '\r' {
            lemma_cr_encoded(ls[i]);
        }
    }
    if ls.last().len() > 0 {
        lemma_lines_of_join(ls, '\n', '\r');
    } else {
        vstd::utf8::decode_utf8_encode_utf8(lines.last());
        assert(lines.len() == 1);
        assert(joined == ls[0]);
        assert(joined.len() == 0);
        assert(lines_of(joined, '\n', '\r') =~= Seq::<Seq<char>>::empty());
        assert(lines =~= seq![Seq::<u8>::empty()]);
    }
}

/// Opening a text file and saving it at once leaves the file as it was, where its text
/// holds no carriage return and does not end with a newline (opening drops a final
/// newline and the carriage return before each newline).
pub proof fn law_open_then_save(fs: VFSManager, name: Seq<char>, bytes: Seq<u8>)
    requires
        crate::shell::file_bytes(fs, name) == Some(bytes),
        valid_utf8(bytes),
        !decode_utf8(bytes).contains('\r'),
        decode_utf8(bytes).len() > 0 ==> decode_utf8(bytes).last() != '\n',
    ensures
        saved_text(opened_lines(crate::shell::file_bytes(fs, name))) == bytes,
{
    let s = decode_utf8(bytes);
    vstd::utf8::decode_utf8_encode_utf8(bytes);
    let (done, cur) = crate::text::split_state(s, '\n');
    crate::text::lemma_split_state_avoids(s, '\n', '\r');
    crate::text::lemma_join_split_state(s, '\n');
    let ended = done.map_values(|l: Seq<char>| strip_last(l, '\r'));
    assert(ended =~= done) by {
        assert forall|i: int| 0 <= i < done.len() implies ended[i] == done[i] by {
            if done[i].len() > 0 {
                assert(done[i][done[i].len() - 1] == done[i].last());
            }
        }
    }
    if s.len() > 0 {
        let p = s.drop_last();
        assert(s.last() != '\n');
        assert(cur == crate::text::split_state(p, '\n').1.push(s.last()));
    }
    let ls = lines_of(s, '\n', '\r');
    if cur.len() > 0 {
        assert(ls == done.push(cur));
        lemma_encode_join(ls);
    } else {
        assert(s.len() == 0);
        assert(ls =~= Seq::<Seq<char>>::empty());
        assert(encode_utf8(s) =~= Seq::<u8>::empty());
    }
}

/// Every byte is ASCII.
pub open spec fn is_ascii_text(b: Seq<u8>) -> bool {
    forall|i: int| 0 <= i < b.len() ==> #[trigger] b[i] < 0x80
}

/// Every line and the clipboard are ASCII.
pub open spec fn all_ascii(v: EditorView) -> bool {
    &&& forall|i: int| 0 <= i < v.lines.len() ==> is_ascii_text(#[trigger] v.lines[i])
    &&& is_ascii_text(v.clipboard)
}

/// In ASCII text every position up to its end is a character boundary.
pub proof fn lemma_ascii_boundary(line: Seq<u8>, at: int)
    requires
        is_ascii_text(line),
        valid_utf8(line),
        0 <= at <= line.len(),
    ensures
        is_char_boundary(line, at),
{
    vstd::utf8::is_char_boundary_start_end_of_seq(line);
    if at < line.len() {
        vstd::utf8::is_char_boundary_iff_not_is_continuation_byte(line, at);
    }
}

/// On ASCII text the editor takes every key (within the machine's sizes) and the text
/// and clipboard stay ASCII.
pub proof fn law_ascii_text_takes_every_key(v: EditorView, c: char)
    requires
        editor_wf(v),
        v.active,
        all_ascii(v),
        forall|i: int| 0 <= i < v.lines.len() ==> (#[trigger] v.lines[i]).len() + v.clipboard.len() < usize::MAX,
    ensures
        key_allowed(clamped(v), c),
        all_ascii(edit_step(clamped(v), c)),
{
    let u = clamped(v);
    let cy = u.cursor_y;
    let cx = u.cursor_x;
    let line = u.lines[cy];
    assert(cursor_on_text(u));
    assert(is_ascii_text(line) && valid_utf8(line));
    assert(line.len() + v.clipboard.len() < usize::MAX);
    lemma_ascii_boundary(line, cx);
    if cx > 0 {
        lemma_ascii_boundary(line, cx - 1);
    }
    let w = edit_step(u, c);
    if c == '\x16' && u.clipboard.len() > 0 {
        let nl = line.take(cx) + u.clipboard + line.skip(cx);
        assert(is_ascii_text(nl)) by {
            assert forall|j: int| 0 <= j < nl.len() implies #[trigger] nl[j] < 0x80 by {
                if j < cx {
                    assert(nl[j] == line[j]);
                } else if j < cx + u.clipboard.len() {
                    assert(nl[j] == u.clipboard[j - cx]);
                } else {
                    assert(nl[j] == line[j - u.clipboard.len()]);
                }
            }
        }
        assert(w.lines == u.lines.update(cy, nl));
    } else if is_left_key(c) || is_right_key(c) || is_up_key(c) || is_down_key(c) || is_save_key(c) || c == '\x01' {
        assert(w.lines == u.lines && w.clipboard == u.clipboard);
    } else if c == '\x03' {
        assert(w.clipboard == line);
    } else if is_enter_key(c) {
        let a = line.take(cx);
        let b = line.skip(cx);
        assert(is_ascii_text(a)) by {
            assert forall|j: int| 0 <= j < a.len() implies #[trigger] a[j] < 0x80 by {
                assert(a[j] == line[j]);
            }
        }
        assert(is_ascii_text(b)) by {
            assert forall|j: int| 0 <= j < b.len() implies #[trigger] b[j] < 0x80 by {
                assert(b[j] == line[j + cx]);
            }
        }
        let up = u.lines.update(cy, a);
        assert forall|i: int| 0 <= i < w.lines.len() implies is_ascii_text(#[trigger] w.lines[i]) by {
            assert(w.lines == up.insert(cy + 1, b));
            if i <= cy {
                assert(w.lines[i] == up[i]);
            } else if i == cy + 1 {
                assert(w.lines[i] == b);
            } else {
                assert(w.lines[i] == up[i - 1]);
            }
        }
    } else if is_backspace_key(c) && cx > 0 {
        lemma_remove_char_valid(line, cx - 1);
        let k = char_len_at(line, cx - 1);
        let nl = line.take(cx - 1) + line.skip(cx - 1 + k);
        assert(is_ascii_text(nl)) by {
            assert forall|j: int| 0 <= j < nl.len() implies #[trigger] nl[j] < 0x80 by {
                if j < cx - 1 {
                    assert(nl[j] == line[j]);
                } else {
                    assert(nl[j] == line[j + k]);
                }
            }
        }
        assert(w.lines == u.lines.update(cy, nl));
    } else if is_backspace_key(c) && cy > 0 {
        let prev = u.lines[cy - 1];
        let nl = prev + line;
        assert(is_ascii_text(prev));
        assert(is_ascii_text(nl)) by {
            assert forall|j: int| 0 <= j < nl.len() implies #[trigger] nl[j] < 0x80 by {
                if j < prev.len() {
                    assert(nl[j] == prev[j]);
                } else {
                    assert(nl[j] == line[j - prev.len()]);
                }
            }
        }
        let up = u.lines.update(cy - 1, nl);
        assert forall|i: int| 0 <= i < w.lines.len() implies is_ascii_text(#[trigger] w.lines[i]) by {
            assert(w.lines == up.remove(cy));
            if i < cy {
                assert(w.lines[i] == up[i]);
            } else {
                assert(w.lines[i] == up[i + 1]);
            }
        }
    } else if is_text_key(c) {
        let b = (c as u32) as u8;
        assert(b < 0x80);
        let nl = line.take(cx).push(b) + line.skip(cx);
        assert(is_ascii_text(nl)) by {
            assert forall|j: int| 0 <= j < nl.len() implies #[trigger] nl[j] < 0x80 by {
                if j < cx {
                    assert(nl[j] == line[j]);
                } else if j > cx {
                    assert(nl[j] == line[j - 1]);
                }
            }
        }
        assert(w.lines == u.lines.update(cy, nl));
    }
}

/// The footer shows the cursor's line number (counted from 1) after "Ln " and its
/// column (counted from 1) after ", Col ": the two numbers are runs of decimal digits
/// that read back as `cy + 1` and `cx + 1`.
pub proof fn law_footer_shows_line_and_column(cx: int, cy: int)
    requires
        0 <= cx,
        0 <= cy,
    ensures
        exists|ln: Seq<char>, col: Seq<char>|
            {
                &&& editor_footer(cx, cy) == " Ctl+C:Copy | Ctl+V:Paste | Ctl+A:Start | Ln "@ + ln + ", Col "@ + col + " "@
                &&& ln.len() > 0 && crate::text::all_digits(ln) && crate::text::digits_value(ln) == cy + 1
                &&& col.len() > 0 && crate::text::all_digits(col) && crate::text::digits_value(col) == cx + 1
            },
{
    let ln = nat_decimal((cy + 1) as nat);
    let col = nat_decimal((cx + 1) as nat);
    crate::text::lemma_nat_decimal_digits((cy + 1) as nat);
    crate::text::lemma_nat_decimal_digits((cx + 1) as nat);
    assert(editor_footer(cx, cy) == " Ctl+C:Copy | Ctl+V:Paste | Ctl+A:Start | Ln "@ + ln + ", Col "@ + col + " "@);
}

/// Moving the cursor to another line leaves the column shown in the footer as it is:
/// the footers of two cursors on the same column differ only in the line number.
pub proof fn law_footer_line_change_keeps_column(cx: int, cy1: int, cy2: int)
    requires
        0 <= cx,
        0 <= cy1,
        0 <= cy2,
    ensures
        exists|ln1: Seq<char>, ln2: Seq<char>, rest: Seq<char>|
            {
                &&& editor_footer(cx, cy1) == " Ctl+C:Copy | Ctl+V:Paste | Ctl+A:Start | Ln "@ + ln1 + rest
                &&& editor_footer(cx, cy2) == " Ctl+C:Copy | Ctl+V:Paste | Ctl+A:Start | Ln "@ + ln2 + rest
                &&& crate::text::all_digits(ln1) && crate::text::digits_value(ln1) == cy1 + 1
                &&& crate::text::all_digits(ln2) && crate::text::digits_value(ln2) == cy2 + 1
                &&& rest.len() > 0 && !crate::text::is_digit(rest[0])
            },
{
    let ln1 = nat_decimal((cy1 + 1) as nat);
    let ln2 = nat_decimal((cy2 + 1) as nat);
    let rest = ", Col "@ + nat_decimal((cx + 1) as nat) + " "@;
    crate::text::lemma_nat_decimal_digits((cy1 + 1) as nat);
    crate::text::lemma_nat_decimal_digits((cy2 + 1) as nat);
    reveal_strlit(", Col ");
    assert(rest[0] == ',');
    assert(',' as u32 == 44);
    let p = " Ctl+C:Copy | Ctl+V:Paste | Ctl+A:Start | Ln "@;
    assert(editor_footer(cx, cy1) =~= p + ln1 + rest);
    assert(editor_footer(cx, cy2) =~= p + ln2 + rest);
}

/// The bottom row of the editor's screen shows the footer of the cursor's own line and
/// column, from the first column on.
pub proof fn law_screen_bottom_row_is_footer(w: ScreenView, v: EditorView, name: Seq<char>, col: int)
    requires
        0 <= col < 80,
        col < bar_bytes(editor_footer(v.cursor_x, v.cursor_y)).len(),
    ensures
        editor_screen(w, v, name).cells[24 * 80 + col].ascii_character
            == crate::vga::shown_byte(bar_bytes(editor_footer(v.cursor_x, v.cursor_y))[col]),
{
}

} // verus!
