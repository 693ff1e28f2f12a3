use teruic::editor::{EditorOutcome, TextEditor};
use teruic::vfs::VFSManager;
use teruic::vga::Writer;

fn lines(ed: &TextEditor) -> Vec<Vec<u8>> {
    (0..ed.line_count()).map(|i| ed.line(i)).collect()
}

fn key(ed: &mut TextEditor, fs: &mut VFSManager, c: char) -> EditorOutcome {
    assert!(ed.key_is_safe(c));
    ed.handle_key(fs, c)
}

#[test]
fn open_splits_the_file_into_lines() {
    let mut fs = VFSManager::new();
    fs.write_file("t.txt", b"one\r\ntwo\n\nthree\n".to_vec());
    let mut ed = TextEditor::new();
    ed.open(&fs, "t.txt");
    assert!(ed.active);
    assert_eq!(ed.filename, "t.txt");
    assert_eq!(lines(&ed), vec![b"one".to_vec(), b"two".to_vec(), b"".to_vec(), b"three".to_vec()]);
    assert_eq!(ed.cursor(), (0, 0));
}

#[test]
fn open_missing_or_binary_file_gives_one_empty_line() {
    let mut fs = VFSManager::new();
    let mut ed = TextEditor::new();
    ed.open(&fs, "new.txt");
    assert_eq!(lines(&ed), vec![Vec::<u8>::new()]);
    fs.write_file("b.bin", vec![0xff, 0xfe]);
    ed.open(&fs, "b.bin");
    assert_eq!(lines(&ed), vec![Vec::<u8>::new()]);
}

#[test]
fn typing_enter_and_backspace() {
    let mut fs = VFSManager::new();
    let mut ed = TextEditor::new();
    ed.open(&fs, "n.txt");
    for c in "hello".chars() {
        assert!(matches!(key(&mut ed, &mut fs, c), EditorOutcome::Redraw));
    }
    key(&mut ed, &mut fs, '\u{E000}');
    key(&mut ed, &mut fs, '\u{E000}');
    key(&mut ed, &mut fs, '\n');
    assert_eq!(lines(&ed), vec![b"hel".to_vec(), b"lo".to_vec()]);
    assert_eq!(ed.cursor(), (0, 1));
    key(&mut ed, &mut fs, '\x08');
    assert_eq!(lines(&ed), vec![b"hello".to_vec()]);
    assert_eq!(ed.cursor(), (3, 0));
    key(&mut ed, &mut fs, '\x7f');
    assert_eq!(lines(&ed), vec![b"helo".to_vec()]);
    assert_eq!(ed.cursor(), (2, 0));
}

#[test]
fn arrows_move_between_lines() {
    let mut fs = VFSManager::new();
    fs.write_file("m.txt", b"abcd\nxy".to_vec());
    let mut ed = TextEditor::new();
    ed.open(&fs, "m.txt");
    for _ in 0..4 {
        key(&mut ed, &mut fs, '\u{E001}');
    }
    assert_eq!(ed.cursor(), (4, 0));
    key(&mut ed, &mut fs, '\u{E003}');
    assert_eq!(ed.cursor(), (2, 1));
    key(&mut ed, &mut fs, '\u{E001}');
    assert_eq!(ed.cursor(), (2, 1));
    key(&mut ed, &mut fs, '\u{E002}');
    assert_eq!(ed.cursor(), (2, 0));
    key(&mut ed, &mut fs, '\x01');
    assert_eq!(ed.cursor(), (0, 0));
    key(&mut ed, &mut fs, '\u{E000}');
    assert_eq!(ed.cursor(), (0, 0));
    key(&mut ed, &mut fs, '\x12');
    key(&mut ed, &mut fs, '\x15');
    key(&mut ed, &mut fs, '\x11');
    key(&mut ed, &mut fs, '\x14');
    assert_eq!(ed.cursor(), (0, 0));
}

#[test]
fn copy_and_paste_a_line() {
    let mut fs = VFSManager::new();
    fs.write_file("c.txt", b"ab\ncd".to_vec());
    let mut ed = TextEditor::new();
    ed.open(&fs, "c.txt");
    key(&mut ed, &mut fs, '\x03');
    assert_eq!(ed.clipboard(), b"ab".to_vec());
    key(&mut ed, &mut fs, '\x15');
    key(&mut ed, &mut fs, '\x12');
    key(&mut ed, &mut fs, '\x16');
    assert_eq!(lines(&ed), vec![b"ab".to_vec(), b"cabd".to_vec()]);
    assert_eq!(ed.cursor(), (3, 1));
}

#[test]
fn save_and_close_writes_the_lines() {
    let mut fs = VFSManager::new();
    let mut ed = TextEditor::new();
    ed.open(&fs, "s.txt");
    for c in "ab".chars() {
        key(&mut ed, &mut fs, c);
    }
    key(&mut ed, &mut fs, '\r');
    key(&mut ed, &mut fs, 'c');
    match key(&mut ed, &mut fs, '`') {
        EditorOutcome::SavedAndClosed(m) => assert_eq!(m, "\n[Saved file 's.txt' to VFS]\nteruic> "),
        _ => panic!("expected save and close"),
    }
    assert!(!ed.active);
    assert_eq!(fs.read_file("s.txt"), Some(b"ab\nc".to_vec()));
    assert!(matches!(ed.handle_key(&mut fs, 'z'), EditorOutcome::Inactive));
}

#[test]
fn save_then_open_shows_the_same_lines() {
    let mut fs = VFSManager::new();
    fs.write_file("r.txt", b"first\nsecond\nthird".to_vec());
    let mut ed = TextEditor::new();
    ed.open(&fs, "r.txt");
    ed.save(&mut fs);
    let before = lines(&ed);
    let mut again = TextEditor::new();
    again.open(&fs, "r.txt");
    assert_eq!(lines(&again), before);
}

#[test]
fn delete_file_removes_it() {
    let mut fs = VFSManager::new();
    fs.init();
    let mut ed = TextEditor::new();
    ed.open(&fs, "main.c");
    let m = ed.delete_file(&mut fs);
    assert_eq!(m, "\n[Permanently deleted file 'main.c']\nteruic> ");
    assert!(!ed.active);
    assert_eq!(fs.read_file("main.c"), None);
    assert_eq!(lines(&ed), vec![Vec::<u8>::new()]);
}

#[test]
fn multibyte_text_is_edited_by_whole_characters() {
    let mut fs = VFSManager::new();
    fs.write_file("u.txt", "aé".as_bytes().to_vec());
    let mut ed = TextEditor::new();
    ed.open(&fs, "u.txt");
    key(&mut ed, &mut fs, '\x12');
    key(&mut ed, &mut fs, '\x12');
    assert_eq!(ed.cursor(), (2, 0));
    assert!(!ed.key_is_safe('x'));
    assert!(!ed.key_is_safe('\n'));
    key(&mut ed, &mut fs, '\x12');
    assert_eq!(ed.cursor(), (3, 0));
    // the byte before the cursor is inside 'é': backspace has no defined result there
    assert!(!ed.key_is_safe('\x08'));
    key(&mut ed, &mut fs, '\x11');
    assert_eq!(ed.cursor(), (2, 0));
    key(&mut ed, &mut fs, '\x08');
    assert_eq!(lines(&ed), vec![b"a".to_vec()]);
    assert_eq!(ed.cursor(), (1, 0));
}

#[test]
fn render_draws_bars_text_and_cursor() {
    let mut fs = VFSManager::new();
    fs.write_file("v.txt", b"hi".to_vec());
    let mut ed = TextEditor::new();
    ed.open(&fs, "v.txt");
    let mut w = Writer::new();
    assert!(ed.render_is_safe());
    ed.render_full_screen(&mut w);
    let row = |w: &Writer, r: usize| -> String {
        (0..80).map(|c| w.cell(r, c).ascii_character as char).collect()
    };
    assert!(row(&w, 0).starts_with(" TeruicPad v1.0 | File: v.txt                | [`] Save & Exit "));
    assert_eq!(&row(&w, 1)[..3], "hi ");
    assert_eq!(w.cell(1, 0).color_code.0, 0xf0);
    assert_eq!(w.cell(1, 1).color_code.0, 0x07);
    assert!(row(&w, 24).starts_with(" Ctl+C:Copy | Ctl+V:Paste | Ctl+A:Start | Ln 1, Col 1 "));
    assert_eq!(w.cell(24, 79).color_code.0, 0xb0);
}

#[test]
fn save_then_open_gives_the_same_lines() {
    let mut fs = VFSManager::new();
    fs.write_file("r.txt", "première\r\nligne\ndernière\r".as_bytes().to_vec());
    let mut ed = TextEditor::new();
    ed.open(&fs, "r.txt");
    let before = lines(&ed);
    assert_eq!(before, vec!["première".as_bytes().to_vec(), b"ligne".to_vec(), "dernière\r".as_bytes().to_vec()]);
    ed.save(&mut fs);
    assert_eq!(fs.read_file("r.txt"), Some("première\nligne\ndernière\r".as_bytes().to_vec()));
    let mut again = TextEditor::new();
    again.open(&fs, "r.txt");
    assert_eq!(lines(&again), before);
}

#[test]
fn trailing_empty_line_is_not_kept_by_save() {
    let mut fs = VFSManager::new();
    let mut ed = TextEditor::new();
    ed.open(&fs, "e.txt");
    key(&mut ed, &mut fs, 'a');
    key(&mut ed, &mut fs, '\n');
    assert_eq!(lines(&ed), vec![b"a".to_vec(), b"".to_vec()]);
    ed.save(&mut fs);
    let mut again = TextEditor::new();
    again.open(&fs, "e.txt");
    assert_eq!(lines(&again), vec![b"a".to_vec()]);
}

#[test]
fn close_reports_the_saved_file() {
    let fs = VFSManager::new();
    let mut ed = TextEditor::new();
    ed.open(&fs, "notes.txt");
    assert_eq!(ed.close(), "\n[Saved file 'notes.txt' to VFS]\nteruic> ");
    assert!(!ed.active);
}

#[test]
fn open_then_save_keeps_the_file() {
    let mut fs = VFSManager::new();
    let text = "alpha\n\nbeta gamma\nlast".as_bytes().to_vec();
    fs.write_file("k.txt", text.clone());
    let mut ed = TextEditor::new();
    ed.open(&fs, "k.txt");
    ed.save(&mut fs);
    assert_eq!(fs.read_file("k.txt"), Some(text));
}

#[test]
fn ascii_text_takes_every_key_and_stays_ascii() {
    let mut fs = VFSManager::new();
    fs.write_file("a.txt", b"ab\ncd".to_vec());
    let mut ed = TextEditor::new();
    ed.open(&fs, "a.txt");
    for c in ['\x12', '\x03', '\x16', '\u{E003}', '\x7f', '\n', 'z', '\x08', '\u{E000}', '\x01', '\x16', '\x15'] {
        assert!(ed.key_is_safe(c));
        ed.handle_key(&mut fs, c);
        for l in lines(&ed) {
            assert!(l.iter().all(|b| *b < 0x80));
        }
    }
    assert_eq!(lines(&ed), vec![b"abaabb".to_vec(), b"c".to_vec(), b"".to_vec()]);
}
