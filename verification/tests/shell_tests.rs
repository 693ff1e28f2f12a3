use teruic::shell::{KeyOutcome, Shell, ShellAction};
use teruic::vfs::VFSManager;

fn run(fs: &mut VFSManager, line: &str) -> (Vec<String>, ShellAction) {
    let shell = Shell::new();
    let o = shell.run_line(fs, line);
    (o.output, o.action)
}

#[test]
fn write_then_cat_prints_the_text() {
    let mut fs = VFSManager::new();
    let (out, _) = run(&mut fs, "write /hello.txt Hello_Teruic_OS");
    assert_eq!(out, vec!["Saved to VFS file: '/hello.txt'"]);
    let (out, _) = run(&mut fs, "cat /hello.txt");
    assert_eq!(out, vec!["Hello_Teruic_OS"]);
}

#[test]
fn write_joins_words_with_single_spaces() {
    let mut fs = VFSManager::new();
    run(&mut fs, "  write  note   one   two  ");
    assert_eq!(fs.read_file("note"), Some(b"one two".to_vec()));
}

#[test]
fn write_and_cat_usage() {
    let mut fs = VFSManager::new();
    assert_eq!(run(&mut fs, "write f").0, vec!["Usage: write <filename> <content>"]);
    assert_eq!(run(&mut fs, "cat").0, vec!["Usage: cat <filename>"]);
    assert_eq!(run(&mut fs, "cat nope").0, vec!["File not found: 'nope'"]);
}

#[test]
fn cat_of_binary_reports_size() {
    let mut fs = VFSManager::new();
    fs.write_file("b.bin", vec![0x90, 0xff, 0xc3]);
    assert_eq!(run(&mut fs, "cat b.bin").0, vec!["[Binary Data - 3 bytes]"]);
}

#[test]
fn hexwrite_stores_bytes() {
    let mut fs = VFSManager::new();
    let (out, _) = run(&mut fs, "hexwrite test.bin 90 90 c3");
    assert_eq!(out, vec!["Successfully wrote 3 bytes to 'test.bin'"]);
    assert_eq!(fs.read_file("test.bin"), Some(vec![0x90, 0x90, 0xc3]));
    run(&mut fs, "hexwrite x.bin +0A FF 000001");
    assert_eq!(fs.read_file("x.bin"), Some(vec![0x0a, 0xff, 0x01]));
}

#[test]
fn hexwrite_rejects_bad_bytes_without_writing() {
    let mut fs = VFSManager::new();
    let (out, _) = run(&mut fs, "hexwrite t.bin 90 zz 100");
    assert_eq!(out, vec!["Invalid hex byte: 'zz'"]);
    assert_eq!(fs.read_file("t.bin"), None);
    assert_eq!(run(&mut fs, "hexwrite t.bin 100").0, vec!["Invalid hex byte: '100'"]);
    assert_eq!(
        run(&mut fs, "hexwrite t.bin").0,
        vec!["Usage: hexwrite <filename> <hex_bytes...>", "Example: hexwrite test.bin 90 90 c3"]
    );
}

#[test]
fn ls_lists_in_order() {
    let mut fs = VFSManager::new();
    fs.init();
    let (out, _) = run(&mut fs, "ls");
    assert_eq!(
        out,
        vec![
            "VFS Directory Listing:",
            "  Main.java",
            "  apps",
            "  bin",
            "  demo.sh",
            "  hello.txt",
            "  main.c"
        ]
    );
}

#[test]
fn help_and_info_text() {
    let mut fs = VFSManager::new();
    let (out, _) = run(&mut fs, "help");
    assert_eq!(out.len(), 11);
    assert_eq!(out[0], "Teruic OS Shell Commands:");
    assert_eq!(out[10], "  runbin <file>  - Execute native x86_64 assembly/C machine code binary");
    let (out, _) = run(&mut fs, "info");
    assert_eq!(out, vec!["Teruic Kernel v0.1.0 (x86_64 Bare-Metal)", "C Runtime & Shell: ACTIVE"]);
}

#[test]
fn comments_and_blank_lines_do_nothing() {
    let mut fs = VFSManager::new();
    let (out, action) = run(&mut fs, "   # write x y");
    assert!(out.is_empty());
    assert!(matches!(action, ShellAction::Nothing));
    let (out, _) = run(&mut fs, " \t ");
    assert!(out.is_empty());
    assert_eq!(fs.read_file("x"), None);
}

#[test]
fn commands_that_ask_for_actions() {
    let mut fs = VFSManager::new();
    assert!(matches!(run(&mut fs, "shutdown").1, ShellAction::Shutdown));
    assert!(matches!(run(&mut fs, "clear").1, ShellAction::ClearScreen));
    assert!(matches!(run(&mut fs, "uptime").1, ShellAction::ShowUptime));
    match run(&mut fs, "edit notes.txt").1 {
        ShellAction::Edit(f) => assert_eq!(f, "notes.txt"),
        _ => panic!("expected edit"),
    }
    match run(&mut fs, "c_run main.c").1 {
        ShellAction::RunC(f) => assert_eq!(f, "main.c"),
        _ => panic!("expected c_run"),
    }
    match run(&mut fs, "runbin test.bin").1 {
        ShellAction::RunBinary(f) => assert_eq!(f, "test.bin"),
        _ => panic!("expected runbin"),
    }
    assert_eq!(run(&mut fs, "edit").0, vec!["Usage: edit <filename>"]);
    assert_eq!(run(&mut fs, "c_run").0, vec!["Usage: c_run <filename>"]);
    assert_eq!(run(&mut fs, "runbin").0, vec!["Usage: runbin <binary_filename>"]);
}

#[test]
fn unknown_command_message() {
    let mut fs = VFSManager::new();
    assert_eq!(
        run(&mut fs, "frobnicate now").0,
        vec!["Unknown command: 'frobnicate'. Type 'help' for commands."]
    );
}

#[test]
fn exec_gives_the_script_lines() {
    let mut fs = VFSManager::new();
    fs.init();
    match run(&mut fs, "exec demo.sh").1 {
        ShellAction::RunScript(lines) => {
            assert_eq!(lines, vec!["# Teruic OS Automation Script", "info", "uptime"])
        }
        _ => panic!("expected a script"),
    }
    assert_eq!(run(&mut fs, "exec none.sh").0, vec!["File not found: 'none.sh'"]);
    assert_eq!(run(&mut fs, "exec").0, vec!["Usage: exec <script.sh>"]);
    fs.write_file("bad.sh", vec![0xff]);
    assert_eq!(run(&mut fs, "exec bad.sh").0, vec!["Not a text script: 'bad.sh'"]);
}

#[test]
fn keys_build_and_submit_a_line() {
    let mut fs = VFSManager::new();
    let mut shell = Shell::new();
    assert!(matches!(shell.handle_key(&mut fs, 'l'), KeyOutcome::Echoed('l')));
    assert!(matches!(shell.handle_key(&mut fs, 'x'), KeyOutcome::Echoed('x')));
    assert!(matches!(shell.handle_key(&mut fs, '\x08'), KeyOutcome::Erased));
    assert!(matches!(shell.handle_key(&mut fs, 's'), KeyOutcome::Echoed('s')));
    assert!(matches!(shell.handle_key(&mut fs, '\u{1}'), KeyOutcome::Ignored));
    assert_eq!(shell.current_line(), "ls");
    match shell.handle_key(&mut fs, '\n') {
        KeyOutcome::Submitted(Some(o)) => assert_eq!(o.output, vec!["VFS Directory Listing:"]),
        _ => panic!("expected a submitted line"),
    }
    assert_eq!(shell.current_line(), "");
    assert_eq!(shell.history_len(), 1);
    assert!(matches!(shell.handle_key(&mut fs, '\x7f'), KeyOutcome::Ignored));
    assert!(matches!(shell.handle_key(&mut fs, ' '), KeyOutcome::Echoed(' ')));
    assert!(matches!(shell.handle_key(&mut fs, '\r'), KeyOutcome::Submitted(None)));
    assert_eq!(shell.history_len(), 1);
}

#[test]
fn uptime_message_formats_seconds() {
    assert_eq!(teruic::shell::uptime_message(0), "System Uptime: 0 seconds");
    assert_eq!(teruic::shell::uptime_message(3725), "System Uptime: 3725 seconds");
}

#[test]
fn typing_then_backspace_restores_the_line() {
    let mut fs = VFSManager::new();
    let mut sh = Shell::new();
    for c in "ls".chars() {
        sh.handle_key(&mut fs, c);
    }
    assert!(matches!(sh.handle_key(&mut fs, 'x'), KeyOutcome::Echoed('x')));
    assert!(matches!(sh.handle_key(&mut fs, '\x7f'), KeyOutcome::Erased));
    assert_eq!(sh.current_line(), "ls");
    assert_eq!(sh.history_len(), 0);
}
