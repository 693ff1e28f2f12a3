use teruic::c_runner::{CFileRun, CRunner};
use teruic::vfs::VFSManager;

#[test]
fn sample_c_program_output() {
    let mut fs = VFSManager::new();
    fs.init();
    match CRunner::execute_file(&fs, "main.c") {
        CFileRun::Ran(banner, run) => {
            let frame = "+---------------------------------------------------+";
            assert_eq!(
                banner,
                vec![
                    format!("\n{}", frame),
                    format!("| APP: {:<45} |", "C Runtime Engine - [main.c]"),
                    frame.to_string(),
                    format!("| {:<49} |", "C Runtime Environment v1.0 initialized."),
                    format!("| {:<49} |", "Executing main()..."),
                    format!("{}\n", frame),
                    "[C Runtime] Compiling & Executing 'main.c'...".to_string(),
                ]
            );
            assert_eq!(
                run.output,
                vec![
                    "Hello from C code running on Teruic OS!",
                    "Result code: 42",
                    "[C Runtime] Program execution finished successfully.\n"
                ]
            );
            assert!(!run.faulted);
        }
        _ => panic!("expected a run"),
    }
}

#[test]
fn c_missing_and_binary_files() {
    let mut fs = VFSManager::new();
    match CRunner::execute_file(&fs, "x.c") {
        CFileRun::NotFound(m) => assert_eq!(m, "[C Runtime Error] C File 'x.c' not found in VFS."),
        _ => panic!("expected not found"),
    }
    fs.write_file("b.c", vec![0x80]);
    match CRunner::execute_file(&fs, "b.c") {
        CFileRun::NotText(m) => assert_eq!(m, "[C Runtime Error] File is not valid ASCII/UTF-8 C source."),
        _ => panic!("expected not text"),
    }
}

#[test]
fn for_loop_runs_its_body_inclusively() {
    let run = CRunner::interpret("for (int i = 1; i <= 3; i++)\n    printf(\"%d\\n\", i);\n");
    assert_eq!(
        run.output,
        vec!["1", "2", "3", "[C Runtime] Program execution finished successfully.\n"]
    );
}

#[test]
fn for_loop_defaults() {
    let run = CRunner::interpret("for(int i=0; i<3; i++)\nprintf(\"x\");\n");
    assert_eq!(run.output.len(), 4);
    let run = CRunner::interpret("for (int i = 0; i < n; i++)\nprintf(\"x\");\n");
    assert_eq!(run.output.len(), 12);
    let run = CRunner::interpret("for (a; b) x\nprintf(\"y\");\n");
    assert_eq!(run.output, vec!["y", "[C Runtime] Program execution finished successfully.\n"]);
}

#[test]
fn unknown_variable_prints_zero() {
    let run = CRunner::interpret("int a = 5;\nint a = 6;\nprintf(\"%d and %d\", a);\nprintf(\"%d\", nope);\n");
    assert_eq!(
        run.output,
        vec!["6 and 6", "0", "[C Runtime] Program execution finished successfully.\n"]
    );
}

#[test]
fn reversed_for_header_faults() {
    let run = CRunner::interpret("printf(\"before\");\nfor ) x (\nprintf(\"after\");\n");
    assert!(run.faulted);
    assert_eq!(run.output, vec!["before"]);
}

#[test]
fn variables_read_back_their_last_value() {
    let run = CRunner::interpret("int a = 1;\nint b = 2;\nint a = 3;\nprintf(\"%d\", a);\nprintf(\"%d\", b);\n");
    assert_eq!(
        run.output,
        vec!["3", "2", "[C Runtime] Program execution finished successfully.\n"]
    );
}

#[test]
fn for_loop_follows_c_bounds_with_or_without_spaces() {
    let run = CRunner::interpret("for(int i=0; i<5; i++)\nprintf(\"%d\", i);");
    assert_eq!(
        run.output,
        vec!["0", "1", "2", "3", "4", "[C Runtime] Program execution finished successfully.\n"]
    );
    let run = CRunner::interpret("for (int k = 2; k < 5; k++)\nprintf(\"%d\", k);");
    assert_eq!(run.output, vec!["2", "3", "4", "[C Runtime] Program execution finished successfully.\n"]);
    let run = CRunner::interpret("for(int j=3;j<=4;j++)\nprintf(\"%d\", j);");
    assert_eq!(run.output, vec!["3", "4", "[C Runtime] Program execution finished successfully.\n"]);
    let run = CRunner::interpret("for (i = 7; i < 7; i++)\nprintf(\"%d\", i);\nprintf(\"done\");");
    assert_eq!(run.output, vec!["done", "[C Runtime] Program execution finished successfully.\n"]);
}
