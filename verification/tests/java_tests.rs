use teruic::java::{JavaFileRun, JavaFrame, JvmStatus, JVM};
use teruic::vfs::VFSManager;

#[test]
fn sample_program_prints_greeting_and_sum() {
    let mut fs = VFSManager::new();
    fs.init();
    match JVM::execute_file(&fs, "Main.java") {
        JavaFileRun::Ran(banner, run) => {
            assert_eq!(banner.len(), 6);
            assert_eq!(banner[1], format!("| APP: {:<45} |", "Java Virtual Machine - [Main.java]"));
            assert_eq!(banner[3], format!("| {:<49} |", "JVM Runtime Environment v1.0 initialized."));
            assert_eq!(banner[4], format!("| {:<49} |", "Executing Java main()..."));
            assert_eq!(
                run.output,
                vec![
                    "[Java stdout] Hello from Java running on Teruic OS!",
                    "[Java stdout] 42",
                    "[JVM] Execution finished successfully.\n"
                ]
            );
            assert!(run.status == JvmStatus::Returned);
        }
        _ => panic!("expected a run"),
    }
}

#[test]
fn missing_and_binary_files() {
    let mut fs = VFSManager::new();
    match JVM::execute_file(&fs, "X.java") {
        JavaFileRun::NotFound(m) => assert_eq!(m, "[JVM Error] Class/File 'X.java' not found in VFS."),
        _ => panic!("expected not found"),
    }
    fs.write_file("B.java", vec![0xc3, 0x28]);
    match JVM::execute_file(&fs, "B.java") {
        JavaFileRun::NotText(m) => assert_eq!(m, "[JVM Error] File is not valid text/bytecode source."),
        _ => panic!("expected not text"),
    }
}

#[test]
fn new_frame_is_empty() {
    let f = JavaFrame::new();
    assert!(f.operand_stack.is_empty());
    assert_eq!(f.local_variables, [0; 8]);
}

#[test]
fn arithmetic_and_locals() {
    let run = JVM::interpret("bipush 6\niconst 7\nimul\nistore 7\niload 7\niload 7\niadd\nprintln\nprintln\n");
    assert_eq!(
        run.output,
        vec!["[Java stdout] 84", "[Java stdout] ", "[JVM] Execution finished successfully.\n"]
    );
    assert!(run.status == JvmStatus::Running);
}

#[test]
fn ignored_instructions() {
    let run = JVM::interpret("// comment\n\nbipush x\niadd\nistore 8\niload 9\nnop\nbipush -5\nprintln\n");
    assert_eq!(run.output, vec!["[Java stdout] -5", "[JVM] Execution finished successfully.\n"]);
}

#[test]
fn return_stops_the_program() {
    let run = JVM::interpret("println \"a\"\nreturn\nprintln b\n");
    assert_eq!(run.output, vec!["[Java stdout] a", "[JVM] Execution finished successfully.\n"]);
}

#[test]
fn call_syntax_println() {
    let run = JVM::interpret("System.out.println(\"hi there\");\n");
    assert_eq!(run.output, vec!["[Java stdout] hi there", "[JVM] Execution finished successfully.\n"]);
}

#[test]
fn overflow_faults() {
    let run = JVM::interpret("bipush 2147483647\nbipush 1\niadd\nprintln\n");
    assert!(run.status == JvmStatus::Overflow);
    assert!(run.output.is_empty());
}

#[test]
fn reversed_parentheses_fault() {
    let run = JVM::interpret("println \"x\"\nfoo System.out.println ) (\n");
    assert!(run.status == JvmStatus::BadPrintln);
    assert_eq!(run.output, vec!["[Java stdout] x"]);
}

#[test]
fn lines_after_a_fault_change_nothing() {
    let a = JVM::interpret("bipush 2147483647\nbipush 1\niadd\n");
    let b = JVM::interpret("bipush 2147483647\nbipush 1\niadd\nprintln \"later\"\nreturn\n");
    assert!(a.status == JvmStatus::Overflow && b.status == JvmStatus::Overflow);
    assert_eq!(a.output, b.output);
}
