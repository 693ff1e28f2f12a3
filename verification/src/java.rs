//! A tiny interpreter for Java bytecode mnemonics written as text, one instruction
//! per line, with an operand stack and eight local variables.
use vstd::prelude::*;
use crate::shell::strings_view;
use crate::text::{
    chars_of, contains_seq, contains_str, copy_range, decode_utf8_chars, find_char, first_index_of,
    has_prefix, i64_decimal, int_decimal, is_str, join_from, join_with, last_index_of, lines,
    lines_of, parse_i32, parse_i32_spec, parse_usize, parse_usize_spec, push_all, push_str,
    rfind_char, split_whitespace, starts_with, string_of, trim, trim_char, trim_matching, trimmed,
    words,
};
use crate::vfs::VFSManager;
use crate::gui::{window_lines, UI};

verus! {

/// How far a program has got.
#[derive(Debug, Clone, Copy, PartialEq, Eq, Structural)]
pub enum JvmStatus {
    /// Still reading instructions.
    Running,
    /// Stopped at `return`.
    Returned,
    /// `iadd` or `imul` overflowed `i32` (where the kernel panics).
    Overflow,
    /// A `System.out.println` line whose `)` comes before its `(` (where the
    /// kernel panics on the slice).
    BadPrintln,
}

/// Simplified Java stack frame.
pub struct JavaFrame {
    pub operand_stack: Vec<i32>,
    pub local_variables: [i32; 8],
}

impl JavaFrame {
    /// An empty operand stack and eight zero locals.
    pub fn new() -> (r: Self)
        ensures
            r.operand_stack@ == Seq::<i32>::empty(),
            r.local_variables@ == seq![0i32, 0, 0, 0, 0, 0, 0, 0],
    {
        let r = JavaFrame { operand_stack: Vec::new(), local_variables: [0, 0, 0, 0, 0, 0, 0, 0] };
        assert(r.local_variables@ =~= seq![0i32, 0, 0, 0, 0, 0, 0, 0]);
        r
    }
}

/// The interpreter's state between lines.
pub struct JvmState {
    pub stack: Seq<i32>,
    pub locals: Seq<i32>,
    pub output: Seq<Seq<char>>,
    pub status: JvmStatus,
}

/// What a `println` prints.
pub open spec fn stdout_line(msg: Seq<char>) -> Seq<char> {
    "[Java stdout] "@ + trim_char(msg, '"')
}

/// The line printed when a program ends without a fault.
pub open spec fn finish_line() -> Seq<char> {
    "[JVM] Execution finished successfully.\n"@
}

/// Where `s` names one of the eight locals.
pub open spec fn local_index(s: Seq<char>) -> Option<int> {
    match parse_usize_spec(s) {
        Some(i) => if i < 8 { Some(i as int) } else { None },
        None => None,
    }
}

/// `iadd` and `imul` on the two top values, where the result fits in `i32`.
pub open spec fn arith(st: JvmState, multiply: bool) -> JvmState {
    if st.stack.len() >= 2 {
        let b = st.stack.last() as int;
        let a = st.stack[st.stack.len() - 2] as int;
        let v = if multiply { a * b } else { a + b };
        if i32::MIN <= v <= i32::MAX {
            JvmState { stack: st.stack.take(st.stack.len() - 2).push(v as i32), ..st }
        } else {
            JvmState { status: JvmStatus::Overflow, ..st }
        }
    } else {
        st
    }
}

/// The state after one source line.
pub open spec fn jvm_line(st: JvmState, raw: Seq<char>) -> JvmState {
    let t = trim(raw);
    let parts = words(t);
    if st.status != JvmStatus::Running || t.len() == 0 || has_prefix(t, "//"@) || parts.len() == 0 {
        st
    } else {
        let op = parts[0];
        if op == "println"@ || op == "System.out.println"@ {
            if parts.len() > 1 {
                JvmState { output: st.output.push(stdout_line(join_with(parts.skip(1), " "@))), ..st }
            } else if st.stack.len() > 0 {
                JvmState {
                    stack: st.stack.drop_last(),
                    output: st.output.push(stdout_line(int_decimal(st.stack.last() as int))),
                    ..st
                }
            } else {
                JvmState { output: st.output.push(stdout_line(seq![])), ..st }
            }
        } else if op == "bipush"@ || op == "iconst"@ {
            if parts.len() > 1 && parse_i32_spec(parts[1]) is Some {
                JvmState { stack: st.stack.push(parse_i32_spec(parts[1])->0), ..st }
            } else {
                st
            }
        } else if op == "iadd"@ {
            arith(st, false)
        } else if op == "imul"@ {
            arith(st, true)
        } else if op == "istore"@ {
            if parts.len() > 1 && local_index(parts[1]) is Some && st.stack.len() > 0 {
                JvmState {
                    stack: st.stack.drop_last(),
                    locals: st.locals.update(local_index(parts[1])->0, st.stack.last()),
                    ..st
                }
            } else {
                st
            }
        } else if op == "iload"@ {
            if parts.len() > 1 && local_index(parts[1]) is Some {
                JvmState { stack: st.stack.push(st.locals[local_index(parts[1])->0]), ..st }
            } else {
                st
            }
        } else if op == "return"@ {
            JvmState { status: JvmStatus::Returned, ..st }
        } else if contains_seq(t, "System.out.println"@) {
            match (first_index_of(t, '('), last_index_of(t, ')')) {
                (Some(a), Some(b)) => if a + 1 <= b {
                    JvmState { output: st.output.push(stdout_line(t.subrange(a + 1, b))), ..st }
                } else {
                    JvmState { status: JvmStatus::BadPrintln, ..st }
                },
                _ => st,
            }
        } else {
            st
        }
    }
}

/// The state after running the lines in order from a fresh frame.
pub open spec fn jvm_run(ls: Seq<Seq<char>>) -> JvmState
    decreases ls.len(),
{
    if ls.len() == 0 {
        JvmState {
            stack: seq![],
            locals: seq![0i32, 0, 0, 0, 0, 0, 0, 0],
            output: seq![],
            status: JvmStatus::Running,
        }
    } else {
        jvm_line(jvm_run(ls.drop_last()), ls.last())
    }
}

/// The state after running a program text.
pub open spec fn jvm_program(source: Seq<char>) -> JvmState {
    jvm_run(lines_of(source, '\n', '\r'))
}

/// What a program prints: its output, and the closing line where it did not fault.
pub open spec fn jvm_output(source: Seq<char>) -> Seq<Seq<char>> {
    let st = jvm_program(source);
    if st.status == JvmStatus::Running || st.status == JvmStatus::Returned {
        st.output.push(finish_line())
    } else {
        st.output
    }
}

/// The state that a frame, the output so far and a status stand for.
pub open spec fn frame_state(frame: JavaFrame, out: Seq<String>, status: JvmStatus) -> JvmState {
    JvmState {
        stack: frame.operand_stack@,
        locals: frame.local_variables@,
        output: strings_view(out),
        status,
    }
}

/// `"[Java stdout] "` followed by `msg` without surrounding double quotes.
fn stdout_string(msg: &Vec<char>) -> (r: String)
    ensures
        r@ == stdout_line(msg@),
{
    let clean = trim_matching(msg, '"');
    let mut v: Vec<char> = Vec::new();
    push_str(&mut v, "[Java stdout] ");
    push_all(&mut v, &clean);
    string_of(&v)
}

/// Appends a printed line.
fn print_line(out: &mut Vec<String>, line: String)
    ensures
        strings_view(final(out)@) == strings_view(old(out)@).push(line@),
{
    let ghost before = out@;
    out.push(line);
    assert(strings_view(out@) =~= strings_view(before).push(line@));
}

/// Where `s` names one of the eight locals, its number.
fn local_slot(s: &Vec<char>) -> (r: Option<usize>)
    ensures
        r matches Some(i) ==> local_index(s@) == Some(i as int),
        r is None ==> local_index(s@) is None,
{
    match parse_usize(s) {
        Some(i) => if i < 8 { Some(i) } else { None },
        None => None,
    }
}

/// `iadd` (or, where `multiply`, `imul`).
fn java_arith(frame: &mut JavaFrame, multiply: bool) -> (r: JvmStatus)
    ensures
        final(frame).local_variables == old(frame).local_variables,
        ({
            let st = arith(JvmState { stack: old(frame).operand_stack@, locals: seq![], output: seq![], status: JvmStatus::Running }, multiply);
            final(frame).operand_stack@ == st.stack && r == st.status
        }),
{
    let n = frame.operand_stack.len();
    if n < 2 {
        return JvmStatus::Running;
    }
    let b = frame.operand_stack[n - 1] as i64;
    let a = frame.operand_stack[n - 2] as i64;
    assert(-0x4000_0000_0000_0000 <= a * b <= 0x4000_0000_0000_0000) by (nonlinear_arith)
        requires
            -2147483648 <= a <= 2147483647,
            -2147483648 <= b <= 2147483647,
    ;
    let v: i64 = if multiply { a * b } else { a + b };
    if v < -2147483648 || v > 2147483647 {
        return JvmStatus::Overflow;
    }
    let ghost before = frame.operand_stack@;
    frame.operand_stack.pop();
    frame.operand_stack.pop();
    frame.operand_stack.push(v as i32);
    assert(frame.operand_stack@ =~= before.take(n - 2).push(v as i32));
    JvmStatus::Running
}

/// Runs one source line on a running frame.
fn java_line(frame: &mut JavaFrame, out: &mut Vec<String>, raw: &Vec<char>) -> (r: JvmStatus)
    ensures
        frame_state(*final(frame), final(out)@, r) == jvm_line(frame_state(*old(frame), old(out)@, JvmStatus::Running), raw@),
{
    let ghost st = frame_state(*frame, out@, JvmStatus::Running);
    let t = trimmed(raw);
    if t.len() == 0 || starts_with(&t, "//") {
        return JvmStatus::Running;
    }
    let parts = split_whitespace(&t);
    if parts.len() == 0 {
        return JvmStatus::Running;
    }
    let ghost ps = parts.deep_view();
    let op = &parts[0];
    assert(ps[0] =~= op@);
    assert(parts.len() > 1 ==> ps[1] =~= parts[1]@);
    if is_str(op, "println") || is_str(op, "System.out.println") {
        if parts.len() > 1 {
            let sep = chars_of(" ");
            let msg = join_from(&parts, 1, &sep);
            print_line(out, stdout_string(&msg));
        } else {
            match frame.operand_stack.pop() {
                Some(v) => {
                    let digits = i64_decimal(v as i64);
                    print_line(out, stdout_string(&digits));
                },
                None => {
                    let empty: Vec<char> = Vec::new();
                    print_line(out, stdout_string(&empty));
                },
            }
        }
        JvmStatus::Running
    } else if is_str(op, "bipush") || is_str(op, "iconst") {
        if parts.len() > 1 {
            match parse_i32(&parts[1]) {
                Some(v) => frame.operand_stack.push(v),
                None => {},
            }
        }
        JvmStatus::Running
    } else if is_str(op, "iadd") {
        java_arith(frame, false)
    } else if is_str(op, "imul") {
        java_arith(frame, true)
    } else if is_str(op, "istore") {
        if parts.len() > 1 {
            match local_slot(&parts[1]) {
                Some(idx) => {
                    match frame.operand_stack.pop() {
                        Some(v) => {
                            frame.local_variables[idx] = v;
                        },
                        None => {},
                    }
                },
                None => {},
            }
        }
        JvmStatus::Running
    } else if is_str(op, "iload") {
        if parts.len() > 1 {
            match local_slot(&parts[1]) {
                Some(idx) => {
                    let v = frame.local_variables[idx];
                    frame.operand_stack.push(v);
                },
                None => {},
            }
        }
        JvmStatus::Running
    } else if is_str(op, "return") {
        JvmStatus::Returned
    } else if contains_str(&t, "System.out.println") {
        match (find_char(&t, '('), rfind_char(&t, ')')) {
            (Some(a), Some(b)) => {
                if a < b {
                    let content = copy_range(&t, a + 1, b);
                    print_line(out, stdout_string(&content));
                    JvmStatus::Running
                } else {
                    JvmStatus::BadPrintln
                }
            },
            _ => JvmStatus::Running,
        }
    } else {
        JvmStatus::Running
    }
}

/// What running a program printed, and how it ended.
pub struct JvmRun {
    pub output: Vec<String>,
    pub status: JvmStatus,
}

/// What running a file gave.
pub enum JavaFileRun {
    /// There is no file of that name: the error line to print.
    NotFound(String),
    /// The file is not UTF-8 text: the error line to print.
    NotText(String),
    /// The program ran: the lines printed before it (the application card), and the run.
    Ran(Vec<String>, JvmRun),
}

/// The error line for a missing program file.
pub open spec fn jvm_not_found_line(name: Seq<char>) -> Seq<char> {
    "[JVM Error] Class/File '"@ + name + "' not found in VFS."@
}

/// The error line for a program file that is not text.
pub open spec fn jvm_not_text_line() -> Seq<char> {
    "[JVM Error] File is not valid text/bytecode source."@
}

/// The card printed before a program file runs.
pub open spec fn jvm_banner(name: Seq<char>) -> Seq<Seq<char>> {
    window_lines(
        "Java Virtual Machine - ["@ + name + "]"@,
        seq!["JVM Runtime Environment v1.0 initialized."@, "Executing Java main()..."@],
    )
}

/// The embedded interpreter.
pub struct JVM;

impl JVM {
    /// Runs a program text line by line from a fresh frame, until `return`, a fault
    /// or the last line; then prints the closing line unless it faulted.
    pub fn interpret(source: &str) -> (r: JvmRun)
        ensures
            strings_view(r.output@) == jvm_output(source@),
            r.status == jvm_program(source@).status,
    {
        let chars = chars_of(source);
        let ls = lines(&chars);
        let ghost lv = ls.deep_view();
        let mut frame = JavaFrame::new();
        let mut out: Vec<String> = Vec::new();
        let mut status = JvmStatus::Running;
        let mut i: usize = 0;
        assert(strings_view(out@) =~= seq![]);
        while i < ls.len()
            invariant
                i <= ls.len(),
                lv == ls.deep_view(),
                lv == lines_of(source@, '\n', '\r'),
                frame_state(frame, out@, status) == jvm_run(lv.take(i as int)),
            decreases ls.len() - i,
        {
            assert(lv.take(i + 1).drop_last() =~= lv.take(i as int));
            assert(lv[i as int] =~= ls@[i as int]@);
            if status == JvmStatus::Running {
                status = java_line(&mut frame, &mut out, &ls[i]);
            }
            i += 1;
        }
        assert(lv.take(ls.len() as int) =~= lv);
        if status == JvmStatus::Running || status == JvmStatus::Returned {
            print_line(&mut out, "[JVM] Execution finished successfully.\n".to_owned());
        }
        JvmRun { output: out, status }
    }

    /// Runs the program in the file `filename`.
    pub fn execute_file(fs: &VFSManager, filename: &str) -> (r: JavaFileRun)
        requires
            fs.wf(),
        ensures
            match crate::shell::file_bytes(*fs, filename@) {
                None => r matches JavaFileRun::NotFound(m) && m@ == jvm_not_found_line(filename@),
                Some(b) => if vstd::utf8::valid_utf8(b) {
                    r matches JavaFileRun::Ran(banner, run)
                        && strings_view(banner@) == jvm_banner(filename@)
                        && strings_view(run.output@) == jvm_output(vstd::utf8::decode_utf8(b))
                        && run.status == jvm_program(vstd::utf8::decode_utf8(b)).status
                } else {
                    r matches JavaFileRun::NotText(m) && m@ == jvm_not_text_line()
                },
            },
    {
        match fs.read_file(filename) {
            Some(bytes) => match decode_utf8_chars(&bytes) {
                Some(text) => {
                    let name = chars_of(filename);
                    let mut title: Vec<char> = Vec::new();
                    push_str(&mut title, "Java Virtual Machine - [");
                    push_all(&mut title, &name);
                    push_str(&mut title, "]");
                    let title = string_of(&title);
                    let mut content: Vec<String> = Vec::new();
                    content.push("JVM Runtime Environment v1.0 initialized.".to_owned());
                    content.push("Executing Java main()...".to_owned());
                    assert(strings_view(content@) =~= seq!["JVM Runtime Environment v1.0 initialized."@, "Executing Java main()..."@]);
                    let banner = UI::draw_window(title.as_str(), &content);
                    let s = string_of(&text);
                    JavaFileRun::Ran(banner, Self::interpret(s.as_str()))
                },
                None => JavaFileRun::NotText("[JVM Error] File is not valid text/bytecode source.".to_owned()),
            },
            None => {
                let mut m: Vec<char> = Vec::new();
                push_str(&mut m, "[JVM Error] Class/File '");
                let name = chars_of(filename);
                push_all(&mut m, &name);
                push_str(&mut m, "' not found in VFS.");
                JavaFileRun::NotFound(string_of(&m))
            },
        }
    }
}

} // verus!

verus! {

/// Once a program has stopped (at `return`, or at a fault), the lines after change
/// nothing: neither the output nor the frame.
pub proof fn law_jvm_stops_for_good(done: Seq<Seq<char>>, rest: Seq<Seq<char>>)
    requires
        jvm_run(done).status != JvmStatus::Running,
    ensures
        jvm_run(done + rest) == jvm_run(done),
    decreases rest.len(),
{
    if rest.len() == 0 {
        assert(done + rest =~= done);
    } else {
        law_jvm_stops_for_good(done, rest.drop_last());
        assert((done + rest).drop_last() =~= done + rest.drop_last());
    }
}

/// A program's output only grows: each line keeps what the lines before it printed.
pub proof fn law_jvm_output_grows(ls: Seq<Seq<char>>, n: int)
    requires
        0 <= n <= ls.len(),
    ensures
        jvm_run(ls.take(n)).output.len() <= jvm_run(ls).output.len(),
        jvm_run(ls).output.take(jvm_run(ls.take(n)).output.len() as int) == jvm_run(ls.take(n)).output,
    decreases ls.len() - n,
{
    if n == ls.len() {
        assert(ls.take(n) =~= ls);
        assert(jvm_run(ls).output.take(jvm_run(ls).output.len() as int) =~= jvm_run(ls).output);
    } else {
        law_jvm_output_grows(ls, n + 1);
        assert(ls.take(n + 1).drop_last() =~= ls.take(n));
        let a = jvm_run(ls.take(n)).output;
        let b = jvm_run(ls.take(n + 1)).output;
        let c = jvm_run(ls).output;
        assert(b.take(a.len() as int) =~= a);
        assert(c.take(a.len() as int) =~= b.take(b.len() as int).take(a.len() as int));
    }
}

} // verus!

verus! {

/// `iadd` and `imul` act on the top of the operand stack: with `a` and then `b` pushed
/// onto any stack, they leave that stack with `a + b` (or `a * b`) pushed on it, where
/// the result fits in `i32`; where it does not, the program stops with an overflow and
/// the stack is left as it was.
pub proof fn law_arith_on_top(st: JvmState, a: i32, b: i32, multiply: bool)
    ensures
        ({
            let s = JvmState { stack: st.stack.push(a).push(b), ..st };
            let v = if multiply { a * b } else { a + b };
            &&& i32::MIN <= v <= i32::MAX ==> arith(s, multiply) == (JvmState { stack: st.stack.push(v as i32), ..st })
            &&& !(i32::MIN <= v <= i32::MAX) ==> arith(s, multiply).status == JvmStatus::Overflow
                && arith(s, multiply).stack == s.stack
                && arith(s, multiply).output == st.output
        }),
{
    let s2 = st.stack.push(a).push(b);
    assert(s2.last() == b);
    assert(s2[s2.len() - 2] == a);
    assert(s2.take(s2.len() - 2) =~= st.stack);
}

/// A stack with fewer than two values is left alone by `iadd` and `imul`.
pub proof fn law_arith_needs_two(st: JvmState, multiply: bool)
    requires
        st.stack.len() < 2,
    ensures
        arith(st, multiply) == st,
{
}

} // verus!
