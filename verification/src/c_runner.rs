//! A tiny runner for a subset of C: `int` variable declarations, `printf` with one
//! `%d` argument, and single-statement `for` loops.
use vstd::prelude::*;
use crate::shell::strings_view;
use crate::text::{
    chars_of, chars_eq, contains_seq, contains_str, copy_range, decode_utf8_chars, find_char,
    first_index_of, has_prefix, i64_decimal, int_decimal, is_str, is_whitespace, is_ws, last_index_of,
    lines, lines_of,
    parse_i32, parse_i32_spec, push_all, push_str, replace_all, replace_str, rfind_char,
    split_char, split_pieces, split_whitespace, starts_with, string_of, trim, trim_char, trim_end,
    trim_start, occurs_at, nat_decimal, trim_end_char, trim_end_matching, trim_matching, trimmed, words,
};
use crate::vfs::VFSManager;
use crate::gui::{window_lines, UI};

verus! {

/// A variable table: names and values, in order of first assignment.
pub type VarsView = Seq<(Seq<char>, i32)>;

/// The position of the first variable called `name`.
pub open spec fn var_index(vars: VarsView, name: Seq<char>) -> Option<int>
    decreases vars.len(),
{
    if vars.len() == 0 {
        None
    } else {
        match var_index(vars.drop_last(), name) {
            Some(i) => Some(i),
            None => if vars.last().0 == name { Some(vars.len() - 1) } else { None },
        }
    }
}

/// The value of `name`, or 0 for an unknown name.
pub open spec fn var_value(vars: VarsView, name: Seq<char>) -> i32 {
    match var_index(vars, name) {
        Some(i) => vars[i].1,
        None => 0,
    }
}

/// The table with `name` set to `val`: the existing entry changed, or a new one added.
pub open spec fn var_set(vars: VarsView, name: Seq<char>, val: i32) -> VarsView {
    match var_index(vars, name) {
        Some(i) => vars.update(i, (name, val)),
        None => vars.push((name, val)),
    }
}

/// The names and values of a table.
pub open spec fn vars_view(v: Seq<(Vec<char>, i32)>) -> VarsView {
    v.map_values(|p: (Vec<char>, i32)| (p.0@, p.1))
}

/// What `printf(content)` prints: with a `,`, the format (without its quotes) with `%d`
/// replaced by the named variable's value; otherwise the unquoted text. Any `\n`
/// escape is dropped.
pub open spec fn printf_text(content: Seq<char>, vars: VarsView) -> Seq<char> {
    if contains_seq(content, ","@) {
        let k = first_index_of(content, ',')->0;
        let fmt = trim_char(trim(content.take(k)), '"');
        let name = trim(trim_end_char(trim(content.skip(k + 1)), ';'));
        replace_all(replace_all(fmt, "%d"@, int_decimal(var_value(vars, name) as int)), "\\n"@, seq![])
    } else {
        replace_all(trim_char(trim(content), '"'), "\\n"@, seq![])
    }
}

/// The state of a run: the variables and the printed lines.
pub struct CState {
    pub vars: VarsView,
    pub output: Seq<Seq<char>>,
    pub faulted: bool,
}

/// One simple statement: a `printf(...)` call or an `int name = value;` declaration.
pub open spec fn c_single(st: CState, line: Seq<char>) -> CState {
    let t = trim(line);
    if has_prefix(t, "printf("@) {
        match (first_index_of(t, '('), last_index_of(t, ')')) {
            (Some(a), Some(b)) => if a + 1 <= b {
                CState { output: st.output.push(printf_text(t.subrange(a + 1, b), st.vars)), ..st }
            } else {
                st
            },
            _ => st,
        }
    } else if has_prefix(t, "int "@) {
        let p = words(trim_end_char(t, ';'));
        if p.len() >= 4 && p[2] == "="@ && parse_i32_spec(p[3]) is Some {
            CState { vars: var_set(st.vars, p[1], parse_i32_spec(p[3])->0), ..st }
        } else {
            st
        }
    } else {
        st
    }
}

/// The loop `for (var = from; ...; ... to)`: `body` run once for each value from `from`
/// to `to` inclusive, with `var` set to that value first.
pub open spec fn c_for(st: CState, var: Seq<char>, from: int, to: int, body: Seq<char>) -> CState
    decreases to - from + 1,
{
    if from > to || from < i32::MIN || to > i32::MAX {
        st
    } else {
        c_for(
            c_single(CState { vars: var_set(st.vars, var, from as i32), ..st }, body),
            var,
            from + 1,
            to,
            body,
        )
    }
}

/// The initialisation part of a `for` header, `int var = from` or `var = from`, with or
/// without spaces around `=`: the loop variable and its first value (0 where the value
/// is not an `i32`). Without `=` or without a name, the variable `i` from 0.
pub open spec fn for_init(init: Seq<char>) -> (Seq<char>, int) {
    let t = trim(init);
    let rest = if t.len() > 3 && has_prefix(t, "int"@) && is_ws(t[3]) { trim(t.skip(3)) } else { t };
    match first_index_of(rest, '=') {
        Some(k) => if trim(rest.take(k)).len() > 0 {
            (trim(rest.take(k)), match parse_i32_spec(trim(rest.skip(k + 1))) {
                Some(v) => v as int,
                None => 0,
            })
        } else {
            ("i"@, 0)
        },
        None => ("i"@, 0),
    }
}

/// The last value of the loop variable from the condition part of a `for` header:
/// `var < n` stops before `n` and `var <= n` at `n`, with or without spaces; a bound that
/// is not an `i32` gives 10. A condition without `<` gives its third word read as an
/// `i32`, or 10.
pub open spec fn for_last(cond: Seq<char>) -> int {
    let t = trim(cond);
    match first_index_of(t, '<') {
        Some(k) => if k + 1 < t.len() && t[k + 1] == '=' {
            match parse_i32_spec(trim(t.skip(k + 2))) {
                Some(v) => v as int,
                None => 10,
            }
        } else {
            match parse_i32_spec(trim(t.skip(k + 1))) {
                Some(v) => v - 1,
                None => 10,
            }
        },
        None => {
            let w = words(t);
            if w.len() >= 3 {
                match parse_i32_spec(w[2]) {
                    Some(v) => v as int,
                    None => 10,
                }
            } else {
                10
            }
        },
    }
}

/// The header of a `for` line, `(init; cond; step)`: the loop variable, its first value
/// and its last value, where the header has exactly three parts. The step is taken to
/// be an increment by one.
pub open spec fn for_header(header: Seq<char>) -> Option<(Seq<char>, int, int)> {
    let parts = split_pieces(header, ';');
    if parts.len() == 3 {
        let (var, from) = for_init(parts[0]);
        Some((var, from, for_last(parts[1])))
    } else {
        None
    }
}

/// A program line is run (it is not blank, an include, a comment, `int main...`, `{` or `}`).
pub open spec fn kept_line(t: Seq<char>) -> bool {
    &&& t.len() > 0
    &&& !has_prefix(t, "#include"@)
    &&& !has_prefix(t, "//"@)
    &&& !has_prefix(t, "int main"@)
    &&& t != "{"@
    &&& t != "}"@
}

/// The trimmed program lines that are run, in order.
pub open spec fn program_lines(ls: Seq<Seq<char>>) -> Seq<Seq<char>>
    decreases ls.len(),
{
    if ls.len() == 0 {
        seq![]
    } else {
        let rest = program_lines(ls.drop_last());
        let t = trim(ls.last());
        if kept_line(t) { rest.push(t) } else { rest }
    }
}

/// Runs program lines from `idx`: a `for` line with a proper header runs the next line as
/// its body (and consumes it); a `for` line whose `)` comes before its `(` faults and
/// stops the run (the kernel panics on that slice).
pub open spec fn c_exec(ls: Seq<Seq<char>>, idx: int, st: CState) -> CState
    decreases ls.len() - idx,
{
    if idx < 0 || idx >= ls.len() {
        st
    } else {
        let line = ls[idx];
        if has_prefix(line, "for"@) {
            match (first_index_of(line, '('), last_index_of(line, ')')) {
                (Some(a), Some(b)) => if a + 1 <= b {
                    match for_header(line.subrange(a + 1, b)) {
                        Some((var, from, to)) => {
                            let body = if idx + 1 < ls.len() { ls[idx + 1] } else { seq![] };
                            let next = if idx + 1 < ls.len() { idx + 2 } else { idx + 1 };
                            c_exec(ls, next, c_for(st, var, from, to, body))
                        },
                        None => c_exec(ls, idx + 1, st),
                    }
                } else {
                    CState { faulted: true, ..st }
                },
                _ => c_exec(ls, idx + 1, st),
            }
        } else {
            c_exec(ls, idx + 1, c_single(st, line))
        }
    }
}

/// The line printed when a program finishes.
pub open spec fn c_finish_line() -> Seq<char> {
    "[C Runtime] Program execution finished successfully.\n"@
}

/// The state after running a C source text.
pub open spec fn c_program(source: Seq<char>) -> CState {
    c_exec(program_lines(lines_of(source, '\n', '\r')), 0, CState { vars: seq![], output: seq![], faulted: false })
}

/// What running a C source text prints: its output, and the closing line where it did
/// not fault.
pub open spec fn c_output(source: Seq<char>) -> Seq<Seq<char>> {
    let st = c_program(source);
    if st.faulted { st.output } else { st.output.push(c_finish_line()) }
}

/// The C runtime environment.
pub struct CRunner;

/// What running a program printed, and whether it faulted.
pub struct CRun {
    pub output: Vec<String>,
    pub faulted: bool,
}

/// What running a file gave.
pub enum CFileRun {
    /// There is no file of that name: the error line to print.
    NotFound(String),
    /// The file is not UTF-8 text: the error line to print.
    NotText(String),
    /// The program ran: the lines printed before it (the application card and the start
    /// line), and the run.
    Ran(Vec<String>, CRun),
}

/// The error line for a missing C file.
pub open spec fn c_not_found_line(name: Seq<char>) -> Seq<char> {
    "[C Runtime Error] C File '"@ + name + "' not found in VFS."@
}

/// The error line for a C file that is not text.
pub open spec fn c_not_text_line() -> Seq<char> {
    "[C Runtime Error] File is not valid ASCII/UTF-8 C source."@
}

/// The lines printed before a C file runs: the card of the C runtime, then the start line.
pub open spec fn c_banner(name: Seq<char>) -> Seq<Seq<char>> {
    window_lines(
        "C Runtime Engine - ["@ + name + "]"@,
        seq!["C Runtime Environment v1.0 initialized."@, "Executing main()..."@],
    ).push("[C Runtime] Compiling & Executing '"@ + name + "'..."@)
}

/// Appends a printed line.
fn print_line(out: &mut Vec<String>, line: String)
    ensures
        strings_view(final(out)@) == strings_view(old(out)@).push(line@),
{
    let ghost before = out@;
    out.push(line);
    assert(strings_view(out@) =~= strings_view(before).push(line@));
}

/// The value of the variable `name` (0 where there is none).
fn lookup_variable(vars: &Vec<(Vec<char>, i32)>, name: &Vec<char>) -> (r: i32)
    ensures
        r == var_value(vars_view(vars@), name@),
{
    let ghost vv = vars_view(vars@);
    let mut i: usize = 0;
    while i < vars.len()
        invariant
            i <= vars.len(),
            vv == vars_view(vars@),
            var_index(vv.take(i as int), name@) is None,
        decreases vars.len() - i,
    {
        assert(vv.take(i + 1).drop_last() =~= vv.take(i as int));
        if chars_eq(&vars[i].0, name) {
            proof {
                lemma_var_index_extends(vv, name@, i as int, vv.len() as int);
                assert(vv.take(vv.len() as int) =~= vv);
            }
            return vars[i].1;
        }
        i += 1;
    }
    assert(vv.take(vars.len() as int) =~= vv);
    0
}

proof fn lemma_var_index_extends(vars: VarsView, name: Seq<char>, i: int, n: int)
    requires
        0 <= i < n <= vars.len(),
        var_index(vars.take(i + 1), name) == Some(i),
    ensures
        var_index(vars.take(n), name) == Some(i),
    decreases n,
{
    if n > i + 1 {
        lemma_var_index_extends(vars, name, i, n - 1);
        assert(vars.take(n).drop_last() =~= vars.take(n - 1));
    }
}

impl CRunner {
    /// Sets the variable `name` to `val`, adding it where it is new.
    fn update_variable(vars: &mut Vec<(Vec<char>, i32)>, name: &Vec<char>, val: i32)
        ensures
            vars_view(final(vars)@) == var_set(vars_view(old(vars)@), name@, val),
    {
        let ghost vv = vars_view(vars@);
        let mut i: usize = 0;
        while i < vars.len()
            invariant
                i <= vars.len(),
                vv == vars_view(old(vars)@),
                vars@ == old(vars)@,
                var_index(vv.take(i as int), name@) is None,
            decreases vars.len() - i,
        {
            assert(vv.take(i + 1).drop_last() =~= vv.take(i as int));
            if chars_eq(&vars[i].0, name) {
                proof {
                    lemma_var_index_extends(vv, name@, i as int, vv.len() as int);
                    assert(vv.take(vv.len() as int) =~= vv);
                }
                let copy = copy_range(name, 0, name.len());
                assert(copy@ =~= name@);
                vars.set(i, (copy, val));
                assert(vars_view(vars@) =~= vv.update(i as int, (name@, val)));
                return;
            }
            i += 1;
        }
        assert(vv.take(vars.len() as int) =~= vv);
        let copy = copy_range(name, 0, name.len());
        assert(copy@ =~= name@);
        vars.push((copy, val));
        assert(vars_view(vars@) =~= vv.push((name@, val)));
    }

    /// The text that `printf(content)` prints.
    fn printf_string(content: &Vec<char>, vars: &Vec<(Vec<char>, i32)>) -> (r: String)
        ensures
            r@ == printf_text(content@, vars_view(vars@)),
    {
        let none: Vec<char> = Vec::new();
        if contains_str(content, ",") {
            let k = match find_char(content, ',') {
                Some(k) => k,
                None => {
                    proof {
                        reveal_strlit(",");
                        let j = choose|j: int| crate::text::occurs_at(content@, ","@, j);
                        assert(content@.subrange(j, j + 1)[0] == content@[j]);
                        assert(content@[j] == ',');
                        lemma_first_index_found(content@, ',', j);
                    }
                    0
                },
            };
            let n = content.len();
            assert(k < n);
            let head = copy_range(content, 0, k);
            let tail = copy_range(content, k + 1, n);
            let fmt = trim_matching(&trimmed(&head), '"');
            let name = trimmed(&trim_end_matching(&trimmed(&tail), ';'));
            let val = lookup_variable(vars, &name);
            let digits = i64_decimal(val as i64);
            proof {
                reveal_strlit("%d");
                reveal_strlit("\\n");
            }
            let with_val = replace_str(&fmt, "%d", &digits);
            let text = replace_str(&with_val, "\\n", &none);
            assert(none@ =~= seq![]);
            string_of(&text)
        } else {
            let clean = trim_matching(&trimmed(content), '"');
            proof {
                reveal_strlit("\\n");
            }
            let text = replace_str(&clean, "\\n", &none);
            assert(none@ =~= seq![]);
            string_of(&text)
        }
    }

    /// Runs one simple statement: `printf(...)` prints, `int name = value;` sets a variable.
    fn execute_single_line(line: &Vec<char>, vars: &mut Vec<(Vec<char>, i32)>, out: &mut Vec<String>)
        ensures
            ({
                let st = c_single(CState { vars: vars_view(old(vars)@), output: strings_view(old(out)@), faulted: false }, line@);
                vars_view(final(vars)@) == st.vars && strings_view(final(out)@) == st.output
            }),
    {
        let t = trimmed(line);
        if starts_with(&t, "printf(") {
            match (find_char(&t, '('), rfind_char(&t, ')')) {
                (Some(a), Some(b)) => {
                    if a < b {
                        let content = copy_range(&t, a + 1, b);
                        let text = Self::printf_string(&content, vars);
                        print_line(out, text);
                    }
                },
                _ => {},
            }
        } else if starts_with(&t, "int ") {
            let stmt = trim_end_matching(&t, ';');
            let p = split_whitespace(&stmt);
            let ghost pv = p.deep_view();
            if p.len() >= 4 {
                assert(pv[1] =~= p[1]@);
                assert(pv[2] =~= p[2]@);
                assert(pv[3] =~= p[3]@);
                if is_str(&p[2], "=") {
                    match parse_i32(&p[3]) {
                        Some(v) => Self::update_variable(vars, &p[1], v),
                        None => {},
                    }
                }
            }
        }
    }
}

/// The state that variables and printed lines stand for.
pub open spec fn c_state(vars: Seq<(Vec<char>, i32)>, out: Seq<String>) -> CState {
    CState { vars: vars_view(vars), output: strings_view(out), faulted: false }
}

impl CRunner {
    /// Runs `body` once for each value of `var` from `from` to `to`, inclusive.
    fn run_for(var: &Vec<char>, from: i32, to: i64, body: &Vec<char>, vars: &mut Vec<(Vec<char>, i32)>, out: &mut Vec<String>)
        requires
            i32::MIN - 1 <= to <= i32::MAX,
        ensures
            c_state(final(vars)@, final(out)@) == c_for(c_state(old(vars)@, old(out)@), var@, from as int, to as int, body@),
    {
        let mut val: i64 = from as i64;
        while val <= to
            invariant
                from <= val <= to + 1 || val == from,
                i32::MIN - 1 <= to <= i32::MAX,
                c_for(c_state(old(vars)@, old(out)@), var@, from as int, to as int, body@)
                    == c_for(c_state(vars@, out@), var@, val as int, to as int, body@),
            decreases to - val + 1,
        {
            Self::update_variable(vars, var, val as i32);
            Self::execute_single_line(body, vars, out);
            val += 1;
        }
    }
}

proof fn lemma_first_index_found(s: Seq<char>, c: char, j: int)
    requires
        0 <= j < s.len(),
        s[j] == c,
    ensures
        first_index_of(s, c) is Some,
    decreases s.len(),
{
    if j < s.len() - 1 {
        lemma_first_index_found(s.drop_last(), c, j);
    }
}

/// Whether a trimmed line is run.
fn is_kept(t: &Vec<char>) -> (r: bool)
    ensures
        r == kept_line(t@),
{
    t.len() > 0 && !starts_with(t, "#include") && !starts_with(t, "//") && !starts_with(t, "int main")
        && !is_str(t, "{") && !is_str(t, "}")
}

/// The trimmed lines of the program that are run.
fn keep_program_lines(ls: &Vec<Vec<char>>) -> (r: Vec<Vec<char>>)
    ensures
        r.deep_view() == program_lines(ls.deep_view()),
{
    let ghost lv = ls.deep_view();
    let mut r: Vec<Vec<char>> = Vec::new();
    let mut i: usize = 0;
    while i < ls.len()
        invariant
            i <= ls.len(),
            lv == ls.deep_view(),
            r.deep_view() == program_lines(lv.take(i as int)),
        decreases ls.len() - i,
    {
        assert(lv.take(i + 1).drop_last() =~= lv.take(i as int));
        assert(lv[i as int] =~= ls@[i as int]@);
        let t = trimmed(&ls[i]);
        if is_kept(&t) {
            let ghost before = r.deep_view();
            assert(t.deep_view() =~= t@);
            r.push(t);
            assert(r.deep_view() =~= before.push(t@));
        }
        i += 1;
    }
    assert(lv.take(ls.len() as int) =~= lv);
    r
}

/// The initialisation part of a `for` header (see `for_init`).
fn parse_for_init(init: &Vec<char>) -> (r: (Vec<char>, i32))
    ensures
        r.0@ == for_init(init@).0,
        r.1 as int == for_init(init@).1,
{
    let t = trimmed(init);
    let rest = if t.len() > 3 && starts_with(&t, "int") && is_whitespace(t[3]) {
        let tail = copy_range(&t, 3, t.len());
        assert(tail@ =~= t@.skip(3));
        trimmed(&tail)
    } else {
        t
    };
    match find_char(&rest, '=') {
        Some(k) => {
            let before = copy_range(&rest, 0, k);
            assert(before@ =~= rest@.take(k as int));
            let var = trimmed(&before);
            if var.len() > 0 {
                let after = copy_range(&rest, k + 1, rest.len());
                assert(after@ =~= rest@.skip(k + 1));
                let value = trimmed(&after);
                let from = match parse_i32(&value) {
                    Some(v) => v,
                    None => 0,
                };
                (var, from)
            } else {
                (chars_of("i"), 0)
            }
        },
        None => (chars_of("i"), 0),
    }
}

/// The last value of the loop variable (see `for_last`).
fn parse_for_last(cond: &Vec<char>) -> (r: i64)
    ensures
        r as int == for_last(cond@),
        i32::MIN - 1 <= r <= i32::MAX,
{
    let t = trimmed(cond);
    match find_char(&t, '<') {
        Some(k) => {
            if k + 1 < t.len() && t[k + 1] == '=' {
                let after = copy_range(&t, k + 2, t.len());
                assert(after@ =~= t@.skip(k + 2));
                let bound = trimmed(&after);
                match parse_i32(&bound) {
                    Some(v) => v as i64,
                    None => 10,
                }
            } else {
                let after = copy_range(&t, k + 1, t.len());
                assert(after@ =~= t@.skip(k + 1));
                let bound = trimmed(&after);
                match parse_i32(&bound) {
                    Some(v) => v as i64 - 1,
                    None => 10,
                }
            }
        },
        None => {
            let w = split_whitespace(&t);
            let ghost wv = w.deep_view();
            if w.len() >= 3 {
                assert(wv[2] =~= w[2]@);
                match parse_i32(&w[2]) {
                    Some(v) => v as i64,
                    None => 10,
                }
            } else {
                10
            }
        },
    }
}

/// The loop variable and bounds of a `for` header.
fn parse_for_header(header: &Vec<char>) -> (r: Option<(Vec<char>, i32, i64)>)
    ensures
        match for_header(header@) {
            Some((var, from, to)) => r matches Some((v, f, t)) && v@ == var && f as int == from && t as int == to
                && i32::MIN - 1 <= t <= i32::MAX,
            None => r is None,
        },
{
    let parts = split_char(header, ';');
    let ghost pv = parts.deep_view();
    if parts.len() != 3 {
        return None;
    }
    assert(pv[0] =~= parts[0]@);
    assert(pv[1] =~= parts[1]@);
    let (var, from) = parse_for_init(&parts[0]);
    let to = parse_for_last(&parts[1]);
    Some((var, from, to))
}

impl CRunner {
    /// Runs a C source text: the program lines one by one (a `for` line takes the next
    /// line as its body), then the closing line unless it faulted.
    pub fn interpret(source: &str) -> (r: CRun)
        ensures
            strings_view(r.output@) == c_output(source@),
            r.faulted == c_program(source@).faulted,
    {
        let chars = chars_of(source);
        let raw = lines(&chars);
        let ls = keep_program_lines(&raw);
        let ghost lv = ls.deep_view();
        let ghost init = CState { vars: seq![], output: seq![], faulted: false };
        let mut vars: Vec<(Vec<char>, i32)> = Vec::new();
        let mut out: Vec<String> = Vec::new();
        assert(vars_view(vars@) =~= seq![]);
        assert(strings_view(out@) =~= seq![]);
        let mut idx: usize = 0;
        while idx < ls.len()
            invariant
                idx <= ls.len(),
                lv == ls.deep_view(),
                lv == program_lines(lines_of(source@, '\n', '\r')),
                init == (CState { vars: seq![], output: seq![], faulted: false }),
                c_exec(lv, 0, init) == c_exec(lv, idx as int, c_state(vars@, out@)),
            decreases ls.len() - idx,
        {
            let line = &ls[idx];
            assert(lv[idx as int] =~= line@);
            if starts_with(line, "for") {
                match (find_char(line, '('), rfind_char(line, ')')) {
                    (Some(a), Some(b)) => {
                        if a < b {
                            let header = copy_range(line, a + 1, b);
                            match parse_for_header(&header) {
                                Some((var, from, to)) => {
                                    let n = ls.len();
                                    let has_body = idx < n - 1;
                                    let empty: Vec<char> = Vec::new();
                                    let body = if has_body { &ls[idx + 1] } else { &empty };
                                    assert(has_body ==> lv[idx + 1] =~= body@);
                                    assert(!has_body ==> body@ =~= seq![]);
                                    Self::run_for(&var, from, to, body, &mut vars, &mut out);
                                    idx = if has_body { idx + 2 } else { idx + 1 };
                                },
                                None => {
                                    idx += 1;
                                },
                            }
                        } else {
                            assert(c_exec(lv, idx as int, c_state(vars@, out@))
                                == CState { faulted: true, ..c_state(vars@, out@) });
                            return CRun { output: out, faulted: true };
                        }
                    },
                    _ => {
                        idx += 1;
                    },
                }
            } else {
                Self::execute_single_line(line, &mut vars, &mut out);
                idx += 1;
            }
        }
        print_line(&mut out, "[C Runtime] Program execution finished successfully.\n".to_owned());
        CRun { output: out, faulted: false }
    }

    /// Runs the C source file `filename`.
    pub fn execute_file(fs: &VFSManager, filename: &str) -> (r: CFileRun)
        requires
            fs.wf(),
        ensures
            match crate::shell::file_bytes(*fs, filename@) {
                None => r matches CFileRun::NotFound(m) && m@ == c_not_found_line(filename@),
                Some(b) => if vstd::utf8::valid_utf8(b) {
                    r matches CFileRun::Ran(banner, run)
                        && strings_view(banner@) == c_banner(filename@)
                        && strings_view(run.output@) == c_output(vstd::utf8::decode_utf8(b))
                        && run.faulted == c_program(vstd::utf8::decode_utf8(b)).faulted
                } else {
                    r matches CFileRun::NotText(m) && m@ == c_not_text_line()
                },
            },
    {
        match fs.read_file(filename) {
            Some(bytes) => match decode_utf8_chars(&bytes) {
                Some(text) => {
                    let name = chars_of(filename);
                    let mut title: Vec<char> = Vec::new();
                    push_str(&mut title, "C Runtime Engine - [");
                    push_all(&mut title, &name);
                    push_str(&mut title, "]");
                    let title = string_of(&title);
                    let mut content: Vec<String> = Vec::new();
                    content.push("C Runtime Environment v1.0 initialized.".to_owned());
                    content.push("Executing main()...".to_owned());
                    assert(strings_view(content@) =~= seq!["C Runtime Environment v1.0 initialized."@, "Executing main()..."@]);
                    let mut banner = UI::draw_window(title.as_str(), &content);
                    let mut start: Vec<char> = Vec::new();
                    push_str(&mut start, "[C Runtime] Compiling & Executing '");
                    push_all(&mut start, &name);
                    push_str(&mut start, "'...");
                    print_line(&mut banner, string_of(&start));
                    let s = string_of(&text);
                    CFileRun::Ran(banner, Self::interpret(s.as_str()))
                },
                None => CFileRun::NotText("[C Runtime Error] File is not valid ASCII/UTF-8 C source.".to_owned()),
            },
            None => {
                let mut m: Vec<char> = Vec::new();
                push_str(&mut m, "[C Runtime Error] C File '");
                let name = chars_of(filename);
                push_all(&mut m, &name);
                push_str(&mut m, "' not found in VFS.");
                CFileRun::NotFound(string_of(&m))
            },
        }
    }
}

} // verus!

verus! {

/// Two tables with the same names in the same order find a name at the same position.
proof fn lemma_var_index_names(a: VarsView, b: VarsView, name: Seq<char>)
    requires
        a.len() == b.len(),
        forall|j: int| 0 <= j < a.len() ==> (#[trigger] a[j]).0 == b[j].0,
    ensures
        var_index(a, name) == var_index(b, name),
    decreases a.len(),
{
    if a.len() > 0 {
        assert forall|j: int| 0 <= j < a.drop_last().len() implies (#[trigger] a.drop_last()[j]).0 == b.drop_last()[j].0 by {
            assert(a.drop_last()[j] == a[j] && b.drop_last()[j] == b[j]);
        }
        lemma_var_index_names(a.drop_last(), b.drop_last(), name);
        assert(a.last() == a[a.len() - 1] && b.last() == b[b.len() - 1]);
    }
}

/// The position found for a name holds that name.
proof fn lemma_var_index_found(vars: VarsView, name: Seq<char>)
    ensures
        var_index(vars, name) matches Some(i) ==> 0 <= i < vars.len() && vars[i].0 == name,
    decreases vars.len(),
{
    if vars.len() > 0 {
        lemma_var_index_found(vars.drop_last(), name);
        if var_index(vars.drop_last(), name) is Some {
            let i = var_index(vars.drop_last(), name)->0;
            assert(vars.drop_last()[i] == vars[i]);
        }
    }
}

/// A variable reads back the value it was last set to.
pub proof fn law_var_read_after_set(vars: VarsView, name: Seq<char>, val: i32)
    ensures
        var_value(var_set(vars, name, val), name) == val,
{
    lemma_var_index_found(vars, name);
    match var_index(vars, name) {
        Some(i) => {
            let new = vars.update(i, (name, val));
            lemma_var_index_names(new, vars, name);
        },
        None => {
            assert(vars.push((name, val)).drop_last() =~= vars);
        },
    }
}

/// Setting a variable leaves every other variable as it was.
pub proof fn law_var_set_keeps_others(vars: VarsView, name: Seq<char>, val: i32, other: Seq<char>)
    requires
        other != name,
    ensures
        var_value(var_set(vars, name, val), other) == var_value(vars, other),
{
    lemma_var_index_found(vars, name);
    lemma_var_index_found(vars, other);
    match var_index(vars, name) {
        Some(i) => {
            let new = vars.update(i, (name, val));
            lemma_var_index_names(new, vars, other);
        },
        None => {
            let new = vars.push((name, val));
            assert(new.drop_last() =~= vars);
            if var_index(vars, other) is Some {
                let k = var_index(vars, other)->0;
                assert(new[k] == vars[k]);
            }
        },
    }
}

} // verus!

verus! {

/// Where no character of `s` is `c`, no first `c` is found.
proof fn lemma_first_index_absent(s: Seq<char>, c: char)
    requires
        forall|i: int| 0 <= i < s.len() ==> s[i] != c,
    ensures
        first_index_of(s, c) is None,
    decreases s.len(),
{
    if s.len() > 0 {
        lemma_first_index_absent(s.drop_last(), c);
        assert(s.last() == s[s.len() - 1]);
    }
}

/// The first `c` is at `j` when `s[j]` is `c` and no earlier character is.
proof fn lemma_first_index_exact(s: Seq<char>, c: char, j: int)
    requires
        0 <= j < s.len(),
        s[j] == c,
        forall|i: int| 0 <= i < j ==> s[i] != c,
    ensures
        first_index_of(s, c) == Some(j),
    decreases s.len(),
{
    if j < s.len() - 1 {
        lemma_first_index_exact(s.drop_last(), c, j);
    } else {
        lemma_first_index_absent(s.drop_last(), c);
        assert(s.last() == s[j]);
    }
}

/// The decimal representation of a value holds no backslash.
proof fn lemma_int_decimal_no_backslash(v: int)
    ensures
        !int_decimal(v).contains('\\'),
{
    let m: nat = if v < 0 { (-v) as nat } else { v as nat };
    crate::text::lemma_nat_decimal_digits(m);
    let d = int_decimal(v);
    assert('\\' as u32 == 92);
    if d.contains('\\') {
        let j = choose|j: int| 0 <= j < d.len() && d[j] == '\\';
        if v < 0 {
            assert(d == seq!['-'] + nat_decimal(m));
            if j > 0 {
                assert(d[j] == nat_decimal(m)[j - 1]);
                assert(crate::text::is_digit(nat_decimal(m)[j - 1]));
            }
        } else {
            assert(crate::text::is_digit(nat_decimal(m)[j]));
        }
    }
}

/// `printf("%d", x)` prints the signed decimal value of the variable `x` (0 for an
/// unknown name), which reads back as that value; after `int x = v;` it prints `v`.
pub proof fn law_printf_prints_signed_value(vars: VarsView, x: Seq<char>, v: i32)
    requires
        x.len() > 0,
        !is_ws(x[0]),
        !is_ws(x.last()),
        x.last() != ';',
    ensures
        printf_text("\"%d\", "@ + x, vars) == int_decimal(var_value(vars, x) as int),
        parse_i32_spec(printf_text("\"%d\", "@ + x, vars)) == Some(var_value(vars, x)),
        printf_text("\"%d\", "@ + x, var_set(vars, x, v)) == int_decimal(v as int),
{
    reveal_strlit("\"%d\", ");
    reveal_strlit(",");
    reveal_strlit("%d");
    reveal_strlit("\\n");
    assert(' ' as u32 == 32 && '"' as u32 == 34);
    law_var_read_after_set(vars, x, v);
    assert forall|w: VarsView| #[trigger] printf_text("\"%d\", "@ + x, w) == int_decimal(var_value(w, x) as int) by {
        let content = "\"%d\", "@ + x;
        assert(content[4] == ',');
        assert(content.subrange(4, 5) =~= ","@);
        assert(occurs_at(content, ","@, 4));
        assert(contains_seq(content, ","@));
        lemma_first_index_exact(content, ',', 4);
        let q = content.take(4);
        assert(q =~= seq!['"', '%', 'd', '"']);
        assert(trim_start(q) == q);
        assert(trim_end(q) == q);
        assert(q.drop_first() =~= seq!['%', 'd', '"']);
        assert(q.drop_first().drop_last() =~= seq!['%', 'd']);
        assert(trim_char(seq!['%', 'd'], '"') == seq!['%', 'd']);
        assert(trim_char(q.drop_first(), '"') == seq!['%', 'd']);
        let fmt = trim_char(trim(q), '"');
        assert(fmt =~= "%d"@);
        let r = content.skip(5);
        assert(r =~= seq![' '] + x);
        assert(r.drop_first() =~= x);
        assert(trim_start(r) == trim_start(x));
        assert(trim_start(x) == x);
        assert(trim_end(x) == x);
        assert(trim(r) == x);
        assert(trim_end_char(x, ';') == x);
        assert(trim(x) == x);
        let d = int_decimal(var_value(w, x) as int);
        assert(fmt.take(2) =~= "%d"@);
        assert(fmt.skip(2) =~= Seq::<char>::empty());
        assert(replace_all(fmt.skip(2), "%d"@, d) == fmt.skip(2));
        assert(replace_all(fmt, "%d"@, d) =~= d);
        lemma_int_decimal_no_backslash(var_value(w, x) as int);
        assert("\\n"@[0] == '\\');
        crate::text::lemma_replace_all_absent(d, "\\n"@, seq![]);
    }
    assert(printf_text("\"%d\", "@ + x, vars) == int_decimal(var_value(vars, x) as int));
    assert(printf_text("\"%d\", "@ + x, var_set(vars, x, v)) == int_decimal(var_value(var_set(vars, x, v), x) as int));
    crate::text::lemma_int_decimal_parses(var_value(vars, x));
}

} // verus!
