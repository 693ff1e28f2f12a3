//! The command shell: a line buffer fed key by key, a command history, and the
//! interpretation of command lines against the file system.
use vstd::prelude::*;
use crate::text::{
    chars_of, decode_utf8_chars, encode_utf8_chars, int_decimal, is_str, join_from, join_with,
    nat_decimal, parse_hex_u8, parse_hex_u8_spec, push_all, push_str, split_whitespace, string_of,
    trim, trimmed, u64_decimal, words,
};
use crate::vfs::{NodeView, VFSManager};
use vstd::utf8::{decode_utf8, encode_utf8, valid_utf8};

verus! {

/// What the surroundings are asked to do after a command line.
pub enum ShellAction {
    /// Nothing more.
    Nothing,
    /// Power the system off.
    Shutdown,
    /// Open the named file in the full-screen editor.
    Edit(String),
    /// Run the named C source file.
    RunC(String),
    /// Clear the screen.
    ClearScreen,
    /// Execute the named native binary.
    RunBinary(String),
    /// Print the uptime in seconds.
    ShowUptime,
    /// Run these script lines one after another as command lines.
    RunScript(Vec<String>),
}

/// What a `ShellAction` stands for.
pub enum ActionView {
    Nothing,
    Shutdown,
    Edit(Seq<char>),
    RunC(Seq<char>),
    ClearScreen,
    RunBinary(Seq<char>),
    ShowUptime,
    RunScript(Seq<Seq<char>>),
}

/// The characters of each string.
pub open spec fn strings_view(v: Seq<String>) -> Seq<Seq<char>> {
    v.map_values(|s: String| s@)
}

impl View for ShellAction {
    type V = ActionView;

    open spec fn view(&self) -> ActionView {
        match self {
            ShellAction::Nothing => ActionView::Nothing,
            ShellAction::Shutdown => ActionView::Shutdown,
            ShellAction::Edit(f) => ActionView::Edit(f@),
            ShellAction::RunC(f) => ActionView::RunC(f@),
            ShellAction::ClearScreen => ActionView::ClearScreen,
            ShellAction::RunBinary(f) => ActionView::RunBinary(f@),
            ShellAction::ShowUptime => ActionView::ShowUptime,
            ShellAction::RunScript(lines) => ActionView::RunScript(strings_view(lines@)),
        }
    }
}

/// The result of a command line: the lines to print, in order, and what to do next.
pub struct CommandOutcome {
    pub output: Vec<String>,
    pub action: ShellAction,
}

/// What a command line does: the lines it prints, the action it asks for, and the
/// files afterwards.
pub struct LineEffect {
    pub output: Seq<Seq<char>>,
    pub action: ActionView,
    pub files: Map<Seq<char>, NodeView>,
}

/// An effect that leaves the files alone.
pub open spec fn plain(fs: VFSManager, output: Seq<Seq<char>>, action: ActionView) -> LineEffect {
    LineEffect { output, action, files: fs@ }
}

/// The text of the `help` command.
pub open spec fn help_lines() -> Seq<Seq<char>> {
    seq![
        "Teruic OS Shell Commands:"@,
        "  ls             - List files in Virtual File System"@,
        "  cat <file>     - Display contents of a file"@,
        "  write <file>   - Create a file"@,
        "  edit <file>    - Open file in TeruicPad full-screen editor"@,
        "  c_run <file>   - Execute a C program file"@,
        "  clear          - Clear terminal screen"@,
        "  info           - System hardware & kernel info"@,
        "  uptime         - System uptime in seconds"@,
        "  shutdown       - Power off the system safely"@,
        "  runbin <file>  - Execute native x86_64 assembly/C machine code binary"@,
    ]
}

/// The text of the `info` command.
pub open spec fn info_lines() -> Seq<Seq<char>> {
    seq!["Teruic Kernel v0.1.0 (x86_64 Bare-Metal)"@, "C Runtime & Shell: ACTIVE"@]
}

/// The index of the first word that is not a hexadecimal byte, if any.
pub open spec fn first_bad_hex(hex: Seq<Seq<char>>) -> Option<int>
    decreases hex.len(),
{
    if hex.len() == 0 {
        None
    } else {
        match first_bad_hex(hex.drop_last()) {
            Some(i) => Some(i),
            None => if parse_hex_u8_spec(hex.last()) is None {
                Some(hex.len() - 1)
            } else {
                None
            },
        }
    }
}

/// The bytes that the hexadecimal words stand for.
pub open spec fn hex_bytes(hex: Seq<Seq<char>>) -> Seq<u8> {
    hex.map_values(|h: Seq<char>| parse_hex_u8_spec(h)->0)
}

/// `hexwrite <file> <hex bytes...>`.
pub open spec fn hexwrite_effect(fs: VFSManager, args: Seq<Seq<char>>) -> LineEffect {
    if args.len() > 2 {
        let hex = args.skip(2);
        match first_bad_hex(hex) {
            Some(i) => plain(fs, seq!["Invalid hex byte: '"@ + hex[i] + "'"@], ActionView::Nothing),
            None => LineEffect {
                output: seq![
                    "Successfully wrote "@ + nat_decimal((args.len() - 2) as nat) + " bytes to '"@
                        + args[1] + "'"@,
                ],
                action: ActionView::Nothing,
                files: fs@.insert(args[1], NodeView::File(hex_bytes(hex))),
            },
        }
    } else {
        plain(
            fs,
            seq!["Usage: hexwrite <filename> <hex_bytes...>"@, "Example: hexwrite test.bin 90 90 c3"@],
            ActionView::Nothing,
        )
    }
}

/// The line that `cat` prints for a file of the given bytes.
pub open spec fn cat_text(bytes: Seq<u8>) -> Seq<char> {
    if valid_utf8(bytes) {
        decode_utf8(bytes)
    } else {
        "[Binary Data - "@ + nat_decimal(bytes.len()) + " bytes]"@
    }
}

/// The bytes of the file `name`, where there is such a file.
pub open spec fn file_bytes(fs: VFSManager, name: Seq<char>) -> Option<Seq<u8>> {
    if fs@.contains_key(name) && fs@[name] is File {
        Some(fs@[name]->File_0)
    } else {
        None
    }
}

/// `cat <file>`.
pub open spec fn cat_effect(fs: VFSManager, args: Seq<Seq<char>>) -> LineEffect {
    if args.len() > 1 {
        match file_bytes(fs, args[1]) {
            Some(b) => plain(fs, seq![cat_text(b)], ActionView::Nothing),
            None => plain(fs, seq!["File not found: '"@ + args[1] + "'"@], ActionView::Nothing),
        }
    } else {
        plain(fs, seq!["Usage: cat <filename>"@], ActionView::Nothing)
    }
}

/// `write <file> <words...>`: the words joined by single spaces.
pub open spec fn write_effect(fs: VFSManager, args: Seq<Seq<char>>) -> LineEffect {
    if args.len() > 2 {
        LineEffect {
            output: seq!["Saved to VFS file: '"@ + args[1] + "'"@],
            action: ActionView::Nothing,
            files: fs@.insert(args[1], NodeView::File(encode_utf8(join_with(args.skip(2), " "@)))),
        }
    } else {
        plain(fs, seq!["Usage: write <filename> <content>"@], ActionView::Nothing)
    }
}

/// `exec <script>`: the lines of a text file, to be run one after another.
pub open spec fn exec_effect(fs: VFSManager, args: Seq<Seq<char>>) -> LineEffect {
    if args.len() > 1 {
        match file_bytes(fs, args[1]) {
            Some(b) => if valid_utf8(b) {
                plain(fs, seq![], ActionView::RunScript(crate::text::lines_of(decode_utf8(b), '\n', '\r')))
            } else {
                plain(fs, seq!["Not a text script: '"@ + args[1] + "'"@], ActionView::Nothing)
            },
            None => plain(fs, seq!["File not found: '"@ + args[1] + "'"@], ActionView::Nothing),
        }
    } else {
        plain(fs, seq!["Usage: exec <script.sh>"@], ActionView::Nothing)
    }
}

/// `ls`: the names in the root directory, in order.
pub open spec fn ls_lines(fs: VFSManager) -> Seq<Seq<char>> {
    seq!["VFS Directory Listing:"@] + fs.names().map_values(|n: Seq<char>| "  "@ + n)
}

/// The effect of a command given as its words (`args[0]` is the command).
pub open spec fn command_effect(fs: VFSManager, args: Seq<Seq<char>>) -> LineEffect {
    let cmd = args[0];
    if cmd == "help"@ {
        plain(fs, help_lines(), ActionView::Nothing)
    } else if cmd == "shutdown"@ {
        plain(fs, seq![], ActionView::Shutdown)
    } else if cmd == "edit"@ {
        if args.len() > 1 {
            plain(fs, seq![], ActionView::Edit(args[1]))
        } else {
            plain(fs, seq!["Usage: edit <filename>"@], ActionView::Nothing)
        }
    } else if cmd == "hexwrite"@ {
        hexwrite_effect(fs, args)
    } else if cmd == "c_run"@ {
        if args.len() > 1 {
            plain(fs, seq![], ActionView::RunC(args[1]))
        } else {
            plain(fs, seq!["Usage: c_run <filename>"@], ActionView::Nothing)
        }
    } else if cmd == "ls"@ {
        plain(fs, ls_lines(fs), ActionView::Nothing)
    } else if cmd == "cat"@ {
        cat_effect(fs, args)
    } else if cmd == "write"@ {
        write_effect(fs, args)
    } else if cmd == "exec"@ {
        exec_effect(fs, args)
    } else if cmd == "clear"@ {
        plain(fs, seq![], ActionView::ClearScreen)
    } else if cmd == "info"@ {
        plain(fs, info_lines(), ActionView::Nothing)
    } else if cmd == "runbin"@ {
        if args.len() > 1 {
            plain(fs, seq![], ActionView::RunBinary(args[1]))
        } else {
            plain(fs, seq!["Usage: runbin <binary_filename>"@], ActionView::Nothing)
        }
    } else if cmd == "uptime"@ {
        plain(fs, seq![], ActionView::ShowUptime)
    } else {
        plain(fs, seq!["Unknown command: '"@ + cmd + "'. Type 'help' for commands."@], ActionView::Nothing)
    }
}

/// The effect of a command line: blank lines and `#` comments do nothing; otherwise
/// the line is split into whitespace-separated words and run as a command.
pub open spec fn line_effect(fs: VFSManager, line: Seq<char>) -> LineEffect {
    let t = trim(line);
    let args = words(t);
    if t.len() == 0 || t[0] == '#' || args.len() == 0 {
        plain(fs, seq![], ActionView::Nothing)
    } else {
        command_effect(fs, args)
    }
}

/// The `String` of a string literal.
fn lit(s: &str) -> (r: String)
    ensures
        r@ == s@,
{
    s.to_owned()
}

/// `pre`, then `x`, then `post`.
fn quoted(pre: &str, x: &Vec<char>, post: &str) -> (r: String)
    ensures
        r@ == pre@ + x@ + post@,
{
    let mut v: Vec<char> = Vec::new();
    push_str(&mut v, pre);
    push_all(&mut v, x);
    push_str(&mut v, post);
    assert(v@ =~= pre@ + x@ + post@);
    string_of(&v)
}

/// `pre`, then `x`.
fn prefixed(pre: &str, x: &Vec<char>) -> (r: String)
    ensures
        r@ == pre@ + x@,
{
    let mut v: Vec<char> = Vec::new();
    push_str(&mut v, pre);
    push_all(&mut v, x);
    assert(v@ =~= pre@ + x@);
    string_of(&v)
}

/// Outcome of a command that prints `output` and asks for nothing more.
fn printed(output: Vec<String>) -> (r: CommandOutcome)
    ensures
        r.output@ == output@,
        r.action@ == ActionView::Nothing,
{
    CommandOutcome { output, action: ShellAction::Nothing }
}

/// Outcome of a command that prints the one line `line`.
fn printed_line(line: String) -> (r: CommandOutcome)
    ensures
        strings_view(r.output@) == seq![line@],
        r.action@ == ActionView::Nothing,
{
    let mut v: Vec<String> = Vec::new();
    v.push(line);
    assert(strings_view(v@) =~= seq![line@]);
    printed(v)
}

/// Outcome of a command that prints nothing and asks for `action`.
fn silent(action: ShellAction) -> (r: CommandOutcome)
    ensures
        strings_view(r.output@) == Seq::<Seq<char>>::empty(),
        r.action == action,
{
    let r = CommandOutcome { output: Vec::new(), action };
    assert(strings_view(r.output@) =~= Seq::<Seq<char>>::empty());
    r
}

/// Lines of text as `String`s.
fn strings_of(v: &Vec<Vec<char>>) -> (r: Vec<String>)
    ensures
        strings_view(r@) == v.deep_view(),
{
    let mut r: Vec<String> = Vec::new();
    let mut i: usize = 0;
    while i < v.len()
        invariant
            i <= v.len(),
            strings_view(r@) == v.deep_view().take(i as int),
        decreases v.len() - i,
    {
        let s = string_of(&v[i]);
        assert(v.deep_view()[i as int] =~= v@[i as int]@);
        let ghost old_r = r@;
        r.push(s);
        assert(strings_view(r@) =~= strings_view(old_r).push(s@));
        assert(v.deep_view().take(i + 1) =~= v.deep_view().take(i as int).push(v.deep_view()[i as int]));
        i += 1;
        assert(strings_view(r@) =~= v.deep_view().take(i as int));
    }
    assert(v.deep_view().take(v.len() as int) =~= v.deep_view());
    r
}

fn help_text() -> (r: Vec<String>)
    ensures
        strings_view(r@) == help_lines(),
{
    let mut r: Vec<String> = Vec::new();
    r.push(lit("Teruic OS Shell Commands:"));
    r.push(lit("  ls             - List files in Virtual File System"));
    r.push(lit("  cat <file>     - Display contents of a file"));
    r.push(lit("  write <file>   - Create a file"));
    r.push(lit("  edit <file>    - Open file in TeruicPad full-screen editor"));
    r.push(lit("  c_run <file>   - Execute a C program file"));
    r.push(lit("  clear          - Clear terminal screen"));
    r.push(lit("  info           - System hardware & kernel info"));
    r.push(lit("  uptime         - System uptime in seconds"));
    r.push(lit("  shutdown       - Power off the system safely"));
    r.push(lit("  runbin <file>  - Execute native x86_64 assembly/C machine code binary"));
    assert(strings_view(r@) =~= help_lines());
    r
}

fn info_text() -> (r: Vec<String>)
    ensures
        strings_view(r@) == info_lines(),
{
    let mut r: Vec<String> = Vec::new();
    r.push(lit("Teruic Kernel v0.1.0 (x86_64 Bare-Metal)"));
    r.push(lit("C Runtime & Shell: ACTIVE"));
    assert(strings_view(r@) =~= info_lines());
    r
}

/// The outcome satisfies the effect `e`, given the files afterwards.
pub open spec fn meets(r: CommandOutcome, e: LineEffect, files: Map<Seq<char>, NodeView>) -> bool {
    &&& strings_view(r.output@) == e.output
    &&& r.action@ == e.action
    &&& files == e.files
}

fn ls_command(fs: &VFSManager) -> (r: CommandOutcome)
    requires
        fs.wf(),
    ensures
        strings_view(r.output@) == ls_lines(*fs),
        r.action@ == ActionView::Nothing,
{
    let names = fs.list();
    let mut out: Vec<String> = Vec::new();
    out.push(lit("VFS Directory Listing:"));
    let mut i: usize = 0;
    while i < names.len()
        invariant
            i <= names@.len(),
            names@.len() == fs.names().len(),
            forall|j: int| 0 <= j < names@.len() ==> #[trigger] names@[j]@ == fs.names()[j],
            strings_view(out@) == seq!["VFS Directory Listing:"@] + fs.names().take(i as int).map_values(|n: Seq<char>| "  "@ + n),
        decreases names.len() - i,
    {
        let n = chars_of(names[i].as_str());
        let ghost old_out = out@;
        let line = prefixed("  ", &n);
        out.push(line);
        assert(strings_view(out@) =~= strings_view(old_out).push(line@));
        assert(fs.names().take(i + 1) =~= fs.names().take(i as int).push(fs.names()[i as int]));
        i += 1;
        assert(strings_view(out@) =~= seq!["VFS Directory Listing:"@] + fs.names().take(i as int).map_values(|n: Seq<char>| "  "@ + n));
    }
    assert(fs.names().take(names.len() as int) =~= fs.names());
    printed(out)
}

fn hexwrite_command(fs: &mut VFSManager, args: &Vec<Vec<char>>) -> (r: CommandOutcome)
    requires
        old(fs).wf(),
        args@.len() > 0,
    ensures
        final(fs).wf(),
        meets(r, hexwrite_effect(*old(fs), args.deep_view()), final(fs)@),
{
    let ghost a = args.deep_view();
    if args.len() <= 2 {
        let mut out: Vec<String> = Vec::new();
        out.push(lit("Usage: hexwrite <filename> <hex_bytes...>"));
        out.push(lit("Example: hexwrite test.bin 90 90 c3"));
        assert(strings_view(out@) =~= hexwrite_effect(*fs, a).output);
        return printed(out);
    }
    assert(a[1] =~= args[1]@);
    let ghost hex = a.skip(2);
    let mut bytes: Vec<u8> = Vec::new();
    let mut k: usize = 2;
    while k < args.len()
        invariant
            2 <= k <= args@.len(),
            a == args.deep_view(),
            *fs == *old(fs),
            fs.wf(),
            hex == a.skip(2),
            first_bad_hex(hex.take(k - 2)) is None,
            bytes@ == hex_bytes(hex.take(k - 2)),
        decreases args.len() - k,
    {
        assert(hex.take(k + 1 - 2).drop_last() =~= hex.take(k - 2));
        assert(hex[k - 2] =~= args[k as int]@);
        match parse_hex_u8(&args[k]) {
            Some(b) => {
                bytes.push(b);
                assert(bytes@ =~= hex_bytes(hex.take(k + 1 - 2)));
            },
            None => {
                proof {
                    assert(first_bad_hex(hex.take(k + 1 - 2)) == Some((k - 2) as int));
                    assert forall|n: int| (k - 2) < n <= hex.len() implies first_bad_hex(hex.take(n)) == Some((k - 2) as int) by {
                        lemma_first_bad_hex_extends(hex, (k - 2) as int, n);
                    }
                    assert(hex.take(hex.len() as int) =~= hex);
                }
                return printed_line(quoted("Invalid hex byte: '", &args[k], "'"));
            },
        }
        k += 1;
    }
    assert(hex.take(args.len() - 2) =~= hex);
    let name = string_of(&args[1]);
    let count = u64_decimal((args.len() - 2) as u64);
    let mut msg: Vec<char> = Vec::new();
    push_str(&mut msg, "Successfully wrote ");
    push_all(&mut msg, &count);
    push_str(&mut msg, " bytes to '");
    push_all(&mut msg, &args[1]);
    push_str(&mut msg, "'");
    fs.write_file(name.as_str(), bytes);
    assert(msg@ =~= hexwrite_effect(*old(fs), a).output[0]);
    printed_line(string_of(&msg))
}

/// Once a bad word is found, a longer prefix finds the same one.
proof fn lemma_first_bad_hex_extends(hex: Seq<Seq<char>>, i: int, n: int)
    requires
        0 <= i < n <= hex.len(),
        first_bad_hex(hex.take(i + 1)) == Some(i),
    ensures
        first_bad_hex(hex.take(n)) == Some(i),
    decreases n,
{
    if n > i + 1 {
        lemma_first_bad_hex_extends(hex, i, n - 1);
        assert(hex.take(n).drop_last() =~= hex.take(n - 1));
    }
}

fn cat_command(fs: &VFSManager, args: &Vec<Vec<char>>) -> (r: CommandOutcome)
    requires
        fs.wf(),
        args@.len() > 0,
    ensures
        meets(r, cat_effect(*fs, args.deep_view()), fs@),
{
    let ghost a = args.deep_view();
    if args.len() <= 1 {
        return printed_line(lit("Usage: cat <filename>"));
    }
    assert(a[1] =~= args[1]@);
    let name = string_of(&args[1]);
    match fs.read_file(name.as_str()) {
        Some(bytes) => {
            match decode_utf8_chars(&bytes) {
                Some(text) => printed_line(string_of(&text)),
                None => {
                    let count = u64_decimal(bytes.len() as u64);
                    printed_line(quoted("[Binary Data - ", &count, " bytes]"))
                },
            }
        },
        None => printed_line(quoted("File not found: '", &args[1], "'")),
    }
}

fn write_command(fs: &mut VFSManager, args: &Vec<Vec<char>>) -> (r: CommandOutcome)
    requires
        old(fs).wf(),
        args@.len() > 0,
    ensures
        final(fs).wf(),
        meets(r, write_effect(*old(fs), args.deep_view()), final(fs)@),
{
    let ghost a = args.deep_view();
    if args.len() <= 2 {
        return printed_line(lit("Usage: write <filename> <content>"));
    }
    assert(a[1] =~= args[1]@);
    let sep = chars_of(" ");
    let content = join_from(args, 2, &sep);
    let bytes = encode_utf8_chars(&content);
    let name = string_of(&args[1]);
    fs.write_file(name.as_str(), bytes);
    printed_line(quoted("Saved to VFS file: '", &args[1], "'"))
}

fn exec_command(fs: &VFSManager, args: &Vec<Vec<char>>) -> (r: CommandOutcome)
    requires
        fs.wf(),
        args@.len() > 0,
    ensures
        meets(r, exec_effect(*fs, args.deep_view()), fs@),
{
    let ghost a = args.deep_view();
    if args.len() <= 1 {
        return printed_line(lit("Usage: exec <script.sh>"));
    }
    assert(a[1] =~= args[1]@);
    let name = string_of(&args[1]);
    match fs.read_file(name.as_str()) {
        Some(bytes) => {
            match decode_utf8_chars(&bytes) {
                Some(text) => {
                    let ls = crate::text::lines(&text);
                    silent(ShellAction::RunScript(strings_of(&ls)))
                },
                None => printed_line(quoted("Not a text script: '", &args[1], "'")),
            }
        },
        None => printed_line(quoted("File not found: '", &args[1], "'")),
    }
}

/// Runs a command given as its words.
fn run_command(fs: &mut VFSManager, args: &Vec<Vec<char>>) -> (r: CommandOutcome)
    requires
        old(fs).wf(),
        args@.len() > 0,
    ensures
        final(fs).wf(),
        meets(r, command_effect(*old(fs), args.deep_view()), final(fs)@),
{
    let ghost a = args.deep_view();
    let cmd = &args[0];
    assert(a[0] =~= cmd@);
    assert(args.len() > 1 ==> a[1] =~= args[1]@);
    if is_str(cmd, "help") {
        printed(help_text())
    } else if is_str(cmd, "shutdown") {
        silent(ShellAction::Shutdown)
    } else if is_str(cmd, "edit") {
        if args.len() > 1 {
            silent(ShellAction::Edit(string_of(&args[1])))
        } else {
            printed_line(lit("Usage: edit <filename>"))
        }
    } else if is_str(cmd, "hexwrite") {
        hexwrite_command(fs, args)
    } else if is_str(cmd, "c_run") {
        if args.len() > 1 {
            silent(ShellAction::RunC(string_of(&args[1])))
        } else {
            printed_line(lit("Usage: c_run <filename>"))
        }
    } else if is_str(cmd, "ls") {
        ls_command(fs)
    } else if is_str(cmd, "cat") {
        cat_command(fs, args)
    } else if is_str(cmd, "write") {
        write_command(fs, args)
    } else if is_str(cmd, "exec") {
        exec_command(fs, args)
    } else if is_str(cmd, "clear") {
        silent(ShellAction::ClearScreen)
    } else if is_str(cmd, "info") {
        printed(info_text())
    } else if is_str(cmd, "runbin") {
        if args.len() > 1 {
            silent(ShellAction::RunBinary(string_of(&args[1])))
        } else {
            printed_line(lit("Usage: runbin <binary_filename>"))
        }
    } else if is_str(cmd, "uptime") {
        silent(ShellAction::ShowUptime)
    } else {
        printed_line(quoted("Unknown command: '", cmd, "'. Type 'help' for commands."))
    }
}

/// What a key press did to the shell.
pub enum KeyOutcome {
    /// Enter: the line was submitted; `None` for a blank line, else what running it gave.
    Submitted(Option<CommandOutcome>),
    /// Backspace removed the last character (the screen erases it).
    Erased,
    /// A printable character was added (the screen echoes it).
    Echoed(char),
    /// Nothing happened.
    Ignored,
}

/// The line that `uptime` prints for a system up `secs` seconds.
pub open spec fn uptime_line(secs: nat) -> Seq<char> {
    "System Uptime: "@ + crate::text::nat_decimal(secs) + " seconds"@
}

/// The line that `uptime` prints, given the seconds since boot.
pub fn uptime_message(secs: u64) -> (r: String)
    ensures
        r@ == uptime_line(secs as nat),
{
    let mut v: Vec<char> = Vec::new();
    push_str(&mut v, "System Uptime: ");
    let n = crate::text::u64_decimal(secs);
    push_all(&mut v, &n);
    push_str(&mut v, " seconds");
    string_of(&v)
}

/// The line being typed after a key other than Enter: Backspace or Delete removes the
/// last character, a printable ASCII character is added, any other key changes nothing.
pub open spec fn typed(line: Seq<char>, c: char) -> Seq<char> {
    if c == '\x08' || c == '\x7f' {
        if line.len() > 0 { line.drop_last() } else { line }
    } else if ' ' <= c <= '~' {
        line.push(c)
    } else {
        line
    }
}

/// The interactive shell: the line being typed and the lines entered so far.
pub struct Shell {
    buffer: Vec<char>,
    history: Vec<String>,
}

impl Shell {
    /// The line being typed.
    pub closed spec fn buffer(&self) -> Seq<char> {
        self.buffer@
    }

    /// The non-blank lines entered so far, oldest first.
    pub closed spec fn history(&self) -> Seq<Seq<char>> {
        strings_view(self.history@)
    }

    /// A shell with an empty line and no history.
    pub fn new() -> (r: Self)
        ensures
            r.buffer() == Seq::<char>::empty(),
            r.history() == Seq::<Seq<char>>::empty(),
    {
        let r = Shell { buffer: Vec::new(), history: Vec::new() };
        assert(r.history() =~= Seq::<Seq<char>>::empty());
        r
    }

    /// Runs one command line against the file system: blank lines and lines starting
    /// with `#` do nothing; otherwise the first word names the command.
    pub fn run_line(&self, fs: &mut VFSManager, line: &str) -> (r: CommandOutcome)
        requires
            old(fs).wf(),
        ensures
            final(fs).wf(),
            meets(r, line_effect(*old(fs), line@), final(fs)@),
    {
        let chars = chars_of(line);
        let t = trimmed(&chars);
        if t.len() == 0 || t[0] == '#' {
            return silent(ShellAction::Nothing);
        }
        let args = split_whitespace(&t);
        if args.len() == 0 {
            return silent(ShellAction::Nothing);
        }
        run_command(fs, &args)
    }

    /// The line being typed.
    pub fn current_line(&self) -> (r: String)
        ensures
            r@ == self.buffer(),
    {
        string_of(&self.buffer)
    }

    /// The number of lines entered so far.
    pub fn history_len(&self) -> (r: usize)
        ensures
            r == self.history().len(),
    {
        self.history.len()
    }

    /// Records the typed line in the history and runs it; `None` for a blank line.
    fn execute_command(&mut self, fs: &mut VFSManager) -> (r: Option<CommandOutcome>)
        requires
            old(fs).wf(),
        ensures
            final(fs).wf(),
            final(self).buffer() == old(self).buffer(),
            trim(old(self).buffer()).len() == 0 ==> r is None && final(self).history() == old(self).history()
                && final(fs)@ == old(fs)@,
            trim(old(self).buffer()).len() != 0 ==> final(self).history() == old(self).history().push(old(self).buffer())
                && (r matches Some(o) && meets(o, line_effect(*old(fs), old(self).buffer()), final(fs)@)),
    {
        let t = trimmed(&self.buffer);
        if t.len() == 0 {
            return None;
        }
        let line = string_of(&self.buffer);
        let ghost old_h = self.history@;
        self.history.push(string_of(&self.buffer));
        assert(strings_view(self.history@) =~= strings_view(old_h).push(line@));
        Some(self.run_line(fs, line.as_str()))
    }

    /// Handles one key typed at the prompt: Enter submits the line (and empties it),
    /// Backspace or Delete removes the last character, a printable ASCII character is
    /// added, and any other key is ignored.
    pub fn handle_key(&mut self, fs: &mut VFSManager, c: char) -> (r: KeyOutcome)
        requires
            old(fs).wf(),
        ensures
            final(fs).wf(),
            c == '\n' || c == '\r' ==> {
                &&& final(self).buffer() == Seq::<char>::empty()
                &&& trim(old(self).buffer()).len() == 0 ==> (r matches KeyOutcome::Submitted(None))
                    && final(self).history() == old(self).history() && final(fs)@ == old(fs)@
                &&& trim(old(self).buffer()).len() != 0 ==> final(self).history() == old(self).history().push(old(self).buffer())
                    && (r matches KeyOutcome::Submitted(Some(o))
                    && meets(o, line_effect(*old(fs), old(self).buffer()), final(fs)@))
            },
            c != '\n' && c != '\r' ==> final(self).buffer() == typed(old(self).buffer(), c),
            c == '\x08' || c == '\x7f' ==> final(self).history() == old(self).history() && final(fs)@ == old(fs)@
                && if old(self).buffer().len() > 0 {
                    final(self).buffer() == old(self).buffer().drop_last() && r is Erased
                } else {
                    final(self).buffer() == old(self).buffer() && r is Ignored
                },
            c != '\n' && c != '\r' && c != '\x08' && c != '\x7f' ==> final(self).history() == old(self).history()
                && final(fs)@ == old(fs)@
                && if ' ' <= c <= '~' {
                    final(self).buffer() == old(self).buffer().push(c) && r == KeyOutcome::Echoed(c)
                } else {
                    final(self).buffer() == old(self).buffer() && r is Ignored
                },
    {
        if c == '\n' || c == '\r' {
            let o = self.execute_command(fs);
            self.buffer.clear();
            KeyOutcome::Submitted(o)
        } else if c == '\x08' || c == '\x7f' {
            match self.buffer.pop() {
                Some(_) => KeyOutcome::Erased,
                None => KeyOutcome::Ignored,
            }
        } else if ' ' <= c && c <= '~' {
            self.buffer.push(c);
            KeyOutcome::Echoed(c)
        } else {
            KeyOutcome::Ignored
        }
    }
}

} // verus!

verus! {

/// `cat` prints back exactly the words that `write` stored, joined by single spaces.
pub proof fn law_cat_after_write(before: VFSManager, after: VFSManager, name: Seq<char>, content: Seq<Seq<char>>)
    requires
        content.len() > 0,
        after@ == write_effect(before, seq!["write"@, name] + content).files,
    ensures
        cat_effect(after, seq!["cat"@, name]).output == seq![join_with(content, " "@)],
{
    let args = seq!["write"@, name] + content;
    assert(args[1] == name);
    assert(args.skip(2) =~= content);
    let text = join_with(content, " "@);
    vstd::utf8::encode_utf8_valid_utf8(text);
    vstd::utf8::encode_utf8_decode_utf8(text);
    assert(seq!["cat"@, name][1] == name);
}

/// After `hexwrite`, the file holds exactly the bytes that were written in hexadecimal.
pub proof fn law_hexwrite_stores_bytes(before: VFSManager, name: Seq<char>, hex: Seq<Seq<char>>)
    requires
        hex.len() > 0,
        forall|i: int| 0 <= i < hex.len() ==> #[trigger] parse_hex_u8_spec(hex[i]) is Some,
    ensures
        ({
            let e = hexwrite_effect(before, seq!["hexwrite"@, name] + hex);
            &&& e.files.contains_key(name)
            &&& e.files[name] == NodeView::File(hex_bytes(hex))
            &&& forall|i: int| 0 <= i < hex.len() ==> #[trigger] hex_bytes(hex)[i] == parse_hex_u8_spec(hex[i])->0
        }),
{
    let args = seq!["hexwrite"@, name] + hex;
    assert(args.skip(2) =~= hex);
    assert(args[1] == name);
    lemma_no_bad_hex(hex, hex.len() as int);
    assert(hex.take(hex.len() as int) =~= hex);
}

proof fn lemma_no_bad_hex(hex: Seq<Seq<char>>, n: int)
    requires
        0 <= n <= hex.len(),
        forall|i: int| 0 <= i < hex.len() ==> #[trigger] parse_hex_u8_spec(hex[i]) is Some,
    ensures
        first_bad_hex(hex.take(n)) is None,
    decreases n,
{
    if n > 0 {
        lemma_no_bad_hex(hex, n - 1);
        assert(hex.take(n).drop_last() =~= hex.take(n - 1));
        assert(hex.take(n).last() == hex[n - 1]);
    }
}

/// Blank lines and `#` comment lines print nothing, ask for nothing and change no file.
pub proof fn law_comments_do_nothing(fs: VFSManager, line: Seq<char>)
    requires
        trim(line).len() == 0 || trim(line)[0] == '#',
    ensures
        line_effect(fs, line) == plain(fs, seq![], ActionView::Nothing),
{
}

/// Commands other than `write` and `hexwrite` leave the files as they were.
pub proof fn law_only_writes_change_files(fs: VFSManager, line: Seq<char>)
    requires
        words(trim(line)).len() == 0 || (words(trim(line))[0] != "write"@ && words(trim(line))[0] != "hexwrite"@),
    ensures
        line_effect(fs, line).files == fs@,
{
}

/// Typing a printable character and then Backspace (or Delete) leaves the line being
/// typed as it was.
pub proof fn law_backspace_undoes_typing(line: Seq<char>, c: char, erase: char)
    requires
        ' ' <= c <= '~',
        erase == '\x08' || erase == '\x7f',
    ensures
        typed(typed(line, c), erase) == line,
{
    assert(line.push(c).drop_last() =~= line);
}

} // verus!
