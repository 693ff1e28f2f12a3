//! The native binary loader: finds a binary in the file system and reports on its run.
//! Jumping into the machine code and reading the time-stamp counter are the kernel's.
use vstd::prelude::*;
use crate::text::{chars_of, nat_decimal, push_all, push_str, string_of, u64_decimal};
use crate::vfs::VFSManager;

verus! {

/// The line printed before a binary of `n` bytes is run.
pub open spec fn loading_line(n: nat) -> Seq<char> {
    "[NativeLoader] Executing raw binary slice ("@ + nat_decimal(n) + " bytes)..."@
}

/// The line printed after a run that took `cycles` cycles.
pub open spec fn finished_line(cycles: nat) -> Seq<char> {
    "[NativeLoader] Execution finished in "@ + nat_decimal(cycles) + " CPU cycles."@
}

/// The line printed when there is no such binary.
pub open spec fn missing_line(name: Seq<char>) -> Seq<char> {
    "[NativeLoader] Error: Binary file '"@ + name + "' not found."@
}

/// What the loader found for a file name.
pub enum BinaryLoad {
    /// No file of that name: the message to print.
    Missing(String),
    /// The code to run and the line to print before running it.
    Ready(Vec<u8>, String),
}

/// The loader of raw machine-code binaries.
pub struct NativeLoader;

impl NativeLoader {
    /// Looks up the binary `filename`: its bytes and the announcement of its size, or the
    /// error message where there is no such file.
    pub fn load_binary(fs: &VFSManager, filename: &str) -> (r: BinaryLoad)
        requires
            fs.wf(),
        ensures
            match crate::shell::file_bytes(*fs, filename@) {
                Some(b) => r matches BinaryLoad::Ready(code, line) && code@ == b && line@ == loading_line(b.len()),
                None => r matches BinaryLoad::Missing(m) && m@ == missing_line(filename@),
            },
    {
        match fs.read_file(filename) {
            Some(bytes) => {
                let mut v: Vec<char> = Vec::new();
                push_str(&mut v, "[NativeLoader] Executing raw binary slice (");
                let n = u64_decimal(bytes.len() as u64);
                push_all(&mut v, &n);
                push_str(&mut v, " bytes)...");
                BinaryLoad::Ready(bytes, string_of(&v))
            },
            None => {
                let mut v: Vec<char> = Vec::new();
                push_str(&mut v, "[NativeLoader] Error: Binary file '");
                let name = chars_of(filename);
                push_all(&mut v, &name);
                push_str(&mut v, "' not found.");
                BinaryLoad::Missing(string_of(&v))
            },
        }
    }

    /// The report after a run, from the time-stamp counter read before and after it
    /// (the difference saturates at 0).
    pub fn finished_report(start_tsc: u64, end_tsc: u64) -> (r: String)
        ensures
            r@ == finished_line(if end_tsc >= start_tsc { (end_tsc - start_tsc) as nat } else { 0 }),
    {
        let cycles = end_tsc.saturating_sub(start_tsc);
        let mut v: Vec<char> = Vec::new();
        push_str(&mut v, "[NativeLoader] Execution finished in ");
        let n = u64_decimal(cycles);
        push_all(&mut v, &n);
        push_str(&mut v, " CPU cycles.");
        string_of(&v)
    }
}

} // verus!
