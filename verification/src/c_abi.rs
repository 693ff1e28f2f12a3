//! The file-reading service offered to C programs: the decisions behind the C
//! entry point, on plain values (the entry point itself handles the raw pointers).
use vstd::prelude::*;
use crate::text::{copy_range, decode_utf8_chars, string_of};
use vstd::utf8::{decode_utf8, valid_utf8};
use crate::vfs::VFSManager;

verus! {

/// What a C program's file read gives: the status returned to C (the number of bytes
/// copied, or -1) and the bytes to copy into its buffer.
pub struct CRead {
    pub status: i32,
    pub bytes: Vec<u8>,
}

/// Reads the file whose UTF-8 name is `name` for a C caller with a buffer of `max_len`
/// bytes: the first `min(len, max_len)` bytes of the file, with that count (as an
/// `i32`) as status; -1 and nothing where the name is not UTF-8 or there is no such file.
pub fn teruic_read_file(fs: &VFSManager, name: &Vec<u8>, max_len: usize) -> (r: CRead)
    requires
        fs.wf(),
    ensures
        ({
            let found = if vstd::utf8::valid_utf8(name@) {
                crate::shell::file_bytes(*fs, vstd::utf8::decode_utf8(name@))
            } else {
                None
            };
            match found {
                Some(b) => {
                    let n = if b.len() < max_len { b.len() as int } else { max_len as int };
                    r.bytes@ == b.take(n) && r.status == n as i32
                },
                None => r.status == -1 && r.bytes@ == Seq::<u8>::empty(),
            }
        }),
{
    match decode_utf8_chars(name) {
        Some(chars) => {
            let s = string_of(&chars);
            match fs.read_file(s.as_str()) {
                Some(bytes) => {
                    let n = if bytes.len() < max_len { bytes.len() } else { max_len };
                    CRead { status: n as i32, bytes: copy_range(&bytes, 0, n) }
                },
                None => CRead { status: -1, bytes: Vec::new() },
            }
        },
        None => CRead { status: -1, bytes: Vec::new() },
    }
}

/// The text that printing a C string shows: the string's bytes (up to, not including,
/// its NUL) as text where they are UTF-8, and nothing otherwise.
pub fn c_str_text(bytes: &Vec<u8>) -> (r: Option<String>)
    ensures
        r is Some <==> valid_utf8(bytes@),
        r matches Some(t) ==> t@ == decode_utf8(bytes@),
{
    match decode_utf8_chars(bytes) {
        Some(chars) => Some(string_of(&chars)),
        None => None,
    }
}

} // verus!
