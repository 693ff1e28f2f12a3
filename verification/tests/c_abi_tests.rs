use teruic::c_abi::{c_str_text, teruic_read_file};
use teruic::vfs::VFSManager;

fn fs() -> VFSManager {
    let mut fs = VFSManager::new();
    fs.init();
    fs
}

#[test]
fn read_copies_whole_small_file() {
    let r = teruic_read_file(&fs(), &b"hello.txt".to_vec(), 256);
    assert_eq!(r.status, 33);
    assert_eq!(r.bytes, b"Welcome to Teruic OS File System!".to_vec());
}

#[test]
fn read_stops_at_buffer_size() {
    let r = teruic_read_file(&fs(), &b"hello.txt".to_vec(), 7);
    assert_eq!(r.status, 7);
    assert_eq!(r.bytes, b"Welcome".to_vec());
}

#[test]
fn read_of_missing_file_is_minus_one() {
    let r = teruic_read_file(&fs(), &b"missing".to_vec(), 10);
    assert_eq!(r.status, -1);
    assert!(r.bytes.is_empty());
    let r = teruic_read_file(&fs(), &b"bin".to_vec(), 10);
    assert_eq!(r.status, -1);
}

#[test]
fn read_with_invalid_name_is_minus_one() {
    let r = teruic_read_file(&fs(), &vec![0xff, 0xfe], 10);
    assert_eq!(r.status, -1);
    assert!(r.bytes.is_empty());
}

#[test]
fn c_string_printed_only_when_utf8() {
    assert_eq!(c_str_text(&"héllo".as_bytes().to_vec()), Some("héllo".to_string()));
    assert_eq!(c_str_text(&vec![]), Some(String::new()));
    assert_eq!(c_str_text(&vec![0x68, 0xff]), None);
}
