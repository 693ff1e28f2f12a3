use teruic::loader::{BinaryLoad, NativeLoader};
use teruic::vfs::VFSManager;

#[test]
fn load_binary_announces_its_size() {
    let mut fs = VFSManager::new();
    fs.write_file("test.bin", vec![0x90, 0x90, 0xC3]);
    match NativeLoader::load_binary(&fs, "test.bin") {
        BinaryLoad::Ready(code, line) => {
            assert_eq!(code, vec![0x90, 0x90, 0xC3]);
            assert_eq!(line, "[NativeLoader] Executing raw binary slice (3 bytes)...");
        }
        BinaryLoad::Missing(_) => panic!("expected the binary"),
    }
}

#[test]
fn load_binary_reports_a_missing_file() {
    let fs = VFSManager::new();
    match NativeLoader::load_binary(&fs, "nope.bin") {
        BinaryLoad::Missing(m) => assert_eq!(m, "[NativeLoader] Error: Binary file 'nope.bin' not found."),
        BinaryLoad::Ready(..) => panic!("expected an error"),
    }
}

#[test]
fn finished_report_counts_cycles_saturating() {
    assert_eq!(NativeLoader::finished_report(100, 1334), "[NativeLoader] Execution finished in 1234 CPU cycles.");
    assert_eq!(NativeLoader::finished_report(50, 10), "[NativeLoader] Execution finished in 0 CPU cycles.");
}
