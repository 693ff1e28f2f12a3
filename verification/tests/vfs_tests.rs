use teruic::vfs::VFSManager;

fn names(fs: &VFSManager) -> Vec<String> {
    fs.list()
}

#[test]
fn init_preloads_samples_in_name_order() {
    let mut fs = VFSManager::new();
    fs.init();
    assert_eq!(
        names(&fs),
        vec!["Main.java", "apps", "bin", "demo.sh", "hello.txt", "main.c"]
    );
    assert_eq!(
        fs.read_file("hello.txt").unwrap(),
        b"Welcome to Teruic OS File System!".to_vec()
    );
    assert_eq!(
        fs.read_file("demo.sh").unwrap(),
        b"# Teruic OS Automation Script\ninfo\nuptime\n".to_vec()
    );
}

#[test]
fn read_after_write_gives_the_bytes() {
    let mut fs = VFSManager::new();
    fs.write_file("a.txt", vec![1, 2, 3]);
    assert_eq!(fs.read_file("a.txt"), Some(vec![1, 2, 3]));
    fs.write_file("a.txt", vec![9]);
    assert_eq!(fs.read_file("a.txt"), Some(vec![9]));
    assert_eq!(fs.list(), vec!["a.txt"]);
}

#[test]
fn write_keeps_other_files() {
    let mut fs = VFSManager::new();
    fs.write_file("b", vec![2]);
    fs.write_file("a", vec![1]);
    fs.write_file("c", vec![3]);
    assert_eq!(fs.read_file("b"), Some(vec![2]));
    assert_eq!(fs.read_file("a"), Some(vec![1]));
    assert_eq!(fs.list(), vec!["a", "b", "c"]);
}

#[test]
fn read_of_missing_or_directory_is_none() {
    let mut fs = VFSManager::new();
    fs.init();
    assert_eq!(fs.read_file("nothing"), None);
    assert_eq!(fs.read_file("bin"), None);
}

#[test]
fn remove_file_only_removes_files() {
    let mut fs = VFSManager::new();
    fs.init();
    assert!(fs.remove_file("main.c"));
    assert_eq!(fs.read_file("main.c"), None);
    assert!(!fs.remove_file("main.c"));
    assert!(!fs.remove_file("apps"));
    assert_eq!(fs.list(), vec!["Main.java", "apps", "bin", "demo.sh", "hello.txt"]);
}

#[test]
fn names_order_by_code_point() {
    let mut fs = VFSManager::new();
    fs.write_file("é", vec![]);
    fs.write_file("z", vec![]);
    fs.write_file("Z", vec![]);
    fs.write_file("", vec![7]);
    assert_eq!(fs.list(), vec!["", "Z", "z", "é"]);
    assert_eq!(fs.read_file(""), Some(vec![7]));
}
