use wasmix::fs::{FileSystem, Node};

#[test]
fn fresh_disk_has_standard_directories() {
    let fs = FileSystem::new(10);
    assert_eq!(fs.list_dir(), vec!["bin", "local", "tmp"]);
    assert_eq!(fs.used_space, 12288);
    assert_eq!(fs.total_space, 10 * 1024 * 1024);
}

#[test]
fn mkdir_sorts_and_refuses_duplicates() {
    let mut fs = FileSystem::new(10);
    fs.mkdir("zeta").unwrap();
    fs.mkdir("alpha").unwrap();
    assert_eq!(fs.list_dir(), vec!["alpha", "bin", "local", "tmp", "zeta"]);
    let err = fs.mkdir("alpha").unwrap_err();
    assert_eq!(err, "Directory exists");
    assert_eq!(fs.used_space, 12288 + 2 * 4096);
}

#[test]
fn create_and_remove_files() {
    let mut fs = FileSystem::new(10);
    fs.create_file("note.txt").unwrap();
    assert!(fs.list_dir().contains(&"note.txt".to_string()));
    let err = fs.create_file("note.txt").unwrap_err();
    assert_eq!(err, "File or Directory exists");
    fs.remove_entry("note.txt").unwrap();
    assert!(!fs.list_dir().contains(&"note.txt".to_string()));
    let err = fs.remove_entry("note.txt").unwrap_err();
    assert_eq!(err, "File or directory not found");
}

#[test]
fn cd_walks_and_reports_errors() {
    let mut fs = FileSystem::new(10);
    fs.cd("bin").unwrap();
    assert_eq!(fs.current_path, vec!["bin"]);
    fs.cd("..").unwrap();
    assert_eq!(fs.current_path, Vec::<String>::new());
    let err = fs.cd("nowhere").unwrap_err();
    assert_eq!(err, "Directory not found");
    fs.create_file("plain").unwrap();
    let err = fs.cd("plain").unwrap_err();
    assert_eq!(err, "Not a directory");
    fs.cd("tmp").unwrap();
    fs.cd("/").unwrap();
    assert_eq!(fs.current_path, Vec::<String>::new());
}

#[test]
fn remove_reclaims_space() {
    let mut fs = FileSystem::new(10);
    fs.mkdir("d").unwrap();
    let used = fs.used_space;
    fs.remove_entry("d").unwrap();
    assert_eq!(fs.used_space, used - 4096);
}

#[test]
fn disk_fills_up() {
    let mut fs = FileSystem::new(1);
    let mut made = 0u32;
    let mut full = None;
    for i in 0..400 {
        match fs.mkdir(&format!("d{}", i)) {
            Ok(()) => made += 1,
            Err(e) => {
                full = Some(e);
                break;
            },
        }
    }
    assert_eq!(full.unwrap(), "Disk full");
    assert!(made > 0);
    assert!(fs.used_space + 4096 > fs.total_space);
}

#[test]
fn match_entry_handles_wildcards() {
    let mut fs = FileSystem::new(10);
    fs.mkdir("docs").unwrap();
    fs.mkdir("data").unwrap();
    assert_eq!(fs.match_entry("docs"), Some("docs".to_string()));
    // the first name in sorted order wins the prefix match
    assert_eq!(fs.match_entry("d*"), Some("data".to_string()));
    assert_eq!(fs.match_entry("do*"), Some("docs".to_string()));
    assert_eq!(fs.match_entry("x*"), None);
    assert_eq!(fs.match_entry("miss"), None);
}

#[test]
fn write_file_stores_content() {
    let mut fs = FileSystem::new(10);
    fs.cd("bin").unwrap();
    fs.write_file("app.wasm", vec![1, 2, 3]).unwrap();
    let bin = fs.resolve_dir(&["bin".to_string()]).unwrap();
    let node: &Node = bin.get_child("app.wasm").unwrap();
    assert_eq!(node.content, vec![1, 2, 3]);
    assert_eq!(node.size, 3);
}

#[test]
fn resolve_dir_follows_directories_only() {
    let mut fs = FileSystem::new(10);
    fs.cd("tmp").unwrap();
    fs.mkdir("inner").unwrap();
    fs.cd("/").unwrap();
    assert!(fs.resolve_dir(&["tmp".to_string(), "inner".to_string()]).is_some());
    assert!(fs.resolve_dir(&["tmp".to_string(), "gone".to_string()]).is_none());
    fs.create_file("f").unwrap();
    assert!(fs.resolve_dir(&["f".to_string()]).is_none());
}
