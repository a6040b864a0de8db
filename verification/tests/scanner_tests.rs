use novasearch::config::Config;
use novasearch::models::{FileEntry, FileType, Timestamp};
use novasearch::scanner::{
    extract_file_entry, file_type_of, get_application_directories, is_application_file, is_pruned,
    FileMetadata, RootWalk, ScanProgress, Scanner, WalkItem, WalkedEntry,
};

fn dir_item(path: &str) -> WalkItem {
    WalkItem::Entry(WalkedEntry {
        path: path.to_string(),
        is_dir: true,
        is_file: false,
        metadata: Some(FileMetadata {
            len: 4096,
            modified: Some(Timestamp::from_secs(1_700_000_000)),
            is_dir: true,
            is_symlink: false,
            is_file: false,
        }),
        head: vec![],
    })
}

fn file_item(path: &str, content: &[u8]) -> WalkItem {
    WalkItem::Entry(WalkedEntry {
        path: path.to_string(),
        is_dir: false,
        is_file: true,
        metadata: Some(FileMetadata {
            len: content.len() as u64,
            modified: Some(Timestamp::from_secs(1_700_000_000)),
            is_dir: false,
            is_symlink: false,
            is_file: true,
        }),
        head: content.iter().take(4).cloned().collect(),
    })
}

fn test_directory_structure(base: &str) -> RootWalk {
    let at = |rest: &str| format!("{}/{}", base, rest);
    RootWalk {
        root: base.to_string(),
        items: vec![
            dir_item(base),
            dir_item(&at("documents")),
            file_item(&at("documents/file1.txt"), b"content 1"),
            file_item(&at("documents/file2.txt"), b"content 2"),
            dir_item(&at("projects")),
            dir_item(&at("projects/rust")),
            file_item(&at("projects/rust/main.rs"), b"fn main() {}"),
            dir_item(&at(".hidden")),
            file_item(&at(".hidden/secret.txt"), b"secret"),
            dir_item(&at("node_modules")),
            dir_item(&at("node_modules/package")),
            file_item(&at("node_modules/package/index.js"), b"module.exports = {}"),
            file_item(&at("readme.txt"), b"test content"),
        ],
    }
}

fn scanner_with(exclude_patterns: Vec<String>) -> Scanner {
    let mut config = Config::default();
    config.indexing.exclude_patterns = exclude_patterns;
    Scanner::new(config)
}

fn filenames(entries: &[FileEntry]) -> Vec<String> {
    entries.iter().map(|e| e.filename.clone()).collect()
}

#[test]
fn test_scanner_basic() {
    let walk = test_directory_structure("/tmp/scan");

    let mut scanner = scanner_with(vec![]);
    let entries = scanner.scan(&vec![], &vec![walk]);

    assert!(entries.len() > 0);

    let filenames: Vec<String> = entries.iter().map(|e| e.filename.clone()).collect();
    assert!(filenames.contains(&"readme.txt".to_string()));
    assert!(filenames.contains(&"file1.txt".to_string()));
    assert!(filenames.contains(&"main.rs".to_string()));
    assert_eq!(entries.len(), 13);
}

#[test]
fn test_scanner_with_exclusions() {
    let walk = test_directory_structure("/tmp/scan");

    let mut scanner = scanner_with(vec![".*".to_string(), "node_modules".to_string()]);
    let entries = scanner.scan(&vec![], &vec![walk]);

    let filenames: Vec<String> = entries.iter().map(|e| e.filename.clone()).collect();

    assert!(!filenames.contains(&"secret.txt".to_string()));
    assert!(!filenames.contains(&"index.js".to_string()));

    assert!(filenames.contains(&"readme.txt".to_string()));
    assert!(filenames.contains(&"file1.txt".to_string()));
    assert_eq!(
        filenames,
        vec!["scan", "documents", "file1.txt", "file2.txt", "projects", "rust", "main.rs", "readme.txt"]
    );
}

#[test]
fn test_scanner_prunes_excluded_subtrees() {
    let walk = RootWalk {
        root: "/r".to_string(),
        items: vec![
            dir_item("/r"),
            file_item("/r/visible.txt", b"v"),
            file_item("/r/.hidden", b"h"),
            dir_item("/r/node_modules"),
            file_item("/r/node_modules/x", b"x"),
        ],
    };
    let mut scanner = scanner_with(vec![".*".to_string(), "node_modules".to_string()]);
    let entries = scanner.scan_directory("/r", &walk.items);
    let paths: Vec<String> = entries.iter().map(|e| e.path.clone()).collect();
    assert_eq!(paths, vec!["/r", "/r/visible.txt"]);
    let progress = scanner.get_progress();
    assert_eq!(progress.directories_scanned, 1);
    assert_eq!(progress.files_scanned, 1);
    assert_eq!(progress.errors_encountered, 0);
    assert_eq!(progress.current_path, Some("/r/visible.txt".to_string()));
}

#[test]
fn test_scanner_root_is_never_excluded() {
    let walk = vec![dir_item("/home/.config/target"), file_item("/home/.config/target/a", b"a")];
    let mut scanner = scanner_with(vec![".*".to_string(), "target".to_string()]);
    let entries = scanner.scan_directory("/home/.config/target", &walk);
    assert_eq!(filenames(&entries), vec!["target", "a"]);
    assert!(scanner.should_include_entry("/home/.config/target", "/home/.config/target/"));
    assert!(!scanner.should_include_entry("/home/.config/target/target", "/home/.config/target"));
    assert!(scanner.should_include_entry("/home/.config/target/src", "/home/.config/target"));
    assert!(scanner.should_include_entry("/", "/home"));
}

#[test]
fn test_scanner_file_types() {
    let walk = RootWalk {
        root: "/tmp/types".to_string(),
        items: vec![
            dir_item("/tmp/types"),
            file_item("/tmp/types/file.txt", b"content"),
            dir_item("/tmp/types/directory"),
        ],
    };

    let mut scanner = scanner_with(vec![]);
    let entries = scanner.scan(&vec![], &vec![walk]);

    let file_entry = entries.iter().find(|e| e.filename == "file.txt");
    let dir_entry = entries.iter().find(|e| e.filename == "directory");

    assert!(file_entry.is_some());
    assert_eq!(file_entry.unwrap().file_type, FileType::Regular);

    assert!(dir_entry.is_some());
    assert_eq!(dir_entry.unwrap().file_type, FileType::Directory);
}

#[test]
fn test_scanner_metadata() {
    let file_path = "/tmp/meta/test.txt";
    let content = "test content";
    let walk = RootWalk {
        root: "/tmp/meta".to_string(),
        items: vec![dir_item("/tmp/meta"), file_item(file_path, content.as_bytes())],
    };

    let mut scanner = scanner_with(vec![]);
    let entries = scanner.scan(&vec![], &vec![walk]);

    let file_entry = entries.iter().find(|e| e.filename == "test.txt");
    assert!(file_entry.is_some());

    let entry = file_entry.unwrap();
    assert_eq!(entry.size, content.len() as u64);
    assert_eq!(entry.path, file_path);
    assert!(entry.modified_time <= Timestamp::now());
    assert_eq!(entry.modified_time, Timestamp::from_secs(1_700_000_000));
}

#[test]
fn test_scanner_progress_tracking() {
    let walk = test_directory_structure("/tmp/scan");

    let mut scanner = scanner_with(vec![]);
    let _entries = scanner.scan(&vec![], &vec![walk]);

    let progress = scanner.get_progress();
    assert!(progress.files_scanned > 0);
    assert!(progress.directories_scanned > 0);
    assert_eq!(progress.files_scanned, 6);
    assert_eq!(progress.directories_scanned, 7);
}

#[test]
fn test_scanner_nonexistent_path() {
    let mut scanner = scanner_with(vec![]);
    let entries = scanner.scan(&vec![], &vec![]);

    assert_eq!(entries.len(), 0);
    assert_eq!(scanner.get_progress().files_scanned, 0);
}

#[test]
fn test_scanner_empty_directory() {
    let walk = RootWalk { root: "/tmp/empty".to_string(), items: vec![dir_item("/tmp/empty")] };

    let mut scanner = scanner_with(vec![]);
    let entries = scanner.scan(&vec![], &vec![walk]);

    assert!(entries.len() >= 1);
    assert_eq!(filenames(&entries), vec!["empty"]);
}

#[test]
fn test_scanner_glob_patterns() {
    let walk = RootWalk {
        root: "/tmp/globs".to_string(),
        items: vec![
            dir_item("/tmp/globs"),
            file_item("/tmp/globs/file.txt", b"content"),
            file_item("/tmp/globs/file.log", b"log content"),
            file_item("/tmp/globs/file.tmp", b"temp content"),
        ],
    };

    let mut scanner = scanner_with(vec!["*.log".to_string(), "*.tmp".to_string()]);
    let entries = scanner.scan(&vec![], &vec![walk]);

    let filenames: Vec<String> = entries.iter().map(|e| e.filename.clone()).collect();
    assert!(filenames.contains(&"file.txt".to_string()));
    assert!(!filenames.contains(&"file.log".to_string()));
    assert!(!filenames.contains(&"file.tmp".to_string()));
}

#[test]
fn test_scanner_counts_errors_and_skips_unreadable() {
    let unreadable = WalkItem::Entry(WalkedEntry {
        path: "/e/locked".to_string(),
        is_dir: false,
        is_file: true,
        metadata: None,
        head: vec![],
    });
    let items = vec![
        dir_item("/e"),
        WalkItem::Inaccessible,
        unreadable,
        file_item("/e/ok", b"ok"),
        WalkItem::Inaccessible,
    ];
    let mut scanner = scanner_with(vec![]);
    let entries = scanner.scan_directory("/e", &items);
    assert_eq!(filenames(&entries), vec!["e", "ok"]);
    let progress = scanner.get_progress();
    assert_eq!(progress.errors_encountered, 2);
    assert_eq!(progress.files_scanned, 2);
    assert_eq!(progress.directories_scanned, 1);
}

#[test]
fn test_application_directory_rules() {
    let elf = [0x7f, 0x45, 0x4c, 0x46, 0x02];
    let items = vec![
        dir_item("/opt"),
        dir_item("/opt/.tool"),
        file_item("/opt/.tool/run.desktop", b"[Desktop Entry]"),
        file_item("/opt/editor.AppImage", b"AI"),
        file_item("/opt/readme.txt", b"text"),
        file_item("/opt/binary", &elf),
        file_item("/opt/MyAppImage.old", b"old"),
        file_item("/opt/script.sh", b"#!/bin/sh"),
    ];
    let mut scanner = scanner_with(vec![".*".to_string()]);
    let entries = scanner.scan_application_directory("/opt", &items);
    assert_eq!(
        filenames(&entries),
        vec!["opt", ".tool", "run.desktop", "editor.AppImage", "binary", "MyAppImage.old"]
    );
    let progress = scanner.get_progress();
    assert_eq!(progress.directories_scanned, 2);
    assert_eq!(progress.files_scanned, 6);
}

#[test]
fn test_is_application_file() {
    assert!(is_application_file("/a/x.desktop", &vec![]));
    assert!(is_application_file("/a/x.AppImage", &vec![]));
    assert!(is_application_file("/a/x", &vec![0x7f, 0x45, 0x4c, 0x46]));
    assert!(is_application_file("/a/x.bin", &vec![0x7f, 0x45, 0x4c, 0x46, 0, 0]));
    assert!(is_application_file("/a/SomeAppImage", &vec![]));
    assert!(!is_application_file("/a/x", &vec![0x7f, 0x45, 0x4c]));
    assert!(!is_application_file("/a/x.Desktop", &vec![]));
    assert!(!is_application_file("/a/appimage", &vec![0x45, 0x7f, 0x4c, 0x46]));
    assert!(!is_application_file("/a/.desktop", &vec![]));
}

#[test]
fn test_scan_order_applications_first() {
    let apps = vec![RootWalk {
        root: "/usr/share/applications".to_string(),
        items: vec![
            dir_item("/usr/share/applications"),
            file_item("/usr/share/applications/term.desktop", b"[Desktop Entry]"),
            file_item("/usr/share/applications/mimeinfo.cache", b"cache"),
        ],
    }];
    let user = vec![
        RootWalk { root: "/home/u".to_string(), items: vec![dir_item("/home/u"), file_item("/home/u/a", b"a")] },
        RootWalk { root: "/data".to_string(), items: vec![dir_item("/data")] },
    ];
    let mut scanner = scanner_with(vec!["*.cache".to_string()]);
    let entries = scanner.scan(&apps, &user);
    assert_eq!(filenames(&entries), vec!["applications", "term.desktop", "u", "a", "data"]);
    let progress = scanner.get_progress();
    assert_eq!(progress.files_scanned, 3);
    assert_eq!(progress.directories_scanned, 3);
    assert_eq!(progress.current_path, Some("/data".to_string()));
}

#[test]
fn test_extract_file_entry() {
    let item = WalkedEntry {
        path: "/x/link".to_string(),
        is_dir: false,
        is_file: false,
        metadata: Some(FileMetadata {
            len: 9,
            modified: Some(Timestamp { secs: 5, nanos: 6 }),
            is_dir: false,
            is_symlink: true,
            is_file: false,
        }),
        head: vec![],
    };
    let entry = extract_file_entry(&item).unwrap();
    assert_eq!(entry.filename, "link");
    assert_eq!(entry.path, "/x/link");
    assert_eq!(entry.size, 9);
    assert_eq!(entry.modified_time, Timestamp { secs: 5, nanos: 6 });
    assert_eq!(entry.file_type, FileType::Symlink);
    assert_eq!(file_type_of(&item.metadata.unwrap()), FileType::Symlink);
    let mut unreadable = item.clone();
    unreadable.metadata = None;
    assert!(extract_file_entry(&unreadable).is_none());
}

#[test]
fn test_is_pruned() {
    let patterns = vec![".*".to_string(), "node_modules".to_string()];
    assert!(!is_pruned("/r", "/r", &patterns));
    assert!(!is_pruned("/r/a/b", "/r", &patterns));
    assert!(is_pruned("/r/a/.git/config", "/r", &patterns));
    assert!(is_pruned("/r/node_modules", "/r/", &patterns));
    assert!(!is_pruned("/.r/a", "/.r", &patterns));
    assert!(is_pruned("/.r/a", "/other", &patterns));
}

#[test]
fn test_application_directories() {
    assert_eq!(
        get_application_directories(Some("/home/u")),
        vec![
            "/usr/share/applications",
            "/usr/local/share/applications",
            "/home/u/.local/share/applications",
            "/var/lib/snapd/desktop/applications",
            "/home/u/snap",
            "/var/lib/flatpak/exports/share/applications",
            "/home/u/.local/share/flatpak/exports/share/applications",
            "/home/u/Applications",
            "/home/u/.local/bin",
            "/home/u/AppImages",
            "/opt",
        ]
    );
    assert_eq!(
        get_application_directories(None),
        vec![
            "/usr/share/applications",
            "/usr/local/share/applications",
            "/var/lib/snapd/desktop/applications",
            "/var/lib/flatpak/exports/share/applications",
            "/opt",
        ]
    );
}

#[test]
fn test_scan_progress_new() {
    let progress = ScanProgress::new();
    assert_eq!(progress.files_scanned, 0);
    assert_eq!(progress.directories_scanned, 0);
    assert_eq!(progress.errors_encountered, 0);
    assert_eq!(progress.current_path, None);
}
