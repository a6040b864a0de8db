use novasearch::exclude::{component_excluded, components_excluded, match_excludes, name_excluded};
use novasearch::models::{FileEntry, FileType, IndexOperation, Timestamp};
use novasearch::processor::EventProcessor;
use novasearch::scanner::{create_file_entry, FileMetadata};
use novasearch::watcher::{
    convert_event, should_exclude, FilesystemEvent, QueueError, RawEvent, RawEventKind,
    WatcherError,
};

fn observed_file(path: &str, size: u64) -> FileEntry {
    let meta = FileMetadata {
        len: size,
        modified: Some(Timestamp::from_secs(1_700_000_000)),
        is_dir: false,
        is_symlink: false,
        is_file: true,
    };
    create_file_entry(path, Some(&meta)).unwrap()
}

fn raw(kind: RawEventKind, paths: &[&str]) -> RawEvent {
    RawEvent { kind, paths: paths.iter().map(|p| p.to_string()).collect() }
}

#[test]
fn test_should_exclude_hidden_files() {
    let exclude_patterns = vec![".*".to_string()];

    assert!(should_exclude("/home/user/.hidden", &exclude_patterns));

    assert!(!should_exclude("/home/user/visible", &exclude_patterns));
}

#[test]
fn test_should_exclude_node_modules() {
    let exclude_patterns = vec!["node_modules".to_string()];

    assert!(should_exclude("/home/user/project/node_modules/package", &exclude_patterns));

    assert!(!should_exclude("/home/user/project/src", &exclude_patterns));
}

#[test]
fn test_should_exclude_glob_patterns() {
    let exclude_patterns = vec!["*.log".to_string(), "*.tmp".to_string()];

    assert!(should_exclude("/home/user/file.log", &exclude_patterns));

    assert!(should_exclude("/home/user/temp.tmp", &exclude_patterns));

    assert!(!should_exclude("/home/user/file.txt", &exclude_patterns));
}

#[test]
fn test_should_exclude_details() {
    // A pattern that is no valid glob matches nothing.
    assert!(!should_exclude("/home/user/a[", &vec!["a[".to_string()]));
    // A pattern that asks for hidden names hides every dotted component.
    assert!(should_exclude("/home/.cache/file", &vec![".*.bak".to_string()]));
    assert!(!should_exclude("/home/cache/file", &vec![".*.bak".to_string()]));
    // Single characters and classes.
    assert!(should_exclude("/srv/cat", &vec!["c?t".to_string()]));
    assert!(should_exclude("/srv/kitteh", &vec!["k[!e]tteh".to_string()]));
    assert!(!should_exclude("/srv/ketteh", &vec!["k[!e]tteh".to_string()]));
    // A pattern has to match a whole component.
    assert!(!should_exclude("/srv/node_modules_old", &vec!["node_modules".to_string()]));
    assert!(!should_exclude("/anything", &vec![]));
}

#[test]
fn test_should_exclude_ignores_current_dir_segments() {
    let hidden = vec![".*".to_string()];
    assert!(!should_exclude("a/./b", &hidden));
    assert!(!should_exclude("a/.", &hidden));
    assert!(!should_exclude("/home/./user/file", &hidden));
    assert!(should_exclude("a/./.b", &hidden));
    assert!(should_exclude("a/../b", &hidden));
    assert!(should_exclude("./a", &hidden));
    // The root is a component of an absolute path.
    assert!(should_exclude("/a", &vec!["/".to_string()]));
    assert!(!should_exclude("a", &vec!["/".to_string()]));
}

#[test]
fn test_exclusion_rules() {
    assert!(match_excludes(Some(true)));
    assert!(!match_excludes(Some(false)));
    assert!(!match_excludes(None));
    assert!(component_excluded(Some(true), "x", "y"));
    assert!(component_excluded(None, ".*", ".git"));
    assert!(component_excluded(Some(false), ".*rc", ".git"));
    assert!(!component_excluded(Some(false), ".*", "git"));
    assert!(!component_excluded(Some(false), "*.log", ".git"));
    assert!(!component_excluded(None, ".", ".git"));
    assert!(name_excluded("build.log", &vec!["*.tmp".to_string(), "*.log".to_string()]));
    assert!(!name_excluded("build.txt", &vec!["*.tmp".to_string(), "*.log".to_string()]));
    assert!(components_excluded(
        &vec!["a".to_string(), "target".to_string()],
        &vec!["target".to_string()]
    ));
    assert!(!components_excluded(&vec!["a".to_string()], &vec!["target".to_string()]));
}

#[test]
fn test_convert_event_kinds() {
    let none: Vec<String> = vec![];
    match convert_event(&raw(RawEventKind::Create, &["/a/f"]), &none) {
        Some(FilesystemEvent::Created(p)) => assert_eq!(p, "/a/f"),
        _ => panic!("expected a creation"),
    }
    match convert_event(&raw(RawEventKind::Modify, &["/a/f", "/a/g"]), &none) {
        Some(FilesystemEvent::Modified(p)) => assert_eq!(p, "/a/f"),
        _ => panic!("expected a modification"),
    }
    match convert_event(&raw(RawEventKind::Remove, &["/a/f"]), &none) {
        Some(FilesystemEvent::Deleted(p)) => assert_eq!(p, "/a/f"),
        _ => panic!("expected a removal"),
    }
    match convert_event(&raw(RawEventKind::Rename, &["/a/f", "/a/g"]), &none) {
        Some(FilesystemEvent::Moved { from, to }) => {
            assert_eq!(from, "/a/f");
            assert_eq!(to, "/a/g");
        }
        _ => panic!("expected a move"),
    }
    match convert_event(&raw(RawEventKind::Rename, &["/a/f"]), &none) {
        Some(FilesystemEvent::Modified(p)) => assert_eq!(p, "/a/f"),
        _ => panic!("expected a modification"),
    }
    assert!(convert_event(&raw(RawEventKind::Access, &["/a/f"]), &none).is_none());
    assert!(convert_event(&raw(RawEventKind::Other, &["/a/f"]), &none).is_none());
    assert!(convert_event(&raw(RawEventKind::Create, &[]), &none).is_none());
}

#[test]
fn test_convert_event_drops_excluded_paths() {
    let patterns = vec![".*".to_string(), "node_modules".to_string()];
    assert!(convert_event(&raw(RawEventKind::Create, &["/a/.git/config"]), &patterns).is_none());
    assert!(convert_event(&raw(RawEventKind::Rename, &["/a/f", "/a/node_modules/f"]), &patterns)
        .is_none());
    assert!(convert_event(&raw(RawEventKind::Modify, &["/a/f"]), &patterns).is_some());
}

#[test]
fn test_event_processor_debouncing() {
    let file_path = "/tmp/watch/test.txt".to_string();
    let observed = vec![observed_file(&file_path, 4)];

    let mut processor = EventProcessor::new(100, 1000);

    processor.add_event(FilesystemEvent::Created(file_path.clone()), 0);

    let operations = processor.process_pending(0, &observed);
    assert_eq!(operations.len(), 0);
    assert_eq!(processor.pending_event_count(), 1);

    let operations = processor.process_pending(150, &observed);
    assert_eq!(operations.len(), 1);
    assert_eq!(processor.pending_event_count(), 0);
}

#[test]
fn test_event_processor_queue() {
    let mut processor = EventProcessor::new(50, 2);

    let op1 = IndexOperation::Delete("/test/file1.txt".to_string());
    let op2 = IndexOperation::Delete("/test/file2.txt".to_string());
    let op3 = IndexOperation::Delete("/test/file3.txt".to_string());

    assert!(processor.enqueue_operation(op1).is_ok());
    assert!(processor.enqueue_operation(op2).is_ok());
    assert_eq!(processor.queued_operation_count(), 2);

    assert!(processor.enqueue_operation(op3).is_err());

    assert!(processor.dequeue_operation().is_some());
    assert_eq!(processor.queued_operation_count(), 1);
}

#[test]
fn test_event_processor_queue_order() {
    let mut processor = EventProcessor::new(50, 2);
    assert!(processor.dequeue_operation().is_none());
    processor.enqueue_operation(IndexOperation::Delete("/1".to_string())).unwrap();
    processor.enqueue_operation(IndexOperation::Delete("/2".to_string())).unwrap();
    assert_eq!(
        processor.enqueue_operation(IndexOperation::Delete("/3".to_string())),
        Err(QueueError::QueueFull)
    );
    assert_eq!(processor.queued_operation_count(), 2);
    assert!(matches!(processor.dequeue_operation(), Some(IndexOperation::Delete(p)) if p == "/1"));
    processor.enqueue_operation(IndexOperation::Delete("/4".to_string())).unwrap();
    assert!(matches!(processor.dequeue_operation(), Some(IndexOperation::Delete(p)) if p == "/2"));
    assert!(matches!(processor.dequeue_operation(), Some(IndexOperation::Delete(p)) if p == "/4"));
    assert!(processor.dequeue_operation().is_none());
    let mut never = EventProcessor::new(50, 0);
    assert!(never.enqueue_operation(IndexOperation::Delete("/1".to_string())).is_err());
}

#[test]
fn test_create_file_entry() {
    let file_path = "/tmp/watch/test.txt";
    let meta = FileMetadata {
        len: 12,
        modified: Some(Timestamp::from_secs(1_700_000_000)),
        is_dir: false,
        is_symlink: false,
        is_file: true,
    };

    let entry = create_file_entry(file_path, Some(&meta));
    assert!(entry.is_some());

    let entry = entry.unwrap();
    assert_eq!(entry.filename, "test.txt");
    assert_eq!(entry.path, file_path);
    assert_eq!(entry.file_type, FileType::Regular);
    assert!(entry.size > 0);
    assert_eq!(entry.size, 12);
    assert_eq!(entry.modified_time, Timestamp::from_secs(1_700_000_000));
    assert_eq!(entry.id, None);
}

#[test]
fn test_create_file_entry_directory() {
    let meta = FileMetadata { len: 4096, modified: None, is_dir: true, is_symlink: false, is_file: false };

    let entry = create_file_entry("/tmp/watch/testdir", Some(&meta));
    assert!(entry.is_some());

    let entry = entry.unwrap();
    assert_eq!(entry.filename, "testdir");
    assert_eq!(entry.file_type, FileType::Directory);
    assert!(entry.modified_time.secs > 1_600_000_000);
}

#[test]
fn test_create_file_entry_nonexistent() {
    let entry = create_file_entry("/nonexistent/file.txt", None);
    assert!(entry.is_none());
}

#[test]
fn test_create_file_entry_kinds() {
    let meta = |is_dir, is_symlink, is_file| FileMetadata {
        len: 1,
        modified: Some(Timestamp::from_secs(1)),
        is_dir,
        is_symlink,
        is_file,
    };
    let kind = |m: FileMetadata| create_file_entry("/k/x", Some(&m)).unwrap().file_type;
    assert_eq!(kind(meta(true, true, true)), FileType::Directory);
    assert_eq!(kind(meta(false, true, true)), FileType::Symlink);
    assert_eq!(kind(meta(false, false, true)), FileType::Regular);
    assert_eq!(kind(meta(false, false, false)), FileType::Other);
    assert!(create_file_entry("/", Some(&meta(true, false, false))).is_none());
}

#[test]
fn test_event_to_operation() {
    let file_path = "/tmp/watch/test.txt".to_string();
    let seen = observed_file(&file_path, 4);

    let event = FilesystemEvent::Created(file_path.clone());
    let op = EventProcessor::event_to_operation(event, Some(&seen));
    assert!(op.is_some());
    assert!(matches!(op.unwrap(), IndexOperation::Add(_)));

    let event = FilesystemEvent::Modified(file_path.clone());
    let op = EventProcessor::event_to_operation(event, Some(&seen));
    assert!(op.is_some());
    assert!(matches!(op.unwrap(), IndexOperation::Update(_)));

    let event = FilesystemEvent::Deleted(file_path.clone());
    let op = EventProcessor::event_to_operation(event, Some(&seen));
    assert!(op.is_some());
    assert!(matches!(op.unwrap(), IndexOperation::Delete(_)));

    let to_path = "/tmp/watch/moved.txt".to_string();
    let event = FilesystemEvent::Moved { from: file_path.clone(), to: to_path.clone() };
    let op = EventProcessor::event_to_operation(event, None);
    assert!(op.is_some());
    assert!(matches!(op.unwrap(), IndexOperation::Move { .. }));
}

#[test]
fn test_event_to_operation_vanished_file() {
    assert!(EventProcessor::event_to_operation(FilesystemEvent::Created("/gone".to_string()), None).is_none());
    assert!(EventProcessor::event_to_operation(FilesystemEvent::Modified("/gone".to_string()), None).is_none());
    assert!(matches!(
        EventProcessor::event_to_operation(FilesystemEvent::Deleted("/gone".to_string()), None),
        Some(IndexOperation::Delete(p)) if p == "/gone"
    ));
}

#[test]
fn test_event_processor_clear() {
    let mut processor = EventProcessor::new(50, 100);

    processor.add_event(FilesystemEvent::Created("/test/file.txt".to_string()), 0);
    processor.enqueue_operation(IndexOperation::Delete("/test/other.txt".to_string())).unwrap();

    assert_eq!(processor.pending_event_count(), 1);
    assert_eq!(processor.queued_operation_count(), 1);

    processor.clear();

    assert_eq!(processor.pending_event_count(), 0);
    assert_eq!(processor.queued_operation_count(), 0);
}

#[test]
fn test_debounce_collapses_saves() {
    let path = "/a/f".to_string();
    let observed = vec![observed_file(&path, 3)];
    let mut processor = EventProcessor::new(200, 16);
    processor.add_event(FilesystemEvent::Created(path.clone()), 0);
    processor.add_event(FilesystemEvent::Modified(path.clone()), 50);
    processor.add_event(FilesystemEvent::Modified(path.clone()), 100);
    assert_eq!(processor.pending_event_count(), 1);

    assert_eq!(processor.ready_paths(150).len(), 0);
    assert_eq!(processor.process_pending(150, &observed).len(), 0);
    assert_eq!(processor.process_pending(299, &observed).len(), 0);

    assert_eq!(processor.ready_paths(350), vec!["/a/f"]);
    let ops = processor.process_pending(350, &observed);
    assert_eq!(ops.len(), 1);
    match &ops[0] {
        IndexOperation::Update(entry) => {
            assert_eq!(entry.path, "/a/f");
            assert_eq!(entry.filename, "f");
            assert_eq!(entry.size, 3);
        }
        _ => panic!("expected an update"),
    }
    assert_eq!(processor.pending_event_count(), 0);
    assert_eq!(processor.process_pending(1000, &observed).len(), 0);
}

#[test]
fn test_delete_overwrites_create() {
    let path = "/a/f".to_string();
    let mut processor = EventProcessor::new(200, 16);
    processor.add_event(FilesystemEvent::Created(path.clone()), 0);
    processor.add_event(FilesystemEvent::Deleted(path.clone()), 10);
    assert_eq!(processor.ready_paths(210).len(), 0);
    let ops = processor.process_pending(210, &vec![]);
    assert_eq!(ops.len(), 1);
    assert!(matches!(&ops[0], IndexOperation::Delete(p) if p == "/a/f"));
}

#[test]
fn test_create_overwrites_delete() {
    let path = "/a/f".to_string();
    let observed = vec![observed_file(&path, 1)];
    let mut processor = EventProcessor::new(200, 16);
    processor.add_event(FilesystemEvent::Deleted(path.clone()), 0);
    processor.add_event(FilesystemEvent::Created(path.clone()), 10);
    let ops = processor.process_pending(250, &observed);
    assert_eq!(ops.len(), 1);
    assert!(matches!(&ops[0], IndexOperation::Add(e) if e.path == "/a/f"));
}

#[test]
fn test_vanished_file_emits_nothing() {
    let mut processor = EventProcessor::new(200, 16);
    processor.add_event(FilesystemEvent::Created("/a/gone".to_string()), 0);
    let ops = processor.process_pending(500, &vec![]);
    assert_eq!(ops.len(), 0);
    assert_eq!(processor.pending_event_count(), 0);
}

#[test]
fn test_one_pending_event_per_path() {
    let mut processor = EventProcessor::new(100, 16);
    let observed = vec![observed_file("/a/1", 1), observed_file("/a/2", 2)];
    processor.add_event(FilesystemEvent::Created("/a/1".to_string()), 0);
    processor.add_event(FilesystemEvent::Created("/a/2".to_string()), 30);
    processor.add_event(FilesystemEvent::Moved { from: "/a/0".to_string(), to: "/a/3".to_string() }, 40);
    processor.add_event(FilesystemEvent::Modified("/a/1".to_string()), 60);
    processor.add_event(FilesystemEvent::Deleted("/a/3".to_string()), 70);
    processor.add_event(FilesystemEvent::Modified("/a/2".to_string()), 80);
    assert_eq!(processor.pending_event_count(), 3);

    // At 165 only the events since 60 or earlier have come to rest.
    let ops = processor.process_pending(165, &observed);
    assert_eq!(ops.len(), 1);
    assert!(matches!(&ops[0], IndexOperation::Update(e) if e.path == "/a/1"));
    assert_eq!(processor.pending_event_count(), 2);

    let ops = processor.process_pending(180, &observed);
    assert_eq!(ops.len(), 2);
    assert!(matches!(&ops[0], IndexOperation::Update(e) if e.path == "/a/2"));
    assert!(matches!(&ops[1], IndexOperation::Delete(p) if p == "/a/3"));
    assert_eq!(processor.pending_event_count(), 0);
}

#[test]
fn test_move_waits_under_destination() {
    let mut processor = EventProcessor::new(100, 16);
    processor.add_event(FilesystemEvent::Created("/a/new".to_string()), 0);
    processor.add_event(
        FilesystemEvent::Moved { from: "/a/old".to_string(), to: "/a/new".to_string() },
        10,
    );
    assert_eq!(processor.pending_event_count(), 1);
    let ops = processor.process_pending(200, &vec![]);
    assert_eq!(ops.len(), 1);
    match &ops[0] {
        IndexOperation::Move { from, to } => {
            assert_eq!(from, "/a/old");
            assert_eq!(to, "/a/new");
        }
        _ => panic!("expected a move"),
    }
}

#[test]
fn test_error_messages() {
    assert_eq!(
        WatcherError::InitializationError("no inotify".to_string()).message(),
        "Watcher initialization error: no inotify"
    );
    assert_eq!(WatcherError::WatchError("gone".to_string()).message(), "Watch error: gone");
    assert_eq!(QueueError::QueueFull.message(), "Operation queue is full");
}
