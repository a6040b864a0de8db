use novasearch::config::Config;
use novasearch::daemon::{initial_batches, watch_roots, IndexingDaemon};
use novasearch::database::StoreImage;
use novasearch::models::{FileEntry, FileType, IndexOperation, Timestamp};
use novasearch::store_model::StoreError;
use novasearch::watcher::FilesystemEvent;

fn scanned(name: &str) -> FileEntry {
    FileEntry::new(
        name.to_string(),
        format!("/scan/{}", name),
        1,
        Timestamp::from_secs(1_700_000_000),
        FileType::Regular,
    )
}

fn daemon_with_batch_size(batch_size: usize) -> IndexingDaemon {
    let mut config = Config::default();
    config.performance.batch_size = batch_size;
    assert!(config.validate().is_ok());
    IndexingDaemon::new(&config, StoreImage::empty()).unwrap()
}

#[test]
fn test_initial_batches() {
    let entries: Vec<FileEntry> = ["a", "b", "c", "d", "e"].iter().map(|n| scanned(n)).collect();
    let batches = initial_batches(&entries, 2);
    let sizes: Vec<usize> = batches.iter().map(|b| b.len()).collect();
    assert_eq!(sizes, vec![2, 2, 1]);
    assert!(matches!(&batches[2][0], IndexOperation::Add(e) if e.filename == "e"));
    assert!(matches!(&batches[0][1], IndexOperation::Add(e) if e.filename == "b"));
    assert_eq!(initial_batches(&entries, 5).len(), 1);
    assert_eq!(initial_batches(&entries, 100).len(), 1);
    assert_eq!(initial_batches(&entries[..4], 2).len(), 2);
    assert_eq!(initial_batches(&[], 3).len(), 0);
}

#[test]
fn test_watch_roots() {
    let configured = vec!["/home/u".to_string(), "/opt".to_string()];
    let apps = vec![
        "/usr/share/applications".to_string(),
        "/home/u/snap".to_string(),
        "/opt".to_string(),
        "/usr/share/applications".to_string(),
    ];
    let roots = watch_roots(configured, &apps, &vec![true, false, true, true]);
    assert_eq!(roots, vec!["/home/u", "/opt", "/usr/share/applications"]);
}

#[test]
fn test_daemon_initialize() {
    let mut daemon = daemon_with_batch_size(2);
    let entries: Vec<FileEntry> = ["a", "b", "c"].iter().map(|n| scanned(n)).collect();
    assert_eq!(daemon.initialize(&entries), Ok(2));
    assert_eq!(daemon.database().count_files(), Ok(3));
    assert_eq!(daemon.initialize(&entries), Ok(2));
    assert_eq!(daemon.database().count_files(), Ok(3));
}

#[test]
fn test_daemon_initialize_stops_at_refused_batch() {
    let mut image = StoreImage::empty();
    image.schema_version = 2;
    image.next_id = i64::MAX - 3;
    let mut config = Config::default();
    config.performance.batch_size = 2;
    let mut daemon = IndexingDaemon::new(&config, image).unwrap();
    let entries: Vec<FileEntry> =
        ["a", "b", "c", "d", "e", "f"].iter().map(|n| scanned(n)).collect();
    // Three identities are left: the first batch fits, the second does not.
    assert_eq!(daemon.initialize(&entries), Err(StoreError::StorageError));
    assert_eq!(daemon.database().count_files(), Ok(2));
    let kept: Vec<String> =
        daemon.database().query_files("", 10).unwrap().iter().map(|e| e.filename.clone()).collect();
    assert_eq!(kept, vec!["a", "b"]);
}

#[test]
fn test_daemon_pipeline() {
    let mut daemon = daemon_with_batch_size(2);
    let observed = vec![scanned("one"), scanned("two"), scanned("three")];
    daemon.add_events(
        vec![
            FilesystemEvent::Created("/scan/one".to_string()),
            FilesystemEvent::Created("/scan/two".to_string()),
            FilesystemEvent::Created("/scan/three".to_string()),
            FilesystemEvent::Modified("/scan/one".to_string()),
        ],
        1000,
    );
    assert_eq!(daemon.paths_to_observe(1100).len(), 0);
    assert_eq!(daemon.process_events(1100, &observed), 0);
    assert_eq!(daemon.flush().batch.len(), 0);

    assert_eq!(daemon.paths_to_observe(1200), vec!["/scan/one", "/scan/two", "/scan/three"]);
    assert_eq!(daemon.process_events(1200, &observed), 0);

    let report = daemon.flush();
    assert_eq!(report.batch.len(), 2);
    assert_eq!(report.result, Ok(()));
    assert_eq!(daemon.database().count_files(), Ok(2));

    let report = daemon.flush();
    assert_eq!(report.batch.len(), 1);
    assert_eq!(daemon.database().count_files(), Ok(3));

    let report = daemon.flush();
    assert_eq!(report.batch.len(), 0);
    assert_eq!(report.result, Ok(()));
    assert_eq!(daemon.dropped_operations(), 0);
}

#[test]
fn test_daemon_shutdown_drains_queue() {
    let mut daemon = daemon_with_batch_size(1);
    daemon.initialize(&[scanned("x"), scanned("y"), scanned("z")]).unwrap();
    daemon.add_events(
        vec![
            FilesystemEvent::Deleted("/scan/x".to_string()),
            FilesystemEvent::Deleted("/scan/y".to_string()),
            FilesystemEvent::Deleted("/scan/z".to_string()),
        ],
        0,
    );
    assert_eq!(daemon.process_events(200, &vec![]), 0);
    assert_eq!(daemon.flush().batch.len(), 1);
    let report = daemon.shutdown();
    assert_eq!(report.batch.len(), 2);
    assert_eq!(report.result, Ok(()));
    assert_eq!(daemon.database().count_files(), Ok(0));
    assert_eq!(daemon.shutdown().batch.len(), 0);
}

#[test]
fn test_daemon_failed_batch_is_dropped() {
    let mut daemon = daemon_with_batch_size(10);
    daemon.initialize(&[scanned("x"), scanned("y")]).unwrap();
    daemon.add_events(
        vec![
            FilesystemEvent::Deleted("/scan/none".to_string()),
            FilesystemEvent::Moved { from: "/scan/x".to_string(), to: "/scan/y".to_string() },
        ],
        0,
    );
    daemon.process_events(500, &vec![]);
    let report = daemon.flush();
    assert_eq!(report.batch.len(), 2);
    assert_eq!(report.result, Err(StoreError::ConflictError));
    assert_eq!(daemon.database().count_files(), Ok(2));
    assert_eq!(daemon.flush().batch.len(), 0);
}

#[test]
fn test_daemon_counts_dropped_operations() {
    let mut daemon = daemon_with_batch_size(100);
    let events: Vec<FilesystemEvent> =
        (0..10_005).map(|i| FilesystemEvent::Deleted(format!("/gone/{}", i))).collect();
    daemon.add_events(events, 0);
    assert_eq!(daemon.process_events(200, &vec![]), 5);
    assert_eq!(daemon.dropped_operations(), 5);
    let report = daemon.flush();
    assert_eq!(report.batch.len(), 100);
    assert!(matches!(&report.batch[0], IndexOperation::Delete(p) if p == "/gone/0"));
    assert_eq!(daemon.shutdown().batch.len(), 9_900);
}

#[test]
fn test_daemon_batch_by_batch() {
    let mut daemon = daemon_with_batch_size(2);
    daemon.add_events(
        vec![
            FilesystemEvent::Deleted("/scan/1".to_string()),
            FilesystemEvent::Deleted("/scan/2".to_string()),
            FilesystemEvent::Deleted("/scan/3".to_string()),
        ],
        0,
    );
    daemon.process_events(200, &vec![]);
    let batch = daemon.next_batch();
    assert_eq!(batch.len(), 2);
    assert!(matches!(&batch[0], IndexOperation::Delete(p) if p == "/scan/1"));
    assert_eq!(daemon.apply_batch(&batch), Ok(()));
    let rest = daemon.drain_queue();
    assert_eq!(rest.len(), 1);
    assert!(matches!(&rest[0], IndexOperation::Delete(p) if p == "/scan/3"));
    assert_eq!(daemon.next_batch().len(), 0);

    // A batch that is not applied leaves the store as it was.
    daemon.initialize(&[scanned("x"), scanned("y")]).unwrap();
    let refused =
        vec![IndexOperation::Move { from: "/scan/x".to_string(), to: "/scan/y".to_string() }];
    assert_eq!(daemon.apply_batch(&refused), Err(StoreError::ConflictError));
    assert_eq!(daemon.database().count_files(), Ok(2));
}

#[test]
fn test_daemon_rejects_bad_store() {
    let mut image = StoreImage::empty();
    image.schema_version = -2;
    assert!(matches!(
        IndexingDaemon::new(&Config::default(), image),
        Err(StoreError::SchemaError)
    ));
}
