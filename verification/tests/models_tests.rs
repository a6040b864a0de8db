use novasearch::models::{current_timestamp, FileEntry, FileType, IndexOperation, Timestamp};
use novasearch::text::{
    ascii_lower, chars_equal, chars_of, contains_ignore_case, nocase_order,
    starts_with_ignore_case,
};

#[test]
fn test_file_type_names() {
    assert_eq!(FileType::Regular.as_str(), "regular");
    assert_eq!(FileType::Directory.as_str(), "directory");
    assert_eq!(FileType::Symlink.as_str(), "symlink");
    assert_eq!(FileType::Other.as_str(), "other");
}

#[test]
fn test_file_type_from_str() {
    assert_eq!(FileType::from_str("regular"), FileType::Regular);
    assert_eq!(FileType::from_str("directory"), FileType::Directory);
    assert_eq!(FileType::from_str("symlink"), FileType::Symlink);
    assert_eq!(FileType::from_str("other"), FileType::Other);
    assert_eq!(FileType::from_str("Regular"), FileType::Other);
    assert_eq!(FileType::from_str(""), FileType::Other);
}

#[test]
fn test_file_type_round_trip() {
    for t in [FileType::Regular, FileType::Directory, FileType::Symlink, FileType::Other] {
        assert_eq!(FileType::from_str(t.as_str()), t);
    }
}

#[test]
fn test_file_entry_new() {
    let before = Timestamp::now();
    let entry = FileEntry::new(
        "test.txt".to_string(),
        "/home/user/test.txt".to_string(),
        1024,
        Timestamp { secs: 1_700_000_000, nanos: 5 },
        FileType::Regular,
    );
    assert_eq!(entry.id, None);
    assert_eq!(entry.filename, "test.txt");
    assert_eq!(entry.path, "/home/user/test.txt");
    assert_eq!(entry.size, 1024);
    assert_eq!(entry.modified_time, Timestamp { secs: 1_700_000_000, nanos: 5 });
    assert_eq!(entry.file_type, FileType::Regular);
    assert!(entry.indexed_time >= before);
    assert!(entry.indexed_time.nanos < 1_000_000_000);
}

#[test]
fn test_clock_reads_the_present() {
    assert!(current_timestamp() > 1_600_000_000);
    assert!(Timestamp::now().secs > 1_600_000_000);
}

#[test]
fn test_timestamp_from_reading() {
    let reading = Timestamp { secs: 12, nanos: 34 };
    assert_eq!(Timestamp::from_reading(Some(reading)), reading);
    assert_eq!(Timestamp::from_reading(None), Timestamp { secs: 0, nanos: 0 });
    let now = Timestamp::now();
    assert!(now.nanos < 1_000_000_000);
}

#[test]
fn test_timestamp_seconds() {
    let t = Timestamp { secs: 42, nanos: 999_999_999 };
    assert_eq!(t.truncated(), Timestamp { secs: 42, nanos: 0 });
    assert_eq!(t.to_unix_seconds(), 42);
    assert_eq!(Timestamp::from_secs(7), Timestamp { secs: 7, nanos: 0 });
    assert_eq!(Timestamp { secs: u64::MAX, nanos: 0 }.to_unix_seconds(), i64::MAX);
}

#[test]
fn test_operation_duplicate() {
    let op = IndexOperation::Move { from: "/a".to_string(), to: "/b".to_string() };
    match op.duplicate() {
        IndexOperation::Move { from, to } => {
            assert_eq!(from, "/a");
            assert_eq!(to, "/b");
        }
        _ => panic!("expected a move"),
    }
}

#[test]
fn test_text_helpers() {
    assert_eq!(ascii_lower('A'), 'a');
    assert_eq!(ascii_lower('z'), 'z');
    assert_eq!(ascii_lower('É'), 'É');
    assert_eq!(chars_of("aé"), vec!['a', 'é']);
    assert!(chars_equal(&chars_of("abc"), &chars_of("abc")));
    assert!(!chars_equal(&chars_of("abc"), &chars_of("abd")));
    assert!(!chars_equal(&chars_of("abc"), &chars_of("ab")));
    assert!(starts_with_ignore_case(&chars_of("Boot.txt"), &chars_of("bOO")));
    assert!(!starts_with_ignore_case(&chars_of("Boot.txt"), &chars_of("oot")));
    assert!(contains_ignore_case(&chars_of("Boot.TXT"), &chars_of("oot.t")));
    assert!(!contains_ignore_case(&chars_of("boot"), &chars_of("boots")));
    assert!(contains_ignore_case(&chars_of("boot"), &chars_of("")));
    assert_eq!(nocase_order(&chars_of("Apple"), &chars_of("apple")), 0);
    assert_eq!(nocase_order(&chars_of("apple"), &chars_of("Banana")), -1);
    assert_eq!(nocase_order(&chars_of("b"), &chars_of("a")), 1);
    assert_eq!(nocase_order(&chars_of("ab"), &chars_of("abc")), -1);
}
