//! The entity model: file types, timestamps, index records and the
//! operations that change the index.
use vstd::prelude::*;
use crate::text::{chars_of, chars_equal};

verus! {

/// Kind of filesystem object that a record describes.
#[derive(Debug, Clone, Copy, PartialEq, Eq, Structural)]
pub enum FileType {
    Regular,
    Directory,
    Symlink,
    Other,
}

impl FileType {
    /// The name under which a file type is persisted.
    pub open spec fn name(self) -> Seq<char> {
        match self {
            FileType::Regular => "regular"@,
            FileType::Directory => "directory"@,
            FileType::Symlink => "symlink"@,
            FileType::Other => "other"@,
        }
    }

    /// The file type that a persisted name stands for. Unknown names read as
    /// `Other`.
    pub open spec fn parse(s: Seq<char>) -> FileType {
        if s == "regular"@ {
            FileType::Regular
        } else if s == "directory"@ {
            FileType::Directory
        } else if s == "symlink"@ {
            FileType::Symlink
        } else {
            FileType::Other
        }
    }

    pub fn as_str(&self) -> (s: &'static str)
        ensures
            s@ == self.name(),
    {
        match self {
            FileType::Regular => "regular",
            FileType::Directory => "directory",
            FileType::Symlink => "symlink",
            FileType::Other => "other",
        }
    }

    pub fn from_str(s: &str) -> (t: FileType)
        ensures
            t == FileType::parse(s@),
    {
        let chars = chars_of(s);
        if chars_equal(&chars, &chars_of("regular")) {
            FileType::Regular
        } else if chars_equal(&chars, &chars_of("directory")) {
            FileType::Directory
        } else if chars_equal(&chars, &chars_of("symlink")) {
            FileType::Symlink
        } else {
            FileType::Other
        }
    }

    /// Reading back the persisted name of a file type gives that file type.
    pub proof fn lemma_name_round_trip(self)
        ensures
            FileType::parse(self.name()) == self,
    {
        reveal_strlit("regular");
        reveal_strlit("directory");
        reveal_strlit("symlink");
        reveal_strlit("other");
        assert("regular"@.len() == 7);
        assert("directory"@.len() == 9);
        assert("symlink"@[0] == 's');
        assert("other"@.len() == 5);
    }
}

/// A point in time, counted from the Unix epoch. Points before the epoch are
/// represented by the epoch itself.
#[derive(Debug, Clone, Copy, PartialEq, Eq, Structural, PartialOrd, Ord)]
pub struct Timestamp {
    /// Whole seconds since the epoch.
    pub secs: u64,
    /// Nanoseconds past the last whole second.
    pub nanos: u32,
}

impl Timestamp {
    /// The epoch itself.
    pub open spec fn epoch() -> Timestamp {
        Timestamp { secs: 0, nanos: 0 }
    }

    /// This point in time with its sub-second part dropped: the resolution
    /// that the store keeps.
    pub open spec fn whole_seconds(self) -> Timestamp {
        Timestamp { secs: self.secs, nanos: 0 }
    }

    /// The sub-second part is less than a second.
    pub open spec fn is_valid(self) -> bool {
        self.nanos < 1_000_000_000
    }

    /// The point in time that a reading of the clock stands for: the reading
    /// itself, and the epoch where the clock is set before the epoch and
    /// gives no reading.
    pub open spec fn of_reading(reading: Option<Timestamp>) -> Timestamp {
        match reading {
            Some(t) => t,
            None => Timestamp::epoch(),
        }
    }

    /// Seconds since the epoch as a signed number, saturating at `i64::MAX`.
    pub open spec fn unix_seconds(self) -> i64 {
        if self.secs > i64::MAX as u64 {
            i64::MAX
        } else {
            self.secs as i64
        }
    }

    pub fn from_secs(secs: u64) -> (t: Timestamp)
        ensures
            t == (Timestamp { secs, nanos: 0 }),
    {
        Timestamp { secs, nanos: 0 }
    }

    pub fn truncated(&self) -> (t: Timestamp)
        ensures
            t == self.whole_seconds(),
    {
        Timestamp { secs: self.secs, nanos: 0 }
    }

    pub fn to_unix_seconds(&self) -> (s: i64)
        ensures
            s == self.unix_seconds(),
            s >= 0,
    {
        if self.secs > i64::MAX as u64 {
            i64::MAX
        } else {
            self.secs as i64
        }
    }

    /// The point in time that a reading of the clock stands for.
    pub fn from_reading(reading: Option<Timestamp>) -> (t: Timestamp)
        ensures
            t == Timestamp::of_reading(reading),
    {
        match reading {
            Some(t) => t,
            None => Timestamp { secs: 0, nanos: 0 },
        }
    }

    /// The current wall-clock time. A clock set before the epoch reads as the
    /// epoch. Whatever the clock says, the result is a valid point in time.
    pub fn now() -> (t: Timestamp)
        ensures
            t.is_valid(),
    {
        Timestamp::from_reading(read_system_clock())
    }
}

/// Reads the wall clock with `std::time::SystemTime::now` and hands the
/// reading back as the time elapsed since the Unix epoch, or `None` when the
/// clock is set before the epoch. Of the reading only this is claimed: its
/// sub-second part is less than a second, as `Duration::subsec_nanos`
/// documents of what it returns.
#[verifier::external_body]
fn read_system_clock() -> (reading: Option<Timestamp>)
    ensures
        reading matches Some(t) ==> t.is_valid(),
{
    match std::time::SystemTime::now().duration_since(std::time::UNIX_EPOCH) {
        Ok(elapsed) => Some(Timestamp { secs: elapsed.as_secs(), nanos: elapsed.subsec_nanos() }),
        Err(_) => None,
    }
}

/// The current wall-clock time in whole seconds since the Unix epoch.
pub fn current_timestamp() -> (now: i64)
    ensures
        now >= 0,
{
    Timestamp::now().to_unix_seconds()
}

/// One indexed filesystem object.
#[derive(Debug, Clone)]
pub struct FileEntry {
    /// Identity assigned by the store; absent before the first insert.
    pub id: Option<i64>,
    /// Base name, case preserved.
    pub filename: String,
    /// Absolute path; the key of the record in the store.
    pub path: String,
    /// Size in bytes.
    pub size: u64,
    pub modified_time: Timestamp,
    pub file_type: FileType,
    /// When the record was built.
    pub indexed_time: Timestamp,
}

/// A `FileEntry` as a mathematical value.
pub struct FileEntryView {
    pub id: Option<i64>,
    pub filename: Seq<char>,
    pub path: Seq<char>,
    pub size: u64,
    pub modified_time: Timestamp,
    pub file_type: FileType,
    pub indexed_time: Timestamp,
}

impl View for FileEntry {
    type V = FileEntryView;

    open spec fn view(&self) -> FileEntryView {
        FileEntryView {
            id: self.id,
            filename: self.filename@,
            path: self.path@,
            size: self.size,
            modified_time: self.modified_time,
            file_type: self.file_type,
            indexed_time: self.indexed_time,
        }
    }
}

impl FileEntryView {
    /// The record as the store keeps it under the identity `id`: times are
    /// cut to whole seconds.
    pub open spec fn stored_as(self, id: i64) -> FileEntryView {
        FileEntryView {
            id: Some(id),
            modified_time: self.modified_time.whole_seconds(),
            indexed_time: self.indexed_time.whole_seconds(),
            ..self
        }
    }
}

impl FileEntry {
    /// A record that the store has not seen yet. Its `indexed_time` is the
    /// wall-clock time of this call.
    pub fn new(
        filename: String,
        path: String,
        size: u64,
        modified_time: Timestamp,
        file_type: FileType,
    ) -> (entry: FileEntry)
        ensures
            entry@.id is None,
            entry@.filename == filename@,
            entry@.path == path@,
            entry@.size == size,
            entry@.modified_time == modified_time,
            entry@.file_type == file_type,
            entry@.indexed_time.is_valid(),
    {
        FileEntry {
            id: None,
            filename,
            path,
            size,
            modified_time,
            file_type,
            indexed_time: Timestamp::now(),
        }
    }

    /// A deep copy.
    pub fn duplicate(&self) -> (copy: FileEntry)
        ensures
            copy@ == self@,
    {
        FileEntry {
            id: self.id,
            filename: self.filename.clone(),
            path: self.path.clone(),
            size: self.size,
            modified_time: self.modified_time,
            file_type: self.file_type,
            indexed_time: self.indexed_time,
        }
    }
}

/// A change to the index. `Add` and `Update` both insert or overwrite the
/// record at the entry's path; which of the two was chosen records intent
/// only.
#[derive(Debug, Clone)]
pub enum IndexOperation {
    Add(FileEntry),
    Update(FileEntry),
    Delete(String),
    Move { from: String, to: String },
}

/// An `IndexOperation` as a mathematical value.
pub enum OperationView {
    Add(FileEntryView),
    Update(FileEntryView),
    Delete(Seq<char>),
    Move { from: Seq<char>, to: Seq<char> },
}

impl View for IndexOperation {
    type V = OperationView;

    open spec fn view(&self) -> OperationView {
        match self {
            IndexOperation::Add(e) => OperationView::Add(e@),
            IndexOperation::Update(e) => OperationView::Update(e@),
            IndexOperation::Delete(p) => OperationView::Delete(p@),
            IndexOperation::Move { from, to } => OperationView::Move { from: from@, to: to@ },
        }
    }
}

impl IndexOperation {
    /// A deep copy.
    pub fn duplicate(&self) -> (copy: IndexOperation)
        ensures
            copy@ == self@,
    {
        match self {
            IndexOperation::Add(e) => IndexOperation::Add(e.duplicate()),
            IndexOperation::Update(e) => IndexOperation::Update(e.duplicate()),
            IndexOperation::Delete(p) => IndexOperation::Delete(p.clone()),
            IndexOperation::Move { from, to } => IndexOperation::Move {
                from: from.clone(),
                to: to.clone(),
            },
        }
    }
}

/// The views of a list of operations.
pub open spec fn operation_views(ops: Seq<IndexOperation>) -> Seq<OperationView> {
    Seq::new(ops.len(), |i: int| ops[i]@)
}

/// The views of a list of entries.
pub open spec fn entry_views(entries: Seq<FileEntry>) -> Seq<FileEntryView> {
    Seq::new(entries.len(), |i: int| entries[i]@)
}

} // verus!
