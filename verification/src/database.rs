//! The index store: records keyed by path, usage counters, atomic batches
//! and ranked queries.
//!
//! The store lives in memory. A caller that persists it hands `open` what it
//! read back and writes out what `image` returns.
use vstd::prelude::*;
use vstd::string::*;
use crate::models::{
    current_timestamp, entry_views, operation_views, FileEntry, FileEntryView, IndexOperation,
};
use crate::paths::{file_name, file_stem};
use crate::ranking::{
    distinct_ids, is_top_selection, key_views, listed, select_top, RankKey, RankKeyView,
};
use crate::schema::{initialize, lemma_open_plan_exists};
use crate::store_laws::{
    lemma_delete_wf, lemma_insert_wf, lemma_launch_wf, lemma_position_of,
    lemma_rename_wf, lemma_upsert_wf, lemma_usage_position,
};
use crate::store_model::{
    has_id, has_path, has_usage, match_tier, moved_name, position_of, usage_position,
    without_usage, StoreError, StoreView, UsageStat, SCHEMA_VERSION,
};
use crate::text::{
    chars_of, contains_ignore_case, contains_nocase, nocase_order, starts_with_ignore_case,
};

verus! {

/// What a persisted store holds, as read back by the caller.
#[derive(Debug, Clone)]
pub struct StoreImage {
    /// The persisted schema version; 0 for storage that was never written.
    pub schema_version: i32,
    /// The identity that the next new record gets.
    pub next_id: i64,
    /// The records, oldest identity first.
    pub files: Vec<FileEntry>,
    /// The usage counters.
    pub usage: Vec<UsageStat>,
}

impl View for StoreImage {
    type V = StoreView;

    open spec fn view(&self) -> StoreView {
        StoreView {
            files: entry_views(self.files@),
            usage: self.usage@,
            next_id: self.next_id,
            schema_version: self.schema_version,
        }
    }
}

impl StoreImage {
    /// Storage that was never written.
    pub fn empty() -> (image: StoreImage)
        ensures
            image@ == (StoreView { schema_version: 0, ..StoreView::empty() }),
    {
        let image = StoreImage {
            schema_version: 0,
            next_id: 1,
            files: Vec::new(),
            usage: Vec::new(),
        };
        assert(image@.files =~= Seq::empty());
        image
    }
}

/// The index store.
pub struct Database {
    files: Vec<FileEntry>,
    usage: Vec<UsageStat>,
    next_id: i64,
    schema_version: i32,
}

impl View for Database {
    type V = StoreView;

    closed spec fn view(&self) -> StoreView {
        StoreView {
            files: entry_views(self.files@),
            usage: self.usage@,
            next_id: self.next_id,
            schema_version: self.schema_version,
        }
    }
}

/// A deep copy of a list of records.
fn duplicate_entries(entries: &Vec<FileEntry>) -> (copy: Vec<FileEntry>)
    ensures
        entry_views(copy@) == entry_views(entries@),
{
    let mut copy: Vec<FileEntry> = Vec::new();
    let mut i: usize = 0;
    while i < entries.len()
        invariant
            i <= entries.len(),
            copy.len() == i,
            forall|k: int| 0 <= k < i ==> copy@[k]@ == entries@[k]@,
        decreases entries.len() - i,
    {
        copy.push(entries[i].duplicate());
        i += 1;
    }
    assert(entry_views(copy@) =~= entry_views(entries@));
    copy
}

/// A copy of a list of counters.
fn duplicate_usage(usage: &Vec<UsageStat>) -> (copy: Vec<UsageStat>)
    ensures
        copy@ == usage@,
{
    let mut copy: Vec<UsageStat> = Vec::new();
    let mut i: usize = 0;
    while i < usage.len()
        invariant
            i <= usage.len(),
            copy.len() == i,
            forall|k: int| 0 <= k < i ==> copy@[k] == usage@[k],
        decreases usage.len() - i,
    {
        copy.push(usage[i]);
        i += 1;
    }
    assert(copy@ =~= usage@);
    copy
}

/// The record as the store keeps it under the identity `id`.
fn stored(entry: &FileEntry, id: i64) -> (row: FileEntry)
    ensures
        row@ == entry@.stored_as(id),
{
    FileEntry {
        id: Some(id),
        filename: entry.filename.clone(),
        path: entry.path.clone(),
        size: entry.size,
        modified_time: entry.modified_time.truncated(),
        file_type: entry.file_type,
        indexed_time: entry.indexed_time.truncated(),
    }
}

/// Whether some record of the list has the identity `id`.
fn holds_id(files: &Vec<FileEntry>, id: i64) -> (r: bool)
    ensures
        r == has_id(entry_views(files@), id),
{
    let mut i: usize = 0;
    while i < files.len()
        invariant
            i <= files.len(),
            forall|k: int| 0 <= k < i ==> (#[trigger] entry_views(files@)[k]).id != Some(id),
        decreases files.len() - i,
    {
        match files[i].id {
            Some(found) => {
                if found == id {
                    assert(entry_views(files@)[i as int].id == Some(id));
                    return true;
                }
            },
            None => {},
        }
        assert(entry_views(files@)[i as int].id != Some(id));
        i += 1;
    }
    false
}

/// Whether the records of an image keep the invariant: identities present,
/// positive, below `next_id` and ascending, times in whole seconds, no path
/// twice.
fn records_well_formed(image: &StoreImage) -> (r: bool)
    ensures
        r == {
            &&& forall|i: int|
                0 <= i < image@.files.len() ==> {
                    let row = #[trigger] image@.files[i];
                    &&& row.id is Some
                    &&& 1 <= row.id->0 < image@.next_id
                    &&& row.modified_time.nanos == 0
                    &&& row.indexed_time.nanos == 0
                }
            &&& forall|i: int, j: int|
                0 <= i < j < image@.files.len() ==> (#[trigger] image@.files[i]).id->0 < (
                #[trigger] image@.files[j]).id->0
            &&& forall|i: int, j: int|
                0 <= i < j < image@.files.len() ==> (#[trigger] image@.files[i]).path != (
                #[trigger] image@.files[j]).path
        },
{
    let ghost rows = image@.files;
    let mut j: usize = 0;
    while j < image.files.len()
        invariant
            j <= image.files.len(),
            rows == image@.files,
            forall|i: int|
                0 <= i < j ==> {
                    let row = #[trigger] rows[i];
                    &&& row.id is Some
                    &&& 1 <= row.id->0 < image@.next_id
                    &&& row.modified_time.nanos == 0
                    &&& row.indexed_time.nanos == 0
                },
            forall|a: int, b: int|
                0 <= a < b < j ==> (#[trigger] rows[a]).id->0 < (#[trigger] rows[b]).id->0,
            forall|a: int, b: int|
                0 <= a < b < j ==> (#[trigger] rows[a]).path != (#[trigger] rows[b]).path,
        decreases image.files.len() - j,
    {
        let row = &image.files[j];
        assert(rows[j as int] == row@);
        let id = match row.id {
            Some(id) => id,
            None => {
                return false;
            },
        };
        if id < 1 || id >= image.next_id || row.modified_time.nanos != 0
            || row.indexed_time.nanos != 0 {
            return false;
        }
        if j > 0 {
            let previous = match image.files[j - 1].id {
                Some(p) => p,
                None => 0,
            };
            assert(rows[j - 1].id == Some(previous));
            if previous >= id {
                return false;
            }
            assert forall|a: int| 0 <= a < j implies (#[trigger] rows[a]).id->0 < id by {
                if a < j - 1 {
                    assert(rows[a].id->0 < rows[j - 1].id->0);
                }
            }
        }
        let mut a: usize = 0;
        while a < j
            invariant
                a <= j,
                j < image.files.len(),
                rows == image@.files,
                row@ == rows[j as int],
                forall|k: int| 0 <= k < a ==> (#[trigger] rows[k]).path != rows[j as int].path,
            decreases j - a,
        {
            if image.files[a].path == row.path {
                assert(rows[a as int].path == rows[j as int].path);
                return false;
            }
            assert(rows[a as int].path != rows[j as int].path);
            a += 1;
        }
        j += 1;
    }
    true
}

/// Whether the counters of an image keep the invariant: at least one launch
/// each, each for an existing record, no record with two counters.
fn counters_well_formed(image: &StoreImage) -> (r: bool)
    ensures
        r == {
            &&& forall|k: int|
                0 <= k < image@.usage.len() ==> (#[trigger] image@.usage[k]).launch_count >= 1
                    && has_id(image@.files, image@.usage[k].file_id)
            &&& forall|k: int, l: int|
                0 <= k < l < image@.usage.len() ==> (#[trigger] image@.usage[k]).file_id != (
                #[trigger] image@.usage[l]).file_id
        },
{
    let ghost usage = image@.usage;
    let mut l: usize = 0;
    while l < image.usage.len()
        invariant
            l <= image.usage.len(),
            usage == image@.usage,
            forall|k: int|
                0 <= k < l ==> (#[trigger] usage[k]).launch_count >= 1 && has_id(
                    image@.files,
                    usage[k].file_id,
                ),
            forall|a: int, b: int|
                0 <= a < b < l ==> (#[trigger] usage[a]).file_id != (#[trigger] usage[b]).file_id,
        decreases image.usage.len() - l,
    {
        let counter = image.usage[l];
        assert(usage[l as int] == counter);
        if counter.launch_count < 1 || !holds_id(&image.files, counter.file_id) {
            return false;
        }
        let mut a: usize = 0;
        while a < l
            invariant
                a <= l,
                l < image.usage.len(),
                usage == image@.usage,
                counter == usage[l as int],
                forall|k: int| 0 <= k < a ==> (#[trigger] usage[k]).file_id != counter.file_id,
            decreases l - a,
        {
            if image.usage[a].file_id == counter.file_id {
                assert(usage[a as int].file_id == usage[l as int].file_id);
                return false;
            }
            a += 1;
        }
        l += 1;
    }
    true
}

/// Whether the content of an image keeps the invariant of the store.
fn is_well_formed(image: &StoreImage) -> (r: bool)
    ensures
        r == image@.wf(),
{
    image.next_id >= 1 && records_well_formed(image) && counters_well_formed(image)
}

/// A well-formed store holds fewer records than `next_id`.
pub proof fn lemma_count_bounded(s: StoreView)
    requires
        s.wf(),
    ensures
        s.files.len() < s.next_id,
{
    lemma_id_at_least_position(s, s.files.len() as int);
}

proof fn lemma_id_at_least_position(s: StoreView, n: int)
    requires
        s.wf(),
        0 <= n <= s.files.len(),
    ensures
        forall|i: int| 0 <= i < n ==> (#[trigger] s.files[i]).id->0 >= i + 1,
        n < s.next_id,
    decreases n,
{
    if n > 0 {
        lemma_id_at_least_position(s, n - 1);
        if n > 1 {
            assert(s.files[n - 2].id->0 < s.files[n - 1].id->0);
        }
        assert(s.files[n - 1].id->0 < s.next_id);
    }
}

impl Database {
    /// The invariant of the store.
    pub open spec fn wf(&self) -> bool {
        self@.wf()
    }

    /// An empty store at the current schema version.
    pub fn new() -> (db: Database)
        ensures
            db.wf(),
            db@ == StoreView::empty(),
    {
        let db = Database {
            files: Vec::new(),
            usage: Vec::new(),
            next_id: 1,
            schema_version: SCHEMA_VERSION,
        };
        assert(db@.files =~= Seq::empty());
        db
    }

    /// Opens a persisted store: checks that migrations lead from its schema
    /// version to the current one and that its content keeps the invariant,
    /// and takes the content over at the current version.
    pub fn open(image: StoreImage) -> (r: Result<Database, StoreError>)
        ensures
            match r {
                Ok(db) => db.wf() && image@.open() == Ok::<StoreView, StoreError>(db@),
                Err(e) => image@.open() == Err::<StoreView, StoreError>(e),
            },
    {
        match initialize(image.schema_version) {
            Err(e) => {
                proof {
                    lemma_open_plan_exists(image.schema_version);
                }
                return Err(StoreError::SchemaError);
            },
            Ok(_) => {
                proof {
                    lemma_open_plan_exists(image.schema_version);
                }
            },
        }
        if !is_well_formed(&image) {
            return Err(StoreError::StorageError);
        }
        let db = Database {
            files: image.files,
            usage: image.usage,
            next_id: image.next_id,
            schema_version: SCHEMA_VERSION,
        };
        Ok(db)
    }

    /// The schema version of the store.
    pub fn get_schema_version(&self) -> (version: i32)
        ensures
            version == self@.schema_version,
    {
        self.schema_version
    }

    /// What is to be persisted of the store.
    pub fn image(&self) -> (image: StoreImage)
        ensures
            image@ == self@,
    {
        StoreImage {
            schema_version: self.schema_version,
            next_id: self.next_id,
            files: duplicate_entries(&self.files),
            usage: duplicate_usage(&self.usage),
        }
    }

    /// Position of the record at `path`.
    fn find_path(&self, path: &String) -> (found: Option<usize>)
        requires
            self.wf(),
        ensures
            match found {
                Some(at) => at < self.files.len() && has_path(self@.files, path@) && position_of(
                    self@.files,
                    path@,
                ) == at,
                None => !has_path(self@.files, path@),
            },
    {
        let mut i: usize = 0;
        while i < self.files.len()
            invariant
                self.wf(),
                i <= self.files.len(),
                forall|k: int| 0 <= k < i ==> (#[trigger] self@.files[k]).path != path@,
            decreases self.files.len() - i,
        {
            if self.files[i].path == *path {
                proof {
                    assert(self@.files[i as int].path == path@);
                    lemma_position_of(self@, path@, i as int);
                }
                return Some(i);
            }
            assert(self@.files[i as int].path != path@);
            i += 1;
        }
        None
    }

    /// Position of the counter of the record `id`.
    fn find_usage(&self, id: i64) -> (found: Option<usize>)
        requires
            self.wf(),
        ensures
            match found {
                Some(at) => at < self.usage.len() && has_usage(self@.usage, id) && usage_position(
                    self@.usage,
                    id,
                ) == at,
                None => !has_usage(self@.usage, id),
            },
    {
        let mut i: usize = 0;
        while i < self.usage.len()
            invariant
                self.wf(),
                i <= self.usage.len(),
                forall|k: int| 0 <= k < i ==> (#[trigger] self@.usage[k]).file_id != id,
            decreases self.usage.len() - i,
        {
            if self.usage[i].file_id == id {
                proof {
                    lemma_usage_position(self@, id, i as int);
                }
                return Some(i);
            }
            i += 1;
        }
        None
    }

    /// Creates a record and returns its identity. A record at the same path
    /// is a conflict.
    pub fn insert_file(&mut self, entry: &FileEntry) -> (r: Result<i64, StoreError>)
        requires
            old(self).wf(),
        ensures
            final(self).wf(),
            match r {
                Ok(id) => old(self)@.insert(entry@) == Ok::<StoreView, StoreError>(final(self)@)
                    && id == old(self)@.next_id,
                Err(e) => old(self)@.insert(entry@) == Err::<StoreView, StoreError>(e) && final(self)@ == old(self)@,
            },
    {
        if self.find_path(&entry.path).is_some() {
            return Err(StoreError::ConflictError);
        }
        if self.next_id == i64::MAX {
            return Err(StoreError::StorageError);
        }
        let id = self.next_id;
        let ghost before = self@;
        self.files.push(stored(entry, id));
        self.next_id = id + 1;
        proof {
            assert(self@.files =~= before.files.push(entry@.stored_as(id)));
            lemma_insert_wf(before, entry@);
        }
        Ok(id)
    }

    /// Inserts the record, or overwrites the record at its path; that
    /// record keeps its identity and its counter.
    pub fn update_file(&mut self, entry: &FileEntry) -> (r: Result<(), StoreError>)
        requires
            old(self).wf(),
        ensures
            final(self).wf(),
            match r {
                Ok(()) => old(self)@.upsert(entry@) == Ok::<StoreView, StoreError>(final(self)@),
                Err(e) => old(self)@.upsert(entry@) == Err::<StoreView, StoreError>(e) && final(self)@ == old(self)@,
            },
    {
        match self.find_path(&entry.path) {
            Some(at) => {
                let ghost before = self@;
                let id = match self.files[at].id {
                    Some(id) => id,
                    None => 0,
                };
                assert(before.files[at as int].id == Some(id));
                self.files.set(at, stored(entry, id));
                proof {
                    assert(self@.files =~= before.files.update(
                        at as int,
                        entry@.stored_as(id),
                    ));
                    lemma_upsert_wf(before, entry@);
                }
                Ok(())
            },
            None => {
                match self.insert_file(entry) {
                    Ok(_) => Ok(()),
                    Err(e) => Err(e),
                }
            },
        }
    }

    /// Removes the record at `path` together with its counter. Nothing
    /// changes where no record is there.
    pub fn delete_file(&mut self, path: &str) -> (r: Result<(), StoreError>)
        requires
            old(self).wf(),
        ensures
            final(self).wf(),
            r is Ok,
            final(self)@ == old(self)@.delete(path@),
    {
        let key = path.to_owned();
        let ghost before = self@;
        proof {
            lemma_delete_wf(before, path@);
        }
        match self.find_path(&key) {
            Some(at) => {
                let id = match self.files[at].id {
                    Some(id) => id,
                    None => 0,
                };
                assert(before.files[at as int].id == Some(id));
                let counter = self.find_usage(id);
                self.files.remove(at);
                match counter {
                    Some(k) => {
                        self.usage.remove(k);
                    },
                    None => {},
                }
                proof {
                    assert(self@.files =~= before.files.remove(at as int));
                    assert(self@.usage =~= without_usage(before.usage, id));
                }
            },
            None => {},
        }
        Ok(())
    }

    /// Moves the record at `from` to `to` and names it after the base name
    /// of `to`. Nothing changes where no record is at `from`; a different
    /// record at `to` is a conflict.
    pub fn move_file(&mut self, from: &str, to: &str) -> (r: Result<(), StoreError>)
        requires
            old(self).wf(),
        ensures
            final(self).wf(),
            match r {
                Ok(()) => old(self)@.rename(from@, to@) == Ok::<StoreView, StoreError>(
                    final(self)@,
                ),
                Err(e) => old(self)@.rename(from@, to@) == Err::<StoreView, StoreError>(e)
                    && final(self)@ == old(self)@,
            },
    {
        let from_key = from.to_owned();
        let to_key = to.to_owned();
        let ghost before = self@;
        match self.find_path(&from_key) {
            None => Ok(()),
            Some(at) => {
                if from_key != to_key && self.find_path(&to_key).is_some() {
                    return Err(StoreError::ConflictError);
                }
                let filename = match file_name(to) {
                    Some(name) => name,
                    None => String::new(),
                };
                assert(filename@ == moved_name(to@));
                let row = &self.files[at];
                let moved = FileEntry {
                    id: row.id,
                    filename,
                    path: to_key,
                    size: row.size,
                    modified_time: row.modified_time,
                    file_type: row.file_type,
                    indexed_time: row.indexed_time,
                };
                self.files.set(at, moved);
                proof {
                    assert(self@.files =~= before.files.update(
                        at as int,
                        FileEntryView {
                            path: to@,
                            filename: moved_name(to@),
                            ..before.files[at as int]
                        },
                    ));
                    lemma_rename_wf(before, from@, to@);
                }
                Ok(())
            },
        }
    }

    /// Applies one operation.
    fn apply(&mut self, op: &IndexOperation) -> (r: Result<(), StoreError>)
        requires
            old(self).wf(),
        ensures
            final(self).wf(),
            match r {
                Ok(()) => old(self)@.apply(op@) == Ok::<StoreView, StoreError>(final(self)@),
                Err(e) => old(self)@.apply(op@) == Err::<StoreView, StoreError>(e) && final(self)@ == old(self)@,
            },
    {
        match op {
            IndexOperation::Add(entry) => self.update_file(entry),
            IndexOperation::Update(entry) => self.update_file(entry),
            IndexOperation::Delete(path) => self.delete_file(path.as_str()),
            IndexOperation::Move { from, to } => self.move_file(from.as_str(), to.as_str()),
        }
    }

    /// Applies the operations in order to a working copy and hands the copy
    /// back, or the error of the first operation that failed.
    fn try_execute_batch(&self, operations: &[IndexOperation]) -> (r: Result<
        Database,
        StoreError,
    >)
        requires
            self.wf(),
        ensures
            match r {
                Ok(next) => next.wf() && self@.apply_all(operation_views(operations@)) == Ok::<
                    StoreView,
                    StoreError,
                >(next@),
                Err(e) => self@.apply_all(operation_views(operations@)) == Err::<
                    StoreView,
                    StoreError,
                >(e),
            },
    {
        let mut work = Database {
            files: duplicate_entries(&self.files),
            usage: duplicate_usage(&self.usage),
            next_id: self.next_id,
            schema_version: self.schema_version,
        };
        let ghost ops = operation_views(operations@);
        assert(ops.skip(0) =~= ops);
        let mut i: usize = 0;
        while i < operations.len()
            invariant
                i <= operations.len(),
                ops == operation_views(operations@),
                work.wf(),
                self@.apply_all(ops) == work@.apply_all(ops.skip(i as int)),
            decreases operations.len() - i,
        {
            let ghost rest = ops.skip(i as int);
            assert(rest[0] == operations@[i as int]@);
            assert(rest.drop_first() =~= ops.skip(i + 1));
            match work.apply(&operations[i]) {
                Ok(()) => {},
                Err(e) => {
                    return Err(e);
                },
            }
            i += 1;
        }
        Ok(work)
    }

    /// Applies a batch of operations as one unit: all of them in order, or,
    /// where one fails, none.
    pub fn execute_batch(&mut self, operations: &[IndexOperation]) -> (r: Result<(), StoreError>)
        requires
            old(self).wf(),
        ensures
            final(self).wf(),
            match r {
                Ok(()) => old(self)@.apply_all(operation_views(operations@)) == Ok::<
                    StoreView,
                    StoreError,
                >(final(self)@),
                Err(e) => old(self)@.apply_all(operation_views(operations@)) == Err::<
                    StoreView,
                    StoreError,
                >(e) && final(self)@ == old(self)@,
            },
    {
        match self.try_execute_batch(operations) {
            Ok(next) => {
                *self = next;
                Ok(())
            },
            Err(e) => Err(e),
        }
    }

    /// Number of records.
    pub fn count_files(&self) -> (r: Result<i64, StoreError>)
        requires
            self.wf(),
        ensures
            r == Ok::<i64, StoreError>(self@.count() as i64),
            self@.count() <= i64::MAX,
    {
        proof {
            lemma_count_bounded(self@);
        }
        Ok(self.files.len() as i64)
    }

    /// Records a launch of the record at `path` at the wall-clock second
    /// `now`.
    pub fn record_file_launch_at(&mut self, path: &str, now: i64) -> (r: Result<(), StoreError>)
        requires
            old(self).wf(),
        ensures
            final(self).wf(),
            match r {
                Ok(()) => old(self)@.launch(path@, now) == Ok::<StoreView, StoreError>(
                    final(self)@,
                ),
                Err(e) => old(self)@.launch(path@, now) == Err::<StoreView, StoreError>(e)
                    && final(self)@ == old(self)@,
            },
    {
        let key = path.to_owned();
        let ghost before = self@;
        match self.find_path(&key) {
            None => Ok(()),
            Some(at) => {
                let id = match self.files[at].id {
                    Some(id) => id,
                    None => 0,
                };
                assert(before.files[at as int].id == Some(id));
                match self.find_usage(id) {
                    Some(k) => {
                        let counter = self.usage[k];
                        if counter.launch_count == i32::MAX {
                            return Err(StoreError::StorageError);
                        }
                        self.usage.set(
                            k,
                            UsageStat {
                                file_id: id,
                                launch_count: counter.launch_count + 1,
                                last_launched: now,
                            },
                        );
                    },
                    None => {
                        self.usage.push(
                            UsageStat { file_id: id, launch_count: 1, last_launched: now },
                        );
                    },
                }
                proof {
                    assert(self@.usage =~= before.launch(path@, now)->Ok_0.usage);
                    lemma_launch_wf(before, path@, now);
                }
                Ok(())
            },
        }
    }

    /// Records a launch of the record at `path` now.
    pub fn record_file_launch(&mut self, path: &str) -> (r: Result<(), StoreError>)
        requires
            old(self).wf(),
        ensures
            final(self).wf(),
            exists|now: i64|
                now >= 0 && match r {
                    Ok(()) => #[trigger] old(self)@.launch(path@, now) == Ok::<
                        StoreView,
                        StoreError,
                    >(final(self)@),
                    Err(e) => old(self)@.launch(path@, now) == Err::<StoreView, StoreError>(e)
                        && final(self)@ == old(self)@,
                },
    {
        let now = current_timestamp();
        self.record_file_launch_at(path, now)
    }

    /// Launch count and last launch of the record at `path`, where it was
    /// ever launched.
    pub fn get_file_usage(&self, path: &str) -> (r: Result<Option<(i32, i64)>, StoreError>)
        requires
            self.wf(),
        ensures
            r is Ok,
            match r->Ok_0 {
                Some((count, last)) => {
                    &&& has_path(self@.files, path@)
                    &&& has_usage(self@.usage, self@.files[position_of(self@.files, path@)].id->0)
                    &&& count == self@.launch_count(
                        self@.files[position_of(self@.files, path@)].id->0,
                    )
                    &&& last == self@.last_launched(
                        self@.files[position_of(self@.files, path@)].id->0,
                    )
                },
                None => !has_path(self@.files, path@) || !has_usage(
                    self@.usage,
                    self@.files[position_of(self@.files, path@)].id->0,
                ),
            },
    {
        let key = path.to_owned();
        match self.find_path(&key) {
            None => Ok(None),
            Some(at) => {
                let id = match self.files[at].id {
                    Some(id) => id,
                    None => 0,
                };
                assert(self@.files[at as int].id == Some(id));
                match self.find_usage(id) {
                    Some(k) => Ok(Some((self.usage[k].launch_count, self.usage[k].last_launched))),
                    None => Ok(None),
                }
            },
        }
    }

    /// The records at the positions `top`, in that order.
    fn collect(&self, top: &Vec<usize>) -> (found: Vec<FileEntry>)
        requires
            forall|k: int| 0 <= k < top.len() ==> top@[k] < self.files.len(),
        ensures
            found.len() == top.len(),
            forall|k: int|
                0 <= k < top.len() ==> (#[trigger] found@[k])@ == self@.files[top@[k] as int],
    {
        let mut found: Vec<FileEntry> = Vec::new();
        let mut k: usize = 0;
        while k < top.len()
            invariant
                k <= top.len(),
                found.len() == k,
                forall|j: int| 0 <= j < top.len() ==> top@[j] < self.files.len(),
                forall|j: int|
                    0 <= j < k ==> (#[trigger] found@[j])@ == self@.files[top@[j] as int],
            decreases top.len() - k,
        {
            found.push(self.files[top[k]].duplicate());
            k += 1;
        }
        found
    }

    /// Launch count and last launch of the record `id`; zeros where it has
    /// no counter.
    fn usage_of(&self, id: i64) -> (r: (i32, i64))
        requires
            self.wf(),
        ensures
            r.0 == self@.launch_count(id),
            r.1 == self@.last_launched(id),
    {
        match self.find_usage(id) {
            Some(k) => (self.usage[k].launch_count, self.usage[k].last_launched),
            None => (0, 0),
        }
    }

    /// Up to `limit` records whose file name contains `query` without
    /// regard to ASCII case, best first: exact matches (the whole name
    /// before the name without its extension), then names that begin with
    /// the query, then the others; within a tier by launch count, highest
    /// first, then by name. Case plays no part in any of it.
    pub fn query_files(&self, query: &str, limit: usize) -> (r: Result<Vec<FileEntry>, StoreError>)
        requires
            self.wf(),
        ensures
            r is Ok,
            self@.is_query_result(query@, limit as nat, entry_views(r->Ok_0@)),
    {
        let q = chars_of(query);
        let mut keys: Vec<RankKey> = Vec::new();
        let mut eligible: Vec<bool> = Vec::new();
        let mut i: usize = 0;
        while i < self.files.len()
            invariant
                self.wf(),
                q@ == query@,
                i <= self.files.len(),
                keys.len() == i,
                eligible.len() == i,
                forall|k: int|
                    0 <= k < i ==> (#[trigger] keys@[k])@ == self@.query_key(
                        query@,
                        self@.files[k],
                    ),
                forall|k: int|
                    0 <= k < i ==> #[trigger] eligible@[k] == contains_nocase(
                        self@.files[k].filename,
                        query@,
                    ),
            decreases self.files.len() - i,
        {
            let row = &self.files[i];
            let id = match row.id {
                Some(id) => id,
                None => 0,
            };
            assert(self@.files[i as int].id == Some(id));
            let name = chars_of(row.filename.as_str());
            let hit = contains_ignore_case(&name, &q);
            let tier = tier_of(row.filename.as_str(), &name, &q);
            let counter = self.usage_of(id);
            keys.push(RankKey { tier, count: counter.0, recency: 0, name, id });
            eligible.push(hit);
            i += 1;
        }
        proof {
            lemma_keys_distinct(self@, key_views(keys@));
        }
        let top = select_top(&keys, &eligible, limit);
        let found = self.collect(&top);
        proof {
            lemma_selection_is_query_result(
                self@,
                query@,
                limit as nat,
                key_views(keys@),
                eligible@,
                top@,
                entry_views(found@),
            );
        }
        Ok(found)
    }

    /// Up to `limit` records that were launched, most launched first; among
    /// equal counts the one launched last comes first.
    pub fn get_most_used_files(&self, limit: usize) -> (r: Result<Vec<FileEntry>, StoreError>)
        requires
            self.wf(),
        ensures
            r is Ok,
            self@.is_most_used_result(limit as nat, entry_views(r->Ok_0@)),
    {
        let mut keys: Vec<RankKey> = Vec::new();
        let mut eligible: Vec<bool> = Vec::new();
        let mut i: usize = 0;
        while i < self.files.len()
            invariant
                self.wf(),
                i <= self.files.len(),
                keys.len() == i,
                eligible.len() == i,
                forall|k: int|
                    0 <= k < i ==> (#[trigger] keys@[k])@ == self@.usage_key(self@.files[k]),
                forall|k: int|
                    0 <= k < i ==> #[trigger] eligible@[k] == has_usage(
                        self@.usage,
                        self@.files[k].id->0,
                    ),
            decreases self.files.len() - i,
        {
            let row = &self.files[i];
            let id = match row.id {
                Some(id) => id,
                None => 0,
            };
            assert(self@.files[i as int].id == Some(id));
            let launched = self.find_usage(id).is_some();
            let counter = self.usage_of(id);
            keys.push(
                RankKey { tier: 0, count: counter.0, recency: counter.1, name: Vec::new(), id },
            );
            eligible.push(launched);
            i += 1;
        }
        proof {
            lemma_keys_distinct(self@, key_views(keys@));
        }
        let top = select_top(&keys, &eligible, limit);
        let found = self.collect(&top);
        proof {
            lemma_selection_is_most_used(
                self@,
                limit as nat,
                key_views(keys@),
                eligible@,
                top@,
                entry_views(found@),
            );
        }
        Ok(found)
    }
}

/// Match tier of a file name under a query.
fn tier_of(filename: &str, name: &Vec<char>, query: &Vec<char>) -> (tier: u8)
    requires
        name@ == filename@,
    ensures
        tier == match_tier(filename@, query@),
{
    if nocase_order(name, query) == 0 {
        return 0;
    }
    let stem = file_stem(filename);
    let stem_chars = chars_of(stem.as_str());
    if nocase_order(&stem_chars, query) == 0 {
        1
    } else if starts_with_ignore_case(name, query) {
        2
    } else {
        3
    }
}

/// Keys that carry the identities of the records of a well-formed store
/// carry different identities.
proof fn lemma_keys_distinct(s: StoreView, keys: Seq<RankKeyView>)
    requires
        s.wf(),
        keys.len() == s.files.len(),
        forall|k: int| 0 <= k < keys.len() ==> (#[trigger] keys[k]).id == s.files[k].id->0,
    ensures
        distinct_ids(keys),
{
    assert forall|i: int, j: int|
        0 <= i < keys.len() && 0 <= j < keys.len() && i != j implies keys[i].id != keys[j].id by {
        if i < j {
            assert(s.files[i].id->0 < s.files[j].id->0);
        } else {
            assert(s.files[j].id->0 < s.files[i].id->0);
        }
    }
}

/// The records at the positions of the best keys are the result of the
/// query.
proof fn lemma_selection_is_query_result(
    s: StoreView,
    query: Seq<char>,
    limit: nat,
    keys: Seq<RankKeyView>,
    eligible: Seq<bool>,
    top: Seq<usize>,
    found: Seq<FileEntryView>,
)
    requires
        s.wf(),
        keys.len() == s.files.len(),
        eligible.len() == s.files.len(),
        forall|k: int| 0 <= k < keys.len() ==> (#[trigger] keys[k]) == s.query_key(query, s.files[k]),
        forall|k: int|
            0 <= k < eligible.len() ==> #[trigger] eligible[k] == contains_nocase(
                s.files[k].filename,
                query,
            ),
        is_top_selection(keys, eligible, limit, top),
        found.len() == top.len(),
        forall|k: int| 0 <= k < top.len() ==> (#[trigger] found[k]) == s.files[top[k] as int],
    ensures
        s.is_query_result(query, limit, found),
{
    assert forall|k: int| 0 <= k < found.len() implies s.files.contains(#[trigger] found[k])
        && contains_nocase(found[k].filename, query) by {
        assert(s.files[top[k] as int] == found[k]);
        assert(eligible[top[k] as int]);
    }
    assert forall|k: int, l: int| 0 <= k < l < found.len() implies s.query_before(
        query,
        #[trigger] found[k],
        #[trigger] found[l],
    ) by {
        assert(keys[top[k] as int] == s.query_key(query, found[k]));
        assert(keys[top[l] as int] == s.query_key(query, found[l]));
    }
    assert forall|i: int|
        0 <= i < s.files.len() && contains_nocase((#[trigger] s.files[i]).filename, query)
            && !found.contains(s.files[i]) implies found.len() == limit && forall|k: int|
        0 <= k < found.len() ==> s.query_before(query, #[trigger] found[k], s.files[i]) by {
        assert(eligible[i]);
        if listed(top, i) {
            let w = choose|w: int| 0 <= w < top.len() && (#[trigger] top[w]) as int == i;
            assert(found[w] == s.files[i]);
        }
        assert forall|k: int| 0 <= k < found.len() implies s.query_before(
            query,
            #[trigger] found[k],
            s.files[i],
        ) by {
            assert(keys[top[k] as int] == s.query_key(query, found[k]));
            assert(keys[i] == s.query_key(query, s.files[i]));
        }
    }
}

/// The records at the positions of the best keys are the most used records.
proof fn lemma_selection_is_most_used(
    s: StoreView,
    limit: nat,
    keys: Seq<RankKeyView>,
    eligible: Seq<bool>,
    top: Seq<usize>,
    found: Seq<FileEntryView>,
)
    requires
        s.wf(),
        keys.len() == s.files.len(),
        eligible.len() == s.files.len(),
        forall|k: int| 0 <= k < keys.len() ==> (#[trigger] keys[k]) == s.usage_key(s.files[k]),
        forall|k: int|
            0 <= k < eligible.len() ==> #[trigger] eligible[k] == has_usage(
                s.usage,
                s.files[k].id->0,
            ),
        is_top_selection(keys, eligible, limit, top),
        found.len() == top.len(),
        forall|k: int| 0 <= k < top.len() ==> (#[trigger] found[k]) == s.files[top[k] as int],
    ensures
        s.is_most_used_result(limit, found),
{
    assert forall|k: int| 0 <= k < found.len() implies s.files.contains(#[trigger] found[k])
        && has_usage(s.usage, found[k].id->0) by {
        assert(s.files[top[k] as int] == found[k]);
        assert(eligible[top[k] as int]);
    }
    assert forall|k: int, l: int| 0 <= k < l < found.len() implies s.usage_before(
        #[trigger] found[k],
        #[trigger] found[l],
    ) by {
        assert(keys[top[k] as int] == s.usage_key(found[k]));
        assert(keys[top[l] as int] == s.usage_key(found[l]));
    }
    assert forall|i: int|
        0 <= i < s.files.len() && has_usage(s.usage, (#[trigger] s.files[i]).id->0)
            && !found.contains(s.files[i]) implies found.len() == limit && forall|k: int|
        0 <= k < found.len() ==> s.usage_before(#[trigger] found[k], s.files[i]) by {
        assert(eligible[i]);
        if listed(top, i) {
            let w = choose|w: int| 0 <= w < top.len() && (#[trigger] top[w]) as int == i;
            assert(found[w] == s.files[i]);
        }
        assert forall|k: int| 0 <= k < found.len() implies s.usage_before(
            #[trigger] found[k],
            s.files[i],
        ) by {
            assert(keys[top[k] as int] == s.usage_key(found[k]));
            assert(keys[i] == s.usage_key(s.files[i]));
        }
    }
}

} // verus!
