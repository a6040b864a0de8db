//! The index store as a mathematical state machine: its state, the
//! invariant that every operation keeps, and what each operation does.
use vstd::prelude::*;
use crate::models::{FileEntryView, OperationView};
use crate::paths::{file_name_of, stem_of};
use crate::ranking::RankKeyView;
use crate::text::{contains_nocase, nocase_eq, starts_with_nocase};

verus! {

/// The schema version that this library writes.
pub const SCHEMA_VERSION: i32 = 2;

/// Usage counter of one record: how often it was launched and when last.
#[derive(Debug, Clone, Copy, PartialEq, Eq, Structural)]
pub struct UsageStat {
    /// Identity of the record that the counter belongs to.
    pub file_id: i64,
    pub launch_count: i32,
    /// Wall-clock seconds of the last launch.
    pub last_launched: i64,
}

/// Why a store operation failed.
#[derive(Debug, Clone, Copy, PartialEq, Eq, Structural)]
pub enum StoreError {
    /// The persisted schema version cannot be migrated from.
    SchemaError,
    /// A uniqueness constraint would be violated. Not retriable.
    ConflictError,
    /// Another writer held the store through every attempt.
    BusyError,
    /// The store is corrupt or a counter is exhausted. Not retriable.
    StorageError,
}

/// The state of the store.
pub struct StoreView {
    /// The records, oldest identity first.
    pub files: Seq<FileEntryView>,
    /// The usage counters.
    pub usage: Seq<UsageStat>,
    /// The identity that the next new record gets.
    pub next_id: i64,
    pub schema_version: i32,
}

/// Some record has the path `path`.
pub open spec fn has_path(files: Seq<FileEntryView>, path: Seq<char>) -> bool {
    exists|i: int| 0 <= i < files.len() && (#[trigger] files[i]).path == path
}

/// Position of the record with the path `path`.
pub open spec fn position_of(files: Seq<FileEntryView>, path: Seq<char>) -> int {
    choose|i: int| 0 <= i < files.len() && (#[trigger] files[i]).path == path
}

/// Some record has the identity `id`.
pub open spec fn has_id(files: Seq<FileEntryView>, id: i64) -> bool {
    exists|i: int| 0 <= i < files.len() && (#[trigger] files[i]).id == Some(id)
}

/// Some counter belongs to the record `id`.
pub open spec fn has_usage(usage: Seq<UsageStat>, id: i64) -> bool {
    exists|k: int| 0 <= k < usage.len() && (#[trigger] usage[k]).file_id == id
}

/// Position of the counter of the record `id`.
pub open spec fn usage_position(usage: Seq<UsageStat>, id: i64) -> int {
    choose|k: int| 0 <= k < usage.len() && (#[trigger] usage[k]).file_id == id
}

/// The counters without that of the record `id`.
pub open spec fn without_usage(usage: Seq<UsageStat>, id: i64) -> Seq<UsageStat> {
    if has_usage(usage, id) {
        usage.remove(usage_position(usage, id))
    } else {
        usage
    }
}

/// The file name that a moved record gets: the base name of its new path, or
/// the empty name where the path has none.
pub open spec fn moved_name(to: Seq<char>) -> Seq<char> {
    match file_name_of(to) {
        Some(name) => name,
        None => Seq::empty(),
    }
}

/// The query is the whole file name, without regard to ASCII case.
pub open spec fn is_exact_match(filename: Seq<char>, query: Seq<char>) -> bool {
    nocase_eq(filename, query)
}

/// The query is the file name without its extension, without regard to
/// ASCII case.
pub open spec fn is_stem_match(filename: Seq<char>, query: Seq<char>) -> bool {
    nocase_eq(stem_of(filename), query)
}

/// Match tier of a file name under a query, all without regard to ASCII
/// case. Exact matches come first: 0 where the query is the whole name, 1
/// where it is the name without its extension. Then 2 where the name
/// begins with the query, and 3 where it only contains it.
pub open spec fn match_tier(filename: Seq<char>, query: Seq<char>) -> u8 {
    if is_exact_match(filename, query) {
        0
    } else if is_stem_match(filename, query) {
        1
    } else if starts_with_nocase(filename, query) {
        2
    } else {
        3
    }
}

impl StoreView {
    /// The invariant of the store: identities are positive, below `next_id`
    /// and ascending; no path occurs twice; times are whole seconds; every
    /// counter belongs to an existing record, counts at least one launch,
    /// and no record has two counters.
    pub open spec fn wf(self) -> bool {
        &&& 1 <= self.next_id
        &&& forall|i: int|
            0 <= i < self.files.len() ==> {
                let row = #[trigger] self.files[i];
                &&& row.id is Some
                &&& 1 <= row.id->0 < self.next_id
                &&& row.modified_time.nanos == 0
                &&& row.indexed_time.nanos == 0
            }
        &&& forall|i: int, j: int|
            0 <= i < j < self.files.len() ==> (#[trigger] self.files[i]).id->0 < (
            #[trigger] self.files[j]).id->0
        &&& forall|i: int, j: int|
            0 <= i < j < self.files.len() ==> (#[trigger] self.files[i]).path != (
            #[trigger] self.files[j]).path
        &&& forall|k: int|
            0 <= k < self.usage.len() ==> (#[trigger] self.usage[k]).launch_count >= 1 && has_id(
                self.files,
                self.usage[k].file_id,
            )
        &&& forall|k: int, l: int|
            0 <= k < l < self.usage.len() ==> (#[trigger] self.usage[k]).file_id != (
            #[trigger] self.usage[l]).file_id
    }

    /// An empty store at the current schema version.
    pub open spec fn empty() -> StoreView {
        StoreView {
            files: Seq::empty(),
            usage: Seq::empty(),
            next_id: 1,
            schema_version: SCHEMA_VERSION,
        }
    }

    /// What opening a persisted store gives: the same records and counters
    /// at the current schema version. A version from which no migrations
    /// lead to the current one, that is a negative one or one above the
    /// current one, is a schema error; content that breaks the invariant
    /// is a storage error.
    pub open spec fn open(self) -> Result<StoreView, StoreError> {
        if self.schema_version < 0 || self.schema_version > SCHEMA_VERSION {
            Err(StoreError::SchemaError)
        } else if !self.wf() {
            Err(StoreError::StorageError)
        } else {
            Ok(StoreView { schema_version: SCHEMA_VERSION, ..self })
        }
    }

    /// Number of records.
    pub open spec fn count(self) -> int {
        self.files.len() as int
    }

    /// How often the record `id` was launched; 0 where it has no counter.
    pub open spec fn launch_count(self, id: i64) -> i32 {
        if has_usage(self.usage, id) {
            self.usage[usage_position(self.usage, id)].launch_count
        } else {
            0
        }
    }

    /// When the record `id` was last launched; 0 where it has no counter.
    pub open spec fn last_launched(self, id: i64) -> i64 {
        if has_usage(self.usage, id) {
            self.usage[usage_position(self.usage, id)].last_launched
        } else {
            0
        }
    }

    /// Creates a record; the path must be new.
    pub open spec fn insert(self, entry: FileEntryView) -> Result<StoreView, StoreError> {
        if has_path(self.files, entry.path) {
            Err(StoreError::ConflictError)
        } else if self.next_id == i64::MAX {
            Err(StoreError::StorageError)
        } else {
            Ok(
                StoreView {
                    files: self.files.push(entry.stored_as(self.next_id)),
                    next_id: (self.next_id + 1) as i64,
                    ..self
                },
            )
        }
    }

    /// Inserts the record, or overwrites the one at its path and keeps that
    /// record's identity.
    pub open spec fn upsert(self, entry: FileEntryView) -> Result<StoreView, StoreError> {
        if has_path(self.files, entry.path) {
            let at = position_of(self.files, entry.path);
            Ok(
                StoreView {
                    files: self.files.update(at, entry.stored_as(self.files[at].id->0)),
                    ..self
                },
            )
        } else {
            self.insert(entry)
        }
    }

    /// Removes the record at `path`, if any, together with its counter.
    pub open spec fn delete(self, path: Seq<char>) -> StoreView {
        if has_path(self.files, path) {
            let at = position_of(self.files, path);
            StoreView {
                files: self.files.remove(at),
                usage: without_usage(self.usage, self.files[at].id->0),
                ..self
            }
        } else {
            self
        }
    }

    /// Moves the record at `from`, if any, to `to` and renames it after the
    /// base name of `to`. A different record at `to` is a conflict.
    pub open spec fn rename(self, from: Seq<char>, to: Seq<char>) -> Result<
        StoreView,
        StoreError,
    > {
        if !has_path(self.files, from) {
            Ok(self)
        } else if to != from && has_path(self.files, to) {
            Err(StoreError::ConflictError)
        } else {
            let at = position_of(self.files, from);
            Ok(
                StoreView {
                    files: self.files.update(
                        at,
                        FileEntryView { path: to, filename: moved_name(to), ..self.files[at] },
                    ),
                    ..self
                },
            )
        }
    }

    /// One operation of a batch.
    pub open spec fn apply(self, op: OperationView) -> Result<StoreView, StoreError> {
        match op {
            OperationView::Add(entry) => self.upsert(entry),
            OperationView::Update(entry) => self.upsert(entry),
            OperationView::Delete(path) => Ok(self.delete(path)),
            OperationView::Move { from, to } => self.rename(from, to),
        }
    }

    /// The operations of a batch in order, up to the first that fails.
    pub open spec fn apply_all(self, ops: Seq<OperationView>) -> Result<StoreView, StoreError>
        decreases ops.len(),
    {
        if ops.len() == 0 {
            Ok(self)
        } else {
            match self.apply(ops[0]) {
                Ok(next) => next.apply_all(ops.drop_first()),
                Err(e) => Err(e),
            }
        }
    }

    /// A launch of the record at `path` at the wall-clock second `now`: its
    /// counter is created with one launch, or incremented. Nothing changes
    /// where no record is at `path`.
    pub open spec fn launch(self, path: Seq<char>, now: i64) -> Result<StoreView, StoreError> {
        if !has_path(self.files, path) {
            Ok(self)
        } else {
            let id = self.files[position_of(self.files, path)].id->0;
            if has_usage(self.usage, id) {
                let k = usage_position(self.usage, id);
                if self.usage[k].launch_count == i32::MAX {
                    Err(StoreError::StorageError)
                } else {
                    Ok(
                        StoreView {
                            usage: self.usage.update(
                                k,
                                UsageStat {
                                    file_id: id,
                                    launch_count: (self.usage[k].launch_count + 1) as i32,
                                    last_launched: now,
                                },
                            ),
                            ..self
                        },
                    )
                }
            } else {
                Ok(
                    StoreView {
                        usage: self.usage.push(
                            UsageStat { file_id: id, launch_count: 1, last_launched: now },
                        ),
                        ..self
                    },
                )
            }
        }
    }

    /// The sort key of a record under a query.
    pub open spec fn query_key(self, query: Seq<char>, row: FileEntryView) -> RankKeyView {
        RankKeyView {
            tier: match_tier(row.filename, query),
            count: self.launch_count(row.id->0),
            recency: 0,
            name: row.filename,
            id: row.id->0,
        }
    }

    /// The sort key of a record by usage.
    pub open spec fn usage_key(self, row: FileEntryView) -> RankKeyView {
        RankKeyView {
            tier: 0,
            count: self.launch_count(row.id->0),
            recency: self.last_launched(row.id->0),
            name: Seq::empty(),
            id: row.id->0,
        }
    }

    /// `a` comes before `b` in the result of the query: exact matches first
    /// (the whole name before the name without its extension), then names
    /// that begin with the query, then the others; within a tier the higher
    /// launch count first; then by name without regard to ASCII case; at
    /// last the older record first.
    pub open spec fn query_before(
        self,
        query: Seq<char>,
        a: FileEntryView,
        b: FileEntryView,
    ) -> bool {
        crate::ranking::key_lt(self.query_key(query, a), self.query_key(query, b))
    }

    /// `a` comes before `b` among the most used records: the higher launch
    /// count first, then the later launch, at last the older record.
    pub open spec fn usage_before(self, a: FileEntryView, b: FileEntryView) -> bool {
        crate::ranking::key_lt(self.usage_key(a), self.usage_key(b))
    }

    /// `found` is the result of the query: the `limit` best of the records
    /// whose file name contains the query without regard to ASCII case, best
    /// first.
    pub open spec fn is_query_result(
        self,
        query: Seq<char>,
        limit: nat,
        found: Seq<FileEntryView>,
    ) -> bool {
        &&& found.len() <= limit
        &&& forall|k: int|
            0 <= k < found.len() ==> self.files.contains(#[trigger] found[k]) && contains_nocase(
                found[k].filename,
                query,
            )
        &&& forall|k: int, l: int|
            0 <= k < l < found.len() ==> self.query_before(
                query,
                #[trigger] found[k],
                #[trigger] found[l],
            )
        &&& forall|i: int|
            0 <= i < self.files.len() && contains_nocase(
                (#[trigger] self.files[i]).filename,
                query,
            ) && !found.contains(self.files[i]) ==> found.len() == limit && forall|k: int|
                0 <= k < found.len() ==> self.query_before(
                    query,
                    #[trigger] found[k],
                    self.files[i],
                )
    }

    /// `found` lists the `limit` most used records, most used first. Only
    /// records that were launched are listed.
    pub open spec fn is_most_used_result(self, limit: nat, found: Seq<FileEntryView>) -> bool {
        &&& found.len() <= limit
        &&& forall|k: int|
            0 <= k < found.len() ==> self.files.contains(#[trigger] found[k]) && has_usage(
                self.usage,
                found[k].id->0,
            )
        &&& forall|k: int, l: int|
            0 <= k < l < found.len() ==> self.usage_before(
                #[trigger] found[k],
                #[trigger] found[l],
            )
        &&& forall|i: int|
            0 <= i < self.files.len() && has_usage(self.usage, (#[trigger] self.files[i]).id->0)
                && !found.contains(self.files[i]) ==> found.len() == limit && forall|k: int|
                0 <= k < found.len() ==> self.usage_before(#[trigger] found[k], self.files[i])
    }
}

} // verus!
