//! What holds of the store in every state: each operation keeps the
//! invariant, and the laws of batches, launches and queries.
use vstd::prelude::*;
use crate::models::{FileEntryView, OperationView};
use crate::ranking::{is_selection_by, lemma_key_lt_asymmetric, lemma_selection_unique};
use crate::store_model::{
    has_id, has_path, has_usage, match_tier, position_of, usage_position, StoreError, StoreView,
    SCHEMA_VERSION,
};
use crate::text::{
    contains_nocase, lemma_seq_lt_asymmetric, lemma_seq_lt_irreflexive, lowered, nocase_eq,
    nocase_lt, occurs_at,
};

verus! {

/// In a well-formed store a path names one position.
pub proof fn lemma_position_of(s: StoreView, path: Seq<char>, at: int)
    requires
        s.wf(),
        0 <= at < s.files.len(),
        s.files[at].path == path,
    ensures
        has_path(s.files, path),
        position_of(s.files, path) == at,
{
    let p = position_of(s.files, path);
    if p < at {
        assert(s.files[p].path != s.files[at].path);
    } else if at < p {
        assert(s.files[at].path != s.files[p].path);
    }
}

/// In a well-formed store a record has at most one counter.
pub proof fn lemma_usage_position(s: StoreView, id: i64, at: int)
    requires
        s.wf(),
        0 <= at < s.usage.len(),
        s.usage[at].file_id == id,
    ensures
        has_usage(s.usage, id),
        usage_position(s.usage, id) == at,
{
    let p = usage_position(s.usage, id);
    if p < at {
        assert(s.usage[p].file_id != s.usage[at].file_id);
    } else if at < p {
        assert(s.usage[at].file_id != s.usage[p].file_id);
    }
}

/// A successful insert keeps the invariant.
pub proof fn lemma_insert_wf(s: StoreView, entry: FileEntryView)
    requires
        s.wf(),
        s.insert(entry) is Ok,
    ensures
        s.insert(entry)->Ok_0.wf(),
{
    let t = s.insert(entry)->Ok_0;
    let n = s.files.len() as int;
    assert(t.files[n] == entry.stored_as(s.next_id));
    assert forall|i: int, j: int| 0 <= i < j < t.files.len() implies (#[trigger] t.files[i]).path
        != (#[trigger] t.files[j]).path by {
        if j == n {
            assert(s.files[i].path != entry.path);
        } else {
            assert(t.files[i] == s.files[i] && t.files[j] == s.files[j]);
        }
    }
    assert forall|i: int, j: int| 0 <= i < j < t.files.len() implies (#[trigger] t.files[i]).id->0
        < (#[trigger] t.files[j]).id->0 by {
        if j == n {
            assert(t.files[i] == s.files[i]);
        } else {
            assert(t.files[i] == s.files[i] && t.files[j] == s.files[j]);
        }
    }
    assert forall|k: int| 0 <= k < t.usage.len() implies has_id(
        t.files,
        (#[trigger] t.usage[k]).file_id,
    ) by {
        assert(has_id(s.files, s.usage[k].file_id));
        let w = choose|w: int|
            0 <= w < s.files.len() && (#[trigger] s.files[w]).id == Some(s.usage[k].file_id);
        assert(t.files[w] == s.files[w]);
    }
    assert forall|i: int| 0 <= i < t.files.len() implies {
        let row = #[trigger] t.files[i];
        &&& row.id is Some
        &&& 1 <= row.id->0 < t.next_id
        &&& row.modified_time.nanos == 0
        &&& row.indexed_time.nanos == 0
    } by {
        if i < n {
            assert(t.files[i] == s.files[i]);
        }
    }
}

/// A successful upsert keeps the invariant.
pub proof fn lemma_upsert_wf(s: StoreView, entry: FileEntryView)
    requires
        s.wf(),
        s.upsert(entry) is Ok,
    ensures
        s.upsert(entry)->Ok_0.wf(),
{
    if has_path(s.files, entry.path) {
        let at = position_of(s.files, entry.path);
        let t = s.upsert(entry)->Ok_0;
        assert(t.files[at] == entry.stored_as(s.files[at].id->0));
        assert forall|i: int| 0 <= i < t.files.len() implies {
            let row = #[trigger] t.files[i];
            &&& row.id is Some
            &&& row.id == s.files[i].id
            &&& row.path == s.files[i].path
            &&& 1 <= row.id->0 < t.next_id
            &&& row.modified_time.nanos == 0
            &&& row.indexed_time.nanos == 0
        } by {
            if i != at {
                assert(t.files[i] == s.files[i]);
            }
        }
        assert forall|i: int, j: int| 0 <= i < j < t.files.len() implies (
        #[trigger] t.files[i]).path != (#[trigger] t.files[j]).path by {
            assert(s.files[i].path != s.files[j].path);
        }
        assert forall|i: int, j: int| 0 <= i < j < t.files.len() implies (
        #[trigger] t.files[i]).id->0 < (#[trigger] t.files[j]).id->0 by {
            assert(s.files[i].id->0 < s.files[j].id->0);
        }
        assert forall|k: int| 0 <= k < t.usage.len() implies has_id(
            t.files,
            (#[trigger] t.usage[k]).file_id,
        ) by {
            assert(has_id(s.files, s.usage[k].file_id));
            let w = choose|w: int|
                0 <= w < s.files.len() && (#[trigger] s.files[w]).id == Some(s.usage[k].file_id);
            assert(t.files[w].id == s.files[w].id);
        }
    } else {
        lemma_insert_wf(s, entry);
    }
}

/// A delete keeps the invariant: the counter of the removed record goes with
/// it.
pub proof fn lemma_delete_wf(s: StoreView, path: Seq<char>)
    requires
        s.wf(),
    ensures
        s.delete(path).wf(),
        !has_path(s.delete(path).files, path),
{
    let t = s.delete(path);
    if has_path(s.files, path) {
        let at = position_of(s.files, path);
        let gone = s.files[at].id->0;
        assert forall|i: int| 0 <= i < t.files.len() implies (#[trigger] t.files[i]) == s.files[if i
            < at {
            i
        } else {
            i + 1
        }] by {}
        assert forall|i: int| 0 <= i < t.files.len() implies {
            let row = #[trigger] t.files[i];
            &&& row.id is Some
            &&& 1 <= row.id->0 < t.next_id
            &&& row.modified_time.nanos == 0
            &&& row.indexed_time.nanos == 0
            &&& row.path != path
            &&& row.id->0 != gone
        } by {
            let o = if i < at {
                i
            } else {
                i + 1
            };
            assert(t.files[i] == s.files[o]);
            if o < at {
                assert(s.files[o].path != s.files[at].path);
                assert(s.files[o].id->0 < s.files[at].id->0);
            } else {
                assert(s.files[at].path != s.files[o].path);
                assert(s.files[at].id->0 < s.files[o].id->0);
            }
        }
        assert forall|i: int, j: int| 0 <= i < j < t.files.len() implies (
        #[trigger] t.files[i]).path != (#[trigger] t.files[j]).path && t.files[i].id->0
            < t.files[j].id->0 by {
            let oi = if i < at {
                i
            } else {
                i + 1
            };
            let oj = if j < at {
                j
            } else {
                j + 1
            };
            assert(t.files[i] == s.files[oi] && t.files[j] == s.files[oj]);
            assert(s.files[oi].path != s.files[oj].path);
            assert(s.files[oi].id->0 < s.files[oj].id->0);
        }
        // Every remaining counter is one of the old ones and belongs to
        // another record than the removed one.
        assert forall|k: int| 0 <= k < t.usage.len() implies (#[trigger] t.usage[k]).launch_count
            >= 1 && has_id(t.files, t.usage[k].file_id) && s.usage.contains(t.usage[k]) by {
            let ok = if has_usage(s.usage, gone) {
                let u = usage_position(s.usage, gone);
                if k < u {
                    k
                } else {
                    k + 1
                }
            } else {
                k
            };
            assert(t.usage[k] == s.usage[ok]);
            assert(s.usage[ok].file_id != gone) by {
                if has_usage(s.usage, gone) {
                    let u = usage_position(s.usage, gone);
                    if ok < u {
                        assert(s.usage[ok].file_id != s.usage[u].file_id);
                    } else {
                        assert(s.usage[u].file_id != s.usage[ok].file_id);
                    }
                } else {
                    if s.usage[ok].file_id == gone {
                        assert(has_usage(s.usage, gone));
                    }
                }
            }
            assert(has_id(s.files, s.usage[ok].file_id));
            let w = choose|w: int|
                0 <= w < s.files.len() && (#[trigger] s.files[w]).id == Some(s.usage[ok].file_id);
            assert(w != at);
            let nw = if w < at {
                w
            } else {
                w - 1
            };
            assert(t.files[nw] == s.files[w]);
        }
        assert forall|k: int, l: int| 0 <= k < l < t.usage.len() implies (
        #[trigger] t.usage[k]).file_id != (#[trigger] t.usage[l]).file_id by {
            if has_usage(s.usage, gone) {
                let u = usage_position(s.usage, gone);
                let ok = if k < u {
                    k
                } else {
                    k + 1
                };
                let ol = if l < u {
                    l
                } else {
                    l + 1
                };
                assert(t.usage[k] == s.usage[ok] && t.usage[l] == s.usage[ol]);
                assert(s.usage[ok].file_id != s.usage[ol].file_id);
            } else {
                assert(s.usage[k].file_id != s.usage[l].file_id);
            }
        }
        if has_path(t.files, path) {
            let w = position_of(t.files, path);
            assert(t.files[w].path != path);
        }
    }
}

/// A successful move keeps the invariant.
pub proof fn lemma_rename_wf(s: StoreView, from: Seq<char>, to: Seq<char>)
    requires
        s.wf(),
        s.rename(from, to) is Ok,
    ensures
        s.rename(from, to)->Ok_0.wf(),
{
    if has_path(s.files, from) {
        let at = position_of(s.files, from);
        let t = s.rename(from, to)->Ok_0;
        assert(t.files[at].path == to);
        assert forall|i: int| 0 <= i < t.files.len() implies {
            let row = #[trigger] t.files[i];
            &&& row.id is Some
            &&& row.id == s.files[i].id
            &&& i != at ==> row.path == s.files[i].path
            &&& 1 <= row.id->0 < t.next_id
            &&& row.modified_time.nanos == 0
            &&& row.indexed_time.nanos == 0
        } by {
            if i != at {
                assert(t.files[i] == s.files[i]);
            }
        }
        assert forall|i: int, j: int| 0 <= i < j < t.files.len() implies (
        #[trigger] t.files[i]).path != (#[trigger] t.files[j]).path by {
            assert(s.files[i].path != s.files[j].path);
            if i == at {
                assert(t.files[j].path == s.files[j].path);
                if s.files[j].path == to {
                    assert(has_path(s.files, to));
                }
            } else if j == at {
                assert(t.files[i].path == s.files[i].path);
                if s.files[i].path == to {
                    assert(has_path(s.files, to));
                }
            }
        }
        assert forall|i: int, j: int| 0 <= i < j < t.files.len() implies (
        #[trigger] t.files[i]).id->0 < (#[trigger] t.files[j]).id->0 by {
            assert(s.files[i].id->0 < s.files[j].id->0);
        }
        assert forall|k: int| 0 <= k < t.usage.len() implies has_id(
            t.files,
            (#[trigger] t.usage[k]).file_id,
        ) by {
            assert(has_id(s.files, s.usage[k].file_id));
            let w = choose|w: int|
                0 <= w < s.files.len() && (#[trigger] s.files[w]).id == Some(s.usage[k].file_id);
            assert(t.files[w].id == s.files[w].id);
        }
    }
}

/// A successful operation keeps the invariant.
pub proof fn lemma_apply_wf(s: StoreView, op: OperationView)
    requires
        s.wf(),
        s.apply(op) is Ok,
    ensures
        s.apply(op)->Ok_0.wf(),
{
    match op {
        OperationView::Add(entry) => lemma_upsert_wf(s, entry),
        OperationView::Update(entry) => lemma_upsert_wf(s, entry),
        OperationView::Delete(path) => lemma_delete_wf(s, path),
        OperationView::Move { from, to } => lemma_rename_wf(s, from, to),
    }
}

/// After any batch that succeeds, no path occurs twice among the records
/// and every counter belongs to a record that exists.
pub proof fn lemma_batch_keeps_invariant(s: StoreView, ops: Seq<OperationView>)
    requires
        s.wf(),
        s.apply_all(ops) is Ok,
    ensures
        s.apply_all(ops)->Ok_0.wf(),
        forall|i: int, j: int|
            0 <= i < j < s.apply_all(ops)->Ok_0.files.len() ==> s.apply_all(ops)->Ok_0.files[i].path
                != s.apply_all(ops)->Ok_0.files[j].path,
        forall|k: int|
            0 <= k < s.apply_all(ops)->Ok_0.usage.len() ==> has_id(
                s.apply_all(ops)->Ok_0.files,
                s.apply_all(ops)->Ok_0.usage[k].file_id,
            ),
    decreases ops.len(),
{
    if ops.len() > 0 {
        lemma_apply_wf(s, ops[0]);
        lemma_batch_keeps_invariant(s.apply(ops[0])->Ok_0, ops.drop_first());
    }
}

/// A successful launch keeps the invariant.
pub proof fn lemma_launch_wf(s: StoreView, path: Seq<char>, now: i64)
    requires
        s.wf(),
        s.launch(path, now) is Ok,
    ensures
        s.launch(path, now)->Ok_0.wf(),
{
    if has_path(s.files, path) {
        let at = position_of(s.files, path);
        let id = s.files[at].id->0;
        let t = s.launch(path, now)->Ok_0;
        assert(has_id(s.files, id));
        if has_usage(s.usage, id) {
            let u = usage_position(s.usage, id);
            assert forall|k: int| 0 <= k < t.usage.len() implies (#[trigger] t.usage[k]).file_id
                == s.usage[k].file_id && t.usage[k].launch_count >= 1 by {
                if k != u {
                    assert(t.usage[k] == s.usage[k]);
                }
            }
            assert forall|k: int, l: int| 0 <= k < l < t.usage.len() implies (
            #[trigger] t.usage[k]).file_id != (#[trigger] t.usage[l]).file_id by {
                assert(s.usage[k].file_id != s.usage[l].file_id);
            }
            assert forall|k: int| 0 <= k < t.usage.len() implies has_id(
                t.files,
                (#[trigger] t.usage[k]).file_id,
            ) by {
                assert(has_id(s.files, s.usage[k].file_id));
            }
        } else {
            let n = s.usage.len() as int;
            assert forall|k: int, l: int| 0 <= k < l < t.usage.len() implies (
            #[trigger] t.usage[k]).file_id != (#[trigger] t.usage[l]).file_id by {
                if l == n {
                    assert(t.usage[k] == s.usage[k]);
                    if s.usage[k].file_id == id {
                        assert(has_usage(s.usage, id));
                    }
                } else {
                    assert(t.usage[k] == s.usage[k] && t.usage[l] == s.usage[l]);
                    assert(s.usage[k].file_id != s.usage[l].file_id);
                }
            }
            assert forall|k: int| 0 <= k < t.usage.len() implies (#[trigger] t.usage[k]).launch_count
                >= 1 && has_id(t.files, t.usage[k].file_id) by {
                if k < n {
                    assert(t.usage[k] == s.usage[k]);
                    assert(has_id(s.files, s.usage[k].file_id));
                }
            }
        }
    }
}

/// Every record of a query result contains the query without regard to
/// ASCII case, and the result is in the order of the tiers: an earlier
/// record is of no later tier than a later one; within a tier it was
/// launched no less often; and among equal launch counts its name does not
/// sort after the later one's.
pub proof fn lemma_query_result_ranked(
    s: StoreView,
    query: Seq<char>,
    limit: nat,
    found: Seq<FileEntryView>,
)
    requires
        s.is_query_result(query, limit, found),
    ensures
        forall|k: int|
            0 <= k < found.len() ==> contains_nocase((#[trigger] found[k]).filename, query),
        forall|k: int, l: int|
            0 <= k < l < found.len() ==> {
                let a = #[trigger] found[k];
                let b = #[trigger] found[l];
                &&& match_tier(a.filename, query) <= match_tier(b.filename, query)
                &&& match_tier(a.filename, query) == match_tier(b.filename, query)
                    ==> s.launch_count(a.id->0) >= s.launch_count(b.id->0)
                &&& match_tier(a.filename, query) == match_tier(b.filename, query)
                    && s.launch_count(a.id->0) == s.launch_count(b.id->0) ==> !nocase_lt(
                    b.filename,
                    a.filename,
                )
            },
{
    assert forall|k: int, l: int| 0 <= k < l < found.len() implies {
        let a = #[trigger] found[k];
        let b = #[trigger] found[l];
        &&& match_tier(a.filename, query) <= match_tier(b.filename, query)
        &&& match_tier(a.filename, query) == match_tier(b.filename, query) ==> s.launch_count(
            a.id->0,
        ) >= s.launch_count(b.id->0)
        &&& match_tier(a.filename, query) == match_tier(b.filename, query) && s.launch_count(
            a.id->0,
        ) == s.launch_count(b.id->0) ==> !nocase_lt(b.filename, a.filename)
    } by {
        let a = found[k];
        let b = found[l];
        assert(s.query_before(query, a, b));
        lemma_seq_lt_asymmetric(lowered(a.filename), lowered(b.filename));
        lemma_seq_lt_irreflexive(lowered(a.filename));
    }
}

/// Queries are blind to case: two queries that differ in ASCII case only
/// have the same result on every store.
pub proof fn lemma_query_ignores_case(
    s: StoreView,
    query: Seq<char>,
    other: Seq<char>,
    limit: nat,
    found: Seq<FileEntryView>,
)
    requires
        nocase_eq(query, other),
        s.is_query_result(query, limit, found),
    ensures
        s.is_query_result(other, limit, found),
{
    assert forall|row: FileEntryView|
        s.query_key(query, row) == s.query_key(other, row) && contains_nocase(row.filename, query)
            == contains_nocase(row.filename, other) by {}
    assert forall|k: int, l: int| 0 <= k < l < found.len() implies s.query_before(
        other,
        #[trigger] found[k],
        #[trigger] found[l],
    ) by {
        assert(s.query_before(query, found[k], found[l]));
    }
    assert forall|i: int|
        0 <= i < s.files.len() && contains_nocase((#[trigger] s.files[i]).filename, other)
            && !found.contains(s.files[i]) implies found.len() == limit && forall|k: int|
        0 <= k < found.len() ==> s.query_before(other, #[trigger] found[k], s.files[i]) by {
        assert(contains_nocase(s.files[i].filename, query));
        assert forall|k: int| 0 <= k < found.len() implies s.query_before(
            other,
            #[trigger] found[k],
            s.files[i],
        ) by {
            assert(s.query_before(query, found[k], s.files[i]));
        }
    }
}

/// A query has one result: two lists that both are the result of the same
/// query on the same store are the same list.
pub proof fn lemma_query_result_unique(
    s: StoreView,
    query: Seq<char>,
    limit: nat,
    a: Seq<FileEntryView>,
    b: Seq<FileEntryView>,
)
    requires
        s.is_query_result(query, limit, a),
        s.is_query_result(query, limit, b),
    ensures
        a == b,
{
    let key = |row: FileEntryView| s.query_key(query, row);
    let eligible = |row: FileEntryView| contains_nocase(row.filename, query);
    assert(is_selection_by(s.files, key, eligible, limit, a));
    assert(is_selection_by(s.files, key, eligible, limit, b));
    lemma_selection_unique(s.files, key, eligible, limit, a, b);
}

/// The most used records are one list: two lists that both are the most
/// used records of the same store under the same limit are the same list.
pub proof fn lemma_most_used_unique(
    s: StoreView,
    limit: nat,
    a: Seq<FileEntryView>,
    b: Seq<FileEntryView>,
)
    requires
        s.is_most_used_result(limit, a),
        s.is_most_used_result(limit, b),
    ensures
        a == b,
{
    let key = |row: FileEntryView| s.usage_key(row);
    let eligible = |row: FileEntryView| has_usage(s.usage, row.id->0);
    assert(is_selection_by(s.files, key, eligible, limit, a));
    assert(is_selection_by(s.files, key, eligible, limit, b));
    lemma_selection_unique(s.files, key, eligible, limit, a, b);
}

/// Every name contains itself.
pub proof fn lemma_contains_itself(name: Seq<char>)
    ensures
        contains_nocase(name, name),
{
    let l = lowered(name);
    assert(l.subrange(0, l.len() as int) =~= l);
    assert(occurs_at(l, l, 0));
}

/// The store after `times.len()` launches of the record at `path`, one at
/// each of the given wall-clock seconds.
pub open spec fn launched(s: StoreView, path: Seq<char>, times: Seq<i64>) -> Result<
    StoreView,
    StoreError,
>
    decreases times.len(),
{
    if times.len() == 0 {
        Ok(s)
    } else {
        match launched(s, path, times.drop_last()) {
            Ok(t) => t.launch(path, times.last()),
            Err(e) => Err(e),
        }
    }
}

/// What one launch does: it succeeds unless the counter of the record is
/// at its limit; then the record's count is one higher and its last launch
/// is the given second, while the records and the counters of all other
/// records are as they were.
pub proof fn lemma_launch_effect(s: StoreView, path: Seq<char>, now: i64)
    requires
        s.wf(),
        has_path(s.files, path),
    ensures
        ({
            let id = s.files[position_of(s.files, path)].id->0;
            &&& s.launch(path, now) is Ok <==> s.launch_count(id) < i32::MAX
            &&& s.launch(path, now) is Err ==> s.launch(path, now) == Err::<StoreView, StoreError>(
                StoreError::StorageError,
            )
            &&& s.launch(path, now) matches Ok(t) ==> {
                &&& t.wf()
                &&& t.files == s.files
                &&& t.launch_count(id) == s.launch_count(id) + 1
                &&& t.last_launched(id) == now
                &&& forall|other: i64|
                    other != id ==> #[trigger] t.launch_count(other) == s.launch_count(other)
                        && t.last_launched(other) == s.last_launched(other)
            }
        }),
{
    let id = s.files[position_of(s.files, path)].id->0;
    if s.launch(path, now) is Ok {
        let t = s.launch(path, now)->Ok_0;
        lemma_launch_wf(s, path, now);
        let n = s.usage.len() as int;
        if has_usage(s.usage, id) {
            let k = usage_position(s.usage, id);
            assert(t.usage[k].file_id == id);
            lemma_usage_position(t, id, k);
        } else {
            assert(t.usage[n].file_id == id);
            lemma_usage_position(t, id, n);
        }
        assert forall|other: i64| other != id implies #[trigger] t.launch_count(other)
            == s.launch_count(other) && t.last_launched(other) == s.last_launched(other) by {
            if has_usage(s.usage, other) {
                let a = usage_position(s.usage, other);
                assert(t.usage[a] == s.usage[a]);
                lemma_usage_position(t, other, a);
            } else if has_usage(t.usage, other) {
                let a = usage_position(t.usage, other);
                if a < n {
                    assert(t.usage[a].file_id == s.usage[a].file_id);
                    assert(has_usage(s.usage, other));
                }
            }
        }
    }
}

/// After N launches of a record its launch count is N higher than before,
/// its last launch is the last of them, which is no earlier than the first
/// where the clock did not run backwards, and the records, their number
/// and the counters of all other records are as they were. The launches
/// succeed as long as the count stays within the limit of the counter, and
/// fail as a storage error where it would pass it.
pub proof fn lemma_launches_counted(s: StoreView, path: Seq<char>, times: Seq<i64>)
    requires
        s.wf(),
        has_path(s.files, path),
    ensures
        ({
            let id = s.files[position_of(s.files, path)].id->0;
            &&& launched(s, path, times) is Ok <==> s.launch_count(id) + times.len() <= i32::MAX
            &&& launched(s, path, times) is Err ==> launched(s, path, times) == Err::<
                StoreView,
                StoreError,
            >(StoreError::StorageError)
            &&& launched(s, path, times) matches Ok(t) ==> {
                &&& t.wf()
                &&& t.files == s.files
                &&& t.count() == s.count()
                &&& t.launch_count(id) == s.launch_count(id) + times.len()
                &&& times.len() > 0 ==> t.last_launched(id) == times.last()
                &&& times.len() > 0 && (forall|i: int, j: int|
                    0 <= i <= j < times.len() ==> times[i] <= times[j]) ==> t.last_launched(id)
                    >= times[0]
                &&& forall|other: i64|
                    other != id ==> #[trigger] t.launch_count(other) == s.launch_count(other)
                        && t.last_launched(other) == s.last_launched(other)
            }
        }),
    decreases times.len(),
{
    let id = s.files[position_of(s.files, path)].id->0;
    if times.len() > 0 {
        let head = times.drop_last();
        lemma_launches_counted(s, path, head);
        if launched(s, path, head) is Ok {
            let m = launched(s, path, head)->Ok_0;
            lemma_position_of(m, path, position_of(s.files, path));
            lemma_launch_effect(m, path, times.last());
            if m.launch(path, times.last()) is Ok {
                let t = m.launch(path, times.last())->Ok_0;
                assert forall|other: i64| other != id implies #[trigger] t.launch_count(other)
                    == s.launch_count(other) && t.last_launched(other) == s.last_launched(
                    other,
                ) by {
                    assert(m.launch_count(other) == s.launch_count(other));
                }
                if forall|i: int, j: int| 0 <= i <= j < times.len() ==> times[i] <= times[j] {
                    assert(times[0] <= times[times.len() - 1]);
                }
            }
        }
    }
}

/// Round trip: after a batch that adds a record, a query for its file name
/// with limit 1 returns that record with its path, size, file name and file
/// type, and its modification time cut to whole seconds; provided that no
/// other record that matches the name comes before it in the ranking.
pub proof fn lemma_add_then_query(s: StoreView, entry: FileEntryView, found: Seq<FileEntryView>)
    requires
        s.wf(),
        s.apply_all(seq![OperationView::Add(entry)]) is Ok,
        ({
            let t = s.apply_all(seq![OperationView::Add(entry)])->Ok_0;
            &&& t.is_query_result(entry.filename, 1, found)
            &&& forall|i: int|
                0 <= i < t.files.len() && (#[trigger] t.files[i]).path != entry.path
                    && contains_nocase(t.files[i].filename, entry.filename) ==> t.query_before(
                    entry.filename,
                    t.files[position_of(t.files, entry.path)],
                    t.files[i],
                )
        }),
    ensures
        found.len() == 1,
        found[0].path == entry.path,
        found[0].size == entry.size,
        found[0].filename == entry.filename,
        found[0].file_type == entry.file_type,
        found[0].modified_time == entry.modified_time.whole_seconds(),
{
    let ops = seq![OperationView::Add(entry)];
    assert(ops.drop_first() =~= Seq::<OperationView>::empty());
    assert(ops[0] == OperationView::Add(entry));
    let t = s.upsert(entry)->Ok_0;
    assert(s.apply_all(ops)->Ok_0 == t) by {
        reveal_with_fuel(StoreView::apply_all, 2);
    }
    lemma_upsert_wf(s, entry);
    lemma_upsert_holds(s, entry);
    let at = position_of(t.files, entry.path);
    let row = t.files[at];
    lemma_contains_itself(entry.filename);
    if !found.contains(row) {
        assert(found.len() == 1);
        let other = found[0];
        assert(t.query_before(entry.filename, other, row));
        assert(t.files.contains(other));
        let i = choose|i: int| 0 <= i < t.files.len() && t.files[i] == other;
        if i != at {
            if i < at {
                assert(t.files[i].path != t.files[at].path);
            } else {
                assert(t.files[at].path != t.files[i].path);
            }
            assert(t.query_before(entry.filename, row, t.files[i]));
            lemma_key_lt_asymmetric(
                t.query_key(entry.filename, row),
                t.query_key(entry.filename, other),
            );
        }
    } else {
        let k = choose|k: int| 0 <= k < found.len() && found[k] == row;
        assert(k == 0);
    }
}

/// After an upsert the record is in the store at its path, as the store
/// keeps it.
pub proof fn lemma_upsert_holds(s: StoreView, entry: FileEntryView)
    requires
        s.wf(),
        s.upsert(entry) is Ok,
    ensures
        ({
            let t = s.upsert(entry)->Ok_0;
            let at = position_of(t.files, entry.path);
            &&& has_path(t.files, entry.path)
            &&& 0 <= at < t.files.len()
            &&& t.files[at] == entry.stored_as(t.files[at].id->0)
            &&& has_path(s.files, entry.path) ==> t.files.len() == s.files.len()
            &&& !has_path(s.files, entry.path) ==> t.files.len() == s.files.len() + 1
        }),
{
    let t = s.upsert(entry)->Ok_0;
    lemma_upsert_wf(s, entry);
    if has_path(s.files, entry.path) {
        let at = position_of(s.files, entry.path);
        assert(t.files[at].path == entry.path);
        lemma_position_of(t, entry.path, at);
    } else {
        let at = s.files.len() as int;
        assert(t.files[at].path == entry.path);
        lemma_position_of(t, entry.path, at);
    }
}

/// Idempotence: a batch that adds the same record twice leaves exactly one
/// record at its path, and applying the batch again changes nothing, so
/// the number of records stays the same.
pub proof fn lemma_add_twice(s: StoreView, entry: FileEntryView)
    requires
        s.wf(),
        s.apply_all(seq![OperationView::Add(entry), OperationView::Add(entry)]) is Ok,
    ensures
        ({
            let batch = seq![OperationView::Add(entry), OperationView::Add(entry)];
            let t = s.apply_all(batch)->Ok_0;
            &&& t.wf()
            &&& has_path(t.files, entry.path)
            &&& forall|i: int|
                0 <= i < t.files.len() && (#[trigger] t.files[i]).path == entry.path ==> i
                    == position_of(t.files, entry.path)
            &&& t.apply_all(batch) == Ok::<StoreView, StoreError>(t)
            &&& t.count() == s.upsert(entry)->Ok_0.count()
        }),
{
    let batch = seq![OperationView::Add(entry), OperationView::Add(entry)];
    let one = batch.drop_first();
    assert(one =~= seq![OperationView::Add(entry)]);
    assert(one.drop_first() =~= Seq::<OperationView>::empty());
    assert(batch[0] == OperationView::Add(entry));
    assert(one[0] == OperationView::Add(entry));
    reveal_with_fuel(StoreView::apply_all, 3);
    let u = s.upsert(entry)->Ok_0;
    lemma_upsert_wf(s, entry);
    lemma_upsert_holds(s, entry);
    lemma_upsert_again(u, entry);
    let t = s.apply_all(batch)->Ok_0;
    assert(t == u);
    assert forall|i: int|
        0 <= i < t.files.len() && (#[trigger] t.files[i]).path == entry.path implies i
        == position_of(t.files, entry.path) by {
        lemma_position_of(t, entry.path, i);
    }
}

/// An upsert of a record that the store already keeps changes nothing.
pub proof fn lemma_upsert_again(s: StoreView, entry: FileEntryView)
    requires
        s.wf(),
        has_path(s.files, entry.path),
        s.files[position_of(s.files, entry.path)] == entry.stored_as(
            s.files[position_of(s.files, entry.path)].id->0,
        ),
    ensures
        s.upsert(entry) == Ok::<StoreView, StoreError>(s),
{
    let at = position_of(s.files, entry.path);
    assert(s.files.update(at, entry.stored_as(s.files[at].id->0)) =~= s.files);
}

/// Opening a persisted store loses nothing: the records and the counters
/// are those that were persisted, the store comes out at the current
/// version whatever version it was persisted at, and opening what was
/// opened gives the same store again.
pub proof fn lemma_open_keeps_content(image: StoreView)
    requires
        image.open() is Ok,
    ensures
        ({
            let opened = image.open()->Ok_0;
            &&& opened.wf()
            &&& opened.files == image.files
            &&& opened.usage == image.usage
            &&& 0 <= image.schema_version <= SCHEMA_VERSION
            &&& opened.schema_version == SCHEMA_VERSION
            &&& opened.open() == Ok::<StoreView, StoreError>(opened)
        }),
{
}

} // verus!
