//! Repeating a batch: a batch of additions and updates that was applied
//! can be applied again without changing the store.
use vstd::prelude::*;
use crate::models::{FileEntryView, OperationView};
use crate::store_laws::{lemma_position_of, lemma_upsert_holds, lemma_upsert_wf};
use crate::store_model::{has_path, position_of, StoreError, StoreView};

verus! {

/// The operation inserts or overwrites a record.
pub open spec fn is_upsert(op: OperationView) -> bool {
    op is Add || op is Update
}

/// The record that an addition or update carries.
pub open spec fn upserted(op: OperationView) -> FileEntryView {
    match op {
        OperationView::Add(entry) => entry,
        OperationView::Update(entry) => entry,
        _ => arbitrary(),
    }
}

/// Every operation of the batch is an addition or an update.
pub open spec fn all_upserts(ops: Seq<OperationView>) -> bool {
    forall|k: int| 0 <= k < ops.len() ==> is_upsert(#[trigger] ops[k])
}

/// Some operation of the batch writes the record at `path`.
pub open spec fn touches(ops: Seq<OperationView>, path: Seq<char>) -> bool {
    exists|k: int| 0 <= k < ops.len() && upserted(#[trigger] ops[k]).path == path
}

/// The record that the last operation of the batch for `path` carries.
pub open spec fn last_upsert(ops: Seq<OperationView>, path: Seq<char>) -> FileEntryView
    decreases ops.len(),
{
    if ops.len() == 0 {
        arbitrary()
    } else if touches(ops.drop_first(), path) {
        last_upsert(ops.drop_first(), path)
    } else {
        upserted(ops[0])
    }
}

/// The store holds, at every path that the batch writes, the record that
/// the batch wrote there last.
pub open spec fn settled(t: StoreView, ops: Seq<OperationView>) -> bool {
    forall|k: int|
        0 <= k < ops.len() ==> {
            let path = upserted(#[trigger] ops[k]).path;
            &&& has_path(t.files, path)
            &&& t.files[position_of(t.files, path)] == last_upsert(ops, path).stored_as(
                t.files[position_of(t.files, path)].id->0,
            )
        }
}

/// The two stores hold the same counters and, position by position, records
/// of the same identity at the same path; where their records differ, the
/// batch still writes that path.
pub open spec fn differs_within(u: StoreView, t: StoreView, ops: Seq<OperationView>) -> bool {
    &&& u.files.len() == t.files.len()
    &&& u.usage == t.usage
    &&& u.next_id == t.next_id
    &&& u.schema_version == t.schema_version
    &&& forall|i: int|
        0 <= i < u.files.len() ==> {
            &&& (#[trigger] u.files[i]).id == t.files[i].id
            &&& u.files[i].path == t.files[i].path
            &&& u.files[i] != t.files[i] ==> touches(ops, t.files[i].path)
        }
}

/// What a batch does not write is still there after the batch.
proof fn lemma_untouched_record_stays(
    u: StoreView,
    ops: Seq<OperationView>,
    path: Seq<char>,
)
    requires
        u.wf(),
        all_upserts(ops),
        u.apply_all(ops) is Ok,
        has_path(u.files, path),
        !touches(ops, path),
    ensures
        has_path(u.apply_all(ops)->Ok_0.files, path),
        u.apply_all(ops)->Ok_0.files[position_of(u.apply_all(ops)->Ok_0.files, path)]
            == u.files[position_of(u.files, path)],
    decreases ops.len(),
{
    if ops.len() > 0 {
        let entry = upserted(ops[0]);
        let rest = ops.drop_first();
        assert(is_upsert(ops[0]));
        assert(u.apply(ops[0]) == u.upsert(entry));
        let next = u.upsert(entry)->Ok_0;
        lemma_upsert_wf(u, entry);
        let at = position_of(u.files, path);
        assert(entry.path != path) by {
            if entry.path == path {
                assert(upserted(ops[0]).path == path);
                assert(touches(ops, path));
            }
        }
        assert(next.files[at] == u.files[at]) by {
            if has_path(u.files, entry.path) {
                assert(position_of(u.files, entry.path) != at);
            }
        }
        lemma_position_of(next, path, at);
        assert(all_upserts(rest)) by {
            assert forall|k: int| 0 <= k < rest.len() implies is_upsert(#[trigger] rest[k]) by {
                assert(rest[k] == ops[k + 1]);
            }
        }
        assert(!touches(rest, path)) by {
            if touches(rest, path) {
                let k = choose|k: int| 0 <= k < rest.len() && upserted(#[trigger] rest[k]).path == path;
                assert(rest[k] == ops[k + 1]);
                assert(upserted(ops[k + 1]).path == path);
                assert(touches(ops, path));
            }
        }
        lemma_untouched_record_stays(next, rest, path);
    }
}

/// After a batch of additions and updates the store holds, at every path
/// that the batch writes, what the batch wrote there last.
proof fn lemma_batch_settles(s: StoreView, ops: Seq<OperationView>)
    requires
        s.wf(),
        all_upserts(ops),
        s.apply_all(ops) is Ok,
    ensures
        s.apply_all(ops)->Ok_0.wf(),
        settled(s.apply_all(ops)->Ok_0, ops),
    decreases ops.len(),
{
    if ops.len() > 0 {
        let entry = upserted(ops[0]);
        let rest = ops.drop_first();
        assert(is_upsert(ops[0]));
        assert(s.apply(ops[0]) == s.upsert(entry));
        let next = s.upsert(entry)->Ok_0;
        lemma_upsert_wf(s, entry);
        assert(all_upserts(rest)) by {
            assert forall|k: int| 0 <= k < rest.len() implies is_upsert(#[trigger] rest[k]) by {
                assert(rest[k] == ops[k + 1]);
            }
        }
        lemma_batch_settles(next, rest);
        let t = s.apply_all(ops)->Ok_0;
        assert forall|k: int| 0 <= k < ops.len() implies {
            let path = upserted(#[trigger] ops[k]).path;
            &&& has_path(t.files, path)
            &&& t.files[position_of(t.files, path)] == last_upsert(ops, path).stored_as(
                t.files[position_of(t.files, path)].id->0,
            )
        } by {
            let path = upserted(ops[k]).path;
            if k >= 1 {
                assert(rest[k - 1] == ops[k]);
                assert(upserted(rest[k - 1]).path == path);
                assert(touches(rest, path));
            }
            if touches(rest, path) {
                let w = choose|w: int|
                    0 <= w < rest.len() && upserted(#[trigger] rest[w]).path == path;
                assert(upserted(rest[w]).path == path);
            } else {
                assert(k == 0);
                lemma_upsert_holds(s, entry);
                lemma_untouched_record_stays(next, rest, path);
            }
        }
    }
}

/// A batch of additions and updates leads from any store that differs from
/// a settled one only where the batch still writes to that settled store.
proof fn lemma_batch_reaches_settled(u: StoreView, t: StoreView, ops: Seq<OperationView>)
    requires
        u.wf(),
        t.wf(),
        all_upserts(ops),
        settled(t, ops),
        differs_within(u, t, ops),
    ensures
        u.apply_all(ops) == Ok::<StoreView, StoreError>(t),
    decreases ops.len(),
{
    if ops.len() == 0 {
        assert forall|i: int| 0 <= i < u.files.len() implies u.files[i] == t.files[i] by {
            if u.files[i] != t.files[i] {
                assert(touches(ops, t.files[i].path));
            }
        }
        assert(u.files =~= t.files);
    } else {
        let entry = upserted(ops[0]);
        let path = entry.path;
        let rest = ops.drop_first();
        assert(is_upsert(ops[0]));
        assert(u.apply(ops[0]) == u.upsert(entry));
        assert(has_path(t.files, path));
        let at = position_of(t.files, path);
        assert(u.files[at].path == path);
        lemma_position_of(u, path, at);
        let next = u.upsert(entry)->Ok_0;
        lemma_upsert_wf(u, entry);
        assert(next.files[at] == entry.stored_as(t.files[at].id->0));
        assert(all_upserts(rest)) by {
            assert forall|k: int| 0 <= k < rest.len() implies is_upsert(#[trigger] rest[k]) by {
                assert(rest[k] == ops[k + 1]);
            }
        }
        assert(settled(t, rest)) by {
            assert forall|k: int| 0 <= k < rest.len() implies {
                let p = upserted(#[trigger] rest[k]).path;
                &&& has_path(t.files, p)
                &&& t.files[position_of(t.files, p)] == last_upsert(rest, p).stored_as(
                    t.files[position_of(t.files, p)].id->0,
                )
            } by {
                let p = upserted(rest[k]).path;
                assert(rest[k] == ops[k + 1]);
                assert(upserted(ops[k + 1]).path == p);
                assert(touches(rest, p));
            }
        }
        assert(differs_within(next, t, rest)) by {
            assert forall|i: int| 0 <= i < next.files.len() implies {
                &&& (#[trigger] next.files[i]).id == t.files[i].id
                &&& next.files[i].path == t.files[i].path
                &&& next.files[i] != t.files[i] ==> touches(rest, t.files[i].path)
            } by {
                if i == at {
                    if !touches(rest, path) {
                        assert(upserted(ops[0]).path == path);
                        assert(last_upsert(ops, path) == entry);
                    }
                } else {
                    assert(next.files[i] == u.files[i]);
                    assert(u.files[i].id == t.files[i].id);
                    if u.files[i] != t.files[i] {
                        let p = t.files[i].path;
                        assert(touches(ops, p));
                        let w = choose|w: int|
                            0 <= w < ops.len() && upserted(#[trigger] ops[w]).path == p;
                        if w == 0 {
                            if i < at {
                                assert(t.files[i].path != t.files[at].path);
                            } else {
                                assert(t.files[at].path != t.files[i].path);
                            }
                        }
                        assert(rest[w - 1] == ops[w]);
                        assert(upserted(rest[w - 1]).path == p);
                    }
                }
            }
        }
        lemma_batch_reaches_settled(next, t, rest);
    }
}

/// Idempotence of batches: a batch of additions and updates that the store
/// took can be applied again; the second application succeeds and leaves
/// every record, every counter and the number of records as the first
/// left them.
pub proof fn lemma_repeated_batch_changes_nothing(s: StoreView, ops: Seq<OperationView>)
    requires
        s.wf(),
        all_upserts(ops),
        s.apply_all(ops) is Ok,
    ensures
        s.apply_all(ops)->Ok_0.apply_all(ops) == Ok::<StoreView, StoreError>(
            s.apply_all(ops)->Ok_0,
        ),
        s.apply_all(ops)->Ok_0.apply_all(ops)->Ok_0.count() == s.apply_all(ops)->Ok_0.count(),
{
    lemma_batch_settles(s, ops);
    let t = s.apply_all(ops)->Ok_0;
    lemma_batch_reaches_settled(t, t, ops);
}

} // verus!
