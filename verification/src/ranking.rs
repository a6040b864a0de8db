//! Ranking of records: a strict total order on sort keys and the selection
//! of the best candidates under it.
use vstd::prelude::*;
use crate::text::{
    lemma_seq_lt_asymmetric, lemma_seq_lt_irreflexive, lemma_seq_lt_total,
    lemma_seq_lt_transitive, lowered, nocase_eq, nocase_lt, nocase_order,
};

verus! {

/// The sort key of one record.
pub struct RankKey {
    /// Match tier; lower tiers come first.
    pub tier: u8,
    /// Launch count; higher counts come first within a tier.
    pub count: i32,
    /// Time of the last launch; later launches come first among equal counts.
    pub recency: i64,
    /// Name that breaks remaining ties, compared without regard to ASCII case.
    pub name: Vec<char>,
    /// Identity of the record; the older record comes first when all else is
    /// equal.
    pub id: i64,
}

/// A `RankKey` as a mathematical value.
pub struct RankKeyView {
    pub tier: u8,
    pub count: i32,
    pub recency: i64,
    pub name: Seq<char>,
    pub id: i64,
}

impl View for RankKey {
    type V = RankKeyView;

    open spec fn view(&self) -> RankKeyView {
        RankKeyView {
            tier: self.tier,
            count: self.count,
            recency: self.recency,
            name: self.name@,
            id: self.id,
        }
    }
}

/// `a` ranks strictly before `b`.
pub open spec fn key_lt(a: RankKeyView, b: RankKeyView) -> bool {
    ||| a.tier < b.tier
    ||| a.tier == b.tier && a.count > b.count
    ||| a.tier == b.tier && a.count == b.count && a.recency > b.recency
    ||| a.tier == b.tier && a.count == b.count && a.recency == b.recency && nocase_lt(
        a.name,
        b.name,
    )
    ||| a.tier == b.tier && a.count == b.count && a.recency == b.recency && nocase_eq(
        a.name,
        b.name,
    ) && a.id < b.id
}

/// The views of a list of keys.
pub open spec fn key_views(keys: Seq<RankKey>) -> Seq<RankKeyView> {
    Seq::new(keys.len(), |i: int| keys[i]@)
}

/// No two keys of the list carry the same identity.
pub open spec fn distinct_ids(keys: Seq<RankKeyView>) -> bool {
    forall|i: int, j: int|
        0 <= i < keys.len() && 0 <= j < keys.len() && i != j ==> keys[i].id != keys[j].id
}

/// The position `j` is among `top`.
pub open spec fn listed(top: Seq<usize>, j: int) -> bool {
    exists|w: int| 0 <= w < top.len() && (#[trigger] top[w]) as int == j
}

/// `top` lists positions of `keys`, best first: the `limit` best of the
/// eligible positions, or all of them where there are fewer.
pub open spec fn is_top_selection(
    keys: Seq<RankKeyView>,
    eligible: Seq<bool>,
    limit: nat,
    top: Seq<usize>,
) -> bool {
    &&& top.len() <= limit
    &&& forall|k: int| 0 <= k < top.len() ==> top[k] < keys.len() && eligible[top[k] as int]
    &&& forall|k: int, l: int|
        0 <= k < l < top.len() ==> key_lt(keys[top[k] as int], keys[top[l] as int])
    &&& forall|j: int|
        0 <= j < keys.len() && eligible[j] && !listed(top, j) ==> top.len() == limit
            && forall|k: int| 0 <= k < top.len() ==> key_lt(keys[top[k] as int], keys[j])
}

/// No key ranks before itself.
pub proof fn lemma_key_lt_irreflexive(a: RankKeyView)
    ensures
        !key_lt(a, a),
{
    lemma_seq_lt_irreflexive(lowered(a.name));
}

/// Of two keys at most one ranks before the other.
pub proof fn lemma_key_lt_asymmetric(a: RankKeyView, b: RankKeyView)
    ensures
        !(key_lt(a, b) && key_lt(b, a)),
{
    lemma_seq_lt_asymmetric(lowered(a.name), lowered(b.name));
    lemma_seq_lt_irreflexive(lowered(a.name));
}

/// Ranking is transitive.
pub proof fn lemma_key_lt_transitive(a: RankKeyView, b: RankKeyView, c: RankKeyView)
    requires
        key_lt(a, b),
        key_lt(b, c),
    ensures
        key_lt(a, c),
{
    if nocase_lt(a.name, b.name) && nocase_lt(b.name, c.name) {
        lemma_seq_lt_transitive(lowered(a.name), lowered(b.name), lowered(c.name));
    }
}

/// Of two keys with different identities one ranks before the other.
pub proof fn lemma_key_lt_total(a: RankKeyView, b: RankKeyView)
    requires
        a.id != b.id,
    ensures
        key_lt(a, b) || key_lt(b, a),
{
    if !nocase_eq(a.name, b.name) {
        lemma_seq_lt_total(lowered(a.name), lowered(b.name));
    }
}

/// Whether `a` ranks strictly before `b`.
pub fn key_before(a: &RankKey, b: &RankKey) -> (r: bool)
    ensures
        r == key_lt(a@, b@),
{
    if a.tier != b.tier {
        return a.tier < b.tier;
    }
    if a.count != b.count {
        return a.count > b.count;
    }
    if a.recency != b.recency {
        return a.recency > b.recency;
    }
    let names = nocase_order(&a.name, &b.name);
    proof {
        lemma_seq_lt_asymmetric(lowered(a.name@), lowered(b.name@));
        lemma_seq_lt_irreflexive(lowered(a.name@));
    }
    if names != 0 {
        return names < 0;
    }
    a.id < b.id
}

/// The positions of the `limit` best eligible keys, best first.
pub fn select_top(keys: &Vec<RankKey>, eligible: &Vec<bool>, limit: usize) -> (top: Vec<usize>)
    requires
        keys.len() == eligible.len(),
        distinct_ids(key_views(keys@)),
    ensures
        is_top_selection(key_views(keys@), eligible@, limit as nat, top@),
{
    let ghost kv = key_views(keys@);
    let mut top: Vec<usize> = Vec::new();
    let mut i: usize = 0;
    while i < keys.len()
        invariant
            i <= keys.len(),
            keys.len() == eligible.len(),
            kv == key_views(keys@),
            distinct_ids(kv),
            top.len() <= limit,
            forall|k: int| 0 <= k < top.len() ==> top@[k] < i && eligible@[top@[k] as int],
            forall|k: int, l: int|
                0 <= k < l < top.len() ==> key_lt(kv[top@[k] as int], kv[top@[l] as int]),
            forall|j: int|
                0 <= j < i && eligible@[j] && !listed(top@, j) ==> top.len() == limit
                    && forall|k: int| 0 <= k < top.len() ==> key_lt(kv[top@[k] as int], kv[j]),
        decreases keys.len() - i,
    {
        if eligible[i] && limit > 0 {
            // Find the first kept position that the candidate ranks before.
            let mut pos: usize = 0;
            while pos < top.len() && !key_before(&keys[i], &keys[top[pos]])
                invariant
                    pos <= top.len(),
                    i < keys.len(),
                    kv == key_views(keys@),
                    distinct_ids(kv),
                    forall|k: int| 0 <= k < top.len() ==> top@[k] < i,
                    forall|k: int| 0 <= k < pos ==> key_lt(kv[top@[k] as int], kv[i as int]),
                decreases top.len() - pos,
            {
                proof {
                    lemma_key_lt_total(kv[top@[pos as int] as int], kv[i as int]);
                }
                pos += 1;
            }
            let ghost before = top@;
            if pos < top.len() {
                proof {
                    assert forall|l: int| pos <= l < before.len() implies key_lt(
                        kv[i as int],
                        kv[before[l] as int],
                    ) by {
                        if l > pos {
                            lemma_key_lt_transitive(
                                kv[i as int],
                                kv[before[pos as int] as int],
                                kv[before[l] as int],
                            );
                        }
                    }
                }
                top.insert(pos, i);
                proof {
                    let grown = top@;
                    assert forall|j: int|
                        0 <= j < i + 1 && eligible@[j] && !listed(grown, j) implies (
                    forall|k: int| 0 <= k < grown.len() ==> key_lt(kv[grown[k] as int], kv[j]))
                        && before.len() == limit by {
                        assert(grown[pos as int] == i);
                        assert(j != i);
                        assert(!listed(before, j)) by {
                            if listed(before, j) {
                                let w = choose|w: int|
                                    0 <= w < before.len() && (#[trigger] before[w]) as int == j;
                                if w < pos {
                                    assert(grown[w] == before[w]);
                                } else {
                                    assert(grown[w + 1] == before[w]);
                                }
                            }
                        }
                        assert forall|k: int| 0 <= k < grown.len() implies key_lt(
                            kv[grown[k] as int],
                            kv[j],
                        ) by {
                            if k < pos {
                                assert(grown[k] == before[k]);
                            } else if k == pos {
                                lemma_key_lt_transitive(
                                    kv[i as int],
                                    kv[before[pos as int] as int],
                                    kv[j],
                                );
                            } else {
                                assert(grown[k] == before[k - 1]);
                            }
                        }
                    }
                }
                if top.len() > limit {
                    let ghost grown = top@;
                    let dropped = top.pop();
                    proof {
                        let kept = top@;
                        assert(kept =~= grown.drop_last());
                        assert forall|j: int|
                            0 <= j < i + 1 && eligible@[j] && !listed(
                                kept,
                                j,
                            ) implies forall|k: int|
                            0 <= k < kept.len() ==> key_lt(kv[kept[k] as int], kv[j]) by {
                            if listed(grown, j) {
                                let w = choose|w: int|
                                    0 <= w < grown.len() && (#[trigger] grown[w]) as int == j;
                                assert(w == grown.len() - 1) by {
                                    if w < grown.len() - 1 {
                                        assert(kept[w] == grown[w]);
                                    }
                                }
                            }
                        }
                    }
                }
            } else if top.len() < limit {
                top.push(i);
                proof {
                    let grown = top@;
                    assert(grown[before.len() as int] == i);
                    assert forall|j: int|
                        0 <= j < i + 1 && eligible@[j] && !listed(grown, j) implies false by {
                        assert(j != i);
                        if listed(before, j) {
                            let w = choose|w: int|
                                0 <= w < before.len() && (#[trigger] before[w]) as int == j;
                            assert(grown[w] == before[w]);
                        }
                    }
                }
            }
        }
        i += 1;
    }
    top
}

/// `found` lists the `limit` best of the eligible members of `pool` under
/// the ranking of their keys, best first, or all of them where there are
/// fewer.
pub open spec fn is_selection_by<T>(
    pool: Seq<T>,
    key: spec_fn(T) -> RankKeyView,
    eligible: spec_fn(T) -> bool,
    limit: nat,
    found: Seq<T>,
) -> bool {
    &&& found.len() <= limit
    &&& forall|k: int|
        0 <= k < found.len() ==> pool.contains(#[trigger] found[k]) && eligible(found[k])
    &&& forall|k: int, l: int|
        0 <= k < l < found.len() ==> key_lt(key(#[trigger] found[k]), key(#[trigger] found[l]))
    &&& forall|i: int|
        0 <= i < pool.len() && eligible(#[trigger] pool[i]) && !found.contains(pool[i])
            ==> found.len() == limit && forall|k: int|
            0 <= k < found.len() ==> key_lt(key(#[trigger] found[k]), key(pool[i]))
}

/// The member at position `m` of one selection cannot rank strictly after
/// the member at the same position of another selection with the same
/// members before it.
proof fn lemma_selection_next<T>(
    pool: Seq<T>,
    key: spec_fn(T) -> RankKeyView,
    eligible: spec_fn(T) -> bool,
    limit: nat,
    a: Seq<T>,
    b: Seq<T>,
    m: int,
)
    requires
        is_selection_by(pool, key, eligible, limit, a),
        is_selection_by(pool, key, eligible, limit, b),
        0 <= m < a.len(),
        m < b.len(),
        forall|k: int| 0 <= k < m ==> a[k] == b[k],
    ensures
        !key_lt(key(b[m]), key(a[m])),
{
    let x = a[m];
    let y = b[m];
    if key_lt(key(y), key(x)) {
        assert(pool.contains(y));
        let i = choose|i: int| 0 <= i < pool.len() && pool[i] == y;
        if a.contains(y) {
            let w = choose|w: int| 0 <= w < a.len() && a[w] == y;
            if w < m {
                assert(b[w] == y);
                assert(key_lt(key(b[w]), key(b[m])));
                lemma_key_lt_irreflexive(key(y));
            } else if w == m {
                lemma_key_lt_irreflexive(key(y));
            } else {
                assert(key_lt(key(a[m]), key(a[w])));
                lemma_key_lt_asymmetric(key(x), key(y));
            }
        } else {
            assert(eligible(pool[i]) && !a.contains(pool[i]));
            assert(key_lt(key(a[m]), key(pool[i])));
            lemma_key_lt_asymmetric(key(x), key(y));
        }
    }
}

/// The first `n` members of one selection are the first `n` of any other.
proof fn lemma_selection_prefix<T>(
    pool: Seq<T>,
    key: spec_fn(T) -> RankKeyView,
    eligible: spec_fn(T) -> bool,
    limit: nat,
    a: Seq<T>,
    b: Seq<T>,
    n: int,
)
    requires
        is_selection_by(pool, key, eligible, limit, a),
        is_selection_by(pool, key, eligible, limit, b),
        0 <= n <= a.len(),
    ensures
        n <= b.len(),
        forall|k: int| 0 <= k < n ==> a[k] == b[k],
    decreases n,
{
    if n > 0 {
        lemma_selection_prefix(pool, key, eligible, limit, a, b, n - 1);
        let m = n - 1;
        let x = a[m];
        assert(pool.contains(x));
        let i = choose|i: int| 0 <= i < pool.len() && pool[i] == x;
        if !b.contains(x) {
            assert(eligible(pool[i]) && !b.contains(pool[i]));
            assert(b.len() == limit);
            assert(m < b.len());
            assert(key_lt(key(b[m]), key(pool[i])));
            lemma_selection_next(pool, key, eligible, limit, a, b, m);
            assert(false);
        } else {
            let w = choose|w: int| 0 <= w < b.len() && b[w] == x;
            if w < m {
                assert(a[w] == b[w]);
                assert(key_lt(key(a[w]), key(a[m])));
                lemma_key_lt_irreflexive(key(x));
            } else if w > m {
                assert(key_lt(key(b[m]), key(b[w])));
                lemma_selection_next(pool, key, eligible, limit, a, b, m);
            }
        }
    }
}

/// A pool has one selection of its best members: the order of the keys and
/// the limit leave nothing open.
pub proof fn lemma_selection_unique<T>(
    pool: Seq<T>,
    key: spec_fn(T) -> RankKeyView,
    eligible: spec_fn(T) -> bool,
    limit: nat,
    a: Seq<T>,
    b: Seq<T>,
)
    requires
        is_selection_by(pool, key, eligible, limit, a),
        is_selection_by(pool, key, eligible, limit, b),
    ensures
        a == b,
{
    lemma_selection_prefix(pool, key, eligible, limit, a, b, a.len() as int);
    lemma_selection_prefix(pool, key, eligible, limit, b, a, b.len() as int);
    assert(a =~= b);
}

} // verus!
