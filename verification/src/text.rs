//! Character-level helpers: ASCII case folding, case-insensitive search and
//! ordering of names.
use vstd::prelude::*;

verus! {

/// ASCII lower-casing of one character; every other character is unchanged.
pub open spec fn lower_char(c: char) -> char {
    if 'A' <= c && c <= 'Z' {
        ((c as u8) + 32) as char
    } else {
        c
    }
}

/// A name with every ASCII upper-case letter folded to lower case.
pub open spec fn lowered(s: Seq<char>) -> Seq<char> {
    Seq::new(s.len(), |i: int| lower_char(s[i]))
}

/// `needle` occurs in `hay` starting at position `at`.
pub open spec fn occurs_at(hay: Seq<char>, needle: Seq<char>, at: int) -> bool {
    &&& 0 <= at
    &&& at + needle.len() <= hay.len()
    &&& hay.subrange(at, at + needle.len()) == needle
}

/// `needle` occurs somewhere in `hay`.
pub open spec fn contains_seq(hay: Seq<char>, needle: Seq<char>) -> bool {
    exists|at: int| occurs_at(hay, needle, at)
}

/// `needle` occurs in `hay` when ASCII case is ignored.
pub open spec fn contains_nocase(hay: Seq<char>, needle: Seq<char>) -> bool {
    contains_seq(lowered(hay), lowered(needle))
}

/// `hay` begins with `prefix` when ASCII case is ignored.
pub open spec fn starts_with_nocase(hay: Seq<char>, prefix: Seq<char>) -> bool {
    occurs_at(lowered(hay), lowered(prefix), 0)
}

/// Strict lexicographic order of two character sequences by code point; a
/// proper prefix comes first.
pub open spec fn seq_lt(a: Seq<char>, b: Seq<char>) -> bool
    decreases a.len(),
{
    if b.len() == 0 {
        false
    } else if a.len() == 0 {
        true
    } else if a[0] != b[0] {
        a[0] < b[0]
    } else {
        seq_lt(a.drop_first(), b.drop_first())
    }
}

/// Strict order of two names when ASCII case is ignored.
pub open spec fn nocase_lt(a: Seq<char>, b: Seq<char>) -> bool {
    seq_lt(lowered(a), lowered(b))
}

/// Two names are the same when ASCII case is ignored.
pub open spec fn nocase_eq(a: Seq<char>, b: Seq<char>) -> bool {
    lowered(a) == lowered(b)
}

/// An ASCII upper-case letter as its lower-case letter; any other character
/// as it is.
pub fn ascii_lower(c: char) -> (r: char)
    ensures
        r == lower_char(c),
{
    if 'A' <= c && c <= 'Z' {
        let b: u8 = c as u8;
        (b + 32) as char
    } else {
        c
    }
}

/// The characters of a string, in order.
pub fn chars_of(s: &str) -> (v: Vec<char>)
    ensures
        v@ == s@,
{
    let mut v: Vec<char> = Vec::new();
    for c in it: s.chars()
        invariant
            v@ == it.seq().take(it.index() as int),
            it.seq() == s@,
    {
        v.push(c);
    }
    v
}

/// Whether two character slices hold the same characters.
pub fn chars_equal(a: &Vec<char>, b: &Vec<char>) -> (r: bool)
    ensures
        r == (a@ == b@),
{
    if a.len() != b.len() {
        return false;
    }
    let mut i: usize = 0;
    while i < a.len()
        invariant
            i <= a.len(),
            a.len() == b.len(),
            a@.take(i as int) == b@.take(i as int),
        decreases a.len() - i,
    {
        if a[i] != b[i] {
            return false;
        }
        assert(a@.take(i + 1) == a@.take(i as int).push(a@[i as int]));
        assert(b@.take(i + 1) == b@.take(i as int).push(b@[i as int]));
        i += 1;
    }
    assert(a@.take(a.len() as int) == a@);
    assert(b@.take(b.len() as int) == b@);
    true
}

/// Whether `needle` occurs in `hay` at `at`.
fn occurs_here(hay: &Vec<char>, needle: &Vec<char>, at: usize) -> (r: bool)
    requires
        at + needle.len() <= hay.len(),
    ensures
        r == occurs_at(hay@, needle@, at as int),
{
    let mut j: usize = 0;
    while j < needle.len()
        invariant
            j <= needle.len(),
            at + needle.len() <= hay.len(),
            forall|k: int| 0 <= k < j ==> hay@[at + k] == needle@[k],
        decreases needle.len() - j,
    {
        if hay[at + j] != needle[j] {
            assert(hay@.subrange(at as int, at + needle.len())[j as int] != needle@[j as int]);
            return false;
        }
        j += 1;
    }
    assert(hay@.subrange(at as int, at + needle.len()) =~= needle@);
    true
}

/// Whether `needle` occurs in `hay`.
pub fn contains_chars(hay: &Vec<char>, needle: &Vec<char>) -> (r: bool)
    ensures
        r == contains_seq(hay@, needle@),
{
    if needle.len() > hay.len() {
        assert forall|at: int| !occurs_at(hay@, needle@, at) by {}
        return false;
    }
    let last: usize = hay.len() - needle.len();
    let mut at: usize = 0;
    loop
        invariant_except_break
            forall|k: int| 0 <= k < at ==> !occurs_at(hay@, needle@, k),
        invariant
            at <= last,
            last == hay.len() - needle.len(),
            needle.len() <= hay.len(),
        ensures
            forall|k: int| 0 <= k <= last ==> !occurs_at(hay@, needle@, k),
        decreases last - at,
    {
        if occurs_here(hay, needle, at) {
            return true;
        }
        if at == last {
            break;
        }
        at += 1;
    }
    false
}

/// Whether `needle` occurs in `hay` at position `at`, ignoring ASCII case.
fn matches_at(hay: &Vec<char>, needle: &Vec<char>, at: usize) -> (r: bool)
    requires
        at + needle.len() <= hay.len(),
    ensures
        r == occurs_at(lowered(hay@), lowered(needle@), at as int),
{
    let mut j: usize = 0;
    while j < needle.len()
        invariant
            j <= needle.len(),
            at + needle.len() <= hay.len(),
            forall|k: int| 0 <= k < j ==> lower_char(hay@[at + k]) == lower_char(needle@[k]),
        decreases needle.len() - j,
    {
        if ascii_lower(hay[at + j]) != ascii_lower(needle[j]) {
            proof {
                let window = lowered(hay@).subrange(at as int, at + needle.len());
                assert(window[j as int] == lower_char(hay@[at + j]));
                assert(lowered(needle@)[j as int] == lower_char(needle@[j as int]));
            }
            return false;
        }
        j += 1;
    }
    proof {
        let window = lowered(hay@).subrange(at as int, at + needle.len());
        assert(window =~= lowered(needle@));
    }
    true
}

/// Case-insensitive substring test.
pub fn contains_ignore_case(hay: &Vec<char>, needle: &Vec<char>) -> (r: bool)
    ensures
        r == contains_nocase(hay@, needle@),
{
    if needle.len() > hay.len() {
        assert forall|at: int| !occurs_at(lowered(hay@), lowered(needle@), at) by {}
        return false;
    }
    let last: usize = hay.len() - needle.len();
    let mut at: usize = 0;
    loop
        invariant_except_break
            forall|k: int| 0 <= k < at ==> !occurs_at(lowered(hay@), lowered(needle@), k),
        invariant
            at <= last,
            last == hay.len() - needle.len(),
            needle.len() <= hay.len(),
        ensures
            forall|k: int| 0 <= k <= last ==> !occurs_at(lowered(hay@), lowered(needle@), k),
        decreases last - at,
    {
        if matches_at(hay, needle, at) {
            return true;
        }
        if at == last {
            break;
        }
        at += 1;
    }
    false
}

/// Case-insensitive prefix test.
pub fn starts_with_ignore_case(hay: &Vec<char>, prefix: &Vec<char>) -> (r: bool)
    ensures
        r == starts_with_nocase(hay@, prefix@),
{
    if prefix.len() > hay.len() {
        return false;
    }
    matches_at(hay, prefix, 0)
}

/// `seq_lt` unfolded at the first position where two sequences differ.
proof fn lemma_seq_lt_common_prefix(a: Seq<char>, b: Seq<char>, n: int)
    requires
        0 <= n <= a.len(),
        n <= b.len(),
        a.take(n) == b.take(n),
    ensures
        seq_lt(a, b) == seq_lt(a.skip(n), b.skip(n)),
    decreases n,
{
    if n == 0 {
        assert(a.skip(0) =~= a);
        assert(b.skip(0) =~= b);
    } else {
        assert(a[0] == a.take(n)[0]);
        assert(b[0] == b.take(n)[0]);
        assert(a.drop_first().take(n - 1) =~= a.take(n).drop_first());
        assert(b.drop_first().take(n - 1) =~= b.take(n).drop_first());
        lemma_seq_lt_common_prefix(a.drop_first(), b.drop_first(), n - 1);
        assert(a.drop_first().skip(n - 1) =~= a.skip(n));
        assert(b.drop_first().skip(n - 1) =~= b.skip(n));
    }
}

/// Three-way comparison of two names, ignoring ASCII case: a negative number
/// when `a` sorts first, zero when they are the same name, a positive number
/// when `b` sorts first.
pub fn nocase_order(a: &Vec<char>, b: &Vec<char>) -> (r: i8)
    ensures
        r < 0 <==> nocase_lt(a@, b@),
        r == 0 <==> nocase_eq(a@, b@),
        r > 0 <==> nocase_lt(b@, a@),
        -1 <= r <= 1,
{
    let ghost la = lowered(a@);
    let ghost lb = lowered(b@);
    let mut i: usize = 0;
    while i < a.len() && i < b.len()
        invariant
            i <= a.len(),
            i <= b.len(),
            la == lowered(a@),
            lb == lowered(b@),
            la.take(i as int) == lb.take(i as int),
        decreases a.len() - i,
    {
        let x = ascii_lower(a[i]);
        let y = ascii_lower(b[i]);
        if x != y {
            proof {
                lemma_seq_lt_common_prefix(la, lb, i as int);
                lemma_seq_lt_common_prefix(lb, la, i as int);
                assert(la.skip(i as int)[0] == x);
                assert(lb.skip(i as int)[0] == y);
                assert(la[i as int] != lb[i as int]);
            }
            if x < y {
                return -1;
            } else {
                return 1;
            }
        }
        assert(la.take(i + 1) == la.take(i as int).push(la[i as int]));
        assert(lb.take(i + 1) == lb.take(i as int).push(lb[i as int]));
        i += 1;
    }
    proof {
        lemma_seq_lt_common_prefix(la, lb, i as int);
        lemma_seq_lt_common_prefix(lb, la, i as int);
        if i == a.len() && i == b.len() {
            assert(la.take(i as int) == la);
            assert(lb.take(i as int) == lb);
        } else {
            assert(la.len() != lb.len());
        }
    }
    if a.len() < b.len() {
        -1
    } else if a.len() > b.len() {
        1
    } else {
        0
    }
}

/// No name sorts before itself.
pub proof fn lemma_seq_lt_irreflexive(a: Seq<char>)
    ensures
        !seq_lt(a, a),
    decreases a.len(),
{
    if a.len() > 0 {
        lemma_seq_lt_irreflexive(a.drop_first());
    }
}

/// Of two names at most one sorts before the other.
pub proof fn lemma_seq_lt_asymmetric(a: Seq<char>, b: Seq<char>)
    ensures
        !(seq_lt(a, b) && seq_lt(b, a)),
    decreases a.len(),
{
    if a.len() > 0 && b.len() > 0 && a[0] == b[0] {
        lemma_seq_lt_asymmetric(a.drop_first(), b.drop_first());
    }
}

/// The order of names is transitive.
pub proof fn lemma_seq_lt_transitive(a: Seq<char>, b: Seq<char>, c: Seq<char>)
    requires
        seq_lt(a, b),
        seq_lt(b, c),
    ensures
        seq_lt(a, c),
    decreases a.len(),
{
    if a.len() > 0 && b.len() > 0 && c.len() > 0 && a[0] == b[0] && b[0] == c[0] {
        lemma_seq_lt_transitive(a.drop_first(), b.drop_first(), c.drop_first());
    }
}

/// Of two different names one sorts before the other.
pub proof fn lemma_seq_lt_total(a: Seq<char>, b: Seq<char>)
    requires
        a != b,
    ensures
        seq_lt(a, b) || seq_lt(b, a),
    decreases a.len(),
{
    if a.len() > 0 && b.len() > 0 {
        if a[0] == b[0] {
            if a.drop_first() == b.drop_first() {
                assert(a =~= seq![a[0]] + a.drop_first());
                assert(b =~= seq![b[0]] + b.drop_first());
            }
            lemma_seq_lt_total(a.drop_first(), b.drop_first());
        }
    } else if a.len() == 0 && b.len() == 0 {
        assert(a =~= b);
    }
}

} // verus!
