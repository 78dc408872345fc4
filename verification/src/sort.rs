use std::cmp::Ordering;
use vstd::prelude::*;

verus! {

/// `a` and `b` agree on their first `n` bytes.
pub open spec fn same_prefix(a: Seq<u8>, b: Seq<u8>, n: int) -> bool {
    &&& 0 <= n <= a.len()
    &&& n <= b.len()
    &&& forall|j: int| 0 <= j < n ==> a[j] == b[j]
}

/// `a` comes before `b` byte-wise, with `n` the first place where they part.
pub open spec fn lex_lt_at(a: Seq<u8>, b: Seq<u8>, n: int) -> bool {
    &&& same_prefix(a, b, n)
    &&& n < b.len()
    &&& (n == a.len() || a[n] < b[n])
}

/// Byte-lexicographic order: `a` is a proper prefix of `b`, or the first
/// differing byte is smaller in `a`.
pub open spec fn lex_lt(a: Seq<u8>, b: Seq<u8>) -> bool {
    exists|n: int| lex_lt_at(a, b, n)
}

/// The first position at which `a` and `b` differ, or the length of the
/// shorter one where it is a prefix of the other.
pub fn first_difference(a: &[u8], b: &[u8]) -> (d: usize)
    ensures
        same_prefix(a@, b@, d as int),
        d < a.len() && d < b.len() ==> a[d as int] != b[d as int],
        lex_lt_at(a@, b@, d as int) <==> d < b.len() && (d == a.len() || a[d as int] < b[d as int]),
        lex_lt_at(b@, a@, d as int) <==> d < a.len() && (d == b.len() || b[d as int] < a[d as int]),
        d == a.len() && d == b.len() ==> a@ == b@,
{
    let mut i: usize = 0;
    while i < a.len() && i < b.len() && a[i] == b[i]
        invariant
            same_prefix(a@, b@, i as int),
            same_prefix(b@, a@, i as int),
        decreases a.len() - i,
    {
        i = i + 1;
    }
    if i == a.len() && i == b.len() {
        assert(a@ =~= b@);
    }
    i
}

/// The default sort strategy: plain byte-wise comparison of encoded keys.
#[derive(Debug, Clone, Copy)]
pub struct Lexicographical;

impl Lexicographical {
    /// Compares two encoded keys byte by byte.
    pub fn compare(a: &[u8], b: &[u8]) -> (r: Ordering)
        ensures
            match r {
                Ordering::Less => lex_lt(a@, b@),
                Ordering::Equal => a@ == b@,
                Ordering::Greater => lex_lt(b@, a@),
            },
    {
        let d: usize = first_difference(a, b);
        if d == a.len() {
            if d == b.len() {
                Ordering::Equal
            } else {
                Ordering::Less
            }
        } else if d == b.len() {
            Ordering::Greater
        } else if a[d] < b[d] {
            Ordering::Less
        } else {
            Ordering::Greater
        }
    }
}

/// The byte-lexicographic order is irreflexive and asymmetric: of two keys at
/// most one comes before the other, and none before itself.
pub proof fn lemma_lex_lt_asymmetric(a: Seq<u8>, b: Seq<u8>)
    ensures
        !(lex_lt(a, b) && lex_lt(b, a)),
        !lex_lt(a, a),
{
    if lex_lt(a, b) && lex_lt(b, a) {
        let n = choose|n: int| lex_lt_at(a, b, n);
        let m = choose|m: int| lex_lt_at(b, a, m);
        if n < m {
            assert(b[n] == a[n]);
        } else if m < n {
            assert(a[m] == b[m]);
        }
    }
    if lex_lt(a, a) {
        let n = choose|n: int| lex_lt_at(a, a, n);
    }
}

/// Two keys that agree up to position `k` are equal or one comes before
/// the other.
proof fn lemma_lex_total_from(a: Seq<u8>, b: Seq<u8>, k: int)
    requires
        same_prefix(a, b, k),
    ensures
        lex_lt(a, b) || a == b || lex_lt(b, a),
    decreases a.len() - k,
{
    if k == a.len() {
        if k == b.len() {
            assert(a =~= b);
        } else {
            assert(lex_lt_at(a, b, k));
        }
    } else if k == b.len() {
        assert(lex_lt_at(b, a, k));
    } else if a[k] < b[k] {
        assert(lex_lt_at(a, b, k));
    } else if b[k] < a[k] {
        assert(lex_lt_at(b, a, k));
    } else {
        lemma_lex_total_from(a, b, k + 1);
    }
}

/// The byte-lexicographic order is total: two different keys are ordered
/// one way or the other.
pub proof fn lemma_lex_lt_total(a: Seq<u8>, b: Seq<u8>)
    ensures
        lex_lt(a, b) || a == b || lex_lt(b, a),
{
    lemma_lex_total_from(a, b, 0);
}

/// The byte-lexicographic order is transitive.
pub proof fn lemma_lex_lt_transitive(a: Seq<u8>, b: Seq<u8>, c: Seq<u8>)
    requires
        lex_lt(a, b),
        lex_lt(b, c),
    ensures
        lex_lt(a, c),
{
    let n = choose|n: int| lex_lt_at(a, b, n);
    let m = choose|m: int| lex_lt_at(b, c, m);
    if n <= m {
        assert(lex_lt_at(a, c, n));
    } else {
        assert(lex_lt_at(a, c, m));
    }
}

} // verus!
