use crate::codec::Codec;
use crate::sort::{lemma_lex_lt_asymmetric, lex_lt};
use vstd::prelude::*;

verus! {

#[verifier::external_type_specification]
#[verifier::external_body]
pub struct ExStorageError(redb::StorageError);

#[verifier::external_type_specification]
#[verifier::external_body]
pub struct ExTableError(redb::TableError);

#[verifier::external_type_specification]
#[verifier::external_body]
pub struct ExTransactionError(redb::TransactionError);

#[verifier::external_type_specification]
#[verifier::external_body]
pub struct ExCommitError(redb::CommitError);

#[verifier::external_type_specification]
#[verifier::external_body]
pub struct ExTableStats(redb::TableStats);

/// A raw entry as the contracts see it: key bytes and value bytes.
pub type RawEntry = (Seq<u8>, Seq<u8>);

/// A writable byte-keyed table of the storage engine, borrowed from a write
/// transaction.
#[verifier::external_body]
pub struct RawTable<'txn> {
    pub(crate) inner: redb::Table<'txn, &'static [u8], &'static [u8]>,
}

/// A byte-keyed table of the storage engine as a read transaction sees it.
#[verifier::external_body]
pub struct RawReadOnlyTable {
    pub(crate) inner: redb::ReadOnlyTable<&'static [u8], &'static [u8]>,
}

/// A position in an ordered walk over a raw table.
#[verifier::external_body]
pub struct RawCursor<'a> {
    inner: redb::Range<'a, &'static [u8], &'static [u8]>,
}

/// What a writable raw table holds: value bytes by key bytes.
pub uninterp spec fn table_entries(t: RawTable<'_>) -> Map<Seq<u8>, Seq<u8>>;

/// What a read-only raw table holds: value bytes by key bytes.
pub uninterp spec fn snapshot_entries(t: RawReadOnlyTable) -> Map<Seq<u8>, Seq<u8>>;

/// The entries that a cursor has still to hand out, in the order in which
/// they will come.
pub uninterp spec fn cursor_rest(c: RawCursor<'_>) -> Seq<RawEntry>;

/// `s` lists the entries of `m`, each once, in ascending byte-lexicographic
/// order of the keys.
pub open spec fn is_listing(s: Seq<RawEntry>, m: Map<Seq<u8>, Seq<u8>>) -> bool {
    &&& forall|i: int| 0 <= i < s.len() ==> m.contains_key(#[trigger] s[i].0) && m[s[i].0] == s[i].1
    &&& forall|k: Seq<u8>| #[trigger] m.contains_key(k) ==> exists|i: int| 0 <= i < s.len() && s[i].0 == k
    &&& forall|i: int, j: int| 0 <= i < j < s.len() ==> lex_lt(#[trigger] s[i].0, #[trigger] s[j].0)
}

/// The walk through a table: its entries in ascending byte-lexicographic
/// order of the keys.
pub open spec fn walk(m: Map<Seq<u8>, Seq<u8>>) -> Seq<RawEntry> {
    choose|s: Seq<RawEntry>| is_listing(s, m)
}

/// Without its first entry a listing lists the table without that key.
pub proof fn lemma_listing_tail(s: Seq<RawEntry>, m: Map<Seq<u8>, Seq<u8>>)
    requires
        is_listing(s, m),
        s.len() > 0,
    ensures
        is_listing(s.skip(1), m.remove(s[0].0)),
{
    let t = s.skip(1);
    let k0 = s[0].0;
    let rest = m.remove(k0);
    lemma_lex_lt_asymmetric(k0, k0);
    assert forall|i: int| 0 <= i < t.len() implies rest.contains_key(#[trigger] t[i].0) && rest[t[i].0] == t[i].1 by {
        assert(t[i] == s[i + 1]);
        assert(lex_lt(s[0].0, s[i + 1].0));
        assert(m.contains_key(s[i + 1].0));
    }
    assert forall|k: Seq<u8>| #[trigger] rest.contains_key(k) implies exists|i: int| 0 <= i < t.len() && t[i].0 == k by {
        assert(m.contains_key(k));
        let i = choose|i: int| 0 <= i < s.len() && s[i].0 == k;
        assert(t[i - 1] == s[i]);
    }
    assert forall|i: int, j: int| 0 <= i < j < t.len() implies lex_lt(#[trigger] t[i].0, #[trigger] t[j].0) by {
        assert(t[i] == s[i + 1]);
        assert(t[j] == s[j + 1]);
        assert(lex_lt(s[i + 1].0, s[j + 1].0));
    }
}

/// A table has one listing only: the order of the keys fixes every
/// position.
pub proof fn lemma_listing_unique(a: Seq<RawEntry>, b: Seq<RawEntry>, m: Map<Seq<u8>, Seq<u8>>)
    requires
        is_listing(a, m),
        is_listing(b, m),
    ensures
        a == b,
    decreases a.len(),
{
    if a.len() == 0 {
        if b.len() > 0 {
            assert(m.contains_key(b[0].0));
        }
        assert(a =~= b);
    } else {
        assert(m.contains_key(a[0].0));
        let j = choose|j: int| 0 <= j < b.len() && b[j].0 == a[0].0;
        assert(m.contains_key(b[0].0));
        let i = choose|i: int| 0 <= i < a.len() && a[i].0 == b[0].0;
        lemma_lex_lt_asymmetric(a[0].0, b[0].0);
        if j > 0 {
            assert(lex_lt(b[0].0, b[j].0));
            if i > 0 {
                assert(lex_lt(a[0].0, a[i].0));
            }
        }
        assert(a[0].0 == b[0].0);
        assert(m[a[0].0] == a[0].1 && m[b[0].0] == b[0].1);
        assert(a[0] == b[0]);
        lemma_listing_tail(a, m);
        lemma_listing_tail(b, m);
        lemma_listing_unique(a.skip(1), b.skip(1), m.remove(a[0].0));
        assert(a.len() == b.len()) by {
            assert(a.skip(1).len() == b.skip(1).len());
        }
        assert forall|n: int| 0 <= n < a.len() implies a[n] == b[n] by {
            if n > 0 {
                assert(a[n] == a.skip(1)[n - 1]);
                assert(b[n] == b.skip(1)[n - 1]);
            }
        }
        assert(a =~= b);
    }
}

/// Any listing of a table is its walk.
pub proof fn lemma_walk_is(s: Seq<RawEntry>, m: Map<Seq<u8>, Seq<u8>>)
    requires
        is_listing(s, m),
    ensures
        walk(m) == s,
        is_listing(walk(m), m),
{
    lemma_listing_unique(walk(m), s, m);
}

/// The outcome of a point read: the stored value where the key is present.
pub open spec fn is_lookup(m: Map<Seq<u8>, Seq<u8>>, key: Seq<u8>, found: Option<Vec<u8>>) -> bool {
    match found {
        Some(v) => m.contains_key(key) && m[key] == v@,
        None => !m.contains_key(key),
    }
}

/// The view of a vector of raw entries.
pub open spec fn raw_view(raw: Seq<(Vec<u8>, Vec<u8>)>) -> Seq<RawEntry> {
    Seq::new(raw.len(), |i: int| (raw[i].0@, raw[i].1@))
}

/// `flag` is an answer that `pred` may give for the entry that these bytes
/// decode to; for bytes that do not decode the only answer is `false`.
pub open spec fn may_select<K: Codec, V: Codec, F: Fn((K, V)) -> bool>(
    pred: &F,
    key: Seq<u8>,
    value: Seq<u8>,
    flag: bool,
) -> bool {
    if K::decodable(key) && V::decodable(value) {
        exists|k: K, v: V|
            K::is_decoding(key, &k) && V::is_decoding(value, &v) && #[trigger] pred.ensures(
                ((k, v),),
                flag,
            )
    } else {
        !flag
    }
}

/// Decodes a raw entry and asks the predicate about it. An entry that does
/// not decode is not selected.
pub fn selects<K: Codec, V: Codec, F: Fn((K, V)) -> bool>(pred: &F, key: &[u8], value: &[u8]) -> (flag:
    bool)
    requires
        forall|k: K, v: V| pred.requires(((k, v),)),
    ensures
        may_select::<K, V, F>(pred, key@, value@, flag),
{
    match K::decode_from(key) {
        Ok(k) => match V::decode_from(value) {
            Ok(v) => pred((k, v)),
            Err(_) => false,
        },
        Err(_) => false,
    }
}

/// What an extraction did: `out` holds the removed entries in ascending key
/// order, each one selected by the predicate; the table lost exactly those,
/// and the predicate declined every entry that stayed.
pub open spec fn is_extraction<K: Codec, V: Codec, F: Fn((K, V)) -> bool>(
    pred: &F,
    before: Map<Seq<u8>, Seq<u8>>,
    after: Map<Seq<u8>, Seq<u8>>,
    out: Seq<RawEntry>,
) -> bool {
    &&& forall|i: int| 0 <= i < out.len() ==> before.contains_key(#[trigger] out[i].0) && before[out[i].0] == out[i].1
    &&& forall|i: int| 0 <= i < out.len() ==> may_select::<K, V, F>(pred, #[trigger] out[i].0, out[i].1, true)
    &&& forall|i: int, j: int| 0 <= i < j < out.len() ==> lex_lt(#[trigger] out[i].0, #[trigger] out[j].0)
    &&& forall|i: int| 0 <= i < out.len() ==> !after.contains_key(#[trigger] out[i].0)
    &&& forall|k: Seq<u8>| #[trigger] after.contains_key(k) ==> before.contains_key(k) && after[k] == before[k]
        && may_select::<K, V, F>(pred, k, before[k], false)
    &&& forall|k: Seq<u8>| #[trigger] before.contains_key(k) ==> after.contains_key(k) || exists|i: int| 0 <= i < out.len() && out[i].0 == k
}

/// Calls `redb::ReadableTable::get` on a writable table and copies the
/// value out. Trusted: an `Ok` answer is the stored value of `key`, or `None`
/// where the table has no such key.
#[verifier::external_body]
pub(crate) fn table_get(t: &RawTable<'_>, key: &[u8]) -> (r: Result<Option<Vec<u8>>, redb::StorageError>)
    ensures
        r matches Ok(found) ==> is_lookup(table_entries(*t), key@, found),
{
    redb::ReadableTable::get(&t.inner, key).map(|o| o.map(|g| g.value().to_vec()))
}

/// Calls `redb::ReadOnlyTable::get` and copies the value out. Trusted: an
/// `Ok` answer is the stored value of `key`, or `None` where the table has
/// no such key.
#[verifier::external_body]
pub(crate) fn snapshot_get(t: &RawReadOnlyTable, key: &[u8]) -> (r: Result<Option<Vec<u8>>, redb::StorageError>)
    ensures
        r matches Ok(found) ==> is_lookup(snapshot_entries(*t), key@, found),
{
    t.inner.get(key).map(|o| o.map(|g| g.value().to_vec()))
}

/// Calls `redb::Table::insert`. Trusted: on `Ok` the table maps `key` to
/// `value` and is otherwise as before, and the answer is the value that
/// `key` had before the call.
#[verifier::external_body]
pub(crate) fn table_insert(t: &mut RawTable<'_>, key: &[u8], value: &[u8]) -> (r: Result<Option<Vec<u8>>, redb::StorageError>)
    ensures
        r matches Ok(prev) ==> table_entries(*final(t)) == table_entries(*old(t)).insert(key@, value@)
            && is_lookup(table_entries(*old(t)), key@, prev),
{
    t.inner.insert(key, value).map(|o| o.map(|g| g.value().to_vec()))
}

/// Calls `redb::Table::remove`. Trusted: on `Ok` the table no longer has
/// `key` and is otherwise as before, and the answer is the value that `key`
/// had before the call.
#[verifier::external_body]
pub(crate) fn table_remove(t: &mut RawTable<'_>, key: &[u8]) -> (r: Result<Option<Vec<u8>>, redb::StorageError>)
    ensures
        r matches Ok(prev) ==> table_entries(*final(t)) == table_entries(*old(t)).remove(key@)
            && is_lookup(table_entries(*old(t)), key@, prev),
{
    t.inner.remove(key).map(|o| o.map(|g| g.value().to_vec()))
}

/// Calls `redb::ReadableTable::iter` on a read-only table. Trusted: the
/// cursor will hand out the table's entries in ascending byte order of the
/// keys.
#[verifier::external_body]
pub(crate) fn snapshot_cursor(t: &RawReadOnlyTable) -> (r: Result<RawCursor<'_>, redb::StorageError>)
    ensures
        r matches Ok(c) ==> is_listing(cursor_rest(c), snapshot_entries(*t)),
{
    redb::ReadableTable::iter(&t.inner).map(|inner| RawCursor { inner })
}

/// Calls `Iterator::next` on a `redb::Range` and copies the entry out.
/// Trusted: an entry that comes is the first of those left, and the rest
/// stay; `None` comes only when nothing is left. Nothing is claimed after an
/// error.
#[verifier::external_body]
pub(crate) fn cursor_next(c: &mut RawCursor<'_>) -> (r: Option<Result<(Vec<u8>, Vec<u8>), redb::StorageError>>)
    ensures
        r is None ==> cursor_rest(*old(c)).len() == 0,
        r matches Some(Ok(e)) ==> cursor_rest(*old(c)).len() > 0 && (e.0@, e.1@) == cursor_rest(*old(c))[0]
            && cursor_rest(*final(c)) == cursor_rest(*old(c)).skip(1),
{
    c.inner.next().map(|r| r.map(|(k, v)| (k.value().to_vec(), v.value().to_vec())))
}

/// Calls `redb::Table::extract_if` with a predicate on raw bytes that is
/// `selects`, and reads the whole iterator. Trusted: on `Ok` the engine
/// asked the predicate about every entry, removed those it selected and
/// handed them out in key order, and left the others as they were.
#[verifier::external_body]
pub(crate) fn table_extract<K: Codec, V: Codec, F: Fn((K, V)) -> bool>(t: &mut RawTable<'_>, pred: &F) -> (r: Result<Vec<(Vec<u8>, Vec<u8>)>, redb::StorageError>)
    requires
        forall|k: K, v: V| pred.requires(((k, v),)),
    ensures
        (r matches Ok(out) ==> is_extraction::<K, V, F>(pred, table_entries(*old(t)), table_entries(*final(t)), raw_view(out@))),
{
    let taken = t.inner.extract_if(|k, v| selects::<K, V, F>(pred, k, v))?;
    taken.map(|r| r.map(|(k, v)| (k.value().to_vec(), v.value().to_vec()))).collect()
}

/// Calls `redb::ReadableTableMetadata::stats` on a read-only table.
/// Nothing is claimed of the figures.
#[verifier::external_body]
pub(crate) fn snapshot_stats(t: &RawReadOnlyTable) -> (r: Result<redb::TableStats, redb::StorageError>) {
    redb::ReadableTableMetadata::stats(&t.inner)
}

} // verus!
