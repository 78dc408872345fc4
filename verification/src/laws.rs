use crate::codec::{round_trips, Codec};
use crate::engine::{is_extraction, is_listing, may_select, RawEntry};
use crate::sort::lex_lt;
use crate::table::{is_found, AccessGuard};
use crate::window::{is_decoded, prefix_len, window, window_start};
use vstd::prelude::*;

verus! {

/// Bytes decode to at most one value of `T`.
pub open spec fn decodes_uniquely<T: Codec>() -> bool {
    forall|bytes: Seq<u8>, a: T, b: T| #[trigger] T::is_decoding(bytes, &a) && #[trigger] T::is_decoding(bytes, &b) ==> a == b
}

/// Integers decode uniquely.
pub proof fn lemma_u64_decodes_uniquely()
    ensures
        decodes_uniquely::<u64>(),
{
}

/// Round trip. After `insert(k, v)` has turned the entries `before` into
/// `after`, a `get(k)` on `after` finds a guard over the encoding of `v`.
/// The codec reads back what it wrote, which `insert` establishes for its
/// value, so the guard decodes; any value `got` that it decodes to has the
/// encoding of `v`, and is `v` where the type decodes uniquely.
pub proof fn law_insert_then_get<K: Codec, V: Codec>(
    before: Map<Seq<u8>, Seq<u8>>,
    after: Map<Seq<u8>, Seq<u8>>,
    k: K,
    v: V,
    found: Option<AccessGuard<V>>,
    got: V,
)
    requires
        after == before.insert(k.encoding(), v.encoding()),
        is_found(after, k.encoding(), found),
        round_trips(&v),
        found is Some ==> V::is_decoding(found->Some_0@, &got),
    ensures
        found is Some,
        found->Some_0@ == v.encoding(),
        V::decodable(found->Some_0@),
        got.encoding() == v.encoding(),
        decodes_uniquely::<V>() ==> got == v,
{
    V::lemma_decodings_agree(v.encoding(), &got, &v);
}

/// Overwrite. Of two inserts under one key the second reports the bytes
/// of the first value as the previous ones, and a later `get` finds the
/// bytes of the second. Both guards decode: the previous one to a value
/// with the encoding of the first, the later one to a value with the
/// encoding of the second, and to those very values where the type decodes
/// uniquely.
pub proof fn law_overwrite<K: Codec, V: Codec>(
    start: Map<Seq<u8>, Seq<u8>>,
    k: K,
    v1: V,
    v2: V,
    prev: Option<AccessGuard<V>>,
    found: Option<AccessGuard<V>>,
    got_prev: V,
    got: V,
)
    requires
        is_found(start.insert(k.encoding(), v1.encoding()), k.encoding(), prev),
        is_found(
            start.insert(k.encoding(), v1.encoding()).insert(k.encoding(), v2.encoding()),
            k.encoding(),
            found,
        ),
        round_trips(&v1),
        round_trips(&v2),
        prev is Some ==> V::is_decoding(prev->Some_0@, &got_prev),
        found is Some ==> V::is_decoding(found->Some_0@, &got),
    ensures
        prev is Some,
        prev->Some_0@ == v1.encoding(),
        found is Some,
        found->Some_0@ == v2.encoding(),
        V::decodable(prev->Some_0@) && V::decodable(found->Some_0@),
        got_prev.encoding() == v1.encoding(),
        got.encoding() == v2.encoding(),
        decodes_uniquely::<V>() ==> got_prev == v1 && got == v2,
{
    V::lemma_decodings_agree(v1.encoding(), &got_prev, &v1);
    V::lemma_decodings_agree(v2.encoding(), &got, &v2);
}

/// Deletion of a stored value. Where the table holds the encoding of `v`
/// under the key, `remove` reports a guard that decodes to a value with the
/// encoding of `v`, and to `v` where the type decodes uniquely.
pub proof fn law_remove_returns_prior<K: Codec, V: Codec>(
    before: Map<Seq<u8>, Seq<u8>>,
    k: K,
    v: V,
    prev: Option<AccessGuard<V>>,
    got: V,
)
    requires
        before.contains_key(k.encoding()),
        before[k.encoding()] == v.encoding(),
        is_found(before, k.encoding(), prev),
        round_trips(&v),
        prev is Some ==> V::is_decoding(prev->Some_0@, &got),
    ensures
        prev is Some,
        V::decodable(prev->Some_0@),
        got.encoding() == v.encoding(),
        decodes_uniquely::<V>() ==> got == v,
{
    V::lemma_decodings_agree(v.encoding(), &got, &v);
}

/// Deletion. `remove(k)` reports the stored bytes exactly when the key was
/// present, a later `get(k)` finds nothing, and removing an absent key
/// leaves the entries as they were.
pub proof fn law_remove<K: Codec, V: Codec>(
    before: Map<Seq<u8>, Seq<u8>>,
    k: K,
    prev: Option<AccessGuard<V>>,
    found: Option<AccessGuard<V>>,
)
    requires
        is_found(before, k.encoding(), prev),
        is_found(before.remove(k.encoding()), k.encoding(), found),
    ensures
        found is None,
        before.contains_key(k.encoding()) ==> prev is Some && prev->Some_0@ == before[k.encoding()],
        !before.contains_key(k.encoding()) ==> prev is None && before.remove(k.encoding()) == before,
{
    if !before.contains_key(k.encoding()) {
        assert(before.remove(k.encoding()) =~= before);
    }
}

/// Ordering. The keys of any window of a table's walk ascend strictly in
/// byte-lexicographic order.
pub proof fn law_window_ascends(
    listing: Seq<RawEntry>,
    entries: Map<Seq<u8>, Seq<u8>>,
    start: Option<usize>,
    end: Option<usize>,
)
    requires
        is_listing(listing, entries),
    ensures
        forall|i: int, j: int|
            0 <= i < j < window(listing, start, end).len() ==> lex_lt(
                #[trigger] window(listing, start, end)[i].0,
                #[trigger] window(listing, start, end)[j].0,
            ),
{
    let w = window(listing, start, end);
    let read = prefix_len(listing.len(), end);
    let first = window_start(read, start);
    assert forall|i: int, j: int| 0 <= i < j < w.len() implies lex_lt(#[trigger] w[i].0, #[trigger] w[j].0) by {
        assert(w[i] == listing[first + i]);
        assert(w[j] == listing[first + j]);
        assert(lex_lt(listing[first + i].0, listing[first + j].0));
    }
}

/// Positional windowing. A window over a walk of `size` entries holds
/// `min(end, size) - start` entries, none where that is negative, and its
/// `i`-th entry is the one at position `start + i` of the walk.
pub proof fn law_window_positions(listing: Seq<RawEntry>, start: Option<usize>, end: Option<usize>)
    ensures
        ({
            let size = listing.len() as int;
            let stop = if end is Some && end->Some_0 <= size { end->Some_0 as int } else { size };
            let first = if start is Some { start->Some_0 as int } else { 0 };
            &&& window(listing, start, end).len() == if stop >= first { stop - first } else { 0 }
            &&& forall|i: int| 0 <= i < window(listing, start, end).len() ==> #[trigger] window(listing, start, end)[i] == listing[first + i]
        }),
{
}

/// Predicate extraction. An extraction splits the entries in two: every
/// entry of before is either still there, unchanged and declined by the
/// predicate, or among the removed ones, selected by the predicate; and
/// none is both.
pub proof fn law_extraction_splits<K: Codec, V: Codec, F: Fn((K, V)) -> bool>(
    pred: &F,
    before: Map<Seq<u8>, Seq<u8>>,
    after: Map<Seq<u8>, Seq<u8>>,
    out: Seq<RawEntry>,
    key: Seq<u8>,
)
    requires
        is_extraction::<K, V, F>(pred, before, after, out),
        before.contains_key(key),
    ensures
        after.contains_key(key) <==> !(exists|i: int| 0 <= i < out.len() && out[i].0 == key),
        after.contains_key(key) ==> after[key] == before[key] && may_select::<K, V, F>(
            pred,
            key,
            before[key],
            false,
        ),
        !after.contains_key(key) ==> may_select::<K, V, F>(pred, key, before[key], true),
{
    if exists|i: int| 0 <= i < out.len() && out[i].0 == key {
        let i = choose|i: int| 0 <= i < out.len() && out[i].0 == key;
        assert(!after.contains_key(out[i].0));
        assert(before[out[i].0] == out[i].1);
    }
    if !after.contains_key(key) {
        let i = choose|i: int| 0 <= i < out.len() && out[i].0 == key;
        assert(before[out[i].0] == out[i].1);
        assert(may_select::<K, V, F>(pred, out[i].0, out[i].1, true));
    }
}

/// The predicate gives one answer for each entry.
pub open spec fn answers_once<K, V, F: Fn((K, V)) -> bool>(pred: &F) -> bool {
    forall|k: K, v: V, a: bool, b: bool| #[trigger] pred.ensures(((k, v),), a) && #[trigger] pred.ensures(((k, v),), b) ==> a == b
}

/// Exact extraction. With a predicate that gives one answer per entry and
/// types that decode uniquely, an entry that decodes to `(k, v)` stays
/// exactly when the predicate declines `(k, v)`: it is then unchanged, and
/// otherwise it is among the removed ones.
pub proof fn law_extraction_exact<K: Codec, V: Codec, F: Fn((K, V)) -> bool>(
    pred: &F,
    before: Map<Seq<u8>, Seq<u8>>,
    after: Map<Seq<u8>, Seq<u8>>,
    out: Seq<RawEntry>,
    key: Seq<u8>,
    k: K,
    v: V,
    flag: bool,
)
    requires
        is_extraction::<K, V, F>(pred, before, after, out),
        before.contains_key(key),
        K::decodable(key) && V::decodable(before[key]),
        K::is_decoding(key, &k) && V::is_decoding(before[key], &v),
        decodes_uniquely::<K>() && decodes_uniquely::<V>(),
        answers_once::<K, V, F>(pred),
        pred.ensures(((k, v),), flag),
    ensures
        after.contains_key(key) == !flag,
        !flag ==> after[key] == before[key],
        flag ==> exists|i: int| 0 <= i < out.len() && out[i].0 == key && out[i].1 == before[key],
{
    law_extraction_splits::<K, V, F>(pred, before, after, out, key);
    let declined = after.contains_key(key);
    let answer = !declined;
    assert(may_select::<K, V, F>(pred, key, before[key], answer));
    let (k2, v2) = choose|k2: K, v2: V|
        K::is_decoding(key, &k2) && V::is_decoding(before[key], &v2) && #[trigger] pred.ensures(((k2, v2),), answer);
    assert(k2 == k && v2 == v);
    if !declined {
        let i = choose|i: int| 0 <= i < out.len() && out[i].0 == key;
        assert(before[out[i].0] == out[i].1);
    }
}

/// Ordering over decoded keys. In a table whose stored keys are the
/// encodings of what they decode to, as they are when every key was written
/// through `insert`, the encodings of the keys of a windowed read ascend
/// strictly in byte-lexicographic order.
pub proof fn law_decoded_keys_ascend<K: Codec, V: Codec>(
    listing: Seq<RawEntry>,
    entries: Map<Seq<u8>, Seq<u8>>,
    start: Option<usize>,
    end: Option<usize>,
    items: Seq<(K, V)>,
)
    requires
        is_listing(listing, entries),
        is_decoded::<K, V>(window(listing, start, end), items),
        forall|i: int| 0 <= i < items.len() ==> window(listing, start, end)[i].0 == (#[trigger] items[i]).0.encoding(),
    ensures
        forall|i: int, j: int|
            0 <= i < j < items.len() ==> lex_lt((#[trigger] items[i]).0.encoding(), (#[trigger] items[j]).0.encoding()),
{
    law_window_ascends(listing, entries, start, end);
    let w = window(listing, start, end);
    assert forall|i: int, j: int| 0 <= i < j < items.len() implies lex_lt(
        (#[trigger] items[i]).0.encoding(),
        (#[trigger] items[j]).0.encoding(),
    ) by {
        assert(lex_lt(w[i].0, w[j].0));
    }
}

/// Windows are slices of the full read. The `j`-th item of a windowed read
/// and the item at position `start + j` of a full read of the same table
/// decode the same stored entry: they have the same encodings, and are the
/// same pair where keys and values decode uniquely.
pub proof fn law_window_of_full_read<K: Codec, V: Codec>(
    listing: Seq<RawEntry>,
    start: Option<usize>,
    end: Option<usize>,
    items: Seq<(K, V)>,
    all: Seq<(K, V)>,
    j: int,
)
    requires
        is_decoded::<K, V>(window(listing, start, end), items),
        is_decoded::<K, V>(window(listing, None, None), all),
        0 <= j < items.len(),
    ensures
        ({
            let first = if start is Some { start->Some_0 as int } else { 0 };
            &&& first + j < all.len()
            &&& items[j].0.encoding() == all[first + j].0.encoding()
            &&& items[j].1.encoding() == all[first + j].1.encoding()
            &&& decodes_uniquely::<K>() && decodes_uniquely::<V>() ==> items[j] == all[first + j]
        }),
{
    let first = if start is Some { start->Some_0 as int } else { 0 };
    law_window_positions(listing, start, end);
    law_window_positions(listing, None, None);
    let w = window(listing, start, end);
    let full = window(listing, None, None);
    assert(w[j] == listing[first + j]);
    assert(full[first + j] == listing[first + j]);
    K::lemma_decodings_agree(w[j].0, &items[j].0, &all[first + j].0);
    V::lemma_decodings_agree(w[j].1, &items[j].1, &all[first + j].1);
}

} // verus!
