use crate::codec::Codec;
use crate::engine::{cursor_next, cursor_rest, raw_view, RawCursor, RawEntry};
use vstd::prelude::*;

verus! {

/// The number of entries that a walk reads from a table of `size` entries
/// when it stops before position `end`.
pub open spec fn prefix_len(size: nat, end: Option<usize>) -> nat {
    match end {
        Some(e) => if e <= size { e as nat } else { size },
        None => size,
    }
}

/// The position at which a window opens in a walk that read `read` entries.
pub open spec fn window_start(read: nat, start: Option<usize>) -> nat {
    match start {
        Some(s) => if s <= read { s as nat } else { read },
        None => 0,
    }
}

/// The entries at positions `[start, end)` of the walk `listing`; a missing
/// `start` is 0 and a missing `end` is the end of the table.
pub open spec fn window(listing: Seq<RawEntry>, start: Option<usize>, end: Option<usize>) -> Seq<RawEntry> {
    let read = listing.take(prefix_len(listing.len(), end) as int);
    read.skip(window_start(read.len(), start) as int)
}

/// Every key and every value of `entries` can be decoded.
pub open spec fn all_decodable<K: Codec, V: Codec>(entries: Seq<RawEntry>) -> bool {
    forall|i: int| 0 <= i < entries.len() ==> K::decodable(#[trigger] entries[i].0) && V::decodable(entries[i].1)
}

/// `items` are decodings of `entries`, one for one and in the same order.
pub open spec fn is_decoded<K: Codec, V: Codec>(entries: Seq<RawEntry>, items: Seq<(K, V)>) -> bool {
    &&& items.len() == entries.len()
    &&& forall|i: int| 0 <= i < items.len() ==> K::is_decoding(entries[i].0, &(#[trigger] items[i]).0) && V::is_decoding(entries[i].1, &items[i].1)
}

/// The members of `items` whose flag is set, in their order.
pub open spec fn kept<T>(items: Seq<T>, flags: Seq<bool>) -> Seq<T>
    decreases items.len(),
{
    if items.len() == 0 || flags.len() != items.len() {
        Seq::empty()
    } else {
        let before = kept(items.drop_last(), flags.drop_last());
        if flags.last() {
            before.push(items.last())
        } else {
            before
        }
    }
}

/// Adding one item with its flag adds it to the kept ones exactly when the
/// flag is set.
pub proof fn lemma_kept_push<T>(items: Seq<T>, flags: Seq<bool>, x: T, flag: bool)
    requires
        items.len() == flags.len(),
    ensures
        kept(items.push(x), flags.push(flag)) == if flag {
            kept(items, flags).push(x)
        } else {
            kept(items, flags)
        },
        kept(items, flags).len() <= items.len(),
    decreases items.len(),
{
    assert(items.push(x).drop_last() =~= items);
    assert(flags.push(flag).drop_last() =~= flags);
    if items.len() > 0 {
        lemma_kept_push(items.drop_last(), flags.drop_last(), items.last(), flags.last());
        assert(items.drop_last().push(items.last()) =~= items);
        assert(flags.drop_last().push(flags.last()) =~= flags);
    }
}

/// Reads the entries at positions `[0, end)` from a cursor, or all of them
/// where `end` is missing. A storage error ends the walk and is returned.
/// The cursor is asked only while entries are wanted: with `end` at 0 the
/// call succeeds without asking it.
pub fn read_prefix(cursor: RawCursor<'_>, end: Option<usize>) -> (r: Result<Vec<(Vec<u8>, Vec<u8>)>, redb::StorageError>)
    ensures
        r matches Ok(raw) ==> raw_view(raw@) == cursor_rest(cursor).take(
            prefix_len(cursor_rest(cursor).len(), end) as int,
        ),
        end == Some(0usize) ==> r is Ok,
{
    let ghost all = cursor_rest(cursor);
    let mut c = cursor;
    let mut out: Vec<(Vec<u8>, Vec<u8>)> = Vec::new();
    assert(raw_view(out@) + cursor_rest(c) =~= all);
    loop
        invariant
            all == cursor_rest(cursor),
            raw_view(out@) + cursor_rest(c) == all,
            end matches Some(e) ==> out.len() <= e,
        decreases cursor_rest(c).len(),
    {
        if let Some(e) = end {
            if out.len() >= e {
                assert(raw_view(out@) =~= all.take(e as int));
                return Ok(out);
            }
        }
        let ghost before = cursor_rest(c);
        let ghost read = raw_view(out@);
        match cursor_next(&mut c) {
            None => {
                assert(raw_view(out@) =~= all.take(all.len() as int));
                return Ok(out);
            },
            Some(Err(e)) => {
                return Err(e);
            },
            Some(Ok(entry)) => {
                out.push(entry);
                assert(raw_view(out@) =~= read.push(before[0]));
                assert(read.push(before[0]) + before.skip(1) =~= read + before);
            },
        }
    }
}

/// Decodes one raw entry: key and value both, the key first. Fails exactly
/// when one of the two does not decode.
pub fn decode_pair<K: Codec, V: Codec>(entry: &(Vec<u8>, Vec<u8>)) -> (r: Result<(K, V), bincode::error::DecodeError>)
    ensures
        match r {
            Ok(pair) => K::decodable(entry.0@) && V::decodable(entry.1@) && K::is_decoding(entry.0@, &pair.0)
                && V::is_decoding(entry.1@, &pair.1),
            Err(_) => !(K::decodable(entry.0@) && V::decodable(entry.1@)),
        },
{
    let key = match K::decode_from(entry.0.as_slice()) {
        Ok(k) => k,
        Err(e) => {
            return Err(e);
        },
    };
    match V::decode_from(entry.1.as_slice()) {
        Ok(value) => Ok((key, value)),
        Err(e) => Err(e),
    }
}

/// One entry that does not decode spoils the whole sequence.
pub proof fn lemma_undecodable_entry<K: Codec, V: Codec>(entries: Seq<RawEntry>, i: int)
    requires
        0 <= i < entries.len(),
        !(K::decodable(entries[i].0) && V::decodable(entries[i].1)),
    ensures
        !all_decodable::<K, V>(entries),
{
    if all_decodable::<K, V>(entries) {
        assert(K::decodable(entries[i].0));
        assert(V::decodable(entries[i].1));
    }
}

/// A decodable prefix with one more decodable entry is a decodable prefix.
pub proof fn lemma_all_decodable_extend<K: Codec, V: Codec>(entries: Seq<RawEntry>, i: int)
    requires
        0 <= i < entries.len(),
        all_decodable::<K, V>(entries.take(i)),
        K::decodable(entries[i].0),
        V::decodable(entries[i].1),
    ensures
        all_decodable::<K, V>(entries.take(i + 1)),
{
    assert forall|j: int| 0 <= j < i + 1 implies K::decodable(#[trigger] entries.take(i + 1)[j].0) && V::decodable(
        entries.take(i + 1)[j].1,
    ) by {
        if j < i {
            assert(entries.take(i + 1)[j] == entries.take(i)[j]);
            assert(K::decodable(entries.take(i)[j].0));
        } else {
            assert(entries.take(i + 1)[j] == entries[i]);
        }
    }
}

/// Decodes every entry of `raw` and returns those from position `start` on
/// (all of them where `start` is missing). The first entry that does not
/// decode ends the call with its error; no partial result is returned.
pub fn decode_entries<K: Codec, V: Codec>(raw: &Vec<(Vec<u8>, Vec<u8>)>, start: Option<usize>) -> (r: Result<Vec<(K, V)>, bincode::error::DecodeError>)
    ensures
        match r {
            Ok(items) => all_decodable::<K, V>(raw_view(raw@)) && is_decoded::<K, V>(
                raw_view(raw@).skip(window_start(raw@.len(), start) as int),
                items@,
            ),
            Err(_) => !all_decodable::<K, V>(raw_view(raw@)),
        },
{
    let ghost entries = raw_view(raw@);
    let first: usize = match start {
        Some(s) => if s <= raw.len() { s } else { raw.len() },
        None => 0,
    };
    let mut items: Vec<(K, V)> = Vec::new();
    let mut i: usize = 0;
    while i < raw.len()
        invariant
            i <= raw.len(),
            first <= raw.len(),
            entries == raw_view(raw@),
            all_decodable::<K, V>(entries.take(i as int)),
            i <= first ==> items.len() == 0,
            i >= first ==> is_decoded::<K, V>(entries.subrange(first as int, i as int), items@),
        decreases raw.len() - i,
    {
        let ghost done = items@;
        assert(entries[i as int] == (raw[i as int].0@, raw[i as int].1@));
        let pair = match decode_pair::<K, V>(&raw[i]) {
            Ok(pair) => pair,
            Err(e) => {
                proof {
                    lemma_undecodable_entry::<K, V>(entries, i as int);
                }
                return Err(e);
            },
        };
        proof {
            lemma_all_decodable_extend::<K, V>(entries, i as int);
        }
        let (key, value) = pair;
        if i >= first {
            items.push((key, value));
            assert forall|j: int| 0 <= j < items@.len() implies K::is_decoding(
                entries.subrange(first as int, i + 1)[j].0,
                &(#[trigger] items@[j]).0,
            ) && V::is_decoding(entries.subrange(first as int, i + 1)[j].1, &items@[j].1) by {
                if j < done.len() {
                    assert(items@[j] == done[j]);
                    assert(entries.subrange(first as int, i + 1)[j] == entries.subrange(first as int, i as int)[j]);
                }
            }
        }
        i = i + 1;
    }
    assert(entries.take(i as int) =~= entries);
    assert(entries.subrange(first as int, i as int) =~= entries.skip(first as int));
    Ok(items)
}

/// `flag` is an answer that `pred` may give for an entry that these bytes
/// decode to.
pub open spec fn may_answer<K: Codec, V: Codec, F: Fn((&K, &V)) -> bool>(pred: &F, entry: RawEntry, flag: bool) -> bool {
    exists|k: K, v: V|
        K::is_decoding(entry.0, &k) && V::is_decoding(entry.1, &v) && #[trigger] pred.ensures(((&k, &v),), flag)
}

/// `items` is what a filter by `pred` leaves of `entries`: `flags` holds an
/// answer of `pred` for each entry, and `items` are decodings of the entries
/// whose flag is set, each one accepted by `pred`, in their order.
pub open spec fn is_selection<K: Codec, V: Codec, F: Fn((&K, &V)) -> bool>(pred: &F, entries: Seq<RawEntry>, flags: Seq<bool>, items: Seq<(K, V)>) -> bool {
    &&& flags.len() == entries.len()
    &&& is_decoded::<K, V>(kept(entries, flags), items)
    &&& forall|j: int| 0 <= j < items.len() ==> pred.ensures(((&(#[trigger] items[j]).0, &items[j].1),), true)
    &&& forall|i: int| 0 <= i < entries.len() ==> may_answer::<K, V, F>(pred, #[trigger] entries[i], flags[i])
}

/// Decodes every entry of `raw` and returns, of those from position `start`
/// on, the ones for which `pred` answers `true`. The first entry that does
/// not decode ends the call with its error.
pub fn decode_entries_where<K: Codec, V: Codec, F: Fn((&K, &V)) -> bool>(raw: &Vec<(Vec<u8>, Vec<u8>)>, start: Option<usize>, pred: &F) -> (r: Result<Vec<(K, V)>, bincode::error::DecodeError>)
    requires
        forall|k: &K, v: &V| pred.requires(((k, v),)),
    ensures
        match r {
            Ok(items) => all_decodable::<K, V>(raw_view(raw@)) && exists|flags: Seq<bool>| #[trigger]
                is_selection::<K, V, F>(pred, raw_view(raw@).skip(window_start(raw@.len(), start) as int), flags, items@),
            Err(_) => !all_decodable::<K, V>(raw_view(raw@)),
        },
{
    let ghost entries = raw_view(raw@);
    let first: usize = match start {
        Some(s) => if s <= raw.len() { s } else { raw.len() },
        None => 0,
    };
    let mut items: Vec<(K, V)> = Vec::new();
    let ghost mut flags: Seq<bool> = Seq::empty();
    let mut i: usize = 0;
    while i < raw.len()
        invariant
            i <= raw.len(),
            first <= raw.len(),
            entries == raw_view(raw@),
            first == window_start(raw@.len(), start),
            forall|k: &K, v: &V| pred.requires(((k, v),)),
            all_decodable::<K, V>(entries.take(i as int)),
            i <= first ==> items.len() == 0 && flags.len() == 0,
            i >= first ==> is_selection::<K, V, F>(pred, entries.subrange(first as int, i as int), flags, items@),
        decreases raw.len() - i,
    {
        let ghost done = items@;
        assert(entries[i as int] == (raw[i as int].0@, raw[i as int].1@));
        let pair = match decode_pair::<K, V>(&raw[i]) {
            Ok(pair) => pair,
            Err(e) => {
                proof {
                    lemma_undecodable_entry::<K, V>(entries, i as int);
                }
                return Err(e);
            },
        };
        proof {
            lemma_all_decodable_extend::<K, V>(entries, i as int);
        }
        let (key, value) = pair;
        if i >= first {
            let flag = pred((&key, &value));
            proof {
                let ghost seen = entries.subrange(first as int, i as int);
                let ghost next = entries.subrange(first as int, i + 1);
                assert(next =~= seen.push(entries[i as int]));
                lemma_kept_push(seen, flags, entries[i as int], flag);
                assert(may_answer::<K, V, F>(pred, entries[i as int], flag));
                assert forall|j: int| 0 <= j < next.len() implies may_answer::<K, V, F>(pred, #[trigger] next[j], flags.push(flag)[j]) by {
                    if j < seen.len() {
                        assert(next[j] == seen[j]);
                    }
                }
                flags = flags.push(flag);
            }
            if flag {
                items.push((key, value));
                proof {
                    let ghost chosen = kept(entries.subrange(first as int, i + 1), flags);
                    assert forall|j: int| 0 <= j < items@.len() implies K::is_decoding(chosen[j].0, &(#[trigger] items@[j]).0)
                        && V::is_decoding(chosen[j].1, &items@[j].1) by {
                        if j < done.len() {
                            assert(items@[j] == done[j]);
                        }
                    }
                    assert forall|j: int| 0 <= j < items@.len() implies pred.ensures(((&(#[trigger] items@[j]).0, &items@[j].1),), true) by {
                        if j < done.len() {
                            assert(items@[j] == done[j]);
                        }
                    }
                }
            }
        } else {
            proof {
                if i + 1 >= first {
                    assert(entries.subrange(first as int, i + 1) =~= Seq::<RawEntry>::empty());
                    assert(kept(Seq::<RawEntry>::empty(), flags) =~= Seq::<RawEntry>::empty());
                }
            }
        }
        i = i + 1;
    }
    assert(entries.take(i as int) =~= entries);
    assert(entries.subrange(first as int, i as int) =~= entries.skip(first as int));
    let ghost found = items@;
    let ghost from_start = raw_view(raw@).skip(window_start(raw@.len(), start) as int);
    let r: Result<Vec<(K, V)>, bincode::error::DecodeError> = Ok(items);
    assert(r->Ok_0@ == found);
    assert(is_selection::<K, V, F>(pred, from_start, flags, r->Ok_0@));
    r
}

} // verus!
