use crate::codec::{round_trips, Codec};
use crate::engine::{
    cursor_rest, is_extraction, is_listing, lemma_walk_is, raw_view, walk, snapshot_cursor, snapshot_entries, snapshot_get, snapshot_stats,
    table_entries, table_extract, table_get, table_insert, table_remove, RawEntry,
    RawReadOnlyTable, RawTable,
};
use crate::scratch::ScratchPool;
use crate::window::{
    all_decodable, decode_entries, decode_pair, decode_entries_where, is_decoded, is_selection, read_prefix,
    window, window_start,
};
use std::marker::PhantomData;
use vstd::prelude::*;

verus! {

/// Why an operation failed: the engine reported an error at one of its
/// stages, or stored bytes did not decode.
pub enum Error {
    Storage(redb::StorageError),
    Decode(bincode::error::DecodeError),
    Transaction(redb::TransactionError),
    Table(redb::TableError),
    Commit(redb::CommitError),
}

/// A value as the engine stored it, not yet decoded. Decoding happens on
/// demand, can be repeated, and can fail without harm to the guard.
pub struct AccessGuard<V> {
    bytes: Vec<u8>,
    _v: PhantomData<V>,
}

impl<V: Codec> View for AccessGuard<V> {
    type V = Seq<u8>;

    closed spec fn view(&self) -> Seq<u8> {
        self.bytes@
    }
}

impl<V: Codec> AccessGuard<V> {
    /// A guard over bytes that a raw read returned.
    pub fn from(bytes: Vec<u8>) -> (guard: Self)
        ensures
            guard@ == bytes@,
    {
        AccessGuard { bytes, _v: PhantomData }
    }

    /// Decodes the stored bytes. Fails exactly when they are not decodable
    /// as a `V`.
    pub fn value(&self) -> (r: Result<V, bincode::error::DecodeError>)
        ensures
            match r {
                Ok(v) => V::decodable(self@) && V::is_decoding(self@, &v),
                Err(_) => !V::decodable(self@),
            },
    {
        V::decode_from(self.bytes.as_slice())
    }
}

/// What a point read on a table holding `entries` owes for `key`: a guard
/// over the stored bytes where the key is present, `None` where it is not.
pub open spec fn is_found<V: Codec>(entries: Map<Seq<u8>, Seq<u8>>, key: Seq<u8>, found: Option<AccessGuard<V>>) -> bool {
    match found {
        Some(guard) => entries.contains_key(key) && guard@ == entries[key],
        None => !entries.contains_key(key),
    }
}

/// Turns the answer of a raw point read or write into the typed one: the
/// bytes that came are put under a guard, undecoded; an absent key and an
/// engine error are passed on as they are.
pub fn guard_result<V: Codec>(answer: Result<Option<Vec<u8>>, redb::StorageError>) -> (r: Result<Option<AccessGuard<V>>, redb::StorageError>)
    ensures
        match answer {
            Ok(Some(bytes)) => r matches Ok(Some(guard)) && guard@ == bytes@,
            Ok(None) => r matches Ok(None),
            Err(e) => r is Err && r->Err_0 == e,
        },
{
    match answer {
        Ok(Some(bytes)) => Ok(Some(AccessGuard::from(bytes))),
        Ok(None) => Ok(None),
        Err(e) => Err(e),
    }
}

/// A typed, read-only view of one raw table, ordered byte-wise by encoded
/// key.
pub struct ReadOnlyTable<K, V> {
    inner: RawReadOnlyTable,
    scratch: ScratchPool,
    _k: PhantomData<K>,
    _v: PhantomData<V>,
}

impl<K: Codec, V: Codec> ReadOnlyTable<K, V> {
    /// The raw entries of the table: value bytes by key bytes.
    pub closed spec fn entries(&self) -> Map<Seq<u8>, Seq<u8>> {
        snapshot_entries(self.inner)
    }

    /// The scratch buffers are idle.
    pub closed spec fn wf(&self) -> bool {
        self.scratch.idle()
    }

    /// Binds key and value types to a raw table.
    pub fn new(inner: RawReadOnlyTable) -> (table: Self)
        ensures
            table.wf(),
            table.entries() == snapshot_entries(inner),
    {
        ReadOnlyTable { inner, scratch: ScratchPool::new(), _k: PhantomData, _v: PhantomData }
    }

    /// The underlying raw table.
    pub fn as_raw(&self) -> (raw: &RawReadOnlyTable)
        ensures
            snapshot_entries(*raw) == self.entries(),
    {
        &self.inner
    }

    /// The engine's statistics of the table, as it reports them.
    pub fn stats(&self) -> Result<redb::TableStats, redb::StorageError> {
        snapshot_stats(&self.inner)
    }

    /// Looks `key` up by its encoding. The stored bytes are not decoded
    /// here: a decode failure shows only when the guard's value is asked for.
    pub fn get(&mut self, key: &K) -> (r: Result<Option<AccessGuard<V>>, redb::StorageError>)
        requires
            old(self).wf(),
        ensures
            final(self).wf(),
            final(self).entries() == old(self).entries(),
            r matches Ok(found) ==> is_found(old(self).entries(), key.encoding(), found),
    {
        let n = self.scratch.encode_key(key);
        let answer = snapshot_get(&self.inner, self.scratch.key(n));
        self.scratch.release();
        assert(key.encoding().take(n as int) =~= key.encoding());
        guard_result(answer)
    }

    /// Reads the raw entries at positions `[0, end)` of the table's walk.
    fn read_raw(&self, end: Option<usize>) -> (r: Result<Vec<(Vec<u8>, Vec<u8>)>, redb::StorageError>)
        ensures
            r matches Ok(raw) ==> is_listing(walk(self.entries()), self.entries()) && raw_view(raw@) == window(
                walk(self.entries()),
                None,
                end,
            ),
    {
        let cursor = match snapshot_cursor(&self.inner) {
            Ok(c) => c,
            Err(e) => {
                return Err(e);
            },
        };
        let ghost listing = cursor_rest(cursor);
        proof {
            lemma_walk_is(listing, self.entries());
        }
        let raw = match read_prefix(cursor, end) {
            Ok(raw) => raw,
            Err(e) => {
                return Err(e);
            },
        };
        assert(window(listing, None, end) =~= raw_view(raw@));
        Ok(raw)
    }

    /// Returns the decoded entries at positions `[start, end)` of the walk
    /// through the table in ascending byte order of the encoded keys. The
    /// bounds are positions in that walk, not keys. Every entry before
    /// `end` is decoded; one that does not decode fails the whole call.
    pub fn get_many(&self, start: Option<usize>, end: Option<usize>) -> (r: Result<Vec<(K, V)>, Error>)
        ensures
            match r {
                Ok(items) => is_listing(walk(self.entries()), self.entries()) && all_decodable::<K, V>(
                    window(walk(self.entries()), None, end),
                ) && is_decoded::<K, V>(window(walk(self.entries()), start, end), items@),
                Err(Error::Decode(_)) => is_listing(walk(self.entries()), self.entries()) && !all_decodable::<K, V>(
                    window(walk(self.entries()), None, end),
                ),
                Err(Error::Storage(_)) => true,
                Err(_) => false,
            },
    {
        let ghost listing = walk(self.entries());
        let raw = match self.read_raw(end) {
            Ok(raw) => raw,
            Err(e) => {
                return Err(Error::Storage(e));
            },
        };
        match decode_entries::<K, V>(&raw, start) {
            Ok(items) => Ok(items),
            Err(e) => Err(Error::Decode(e)),
        }
    }

    /// As `get_many`, and keeps of the window only the entries for which
    /// `pred` answers `true`.
    pub fn get_many_where<F: Fn((&K, &V)) -> bool>(&self, start: Option<usize>, end: Option<usize>, pred: F) -> (r: Result<Vec<(K, V)>, Error>)
        requires
            forall|k: &K, v: &V| pred.requires(((k, v),)),
        ensures
            match r {
                Ok(items) => is_listing(walk(self.entries()), self.entries()) && all_decodable::<K, V>(
                    window(walk(self.entries()), None, end),
                ) && exists|flags: Seq<bool>| #[trigger]
                    is_selection::<K, V, F>(&pred, window(walk(self.entries()), start, end), flags, items@),
                Err(Error::Decode(_)) => is_listing(walk(self.entries()), self.entries()) && !all_decodable::<K, V>(
                    window(walk(self.entries()), None, end),
                ),
                Err(Error::Storage(_)) => true,
                Err(_) => false,
            },
    {
        let ghost listing = walk(self.entries());
        let raw = match self.read_raw(end) {
            Ok(raw) => raw,
            Err(e) => {
                return Err(Error::Storage(e));
            },
        };
        match decode_entries_where::<K, V, F>(&raw, start, &pred) {
            Ok(items) => {
                let ghost kept_from = raw_view(raw@).skip(window_start(raw@.len(), start) as int);
                let ghost flags = choose|flags: Seq<bool>| is_selection::<K, V, F>(&pred, kept_from, flags, items@);
                let ghost found = items@;
                let r: Result<Vec<(K, V)>, Error> = Ok(items);
                assert(r->Ok_0@ == found);
                assert(window(listing, start, end) =~= kept_from);
                assert(is_selection::<K, V, F>(&pred, window(listing, start, end), flags, r->Ok_0@));
                r
            },
            Err(e) => Err(Error::Decode(e)),
        }
    }
}

/// A typed, writable view of one raw table, borrowed from a write
/// transaction.
pub struct Table<'txn, K, V> {
    inner: RawTable<'txn>,
    scratch: ScratchPool,
    _k: PhantomData<K>,
    _v: PhantomData<V>,
}

impl<'txn, K: Codec, V: Codec> Table<'txn, K, V> {
    /// The raw entries of the table: value bytes by key bytes.
    pub closed spec fn entries(&self) -> Map<Seq<u8>, Seq<u8>> {
        table_entries(self.inner)
    }

    /// The scratch buffers are idle.
    pub closed spec fn wf(&self) -> bool {
        self.scratch.idle()
    }

    /// Binds key and value types to a raw table.
    pub fn new(inner: RawTable<'txn>) -> (table: Self)
        ensures
            table.wf(),
            table.entries() == table_entries(inner),
    {
        Table { inner, scratch: ScratchPool::new(), _k: PhantomData, _v: PhantomData }
    }

    /// The underlying raw table.
    pub fn as_raw(&self) -> (raw: &RawTable<'txn>)
        ensures
            table_entries(*raw) == self.entries(),
    {
        &self.inner
    }

    /// The underlying raw table, for changes that bypass the typed layer.
    pub fn as_raw_mut(&mut self) -> (raw: &mut RawTable<'txn>)
        ensures
            table_entries(*raw) == old(self).entries(),
            final(self).entries() == table_entries(*final(raw)),
            final(self).wf() == old(self).wf(),
    {
        &mut self.inner
    }

    /// Looks `key` up by its encoding; sees what this transaction wrote.
    pub fn get(&mut self, key: &K) -> (r: Result<Option<AccessGuard<V>>, redb::StorageError>)
        requires
            old(self).wf(),
        ensures
            final(self).wf(),
            final(self).entries() == old(self).entries(),
            r matches Ok(found) ==> is_found(old(self).entries(), key.encoding(), found),
    {
        let n = self.scratch.encode_key(key);
        let answer = table_get(&self.inner, self.scratch.key(n));
        self.scratch.release();
        assert(key.encoding().take(n as int) =~= key.encoding());
        guard_result(answer)
    }

    /// Stores `value` under `key`, replacing what was there, and returns a
    /// guard over the bytes that the key had before. What was encoded for
    /// the call reads back: a guard over the stored bytes decodes to `value`.
    pub fn insert(&mut self, key: &K, value: &V) -> (r: Result<Option<AccessGuard<V>>, redb::StorageError>)
        requires
            old(self).wf(),
        ensures
            final(self).wf(),
            r matches Ok(prev) ==> final(self).entries() == old(self).entries().insert(key.encoding(), value.encoding())
                && is_found(old(self).entries(), key.encoding(), prev),
            round_trips(key),
            round_trips(value),
    {
        let n = self.scratch.encode_key(key);
        let m = self.scratch.encode_value(value);
        assert(key.encoding().take(n as int) =~= key.encoding());
        assert(value.encoding().take(m as int) =~= value.encoding());
        let answer = table_insert(&mut self.inner, self.scratch.key(n), self.scratch.value(m));
        self.scratch.release();
        guard_result(answer)
    }

    /// Deletes `key` and returns a guard over the bytes it had; where the
    /// key is absent nothing changes and `None` is returned.
    pub fn remove(&mut self, key: &K) -> (r: Result<Option<AccessGuard<V>>, redb::StorageError>)
        requires
            old(self).wf(),
        ensures
            final(self).wf(),
            r matches Ok(prev) ==> final(self).entries() == old(self).entries().remove(key.encoding())
                && is_found(old(self).entries(), key.encoding(), prev),
            round_trips(key),
    {
        let n = self.scratch.encode_key(key);
        assert(key.encoding().take(n as int) =~= key.encoding());
        let answer = table_remove(&mut self.inner, self.scratch.key(n));
        self.scratch.release();
        guard_result(answer)
    }

    /// Removes every entry that decodes and for which `pred` answers
    /// `true`, in one pass, and returns the removed entries, decoded, in
    /// ascending byte order of their keys. Entries that do not decode are
    /// never shown to `pred` and stay.
    pub fn remove_where<F: Fn((K, V)) -> bool>(&mut self, pred: F) -> (r: Result<Vec<Option<(K, V)>>, redb::StorageError>)
        requires
            old(self).wf(),
            forall|k: K, v: V| pred.requires(((k, v),)),
        ensures
            final(self).wf(),
            r matches Ok(removed) ==> exists|out: Seq<RawEntry>|
                #![trigger is_extraction::<K, V, F>(&pred, old(self).entries(), final(self).entries(), out)]
                is_extraction::<K, V, F>(&pred, old(self).entries(), final(self).entries(), out)
                    && is_removed::<K, V>(out, removed@),
    {
        let ghost before = self.entries();
        let raw = match table_extract::<K, V, F>(&mut self.inner, &pred) {
            Ok(raw) => raw,
            Err(e) => {
                return Err(e);
            },
        };
        let removed = decode_removed::<K, V>(&raw);
        assert(is_extraction::<K, V, F>(&pred, before, self.entries(), raw_view(raw@)));
        Ok(removed)
    }
}

/// `removed` reports the extracted entries `out` one for one: the decoded
/// pair where both key and value decode, `None` where one does not.
pub open spec fn is_removed<K: Codec, V: Codec>(out: Seq<RawEntry>, removed: Seq<Option<(K, V)>>) -> bool {
    &&& removed.len() == out.len()
    &&& forall|i: int| 0 <= i < removed.len() ==> match #[trigger] removed[i] {
        Some(pair) => K::is_decoding(out[i].0, &pair.0) && V::is_decoding(out[i].1, &pair.1),
        None => !(K::decodable(out[i].0) && V::decodable(out[i].1)),
    }
}

/// Decodes extracted entries for the caller; one that does not decode is
/// reported as `None`.
pub fn decode_removed<K: Codec, V: Codec>(raw: &Vec<(Vec<u8>, Vec<u8>)>) -> (removed: Vec<Option<(K, V)>>)
    ensures
        is_removed::<K, V>(raw_view(raw@), removed@),
{
    let mut removed: Vec<Option<(K, V)>> = Vec::new();
    let mut i: usize = 0;
    while i < raw.len()
        invariant
            i <= raw.len(),
            is_removed::<K, V>(raw_view(raw@).take(i as int), removed@),
        decreases raw.len() - i,
    {
        let ghost done = removed@;
        let ghost entries = raw_view(raw@);
        let item = match decode_pair::<K, V>(&raw[i]) {
            Ok(pair) => Some(pair),
            Err(_) => None,
        };
        removed.push(item);
        assert forall|j: int| 0 <= j < removed@.len() implies match #[trigger] removed@[j] {
            Some(pair) => K::is_decoding(entries.take(i + 1)[j].0, &pair.0) && V::is_decoding(entries.take(i + 1)[j].1, &pair.1),
            None => !(K::decodable(entries.take(i + 1)[j].0) && V::decodable(entries.take(i + 1)[j].1)),
        } by {
            if j < i {
                assert(removed@[j] == done[j]);
                assert(entries.take(i + 1)[j] == entries.take(i as int)[j]);
            } else {
                assert(entries.take(i + 1)[j] == (raw[i as int].0@, raw[i as int].1@));
            }
        }
        i = i + 1;
    }
    assert(raw_view(raw@).take(i as int) =~= raw_view(raw@));
    removed
}

} // verus!
