use crate::codec::{round_trips, Codec};
use crate::engine::{is_extraction, is_listing, walk, RawEntry};
use crate::table::{is_removed, AccessGuard, Error, Table};
use crate::tx::{snapshot_of, Database, ReadTransaction};
use crate::window::{all_decodable, is_decoded, is_selection, window};
use vstd::prelude::*;

verus! {

/// `r` is a decoded point read of `key` on a table that holds `m`: the
/// decoded value where the key is present, `None` where it is not, a decode
/// error exactly where the stored bytes do not decode. Errors of the engine
/// can come on any table; a commit error cannot.
pub open spec fn is_decoded_lookup<V: Codec>(m: Map<Seq<u8>, Seq<u8>>, key: Seq<u8>, r: Result<Option<V>, Error>) -> bool {
    match r {
        Ok(Some(v)) => m.contains_key(key) && V::decodable(m[key]) && V::is_decoding(m[key], &v),
        Ok(None) => !m.contains_key(key),
        Err(Error::Decode(_)) => m.contains_key(key) && !V::decodable(m[key]),
        Err(Error::Commit(_)) => false,
        Err(_) => true,
    }
}

/// `r` is a windowed read at positions `[start, end)` of a table that holds
/// `m`.
pub open spec fn is_window_read<K: Codec, V: Codec>(m: Map<Seq<u8>, Seq<u8>>, start: Option<usize>, end: Option<usize>, r: Result<Vec<(K, V)>, Error>) -> bool {
    match r {
        Ok(items) => is_listing(walk(m), m) && all_decodable::<K, V>(window(walk(m), None, end)) && is_decoded::<K, V>(
            window(walk(m), start, end),
            items@,
        ),
        Err(Error::Decode(_)) => is_listing(walk(m), m) && !all_decodable::<K, V>(window(walk(m), None, end)),
        Err(Error::Commit(_)) => false,
        Err(_) => true,
    }
}

/// `r` is a windowed read at positions `[start, end)` of a table that holds
/// `m`, filtered by `pred`.
pub open spec fn is_filtered_read<K: Codec, V: Codec, F: Fn((&K, &V)) -> bool>(pred: &F, m: Map<Seq<u8>, Seq<u8>>, start: Option<usize>, end: Option<usize>, r: Result<Vec<(K, V)>, Error>) -> bool {
    match r {
        Ok(items) => is_listing(walk(m), m) && all_decodable::<K, V>(window(walk(m), None, end)) && exists|flags: Seq<bool>| #[trigger]
            is_selection::<K, V, F>(pred, window(walk(m), start, end), flags, items@),
        Err(Error::Decode(_)) => is_listing(walk(m), m) && !all_decodable::<K, V>(window(walk(m), None, end)),
        Err(Error::Commit(_)) => false,
        Err(_) => true,
    }
}

/// `r` is the outcome of an extraction by `pred` that turned a table
/// holding `before` into one holding `after`. It never fails on decoding.
pub open spec fn is_extract_result<K: Codec, V: Codec, F: Fn((K, V)) -> bool>(pred: &F, before: Map<Seq<u8>, Seq<u8>>, after: Map<Seq<u8>, Seq<u8>>, r: Result<Vec<Option<(K, V)>>, Error>) -> bool {
    match r {
        Ok(removed) => exists|out: Seq<RawEntry>| #[trigger]
            is_extraction::<K, V, F>(pred, before, after, out) && is_removed::<K, V>(out, removed@),
        Err(Error::Decode(_)) => false,
        Err(_) => true,
    }
}

/// Decodes the answer of a typed point read: a guard is decoded, and fails
/// the read where its bytes do not decode; an absent key stays absent; an
/// engine error is passed on as a storage error.
pub fn decoded_lookup<V: Codec>(answer: Result<Option<AccessGuard<V>>, redb::StorageError>) -> (r: Result<Option<V>, Error>)
    ensures
        match answer {
            Ok(Some(guard)) => match r {
                Ok(Some(v)) => V::decodable(guard@) && V::is_decoding(guard@, &v),
                Err(Error::Decode(_)) => !V::decodable(guard@),
                _ => false,
            },
            Ok(None) => r matches Ok(None),
            Err(e) => r matches Err(Error::Storage(passed)) && passed == e,
        },
{
    match answer {
        Ok(Some(guard)) => match guard.value() {
            Ok(v) => Ok(Some(v)),
            Err(e) => Err(Error::Decode(e)),
        },
        Ok(None) => Ok(None),
        Err(e) => Err(Error::Storage(e)),
    }
}

/// The outcome of an operation whose transaction was then committed: what
/// the operation gave where the commit succeeded, the commit's error where
/// it did not.
pub fn committed<T>(outcome: Result<(), redb::CommitError>, value: T) -> (r: Result<T, Error>)
    ensures
        match outcome {
            Ok(_) => r matches Ok(kept) && kept == value,
            Err(e) => r matches Err(Error::Commit(passed)) && passed == e,
        },
{
    match outcome {
        Ok(_) => Ok(value),
        Err(e) => Err(Error::Commit(e)),
    }
}

/// One-call reads: each opens a read transaction on the store, opens the
/// named table with key type `K` and value type `V`, and reads from it. The
/// table's name must not be empty.
/// What the store holds at that moment is the engine's to say: each result
/// is stated against the snapshot of the transaction that was opened.
pub trait Readable<K: Codec, V: Codec> {
    /// The decoded value of `key`, `None` where the table has no such key.
    fn get(db: &Database, table: &str, key: &K) -> (r: Result<Option<V>, Error>)
        requires
            table@.len() > 0,
        ensures
            exists|txn: ReadTransaction| #[trigger] is_decoded_lookup::<V>(snapshot_of(txn, table@), key.encoding(), r),
    ;

    /// The decoded entries at positions `[start, end)` of the table's walk.
    fn get_many(db: &Database, table: &str, start: Option<usize>, end: Option<usize>) -> (r: Result<Vec<(K, V)>, Error>)
        requires
            table@.len() > 0,
        ensures
            exists|txn: ReadTransaction| #[trigger] is_window_read::<K, V>(snapshot_of(txn, table@), start, end, r),
    ;

    /// The decoded entries at positions `[start, end)` of the table's walk
    /// that `f` accepts; nothing is removed.
    fn get_many_where<F: Fn((&K, &V)) -> bool>(db: &Database, table: &str, start: Option<usize>, end: Option<usize>, f: F) -> (r: Result<Vec<(K, V)>, Error>)
        requires
            table@.len() > 0,
            forall|k: &K, v: &V| f.requires(((k, v),)),
        ensures
            exists|txn: ReadTransaction| #[trigger] is_filtered_read::<K, V, F>(&f, snapshot_of(txn, table@), start, end, r),
    ;
}

impl<K: Codec, T: Codec> Readable<K, T> for T {
    fn get(db: &Database, table: &str, key: &K) -> (r: Result<Option<T>, Error>) {
        let txn = match db.begin_read() {
            Ok(txn) => txn,
            Err(e) => {
                let r: Result<Option<T>, Error> = Err(Error::Transaction(e));
                assert(is_decoded_lookup::<T>(snapshot_of(arbitrary(), table@), key.encoding(), r));
                return r;
            },
        };
        let mut opened = match txn.open_table::<K, T>(table) {
            Ok(t) => t,
            Err(e) => {
                let r: Result<Option<T>, Error> = Err(Error::Table(e));
                assert(is_decoded_lookup::<T>(snapshot_of(txn, table@), key.encoding(), r));
                return r;
            },
        };
        let r = decoded_lookup(opened.get(key));
        assert(is_decoded_lookup::<T>(snapshot_of(txn, table@), key.encoding(), r));
        r
    }

    fn get_many(db: &Database, table: &str, start: Option<usize>, end: Option<usize>) -> (r: Result<Vec<(K, T)>, Error>) {
        let txn = match db.begin_read() {
            Ok(txn) => txn,
            Err(e) => {
                let r: Result<Vec<(K, T)>, Error> = Err(Error::Transaction(e));
                assert(is_window_read::<K, T>(snapshot_of(arbitrary(), table@), start, end, r));
                return r;
            },
        };
        let opened = match txn.open_table::<K, T>(table) {
            Ok(t) => t,
            Err(e) => {
                let r: Result<Vec<(K, T)>, Error> = Err(Error::Table(e));
                assert(is_window_read::<K, T>(snapshot_of(txn, table@), start, end, r));
                return r;
            },
        };
        let r = opened.get_many(start, end);
        assert(is_window_read::<K, T>(snapshot_of(txn, table@), start, end, r));
        r
    }

    fn get_many_where<F: Fn((&K, &T)) -> bool>(db: &Database, table: &str, start: Option<usize>, end: Option<usize>, f: F) -> (r: Result<Vec<(K, T)>, Error>) {
        let txn = match db.begin_read() {
            Ok(txn) => txn,
            Err(e) => {
                let r: Result<Vec<(K, T)>, Error> = Err(Error::Transaction(e));
                assert(is_filtered_read::<K, T, F>(&f, snapshot_of(arbitrary(), table@), start, end, r));
                return r;
            },
        };
        let opened = match txn.open_table::<K, T>(table) {
            Ok(t) => t,
            Err(e) => {
                let r: Result<Vec<(K, T)>, Error> = Err(Error::Table(e));
                assert(is_filtered_read::<K, T, F>(&f, snapshot_of(txn, table@), start, end, r));
                return r;
            },
        };
        let r = opened.get_many_where(start, end, f);
        assert(is_filtered_read::<K, T, F>(&f, snapshot_of(txn, table@), start, end, r));
        r
    }
}

/// One-call writes: each opens a write transaction on the store, opens the
/// named table, changes it, and commits. The table's name must not be empty. Each result is stated against what
/// the table held inside that transaction.
pub trait Writeable<K: Codec, V: Codec>: Codec {
    /// Stores `self` under `key` and commits. Nothing is decoded, so no
    /// decode error can come. On success key and value were encoded, and
    /// what was written for them reads back.
    fn insert(&self, db: &Database, table: &str, key: &K) -> (r: Result<(), Error>)
        requires
            table@.len() > 0,
        ensures
            r matches Err(e) ==> !(e is Decode),
            r is Ok ==> round_trips(key) && round_trips(self),
    ;

    /// Removes `key`, commits, and returns the decoded value it had. A
    /// value that does not decode fails the call before the commit.
    fn extract(db: &Database, table: &str, key: &K) -> (r: Result<Option<V>, Error>)
        requires
            table@.len() > 0,
        ensures
            exists|before: Map<Seq<u8>, Seq<u8>>| #[trigger] is_taken::<V>(before, key.encoding(), r),
    ;

    /// Removes the entries that `f` selects, commits, and returns them.
    fn extract_many_where<F: Fn((K, V)) -> bool>(db: &Database, table: &str, f: F) -> (r: Result<Vec<Option<(K, V)>>, Error>)
        requires
            table@.len() > 0,
            forall|k: K, v: V| f.requires(((k, v),)),
        ensures
            exists|before: Map<Seq<u8>, Seq<u8>>, after: Map<Seq<u8>, Seq<u8>>| #[trigger]
                is_extract_result::<K, V, F>(&f, before, after, r),
    ;
}

/// `r` is the outcome of removing `key` from a table that held `before`
/// and decoding what it had: as a decoded point read, but a commit error
/// may come in place of a value.
pub open spec fn is_taken<V: Codec>(before: Map<Seq<u8>, Seq<u8>>, key: Seq<u8>, r: Result<Option<V>, Error>) -> bool {
    r matches Err(Error::Commit(_)) || is_decoded_lookup::<V>(before, key, r)
}

impl<K: Codec, T: Codec> Writeable<K, T> for T {
    fn insert(&self, db: &Database, table: &str, key: &K) -> (r: Result<(), Error>) {
        let txn = match db.begin_write() {
            Ok(txn) => txn,
            Err(e) => {
                return Err(Error::Transaction(e));
            },
        };
        let stored = match txn.open_table::<K, T>(table) {
            Ok(t) => {
                let mut opened = t;
                store_in::<K, T>(&mut opened, key, self)
            },
            Err(e) => Err(Error::Table(e)),
        };
        match stored {
            Ok(_) => committed(txn.commit(), ()),
            Err(e) => Err(e),
        }
    }

    fn extract(db: &Database, table: &str, key: &K) -> (r: Result<Option<T>, Error>) {
        let txn = match db.begin_write() {
            Ok(txn) => txn,
            Err(e) => {
                let r: Result<Option<T>, Error> = Err(Error::Transaction(e));
                assert(is_taken::<T>(Map::empty(), key.encoding(), r));
                return r;
            },
        };
        let ghost mut before: Map<Seq<u8>, Seq<u8>> = Map::empty();
        let found: Result<Option<T>, Error> = match txn.open_table::<K, T>(table) {
            Ok(t) => {
                let mut opened = t;
                proof {
                    before = opened.entries();
                }
                take_from::<K, T>(&mut opened, key)
            },
            Err(e) => Err(Error::Table(e)),
        };
        assert(is_decoded_lookup::<T>(before, key.encoding(), found));
        let taken = match found {
            Ok(v) => v,
            Err(e) => {
                let r: Result<Option<T>, Error> = Err(e);
                assert(is_taken::<T>(before, key.encoding(), r));
                return r;
            },
        };
        let r = committed(txn.commit(), taken);
        assert(is_taken::<T>(before, key.encoding(), r));
        r
    }

    fn extract_many_where<F: Fn((K, T)) -> bool>(db: &Database, table: &str, f: F) -> (r: Result<Vec<Option<(K, T)>>, Error>) {
        let txn = match db.begin_write() {
            Ok(txn) => txn,
            Err(e) => {
                let r: Result<Vec<Option<(K, T)>>, Error> = Err(Error::Transaction(e));
                assert(is_extract_result::<K, T, F>(&f, Map::empty(), Map::empty(), r));
                return r;
            },
        };
        let ghost mut before: Map<Seq<u8>, Seq<u8>> = Map::empty();
        let ghost mut after: Map<Seq<u8>, Seq<u8>> = Map::empty();
        let found: Result<Vec<Option<(K, T)>>, Error> = match txn.open_table::<K, T>(table) {
            Ok(t) => {
                let mut opened = t;
                proof {
                    before = opened.entries();
                }
                let taken = take_where::<K, T, F>(&mut opened, f);
                proof {
                    after = opened.entries();
                }
                taken
            },
            Err(e) => Err(Error::Table(e)),
        };
        assert(is_extract_result::<K, T, F>(&f, before, after, found));
        let removed = match found {
            Ok(v) => v,
            Err(e) => {
                let r: Result<Vec<Option<(K, T)>>, Error> = Err(e);
                assert(is_extract_result::<K, T, F>(&f, before, after, r));
                return r;
            },
        };
        let r = committed(txn.commit(), removed);
        assert(is_extract_result::<K, T, F>(&f, before, after, r));
        r
    }
}

/// `r` is the outcome of removing `key` from a table that held `before`
/// and holds `after`, and decoding what the key had. The key is gone
/// whenever the engine did the removal, also where the removed bytes then
/// do not decode.
pub open spec fn is_removal<V: Codec>(before: Map<Seq<u8>, Seq<u8>>, after: Map<Seq<u8>, Seq<u8>>, key: Seq<u8>, r: Result<Option<V>, Error>) -> bool {
    match r {
        Ok(_) => after == before.remove(key) && is_decoded_lookup::<V>(before, key, r),
        Err(Error::Decode(_)) => after == before.remove(key) && is_decoded_lookup::<V>(before, key, r),
        Err(Error::Storage(_)) => true,
        Err(_) => false,
    }
}

/// Stores `value` under `key` in an opened table. On success the table
/// holds the two encodings under each other and is otherwise as before;
/// the only error is the engine's refusal of the write.
fn store_in<K: Codec, V: Codec>(opened: &mut Table<'_, K, V>, key: &K, value: &V) -> (r: Result<(), Error>)
    requires
        old(opened).wf(),
    ensures
        final(opened).wf(),
        match r {
            Ok(_) => final(opened).entries() == old(opened).entries().insert(key.encoding(), value.encoding()),
            Err(Error::Storage(_)) => true,
            Err(_) => false,
        },
        round_trips(key),
        round_trips(value),
{
    match opened.insert(key, value) {
        Ok(_) => Ok(()),
        Err(e) => Err(Error::Storage(e)),
    }
}

/// Removes `key` from an opened table and decodes what it had.
fn take_from<K: Codec, V: Codec>(opened: &mut Table<'_, K, V>, key: &K) -> (r: Result<Option<V>, Error>)
    requires
        old(opened).wf(),
    ensures
        final(opened).wf(),
        is_removal::<V>(old(opened).entries(), final(opened).entries(), key.encoding(), r),
        is_decoded_lookup::<V>(old(opened).entries(), key.encoding(), r),
{
    decoded_lookup(opened.remove(key))
}

/// Removes from an opened table what `f` selects and returns the removed
/// entries, decoded. The only error is the engine's.
fn take_where<K: Codec, V: Codec, F: Fn((K, V)) -> bool>(opened: &mut Table<'_, K, V>, f: F) -> (r: Result<Vec<Option<(K, V)>>, Error>)
    requires
        old(opened).wf(),
        forall|k: K, v: V| f.requires(((k, v),)),
    ensures
        final(opened).wf(),
        is_extract_result::<K, V, F>(&f, old(opened).entries(), final(opened).entries(), r),
        r matches Err(e) ==> e is Storage,
{
    match opened.remove_where(f) {
        Ok(removed) => Ok(removed),
        Err(e) => Err(Error::Storage(e)),
    }
}

} // verus!
