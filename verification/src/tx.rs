use crate::codec::Codec;
use crate::engine::{snapshot_entries, RawReadOnlyTable, RawTable};
use crate::table::{ReadOnlyTable, Table};
use vstd::prelude::*;

verus! {

/// The cache size of a store that is opened without one: 4 GiB.
pub const DEFAULT_CACHE_BYTES: u64 = 4294967296;

/// The cache size to open a store with: the requested one, or the default.
pub fn cache_bytes(requested: Option<usize>) -> (bytes: u64)
    ensures
        bytes == match requested {
            Some(n) => n as u64,
            None => DEFAULT_CACHE_BYTES,
        },
{
    match requested {
        Some(n) => n as u64,
        None => DEFAULT_CACHE_BYTES,
    }
}

/// A handle to one store of the engine. It opens transactions; what they
/// see and when a commit becomes visible is the engine's own business.
#[verifier::external_body]
pub struct Database(pub redb::Database);

/// A read transaction of the engine, from which typed read-only tables are
/// opened.
#[verifier::external_body]
pub struct ReadTransaction(pub redb::ReadTransaction);

/// A write transaction of the engine, from which typed writable tables are
/// opened.
#[verifier::external_body]
pub struct WriteTransaction(pub redb::WriteTransaction);

/// What the table `name` holds in the snapshot of a read transaction.
pub uninterp spec fn snapshot_of(txn: ReadTransaction, name: Seq<char>) -> Map<Seq<u8>, Seq<u8>>;

/// Calls `redb::ReadTransaction::open_table` for a byte-keyed, byte-valued
/// table of the given name, which must not be empty: the engine panics on
/// an empty name. Trusted: a read transaction keeps the root that
/// it was begun with, so a table opened from it holds what that snapshot
/// has under the name, whenever it is opened.
#[verifier::external_body]
fn open_snapshot(txn: &ReadTransaction, name: &str) -> (r: Result<RawReadOnlyTable, redb::TableError>)
    requires
        name@.len() > 0,
    ensures
        r matches Ok(t) ==> snapshot_entries(t) == snapshot_of(*txn, name@),
{
    txn.0.open_table(redb::TableDefinition::new(name)).map(|inner| RawReadOnlyTable { inner })
}

/// Calls `redb::WriteTransaction::open_table` for a byte-keyed, byte-valued
/// table of the given name, which is created where it does not exist. The
/// name must not be empty: the engine panics on an empty name. Nothing is
/// claimed of what the table holds.
#[verifier::external_body]
fn open_writable<'txn>(txn: &'txn WriteTransaction, name: &str) -> (r: Result<RawTable<'txn>, redb::TableError>)
    requires
        name@.len() > 0,
{
    txn.0.open_table(redb::TableDefinition::new(name)).map(|inner| RawTable { inner })
}

impl Database {
    /// Starts a read transaction with `redb::Database::begin_read`: a
    /// snapshot that later commits do not change. Nothing is claimed of the
    /// outcome.
    #[verifier::external_body]
    pub fn begin_read(&self) -> (r: Result<ReadTransaction, redb::TransactionError>) {
        self.0.begin_read().map(ReadTransaction)
    }

    /// Starts a write transaction with `redb::Database::begin_write`. Its
    /// changes are void unless it is committed. Nothing is claimed of the
    /// outcome.
    #[verifier::external_body]
    pub fn begin_write(&self) -> (r: Result<WriteTransaction, redb::TransactionError>) {
        self.0.begin_write().map(WriteTransaction)
    }
}

impl ReadTransaction {
    /// Opens the table `name` with key type `K` and value type `V`, ordered
    /// byte-wise by encoded key. The name must not be empty. The returned
    /// table is ready for use and holds what this transaction's snapshot has
    /// under the name.
    pub fn open_table<K: Codec, V: Codec>(&self, name: &str) -> (r: Result<ReadOnlyTable<K, V>, redb::TableError>)
        requires
            name@.len() > 0,
        ensures
            r matches Ok(table) ==> table.wf() && table.entries() == snapshot_of(*self, name@),
    {
        match open_snapshot(self, name) {
            Ok(raw) => Ok(ReadOnlyTable::new(raw)),
            Err(e) => Err(e),
        }
    }
}

impl WriteTransaction {
    /// Opens the table `name` with key type `K` and value type `V`, ordered
    /// byte-wise by encoded key; the engine creates it where it does not
    /// exist. The name must not be empty. The returned table is ready for
    /// use.
    pub fn open_table<'txn, K: Codec, V: Codec>(&'txn self, name: &str) -> (r: Result<Table<'txn, K, V>, redb::TableError>)
        requires
            name@.len() > 0,
        ensures
            r matches Ok(table) ==> table.wf(),
    {
        match open_writable(self, name) {
            Ok(raw) => Ok(Table::new(raw)),
            Err(e) => Err(e),
        }
    }

    /// Commits the transaction with `redb::WriteTransaction::commit`.
    /// Nothing is claimed of the outcome.
    #[verifier::external_body]
    pub fn commit(self) -> (r: Result<(), redb::CommitError>) {
        self.0.commit()
    }
}

} // verus!
