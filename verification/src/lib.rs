//! An embedded, serverless document/key-value database engine with a small
//! scripting virtual machine, exposed through a safe, contract-checked
//! interface.
//!
//! The engine state lives entirely in memory: a database handle owns an
//! ordered list of records (unique keys, insertion order kept), a
//! write-transaction snapshot, and a pseudo-random generator.  Scripts are
//! compiled into a session object that marshals values between the host
//! representation and the engine's value model, redirects script output to a
//! buffer, to the standard output, or to a channel, and injects and extracts
//! program variables.
//!
//! Entry points are the [`UnQLite`] constructors; the capability traits
//! ([`Config`], [`KV`], [`Cursor`], [`Transaction`], [`Util`],
//! [`document::Jx9`]) group the operations of the handle.
//!
//! The engine interface treats advisory-lock contention as transient and
//! retries it rather than surfacing it; this engine shares nothing between
//! processes, so no call ever reports the locked state and the retry never
//! triggers.

use vstd::prelude::*;

mod config;
pub mod document;
mod error;
mod jx9;
mod kv_store;
mod kv_cursor;
mod openmode;
mod text;
mod transaction;
mod util;
mod vars;

pub use config::Config;
pub use error::{Custom, Error, ErrorKind};
pub use kv_cursor::{Cursor, Direction, Entry, RawCursor};
pub use kv_store::KV;
pub use openmode::OpenMode;
pub use transaction::Transaction;
pub use util::Util;

verus! {

use vstd::string::StringSliceAdditionalSpecFns;

/// Ghost model of a database handle: the record list and the pieces of
/// engine state that the operations read or change.
#[verifier::ext_equal]
pub struct DbView {
    /// Records in insertion order; every key occurs at most once.
    pub records: Seq<(Seq<u8>, Seq<u8>)>,
    /// The handle rejects store, append, delete, commit and rollback.
    pub read_only: bool,
    /// The storage engine selected at open time ("mem" for transient
    /// databases, "hash" otherwise).
    pub mem_engine: bool,
    /// Cleared by `disable_auto_commit`.
    pub auto_commit: bool,
    /// A write transaction is open.
    pub in_txn: bool,
    /// The record list saved when the open transaction began.
    pub saved: Seq<(Seq<u8>, Seq<u8>)>,
    /// State of the engine's pseudo-random generator.
    pub rng: u32,
    /// The page-cache hint last given through `max_page_cache`.
    pub page_cache: u32,
}

/// No key occurs twice in `records`.
pub open spec fn keys_unique(records: Seq<(Seq<u8>, Seq<u8>)>) -> bool {
    forall|i: int, j: int|
        0 <= i < records.len() && 0 <= j < records.len() && i != j ==> records[i].0
            != records[j].0
}

/// The longest key the engine interface can carry (its length crosses the
/// interface as a 32-bit signed count).
pub const KEY_LEN_MAX: u64 = 0x7fff_ffff;

/// The longest record value the engine interface can carry (its length
/// crosses the interface as a 64-bit signed count).
pub const VALUE_LEN_MAX: u64 = 0x7fff_ffff_ffff_ffff;

/// Every key and value of the list fits the engine interface's counts.
pub open spec fn recs_bounded(records: Seq<(Seq<u8>, Seq<u8>)>) -> bool {
    forall|i: int|
        0 <= i < records.len() ==> (#[trigger] records[i]).0.len() <= KEY_LEN_MAX
            && records[i].1.len() <= VALUE_LEN_MAX
}

impl DbView {
    /// Well-formedness: unique, bounded keys in the live list and in the
    /// snapshot.
    pub open spec fn wf(self) -> bool {
        keys_unique(self.records) && keys_unique(self.saved) && recs_bounded(self.records)
            && recs_bounded(self.saved)
    }

    /// The engine configuration that record operations leave untouched.
    pub open spec fn same_config(self, other: DbView) -> bool {
        &&& self.read_only == other.read_only
        &&& self.mem_engine == other.mem_engine
        &&& self.auto_commit == other.auto_commit
        &&& self.rng == other.rng
        &&& self.page_cache == other.page_cache
    }
}

/// A record with the given key exists.
pub open spec fn rec_has_key(records: Seq<(Seq<u8>, Seq<u8>)>, key: Seq<u8>) -> bool {
    exists|i: int| 0 <= i < records.len() && (#[trigger] records[i]).0 == key
}

/// Position of the record with the given key (meaningful only when present;
/// unique keys make it well defined).
pub open spec fn rec_key_idx(records: Seq<(Seq<u8>, Seq<u8>)>, key: Seq<u8>) -> int {
    choose|i: int| 0 <= i < records.len() && (#[trigger] records[i]).0 == key
}

/// The value stored under the given key (meaningful only when present).
pub open spec fn rec_value_of(records: Seq<(Seq<u8>, Seq<u8>)>, key: Seq<u8>) -> Seq<u8> {
    records[rec_key_idx(records, key)].1
}

/// Store: replace the value in place when the key exists, otherwise add the
/// record at the end.
pub open spec fn rec_upsert(
    records: Seq<(Seq<u8>, Seq<u8>)>,
    key: Seq<u8>,
    value: Seq<u8>,
) -> Seq<(Seq<u8>, Seq<u8>)> {
    if rec_has_key(records, key) {
        records.update(rec_key_idx(records, key), (key, value))
    } else {
        records.push((key, value))
    }
}

/// Append: extend the stored value in place when the key exists, otherwise
/// add the record at the end.
pub open spec fn rec_append(
    records: Seq<(Seq<u8>, Seq<u8>)>,
    key: Seq<u8>,
    value: Seq<u8>,
) -> Seq<(Seq<u8>, Seq<u8>)> {
    if rec_has_key(records, key) {
        records.update(rec_key_idx(records, key), (key, rec_value_of(records, key) + value))
    } else {
        records.push((key, value))
    }
}

/// Delete: remove the record with the given key, keeping the order of the
/// others (meaningful only when present).
pub open spec fn rec_remove(records: Seq<(Seq<u8>, Seq<u8>)>, key: Seq<u8>) -> Seq<
    (Seq<u8>, Seq<u8>),
> {
    records.remove(rec_key_idx(records, key))
}

/// Database entry point: an in-memory engine handle.
///
/// Constructors mirror the ways a database can be opened:
///
/// Constructor | Meaning
/// --- | ---
/// `create_in_memory` | Create a private, transient database.
/// `create_temp` | Create a private, temporary database.
/// `create` | Create if not exists, otherwise open read-write.
/// `open_mmap` | Read-only view of the database.
/// `open_readonly` | Open the database in read-only mode.
pub struct UnQLite {
    pub(crate) records: Vec<(Vec<u8>, Vec<u8>)>,
    pub(crate) read_only: bool,
    pub(crate) mem_engine: bool,
    pub(crate) auto_commit: bool,
    pub(crate) in_txn: bool,
    pub(crate) saved: Vec<(Vec<u8>, Vec<u8>)>,
    pub(crate) rng: u32,
    pub(crate) page_cache: u32,
}

/// The ghost record list held by a list of byte-vector pairs.
pub open(crate) spec fn recs_view(v: Seq<(Vec<u8>, Vec<u8>)>) -> Seq<(Seq<u8>, Seq<u8>)> {
    Seq::new(v.len(), |i: int| (v[i].0@, v[i].1@))
}

impl UnQLite {
    /// The ghost model assembled from the handle's fields.
    pub open(crate) spec fn model(&self) -> DbView {
        DbView {
            records: recs_view(self.records@),
            read_only: self.read_only,
            mem_engine: self.mem_engine,
            auto_commit: self.auto_commit,
            in_txn: self.in_txn,
            saved: recs_view(self.saved@),
            rng: self.rng,
            page_cache: self.page_cache,
        }
    }
}

impl View for UnQLite {
    type V = DbView;

    closed spec fn view(&self) -> DbView {
        self.model()
    }
}

/// A freshly opened handle: no records, no open transaction, automatic
/// commit enabled.
pub open spec fn fresh_db(db: DbView, read_only: bool) -> bool {
    &&& db.wf()
    &&& db.records =~= Seq::<(Seq<u8>, Seq<u8>)>::empty()
    &&& db.read_only == read_only
    &&& db.auto_commit
    &&& !db.in_txn
}

impl UnQLite {
    /// Open a database with the given name and mode.
    ///
    /// A name of `":mem:"`, an empty name, or the temporary mode selects the
    /// transient "mem" storage engine; any other name selects the durable
    /// "hash" engine of the model.
    fn open(filename: &str, mode: OpenMode) -> (db: UnQLite)
        ensures
            fresh_db(db@, mode.is_read_only()),
            db@.mem_engine == (mode is TempDB || filename.spec_bytes().len() == 0
                || filename.spec_bytes() =~= ":mem:".spec_bytes()),
    {
        let mem = match mode {
            OpenMode::TempDB => true,
            _ => filename.as_bytes().len() == 0 || bytes_eq(
                filename.as_bytes(),
                ":mem:".as_bytes(),
            ),
        };
        UnQLite {
            records: Vec::new(),
            read_only: match mode {
                OpenMode::ReadOnly | OpenMode::MMap => true,
                _ => false,
            },
            mem_engine: mem,
            auto_commit: true,
            in_txn: false,
            saved: Vec::new(),
            rng: 0x6b8b4567u32,
            page_cache: 0,
        }
    }

    /// Create a database under the given name, in read-write mode.
    pub fn create(filename: &str) -> (db: UnQLite)
        ensures
            fresh_db(db@, false),
            db@.mem_engine == (filename.spec_bytes().len() == 0 || (filename.spec_bytes()
                =~= ":mem:".spec_bytes())),
    {
        Self::open(filename, OpenMode::Create)
    }

    /// Create a private, in-memory database.
    pub fn create_in_memory() -> (db: UnQLite)
        ensures
            fresh_db(db@, false),
            db@.mem_engine,
    {
        Self::open(":mem:", OpenMode::Create)
    }

    /// Create a private, temporary database, deleted when the handle is
    /// dropped.
    pub fn create_temp() -> (db: UnQLite)
        ensures
            fresh_db(db@, false),
            db@.mem_engine,
    {
        Self::open("", OpenMode::TempDB)
    }

    /// Obtain a read-only view of the whole database.
    pub fn open_mmap(filename: &str) -> (db: UnQLite)
        ensures
            fresh_db(db@, true),
            db@.mem_engine == (filename.spec_bytes().len() == 0 || (filename.spec_bytes()
                =~= ":mem:".spec_bytes())),
    {
        Self::open(filename, OpenMode::MMap)
    }

    /// Open the database in read-only mode: store, append, commit and
    /// rollback operations are rejected.
    pub fn open_readonly(filename: &str) -> (db: UnQLite)
        ensures
            fresh_db(db@, true),
            db@.mem_engine == (filename.spec_bytes().len() == 0 || (filename.spec_bytes()
                =~= ":mem:".spec_bytes())),
    {
        Self::open(filename, OpenMode::ReadOnly)
    }

    /// Release the handle.  The in-memory engine has nothing to flush; the
    /// call always reports success.
    pub fn close(&self) -> (r: Result<(), Error>)
        ensures
            r is Ok,
    {
        Ok(())
    }
}

/// Byte-for-byte equality of two slices.
pub fn bytes_eq(a: &[u8], b: &[u8]) -> (r: bool)
    ensures
        r == (a@ =~= b@),
{
    if a.len() != b.len() {
        return false;
    }
    let mut i: usize = 0;
    while i < a.len()
        invariant
            0 <= i <= a.len(),
            a@.len() == b@.len(),
            forall|k: int| 0 <= k < i ==> a@[k] == b@[k],
        decreases a.len() - i,
    {
        if a[i] != b[i] {
            return false;
        }
        i = i + 1;
    }
    true
}

} // verus!
