//! Manual write-transaction control of the database handle.

use vstd::prelude::*;

use crate::error::{Custom, Error};
use crate::vars::UNQLITE_READ_ONLY;
use crate::{DbView, UnQLite};

verus! {

use crate::error::wrapped;

/// Manual transaction manager.
///
/// The engine also opens a write transaction by itself whenever a store,
/// append or delete operation runs outside one.
pub trait Transaction: View<V = DbView> {
    /// Begin a write transaction; a no-op when one is already open.
    fn begin(&mut self) -> Result<(), Error>
        requires
            old(self)@.wf(),
    ;

    /// Commit all changes of the open write transaction; a no-op when none
    /// is open.
    fn commit(&mut self) -> Result<(), Error>
        requires
            old(self)@.wf(),
    ;

    /// Revert all changes of the open write transaction and close it; a
    /// no-op when none is open.
    fn rollback(&mut self) -> Result<(), Error>
        requires
            old(self)@.wf(),
    ;
}

impl Transaction for UnQLite {
    /// Begin a write transaction, saving the record list as it stands.
    ///
    /// A read-only handle reports `READ_ONLY` and is left unchanged.
    fn begin(&mut self) -> (r: Result<(), Error>)
        ensures
            final(self)@.wf(),
            old(self)@.read_only ==> r == wrapped(UNQLITE_READ_ONLY) && final(self)@ == old(
                self,
            )@,
            !old(self)@.read_only ==> r is Ok && final(self)@ == (DbView {
                in_txn: true,
                saved: if old(self)@.in_txn {
                    old(self)@.saved
                } else {
                    old(self)@.records
                },
                ..old(self)@
            }),
    {
        if self.read_only {
            return Custom::from_raw(UNQLITE_READ_ONLY);
        }
        self.auto_begin();
        Ok(())
    }

    /// Commit: the record list as it stands becomes permanent and the open
    /// transaction is closed.
    ///
    /// A read-only handle reports `READ_ONLY` and is left unchanged.
    fn commit(&mut self) -> (r: Result<(), Error>)
        ensures
            final(self)@.wf(),
            old(self)@.read_only ==> r == wrapped(UNQLITE_READ_ONLY) && final(self)@ == old(
                self,
            )@,
            !old(self)@.read_only ==> r is Ok && final(self)@ == (DbView {
                in_txn: false,
                saved: Seq::<(Seq<u8>, Seq<u8>)>::empty(),
                ..old(self)@
            }),
    {
        if self.read_only {
            return Custom::from_raw(UNQLITE_READ_ONLY);
        }
        self.in_txn = false;
        self.saved = Vec::new();
        proof {
            assert(final(self)@ =~= (DbView {
                in_txn: false,
                saved: Seq::<(Seq<u8>, Seq<u8>)>::empty(),
                ..old(self)@
            }));
        }
        Ok(())
    }

    /// Rollback: the record list returns to what it was when the open
    /// transaction began, and the transaction is closed.
    ///
    /// A read-only handle reports `READ_ONLY` and is left unchanged.
    fn rollback(&mut self) -> (r: Result<(), Error>)
        ensures
            final(self)@.wf(),
            old(self)@.read_only ==> r == wrapped(UNQLITE_READ_ONLY) && final(self)@ == old(
                self,
            )@,
            !old(self)@.read_only && old(self)@.in_txn ==> r is Ok && final(self)@ == (DbView {
                records: old(self)@.saved,
                in_txn: false,
                saved: Seq::<(Seq<u8>, Seq<u8>)>::empty(),
                ..old(self)@
            }),
            !old(self)@.read_only && !old(self)@.in_txn ==> r is Ok && final(self)@ == old(
                self,
            )@,
    {
        if self.read_only {
            return Custom::from_raw(UNQLITE_READ_ONLY);
        }
        if self.in_txn {
            let mut rolled: Vec<(Vec<u8>, Vec<u8>)> = Vec::new();
            core::mem::swap(&mut rolled, &mut self.saved);
            self.records = rolled;
            self.in_txn = false;
            proof {
                assert(final(self)@ =~= (DbView {
                    records: old(self)@.saved,
                    in_txn: false,
                    saved: Seq::<(Seq<u8>, Seq<u8>)>::empty(),
                    ..old(self)@
                }));
            }
        }
        Ok(())
    }
}

} // verus!
