//! Key/value store interface of the database handle.

use vstd::prelude::*;

use crate::error::{Custom, Error};
use crate::vars::{UNQLITE_LIMIT, UNQLITE_NOTFOUND, UNQLITE_READ_ONLY};
use crate::{recs_view, rec_append, rec_has_key, rec_key_idx, rec_remove, rec_upsert,
    rec_value_of, DbView, UnQLite, KEY_LEN_MAX, VALUE_LEN_MAX};

verus! {

use crate::error::wrapped;

/// The state after a mutating record operation: the configuration is kept, a
/// write transaction is open, and the snapshot is the list as it stood when
/// that transaction began.
pub open spec fn db_mutated(db0: DbView, db1: DbView, records: Seq<(Seq<u8>, Seq<u8>)>) -> bool {
    &&& db1.same_config(db0)
    &&& db1.records =~= records
    &&& db1.in_txn
    &&& db1.saved =~= if db0.in_txn {
        db0.saved
    } else {
        db0.records
    }
}

/// Key/value store interface.
pub trait KV: View<V = DbView> {
    /// Write a record. If the record does not exist it is created, otherwise
    /// its value is replaced.
    fn kv_store(&mut self, key: &[u8], value: &[u8]) -> Result<(), Error>
        requires
            old(self)@.wf(),
    ;

    /// Append to a record. If the record does not exist it is created,
    /// otherwise the new data is appended to the end of the old value.
    fn kv_append(&mut self, key: &[u8], value: &[u8]) -> Result<(), Error>
        requires
            old(self)@.wf(),
    ;

    /// Remove a record.
    fn kv_delete(&mut self, key: &[u8]) -> Result<(), Error>
        requires
            old(self)@.wf(),
    ;

    /// Whether a record with this key exists.
    fn kv_contains(&self, key: &[u8]) -> bool
        requires
            self@.wf(),
    ;

    /// Length of the value stored under this key.
    fn kv_fetch_length(&self, key: &[u8]) -> Result<i64, Error>
        requires
            self@.wf(),
    ;

    /// Fetch a record's value, copied into an owned buffer.
    fn kv_fetch(&self, key: &[u8]) -> Result<Vec<u8>, Error>
        requires
            self@.wf(),
    ;
}

impl KV for UnQLite {
    /// Write a record.
    ///
    /// A read-only handle reports `READ_ONLY`; a key or value too long for
    /// the engine interface's counts reports `LIMIT`; otherwise the record
    /// list is updated in place (or extended) under an open write
    /// transaction.
    fn kv_store(&mut self, key: &[u8], value: &[u8]) -> (r: Result<(), Error>)
        ensures
            final(self)@.wf(),
            old(self)@.read_only ==> r == wrapped(UNQLITE_READ_ONLY) && final(self)@ == old(
                self,
            )@,
            !old(self)@.read_only && (key@.len() > KEY_LEN_MAX || value@.len() > VALUE_LEN_MAX)
                ==> r == wrapped(UNQLITE_LIMIT) && final(self)@ == old(self)@,
            !old(self)@.read_only && key@.len() <= KEY_LEN_MAX && value@.len() <= VALUE_LEN_MAX
                ==> r is Ok && db_mutated(
                old(self)@,
                final(self)@,
                rec_upsert(old(self)@.records, key@, value@),
            ),
    {
        if self.read_only {
            return Custom::from_raw(UNQLITE_READ_ONLY);
        }
        if key.len() as u64 > KEY_LEN_MAX || value.len() as u64 > VALUE_LEN_MAX {
            return Custom::from_raw(UNQLITE_LIMIT);
        }
        self.auto_begin();
        let k = vstd::slice::slice_to_vec(key);
        let v = vstd::slice::slice_to_vec(value);
        match find_idx(&self.records, key) {
            Some(i) => {
                let ghost recs0 = recs_view(self.records@);
                let slot = &mut self.records[i];
                *slot = (k, v);
                proof {
                    lemma_unique_idx(recs0, key@, i as int);
                    assert(recs_view(self.records@) =~= rec_upsert(recs0, key@, value@));
                }
            },
            None => {
                let ghost recs0 = recs_view(self.records@);
                self.records.push((k, v));
                proof {
                    assert(recs_view(self.records@) =~= rec_upsert(recs0, key@, value@));
                }
            },
        }
        proof {
            lemma_upsert_wf(old(self)@.records, key@, value@);
        }
        Ok(())
    }

    /// Append to a record.
    ///
    /// Failure conditions are those of `kv_store`, with `LIMIT` also
    /// reported when the combined value would exceed the engine interface's
    /// count.
    fn kv_append(&mut self, key: &[u8], value: &[u8]) -> (r: Result<(), Error>)
        ensures
            final(self)@.wf(),
            old(self)@.read_only ==> r == wrapped(UNQLITE_READ_ONLY) && final(self)@ == old(
                self,
            )@,
            !old(self)@.read_only && (key@.len() > KEY_LEN_MAX || (if rec_has_key(
                old(self)@.records,
                key@,
            ) {
                rec_value_of(old(self)@.records, key@).len() + value@.len()
            } else {
                value@.len() as nat
            }) > VALUE_LEN_MAX) ==> r == wrapped(UNQLITE_LIMIT) && final(self)@ == old(self)@,
            r is Ok ==> db_mutated(
                old(self)@,
                final(self)@,
                rec_append(old(self)@.records, key@, value@),
            ),
            !old(self)@.read_only && key@.len() <= KEY_LEN_MAX && (if rec_has_key(
                old(self)@.records,
                key@,
            ) {
                rec_value_of(old(self)@.records, key@).len() + value@.len()
            } else {
                value@.len() as nat
            }) <= VALUE_LEN_MAX ==> r is Ok,
    {
        if self.read_only {
            return Custom::from_raw(UNQLITE_READ_ONLY);
        }
        if key.len() as u64 > KEY_LEN_MAX {
            return Custom::from_raw(UNQLITE_LIMIT);
        }
        match find_idx(&self.records, key) {
            Some(i) => {
                let ghost recs0 = recs_view(self.records@);
                proof {
                    lemma_unique_idx(recs0, key@, i as int);
                }
                if value.len() as u64 > VALUE_LEN_MAX - self.records[i].1.len() as u64 {
                    return Custom::from_raw(UNQLITE_LIMIT);
                }
                self.auto_begin();
                let slot = &mut self.records[i];
                slot.1.extend_from_slice(value);
                proof {
                    assert(slot.1@ =~= recs0[i as int].1 + value@);
                    assert(recs_view(self.records@) =~= rec_append(recs0, key@, value@));
                    lemma_append_wf(old(self)@.records, key@, value@);
                }
            },
            None => {
                if value.len() as u64 > VALUE_LEN_MAX {
                    return Custom::from_raw(UNQLITE_LIMIT);
                }
                self.auto_begin();
                let ghost recs0 = recs_view(self.records@);
                let k = vstd::slice::slice_to_vec(key);
                let v = vstd::slice::slice_to_vec(value);
                self.records.push((k, v));
                proof {
                    assert(recs_view(self.records@) =~= rec_append(recs0, key@, value@));
                    lemma_append_wf(old(self)@.records, key@, value@);
                }
            },
        }
        Ok(())
    }

    /// Remove a record.
    ///
    /// A read-only handle reports `READ_ONLY`; a missing key reports
    /// `NOTFOUND`; otherwise the record leaves the list, the order of the
    /// others kept.
    fn kv_delete(&mut self, key: &[u8]) -> (r: Result<(), Error>)
        ensures
            final(self)@.wf(),
            old(self)@.read_only ==> r == wrapped(UNQLITE_READ_ONLY) && final(self)@ == old(
                self,
            )@,
            !old(self)@.read_only && !rec_has_key(old(self)@.records, key@) ==> r == wrapped(
                UNQLITE_NOTFOUND,
            ) && final(self)@ == old(self)@,
            !old(self)@.read_only && rec_has_key(old(self)@.records, key@) ==> r is Ok
                && db_mutated(
                old(self)@,
                final(self)@,
                rec_remove(old(self)@.records, key@),
            ),
    {
        if self.read_only {
            return Custom::from_raw(UNQLITE_READ_ONLY);
        }
        match find_idx(&self.records, key) {
            Some(i) => {
                proof {
                    lemma_unique_idx(recs_view(self.records@), key@, i as int);
                }
                self.auto_begin();
                let ghost recs0 = recs_view(self.records@);
                let _ = self.records.remove(i);
                proof {
                    assert(recs_view(self.records@) =~= rec_remove(recs0, key@));
                    lemma_remove_wf(old(self)@.records, key@);
                }
                Ok(())
            },
            None => Custom::from_raw(UNQLITE_NOTFOUND),
        }
    }

    /// Whether a record with this key exists.
    fn kv_contains(&self, key: &[u8]) -> (r: bool)
        ensures
            r == rec_has_key(self@.records, key@),
    {
        match self.kv_fetch_length(key) {
            Ok(_) => true,
            Err(_) => false,
        }
    }

    /// Length of the value stored under this key, or `NOTFOUND`.
    fn kv_fetch_length(&self, key: &[u8]) -> (r: Result<i64, Error>)
        ensures
            rec_has_key(self@.records, key@) ==> r == Ok::<i64, Error>(
                rec_value_of(self@.records, key@).len() as i64,
            ),
            !rec_has_key(self@.records, key@) ==> r == Err::<i64, Error>(
                Error::Custom(Custom { kind: crate::ErrorKind::NOTFOUND, raw: UNQLITE_NOTFOUND }),
            ),
    {
        match find_idx(&self.records, key) {
            Some(i) => {
                proof {
                    lemma_unique_idx(recs_view(self.records@), key@, i as int);
                }
                let v: &Vec<u8> = &self.records[i].1;
                let n: usize = v.len();
                proof {
                    assert(self@.records[i as int].1.len() == n);
                }
                if n as u64 <= VALUE_LEN_MAX {
                    Ok(n as i64)
                } else {
                    // a stored value never exceeds the interface count
                    vstd::pervasive::unreached()
                }
            },
            None => {
                match Custom::from_raw(UNQLITE_NOTFOUND) {
                    Err(e) => Err(e),
                    Ok(_) => vstd::pervasive::unreached(),
                }
            },
        }
    }

    /// Fetch a record's value, copied into an owned buffer, or `NOTFOUND`.
    fn kv_fetch(&self, key: &[u8]) -> (r: Result<Vec<u8>, Error>)
        ensures
            rec_has_key(self@.records, key@) ==> r is Ok && r->Ok_0@ == rec_value_of(
                self@.records,
                key@,
            ),
            !rec_has_key(self@.records, key@) ==> r == Err::<Vec<u8>, Error>(
                Error::Custom(Custom { kind: crate::ErrorKind::NOTFOUND, raw: UNQLITE_NOTFOUND }),
            ),
    {
        match find_idx(&self.records, key) {
            Some(i) => {
                proof {
                    lemma_unique_idx(recs_view(self.records@), key@, i as int);
                }
                Ok(vstd::slice::slice_to_vec(self.records[i].1.as_slice()))
            },
            None => {
                match Custom::from_raw(UNQLITE_NOTFOUND) {
                    Err(e) => Err(e),
                    Ok(_) => vstd::pervasive::unreached(),
                }
            },
        }
    }
}

impl UnQLite {
    /// Open the implicit write transaction that every mutating record
    /// operation runs under, saving the list as it stands; a no-op when a
    /// transaction is already open.
    pub(crate) fn auto_begin(&mut self)
        ensures
            final(self)@ == (DbView {
                in_txn: true,
                saved: if old(self)@.in_txn {
                    old(self)@.saved
                } else {
                    old(self)@.records
                },
                ..old(self)@
            }),
            final(self).records == old(self).records,
    {
        if !self.in_txn {
            self.saved = clone_recs(&self.records);
            self.in_txn = true;
            proof {
                assert(final(self)@ =~= DbView { in_txn: true, saved: old(self)@.records, ..old(self)@ });
            }
        } else {
            proof {
                assert(final(self)@ =~= DbView { in_txn: true, saved: old(self)@.saved, ..old(self)@ });
            }
        }
    }
}

/// Copy a record list.
pub(crate) fn clone_recs(src: &Vec<(Vec<u8>, Vec<u8>)>) -> (r: Vec<(Vec<u8>, Vec<u8>)>)
    ensures
        recs_view(r@) =~= recs_view(src@),
{
    let mut out: Vec<(Vec<u8>, Vec<u8>)> = Vec::new();
    let mut i: usize = 0;
    while i < src.len()
        invariant
            0 <= i <= src@.len(),
            out@.len() == i,
            forall|k: int|
                0 <= k < i ==> (#[trigger] out@[k]).0@ == src@[k].0@ && out@[k].1@ == src@[k].1@,
        decreases src@.len() - i,
    {
        let k = vstd::slice::slice_to_vec(src[i].0.as_slice());
        let v = vstd::slice::slice_to_vec(src[i].1.as_slice());
        out.push((k, v));
        i = i + 1;
    }
    out
}

/// Position of the record with the given key, if any.
pub(crate) fn find_idx(records: &Vec<(Vec<u8>, Vec<u8>)>, key: &[u8]) -> (r: Option<usize>)
    ensures
        match r {
            Some(i) => i < records@.len() && recs_view(records@)[i as int].0 == key@,
            None => !rec_has_key(recs_view(records@), key@),
        },
{
    let mut i: usize = 0;
    while i < records.len()
        invariant
            0 <= i <= records@.len(),
            forall|k: int| 0 <= k < i ==> (#[trigger] recs_view(records@)[k]).0 != key@,
        decreases records@.len() - i,
    {
        if crate::bytes_eq(records[i].0.as_slice(), key) {
            return Some(i);
        }
        i = i + 1;
    }
    None
}

/// With unique keys, a position holding the key is the position the ghost
/// functions select.
pub(crate) proof fn lemma_unique_idx(records: Seq<(Seq<u8>, Seq<u8>)>, key: Seq<u8>, i: int)
    requires
        crate::keys_unique(records),
        0 <= i < records.len(),
        records[i].0 == key,
    ensures
        rec_has_key(records, key),
        rec_key_idx(records, key) == i,
{
    assert(rec_has_key(records, key));
    let j = rec_key_idx(records, key);
    assert(records[j].0 == key);
}

/// Storing keeps keys unique and bounded.
pub(crate) proof fn lemma_upsert_wf(records: Seq<(Seq<u8>, Seq<u8>)>, key: Seq<u8>, value: Seq<u8>)
    requires
        crate::keys_unique(records),
        crate::recs_bounded(records),
        key.len() <= KEY_LEN_MAX,
        value.len() <= VALUE_LEN_MAX,
    ensures
        crate::keys_unique(rec_upsert(records, key, value)),
        crate::recs_bounded(rec_upsert(records, key, value)),
{
}

/// Appending keeps keys unique, and bounded when the combined value fits.
pub(crate) proof fn lemma_append_wf(records: Seq<(Seq<u8>, Seq<u8>)>, key: Seq<u8>, value: Seq<u8>)
    requires
        crate::keys_unique(records),
        crate::recs_bounded(records),
        key.len() <= KEY_LEN_MAX,
        rec_has_key(records, key) ==> rec_value_of(records, key).len() + value.len()
            <= VALUE_LEN_MAX,
        !rec_has_key(records, key) ==> value.len() <= VALUE_LEN_MAX,
    ensures
        crate::keys_unique(rec_append(records, key, value)),
        crate::recs_bounded(rec_append(records, key, value)),
{
}

/// Removing keeps keys unique and bounded.
pub(crate) proof fn lemma_remove_wf(records: Seq<(Seq<u8>, Seq<u8>)>, key: Seq<u8>)
    requires
        crate::keys_unique(records),
        crate::recs_bounded(records),
        rec_has_key(records, key),
    ensures
        crate::keys_unique(rec_remove(records, key)),
        crate::recs_bounded(rec_remove(records, key)),
{
}

} // verus!
