//! Cursor interface: iterate over the records of the database.
//!
//! A cursor reads from the record list as it stood when the cursor was
//! created: the handle only lends its state out, so later changes to the
//! handle do not move a live cursor.  Deleting through a cursor removes the
//! pointed record from the handle itself and narrows the cursor's view to
//! match.

use vstd::prelude::*;

use crate::error::{Custom, Error};
use crate::vars::{UNQLITE_INVALID, UNQLITE_NOTFOUND};
use crate::{recs_view, DbView, UnQLite};

verus! {

use crate::error::wrapped;

/// Lexicographic byte order: `a` sorts before `b` or equals it.
pub open spec fn lex_le(a: Seq<u8>, b: Seq<u8>) -> bool
    decreases a.len(),
{
    if a.len() == 0 {
        true
    } else if b.len() == 0 {
        false
    } else if a[0] < b[0] {
        true
    } else if a[0] > b[0] {
        false
    } else {
        lex_le(a.drop_first(), b.drop_first())
    }
}

/// The byte order is total.
pub proof fn lemma_lex_total(a: Seq<u8>, b: Seq<u8>)
    ensures
        lex_le(a, b) || lex_le(b, a),
    decreases a.len(),
{
    if a.len() > 0 && b.len() > 0 && a[0] == b[0] {
        lemma_lex_total(a.drop_first(), b.drop_first());
    }
}

/// Strict lexicographic byte order: `a` sorts strictly before `b`.
pub open spec fn lex_lt(a: Seq<u8>, b: Seq<u8>) -> bool {
    lex_le(a, b) && a != b
}

/// The byte order is reflexive.
pub proof fn lemma_lex_refl(a: Seq<u8>)
    ensures
        lex_le(a, a),
    decreases a.len(),
{
    if a.len() > 0 {
        lemma_lex_refl(a.drop_first());
    }
}

/// The byte order is transitive.
pub proof fn lemma_lex_trans(a: Seq<u8>, b: Seq<u8>, c: Seq<u8>)
    requires
        lex_le(a, b),
        lex_le(b, c),
    ensures
        lex_le(a, c),
    decreases a.len(),
{
    if a.len() > 0 && b.len() > 0 && c.len() > 0 && a[0] == b[0] && b[0] == c[0] {
        lemma_lex_trans(a.drop_first(), b.drop_first(), c.drop_first());
    }
}

/// Decide the byte order.
pub fn bytes_le(a: &[u8], b: &[u8]) -> (r: bool)
    ensures
        r == lex_le(a@, b@),
{
    let mut i: usize = 0;
    proof {
        assert(a@.skip(0) =~= a@);
        assert(b@.skip(0) =~= b@);
    }
    while i < a.len() && i < b.len()
        invariant
            0 <= i <= a@.len(),
            i <= b@.len(),
            forall|k: int| 0 <= k < i ==> a@[k] == b@[k],
            lex_le(a@, b@) == lex_le(a@.skip(i as int), b@.skip(i as int)),
        decreases a.len() - i,
    {
        let x = a[i];
        let y = b[i];
        proof {
            assert(a@.skip(i as int)[0] == a@[i as int]);
            assert(b@.skip(i as int)[0] == b@[i as int]);
            assert(a@.skip(i as int).drop_first() =~= a@.skip(i as int + 1));
            assert(b@.skip(i as int).drop_first() =~= b@.skip(i as int + 1));
        }
        if x < y {
            return true;
        }
        if x > y {
            return false;
        }
        i = i + 1;
    }
    proof {
        assert(a@.skip(i as int).len() == a@.len() - i);
        assert(b@.skip(i as int).len() == b@.len() - i);
    }
    a.len() <= b.len()
}

/// How `seek` matches the given key.
pub enum Direction {
    /// Land exactly on the record with the key.
    Exact,
    /// Land on the record with the largest key that sorts strictly before
    /// the given key.
    Le,
    /// Land on the record with the smallest key that sorts strictly after
    /// the given key.
    Ge,
}

/// A raw cursor: a stable view of the record list plus a position.
pub struct RawCursor {
    pub(crate) recs: Vec<(Vec<u8>, Vec<u8>)>,
    pub(crate) pos: usize,
    pub(crate) live: bool,
}

impl RawCursor {
    /// The record list the cursor ranges over.
    pub closed spec fn recs_spec(&self) -> Seq<(Seq<u8>, Seq<u8>)> {
        recs_view(self.recs@)
    }

    /// The cursor's position within its record list.
    pub closed spec fn pos_spec(&self) -> int {
        self.pos as int
    }

    /// The cursor points at an entry.
    pub open spec fn valid_spec(&self) -> bool {
        self.live_spec() && 0 <= self.pos_spec() < self.recs_spec().len()
    }

    /// The cursor has not run past either end.
    pub closed spec fn live_spec(&self) -> bool {
        self.live && self.pos as int <= self.recs_spec().len()
    }

    /// Unique, bounded keys in the cursor's view.
    pub open spec fn wf(&self) -> bool {
        crate::keys_unique(self.recs_spec()) && crate::recs_bounded(self.recs_spec())
    }

    /// Open a cursor over the records of the handle.
    pub fn init(db: &UnQLite) -> (r: Result<RawCursor, Error>)
        requires
            db@.wf(),
        ensures
            r is Ok,
            r->Ok_0.wf(),
            r->Ok_0.recs_spec() =~= db@.records,
            r->Ok_0.pos_spec() == 0,
            r->Ok_0.live_spec(),
    {
        Ok(RawCursor { recs: crate::kv_store::clone_recs(&db.records), pos: 0, live: true })
    }

    /// Return the cursor to the first entry.
    pub fn reset(self) -> (r: Result<Self, Error>)
        requires
            self.wf(),
        ensures
            r is Ok,
            r->Ok_0.wf(),
            r->Ok_0.recs_spec() == self.recs_spec(),
            r->Ok_0.pos_spec() == 0,
            r->Ok_0.live_spec(),
    {
        let mut cur = self;
        cur.pos = 0;
        cur.live = true;
        Ok(cur)
    }

    /// Release the cursor.  The model holds no engine resources; the call
    /// always reports success.
    pub fn release(&self) -> (r: Result<(), Error>)
        ensures
            r is Ok,
    {
        Ok(())
    }

    /// Move to the record `pos` selects for `key` — the exact match, or
    /// the extremal record strictly on the proper side of the key — or run
    /// invalid when no record qualifies.
    pub fn seek(self, key: &[u8], pos: Direction) -> (r: Result<Self, Error>)
        requires
            self.wf(),
        ensures
            r is Ok,
            r->Ok_0.wf(),
            r->Ok_0.recs_spec() == self.recs_spec(),
            seek_post(r->Ok_0, self.recs_spec(), key@, pos),
    {
        let mut cur = self;
        match pos {
            Direction::Exact => {
                match crate::kv_store::find_idx(&cur.recs, key) {
                    Some(i) => {
                        cur.pos = i;
                        cur.live = true;
                        proof {
                            crate::kv_store::lemma_unique_idx(cur.recs_spec(), key@, i as int);
                        }
                    },
                    None => {
                        cur.live = false;
                    },
                }
            },
            Direction::Le => {
                let mut best: Option<usize> = None;
                let mut i: usize = 0;
                while i < cur.recs.len()
                    invariant
                        0 <= i <= cur.recs_spec().len(),
                        match best {
                            Some(b) => b < i && lex_lt(cur.recs_spec()[b as int].0, key@)
                                && forall|k: int|
                                0 <= k < i ==> !lex_lt(#[trigger] cur.recs_spec()[k].0, key@)
                                    || lex_le(cur.recs_spec()[k].0, cur.recs_spec()[b as int].0),
                            None => forall|k: int|
                                0 <= k < i ==> !lex_lt(#[trigger] cur.recs_spec()[k].0, key@),
                        },
                    decreases cur.recs.len() - i,
                {
                    if bytes_le(cur.recs[i].0.as_slice(), key) && !crate::bytes_eq(
                        cur.recs[i].0.as_slice(),
                        key,
                    ) {
                        match best {
                            Some(b) => {
                                if bytes_le(cur.recs[b].0.as_slice(), cur.recs[i].0.as_slice()) {
                                    best = Some(i);
                                    proof {
                                        lemma_lex_refl(cur.recs_spec()[i as int].0);
                                        assert forall|k: int|
                                            0 <= k < i && lex_lt(
                                                #[trigger] cur.recs_spec()[k].0,
                                                key@,
                                            ) implies lex_le(
                                            cur.recs_spec()[k].0,
                                            cur.recs_spec()[i as int].0,
                                        ) by {
                                            lemma_lex_trans(
                                                cur.recs_spec()[k].0,
                                                cur.recs_spec()[b as int].0,
                                                cur.recs_spec()[i as int].0,
                                            );
                                        }
                                    }
                                } else {
                                    proof {
                                        lemma_lex_total(
                                            cur.recs_spec()[b as int].0,
                                            cur.recs_spec()[i as int].0,
                                        );
                                    }
                                }
                            },
                            None => {
                                best = Some(i);
                                proof {
                                    lemma_lex_refl(cur.recs_spec()[i as int].0);
                                }
                            },
                        }
                    }
                    i = i + 1;
                }
                match best {
                    Some(b) => {
                        cur.pos = b;
                        cur.live = true;
                    },
                    None => {
                        cur.live = false;
                    },
                }
            },
            Direction::Ge => {
                let mut best: Option<usize> = None;
                let mut i: usize = 0;
                while i < cur.recs.len()
                    invariant
                        0 <= i <= cur.recs_spec().len(),
                        match best {
                            Some(b) => b < i && lex_lt(key@, cur.recs_spec()[b as int].0)
                                && forall|k: int|
                                0 <= k < i ==> !lex_lt(key@, #[trigger] cur.recs_spec()[k].0)
                                    || lex_le(cur.recs_spec()[b as int].0, cur.recs_spec()[k].0),
                            None => forall|k: int|
                                0 <= k < i ==> !lex_lt(key@, #[trigger] cur.recs_spec()[k].0),
                        },
                    decreases cur.recs.len() - i,
                {
                    if bytes_le(key, cur.recs[i].0.as_slice()) && !crate::bytes_eq(
                        key,
                        cur.recs[i].0.as_slice(),
                    ) {
                        match best {
                            Some(b) => {
                                if bytes_le(cur.recs[i].0.as_slice(), cur.recs[b].0.as_slice()) {
                                    best = Some(i);
                                    proof {
                                        lemma_lex_refl(cur.recs_spec()[i as int].0);
                                        assert forall|k: int|
                                            0 <= k < i && lex_lt(
                                                key@,
                                                #[trigger] cur.recs_spec()[k].0,
                                            ) implies lex_le(
                                            cur.recs_spec()[i as int].0,
                                            cur.recs_spec()[k].0,
                                        ) by {
                                            lemma_lex_trans(
                                                cur.recs_spec()[i as int].0,
                                                cur.recs_spec()[b as int].0,
                                                cur.recs_spec()[k].0,
                                            );
                                        }
                                    }
                                } else {
                                    proof {
                                        lemma_lex_total(
                                            cur.recs_spec()[i as int].0,
                                            cur.recs_spec()[b as int].0,
                                        );
                                    }
                                }
                            },
                            None => {
                                best = Some(i);
                                proof {
                                    lemma_lex_refl(cur.recs_spec()[i as int].0);
                                }
                            },
                        }
                    }
                    i = i + 1;
                }
                match best {
                    Some(b) => {
                        cur.pos = b;
                        cur.live = true;
                    },
                    None => {
                        cur.live = false;
                    },
                }
            },
        }
        Ok(cur)
    }

    /// Move to the first entry.
    pub fn first(self) -> (r: Result<Self, Error>)
        requires
            self.wf(),
        ensures
            r is Ok,
            r->Ok_0.wf(),
            r->Ok_0.recs_spec() == self.recs_spec(),
            r->Ok_0.pos_spec() == 0,
            r->Ok_0.live_spec(),
    {
        let mut cur = self;
        cur.pos = 0;
        cur.live = true;
        Ok(cur)
    }

    /// Move to the last entry, or run invalid when there is none.
    pub fn last(self) -> (r: Result<Self, Error>)
        requires
            self.wf(),
        ensures
            r is Ok,
            r->Ok_0.wf(),
            r->Ok_0.recs_spec() == self.recs_spec(),
            self.recs_spec().len() > 0 ==> r->Ok_0.valid_spec() && r->Ok_0.pos_spec()
                == self.recs_spec().len() - 1,
            self.recs_spec().len() == 0 ==> !r->Ok_0.valid_spec(),
    {
        let mut cur = self;
        if cur.recs.len() > 0 {
            cur.pos = cur.recs.len() - 1;
            cur.live = true;
        } else {
            cur.live = false;
        }
        Ok(cur)
    }

    /// Step to the next entry; stepping off the last entry leaves the
    /// cursor invalid.  A cursor that is already invalid reports `INVALID`.
    pub fn next(self) -> (r: Result<Self, Error>)
        requires
            self.wf(),
        ensures
            self.valid_spec() ==> r is Ok && r->Ok_0.wf() && r->Ok_0.recs_spec()
                == self.recs_spec() && r->Ok_0.pos_spec() == self.pos_spec() + 1
                && r->Ok_0.live_spec(),
            !self.valid_spec() ==> r == Err::<Self, Error>(wrapped(UNQLITE_INVALID)->Err_0),
    {
        let mut cur = self;
        if cur.live && cur.pos < cur.recs.len() {
            cur.pos = cur.pos + 1;
            Ok(cur)
        } else {
            match Custom::from_raw(UNQLITE_INVALID) {
                Err(e) => Err(e),
                Ok(_) => vstd::pervasive::unreached(),
            }
        }
    }

    /// Step to the previous entry; stepping off the first entry leaves the
    /// cursor invalid.  A cursor that is already invalid reports `INVALID`.
    pub fn prev(self) -> (r: Result<Self, Error>)
        requires
            self.wf(),
        ensures
            self.valid_spec() && self.pos_spec() > 0 ==> r is Ok && r->Ok_0.wf()
                && r->Ok_0.recs_spec() == self.recs_spec() && r->Ok_0.pos_spec()
                == self.pos_spec() - 1 && r->Ok_0.live_spec() && r->Ok_0.valid_spec(),
            self.valid_spec() && self.pos_spec() == 0 ==> r is Ok && r->Ok_0.wf()
                && r->Ok_0.recs_spec() == self.recs_spec() && !r->Ok_0.valid_spec(),
            !self.valid_spec() ==> r == Err::<Self, Error>(wrapped(UNQLITE_INVALID)->Err_0),
    {
        let mut cur = self;
        if cur.live && cur.pos < cur.recs.len() {
            if cur.pos > 0 {
                cur.pos = cur.pos - 1;
            } else {
                cur.live = false;
            }
            Ok(cur)
        } else {
            match Custom::from_raw(UNQLITE_INVALID) {
                Err(e) => Err(e),
                Ok(_) => vstd::pervasive::unreached(),
            }
        }
    }

    /// Whether the cursor points at an entry.
    pub fn is_valid(&self) -> (r: bool)
        ensures
            r == self.valid_spec(),
    {
        self.live && self.pos < self.recs.len()
    }

    /// Keep the cursor only while it points at an entry.
    pub fn valid(self) -> (r: Option<Self>)
        ensures
            self.valid_spec() ==> r == Some(self),
            !self.valid_spec() ==> r is None,
    {
        if self.is_valid() {
            Some(self)
        } else {
            None
        }
    }

    /// The key of the current entry.
    pub fn key(&self) -> (r: Result<Vec<u8>, Error>)
        requires
            self.valid_spec(),
        ensures
            r is Ok,
            r->Ok_0@ == self.recs_spec()[self.pos_spec()].0,
    {
        Ok(vstd::slice::slice_to_vec(self.recs[self.pos].0.as_slice()))
    }

    /// The value of the current entry.
    pub fn value(&self) -> (r: Result<Vec<u8>, Error>)
        requires
            self.valid_spec(),
        ensures
            r is Ok,
            r->Ok_0@ == self.recs_spec()[self.pos_spec()].1,
    {
        Ok(vstd::slice::slice_to_vec(self.recs[self.pos].1.as_slice()))
    }

    /// The key and value of the current entry.
    pub fn key_value(&self) -> (r: Result<(Vec<u8>, Vec<u8>), Error>)
        requires
            self.valid_spec(),
        ensures
            r is Ok,
            r->Ok_0.0@ == self.recs_spec()[self.pos_spec()].0,
            r->Ok_0.1@ == self.recs_spec()[self.pos_spec()].1,
    {
        Ok((
            vstd::slice::slice_to_vec(self.recs[self.pos].0.as_slice()),
            vstd::slice::slice_to_vec(self.recs[self.pos].1.as_slice()),
        ))
    }

    /// Remove the pointed record from the handle and from the cursor's
    /// view; the cursor is left on the entry that followed it.  A read-only
    /// handle reports `READ_ONLY`; an invalid cursor, or a record the
    /// handle no longer holds, reports `NOTFOUND`; a failure leaves the
    /// handle unchanged.
    pub fn delete(self, db: &mut UnQLite) -> (r: Result<Self, Error>)
        requires
            self.wf(),
            old(db)@.wf(),
        ensures
            final(db)@.wf(),
            !self.valid_spec() ==> r == Err::<Self, Error>(wrapped(UNQLITE_NOTFOUND)->Err_0)
                && final(db)@ == old(db)@,
            self.valid_spec() && old(db)@.read_only ==> r == Err::<Self, Error>(
                wrapped(crate::vars::UNQLITE_READ_ONLY)->Err_0,
            ) && final(db)@ == old(db)@,
            self.valid_spec() && !old(db)@.read_only && !crate::rec_has_key(
                old(db)@.records,
                self.recs_spec()[self.pos_spec()].0,
            ) ==> r == Err::<Self, Error>(wrapped(UNQLITE_NOTFOUND)->Err_0) && final(db)@ == old(
                db,
            )@,
            self.valid_spec() && !old(db)@.read_only && crate::rec_has_key(
                old(db)@.records,
                self.recs_spec()[self.pos_spec()].0,
            ) ==> (r matches Ok(cur) && cur.wf() && cur.recs_spec() =~= self.recs_spec().remove(
                self.pos_spec(),
            ) && cur.pos_spec() == self.pos_spec() && cur.live_spec()
                && crate::kv_store::db_mutated(
                old(db)@,
                final(db)@,
                crate::rec_remove(old(db)@.records, self.recs_spec()[self.pos_spec()].0),
            )),
    {
        let mut cur = self;
        if !(cur.live && cur.pos < cur.recs.len()) {
            return match Custom::from_raw(UNQLITE_NOTFOUND) {
                Err(e) => Err(e),
                Ok(_) => vstd::pervasive::unreached(),
            };
        }
        match crate::kv_store::KV::kv_delete(db, cur.recs[cur.pos].0.as_slice()) {
            Ok(_) => {
                let _ = cur.recs.remove(cur.pos);
                proof {
                    assert(cur.recs_spec() =~= self.recs_spec().remove(self.pos_spec()));
                }
                Ok(cur)
            },
            Err(e) => Err(e),
        }
    }

    /// Byte length of the current entry's key.
    pub fn key_len(&self) -> (r: Result<i32, Error>)
        requires
            self.wf(),
            self.valid_spec(),
        ensures
            r == Ok::<i32, Error>(self.recs_spec()[self.pos_spec()].0.len() as i32),
    {
        let n: usize = self.recs[self.pos].0.len();
        proof {
            assert(self.recs_spec()[self.pos_spec()].0.len() <= crate::KEY_LEN_MAX);
        }
        if n as u64 <= crate::KEY_LEN_MAX {
            Ok(n as i32)
        } else {
            // a stored key never exceeds the interface count
            vstd::pervasive::unreached()
        }
    }

    /// Byte length of the current entry's value.
    pub fn value_len(&self) -> (r: Result<i64, Error>)
        requires
            self.wf(),
            self.valid_spec(),
        ensures
            r == Ok::<i64, Error>(self.recs_spec()[self.pos_spec()].1.len() as i64),
    {
        let n: usize = self.recs[self.pos].1.len();
        proof {
            assert(self.recs_spec()[self.pos_spec()].1.len() <= crate::VALUE_LEN_MAX);
        }
        if n as u64 <= crate::VALUE_LEN_MAX {
            Ok(n as i64)
        } else {
            // a stored value never exceeds the interface count
            vstd::pervasive::unreached()
        }
    }
}

/// Where a seek lands for each direction: on the matching record for
/// `Exact`, on the extremal record strictly on the proper side of the key
/// for `Le` and `Ge`, and invalid when no record qualifies.
pub open spec fn seek_post(
    cur: RawCursor,
    recs: Seq<(Seq<u8>, Seq<u8>)>,
    key: Seq<u8>,
    pos: Direction,
) -> bool {
    match pos {
        Direction::Exact => {
            if crate::rec_has_key(recs, key) {
                cur.valid_spec() && cur.pos_spec() == crate::rec_key_idx(recs, key)
            } else {
                !cur.valid_spec()
            }
        },
        Direction::Le => {
            if exists|k: int| 0 <= k < recs.len() && lex_lt((#[trigger] recs[k]).0, key) {
                cur.valid_spec() && lex_lt(recs[cur.pos_spec()].0, key) && forall|k: int|
                    0 <= k < recs.len() ==> !lex_lt((#[trigger] recs[k]).0, key) || lex_le(
                        recs[k].0,
                        recs[cur.pos_spec()].0,
                    )
            } else {
                !cur.valid_spec()
            }
        },
        Direction::Ge => {
            if exists|k: int| 0 <= k < recs.len() && lex_lt(key, (#[trigger] recs[k]).0) {
                cur.valid_spec() && lex_lt(key, recs[cur.pos_spec()].0) && forall|k: int|
                    0 <= k < recs.len() ==> !lex_lt(key, (#[trigger] recs[k]).0) || lex_le(
                        recs[cur.pos_spec()].0,
                        recs[k].0,
                    )
            } else {
                !cur.valid_spec()
            }
        },
    }
}

/// Some record qualifies for the direction: the key itself for `Exact`, a
/// key strictly on the proper side of it for `Le` and `Ge`.
pub open spec fn seek_target_exists(
    recs: Seq<(Seq<u8>, Seq<u8>)>,
    key: Seq<u8>,
    pos: Direction,
) -> bool {
    match pos {
        Direction::Exact => crate::rec_has_key(recs, key),
        Direction::Le => exists|k: int| 0 <= k < recs.len() && lex_lt((#[trigger] recs[k]).0, key),
        Direction::Ge => exists|k: int| 0 <= k < recs.len() && lex_lt(key, (#[trigger] recs[k]).0),
    }
}

/// A cursor entry known to point at a record.
pub struct Entry(pub(crate) RawCursor);

impl Entry {
    /// The raw cursor the entry wraps.
    pub closed spec fn raw(&self) -> RawCursor {
        self.0
    }

    /// The entry points at a record of a well-formed view.
    pub open spec fn wf(&self) -> bool {
        self.raw().wf() && self.raw().valid_spec()
    }

    /// The record list the entry's cursor ranges over.
    pub open spec fn recs_spec(&self) -> Seq<(Seq<u8>, Seq<u8>)> {
        self.raw().recs_spec()
    }

    /// The position of the entry.
    pub open spec fn pos_spec(&self) -> int {
        self.raw().pos_spec()
    }

    /// The key of the record.
    pub fn key(&self) -> (r: Vec<u8>)
        requires
            self.wf(),
        ensures
            r@ == self.recs_spec()[self.pos_spec()].0,
    {
        match self.0.key() {
            Ok(k) => k,
            Err(_) => vstd::pervasive::unreached(),
        }
    }

    /// The value of the record.
    pub fn value(&self) -> (r: Vec<u8>)
        requires
            self.wf(),
        ensures
            r@ == self.recs_spec()[self.pos_spec()].1,
    {
        match self.0.value() {
            Ok(v) => v,
            Err(_) => vstd::pervasive::unreached(),
        }
    }

    /// The key and value of the record.
    pub fn key_value(&self) -> (r: (Vec<u8>, Vec<u8>))
        requires
            self.wf(),
        ensures
            r.0@ == self.recs_spec()[self.pos_spec()].0,
            r.1@ == self.recs_spec()[self.pos_spec()].1,
    {
        match self.0.key_value() {
            Ok(kv) => kv,
            Err(_) => vstd::pervasive::unreached(),
        }
    }

    /// Go to the next entry, or `None` past the last one.
    pub fn next(self) -> (r: Option<Self>)
        requires
            self.wf(),
        ensures
            self.pos_spec() + 1 < self.recs_spec().len() ==> (r matches Some(e) && e.wf()
                && e.recs_spec() == self.recs_spec() && e.pos_spec() == self.pos_spec() + 1),
            self.pos_spec() + 1 >= self.recs_spec().len() ==> r is None,
    {
        match self.0.next() {
            Ok(cur) => {
                match cur.valid() {
                    Some(c) => Some(Entry(c)),
                    None => None,
                }
            },
            Err(_) => None,
        }
    }

    /// Go to the previous entry, or `None` before the first one.
    pub fn prev(self) -> (r: Option<Self>)
        requires
            self.wf(),
        ensures
            self.pos_spec() > 0 ==> (r matches Some(e) && e.wf() && e.recs_spec()
                == self.recs_spec() && e.pos_spec() == self.pos_spec() - 1),
            self.pos_spec() == 0 ==> r is None,
    {
        match self.0.prev() {
            Ok(cur) => {
                match cur.valid() {
                    Some(c) => Some(Entry(c)),
                    None => None,
                }
            },
            Err(_) => None,
        }
    }

    /// Remove the pointed record from the handle, and return the entry now
    /// at its place in the narrowed view, or `None` when the removed record
    /// was the last — or when nothing could be removed (a read-only handle,
    /// or a record the handle no longer holds), in which case the handle is
    /// unchanged.
    pub fn delete(self, db: &mut UnQLite) -> (r: Option<Self>)
        requires
            self.wf(),
            old(db)@.wf(),
        ensures
            final(db)@.wf(),
            ({
                let key = self.recs_spec()[self.pos_spec()].0;
                &&& (old(db)@.read_only || !crate::rec_has_key(old(db)@.records, key)) ==> r
                    is None && final(db)@ == old(db)@
                &&& (!old(db)@.read_only && crate::rec_has_key(old(db)@.records, key)) ==> (
                crate::kv_store::db_mutated(
                    old(db)@,
                    final(db)@,
                    crate::rec_remove(old(db)@.records, key),
                ) && (self.pos_spec() + 1 < self.recs_spec().len() ==> (r matches Some(e)
                    && e.wf() && e.recs_spec() =~= self.recs_spec().remove(self.pos_spec())
                    && e.pos_spec() == self.pos_spec())) && (self.pos_spec() + 1
                    >= self.recs_spec().len() ==> r is None))
            }),
    {
        match self.0.delete(db) {
            Ok(cur) => {
                match cur.valid() {
                    Some(c) => Some(Entry(c)),
                    None => None,
                }
            },
            Err(_) => None,
        }
    }
}

/// Cursor interface of the database handle.
pub trait Cursor: View<V = DbView> {
    /// The entry of the first record, or `None` on an empty database.
    fn first(&self) -> Option<Entry>
        requires
            self@.wf(),
    ;

    /// The entry of the last record, or `None` on an empty database.
    fn last(&self) -> Option<Entry>
        requires
            self@.wf(),
    ;

    /// The entry the direction selects for the key, or `None` when no
    /// record qualifies.
    fn seek(&self, key: &[u8], pos: Direction) -> Option<Entry>
        requires
            self@.wf(),
    ;
}

impl Cursor for UnQLite {
    /// The entry of the first record, or `None` on an empty database.
    fn first(&self) -> (r: Option<Entry>)
        ensures
            self@.records.len() > 0 ==> (r matches Some(e) && e.wf() && e.recs_spec()
                =~= self@.records && e.pos_spec() == 0),
            self@.records.len() == 0 ==> r is None,
    {
        match RawCursor::init(self) {
            Ok(cur) => {
                match cur.first() {
                    Ok(cur) => {
                        match cur.valid() {
                            Some(c) => Some(Entry(c)),
                            None => None,
                        }
                    },
                    Err(_) => None,
                }
            },
            Err(_) => None,
        }
    }

    /// The entry of the last record, or `None` on an empty database.
    fn last(&self) -> (r: Option<Entry>)
        ensures
            self@.records.len() > 0 ==> (r matches Some(e) && e.wf() && e.recs_spec()
                =~= self@.records && e.pos_spec() == self@.records.len() - 1),
            self@.records.len() == 0 ==> r is None,
    {
        match RawCursor::init(self) {
            Ok(cur) => {
                match cur.last() {
                    Ok(cur) => {
                        match cur.valid() {
                            Some(c) => Some(Entry(c)),
                            None => None,
                        }
                    },
                    Err(_) => None,
                }
            },
            Err(_) => None,
        }
    }

    /// The entry the direction selects for the key (the exact match, or
    /// the extremal record strictly on the proper side of the key), or
    /// `None` when no record qualifies.
    fn seek(&self, key: &[u8], pos: Direction) -> (r: Option<Entry>)
        ensures
            seek_target_exists(self@.records, key@, pos) ==> (r matches Some(e) && e.wf()
                && e.recs_spec() =~= self@.records && seek_post(e.raw(), self@.records, key@, pos)),
            !seek_target_exists(self@.records, key@, pos) ==> r is None,
    {
        match RawCursor::init(self) {
            Ok(cur) => {
                match cur.seek(key, pos) {
                    Ok(cur) => {
                        match cur.valid() {
                            Some(c) => Some(Entry(c)),
                            None => None,
                        }
                    },
                    Err(_) => None,
                }
            },
            Err(_) => None,
        }
    }
}

} // verus!
