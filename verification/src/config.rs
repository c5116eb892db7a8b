//! Configuration options of the database handle.

use vstd::prelude::*;

use crate::{DbView, UnQLite};

verus! {

use vstd::string::StringExecFns;

/// Configuration interface of the database handle.
///
/// The builder-style methods consume and return the handle, so a fresh
/// handle can be configured in one expression.
pub trait Config: View<V = DbView> + Sized {
    /// Maximum raw pages to cache in memory.  This is a simple hint; the
    /// engine is not forced to honor it.
    fn max_page_cache(self, max: u32) -> Self
        requires
            self@.wf(),
    ;

    /// Disable the automatic commit that otherwise runs when the handle is
    /// closed while a transaction is open; the transaction is then rolled
    /// back instead unless committed by hand.
    fn disable_auto_commit(self) -> Self
        requires
            self@.wf(),
    ;

    /// Switch to another key/value storage engine.  The option is reserved
    /// for future use and the engine ignores it.
    fn kv_engine(self, name: &[u8]) -> Self
        requires
            self@.wf(),
    ;

    /// The database error log, when something went wrong during a commit,
    /// rollback, store, append or delete operation.
    fn err_log(&self) -> Option<String>
        requires
            self@.wf(),
    ;

    /// The compiler error log, when compilation of a script failed.
    fn jx9_err_log(&self) -> Option<String>
        requires
            self@.wf(),
    ;

    /// Name of the underlying key/value storage engine: "mem" for transient
    /// databases, "hash" otherwise.
    fn kv_name(&self) -> String
        requires
            self@.wf(),
    ;
}

impl Config for UnQLite {
    /// Record the page-cache hint.
    fn max_page_cache(self, max: u32) -> (r: Self)
        ensures
            r@ == (DbView { page_cache: max, ..self@ }),
            r@.wf(),
    {
        let ghost db0 = self@;
        let mut db = self;
        db.page_cache = max;
        proof {
            assert(db@ =~= (DbView { page_cache: max, ..db0 }));
        }
        db
    }

    /// Clear the automatic-commit flag.
    fn disable_auto_commit(self) -> (r: Self)
        ensures
            r@ == (DbView { auto_commit: false, ..self@ }),
            r@.wf(),
    {
        let ghost db0 = self@;
        let mut db = self;
        db.auto_commit = false;
        proof {
            assert(db@ =~= (DbView { auto_commit: false, ..db0 }));
        }
        db
    }

    /// The engine-selection option is reserved for future use; the handle
    /// is returned unchanged.
    fn kv_engine(self, name: &[u8]) -> (r: Self)
        ensures
            r@ == self@,
            r@.wf(),
    {
        let _ = name;
        self
    }

    /// The in-memory engine keeps no error log; there is never anything to
    /// report.
    fn err_log(&self) -> (r: Option<String>)
        ensures
            r is None,
    {
        None
    }

    /// The in-memory engine keeps no compiler log on the handle; script
    /// compilation reports its failures through its own result instead.
    fn jx9_err_log(&self) -> (r: Option<String>)
        ensures
            r is None,
    {
        None
    }

    /// Name of the storage engine selected at open time.
    fn kv_name(&self) -> (r: String)
        ensures
            self@.mem_engine ==> r@ == "mem"@,
            !self@.mem_engine ==> r@ == "hash"@,
    {
        if self.mem_engine {
            String::from_str("mem")
        } else {
            String::from_str("hash")
        }
    }
}

} // verus!
