//! Error taxonomy of the engine interface.
//!
//! Every failing native-style call surfaces as a [`Custom`] value carrying
//! the raw status code and its classification; a supplied name or string
//! holding an embedded terminator byte surfaces as [`Error::Nul`] before the
//! engine is consulted at all.

use vstd::prelude::*;

use crate::vars::{
    UNQLITE_OK, UNQLITE_NOMEM, UNQLITE_ABORT, UNQLITE_IOERR, UNQLITE_CORRUPT, UNQLITE_LOCKED,
    UNQLITE_BUSY, UNQLITE_DONE, UNQLITE_PERM, UNQLITE_NOTIMPLEMENTED, UNQLITE_NOTFOUND,
    UNQLITE_NOOP, UNQLITE_INVALID, UNQLITE_EOF, UNQLITE_UNKNOWN, UNQLITE_LIMIT, UNQLITE_EXISTS,
    UNQLITE_EMPTY, UNQLITE_COMPILE_ERR, UNQLITE_VM_ERR, UNQLITE_FULL, UNQLITE_CANTOPEN,
    UNQLITE_READ_ONLY, UNQLITE_LOCKERR,
};

verus! {

/// Failure surfaced by an operation of this crate.
#[derive(Clone, Debug, PartialEq, Eq, Structural)]
pub enum Error {
    /// The engine reported a non-zero status code.
    Custom(Custom),
    /// A supplied string or key contains an embedded terminator byte, which
    /// the engine's string representation cannot carry.
    Nul,
}

/// A non-zero engine status code together with its classification.
#[derive(Clone, Copy, Debug, PartialEq, Eq, Structural)]
pub struct Custom {
    /// Classification of the status code.
    pub kind: ErrorKind,
    /// The status code as the engine reported it.
    pub raw: i32,
}

/// Error kinds of the engine interface.
#[allow(non_camel_case_types)]
#[derive(Clone, Copy, Debug, PartialEq, Eq, Structural)]
pub enum ErrorKind {
    /// Successful result.
    OK,
    /// Out of memory.
    NOMEM,
    /// Another thread has released this instance.
    ABORT,
    /// IO error.
    IOERR,
    /// Corrupt pointer.
    CORRUPT,
    /// Forbidden operation.
    LOCKED,
    /// The database file is locked.
    BUSY,
    /// Operation done, not an error.
    DONE,
    /// Permission error.
    PERM,
    /// Method not implemented.
    NOTIMPLEMENTED,
    /// No such record.
    NOTFOUND,
    /// No such method.
    NOOP,
    /// Invalid parameter.
    INVALID,
    /// End of input.
    EOF,
    /// Unknown configuration option.
    UNKNOWN,
    /// Database limit reached.
    LIMIT,
    /// Record exists.
    EXISTS,
    /// Empty record.
    EMPTY,
    /// Compilation error.
    COMPILE_ERR,
    /// Virtual machine error.
    VM_ERR,
    /// Full database (unlikely).
    FULL,
    /// Unable to open the database file.
    CANTOPEN,
    /// Read-only key/value storage engine.
    READ_ONLY,
    /// Locking protocol error.
    LOCKERR,
    /// A status code outside the documented set.
    #[allow(non_camel_case_types)]
    __Nonexhaustive,
}

/// Classification of each status code.
pub open spec fn kind_of_code(code: i32) -> ErrorKind {
    if code == UNQLITE_OK {
        ErrorKind::OK
    } else if code == UNQLITE_NOMEM {
        ErrorKind::NOMEM
    } else if code == UNQLITE_ABORT {
        ErrorKind::ABORT
    } else if code == UNQLITE_IOERR {
        ErrorKind::IOERR
    } else if code == UNQLITE_CORRUPT {
        ErrorKind::CORRUPT
    } else if code == UNQLITE_LOCKED {
        ErrorKind::LOCKED
    } else if code == UNQLITE_BUSY {
        ErrorKind::BUSY
    } else if code == UNQLITE_DONE {
        ErrorKind::DONE
    } else if code == UNQLITE_PERM {
        ErrorKind::PERM
    } else if code == UNQLITE_NOTIMPLEMENTED {
        ErrorKind::NOTIMPLEMENTED
    } else if code == UNQLITE_NOTFOUND {
        ErrorKind::NOTFOUND
    } else if code == UNQLITE_NOOP {
        ErrorKind::NOOP
    } else if code == UNQLITE_INVALID {
        ErrorKind::INVALID
    } else if code == UNQLITE_EOF {
        ErrorKind::EOF
    } else if code == UNQLITE_UNKNOWN {
        ErrorKind::UNKNOWN
    } else if code == UNQLITE_LIMIT {
        ErrorKind::LIMIT
    } else if code == UNQLITE_EXISTS {
        ErrorKind::EXISTS
    } else if code == UNQLITE_EMPTY {
        ErrorKind::EMPTY
    } else if code == UNQLITE_COMPILE_ERR {
        ErrorKind::COMPILE_ERR
    } else if code == UNQLITE_VM_ERR {
        ErrorKind::VM_ERR
    } else if code == UNQLITE_FULL {
        ErrorKind::FULL
    } else if code == UNQLITE_CANTOPEN {
        ErrorKind::CANTOPEN
    } else if code == UNQLITE_READ_ONLY {
        ErrorKind::READ_ONLY
    } else if code == UNQLITE_LOCKERR {
        ErrorKind::LOCKERR
    } else {
        ErrorKind::__Nonexhaustive
    }
}

impl ErrorKind {
    /// Classify a raw status code.
    pub fn from_code(code: i32) -> (kind: ErrorKind)
        ensures
            kind == kind_of_code(code),
    {
        match code {
            UNQLITE_OK => ErrorKind::OK,
            UNQLITE_NOMEM => ErrorKind::NOMEM,
            UNQLITE_ABORT => ErrorKind::ABORT,
            UNQLITE_IOERR => ErrorKind::IOERR,
            UNQLITE_CORRUPT => ErrorKind::CORRUPT,
            UNQLITE_LOCKED => ErrorKind::LOCKED,
            UNQLITE_BUSY => ErrorKind::BUSY,
            UNQLITE_DONE => ErrorKind::DONE,
            UNQLITE_PERM => ErrorKind::PERM,
            UNQLITE_NOTIMPLEMENTED => ErrorKind::NOTIMPLEMENTED,
            UNQLITE_NOTFOUND => ErrorKind::NOTFOUND,
            UNQLITE_NOOP => ErrorKind::NOOP,
            UNQLITE_INVALID => ErrorKind::INVALID,
            UNQLITE_EOF => ErrorKind::EOF,
            UNQLITE_UNKNOWN => ErrorKind::UNKNOWN,
            UNQLITE_LIMIT => ErrorKind::LIMIT,
            UNQLITE_EXISTS => ErrorKind::EXISTS,
            UNQLITE_EMPTY => ErrorKind::EMPTY,
            UNQLITE_COMPILE_ERR => ErrorKind::COMPILE_ERR,
            UNQLITE_VM_ERR => ErrorKind::VM_ERR,
            UNQLITE_FULL => ErrorKind::FULL,
            UNQLITE_CANTOPEN => ErrorKind::CANTOPEN,
            UNQLITE_READ_ONLY => ErrorKind::READ_ONLY,
            UNQLITE_LOCKERR => ErrorKind::LOCKERR,
            _ => ErrorKind::__Nonexhaustive,
        }
    }
}

/// The result that `Custom::from_raw` owes for each status code: success for
/// zero, the classified failure otherwise.
pub open spec fn wrapped(code: i32) -> Result<(), Error> {
    if code == 0 {
        Ok(())
    } else {
        Err(Error::Custom(Custom { kind: kind_of_code(code), raw: code }))
    }
}

impl Custom {
    /// Turn a raw engine status code into a result: `Ok` exactly for the
    /// success code, otherwise the classified failure carrying the code.
    pub fn from_raw(result: i32) -> (r: Result<(), Error>)
        ensures
            r == wrapped(result),
    {
        let kind = ErrorKind::from_code(result);
        match kind {
            ErrorKind::OK => Ok(()),
            _ => Err(Error::Custom(Custom { kind: kind, raw: result })),
        }
    }

    /// A human-readable description of the classification.
    ///
    /// `OK` is never wrapped in a `Custom` value, and a code outside the
    /// documented set carries no description; both are excluded.
    pub fn error(&self) -> (r: &'static str)
        requires
            self.kind != ErrorKind::OK,
            self.kind != ErrorKind::__Nonexhaustive,
        ensures
            r@ == kind_message(self.kind),
    {
        match self.kind {
            ErrorKind::NOMEM => "Out of memory",
            ErrorKind::ABORT => "Another thread have released this instance",
            ErrorKind::IOERR => "IO error",
            ErrorKind::CORRUPT => "Corrupt pointer",
            ErrorKind::LOCKED => "Forbidden Operation",
            ErrorKind::BUSY => "The database file is locked",
            ErrorKind::DONE => "Operation done",
            ErrorKind::PERM => "Permission error",
            ErrorKind::NOTIMPLEMENTED => {
                "Method not implemented by the underlying Key/Value storage engine"
            },
            ErrorKind::NOTFOUND => "No such record",
            ErrorKind::NOOP => "No such method",
            ErrorKind::INVALID => "Invalid parameter",
            ErrorKind::EOF => "End Of Input",
            ErrorKind::UNKNOWN => "Unknown configuration option",
            ErrorKind::LIMIT => "Database limit reached",
            ErrorKind::EXISTS => "Record exists",
            ErrorKind::EMPTY => "Empty record",
            ErrorKind::COMPILE_ERR => "Compilation error",
            ErrorKind::VM_ERR => " Virtual machine error",
            ErrorKind::FULL => "Full database (unlikely)",
            ErrorKind::CANTOPEN => "Unable to open the database file",
            ErrorKind::READ_ONLY => "Read only Key/Value storage engine",
            ErrorKind::LOCKERR => "Locking protocol error",
            ErrorKind::OK => vstd::pervasive::unreached(),
            ErrorKind::__Nonexhaustive => vstd::pervasive::unreached(),
        }
    }
}

/// The description owed for each classification.
pub open spec fn kind_message(kind: ErrorKind) -> Seq<char> {
    match kind {
        ErrorKind::NOMEM => "Out of memory"@,
        ErrorKind::ABORT => "Another thread have released this instance"@,
        ErrorKind::IOERR => "IO error"@,
        ErrorKind::CORRUPT => "Corrupt pointer"@,
        ErrorKind::LOCKED => "Forbidden Operation"@,
        ErrorKind::BUSY => "The database file is locked"@,
        ErrorKind::DONE => "Operation done"@,
        ErrorKind::PERM => "Permission error"@,
        ErrorKind::NOTIMPLEMENTED => {
            "Method not implemented by the underlying Key/Value storage engine"@
        },
        ErrorKind::NOTFOUND => "No such record"@,
        ErrorKind::NOOP => "No such method"@,
        ErrorKind::INVALID => "Invalid parameter"@,
        ErrorKind::EOF => "End Of Input"@,
        ErrorKind::UNKNOWN => "Unknown configuration option"@,
        ErrorKind::LIMIT => "Database limit reached"@,
        ErrorKind::EXISTS => "Record exists"@,
        ErrorKind::EMPTY => "Empty record"@,
        ErrorKind::COMPILE_ERR => "Compilation error"@,
        ErrorKind::VM_ERR => " Virtual machine error"@,
        ErrorKind::FULL => "Full database (unlikely)"@,
        ErrorKind::CANTOPEN => "Unable to open the database file"@,
        ErrorKind::READ_ONLY => "Read only Key/Value storage engine"@,
        ErrorKind::LOCKERR => "Locking protocol error"@,
        _ => Seq::<char>::empty(),
    }
}

} // verus!
