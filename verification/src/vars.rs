//! Status codes and option flags of the engine interface.

use vstd::prelude::*;

verus! {

/// Successful result.
pub const UNQLITE_OK: i32 = 0;

/// Out of memory.
pub const UNQLITE_NOMEM: i32 = -1;

/// Another thread has released this instance.
pub const UNQLITE_ABORT: i32 = -10;

/// IO error.
pub const UNQLITE_IOERR: i32 = -2;

/// Corrupt pointer.
pub const UNQLITE_CORRUPT: i32 = -24;

/// Forbidden operation.
pub const UNQLITE_LOCKED: i32 = -4;

/// The database file is locked.
pub const UNQLITE_BUSY: i32 = -14;

/// Operation done, not an error.
pub const UNQLITE_DONE: i32 = -28;

/// Permission error.
pub const UNQLITE_PERM: i32 = -19;

/// Method not implemented by the underlying key/value storage engine.
pub const UNQLITE_NOTIMPLEMENTED: i32 = -17;

/// No such record.
pub const UNQLITE_NOTFOUND: i32 = -6;

/// No such method.
pub const UNQLITE_NOOP: i32 = -20;

/// Invalid parameter.
pub const UNQLITE_INVALID: i32 = -9;

/// End of input.
pub const UNQLITE_EOF: i32 = -18;

/// Unknown configuration option.
pub const UNQLITE_UNKNOWN: i32 = -13;

/// Database limit reached.
pub const UNQLITE_LIMIT: i32 = -7;

/// Record exists.
pub const UNQLITE_EXISTS: i32 = -11;

/// Empty record.
pub const UNQLITE_EMPTY: i32 = -3;

/// Compilation error.
pub const UNQLITE_COMPILE_ERR: i32 = -70;

/// Virtual machine error.
pub const UNQLITE_VM_ERR: i32 = -71;

/// Full database (unlikely).
pub const UNQLITE_FULL: i32 = -73;

/// Unable to open the database file.
pub const UNQLITE_CANTOPEN: i32 = -74;

/// Read-only key/value storage engine.
pub const UNQLITE_READ_ONLY: i32 = -75;

/// Locking protocol error.
pub const UNQLITE_LOCKERR: i32 = -76;

/// Open flag: read only.
pub const UNQLITE_OPEN_READONLY: u32 = 1;

/// Open flag: read-write.
pub const UNQLITE_OPEN_READWRITE: u32 = 2;

/// Open flag: create if missing.
pub const UNQLITE_OPEN_CREATE: u32 = 4;

/// Open flag: temporary database.
pub const UNQLITE_OPEN_TEMP_DB: u32 = 16;

/// Open flag: memory-mapped, read-only view.
pub const UNQLITE_OPEN_MMAP: u32 = 256;

} // verus!
