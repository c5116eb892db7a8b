use vstd::prelude::*;

verus! {

/// How a database handle is opened.
#[derive(Clone, Copy, Debug, PartialEq, Eq, Structural)]
pub enum OpenMode {
    /// Open an existing database for reading only.
    ReadOnly,
    /// Create the database if it does not exist, otherwise open it
    /// read-write.
    Create,
    /// A private, temporary database, deleted when the handle is dropped.
    TempDB,
    /// A read-only view of the whole database.
    MMap,
}

impl OpenMode {
    /// Modes that reject every mutating operation.
    pub open spec fn is_read_only(self) -> bool {
        self is ReadOnly || self is MMap
    }

    /// The open flags handed to the engine for this mode.
    pub fn flags(self) -> (r: u32)
        ensures
            r == self.spec_flags(),
    {
        match self {
            OpenMode::ReadOnly => crate::vars::UNQLITE_OPEN_READONLY,
            OpenMode::Create => crate::vars::UNQLITE_OPEN_CREATE,
            OpenMode::TempDB => crate::vars::UNQLITE_OPEN_TEMP_DB,
            OpenMode::MMap => crate::vars::UNQLITE_OPEN_MMAP | crate::vars::UNQLITE_OPEN_READONLY,
        }
    }

    /// The flag word of each mode.
    pub open spec fn spec_flags(self) -> u32 {
        match self {
            OpenMode::ReadOnly => crate::vars::UNQLITE_OPEN_READONLY,
            OpenMode::Create => crate::vars::UNQLITE_OPEN_CREATE,
            OpenMode::TempDB => crate::vars::UNQLITE_OPEN_TEMP_DB,
            OpenMode::MMap => crate::vars::UNQLITE_OPEN_MMAP | crate::vars::UNQLITE_OPEN_READONLY,
        }
    }
}

} // verus!
