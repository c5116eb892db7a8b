//! Document-store interfaces: the script compiler, the virtual-machine
//! session, and the host value model.

pub mod doc_store;
pub mod vm_value;

pub use self::doc_store::{Jx9, RawValue, SinkKind, UnQLiteVm};
pub use self::vm_value::{Value, ValueMap};
