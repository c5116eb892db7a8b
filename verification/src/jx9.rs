//! The embedded script engine: its value model, the compiler, and the
//! virtual machine that runs compiled programs.

pub mod ast;
pub mod interp;
pub mod native;
pub mod parse;
