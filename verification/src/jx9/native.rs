//! The engine's dynamically-typed value model.
//!
//! A native value is a scalar (null, boolean, integer, real, byte string)
//! or a hashmap of entries; one hashmap kind serves both containers, with a
//! flag telling a JSON object (explicit string keys) from a JSON array
//! (automatic decimal keys).  A real number is carried as the bit pattern
//! of its 64-bit floating-point representation.

use vstd::prelude::*;

verus! {

/// A value owned by the engine.
pub enum NativeVal {
    /// The null value.
    Null,
    /// A boolean.
    Bool(bool),
    /// A 64-bit signed integer.
    Int(i64),
    /// A real number, as the bit pattern of its 64-bit representation.
    Real(u64),
    /// A byte string.
    Str(Vec<u8>),
    /// A container of entries.
    Hash(NContainer),
}

/// The engine's container: keyed entries in insertion order, with the flag
/// telling a JSON object from a JSON array.
pub struct NContainer {
    /// The entries, each a byte-string key with its value.
    pub entries: Vec<(Vec<u8>, NativeVal)>,
    /// The container holds a JSON object; otherwise it holds a JSON array
    /// under automatic decimal keys.
    pub json_object: bool,
}

/// Ghost model of a native value.
#[verifier::ext_equal]
pub enum NVal {
    /// The null value.
    Null,
    /// A boolean.
    Bool(bool),
    /// A 64-bit signed integer.
    Int(i64),
    /// A real number, as the bit pattern of its 64-bit representation.
    Real(u64),
    /// A byte string.
    Str(Seq<u8>),
    /// A container: entries in order, and the JSON-object flag.
    Hash(Seq<(Seq<u8>, NVal)>, bool),
}

/// Ghost model of a native value.
pub open spec fn nval_view(n: NativeVal) -> NVal
    decreases n,
{
    match n {
        NativeVal::Null => NVal::Null,
        NativeVal::Bool(b) => NVal::Bool(b),
        NativeVal::Int(i) => NVal::Int(i),
        NativeVal::Real(r) => NVal::Real(r),
        NativeVal::Str(v) => NVal::Str(v@),
        NativeVal::Hash(c) => NVal::Hash(entries_view(c.entries@), c.json_object),
    }
}

/// Ghost model of a container's entry list.
pub open spec fn entries_view(s: Seq<(Vec<u8>, NativeVal)>) -> Seq<(Seq<u8>, NVal)>
    decreases s,
{
    if s.len() == 0 {
        Seq::<(Seq<u8>, NVal)>::empty()
    } else {
        entries_view(s.drop_last()).push((s.last().0@, nval_view(s.last().1)))
    }
}

/// The ghost entry list is as long as the concrete one, entry for entry.
pub proof fn lemma_entries_view_len(s: Seq<(Vec<u8>, NativeVal)>)
    ensures
        entries_view(s).len() == s.len(),
        forall|i: int|
            0 <= i < s.len() ==> #[trigger] entries_view(s)[i] == (s[i].0@, nval_view(s[i].1)),
    decreases s,
{
    if s.len() > 0 {
        lemma_entries_view_len(s.drop_last());
    }
}

impl View for NativeVal {
    type V = NVal;

    open spec fn view(&self) -> NVal {
        nval_view(*self)
    }
}

} // verus!
