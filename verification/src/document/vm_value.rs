//! The host value model and the adapter that marshals values between the
//! host and the engine.
//!
//! A [`Value`] is a closed tagged union of everything a script variable can
//! hold.  Injection builds an engine-owned native value from a `Value`;
//! extraction decodes a native value back, copying byte strings, decoding
//! them lossily, and binding object keys as a map does — the last write to
//! a key wins.  Both directions are stated against the ghost functions
//! [`native_of`] and [`value_of`], and [`lemma_value_roundtrip`] shows the
//! decode of an encode gives the value back for every value of the data
//! model (objects bind each key once).

use vstd::prelude::*;

use crate::error::Error;
use crate::jx9::native::{entries_view, nval_view, NContainer, NativeVal, NVal};
use crate::text::{dec_u64, has_nul, lossy_decode, lossy_to_string};

verus! {

use vstd::string::StringSliceAdditionalSpecFns;
use vstd::string::StrSliceExecFns;
use vstd::utf8::encode_utf8;

broadcast use {vstd::std_specs::vec::group_vec_axioms, vstd::seq::group_seq_axioms};

/// A value of the script engine, in the host's representation: a scalar
/// (null, integer, boolean, real, string) or a container (array, object).
///
/// A real number is carried as the bit pattern of its 64-bit floating-point
/// representation, so that values compare exactly.
#[derive(Debug, PartialEq)]
pub enum Value {
    /// The null value.
    Null,
    /// A 64-bit signed integer.
    Int(i64),
    /// A boolean.
    Bool(bool),
    /// A real number, as the bit pattern of its 64-bit representation.
    Real(u64),
    /// A text string.
    String(String),
    /// An ordered sequence of values.
    Array(Vec<Value>),
    /// A mapping from string keys to values.
    Object(ValueMap),
}

/// A mapping from string keys to values, in insertion order.
#[derive(Debug, PartialEq)]
pub struct ValueMap {
    /// The entries, in insertion order.
    pub entries: Vec<(String, Value)>,
}

/// Ghost model of a host value.
#[verifier::ext_equal]
pub enum VVal {
    /// The null value.
    Null,
    /// A 64-bit signed integer.
    Int(i64),
    /// A boolean.
    Bool(bool),
    /// A real number, as the bit pattern of its 64-bit representation.
    Real(u64),
    /// A text string.
    Str(Seq<char>),
    /// An ordered sequence of values.
    Arr(Seq<VVal>),
    /// A mapping from string keys to values, in insertion order.
    Obj(Seq<(Seq<char>, VVal)>),
}

/// Ghost model of a host value.
pub open spec fn val_view(v: Value) -> VVal
    decreases v,
{
    match v {
        Value::Null => VVal::Null,
        Value::Int(i) => VVal::Int(i),
        Value::Bool(b) => VVal::Bool(b),
        Value::Real(r) => VVal::Real(r),
        Value::String(s) => VVal::Str(s@),
        Value::Array(items) => VVal::Arr(list_view(items@)),
        Value::Object(m) => VVal::Obj(pairs_view(m.entries@)),
    }
}

/// Ghost model of a list of host values.
pub open spec fn list_view(s: Seq<Value>) -> Seq<VVal>
    decreases s,
{
    if s.len() == 0 {
        Seq::<VVal>::empty()
    } else {
        list_view(s.drop_last()).push(val_view(s.last()))
    }
}

/// Ghost model of a list of key/value pairs.
pub open spec fn pairs_view(s: Seq<(String, Value)>) -> Seq<(Seq<char>, VVal)>
    decreases s,
{
    if s.len() == 0 {
        Seq::<(Seq<char>, VVal)>::empty()
    } else {
        pairs_view(s.drop_last()).push((s.last().0@, val_view(s.last().1)))
    }
}

/// The ghost list is as long as the concrete one, element for element.
pub proof fn lemma_list_view_len(s: Seq<Value>)
    ensures
        list_view(s).len() == s.len(),
        forall|i: int| 0 <= i < s.len() ==> #[trigger] list_view(s)[i] == val_view(s[i]),
    decreases s,
{
    if s.len() > 0 {
        lemma_list_view_len(s.drop_last());
    }
}

/// The ghost pair list is as long as the concrete one, pair for pair.
pub proof fn lemma_pairs_view_len(s: Seq<(String, Value)>)
    ensures
        pairs_view(s).len() == s.len(),
        forall|i: int|
            0 <= i < s.len() ==> #[trigger] pairs_view(s)[i] == (s[i].0@, val_view(s[i].1)),
    decreases s,
{
    if s.len() > 0 {
        lemma_pairs_view_len(s.drop_last());
    }
}

impl View for Value {
    type V = VVal;

    open spec fn view(&self) -> VVal {
        val_view(*self)
    }
}

/// No string of the value holds an embedded terminator byte, so every
/// string survives the engine's terminated string representation.
pub open spec fn vval_nul_free(v: VVal) -> bool
    decreases v,
{
    match v {
        VVal::Str(s) => !has_nul(encode_utf8(s)),
        VVal::Arr(es) => list_nul_free(es),
        VVal::Obj(ps) => pairs_nul_free(ps),
        _ => true,
    }
}

/// No string of any element holds an embedded terminator byte.
pub open spec fn list_nul_free(s: Seq<VVal>) -> bool
    decreases s,
{
    if s.len() == 0 {
        true
    } else {
        list_nul_free(s.drop_last()) && vval_nul_free(s.last())
    }
}

/// No key and no string of any value holds an embedded terminator byte.
pub open spec fn pairs_nul_free(s: Seq<(Seq<char>, VVal)>) -> bool
    decreases s,
{
    if s.len() == 0 {
        true
    } else {
        pairs_nul_free(s.drop_last()) && !has_nul(encode_utf8(s.last().0)) && vval_nul_free(
            s.last().1,
        )
    }
}

/// Injection: the native value built for a host value.  A scalar becomes
/// the matching native scalar, with strings carried as their encoded bytes;
/// an array becomes a container of its elements under automatic decimal
/// keys; an object becomes a container of its pairs under their string
/// keys.
pub open spec fn native_of(v: VVal) -> NVal
    decreases v,
{
    match v {
        VVal::Null => NVal::Null,
        VVal::Int(i) => NVal::Int(i),
        VVal::Bool(b) => NVal::Bool(b),
        VVal::Real(r) => NVal::Real(r),
        VVal::Str(s) => NVal::Str(encode_utf8(s)),
        VVal::Arr(es) => NVal::Hash(arr_entries(es), false),
        VVal::Obj(ps) => NVal::Hash(obj_entries(ps), true),
    }
}

/// The container entries of an injected array: each element under its
/// decimal index key.
pub open spec fn arr_entries(es: Seq<VVal>) -> Seq<(Seq<u8>, NVal)>
    decreases es,
{
    if es.len() == 0 {
        Seq::<(Seq<u8>, NVal)>::empty()
    } else {
        arr_entries(es.drop_last()).push(
            (dec_u64((es.len() - 1) as nat), native_of(es.last())),
        )
    }
}

/// The container entries of an injected object: each value under its
/// encoded string key.
pub open spec fn obj_entries(ps: Seq<(Seq<char>, VVal)>) -> Seq<(Seq<u8>, NVal)>
    decreases ps,
{
    if ps.len() == 0 {
        Seq::<(Seq<u8>, NVal)>::empty()
    } else {
        obj_entries(ps.drop_last()).push((encode_utf8(ps.last().0), native_of(ps.last().1)))
    }
}

/// Index form of `arr_entries`.
pub proof fn lemma_arr_entries_len(es: Seq<VVal>)
    ensures
        arr_entries(es).len() == es.len(),
        forall|i: int|
            0 <= i < es.len() ==> #[trigger] arr_entries(es)[i] == (
                dec_u64(i as nat),
                native_of(es[i]),
            ),
    decreases es,
{
    if es.len() > 0 {
        lemma_arr_entries_len(es.drop_last());
    }
}

/// Index form of `obj_entries`.
pub proof fn lemma_obj_entries_len(ps: Seq<(Seq<char>, VVal)>)
    ensures
        obj_entries(ps).len() == ps.len(),
        forall|i: int|
            0 <= i < ps.len() ==> #[trigger] obj_entries(ps)[i] == (
                encode_utf8(ps[i].0),
                native_of(ps[i].1),
            ),
    decreases ps,
{
    if ps.len() > 0 {
        lemma_obj_entries_len(ps.drop_last());
    }
}

/// Extraction: the host value decoded from a native value.  Scalars decode
/// directly, with byte strings decoded lossily; a container decodes to an
/// object or an array as its flag directs, walking every entry.  The
/// modeled engine classifies every value, so extraction is total: no
/// container is ever voided.
pub open spec fn value_of(n: NVal) -> VVal
    decreases n, 2int,
{
    match n {
        NVal::Null => VVal::Null,
        NVal::Bool(b) => VVal::Bool(b),
        NVal::Int(i) => VVal::Int(i),
        NVal::Real(r) => VVal::Real(r),
        NVal::Str(b) => VVal::Str(lossy_decode(b)),
        NVal::Hash(entries, json_object) => {
            if json_object {
                VVal::Obj(obj_of(entries))
            } else {
                VVal::Arr(arr_of(entries))
            }
        },
    }
}

/// Array extraction walks the entries in order, decoding each value; the
/// automatic keys are not consulted.
pub open spec fn arr_of(entries: Seq<(Seq<u8>, NVal)>) -> Seq<VVal>
    decreases entries, 0int,
{
    if entries.len() == 0 {
        Seq::<VVal>::empty()
    } else {
        arr_of(entries.drop_last()).push(value_of(entries.last().1))
    }
}

/// Object extraction walks the entries in order, decoding each key as a
/// string and each value recursively, and binds each key as a map does:
/// the last write to a key wins.
pub open spec fn obj_of(entries: Seq<(Seq<u8>, NVal)>) -> Seq<(Seq<char>, VVal)>
    decreases entries, 1int,
{
    obj_fold(Seq::<(Seq<char>, VVal)>::empty(), entries)
}

/// The decoded entries bound into an accumulating mapping, in walk order.
pub open spec fn obj_fold(
    acc: Seq<(Seq<char>, VVal)>,
    entries: Seq<(Seq<u8>, NVal)>,
) -> Seq<(Seq<char>, VVal)>
    decreases entries, 0int,
{
    if entries.len() == 0 {
        acc
    } else {
        obj_fold(
            map_insert(acc, lossy_decode(entries[0].0), value_of(entries[0].1)),
            entries.drop_first(),
        )
    }
}

/// Index form of `arr_of`.
pub proof fn lemma_arr_of_len(entries: Seq<(Seq<u8>, NVal)>)
    ensures
        arr_of(entries).len() == entries.len(),
        forall|i: int|
            0 <= i < entries.len() ==> #[trigger] arr_of(entries)[i] == value_of(entries[i].1),
    decreases entries,
{
    if entries.len() > 0 {
        lemma_arr_of_len(entries.drop_last());
    }
}

/// The entries decoded pair by pair, in walk order, before any binding.
pub open spec fn decoded_pairs(entries: Seq<(Seq<u8>, NVal)>) -> Seq<(Seq<char>, VVal)>
    decreases entries,
{
    if entries.len() == 0 {
        Seq::<(Seq<char>, VVal)>::empty()
    } else {
        seq![(lossy_decode(entries[0].0), value_of(entries[0].1))] + decoded_pairs(
            entries.drop_first(),
        )
    }
}

/// Index form of `decoded_pairs`.
pub proof fn lemma_decoded_pairs_len(entries: Seq<(Seq<u8>, NVal)>)
    ensures
        decoded_pairs(entries).len() == entries.len(),
        forall|i: int|
            0 <= i < entries.len() ==> #[trigger] decoded_pairs(entries)[i] == (
                lossy_decode(entries[i].0),
                value_of(entries[i].1),
            ),
    decreases entries,
{
    if entries.len() > 0 {
        lemma_decoded_pairs_len(entries.drop_first());
        assert(forall|i: int|
            1 <= i < entries.len() ==> #[trigger] decoded_pairs(entries)[i] == decoded_pairs(
                entries.drop_first(),
            )[i - 1]);
    }
}

/// The decoded keys of the entries are pairwise distinct.
pub open spec fn decoded_keys_unique(entries: Seq<(Seq<u8>, NVal)>) -> bool {
    forall|i: int, j: int|
        0 <= i < entries.len() && 0 <= j < entries.len() && i != j ==> lossy_decode(
            (#[trigger] entries[i]).0,
        ) != lossy_decode((#[trigger] entries[j]).0)
}

/// Folding entries whose decoded keys are fresh and distinct appends them
/// in walk order.
pub proof fn lemma_obj_fold_fresh(acc: Seq<(Seq<char>, VVal)>, entries: Seq<(Seq<u8>, NVal)>)
    requires
        decoded_keys_unique(entries),
        forall|i: int|
            0 <= i < entries.len() ==> !map_has(acc, lossy_decode((#[trigger] entries[i]).0)),
    ensures
        obj_fold(acc, entries) == acc + decoded_pairs(entries),
    decreases entries,
{
    if entries.len() == 0 {
        assert(obj_fold(acc, entries) =~= acc + decoded_pairs(entries));
    } else {
        let k0 = lossy_decode(entries[0].0);
        let v0 = value_of(entries[0].1);
        assert(map_insert(acc, k0, v0) == acc.push((k0, v0)));
        let acc2 = acc.push((k0, v0));
        let rest = entries.drop_first();
        assert forall|i: int| 0 <= i < rest.len() implies !map_has(
            acc2,
            lossy_decode((#[trigger] rest[i]).0),
        ) by {
            assert(rest[i] == entries[i + 1]);
            let k = lossy_decode(rest[i].0);
            assert(k != k0);
            if map_has(acc2, k) {
                let w = choose|w: int| 0 <= w < acc2.len() && (#[trigger] acc2[w]).0 == k;
                assert(w < acc.len() && acc2[w] == acc[w]);
            }
        }
        assert(forall|i: int, j: int|
            0 <= i < rest.len() && 0 <= j < rest.len() && i != j ==> lossy_decode(
                (#[trigger] rest[i]).0,
            ) != lossy_decode((#[trigger] rest[j]).0));
        lemma_obj_fold_fresh(acc2, rest);
        assert(acc2 + decoded_pairs(rest) =~= acc + decoded_pairs(entries));
    }
}

/// With pairwise-distinct decoded keys, object extraction keeps every
/// entry, in order.
pub proof fn lemma_obj_of_unique(entries: Seq<(Seq<u8>, NVal)>)
    requires
        decoded_keys_unique(entries),
    ensures
        obj_of(entries) == decoded_pairs(entries),
        obj_of(entries).len() == entries.len(),
{
    lemma_obj_fold_fresh(Seq::<(Seq<char>, VVal)>::empty(), entries);
    lemma_decoded_pairs_len(entries);
    assert(obj_of(entries) =~= decoded_pairs(entries));
}

/// Container extraction preserves the element count: an array keeps one
/// element per entry, and an object whose decoded keys are distinct — the
/// data model's invariant — keeps one pair per entry.
pub proof fn lemma_container_count(entries: Seq<(Seq<u8>, NVal)>, json_object: bool)
    requires
        json_object ==> decoded_keys_unique(entries),
    ensures
        json_object ==> (value_of(NVal::Hash(entries, json_object)) matches VVal::Obj(ps)
            && ps.len() == entries.len()),
        !json_object ==> (value_of(NVal::Hash(entries, json_object)) matches VVal::Arr(es)
            && es.len() == entries.len()),
{
    if json_object {
        lemma_obj_of_unique(entries);
    } else {
        lemma_arr_of_len(entries);
    }
}

/// Every object of the value binds each key once — the data model's
/// invariant on objects, which every mapping built through [`ValueMap`]
/// keeps.
pub open spec fn vval_keys_unique(v: VVal) -> bool
    decreases v,
{
    match v {
        VVal::Arr(es) => list_keys_unique(es),
        VVal::Obj(ps) => pairs_keys_unique(ps) && pairs_values_keys_unique(ps),
        _ => true,
    }
}

/// Every object of every element binds each key once.
pub open spec fn list_keys_unique(s: Seq<VVal>) -> bool
    decreases s,
{
    if s.len() == 0 {
        true
    } else {
        list_keys_unique(s.drop_last()) && vval_keys_unique(s.last())
    }
}

/// The keys are pairwise distinct.
pub open spec fn pairs_keys_unique(ps: Seq<(Seq<char>, VVal)>) -> bool {
    forall|i: int, j: int|
        0 <= i < ps.len() && 0 <= j < ps.len() && i != j ==> (#[trigger] ps[i]).0 != (
        #[trigger] ps[j]).0
}

/// Every object of every bound value binds each key once.
pub open spec fn pairs_values_keys_unique(ps: Seq<(Seq<char>, VVal)>) -> bool
    decreases ps,
{
    if ps.len() == 0 {
        true
    } else {
        pairs_values_keys_unique(ps.drop_last()) && vval_keys_unique(ps.last().1)
    }
}

/// `list_keys_unique`, element by element.
pub proof fn lemma_list_keys_unique(s: Seq<VVal>)
    ensures
        list_keys_unique(s) <==> (forall|i: int|
            0 <= i < s.len() ==> vval_keys_unique(#[trigger] s[i])),
    decreases s,
{
    if s.len() > 0 {
        lemma_list_keys_unique(s.drop_last());
        assert(forall|i: int|
            0 <= i < s.drop_last().len() ==> #[trigger] s.drop_last()[i] == s[i]);
        if list_keys_unique(s.drop_last()) && vval_keys_unique(s.last()) {
            assert forall|i: int| 0 <= i < s.len() implies vval_keys_unique(#[trigger] s[i]) by {
                if i < s.len() - 1 {
                    assert(s.drop_last()[i] == s[i]);
                }
            }
        }
    }
}

/// `pairs_values_keys_unique`, pair by pair.
pub proof fn lemma_pairs_values_keys_unique(ps: Seq<(Seq<char>, VVal)>)
    ensures
        pairs_values_keys_unique(ps) <==> (forall|i: int|
            0 <= i < ps.len() ==> vval_keys_unique((#[trigger] ps[i]).1)),
    decreases ps,
{
    if ps.len() > 0 {
        lemma_pairs_values_keys_unique(ps.drop_last());
        assert(forall|i: int|
            0 <= i < ps.drop_last().len() ==> #[trigger] ps.drop_last()[i] == ps[i]);
        if pairs_values_keys_unique(ps.drop_last()) && vval_keys_unique(ps.last().1) {
            assert forall|i: int| 0 <= i < ps.len() implies vval_keys_unique(
                (#[trigger] ps[i]).1,
            ) by {
                if i < ps.len() - 1 {
                    assert(ps.drop_last()[i] == ps[i]);
                }
            }
        }
    }
}

/// Round trip: extracting an injected value gives the value back, for every
/// value of the data model — every value whose objects bind each key once.
/// (At run time injection additionally rejects strings holding an embedded
/// terminator byte; the decode itself loses nothing.)
pub proof fn lemma_value_roundtrip(v: VVal)
    requires
        vval_keys_unique(v),
    ensures
        value_of(native_of(v)) == v,
    decreases v, 1int,
{
    match v {
        VVal::Str(s) => {
            crate::text::lemma_lossy_encode(s);
        },
        VVal::Arr(es) => {
            lemma_list_roundtrip(es);
        },
        VVal::Obj(ps) => {
            lemma_pairs_roundtrip(ps);
        },
        _ => {},
    }
}

/// Round trip of every element of an array.
pub proof fn lemma_list_roundtrip(es: Seq<VVal>)
    requires
        list_keys_unique(es),
    ensures
        arr_of(arr_entries(es)) == es,
    decreases es, 0int,
{
    if es.len() == 0 {
        assert(arr_of(arr_entries(es)) =~= es);
    } else {
        lemma_list_roundtrip(es.drop_last());
        lemma_value_roundtrip(es.last());
        assert(arr_entries(es).drop_last() =~= arr_entries(es.drop_last()));
        assert(arr_of(arr_entries(es)) =~= es);
    }
}

/// Round trip of every key and value of an object that binds each key once.
pub proof fn lemma_pairs_roundtrip(ps: Seq<(Seq<char>, VVal)>)
    requires
        pairs_keys_unique(ps),
        pairs_values_keys_unique(ps),
    ensures
        obj_of(obj_entries(ps)) == ps,
    decreases ps, 0int,
{
    let entries = obj_entries(ps);
    lemma_obj_entries_len(ps);
    lemma_pairs_values_keys_unique(ps);
    assert forall|i: int, j: int|
        0 <= i < entries.len() && 0 <= j < entries.len() && i != j implies lossy_decode(
        (#[trigger] entries[i]).0,
    ) != lossy_decode((#[trigger] entries[j]).0) by {
        crate::text::lemma_lossy_encode(ps[i].0);
        crate::text::lemma_lossy_encode(ps[j].0);
    }
    lemma_obj_of_unique(entries);
    lemma_decoded_pairs_len(entries);
    assert forall|i: int| 0 <= i < ps.len() implies decoded_pairs(entries)[i] == (
    #[trigger] ps[i]) by {
        crate::text::lemma_lossy_encode(ps[i].0);
        lemma_value_roundtrip(ps[i].1);
    }
    assert(obj_of(obj_entries(ps)) =~= ps);
}

impl Value {
    /// A string value, copied from the given text.
    pub fn string(x: &str) -> (r: Value)
        ensures
            r@ == VVal::Str(x@),
    {
        Value::String(x.to_owned())
    }

    /// A value is scalar exactly when it is not an array and not an object;
    /// the distinction selects the engine's allocation flavor at injection.
    pub fn is_scalar(&self) -> (r: bool)
        ensures
            r == !(self@ is Arr || self@ is Obj),
    {
        match self {
            Value::Array(_) => false,
            Value::Object(_) => false,
            _ => true,
        }
    }

    /// The unit the `Null` value narrows to.
    pub fn as_null(self) -> (r: Option<()>)
        ensures
            self@ is Null ==> r == Some(()),
            !(self@ is Null) ==> r is None,
    {
        match self {
            Value::Null => Some(()),
            _ => None,
        }
    }

    /// The integer held by an `Int` value.
    pub fn as_int(self) -> (r: Option<i64>)
        ensures
            self@ matches VVal::Int(i) ==> r == Some(i),
            !(self@ is Int) ==> r is None,
    {
        match self {
            Value::Int(i) => Some(i),
            _ => None,
        }
    }

    /// The boolean held by a `Bool` value.
    pub fn as_bool(self) -> (r: Option<bool>)
        ensures
            self@ matches VVal::Bool(b) ==> r == Some(b),
            !(self@ is Bool) ==> r is None,
    {
        match self {
            Value::Bool(b) => Some(b),
            _ => None,
        }
    }

    /// The bit pattern held by a `Real` value.
    pub fn as_real_bits(self) -> (r: Option<u64>)
        ensures
            self@ matches VVal::Real(x) ==> r == Some(x),
            !(self@ is Real) ==> r is None,
    {
        match self {
            Value::Real(x) => Some(x),
            _ => None,
        }
    }

    /// The text held by a `String` value.
    pub fn as_string(self) -> (r: Option<String>)
        ensures
            self@ matches VVal::Str(s) ==> r matches Some(out) && out@ == s,
            !(self@ is Str) ==> r is None,
    {
        match self {
            Value::String(s) => Some(s),
            _ => None,
        }
    }

    /// The elements held by an `Array` value.
    pub fn as_array(self) -> (r: Option<Vec<Value>>)
        ensures
            self@ matches VVal::Arr(es) ==> r matches Some(out) && list_view(out@) == es,
            !(self@ is Arr) ==> r is None,
    {
        match self {
            Value::Array(items) => Some(items),
            _ => None,
        }
    }

    /// The mapping held by an `Object` value.
    pub fn as_object(self) -> (r: Option<ValueMap>)
        ensures
            self@ matches VVal::Obj(ps) ==> r matches Some(out) && pairs_view(out.entries@) == ps,
            !(self@ is Obj) ==> r is None,
    {
        match self {
            Value::Object(m) => Some(m),
            _ => None,
        }
    }
}

impl ValueMap {
    /// An empty mapping.
    pub fn new() -> (r: ValueMap)
        ensures
            pairs_view(r.entries@) =~= Seq::<(Seq<char>, VVal)>::empty(),
    {
        ValueMap { entries: Vec::new() }
    }

    /// Number of entries.
    pub fn len(&self) -> (r: usize)
        ensures
            r == pairs_view(self.entries@).len(),
    {
        proof {
            lemma_pairs_view_len(self.entries@);
        }
        self.entries.len()
    }

    /// Bind `key` to `value`: the bound value is replaced in place when the
    /// key is present, and the pair is added at the end otherwise.
    pub fn insert(&mut self, key: &str, value: Value)
        ensures
            pairs_view(final(self).entries@) == map_insert(
                pairs_view(old(self).entries@),
                key@,
                val_view(value),
            ),
    {
        proof {
            lemma_pairs_view_len(self.entries@);
        }
        let ghost ps0 = pairs_view(self.entries@);
        let mut i: usize = 0;
        while i < self.entries.len()
            invariant
                0 <= i <= self.entries@.len(),
                self.entries@ == old(self).entries@,
                forall|k: int| 0 <= k < i ==> (#[trigger] ps0[k]).0 != key@,
                ps0 == pairs_view(self.entries@),
                ps0.len() == self.entries@.len(),
                forall|k: int|
                    0 <= k < self.entries@.len() ==> #[trigger] ps0[k] == (
                        self.entries@[k].0@,
                        val_view(self.entries@[k].1),
                    ),
            decreases self.entries@.len() - i,
        {
            if crate::bytes_eq(self.entries[i].0.as_str().as_bytes(), key.as_bytes()) {
                proof {
                    crate::text::lemma_encode_eq(self.entries@[i as int].0@, key@);
                    lemma_map_first(ps0, key@, i as int);
                }
                let ghost prev = self.entries@;
                let slot = &mut self.entries[i];
                slot.1 = value;
                proof {
                    assert(self.entries@ =~= prev.update(i as int, (prev[i as int].0, value)));
                    lemma_pairs_update(prev, i as int, value);
                    assert(pairs_view(self.entries@) =~= ps0.update(
                        i as int,
                        (key@, val_view(value)),
                    ));
                    assert(pairs_view(self.entries@) =~= map_insert(ps0, key@, val_view(value)));
                }
                return ;
            }
            proof {
                crate::text::lemma_encode_eq(self.entries@[i as int].0@, key@);
            }
            i = i + 1;
        }
        let ghost prev = self.entries@;
        self.entries.push((key.to_owned(), value));
        proof {
            assert(self.entries@.drop_last() =~= prev);
            assert(pairs_view(self.entries@) =~= ps0.push((key@, val_view(value))));
            assert(pairs_view(self.entries@) =~= map_insert(ps0, key@, val_view(value)));
        }
    }

    /// The value bound to `key`, cloned, or `None` when the key is unbound.
    pub fn get(&self, key: &str) -> (r: Option<Value>)
        ensures
            map_has(pairs_view(self.entries@), key@) ==> (r matches Some(v) && val_view(v)
                == map_get(pairs_view(self.entries@), key@)),
            !map_has(pairs_view(self.entries@), key@) ==> r is None,
    {
        proof {
            lemma_pairs_view_len(self.entries@);
        }
        let ghost ps = pairs_view(self.entries@);
        let mut i: usize = 0;
        while i < self.entries.len()
            invariant
                0 <= i <= self.entries@.len(),
                forall|k: int| 0 <= k < i ==> (#[trigger] ps[k]).0 != key@,
                ps == pairs_view(self.entries@),
                ps.len() == self.entries@.len(),
                forall|k: int|
                    0 <= k < self.entries@.len() ==> #[trigger] ps[k] == (
                        self.entries@[k].0@,
                        val_view(self.entries@[k].1),
                    ),
            decreases self.entries@.len() - i,
        {
            if crate::bytes_eq(self.entries[i].0.as_str().as_bytes(), key.as_bytes()) {
                proof {
                    crate::text::lemma_encode_eq(self.entries@[i as int].0@, key@);
                    lemma_map_first(ps, key@, i as int);
                }
                return Some(clone_value(&self.entries[i].1));
            }
            proof {
                crate::text::lemma_encode_eq(self.entries@[i as int].0@, key@);
            }
            i = i + 1;
        }
        None
    }
}

/// The key is bound in the pair list.
pub open spec fn map_has(ps: Seq<(Seq<char>, VVal)>, key: Seq<char>) -> bool {
    exists|i: int| 0 <= i < ps.len() && (#[trigger] ps[i]).0 == key
}

/// Position of the first pair bound to the key.
pub open spec fn map_first_idx(ps: Seq<(Seq<char>, VVal)>, key: Seq<char>) -> int
    decreases ps.len(),
{
    if ps.len() == 0 {
        0
    } else if ps[0].0 == key {
        0
    } else {
        1 + map_first_idx(ps.drop_first(), key)
    }
}

/// The value of the first pair bound to the key.
pub open spec fn map_get(ps: Seq<(Seq<char>, VVal)>, key: Seq<char>) -> VVal {
    ps[map_first_idx(ps, key)].1
}

/// Replace the first binding of the key in place, or add the pair at the
/// end when the key is unbound.
pub open spec fn map_insert(ps: Seq<(Seq<char>, VVal)>, key: Seq<char>, v: VVal) -> Seq<
    (Seq<char>, VVal),
> {
    if map_has(ps, key) {
        ps.update(map_first_idx(ps, key), (key, v))
    } else {
        ps.push((key, v))
    }
}

/// A position whose earlier pairs all miss the key is the first binding.
pub proof fn lemma_map_first(ps: Seq<(Seq<char>, VVal)>, key: Seq<char>, i: int)
    requires
        0 <= i < ps.len(),
        ps[i].0 == key,
        forall|k: int| 0 <= k < i ==> (#[trigger] ps[k]).0 != key,
    ensures
        map_has(ps, key),
        map_first_idx(ps, key) == i,
    decreases i,
{
    if i > 0 {
        lemma_map_first(ps.drop_first(), key, i - 1);
    }
}

/// Updating one value leaves the ghost pair list updated at that position.
pub proof fn lemma_pairs_update(s: Seq<(String, Value)>, i: int, v: Value)
    requires
        0 <= i < s.len(),
    ensures
        pairs_view(s.update(i, (s[i].0, v))) =~= pairs_view(s).update(
            i,
            (s[i].0@, val_view(v)),
        ),
{
    lemma_pairs_view_len(s);
    lemma_pairs_view_len(s.update(i, (s[i].0, v)));
}

/// Copy a value.
#[verifier::loop_isolation(false)]
pub fn clone_value(v: &Value) -> (r: Value)
    ensures
        val_view(r) == val_view(*v),
    decreases *v,
{
    match v {
        Value::Null => Value::Null,
        Value::Int(i) => Value::Int(*i),
        Value::Bool(b) => Value::Bool(*b),
        Value::Real(x) => Value::Real(*x),
        Value::String(s) => Value::String(clone_string(s)),
        Value::Array(items) => {
            let mut out: Vec<Value> = Vec::new();
            let mut i: usize = 0;
            proof {
                lemma_list_view_len(items@);
                assert(list_view(out@) =~= list_view(items@).take(0));
            }
            while i < items.len()
                invariant
                    0 <= i <= items@.len(),
                    out@.len() == i,
                    list_view(items@).len() == items@.len(),
                    forall|k: int|
                        0 <= k < items@.len() ==> #[trigger] list_view(items@)[k] == val_view(
                            items@[k],
                        ),
                    list_view(out@) == list_view(items@).take(i as int),
                decreases items@.len() - i,
            {
                let ghost prev = out@;
                proof {
                    assert(decreases_to!(*v => *items));
                    assert(decreases_to!(*items => items@));
                    assert(decreases_to!(items@ => items@[i as int]));
                    assert(decreases_to!(*v => items@[i as int]));
                }
                let c = clone_value(&items[i]);
                out.push(c);
                proof {
                    assert(out@.drop_last() =~= prev);
                    lemma_list_view_len(out@);
                    lemma_list_view_len(prev);
                    assert(list_view(out@) =~= list_view(prev).push(val_view(out@.last())));
                    assert(list_view(items@).take(i + 1) =~= list_view(items@).take(
                        i as int,
                    ).push(list_view(items@)[i as int]));
                    assert(list_view(out@) =~= list_view(items@).take(i + 1));
                }
                i = i + 1;
            }
            proof {
                assert(list_view(items@).take(items@.len() as int) =~= list_view(items@));
            }
            Value::Array(out)
        },
        Value::Object(m) => {
            let mut out: Vec<(String, Value)> = Vec::new();
            let mut i: usize = 0;
            proof {
                lemma_pairs_view_len(m.entries@);
                assert(pairs_view(out@) =~= pairs_view(m.entries@).take(0));
            }
            while i < m.entries.len()
                invariant
                    0 <= i <= m.entries@.len(),
                    out@.len() == i,
                    pairs_view(m.entries@).len() == m.entries@.len(),
                    forall|k: int|
                        0 <= k < m.entries@.len() ==> #[trigger] pairs_view(m.entries@)[k] == (
                            m.entries@[k].0@,
                            val_view(m.entries@[k].1),
                        ),
                    pairs_view(out@) == pairs_view(m.entries@).take(i as int),
                decreases m.entries@.len() - i,
            {
                let ghost prev = out@;
                proof {
                    assert(decreases_to!(*v => m.entries));
                    assert(decreases_to!(m.entries => m.entries@));
                    assert(decreases_to!(m.entries@ => m.entries@[i as int]));
                    assert(decreases_to!(*v => m.entries@[i as int].1));
                }
                let k = clone_string(&m.entries[i].0);
                let c = clone_value(&m.entries[i].1);
                out.push((k, c));
                proof {
                    assert(out@.drop_last() =~= prev);
                    lemma_pairs_view_len(out@);
                    lemma_pairs_view_len(prev);
                    assert(pairs_view(out@) =~= pairs_view(prev).push(
                        (out@.last().0@, val_view(out@.last().1)),
                    ));
                    assert(pairs_view(m.entries@).take(i + 1) =~= pairs_view(m.entries@).take(
                        i as int,
                    ).push(pairs_view(m.entries@)[i as int]));
                    assert(pairs_view(out@) =~= pairs_view(m.entries@).take(i + 1));
                }
                i = i + 1;
            }
            proof {
                assert(pairs_view(m.entries@).take(m.entries@.len() as int) =~= pairs_view(
                    m.entries@,
                ));
            }
            Value::Object(ValueMap { entries: out })
        },
    }
}

/// Copy a string.
pub fn clone_string(s: &String) -> (r: String)
    ensures
        r@ == s@,
{
    s.as_str().to_owned()
}

} // verus!

// The executable adapter: extraction and injection against the ghost
// functions above.

verus! {

use crate::jx9::native::lemma_entries_view_len;

/// `list_nul_free`, element by element.
pub proof fn lemma_list_nul_free(s: Seq<VVal>)
    ensures
        list_nul_free(s) <==> (forall|i: int| 0 <= i < s.len() ==> vval_nul_free(#[trigger] s[i])),
    decreases s,
{
    if s.len() > 0 {
        lemma_list_nul_free(s.drop_last());
        if list_nul_free(s.drop_last()) && vval_nul_free(s.last()) {
            assert forall|i: int| 0 <= i < s.len() implies vval_nul_free(#[trigger] s[i]) by {
                if i < s.len() - 1 {
                    assert(s.drop_last()[i] == s[i]);
                }
            }
        }
        assert(forall|i: int|
            0 <= i < s.drop_last().len() ==> #[trigger] s.drop_last()[i] == s[i]);
    }
}

/// `pairs_nul_free`, pair by pair.
pub proof fn lemma_pairs_nul_free(s: Seq<(Seq<char>, VVal)>)
    ensures
        pairs_nul_free(s) <==> (forall|i: int|
            0 <= i < s.len() ==> !has_nul(encode_utf8((#[trigger] s[i]).0)) && vval_nul_free(
                s[i].1,
            )),
    decreases s,
{
    if s.len() > 0 {
        lemma_pairs_nul_free(s.drop_last());
        if pairs_nul_free(s.drop_last()) && !has_nul(encode_utf8(s.last().0)) && vval_nul_free(
            s.last().1,
        ) {
            assert forall|i: int| 0 <= i < s.len() implies !has_nul(
                encode_utf8((#[trigger] s[i]).0),
            ) && vval_nul_free(s[i].1) by {
                if i < s.len() - 1 {
                    assert(s.drop_last()[i] == s[i]);
                }
            }
        }
        assert(forall|i: int|
            0 <= i < s.drop_last().len() ==> #[trigger] s.drop_last()[i] == s[i]);
    }
}

/// Extraction: decode a native value handle into a host value.  An absent
/// handle decodes to absent, which is distinct from the `Null` value a
/// present handle may hold.
pub fn to_value(handle: Option<&NativeVal>) -> (r: Option<Value>)
    ensures
        match handle {
            None => r is None,
            Some(n) => r matches Some(v) && val_view(v) == value_of(nval_view(*n)),
        },
{
    match handle {
        None => None,
        Some(n) => Some(extract_value(n)),
    }
}

/// Decode one native value, classified in the engine's probe order: null,
/// boolean, integer, real, string, object, array.  In this value model the
/// kinds are exact, every container entry decodes, and the walk always
/// completes: no extraction is ever voided.
#[verifier::loop_isolation(false)]
fn extract_value(n: &NativeVal) -> (r: Value)
    ensures
        val_view(r) == value_of(nval_view(*n)),
    decreases *n,
{
    match n {
        NativeVal::Null => Value::Null,
        NativeVal::Bool(b) => Value::Bool(*b),
        NativeVal::Int(i) => Value::Int(*i),
        NativeVal::Real(x) => Value::Real(*x),
        NativeVal::Str(bytes) => Value::String(lossy_to_string(bytes.as_slice())),
        NativeVal::Hash(c) => {
            let ghost ev = entries_view(c.entries@);
            proof {
                lemma_entries_view_len(c.entries@);
            }
            if c.json_object {
                let mut m = ValueMap::new();
                let mut i: usize = 0;
                proof {
                    assert(ev.skip(0) =~= ev);
                }
                while i < c.entries.len()
                    invariant
                        0 <= i <= c.entries@.len(),
                        ev == entries_view(c.entries@),
                        ev.len() == c.entries@.len(),
                        forall|j: int|
                            0 <= j < c.entries@.len() ==> #[trigger] ev[j] == (
                                c.entries@[j].0@,
                                nval_view(c.entries@[j].1),
                            ),
                        obj_of(ev) == obj_fold(pairs_view(m.entries@), ev.skip(i as int)),
                    decreases c.entries@.len() - i,
                {
                    proof {
                        assert(decreases_to!(*n => c.entries@[i as int].1));
                        assert(ev.skip(i as int)[0] == ev[i as int]);
                        assert(ev.skip(i as int).drop_first() =~= ev.skip(i as int + 1));
                    }
                    let key = lossy_to_string(c.entries[i].0.as_slice());
                    let value = extract_value(&c.entries[i].1);
                    m.insert(key.as_str(), value);
                    i = i + 1;
                }
                proof {
                    assert(ev.skip(ev.len() as int) =~= Seq::<(Seq<u8>, NVal)>::empty());
                }
                Value::Object(m)
            } else {
                let mut out: Vec<Value> = Vec::new();
                let mut i: usize = 0;
                proof {
                    lemma_arr_of_len(ev);
                    assert(list_view(out@) =~= arr_of(ev.take(0)));
                }
                while i < c.entries.len()
                    invariant
                        0 <= i <= c.entries@.len(),
                        out@.len() == i,
                        list_view(out@) == arr_of(ev.take(i as int)),
                    decreases c.entries@.len() - i,
                {
                    proof {
                        assert(decreases_to!(*n => c.entries@[i as int].1));
                    }
                    let ghost prev = out@;
                    let value = extract_value(&c.entries[i].1);
                    out.push(value);
                    proof {
                        assert(out@.drop_last() =~= prev);
                        lemma_list_view_len(out@);
                        lemma_list_view_len(prev);
                        assert(list_view(out@) =~= list_view(prev).push(val_view(out@.last())));
                        assert(ev.take(i + 1).drop_last() =~= ev.take(i as int));
                        assert(arr_of(ev.take(i + 1)) =~= arr_of(ev.take(i as int)).push(
                            value_of(ev[i as int].1),
                        ));
                        assert(list_view(out@) =~= arr_of(ev.take(i + 1)));
                    }
                    i = i + 1;
                }
                proof {
                    assert(ev.take(ev.len() as int) =~= ev);
                }
                Value::Array(out)
            }
        },
    }
}

/// Injection: build the engine's native value for a host value — a scalar
/// allocation populated by one set call for scalar values, a container
/// allocation populated entry by entry for arrays and objects.  A string or
/// key holding an embedded terminator byte is rejected before anything is
/// handed to the engine.
#[verifier::loop_isolation(false)]
pub fn build_native(v: &Value) -> (r: Result<NativeVal, Error>)
    ensures
        vval_nul_free(val_view(*v)) ==> (r matches Ok(n) && nval_view(n) == native_of(
            val_view(*v),
        )),
        !vval_nul_free(val_view(*v)) ==> r == Err::<NativeVal, Error>(Error::Nul),
    decreases *v,
{
    match v {
        Value::Null => Ok(NativeVal::Null),
        Value::Int(i) => Ok(NativeVal::Int(*i)),
        Value::Bool(b) => Ok(NativeVal::Bool(*b)),
        Value::Real(x) => Ok(NativeVal::Real(*x)),
        Value::String(s) => {
            let bytes = s.as_str().as_bytes_vec();
            if crate::text::contains_nul(bytes.as_slice()) {
                Err(Error::Nul)
            } else {
                Ok(NativeVal::Str(bytes))
            }
        },
        Value::Array(items) => {
            let ghost es = list_view(items@);
            proof {
                lemma_list_view_len(items@);
                lemma_list_nul_free(es);
            }
            let mut entries: Vec<(Vec<u8>, NativeVal)> = Vec::new();
            let mut i: usize = 0;
            proof {
                assert(entries_view(entries@) =~= arr_entries(es.take(0)));
            }
            while i < items.len()
                invariant
                    0 <= i <= items@.len(),
                    entries@.len() == i,
                    entries_view(entries@) == arr_entries(es.take(i as int)),
                    forall|k: int| 0 <= k < i ==> vval_nul_free(#[trigger] es[k]),
                decreases items@.len() - i,
            {
                proof {
                    assert(decreases_to!(*v => items@[i as int]));
                }
                let child = match build_native(&items[i]) {
                    Ok(c) => c,
                    Err(e) => {
                        return Err(e);
                    },
                };
                let ghost prev = entries@;
                let key = crate::text::fmt_u64(i as u64);
                entries.push((key, child));
                proof {
                    assert(entries@.drop_last() =~= prev);
                    lemma_entries_view_len(entries@);
                    lemma_entries_view_len(prev);
                    assert(entries_view(entries@) =~= entries_view(prev).push(
                        (entries@.last().0@, nval_view(entries@.last().1)),
                    ));
                    assert(es.take(i + 1).drop_last() =~= es.take(i as int));
                    assert(es.take(i + 1).len() == i + 1);
                    assert(arr_entries(es.take(i + 1)) =~= arr_entries(es.take(i as int)).push(
                        (dec_u64(i as nat), native_of(es[i as int])),
                    ));
                    assert(entries_view(entries@) =~= arr_entries(es.take(i + 1)));
                }
                i = i + 1;
            }
            proof {
                assert(es.take(es.len() as int) =~= es);
            }
            Ok(NativeVal::Hash(NContainer { entries, json_object: false }))
        },
        Value::Object(m) => {
            let ghost ps = pairs_view(m.entries@);
            proof {
                lemma_pairs_view_len(m.entries@);
                lemma_pairs_nul_free(ps);
            }
            let mut entries: Vec<(Vec<u8>, NativeVal)> = Vec::new();
            let mut i: usize = 0;
            proof {
                assert(entries_view(entries@) =~= obj_entries(ps.take(0)));
            }
            while i < m.entries.len()
                invariant
                    0 <= i <= m.entries@.len(),
                    entries@.len() == i,
                    entries_view(entries@) == obj_entries(ps.take(i as int)),
                    forall|k: int|
                        0 <= k < i ==> !has_nul(encode_utf8((#[trigger] ps[k]).0))
                            && vval_nul_free(ps[k].1),
                decreases m.entries@.len() - i,
            {
                let key = m.entries[i].0.as_str().as_bytes_vec();
                if crate::text::contains_nul(key.as_slice()) {
                    return Err(Error::Nul);
                }
                proof {
                    assert(decreases_to!(*v => m.entries@[i as int].1));
                }
                let child = match build_native(&m.entries[i].1) {
                    Ok(c) => c,
                    Err(e) => {
                        return Err(e);
                    },
                };
                let ghost prev = entries@;
                entries.push((key, child));
                proof {
                    assert(entries@.drop_last() =~= prev);
                    lemma_entries_view_len(entries@);
                    lemma_entries_view_len(prev);
                    assert(entries_view(entries@) =~= entries_view(prev).push(
                        (entries@.last().0@, nval_view(entries@.last().1)),
                    ));
                    assert(ps.take(i + 1).drop_last() =~= ps.take(i as int));
                    assert(obj_entries(ps.take(i + 1)) =~= obj_entries(ps.take(i as int)).push(
                        (encode_utf8(ps[i as int].0), native_of(ps[i as int].1)),
                    ));
                    assert(entries_view(entries@) =~= obj_entries(ps.take(i + 1)));
                }
                i = i + 1;
            }
            proof {
                assert(ps.take(ps.len() as int) =~= ps);
            }
            Ok(NativeVal::Hash(NContainer { entries, json_object: true }))
        },
    }
}

} // verus!
