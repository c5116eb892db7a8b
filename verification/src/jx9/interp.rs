//! The virtual machine: running a compiled program.
//!
//! The ghost functions here are the machine's semantics: what one statement
//! does to the variable scope and the output, and what a whole program
//! yields.  The executable machine below them is proved to return exactly
//! what the semantics say, so every run is a function of the program and
//! the scope it starts from.

use vstd::prelude::*;

use crate::jx9::ast::{
    expr_pairs_view, expr_view, exprs_view, stmt_view, stmts_view, CmpOp, Expr, ExprS, Program,
    Stmt, StmtS,
};
use crate::jx9::native::{entries_view, nval_view, NativeVal, NContainer, NVal};
use crate::text::{dec_i64, dec_u64};

verus! {

broadcast use {vstd::std_specs::vec::group_vec_axioms, vstd::seq::group_seq_axioms};

/// An entry list (a container's, or the variable scope) binds the key.
pub open spec fn h_has(es: Seq<(Seq<u8>, NVal)>, k: Seq<u8>) -> bool {
    exists|i: int| 0 <= i < es.len() && (#[trigger] es[i]).0 == k
}

/// Position of the first binding of the key.
pub open spec fn h_first_idx(es: Seq<(Seq<u8>, NVal)>, k: Seq<u8>) -> int
    decreases es.len(),
{
    if es.len() == 0 {
        0
    } else if es[0].0 == k {
        0
    } else {
        1 + h_first_idx(es.drop_first(), k)
    }
}

/// The value of the first binding of the key, or null when unbound (the
/// machine reads an unbound name as null).
pub open spec fn h_get(es: Seq<(Seq<u8>, NVal)>, k: Seq<u8>) -> NVal {
    if h_has(es, k) {
        es[h_first_idx(es, k)].1
    } else {
        NVal::Null
    }
}

/// Bind the key: the first binding is replaced in place, or the pair is
/// added at the end when the key is unbound.
pub open spec fn h_set(es: Seq<(Seq<u8>, NVal)>, k: Seq<u8>, v: NVal) -> Seq<(Seq<u8>, NVal)> {
    if h_has(es, k) {
        es.update(h_first_idx(es, k), (k, v))
    } else {
        es.push((k, v))
    }
}

/// A position whose earlier entries all miss the key is the first binding.
pub proof fn lemma_h_first(es: Seq<(Seq<u8>, NVal)>, k: Seq<u8>, i: int)
    requires
        0 <= i < es.len(),
        es[i].0 == k,
        forall|j: int| 0 <= j < i ==> (#[trigger] es[j]).0 != k,
    ensures
        h_has(es, k),
        h_first_idx(es, k) == i,
    decreases i,
{
    if i > 0 {
        lemma_h_first(es.drop_first(), k, i - 1);
    }
}

/// The first binding of a bound key: it lies in range, holds the key, and
/// nothing earlier does.
pub proof fn lemma_h_first_props(es: Seq<(Seq<u8>, NVal)>, k: Seq<u8>)
    requires
        h_has(es, k),
    ensures
        0 <= h_first_idx(es, k) < es.len(),
        es[h_first_idx(es, k)].0 == k,
        forall|j: int| 0 <= j < h_first_idx(es, k) ==> (#[trigger] es[j]).0 != k,
    decreases es.len(),
{
    if es.len() > 0 && es[0].0 != k {
        assert(h_has(es.drop_first(), k)) by {
            let w = choose|i: int| 0 <= i < es.len() && (#[trigger] es[i]).0 == k;
            assert(es.drop_first()[w - 1] == es[w]);
        }
        lemma_h_first_props(es.drop_first(), k);
        assert forall|j: int| 0 <= j < h_first_idx(es, k) implies (#[trigger] es[j]).0 != k by {
            if j > 0 {
                assert(es.drop_first()[j - 1] == es[j]);
            }
        }
    }
}

/// Reading a key back right after binding it gives the bound value.
pub proof fn lemma_h_set_get(es: Seq<(Seq<u8>, NVal)>, k: Seq<u8>, v: NVal)
    ensures
        h_has(h_set(es, k, v), k),
        h_get(h_set(es, k, v), k) == v,
{
    let es2 = h_set(es, k, v);
    if h_has(es, k) {
        lemma_h_first_props(es, k);
        let i = h_first_idx(es, k);
        assert(es2[i].0 == k);
        assert(forall|j: int| 0 <= j < i ==> (#[trigger] es2[j]) == es[j]);
        lemma_h_first(es2, k, i);
    } else {
        let i = es.len() as int;
        assert(es2[i].0 == k);
        assert(forall|j: int| 0 <= j < i ==> (#[trigger] es2[j]) == es[j]);
        lemma_h_first(es2, k, i);
    }
}

/// The bytes `print` and `..` render a value as: a byte string verbatim, an
/// integer in decimal, a boolean as `true` or `false`, null as `null`.
/// Reals and containers have no rendering in this machine and raise a
/// machine error.
pub open spec fn nv_bytes(n: NVal) -> Option<Seq<u8>> {
    match n {
        NVal::Str(b) => Some(b),
        NVal::Int(i) => Some(dec_i64(i as int)),
        NVal::Bool(b) => Some(
            if b {
                seq![116u8, 114u8, 117u8, 101u8]
            } else {
                seq![102u8, 97u8, 108u8, 115u8, 101u8]
            },
        ),
        NVal::Null => Some(seq![110u8, 117u8, 108u8, 108u8]),
        _ => None::<Seq<u8>>,
    }
}

/// Truth of a value: null and false are false; an integer is true unless
/// zero; a real is true unless its bits are a signed zero; a byte string is
/// true unless empty or the single digit zero; a container is true unless
/// empty.
pub open spec fn truthy(n: NVal) -> bool {
    match n {
        NVal::Null => false,
        NVal::Bool(b) => b,
        NVal::Int(i) => i != 0,
        NVal::Real(r) => r != 0u64 && r != 0x8000_0000_0000_0000u64,
        NVal::Str(b) => b.len() > 0 && b != seq![48u8],
        NVal::Hash(es, _) => es.len() > 0,
    }
}

/// The container key an index expression selects: an integer indexes under
/// its decimal rendering, a byte string under itself; any other index
/// raises a machine error.
pub open spec fn key_of(n: NVal) -> Option<Seq<u8>> {
    match n {
        NVal::Int(i) => Some(dec_i64(i as int)),
        NVal::Str(b) => Some(b),
        _ => None::<Seq<u8>>,
    }
}

/// Left-biased union: entries of `rest` are appended to `acc` when their
/// key is not yet bound.
pub open spec fn h_union(acc: Seq<(Seq<u8>, NVal)>, rest: Seq<(Seq<u8>, NVal)>) -> Seq<
    (Seq<u8>, NVal),
>
    decreases rest.len(),
{
    if rest.len() == 0 {
        acc
    } else if h_has(acc, rest[0].0) {
        h_union(acc, rest.drop_first())
    } else {
        h_union(acc.push(rest[0]), rest.drop_first())
    }
}

/// Addition: integers add (wrapping as the machine's integers do);
/// container plus container is their left-biased union; container plus
/// scalar appends the scalar under the next automatic key.  Any other pair
/// raises a machine error.
pub open spec fn nv_plus(a: NVal, b: NVal) -> Option<NVal> {
    match (a, b) {
        (NVal::Int(x), NVal::Int(y)) => Some(NVal::Int(x.wrapping_add(y))),
        (NVal::Hash(ea, fa), NVal::Hash(eb, _)) => Some(NVal::Hash(h_union(ea, eb), fa)),
        (NVal::Hash(ea, fa), other) => Some(
            NVal::Hash(ea.push((dec_u64(ea.len()), other)), fa),
        ),
        _ => None::<NVal>,
    }
}

/// Concatenation: both operands rendered to bytes and joined into a byte
/// string.
pub open spec fn nv_cat(a: NVal, b: NVal) -> Option<NVal> {
    match (nv_bytes(a), nv_bytes(b)) {
        (Some(x), Some(y)) => Some(NVal::Str(x + y)),
        _ => None::<NVal>,
    }
}

/// Comparison: defined on integer pairs; any other pair raises a machine
/// error.
pub open spec fn nv_cmp(op: CmpOp, a: NVal, b: NVal) -> Option<NVal> {
    match (a, b) {
        (NVal::Int(x), NVal::Int(y)) => Some(
            NVal::Bool(
                match op {
                    CmpOp::EqEq => x == y,
                    CmpOp::Ne => x != y,
                    CmpOp::Lt => x < y,
                    CmpOp::Le => x <= y,
                    CmpOp::Gt => x > y,
                    CmpOp::Ge => x >= y,
                },
            ),
        ),
        _ => None::<NVal>,
    }
}

/// Evaluation of an expression in a scope: the value, or a machine error.
pub open spec fn eval_s(e: ExprS, sc: Seq<(Seq<u8>, NVal)>) -> Option<NVal>
    decreases e,
{
    match e {
        ExprS::Null => Some(NVal::Null),
        ExprS::True => Some(NVal::Bool(true)),
        ExprS::False => Some(NVal::Bool(false)),
        ExprS::Int(i) => Some(NVal::Int(i)),
        ExprS::Real(r) => Some(NVal::Real(r)),
        ExprS::Str(b) => Some(NVal::Str(b)),
        ExprS::Var(n) => Some(h_get(sc, n)),
        ExprS::Index(a, ix) => {
            match (eval_s(*a, sc), eval_s(*ix, sc)) {
                (Some(av), Some(iv)) => {
                    match key_of(iv) {
                        Some(k) => {
                            match av {
                                NVal::Hash(es, _) => Some(h_get(es, k)),
                                _ => Some(NVal::Null),
                            }
                        },
                        None => None::<NVal>,
                    }
                },
                _ => None::<NVal>,
            }
        },
        ExprS::Cat(a, b) => {
            match (eval_s(*a, sc), eval_s(*b, sc)) {
                (Some(av), Some(bv)) => nv_cat(av, bv),
                _ => None::<NVal>,
            }
        },
        ExprS::Plus(a, b) => {
            match (eval_s(*a, sc), eval_s(*b, sc)) {
                (Some(av), Some(bv)) => nv_plus(av, bv),
                _ => None::<NVal>,
            }
        },
        ExprS::Cmp(op, a, b) => {
            match (eval_s(*a, sc), eval_s(*b, sc)) {
                (Some(av), Some(bv)) => nv_cmp(op, av, bv),
                _ => None::<NVal>,
            }
        },
        ExprS::Arr(items) => {
            match eval_list(items, sc) {
                Some(vs) => Some(NVal::Hash(indexed_entries(vs), false)),
                None => None::<NVal>,
            }
        },
        ExprS::Obj(pairs) => {
            match eval_pairs(pairs, sc) {
                Some(es) => Some(NVal::Hash(es, true)),
                None => None::<NVal>,
            }
        },
    }
}

/// Evaluation of the elements of an array literal, in order.
pub open spec fn eval_list(items: Seq<ExprS>, sc: Seq<(Seq<u8>, NVal)>) -> Option<Seq<NVal>>
    decreases items,
{
    if items.len() == 0 {
        Some(Seq::<NVal>::empty())
    } else {
        match (eval_list(items.drop_last(), sc), eval_s(items.last(), sc)) {
            (Some(vs), Some(v)) => Some(vs.push(v)),
            _ => None::<Seq<NVal>>,
        }
    }
}

/// Evaluation of the pairs of an object literal, in order.
pub open spec fn eval_pairs(pairs: Seq<(Seq<u8>, ExprS)>, sc: Seq<(Seq<u8>, NVal)>) -> Option<
    Seq<(Seq<u8>, NVal)>,
>
    decreases pairs,
{
    if pairs.len() == 0 {
        Some(Seq::<(Seq<u8>, NVal)>::empty())
    } else {
        match (eval_pairs(pairs.drop_last(), sc), eval_s(pairs.last().1, sc)) {
            (Some(es), Some(v)) => Some(es.push((pairs.last().0, v))),
            _ => None::<Seq<(Seq<u8>, NVal)>>,
        }
    }
}

/// Container entries for a list of values under automatic decimal keys.
pub open spec fn indexed_entries(vs: Seq<NVal>) -> Seq<(Seq<u8>, NVal)>
    decreases vs,
{
    if vs.len() == 0 {
        Seq::<(Seq<u8>, NVal)>::empty()
    } else {
        indexed_entries(vs.drop_last()).push((dec_u64((vs.len() - 1) as nat), vs.last()))
    }
}

/// What running part of a program yields: the scope and output as they
/// stand, the returned value if a `return` ran, and whether a machine
/// error stopped the run (output already emitted stays emitted).
#[verifier::ext_equal]
pub struct RunRes {
    /// The variable scope after the run.
    pub sc: Seq<(Seq<u8>, NVal)>,
    /// The output chunks emitted so far, one per `print`.
    pub out: Seq<Seq<u8>>,
    /// The value of the `return` that ended the run, if one did.
    pub ret: Option<NVal>,
    /// A machine error stopped the run.
    pub err: bool,
}

/// The result of a run that failed at this point.
pub open spec fn run_err(sc: Seq<(Seq<u8>, NVal)>, out: Seq<Seq<u8>>) -> RunRes {
    RunRes { sc, out, ret: None::<NVal>, err: true }
}

/// What one statement does to the scope and the output.
pub open spec fn run_stmt(s: StmtS, sc: Seq<(Seq<u8>, NVal)>, out: Seq<Seq<u8>>) -> RunRes
    decreases s,
{
    match s {
        StmtS::Print(e) => {
            match eval_s(e, sc) {
                Some(v) => {
                    match nv_bytes(v) {
                        Some(b) => RunRes { sc, out: out.push(b), ret: None::<NVal>, err: false },
                        None => run_err(sc, out),
                    }
                },
                None => run_err(sc, out),
            }
        },
        StmtS::Ret(e) => {
            match eval_s(e, sc) {
                Some(v) => RunRes { sc, out, ret: Some(v), err: false },
                None => run_err(sc, out),
            }
        },
        StmtS::Assign(n, e) => {
            match eval_s(e, sc) {
                Some(v) => RunRes { sc: h_set(sc, n, v), out, ret: None::<NVal>, err: false },
                None => run_err(sc, out),
            }
        },
        StmtS::If(c, t, f) => {
            match eval_s(c, sc) {
                Some(v) => {
                    if truthy(v) {
                        run_stmts(t, sc, out)
                    } else {
                        run_stmts(f, sc, out)
                    }
                },
                None => run_err(sc, out),
            }
        },
    }
}

/// Running statements in order, stopping at a `return` or a machine error.
pub open spec fn run_stmts(stmts: Seq<StmtS>, sc: Seq<(Seq<u8>, NVal)>, out: Seq<Seq<u8>>) -> RunRes
    decreases stmts,
{
    if stmts.len() == 0 {
        RunRes { sc, out, ret: None::<NVal>, err: false }
    } else {
        let r = run_stmt(stmts[0], sc, out);
        if r.err || r.ret is Some {
            r
        } else {
            run_stmts(stmts.drop_first(), r.sc, r.out)
        }
    }
}

/// What a whole program yields when run from a scope, with no output yet.
pub open spec fn vm_run(stmts: Seq<StmtS>, sc: Seq<(Seq<u8>, NVal)>) -> RunRes {
    run_stmts(stmts, sc, Seq::<Seq<u8>>::empty())
}

} // verus!

// The executable machine, proved against the semantics above.

verus! {

/// Ghost model of a list of output chunks.
pub open spec fn chunks_view(s: Seq<Vec<u8>>) -> Seq<Seq<u8>> {
    Seq::new(s.len(), |i: int| s[i]@)
}

/// Copy a native value.
#[verifier::loop_isolation(false)]
pub fn clone_native(n: &NativeVal) -> (r: NativeVal)
    ensures
        nval_view(r) == nval_view(*n),
    decreases *n,
{
    match n {
        NativeVal::Null => NativeVal::Null,
        NativeVal::Bool(b) => NativeVal::Bool(*b),
        NativeVal::Int(i) => NativeVal::Int(*i),
        NativeVal::Real(x) => NativeVal::Real(*x),
        NativeVal::Str(v) => NativeVal::Str(vstd::slice::slice_to_vec(v.as_slice())),
        NativeVal::Hash(c) => {
            let ghost ev = entries_view(c.entries@);
            proof {
                crate::jx9::native::lemma_entries_view_len(c.entries@);
            }
            let mut out: Vec<(Vec<u8>, NativeVal)> = Vec::new();
            let mut i: usize = 0;
            proof {
                assert(entries_view(out@) =~= ev.take(0));
            }
            while i < c.entries.len()
                invariant
                    0 <= i <= c.entries@.len(),
                    out@.len() == i,
                    entries_view(out@) == ev.take(i as int),
                decreases c.entries@.len() - i,
            {
                proof {
                    assert(decreases_to!(*n => c.entries@[i as int].1));
                }
                let ghost prev = out@;
                let k = vstd::slice::slice_to_vec(c.entries[i].0.as_slice());
                let v = clone_native(&c.entries[i].1);
                out.push((k, v));
                proof {
                    assert(out@.drop_last() =~= prev);
                    crate::jx9::native::lemma_entries_view_len(out@);
                    crate::jx9::native::lemma_entries_view_len(prev);
                    assert(entries_view(out@) =~= entries_view(prev).push(
                        (out@.last().0@, nval_view(out@.last().1)),
                    ));
                    assert(ev.take(i + 1).drop_last() =~= ev.take(i as int));
                    assert(entries_view(out@) =~= ev.take(i + 1));
                }
                i = i + 1;
            }
            proof {
                assert(ev.take(ev.len() as int) =~= ev);
            }
            NativeVal::Hash(NContainer { entries: out, json_object: c.json_object })
        },
    }
}

/// Render a value to output bytes, or report the machine error.
fn render_bytes(n: &NativeVal) -> (r: Result<Vec<u8>, ()>)
    ensures
        match nv_bytes(nval_view(*n)) {
            Some(b) => r matches Ok(v) && v@ == b,
            None => r is Err,
        },
{
    match n {
        NativeVal::Str(v) => Ok(vstd::slice::slice_to_vec(v.as_slice())),
        NativeVal::Int(i) => Ok(crate::text::fmt_i64(*i)),
        NativeVal::Bool(b) => {
            let mut out: Vec<u8> = Vec::new();
            if *b {
                out.push(116);
                out.push(114);
                out.push(117);
                out.push(101);
                proof {
                    assert(out@ =~= seq![116u8, 114u8, 117u8, 101u8]);
                }
            } else {
                out.push(102);
                out.push(97);
                out.push(108);
                out.push(115);
                out.push(101);
                proof {
                    assert(out@ =~= seq![102u8, 97u8, 108u8, 115u8, 101u8]);
                }
            }
            Ok(out)
        },
        NativeVal::Null => {
            let mut out: Vec<u8> = Vec::new();
            out.push(110);
            out.push(117);
            out.push(108);
            out.push(108);
            proof {
                assert(out@ =~= seq![110u8, 117u8, 108u8, 108u8]);
            }
            Ok(out)
        },
        _ => Err(()),
    }
}

/// Decide the truth of a value.
fn truthy_x(n: &NativeVal) -> (r: bool)
    ensures
        r == truthy(nval_view(*n)),
{
    match n {
        NativeVal::Null => false,
        NativeVal::Bool(b) => *b,
        NativeVal::Int(i) => *i != 0,
        NativeVal::Real(x) => *x != 0 && *x != 0x8000_0000_0000_0000u64,
        NativeVal::Str(v) => {
            if v.len() == 0 {
                false
            } else if v.len() == 1 && v[0] == 48 {
                proof {
                    assert(v@ =~= seq![48u8]);
                }
                false
            } else {
                proof {
                    if v@.len() == 1 {
                        assert(v@[0] != 48 ==> v@ != seq![48u8]);
                    } else {
                        assert(v@.len() != seq![48u8].len());
                    }
                }
                true
            }
        },
        NativeVal::Hash(c) => {
            proof {
                crate::jx9::native::lemma_entries_view_len(c.entries@);
            }
            c.entries.len() > 0
        },
    }
}

/// The container key an index value selects, or the machine error.
fn key_bytes(n: &NativeVal) -> (r: Result<Vec<u8>, ()>)
    ensures
        match key_of(nval_view(*n)) {
            Some(k) => r matches Ok(v) && v@ == k,
            None => r is Err,
        },
{
    match n {
        NativeVal::Int(i) => Ok(crate::text::fmt_i64(*i)),
        NativeVal::Str(v) => Ok(vstd::slice::slice_to_vec(v.as_slice())),
        _ => Err(()),
    }
}

/// Whether the entry list binds the key, and where its first binding is.
pub(crate) fn find_entry(entries: &Vec<(Vec<u8>, NativeVal)>, k: &[u8]) -> (r: Option<usize>)
    ensures
        match r {
            Some(i) => i < entries@.len() && entries_view(entries@)[i as int].0 == k@ && h_has(
                entries_view(entries@),
                k@,
            ) && h_first_idx(entries_view(entries@), k@) == i,
            None => !h_has(entries_view(entries@), k@),
        },
{
    let ghost ev = entries_view(entries@);
    proof {
        crate::jx9::native::lemma_entries_view_len(entries@);
    }
    let mut i: usize = 0;
    while i < entries.len()
        invariant
            0 <= i <= entries@.len(),
            ev == entries_view(entries@),
            ev.len() == entries@.len(),
            forall|j: int|
                0 <= j < entries@.len() ==> #[trigger] ev[j] == (
                    entries@[j].0@,
                    nval_view(entries@[j].1),
                ),
            forall|j: int| 0 <= j < i ==> (#[trigger] ev[j]).0 != k@,
        decreases entries@.len() - i,
    {
        if crate::bytes_eq(entries[i].0.as_slice(), k) {
            proof {
                lemma_h_first(ev, k@, i as int);
            }
            return Some(i);
        }
        i = i + 1;
    }
    None
}

/// The value the entry list binds the key to, copied, or null when unbound.
fn lookup_entry(entries: &Vec<(Vec<u8>, NativeVal)>, k: &[u8]) -> (r: NativeVal)
    ensures
        nval_view(r) == h_get(entries_view(entries@), k@),
{
    proof {
        crate::jx9::native::lemma_entries_view_len(entries@);
    }
    match find_entry(entries, k) {
        Some(i) => clone_native(&entries[i].1),
        None => NativeVal::Null,
    }
}

/// Bind the key in the scope: replace its first binding in place, or add
/// the pair at the end.
pub(crate) fn scope_set(sc: &mut Vec<(Vec<u8>, NativeVal)>, name: Vec<u8>, v: NativeVal)
    ensures
        entries_view(final(sc)@) == h_set(entries_view(old(sc)@), name@, nval_view(v)),
{
    let ghost ev = entries_view(sc@);
    proof {
        crate::jx9::native::lemma_entries_view_len(sc@);
    }
    match find_entry(sc, name.as_slice()) {
        Some(i) => {
            let ghost prev = sc@;
            let slot = &mut sc[i];
            *slot = (name, v);
            proof {
                assert(sc@ =~= prev.update(i as int, sc@[i as int]));
                crate::jx9::native::lemma_entries_view_len(sc@);
                assert(entries_view(sc@) =~= ev.update(i as int, (name@, nval_view(v))));
                assert(entries_view(sc@) =~= h_set(ev, name@, nval_view(v)));
            }
        },
        None => {
            let ghost prev = sc@;
            sc.push((name, v));
            proof {
                assert(sc@.drop_last() =~= prev);
                crate::jx9::native::lemma_entries_view_len(sc@);
                crate::jx9::native::lemma_entries_view_len(prev);
                assert(entries_view(sc@) =~= entries_view(prev).push(
                    (sc@.last().0@, nval_view(sc@.last().1)),
                ));
                assert(entries_view(sc@) =~= h_set(ev, name@, nval_view(v)));
            }
        },
    }
}

/// Left-biased union of two entry lists.
fn union_entries(acc: Vec<(Vec<u8>, NativeVal)>, rest: &Vec<(Vec<u8>, NativeVal)>) -> (r: Vec<
    (Vec<u8>, NativeVal),
>)
    ensures
        entries_view(r@) == h_union(entries_view(acc@), entries_view(rest@)),
{
    let ghost acc0 = entries_view(acc@);
    let ghost rv = entries_view(rest@);
    proof {
        crate::jx9::native::lemma_entries_view_len(rest@);
    }
    let mut out = acc;
    let mut i: usize = 0;
    proof {
        assert(rv.skip(0) =~= rv);
    }
    while i < rest.len()
        invariant
            0 <= i <= rest@.len(),
            rv == entries_view(rest@),
            rv.len() == rest@.len(),
            forall|j: int|
                0 <= j < rest@.len() ==> #[trigger] rv[j] == (
                    rest@[j].0@,
                    nval_view(rest@[j].1),
                ),
            h_union(acc0, rv) == h_union(entries_view(out@), rv.skip(i as int)),
        decreases rest@.len() - i,
    {
        let ghost ov = entries_view(out@);
        proof {
            assert(rv.skip(i as int)[0] == rv[i as int]);
            assert(rv.skip(i as int).drop_first() =~= rv.skip(i as int + 1));
        }
        match find_entry(&out, rest[i].0.as_slice()) {
            Some(_) => {
            },
            None => {
                let ghost prev = out@;
                let k = vstd::slice::slice_to_vec(rest[i].0.as_slice());
                let v = clone_native(&rest[i].1);
                out.push((k, v));
                proof {
                    assert(out@.drop_last() =~= prev);
                    crate::jx9::native::lemma_entries_view_len(out@);
                    crate::jx9::native::lemma_entries_view_len(prev);
                    assert(entries_view(out@) =~= entries_view(prev).push(
                        (out@.last().0@, nval_view(out@.last().1)),
                    ));
                    assert(entries_view(out@) =~= ov.push(rv[i as int]));
                }
            },
        }
        i = i + 1;
    }
    proof {
        assert(rv.skip(rv.len() as int) =~= Seq::<(Seq<u8>, NVal)>::empty());
    }
    out
}

/// Addition, or the machine error.
fn plus_x(a: NativeVal, b: NativeVal) -> (r: Result<NativeVal, ()>)
    ensures
        match nv_plus(nval_view(a), nval_view(b)) {
            Some(v) => r matches Ok(n) && nval_view(n) == v,
            None => r is Err,
        },
{
    match a {
        NativeVal::Int(x) => {
            match b {
                NativeVal::Int(y) => Ok(NativeVal::Int(x.wrapping_add(y))),
                _ => Err(()),
            }
        },
        NativeVal::Hash(ca) => {
            match b {
                NativeVal::Hash(cb) => {
                    let flag = ca.json_object;
                    let merged = union_entries(ca.entries, &cb.entries);
                    Ok(NativeVal::Hash(NContainer { entries: merged, json_object: flag }))
                },
                other => {
                    let ghost ev = entries_view(ca.entries@);
                    proof {
                        crate::jx9::native::lemma_entries_view_len(ca.entries@);
                    }
                    let mut entries = ca.entries;
                    let ghost prev = entries@;
                    let key = crate::text::fmt_u64(entries.len() as u64);
                    entries.push((key, other));
                    proof {
                        assert(entries@.drop_last() =~= prev);
                        crate::jx9::native::lemma_entries_view_len(entries@);
                        crate::jx9::native::lemma_entries_view_len(prev);
                        assert(entries_view(entries@) =~= entries_view(prev).push(
                            (entries@.last().0@, nval_view(entries@.last().1)),
                        ));
                        assert(entries_view(entries@) =~= ev.push(
                            (dec_u64(ev.len()), nval_view(entries@.last().1)),
                        ));
                    }
                    Ok(NativeVal::Hash(NContainer { entries, json_object: ca.json_object }))
                },
            }
        },
        _ => Err(()),
    }
}

/// Concatenation, or the machine error.
fn cat_x(a: &NativeVal, b: &NativeVal) -> (r: Result<NativeVal, ()>)
    ensures
        match nv_cat(nval_view(*a), nval_view(*b)) {
            Some(v) => r matches Ok(n) && nval_view(n) == v,
            None => r is Err,
        },
{
    let mut x = match render_bytes(a) {
        Ok(v) => v,
        Err(_) => {
            return Err(());
        },
    };
    let y = match render_bytes(b) {
        Ok(v) => v,
        Err(_) => {
            return Err(());
        },
    };
    let ghost xv = x@;
    let mut tail = y;
    x.append(&mut tail);
    proof {
        assert(x@ =~= xv + nv_bytes(nval_view(*b))->Some_0);
    }
    Ok(NativeVal::Str(x))
}

/// Comparison, or the machine error.
fn cmp_x(op: CmpOp, a: &NativeVal, b: &NativeVal) -> (r: Result<NativeVal, ()>)
    ensures
        match nv_cmp(op, nval_view(*a), nval_view(*b)) {
            Some(v) => r matches Ok(n) && nval_view(n) == v,
            None => r is Err,
        },
{
    match a {
        NativeVal::Int(x) => {
            match b {
                NativeVal::Int(y) => Ok(
                    NativeVal::Bool(
                        match op {
                            CmpOp::EqEq => *x == *y,
                            CmpOp::Ne => *x != *y,
                            CmpOp::Lt => *x < *y,
                            CmpOp::Le => *x <= *y,
                            CmpOp::Gt => *x > *y,
                            CmpOp::Ge => *x >= *y,
                        },
                    ),
                ),
                _ => Err(()),
            }
        },
        _ => Err(()),
    }
}

/// Evaluate an expression in the scope, or report the machine error.
#[verifier::loop_isolation(false)]
fn eval_x(e: &Expr, sc: &Vec<(Vec<u8>, NativeVal)>) -> (r: Result<NativeVal, ()>)
    ensures
        match eval_s(expr_view(*e), entries_view(sc@)) {
            Some(v) => r matches Ok(n) && nval_view(n) == v,
            None => r is Err,
        },
    decreases *e,
{
    match e {
        Expr::Null => Ok(NativeVal::Null),
        Expr::True => Ok(NativeVal::Bool(true)),
        Expr::False => Ok(NativeVal::Bool(false)),
        Expr::Int(i) => Ok(NativeVal::Int(*i)),
        Expr::Real(x) => Ok(NativeVal::Real(*x)),
        Expr::Str(v) => Ok(NativeVal::Str(vstd::slice::slice_to_vec(v.as_slice()))),
        Expr::Var(n) => Ok(lookup_entry(sc, n.as_slice())),
        Expr::Index(a, ix) => {
            let av = match eval_x(a, sc) {
                Ok(v) => v,
                Err(_) => {
                    return Err(());
                },
            };
            let iv = match eval_x(ix, sc) {
                Ok(v) => v,
                Err(_) => {
                    return Err(());
                },
            };
            let k = match key_bytes(&iv) {
                Ok(v) => v,
                Err(_) => {
                    return Err(());
                },
            };
            match av {
                NativeVal::Hash(c) => Ok(lookup_entry(&c.entries, k.as_slice())),
                _ => Ok(NativeVal::Null),
            }
        },
        Expr::Cat(a, b) => {
            let av = match eval_x(a, sc) {
                Ok(v) => v,
                Err(_) => {
                    return Err(());
                },
            };
            let bv = match eval_x(b, sc) {
                Ok(v) => v,
                Err(_) => {
                    return Err(());
                },
            };
            cat_x(&av, &bv)
        },
        Expr::Plus(a, b) => {
            let av = match eval_x(a, sc) {
                Ok(v) => v,
                Err(_) => {
                    return Err(());
                },
            };
            let bv = match eval_x(b, sc) {
                Ok(v) => v,
                Err(_) => {
                    return Err(());
                },
            };
            plus_x(av, bv)
        },
        Expr::Cmp(op, a, b) => {
            let av = match eval_x(a, sc) {
                Ok(v) => v,
                Err(_) => {
                    return Err(());
                },
            };
            let bv = match eval_x(b, sc) {
                Ok(v) => v,
                Err(_) => {
                    return Err(());
                },
            };
            cmp_x(*op, &av, &bv)
        },
        Expr::Arr(items) => {
            let ghost scv = entries_view(sc@);
            let ghost iv = exprs_view(items@);
            let mut vals: Vec<NativeVal> = Vec::new();
            let mut i: usize = 0;
            proof {
                crate::jx9::ast::lemma_exprs_view_len(items@);
                assert(vals_view(vals@) =~= Seq::<NVal>::empty());
                assert(iv.take(0) =~= Seq::<ExprS>::empty());
                assert(eval_list(iv.take(0), scv) == Some(Seq::<NVal>::empty()));
            }
            while i < items.len()
                invariant
                    0 <= i <= items@.len(),
                    vals@.len() == i,
                    eval_list(iv.take(i as int), scv) == Some(vals_view(vals@)),
                decreases items@.len() - i,
            {
                proof {
                    assert(decreases_to!(*e => items@[i as int]));
                }
                let v = match eval_x(&items[i], sc) {
                    Ok(v) => v,
                    Err(_) => {
                        proof {
                            lemma_eval_list_prefix_err(iv, scv, i as int);
                        }
                        return Err(());
                    },
                };
                let ghost prev = vals@;
                vals.push(v);
                proof {
                    assert(vals@.drop_last() =~= prev);
                    lemma_vals_view_len(vals@);
                    lemma_vals_view_len(prev);
                    assert(vals_view(vals@) =~= vals_view(prev).push(nval_view(vals@.last())));
                    assert(iv.take(i + 1).drop_last() =~= iv.take(i as int));
                    assert(iv.take(i + 1).last() == iv[i as int]);
                    assert(eval_list(iv.take(i + 1), scv) == Some(vals_view(vals@)));
                }
                i = i + 1;
            }
            proof {
                assert(iv.take(iv.len() as int) =~= iv);
            }
            let entries = index_values(vals);
            Ok(NativeVal::Hash(NContainer { entries, json_object: false }))
        },
        Expr::Obj(pairs) => {
            let ghost scv = entries_view(sc@);
            let ghost pv = expr_pairs_view(pairs@);
            let mut entries: Vec<(Vec<u8>, NativeVal)> = Vec::new();
            let mut i: usize = 0;
            proof {
                crate::jx9::ast::lemma_expr_pairs_view_len(pairs@);
                assert(entries_view(entries@) =~= Seq::<(Seq<u8>, NVal)>::empty());
                assert(pv.take(0) =~= Seq::<(Seq<u8>, ExprS)>::empty());
                assert(eval_pairs(pv.take(0), scv) == Some(Seq::<(Seq<u8>, NVal)>::empty()));
            }
            while i < pairs.len()
                invariant
                    0 <= i <= pairs@.len(),
                    entries@.len() == i,
                    eval_pairs(pv.take(i as int), scv) == Some(entries_view(entries@)),
                decreases pairs@.len() - i,
            {
                proof {
                    assert(decreases_to!(*e => pairs@[i as int].1));
                }
                let v = match eval_x(&pairs[i].1, sc) {
                    Ok(v) => v,
                    Err(_) => {
                        proof {
                            lemma_eval_pairs_prefix_err(pv, scv, i as int);
                        }
                        return Err(());
                    },
                };
                let ghost prev = entries@;
                let k = vstd::slice::slice_to_vec(pairs[i].0.as_slice());
                entries.push((k, v));
                proof {
                    assert(entries@.drop_last() =~= prev);
                    crate::jx9::native::lemma_entries_view_len(entries@);
                    crate::jx9::native::lemma_entries_view_len(prev);
                    assert(entries_view(entries@) =~= entries_view(prev).push(
                        (entries@.last().0@, nval_view(entries@.last().1)),
                    ));
                    assert(pv.take(i + 1).drop_last() =~= pv.take(i as int));
                    assert(pv.take(i + 1).last() == pv[i as int]);
                    assert(eval_pairs(pv.take(i + 1), scv) == Some(entries_view(entries@)));
                }
                i = i + 1;
            }
            proof {
                assert(pv.take(pv.len() as int) =~= pv);
            }
            Ok(NativeVal::Hash(NContainer { entries, json_object: true }))
        },
    }
}

/// Ghost model of a list of native values.
pub open spec fn vals_view(s: Seq<NativeVal>) -> Seq<NVal>
    decreases s,
{
    if s.len() == 0 {
        Seq::<NVal>::empty()
    } else {
        vals_view(s.drop_last()).push(nval_view(s.last()))
    }
}

/// The ghost value list is as long as the concrete one, value for value.
pub proof fn lemma_vals_view_len(s: Seq<NativeVal>)
    ensures
        vals_view(s).len() == s.len(),
        forall|i: int| 0 <= i < s.len() ==> #[trigger] vals_view(s)[i] == nval_view(s[i]),
    decreases s,
{
    if s.len() > 0 {
        lemma_vals_view_len(s.drop_last());
    }
}

/// When a prefix evaluates but its next element does not, the whole list
/// does not evaluate.
proof fn lemma_eval_list_prefix_err(items: Seq<ExprS>, sc: Seq<(Seq<u8>, NVal)>, i: int)
    requires
        0 <= i < items.len(),
        eval_s(items[i], sc) is None,
    ensures
        eval_list(items, sc) is None,
    decreases items.len(),
{
    if items.len() > 0 {
        if i == items.len() - 1 {
        } else {
            lemma_eval_list_prefix_err(items.drop_last(), sc, i);
        }
    }
}

/// When a prefix evaluates but its next pair's value does not, the whole
/// pair list does not evaluate.
proof fn lemma_eval_pairs_prefix_err(pairs: Seq<(Seq<u8>, ExprS)>, sc: Seq<(Seq<u8>, NVal)>, i: int)
    requires
        0 <= i < pairs.len(),
        eval_s(pairs[i].1, sc) is None,
    ensures
        eval_pairs(pairs, sc) is None,
    decreases pairs.len(),
{
    if pairs.len() > 0 {
        if i == pairs.len() - 1 {
        } else {
            lemma_eval_pairs_prefix_err(pairs.drop_last(), sc, i);
        }
    }
}

/// Container entries for the evaluated elements, under automatic decimal
/// keys.
fn index_values(vals: Vec<NativeVal>) -> (r: Vec<(Vec<u8>, NativeVal)>)
    ensures
        entries_view(r@) == indexed_entries(vals_view(vals@)),
{
    let ghost vv = vals_view(vals@);
    proof {
        lemma_vals_view_len(vals@);
    }
    let mut out: Vec<(Vec<u8>, NativeVal)> = Vec::new();
    let mut i: usize = 0;
    let rest = vals;
    proof {
        assert(entries_view(out@) =~= indexed_entries(vv.take(0)));
    }
    while i < rest.len()
        invariant
            0 <= i <= rest@.len(),
            out@.len() == i,
            vv == vals_view(rest@),
            vv.len() == rest@.len(),
            forall|j: int| 0 <= j < rest@.len() ==> #[trigger] vv[j] == nval_view(rest@[j]),
            entries_view(out@) == indexed_entries(vv.take(i as int)),
        decreases rest@.len() - i,
    {
        let ghost prev = out@;
        let k = crate::text::fmt_u64(i as u64);
        let v = clone_native(&rest[i]);
        out.push((k, v));
        proof {
            assert(out@.drop_last() =~= prev);
            crate::jx9::native::lemma_entries_view_len(out@);
            crate::jx9::native::lemma_entries_view_len(prev);
            assert(entries_view(out@) =~= entries_view(prev).push(
                (out@.last().0@, nval_view(out@.last().1)),
            ));
            assert(vv.take(i + 1).drop_last() =~= vv.take(i as int));
            assert(vv.take(i + 1).len() == i + 1);
            assert(indexed_entries(vv.take(i + 1)) =~= indexed_entries(vv.take(i as int)).push(
                (dec_u64(i as nat), vv[i as int]),
            ));
            assert(entries_view(out@) =~= indexed_entries(vv.take(i + 1)));
        }
        i = i + 1;
    }
    proof {
        assert(vv.take(vv.len() as int) =~= vv);
    }
    out
}

/// Run one statement against the scope and the output, reporting a
/// `return` value or the machine error.
#[verifier::loop_isolation(false)]
fn exec_stmt(s: &Stmt, sc: &mut Vec<(Vec<u8>, NativeVal)>, out: &mut Vec<Vec<u8>>) -> (r: Result<
    Option<NativeVal>,
    (),
>)
    ensures
        ({
            let res = run_stmt(stmt_view(*s), entries_view(old(sc)@), chunks_view(old(out)@));
            &&& entries_view(final(sc)@) == res.sc
            &&& chunks_view(final(out)@) == res.out
            &&& match r {
                Ok(ret) => !res.err && (match (ret, res.ret) {
                    (Some(v), Some(rv)) => nval_view(v) == rv,
                    (None, None) => true,
                    _ => false,
                }),
                Err(_) => res.err,
            }
        }),
    decreases *s,
{
    match s {
        Stmt::Print(e) => {
            let v = match eval_x(e, sc) {
                Ok(v) => v,
                Err(_) => {
                    return Err(());
                },
            };
            let b = match render_bytes(&v) {
                Ok(b) => b,
                Err(_) => {
                    return Err(());
                },
            };
            let ghost prev = out@;
            out.push(b);
            proof {
                assert(chunks_view(out@) =~= chunks_view(prev).push(out@.last()@));
            }
            Ok(None)
        },
        Stmt::Ret(e) => {
            match eval_x(e, sc) {
                Ok(v) => Ok(Some(v)),
                Err(_) => Err(()),
            }
        },
        Stmt::Assign(n, e) => {
            let v = match eval_x(e, sc) {
                Ok(v) => v,
                Err(_) => {
                    return Err(());
                },
            };
            let name = vstd::slice::slice_to_vec(n.as_slice());
            scope_set(sc, name, v);
            Ok(None)
        },
        Stmt::If(c, t, f) => {
            let cv = match eval_x(c, sc) {
                Ok(v) => v,
                Err(_) => {
                    return Err(());
                },
            };
            if truthy_x(&cv) {
                exec_stmts(t, sc, out)
            } else {
                exec_stmts(f, sc, out)
            }
        },
    }
}

/// Run statements in order, stopping at a `return` or the machine error.
#[verifier::loop_isolation(false)]
fn exec_stmts(stmts: &Vec<Stmt>, sc: &mut Vec<(Vec<u8>, NativeVal)>, out: &mut Vec<Vec<u8>>) -> (r:
    Result<Option<NativeVal>, ()>)
    ensures
        ({
            let res = run_stmts(
                stmts_view(stmts@),
                entries_view(old(sc)@),
                chunks_view(old(out)@),
            );
            &&& entries_view(final(sc)@) == res.sc
            &&& chunks_view(final(out)@) == res.out
            &&& match r {
                Ok(ret) => !res.err && (match (ret, res.ret) {
                    (Some(v), Some(rv)) => nval_view(v) == rv,
                    (None, None) => true,
                    _ => false,
                }),
                Err(_) => res.err,
            }
        }),
    decreases *stmts,
{
    let ghost sv = stmts_view(stmts@);
    let ghost res = run_stmts(sv, entries_view(old(sc)@), chunks_view(old(out)@));
    let mut i: usize = 0;
    proof {
        crate::jx9::ast::lemma_stmts_view_len(stmts@);
        assert(sv.skip(0) =~= sv);
    }
    while i < stmts.len()
        invariant
            0 <= i <= stmts@.len(),
            sv.len() == stmts@.len(),
            forall|j: int| 0 <= j < stmts@.len() ==> #[trigger] sv[j] == stmt_view(stmts@[j]),
            res == run_stmts(sv.skip(i as int), entries_view(sc@), chunks_view(out@)),
        decreases stmts@.len() - i,
    {
        proof {
            assert(decreases_to!(*stmts => stmts@[i as int]));
            assert(sv.skip(i as int)[0] == sv[i as int]);
            assert(sv.skip(i as int).drop_first() =~= sv.skip(i as int + 1));
        }
        match exec_stmt(&stmts[i], sc, out) {
            Ok(None) => {},
            Ok(Some(v)) => {
                return Ok(Some(v));
            },
            Err(e) => {
                return Err(e);
            },
        }
        i = i + 1;
    }
    proof {
        assert(sv.skip(sv.len() as int) =~= Seq::<StmtS>::empty());
    }
    Ok(None)
}

/// What one run of a program produced.
pub struct VmOutcome {
    /// The variable scope after the run.
    pub scope: Vec<(Vec<u8>, NativeVal)>,
    /// The output chunks emitted, one per `print`.
    pub chunks: Vec<Vec<u8>>,
    /// The value of the `return` that ended the run, if one did.
    pub ret: Option<NativeVal>,
    /// A machine error stopped the run.
    pub err: bool,
}

/// Run a program from the given scope.  The outcome is exactly what the
/// semantics [`vm_run`] assigns to the program and scope.
pub fn vm_exec(prog: &Program, sc0: Vec<(Vec<u8>, NativeVal)>) -> (o: VmOutcome)
    ensures
        ({
            let res = vm_run(stmts_view(prog.stmts@), entries_view(sc0@));
            &&& entries_view(o.scope@) == res.sc
            &&& chunks_view(o.chunks@) == res.out
            &&& o.err == res.err
            &&& res.err ==> o.ret is None
            &&& !res.err ==> match (o.ret, res.ret) {
                (Some(v), Some(rv)) => nval_view(v) == rv,
                (None, None) => true,
                _ => false,
            }
        }),
{
    let mut sc = sc0;
    let mut out: Vec<Vec<u8>> = Vec::new();
    proof {
        assert(chunks_view(out@) =~= Seq::<Seq<u8>>::empty());
        assert(entries_view(sc@) == entries_view(sc0@));
    }
    let ghost sc_v = entries_view(sc@);
    let ghost out_v = chunks_view(out@);
    let r = exec_stmts(&prog.stmts, &mut sc, &mut out);
    let ghost res = vm_run(stmts_view(prog.stmts@), entries_view(sc0@));
    proof {
        assert(run_stmts(stmts_view(prog.stmts@), sc_v, out_v) == res);
        assert(entries_view(sc@) == res.sc);
        assert(chunks_view(out@) == res.out);
    }
    match r {
        Ok(ret) => {
            proof {
                assert(!res.err);
            }
            VmOutcome { scope: sc, chunks: out, ret, err: false }
        },
        Err(_) => {
            proof {
                assert(res.err);
            }
            VmOutcome { scope: sc, chunks: out, ret: None, err: true }
        },
    }
}

} // verus!

// The scope a program starts from.

verus! {

/// Container entries of the predefined argument array: each argument as a
/// byte string under its decimal index key.
pub open spec fn argv_entries(args: Seq<Seq<u8>>) -> Seq<(Seq<u8>, NVal)>
    decreases args,
{
    if args.len() == 0 {
        Seq::<(Seq<u8>, NVal)>::empty()
    } else {
        argv_entries(args.drop_last()).push(
            (dec_u64((args.len() - 1) as nat), NVal::Str(args.last())),
        )
    }
}

/// Container entries of the predefined environment object: each value as a
/// byte string under its key.
pub open spec fn env_nval_entries(env: Seq<(Seq<u8>, Seq<u8>)>) -> Seq<(Seq<u8>, NVal)>
    decreases env,
{
    if env.len() == 0 {
        Seq::<(Seq<u8>, NVal)>::empty()
    } else {
        env_nval_entries(env.drop_last()).push((env.last().0, NVal::Str(env.last().1)))
    }
}

/// The scope a run starts from: the registered foreign variables, then the
/// predefined `argv` array and `_ENV` object.
pub open spec fn initial_scope_of(
    vars: Seq<(Seq<u8>, NVal)>,
    args: Seq<Seq<u8>>,
    env: Seq<(Seq<u8>, Seq<u8>)>,
) -> Seq<(Seq<u8>, NVal)> {
    vars + seq![
        (seq![97u8, 114u8, 103u8, 118u8], NVal::Hash(argv_entries(args), false)),
        (seq![95u8, 69u8, 78u8, 86u8], NVal::Hash(env_nval_entries(env), true)),
    ]
}

/// Copy an entry list.
pub(crate) fn clone_entries(src: &Vec<(Vec<u8>, NativeVal)>) -> (r: Vec<(Vec<u8>, NativeVal)>)
    ensures
        entries_view(r@) == entries_view(src@),
{
    let ghost ev = entries_view(src@);
    proof {
        crate::jx9::native::lemma_entries_view_len(src@);
    }
    let mut out: Vec<(Vec<u8>, NativeVal)> = Vec::new();
    let mut i: usize = 0;
    proof {
        assert(entries_view(out@) =~= ev.take(0));
    }
    while i < src.len()
        invariant
            0 <= i <= src@.len(),
            out@.len() == i,
            ev == entries_view(src@),
            ev.len() == src@.len(),
            forall|j: int|
                0 <= j < src@.len() ==> #[trigger] ev[j] == (src@[j].0@, nval_view(src@[j].1)),
            entries_view(out@) == ev.take(i as int),
        decreases src@.len() - i,
    {
        let ghost prev = out@;
        let k = vstd::slice::slice_to_vec(src[i].0.as_slice());
        let v = clone_native(&src[i].1);
        out.push((k, v));
        proof {
            assert(out@.drop_last() =~= prev);
            crate::jx9::native::lemma_entries_view_len(out@);
            crate::jx9::native::lemma_entries_view_len(prev);
            assert(entries_view(out@) =~= entries_view(prev).push(
                (out@.last().0@, nval_view(out@.last().1)),
            ));
            assert(entries_view(out@) =~= ev.take(i + 1));
        }
        i = i + 1;
    }
    proof {
        assert(ev.take(ev.len() as int) =~= ev);
    }
    out
}

/// Build the scope a run starts from.
pub(crate) fn build_start_scope(
    vars: &Vec<(Vec<u8>, NativeVal)>,
    args: &Vec<Vec<u8>>,
    env: &Vec<(Vec<u8>, Vec<u8>)>,
) -> (r: Vec<(Vec<u8>, NativeVal)>)
    ensures
        entries_view(r@) == initial_scope_of(
            entries_view(vars@),
            Seq::new(args@.len(), |i: int| args@[i]@),
            Seq::new(env@.len(), |i: int| (env@[i].0@, env@[i].1@)),
        ),
{
    let ghost args_v = Seq::new(args@.len(), |i: int| args@[i]@);
    let ghost env_v = Seq::new(env@.len(), |i: int| (env@[i].0@, env@[i].1@));
    let mut out = clone_entries(vars);
    let ghost base = entries_view(out@);

    // the argument array
    let mut argv: Vec<(Vec<u8>, NativeVal)> = Vec::new();
    let mut i: usize = 0;
    proof {
        assert(entries_view(argv@) =~= argv_entries(args_v.take(0)));
    }
    while i < args.len()
        invariant
            0 <= i <= args@.len(),
            argv@.len() == i,
            args_v.len() == args@.len(),
            forall|j: int| 0 <= j < args@.len() ==> #[trigger] args_v[j] == args@[j]@,
            entries_view(argv@) == argv_entries(args_v.take(i as int)),
        decreases args@.len() - i,
    {
        let ghost prev = argv@;
        let key = crate::text::fmt_u64(i as u64);
        let val = NativeVal::Str(vstd::slice::slice_to_vec(args[i].as_slice()));
        argv.push((key, val));
        proof {
            assert(argv@.drop_last() =~= prev);
            crate::jx9::native::lemma_entries_view_len(argv@);
            crate::jx9::native::lemma_entries_view_len(prev);
            assert(entries_view(argv@) =~= entries_view(prev).push(
                (argv@.last().0@, nval_view(argv@.last().1)),
            ));
            assert(args_v.take(i + 1).drop_last() =~= args_v.take(i as int));
            assert(args_v.take(i + 1).len() == i + 1);
            assert(argv_entries(args_v.take(i + 1)) =~= argv_entries(args_v.take(i as int)).push(
                (dec_u64(i as nat), NVal::Str(args_v[i as int])),
            ));
            assert(entries_view(argv@) =~= argv_entries(args_v.take(i + 1)));
        }
        i = i + 1;
    }
    proof {
        assert(args_v.take(args_v.len() as int) =~= args_v);
    }

    // the environment object
    let mut env_entries: Vec<(Vec<u8>, NativeVal)> = Vec::new();
    let mut j: usize = 0;
    proof {
        assert(entries_view(env_entries@) =~= env_nval_entries(env_v.take(0)));
    }
    while j < env.len()
        invariant
            0 <= j <= env@.len(),
            env_entries@.len() == j,
            env_v.len() == env@.len(),
            forall|k: int| 0 <= k < env@.len() ==> #[trigger] env_v[k] == (env@[k].0@, env@[k].1@),
            entries_view(env_entries@) == env_nval_entries(env_v.take(j as int)),
        decreases env@.len() - j,
    {
        let ghost prev = env_entries@;
        let key = vstd::slice::slice_to_vec(env[j].0.as_slice());
        let val = NativeVal::Str(vstd::slice::slice_to_vec(env[j].1.as_slice()));
        env_entries.push((key, val));
        proof {
            assert(env_entries@.drop_last() =~= prev);
            crate::jx9::native::lemma_entries_view_len(env_entries@);
            crate::jx9::native::lemma_entries_view_len(prev);
            assert(entries_view(env_entries@) =~= entries_view(prev).push(
                (env_entries@.last().0@, nval_view(env_entries@.last().1)),
            ));
            assert(env_v.take(j + 1).drop_last() =~= env_v.take(j as int));
            assert(env_nval_entries(env_v.take(j + 1)) =~= env_nval_entries(
                env_v.take(j as int),
            ).push((env_v[j as int].0, NVal::Str(env_v[j as int].1))));
            assert(entries_view(env_entries@) =~= env_nval_entries(env_v.take(j + 1)));
        }
        j = j + 1;
    }
    proof {
        assert(env_v.take(env_v.len() as int) =~= env_v);
    }

    let mut argv_name: Vec<u8> = Vec::new();
    argv_name.push(97);
    argv_name.push(114);
    argv_name.push(103);
    argv_name.push(118);
    let mut env_name: Vec<u8> = Vec::new();
    env_name.push(95);
    env_name.push(69);
    env_name.push(78);
    env_name.push(86);
    proof {
        assert(argv_name@ =~= seq![97u8, 114u8, 103u8, 118u8]);
        assert(env_name@ =~= seq![95u8, 69u8, 78u8, 86u8]);
    }
    let ghost before_argv = entries_view(out@);
    let ghost prev_vec1 = out@;
    out.push((argv_name, NativeVal::Hash(NContainer { entries: argv, json_object: false })));
    proof {
        assert(out@.drop_last() =~= prev_vec1);
        crate::jx9::native::lemma_entries_view_len(out@);
        crate::jx9::native::lemma_entries_view_len(prev_vec1);
        assert(entries_view(out@) =~= before_argv.push(
            (out@.last().0@, nval_view(out@.last().1)),
        ));
    }
    let ghost before_env = entries_view(out@);
    let ghost prev_vec2 = out@;
    out.push((env_name, NativeVal::Hash(NContainer { entries: env_entries, json_object: true })));
    proof {
        assert(out@.drop_last() =~= prev_vec2);
        crate::jx9::native::lemma_entries_view_len(out@);
        crate::jx9::native::lemma_entries_view_len(prev_vec2);
        assert(entries_view(out@) =~= before_env.push((out@.last().0@, nval_view(out@.last().1))));
        assert(entries_view(out@) =~= initial_scope_of(base, args_v, env_v));
    }
    out
}

} // verus!
