//! Script compiler interface and the virtual-machine session.
//!
//! A session owns one compiled program.  It is configured (output target,
//! injected variables, positional arguments, environment attributes), run
//! one or more times — each run after the first starts with an implicit
//! reset that discards the accumulated output — and read back: the return
//! value, the buffered output, and the program's variables.
//!
//! Output is routed by the bound sink: the engine's own buffer, the
//! process's standard output, or a channel whose receiving end the caller
//! consumes.  The stream and queue sinks deliver best-effort: a failed
//! write or a dropped receiver never stops execution.

use vstd::prelude::*;

use crate::error::{Custom, Error};
use crate::jx9::ast::{stmt_view, stmts_view, Program, Stmt, StmtS};
use crate::jx9::interp::{
    chunks_view, h_get, h_has, h_set, initial_scope_of, vm_run, RunRes,
};
use crate::jx9::native::{entries_view, nval_view, NativeVal, NVal};
use crate::jx9::parse::{parse_program, sp_program};
use crate::text::has_nul;
use crate::vars::{UNQLITE_COMPILE_ERR, UNQLITE_VM_ERR};
use crate::UnQLite;
use crate::document::vm_value::{
    build_native, native_of, to_value, val_view, value_of, vval_nul_free, Value,
};

verus! {

use crate::error::wrapped;

/// Where the machine's output goes.
#[derive(Clone, Copy, Debug, PartialEq, Eq, Structural)]
pub enum SinkKind {
    /// The engine buffers output internally; the caller pulls it after the
    /// run.
    Buffer,
    /// Each chunk is written to the process's standard output at once.
    Stream,
    /// Each chunk is pushed onto a channel for another consumer.
    Queue,
}

/// Ghost model of a virtual-machine session.
#[verifier::ext_equal]
pub struct VmView {
    /// The compiled program's statements, in ghost form.
    pub prog: Seq<StmtS>,
    /// A run has happened since the last reset.
    pub executed: bool,
    /// The foreign variables registered for the program, by name.
    pub vars: Seq<(Seq<u8>, NVal)>,
    /// The positional arguments, in order.
    pub args: Seq<Seq<u8>>,
    /// The environment attributes, by key.
    pub env: Seq<(Seq<u8>, Seq<u8>)>,
    /// The names registered so far, kept alive for the program's life.
    pub names: Seq<Seq<u8>>,
    /// The bound output sink.
    pub sink: SinkKind,
    /// A queue sink's sending half is installed.
    pub sink_connected: bool,
    /// The engine's output buffer (filled only by the buffer sink).
    pub out_buf: Seq<u8>,
    /// Total bytes output since the last reset, saturating.
    pub out_len: u32,
    /// The program's variable scope after the last run, if any ran.
    pub last_scope: Option<Seq<(Seq<u8>, NVal)>>,
    /// The value the last successful run returned, absent when it ran to
    /// its end without a `return`.
    pub exec_val: Option<NVal>,
    /// The import search paths configured so far.
    pub import_paths: Seq<Seq<u8>>,
    /// The configured recursion limit.
    pub recursion_limit: i32,
    /// Run-time errors are reported to the machine's output.
    pub report_errors: bool,
}

/// A session fresh from the compiler: nothing configured, nothing run.
pub open spec fn fresh_vm(v: VmView) -> bool {
    &&& !v.executed
    &&& v.vars =~= Seq::<(Seq<u8>, NVal)>::empty()
    &&& v.args =~= Seq::<Seq<u8>>::empty()
    &&& v.env =~= Seq::<(Seq<u8>, Seq<u8>)>::empty()
    &&& v.names =~= Seq::<Seq<u8>>::empty()
    &&& v.sink == SinkKind::Buffer
    &&& !v.sink_connected
    &&& v.out_buf =~= Seq::<u8>::empty()
    &&& v.out_len == 0
    &&& v.last_scope is None
    &&& v.exec_val is None
}

/// The scope a run starts from: the registered foreign variables, then the
/// predefined argument array and environment object.
pub open spec fn start_scope(v: VmView) -> Seq<(Seq<u8>, NVal)> {
    initial_scope_of(v.vars, v.args, v.env)
}

/// The session after its implicit or explicit reset: accumulated output is
/// discarded and the program counter returns to the start; variable
/// injections and the sink binding stay.
pub open spec fn reset_view(v: VmView) -> VmView {
    VmView { executed: false, out_buf: Seq::<u8>::empty(), out_len: 0, ..v }
}

/// What running the session's program once yields.
pub open spec fn run_of(v: VmView) -> RunRes {
    vm_run(v.prog, start_scope(v))
}

/// Total byte count of the output chunks.
pub open spec fn chunks_total(out: Seq<Seq<u8>>) -> nat
    decreases out,
{
    if out.len() == 0 {
        0
    } else {
        chunks_total(out.drop_last()) + out.last().len()
    }
}

/// The output chunks joined into one byte string.
pub open spec fn cat_chunks(out: Seq<Seq<u8>>) -> Seq<u8>
    decreases out,
{
    if out.len() == 0 {
        Seq::<u8>::empty()
    } else {
        cat_chunks(out.drop_last()) + out.last()
    }
}

/// A byte count clamped to the 32-bit counter the engine interface
/// reports.
pub open spec fn sat32(n: nat) -> u32 {
    if n > 0xffff_ffffnat {
        0xffff_ffffu32
    } else {
        n as u32
    }
}

/// The session after one execution: the implicit reset when a run had
/// already happened, then the run, with its output routed by the sink and
/// its results stored.
pub open spec fn after_exec(v: VmView) -> VmView {
    let v1 = reset_view(v);
    let res = run_of(v1);
    VmView {
        executed: true,
        out_buf: if v1.sink == SinkKind::Buffer {
            cat_chunks(res.out)
        } else {
            Seq::<u8>::empty()
        },
        out_len: sat32(chunks_total(res.out)),
        last_scope: Some(res.sc),
        exec_val: if res.err {
            None
        } else {
            res.ret
        },
        ..v1
    }
}

/// Whether one execution of the session succeeds.
pub open spec fn exec_ok(v: VmView) -> bool {
    !run_of(reset_view(v)).err
}

/// The scope `extract_variable` reads: the last run's final scope, or the
/// registered variables when nothing has run yet.
pub open spec fn extract_scope(v: VmView) -> Seq<(Seq<u8>, NVal)> {
    match v.last_scope {
        Some(sc) => sc,
        None => v.vars,
    }
}

/// Script compiler interface of the database handle.
pub trait Jx9 {
    /// Compile script source to a program owned by a fresh session.
    fn compile(&self, jx9: &[u8]) -> Result<UnQLiteVm, Error>;
}

impl Jx9 for UnQLite {
    /// Compile script source.
    ///
    /// Compilation succeeds exactly when the source is in the accepted
    /// grammar — the ghost reading [`sp_program`] accepts it — and then the
    /// fresh session owns exactly the program that source denotes.  Source
    /// outside the grammar reports a compilation error.
    fn compile(&self, jx9: &[u8]) -> (r: Result<UnQLiteVm, Error>)
        ensures
            r is Ok <==> sp_program(jx9@) is Some,
            r matches Ok(vm) ==> fresh_vm(vm@) && Some(vm@.prog) == sp_program(jx9@),
            r is Err ==> r == Err::<UnQLiteVm, Error>(wrapped(UNQLITE_COMPILE_ERR)->Err_0),
    {
        match parse_program(jx9) {
            Ok(program) => Ok(UnQLiteVm::fresh(program)),
            Err(_) => {
                match Custom::from_raw(UNQLITE_COMPILE_ERR) {
                    Err(e) => Err(e),
                    Ok(_) => vstd::pervasive::unreached(),
                }
            },
        }
    }
}

/// A virtual-machine session: one compiled program, its configuration, and
/// what its runs produced.
pub struct UnQLiteVm {
    pub(crate) program: Program,
    pub(crate) executed: bool,
    pub(crate) vars: Vec<(Vec<u8>, NativeVal)>,
    pub(crate) args: Vec<Vec<u8>>,
    pub(crate) env: Vec<(Vec<u8>, Vec<u8>)>,
    pub(crate) names: Vec<Vec<u8>>,
    pub(crate) sink: SinkKind,
    pub(crate) sender: Option<std::sync::mpsc::Sender<Vec<u8>>>,
    pub(crate) out_buf: Vec<u8>,
    pub(crate) out_len: u32,
    pub(crate) last_scope: Option<Vec<(Vec<u8>, NativeVal)>>,
    pub(crate) exec_val: Option<NativeVal>,
    pub(crate) import_paths: Vec<Vec<u8>>,
    pub(crate) recursion_limit: i32,
    pub(crate) report_errors: bool,
}

/// Ghost model of a list of byte strings.
pub open spec fn bytes_list_view(s: Seq<Vec<u8>>) -> Seq<Seq<u8>> {
    Seq::new(s.len(), |i: int| s[i]@)
}

/// Ghost model of a list of byte-string pairs.
pub open spec fn byte_pairs_view(s: Seq<(Vec<u8>, Vec<u8>)>) -> Seq<(Seq<u8>, Seq<u8>)> {
    Seq::new(s.len(), |i: int| (s[i].0@, s[i].1@))
}

impl UnQLiteVm {
    /// The ghost model assembled from the session's fields.
    pub open(crate) spec fn model(&self) -> VmView {
        VmView {
            prog: stmts_view(self.program.stmts@),
            executed: self.executed,
            vars: entries_view(self.vars@),
            args: bytes_list_view(self.args@),
            env: byte_pairs_view(self.env@),
            names: bytes_list_view(self.names@),
            sink: self.sink,
            sink_connected: self.sender is Some,
            out_buf: self.out_buf@,
            out_len: self.out_len,
            last_scope: match self.last_scope {
                Some(sc) => Some(entries_view(sc@)),
                None => None,
            },
            exec_val: match self.exec_val {
                Some(n) => Some(nval_view(n)),
                None => None,
            },
            import_paths: bytes_list_view(self.import_paths@),
            recursion_limit: self.recursion_limit,
            report_errors: self.report_errors,
        }
    }
}

impl View for UnQLiteVm {
    type V = VmView;

    closed spec fn view(&self) -> VmView {
        self.model()
    }
}

impl UnQLiteVm {
    /// A fresh session around a compiled program.
    pub(crate) fn fresh(program: Program) -> (vm: UnQLiteVm)
        ensures
            fresh_vm(vm@),
            vm@.prog == stmts_view(program.stmts@),
    {
        UnQLiteVm {
            program,
            executed: false,
            vars: Vec::new(),
            args: Vec::new(),
            env: Vec::new(),
            names: Vec::new(),
            sink: SinkKind::Buffer,
            sender: None,
            out_buf: Vec::new(),
            out_len: 0,
            last_scope: None,
            exec_val: None,
            import_paths: Vec::new(),
            recursion_limit: 0,
            report_errors: false,
        }
    }
}

} // verus!

// The trusted boundary: the channel the queue sink feeds and the process's
// standard output.

verus! {

#[verifier::external_type_specification]
#[verifier::external_body]
#[verifier::reject_recursive_types(T)]
pub struct ExSender<T>(std::sync::mpsc::Sender<T>);

#[verifier::external_type_specification]
#[verifier::external_body]
#[verifier::reject_recursive_types(T)]
pub struct ExReceiver<T>(std::sync::mpsc::Receiver<T>);

/// Relies on `std::sync::mpsc::channel`: a fresh connected sending half and
/// receiving half.  Nothing further is assumed of the pair.
#[verifier::external_body]
fn new_channel() -> (std::sync::mpsc::Sender<Vec<u8>>, std::sync::mpsc::Receiver<Vec<u8>>) {
    std::sync::mpsc::channel()
}

/// Relies on `std::sync::mpsc::Sender::send`: the chunk is delivered when
/// the receiving half still lives, and returns an error otherwise.  The
/// queue sink treats either outcome as success, so the result is discarded
/// here and nothing is assumed of it.
#[verifier::external_body]
fn send_chunk(sender: &std::sync::mpsc::Sender<Vec<u8>>, chunk: Vec<u8>) {
    let _ = sender.send(chunk);
}

/// Relies on `std::io::Write::write_all` on the process's standard output.
/// The stream sink promises best-effort delivery only, so a write failure
/// is absorbed and nothing is assumed of the call.
#[verifier::external_body]
fn write_stdout(bytes: &[u8]) {
    let _ = std::io::Write::write_all(&mut std::io::stdout(), bytes);
}

} // verus!

// Execution, output control, and variable traffic.

verus! {

use crate::jx9::interp::vm_exec;
use vstd::string::StrSliceExecFns;

/// Append bytes to a buffer.
fn push_bytes(out: &mut Vec<u8>, b: &[u8])
    ensures
        final(out)@ == old(out)@ + b@,
{
    let mut i: usize = 0;
    while i < b.len()
        invariant
            0 <= i <= b@.len(),
            out@ == old(out)@ + b@.take(i as int),
        decreases b@.len() - i,
    {
        out.push(b[i]);
        proof {
            assert(out@ =~= old(out)@ + b@.take(i + 1));
        }
        i = i + 1;
    }
    proof {
        assert(b@.take(b@.len() as int) =~= b@);
        assert(final(out)@ =~= old(out)@ + b@);
    }
}

/// Add a byte count to the saturating 32-bit output counter.
fn sat_add_u32(a: u32, b: usize) -> (r: u32)
    ensures
        r == sat32(a as nat + b as nat),
{
    let b64: u64 = b as u64;
    if b64 > 0xffff_ffffu64 {
        return 0xffff_ffffu32;
    }
    let sum: u64 = (a as u64) + b64;
    if sum > 0xffff_ffffu64 {
        0xffff_ffffu32
    } else {
        sum as u32
    }
}

impl UnQLiteVm {
    /// Return the machine to its initial state: accumulated output is
    /// discarded; variable injections and the sink binding stay.
    fn reset(&mut self) -> (r: Result<(), Error>)
        ensures
            r is Ok,
            final(self)@ == reset_view(old(self)@),
            final(self).program == old(self).program,
            final(self).vars == old(self).vars,
            final(self).args == old(self).args,
            final(self).env == old(self).env,
            final(self).names == old(self).names,
            final(self).sink == old(self).sink,
            final(self).sender == old(self).sender,
            final(self).last_scope == old(self).last_scope,
            final(self).exec_val == old(self).exec_val,
            final(self).import_paths == old(self).import_paths,
            final(self).recursion_limit == old(self).recursion_limit,
            final(self).report_errors == old(self).report_errors,
    {
        self.executed = false;
        self.out_buf = Vec::new();
        self.out_len = 0;
        proof {
            assert(final(self)@ =~= reset_view(old(self)@));
        }
        Ok(())
    }

    /// Execute the compiled program, discarding its return value.
    ///
    /// A session that has already run is implicitly reset first.  The run's
    /// output chunks go to the bound sink and are counted; its final
    /// variable scope and return slot are stored.  A run stopped by a
    /// machine error reports `VM_ERR`, with the output emitted up to that
    /// point kept.
    #[verifier::loop_isolation(false)]
    pub fn exec_void(&mut self) -> (r: Result<(), Error>)
        ensures
            final(self)@ == after_exec(old(self)@),
            exec_ok(old(self)@) ==> r is Ok,
            !exec_ok(old(self)@) ==> r == wrapped(UNQLITE_VM_ERR),
    {
        let _ = self.reset();
        let ghost v1 = self@;
        let scope = crate::jx9::interp::build_start_scope(&self.vars, &self.args, &self.env);
        proof {
            assert(entries_view(scope@) == start_scope(v1));
        }
        let outcome = vm_exec(&self.program, scope);
        let ghost res = run_of(v1);
        proof {
            assert(chunks_view(outcome.chunks@) == res.out);
        }
        // route the output chunks to the bound sink, counting their bytes
        let mut idx: usize = 0;
        proof {
            assert(res.out.take(0) =~= Seq::<Seq<u8>>::empty());
            assert(self@.out_buf =~= Seq::<u8>::empty());
            assert(self@.out_buf =~= cat_chunks(res.out.take(0)));
        }
        while idx < outcome.chunks.len()
            invariant
                0 <= idx <= outcome.chunks@.len(),
                chunks_view(outcome.chunks@) == res.out,
                res.out.len() == outcome.chunks@.len(),
                self.out_len == sat32(chunks_total(res.out.take(idx as int))),
                self.sink == v1.sink,
                self.sender == old(self).sender,
                v1.sink == SinkKind::Buffer ==> self.out_buf@ == cat_chunks(
                    res.out.take(idx as int),
                ),
                v1.sink != SinkKind::Buffer ==> self.out_buf@ == Seq::<u8>::empty(),
                self.program == old(self).program,
                self.executed == v1.executed,
                self.vars == old(self).vars,
                self.args == old(self).args,
                self.env == old(self).env,
                self.names == old(self).names,
                self.last_scope == old(self).last_scope,
                self.exec_val == old(self).exec_val,
                self.import_paths == old(self).import_paths,
                self.recursion_limit == old(self).recursion_limit,
                self.report_errors == old(self).report_errors,
            decreases outcome.chunks@.len() - idx,
        {
            let chunk = &outcome.chunks[idx];
            proof {
                assert(res.out[idx as int] == outcome.chunks@[idx as int]@);
                assert(res.out.take(idx + 1).drop_last() =~= res.out.take(idx as int));
                assert(chunks_total(res.out.take(idx + 1)) == chunks_total(
                    res.out.take(idx as int),
                ) + res.out[idx as int].len());
            }
            self.out_len = sat_add_u32(self.out_len, chunk.len());
            match self.sink {
                SinkKind::Buffer => {
                    push_bytes(&mut self.out_buf, chunk.as_slice());
                    proof {
                        assert(cat_chunks(res.out.take(idx + 1)) =~= cat_chunks(
                            res.out.take(idx as int),
                        ) + res.out[idx as int]);
                    }
                },
                SinkKind::Stream => {
                    write_stdout(chunk.as_slice());
                },
                SinkKind::Queue => {
                    let copy = vstd::slice::slice_to_vec(chunk.as_slice());
                    match &self.sender {
                        Some(s) => {
                            send_chunk(s, copy);
                        },
                        None => {},
                    }
                },
            }
            idx = idx + 1;
        }
        proof {
            assert(res.out.take(res.out.len() as int) =~= res.out);
        }
        self.executed = true;
        self.last_scope = Some(outcome.scope);
        self.exec_val = if outcome.err {
            None
        } else {
            outcome.ret
        };
        proof {
            assert(final(self)@ =~= after_exec(old(self)@));
        }
        if outcome.err {
            match Custom::from_raw(UNQLITE_VM_ERR) {
                Err(e) => Err(e),
                Ok(_) => vstd::pervasive::unreached(),
            }
        } else {
            Ok(())
        }
    }

    /// Execute the compiled program and decode its return value: the value
    /// of the `return` that ended the run, or absent when the program ran
    /// to its end without producing one.
    pub fn exec(&mut self) -> (r: Result<Option<Value>, Error>)
        ensures
            final(self)@ == after_exec(old(self)@),
            exec_ok(old(self)@) ==> (r matches Ok(ov) && (match (
                ov,
                after_exec(old(self)@).exec_val,
            ) {
                (Some(v), Some(nv)) => val_view(v) == value_of(nv),
                (None, None) => true,
                _ => false,
            })),
            !exec_ok(old(self)@) ==> r == Err::<Option<Value>, Error>(
                wrapped(UNQLITE_VM_ERR)->Err_0,
            ),
    {
        match self.exec_void() {
            Ok(_) => {
                match &self.exec_val {
                    Some(n) => {
                        match to_value(Some(n)) {
                            Some(v) => Ok(Some(v)),
                            None => vstd::pervasive::unreached(),
                        }
                    },
                    None => Ok(None),
                }
            },
            Err(e) => Err(e),
        }
    }

    /// Emit a human-readable listing of the compiled program — the bytes
    /// `render_s` assigns to it — to the process's standard output,
    /// independent of the bound sink.
    pub fn dump(&self) -> (r: Result<(), Error>)
        ensures
            r is Ok,
    {
        let listing = render_stmts(&self.program.stmts);
        proof {
            assert(listing@ == render_s(self@.prog));
        }
        write_stdout(listing.as_slice());
        Ok(())
    }

    /// Redirect machine output to a channel and hand back its receiving
    /// end.  Binding again replaces the previous channel: an earlier
    /// receiver gets nothing further and reports itself closed once the old
    /// sending half is dropped.  Takes effect for the next run.
    pub fn output_to_channel(&mut self) -> (r: Result<
        std::sync::mpsc::Receiver<Vec<u8>>,
        Error,
    >)
        ensures
            r is Ok,
            final(self)@ == (VmView {
                sink: SinkKind::Queue,
                sink_connected: true,
                ..old(self)@
            }),
    {
        let (tx, rx) = new_channel();
        self.sender = Some(tx);
        self.sink = SinkKind::Queue;
        proof {
            assert(final(self)@ =~= (VmView {
                sink: SinkKind::Queue,
                sink_connected: true,
                ..old(self)@
            }));
        }
        Ok(rx)
    }

    /// Redirect machine output to the process's standard output, replacing
    /// any prior binding.  Takes effect for the next run.
    pub fn output_to_stdout(&mut self) -> (r: Result<(), Error>)
        ensures
            r is Ok,
            final(self)@ == (VmView {
                sink: SinkKind::Stream,
                sink_connected: false,
                ..old(self)@
            }),
    {
        self.sender = None;
        self.sink = SinkKind::Stream;
        proof {
            assert(final(self)@ =~= (VmView {
                sink: SinkKind::Stream,
                sink_connected: false,
                ..old(self)@
            }));
        }
        Ok(())
    }

    /// A read-only view of the output buffered by the engine.  Meaningful
    /// after a run with no other sink bound; with another sink bound the
    /// buffer stays empty.
    pub fn extract_output(&self) -> (r: Result<&[u8], Error>)
        ensures
            r matches Ok(b) && b@ == self@.out_buf,
    {
        Ok(self.out_buf.as_slice())
    }

    /// Total bytes the machine has output since the last reset, whatever
    /// sink consumed them (clamped to the interface's 32-bit counter).
    pub fn output_length(&self) -> (r: Result<u32, Error>)
        ensures
            r == Ok::<u32, Error>(self@.out_len),
    {
        Ok(self.out_len)
    }

    /// Add a path to the import search directories.  A path holding an
    /// embedded terminator byte is rejected before the engine sees it.
    /// Takes effect for the next run.
    pub fn import_path(&mut self, path: &str) -> (r: Result<(), Error>)
        ensures
            has_nul(vstd::utf8::encode_utf8(path@)) ==> r == Err::<(), Error>(Error::Nul)
                && final(self)@ == old(self)@,
            !has_nul(vstd::utf8::encode_utf8(path@)) ==> r is Ok && final(self)@ == (VmView {
                import_paths: old(self)@.import_paths.push(vstd::utf8::encode_utf8(path@)),
                ..old(self)@
            }),
    {
        let bytes = path.as_bytes_vec();
        if crate::text::contains_nul(bytes.as_slice()) {
            return Err(Error::Nul);
        }
        self.import_paths.push(bytes);
        proof {
            assert(bytes_list_view(self.import_paths@) =~= old(self)@.import_paths.push(
                vstd::utf8::encode_utf8(path@),
            ));
            assert(final(self)@ =~= (VmView {
                import_paths: old(self)@.import_paths.push(vstd::utf8::encode_utf8(path@)),
                ..old(self)@
            }));
        }
        Ok(())
    }

    /// Report run-time errors of the program to the machine's output.
    /// Takes effect for the next run.
    pub fn report_errors_to_output(&mut self) -> (r: Result<(), Error>)
        ensures
            r is Ok,
            final(self)@ == (VmView { report_errors: true, ..old(self)@ }),
    {
        self.report_errors = true;
        proof {
            assert(final(self)@ =~= (VmView { report_errors: true, ..old(self)@ }));
        }
        Ok(())
    }

    /// Bound how deep the program's functions may recurse.  Takes effect
    /// for the next run.
    pub fn recursion_depth(&mut self, max_depth: i32) -> (r: Result<(), Error>)
        ensures
            r is Ok,
            final(self)@ == (VmView { recursion_limit: max_depth, ..old(self)@ }),
    {
        self.recursion_limit = max_depth;
        proof {
            assert(final(self)@ =~= (VmView { recursion_limit: max_depth, ..old(self)@ }));
        }
        Ok(())
    }

    /// Append one positional argument: the first call fills slot zero of
    /// the predefined argument array, the next slot one, and so on.  An
    /// argument holding an embedded terminator byte is rejected before the
    /// engine sees it.  Takes effect for the next run.
    pub fn add_argument(&mut self, arg: &[u8]) -> (r: Result<(), Error>)
        ensures
            has_nul(arg@) ==> r == Err::<(), Error>(Error::Nul) && final(self)@ == old(self)@,
            !has_nul(arg@) ==> r is Ok && final(self)@ == (VmView {
                args: old(self)@.args.push(arg@),
                ..old(self)@
            }),
    {
        if crate::text::contains_nul(arg) {
            return Err(Error::Nul);
        }
        self.args.push(vstd::slice::slice_to_vec(arg));
        proof {
            assert(bytes_list_view(self.args@) =~= old(self)@.args.push(arg@));
            assert(final(self)@ =~= (VmView { args: old(self)@.args.push(arg@), ..old(self)@ }));
        }
        Ok(())
    }

    /// Set one attribute of the predefined environment object, replacing
    /// the value when the key is already set.  A key holding an embedded
    /// terminator byte is rejected before the engine sees it; the value may
    /// hold any bytes.  Takes effect for the next run.
    #[verifier::loop_isolation(false)]
    pub fn add_env_attr(&mut self, key: &[u8], value: &[u8]) -> (r: Result<(), Error>)
        ensures
            has_nul(key@) ==> r == Err::<(), Error>(Error::Nul) && final(self)@ == old(self)@,
            !has_nul(key@) ==> r is Ok && final(self)@ == (VmView {
                env: env_set(old(self)@.env, key@, value@),
                ..old(self)@
            }),
    {
        if crate::text::contains_nul(key) {
            return Err(Error::Nul);
        }
        let ghost ev = byte_pairs_view(self.env@);
        let mut i: usize = 0;
        while i < self.env.len()
            invariant
                0 <= i <= self.env@.len(),
                *self == *old(self),
                self.env@ == old(self).env@,
                ev == byte_pairs_view(self.env@),
                ev.len() == self.env@.len(),
                forall|j: int|
                    0 <= j < self.env@.len() ==> #[trigger] ev[j] == (
                        self.env@[j].0@,
                        self.env@[j].1@,
                    ),
                forall|j: int| 0 <= j < i ==> (#[trigger] ev[j]).0 != key@,
            decreases self.env@.len() - i,
        {
            if crate::bytes_eq(self.env[i].0.as_slice(), key) {
                proof {
                    lemma_env_first(ev, key@, i as int);
                }
                let ghost prev = self.env@;
                let slot = &mut self.env[i];
                slot.1 = vstd::slice::slice_to_vec(value);
                proof {
                    assert(self.env@ =~= prev.update(i as int, self.env@[i as int]));
                    assert(byte_pairs_view(self.env@) =~= ev.update(i as int, (key@, value@)));
                    assert(byte_pairs_view(self.env@) =~= env_set(ev, key@, value@));
                    assert(self@.env == env_set(old(self)@.env, key@, value@));
                    assert(self@.prog == old(self)@.prog);
                    assert(self@.vars == old(self)@.vars);
                    assert(self@.args == old(self)@.args);
                    assert(self@.names == old(self)@.names);
                    assert(self@.last_scope == old(self)@.last_scope);
                    assert(self@.exec_val == old(self)@.exec_val);
                    assert(self@.import_paths == old(self)@.import_paths);
                    assert(final(self)@ =~= (VmView {
                        env: env_set(old(self)@.env, key@, value@),
                        ..old(self)@
                    }));
                }
                return Ok(());
            }
            i = i + 1;
        }
        self.env.push((vstd::slice::slice_to_vec(key), vstd::slice::slice_to_vec(value)));
        proof {
            assert(byte_pairs_view(self.env@) =~= ev.push((key@, value@)));
            assert(byte_pairs_view(self.env@) =~= env_set(ev, key@, value@));
            assert(self@.env == env_set(old(self)@.env, key@, value@));
            assert(self@.vars == old(self)@.vars);
            assert(self@.args == old(self)@.args);
            assert(final(self)@ =~= (VmView {
                env: env_set(old(self)@.env, key@, value@),
                ..old(self)@
            }));
        }
        Ok(())
    }

    /// Build the engine-owned native value for a host value: a scalar
    /// allocation for scalar values, a container allocation for arrays and
    /// objects, populated as the value directs.  The handle comes back in
    /// an owning guard that releases it on every exit path.
    fn new_variable(&self, value: &Value) -> (r: Result<RawValue, Error>)
        ensures
            vval_nul_free(val_view(*value)) ==> (r matches Ok(rv) && rv.raw_view() == native_of(
                val_view(*value),
            )),
            !vval_nul_free(val_view(*value)) ==> r == Err::<RawValue, Error>(Error::Nul),
    {
        match build_native(value) {
            Ok(n) => Ok(RawValue::new(n)),
            Err(e) => Err(e),
        }
    }

    /// Register a foreign variable under `name`, visible to the program.
    /// The session keeps its own copy of the name for the program's life.
    /// A name, string or key holding an embedded terminator byte is
    /// rejected before the engine sees anything.  Takes effect for the
    /// next run.
    pub fn add_variable(&mut self, name: &[u8], value: Value) -> (r: Result<(), Error>)
        ensures
            has_nul(name@) ==> r == Err::<(), Error>(Error::Nul) && final(self)@ == old(self)@,
            !has_nul(name@) && !vval_nul_free(val_view(value)) ==> r == Err::<(), Error>(
                Error::Nul,
            ) && final(self)@ == old(self)@,
            !has_nul(name@) && vval_nul_free(val_view(value)) ==> r is Ok && final(self)@
                == (VmView {
                vars: h_set(old(self)@.vars, name@, native_of(val_view(value))),
                names: old(self)@.names.push(name@),
                ..old(self)@
            }),
    {
        if crate::text::contains_nul(name) {
            return Err(Error::Nul);
        }
        let guard = match self.new_variable(&value) {
            Ok(rv) => rv,
            Err(e) => {
                return Err(e);
            },
        };
        // registration copies the handle's data; the guard still releases
        // the handle itself afterwards
        let installed = crate::jx9::interp::clone_native(guard.as_ptr());
        self.names.push(vstd::slice::slice_to_vec(name));
        crate::jx9::interp::scope_set(&mut self.vars, vstd::slice::slice_to_vec(name), installed);
        proof {
            assert(bytes_list_view(self.names@) =~= old(self)@.names.push(name@));
            assert(final(self)@ =~= (VmView {
                vars: h_set(old(self)@.vars, name@, native_of(val_view(value))),
                names: old(self)@.names.push(name@),
                ..old(self)@
            }));
        }
        Ok(())
    }

    /// Decode the variable bound to `name`: from the program's final scope
    /// after a run, or from the registered variables before any run.
    /// Absent — a name never bound, or one the engine's string
    /// representation cannot carry — is `None`, which is distinct from a
    /// present variable holding the null value.
    pub fn extract_variable(&self, name: &[u8]) -> (r: Option<Value>)
        ensures
            has_nul(name@) ==> r is None,
            !has_nul(name@) && !h_has(extract_scope(self@), name@) ==> r is None,
            !has_nul(name@) && h_has(extract_scope(self@), name@) ==> (r matches Some(v)
                && val_view(v) == value_of(h_get(extract_scope(self@), name@))),
    {
        if crate::text::contains_nul(name) {
            return None;
        }
        let scope: &Vec<(Vec<u8>, NativeVal)> = match &self.last_scope {
            Some(sc) => sc,
            None => &self.vars,
        };
        proof {
            assert(entries_view(scope@) == extract_scope(self@));
            crate::jx9::native::lemma_entries_view_len(scope@);
        }
        match crate::jx9::interp::find_entry(scope, name) {
            Some(i) => {
                proof {
                    assert(h_get(extract_scope(self@), name@) == nval_view(
                        scope@[i as int].1,
                    ));
                }
                match to_value(Some(&scope[i].1)) {
                    Some(v) => Some(v),
                    None => vstd::pervasive::unreached(),
                }
            },
            None => None,
        }
    }
}

/// The environment attribute list binds the key.
pub open spec fn env_has(env: Seq<(Seq<u8>, Seq<u8>)>, k: Seq<u8>) -> bool {
    exists|i: int| 0 <= i < env.len() && (#[trigger] env[i]).0 == k
}

/// Position of the first binding of the key.
pub open spec fn env_first_idx(env: Seq<(Seq<u8>, Seq<u8>)>, k: Seq<u8>) -> int
    decreases env.len(),
{
    if env.len() == 0 {
        0
    } else if env[0].0 == k {
        0
    } else {
        1 + env_first_idx(env.drop_first(), k)
    }
}

/// Set the attribute: the first binding is replaced in place, or the pair
/// is added at the end when the key is unset.
pub open spec fn env_set(env: Seq<(Seq<u8>, Seq<u8>)>, k: Seq<u8>, v: Seq<u8>) -> Seq<
    (Seq<u8>, Seq<u8>),
> {
    if env_has(env, k) {
        env.update(env_first_idx(env, k), (k, v))
    } else {
        env.push((k, v))
    }
}

/// A position whose earlier pairs all miss the key is the first binding.
pub proof fn lemma_env_first(env: Seq<(Seq<u8>, Seq<u8>)>, k: Seq<u8>, i: int)
    requires
        0 <= i < env.len(),
        env[i].0 == k,
        forall|j: int| 0 <= j < i ==> (#[trigger] env[j]).0 != k,
    ensures
        env_has(env, k),
        env_first_idx(env, k) == i,
    decreases i,
{
    if i > 0 {
        lemma_env_first(env.drop_first(), k, i - 1);
    }
}

/// An owning guard around a native value handle: it holds the handle for
/// the duration of one configuration or extraction call and releases it
/// when it goes out of scope, on every exit path.
pub struct RawValue {
    pub(crate) raw: NativeVal,
}

impl RawValue {
    /// Ghost model of the wrapped handle.
    pub closed spec fn raw_view(&self) -> NVal {
        nval_view(self.raw)
    }

    /// Wrap a freshly built native value handle.
    pub fn new(raw: NativeVal) -> (r: RawValue)
        ensures
            r.raw_view() == nval_view(raw),
    {
        RawValue { raw }
    }

    /// The wrapped handle, for handing to the engine; the guard keeps
    /// ownership.
    pub fn as_ptr(&self) -> (r: &NativeVal)
        ensures
            nval_view(*r) == self.raw_view(),
    {
        &self.raw
    }
}

/// The listing of one statement: an instruction line, with a branching
/// statement's blocks rendered braced between its lines.
pub open spec fn stmt_render(s: StmtS) -> Seq<u8>
    decreases s, 0int,
{
    match s {
        StmtS::Print(_) => seq![80u8, 82u8, 73u8, 78u8, 84u8, 10u8],
        StmtS::Ret(_) => seq![82u8, 69u8, 84u8, 85u8, 82u8, 78u8, 10u8],
        StmtS::Assign(n, _) => seq![83u8, 84u8, 79u8, 82u8, 69u8, 32u8, 36u8] + n + seq![10u8],
        StmtS::If(_, t, f) => seq![74u8, 77u8, 80u8, 90u8, 32u8, 123u8, 10u8] + render_s(t)
            + seq![125u8, 32u8, 123u8, 10u8] + render_s(f) + seq![125u8, 10u8],
    }
}

/// The listing of a statement list, statement by statement.
pub open spec fn render_s(stmts: Seq<StmtS>) -> Seq<u8>
    decreases stmts, 1int,
{
    if stmts.len() == 0 {
        Seq::<u8>::empty()
    } else {
        render_s(stmts.drop_last()) + stmt_render(stmts.last())
    }
}

/// Render a program listing, one line per instruction.
#[verifier::loop_isolation(false)]
fn render_stmts(stmts: &Vec<Stmt>) -> (r: Vec<u8>)
    ensures
        r@ == render_s(stmts_view(stmts@)),
    decreases *stmts,
{
    let ghost sv = stmts_view(stmts@);
    proof {
        crate::jx9::ast::lemma_stmts_view_len(stmts@);
    }
    let mut out: Vec<u8> = Vec::new();
    let mut i: usize = 0;
    proof {
        assert(out@ =~= render_s(sv.take(0)));
    }
    while i < stmts.len()
        invariant
            0 <= i <= stmts@.len(),
            out@ == render_s(sv.take(i as int)),
        decreases stmts@.len() - i,
    {
        proof {
            assert(decreases_to!(*stmts => stmts@[i as int]));
            assert(sv.take(i + 1).drop_last() =~= sv.take(i as int));
            assert(sv.take(i + 1).last() == stmt_view(stmts@[i as int]));
        }
        match &stmts[i] {
            Stmt::Print(_) => {
                out.push(80);
                out.push(82);
                out.push(73);
                out.push(78);
                out.push(84);
                out.push(10);
                proof {
                    assert(out@ =~= render_s(sv.take(i as int)) + seq![80u8, 82u8, 73u8, 78u8,
                        84u8, 10u8]);
                    assert(stmts@[i as int] is Print);
                    assert(stmt_render(stmt_view(stmts@[i as int])) =~= seq![80u8, 82u8, 73u8,
                        78u8, 84u8, 10u8]);
                    assert(out@ =~= render_s(sv.take(i + 1)));
                }
            },
            Stmt::Ret(_) => {
                out.push(82);
                out.push(69);
                out.push(84);
                out.push(85);
                out.push(82);
                out.push(78);
                out.push(10);
                proof {
                    assert(out@ =~= render_s(sv.take(i as int)) + seq![82u8, 69u8, 84u8, 85u8,
                        82u8, 78u8, 10u8]);
                    assert(stmts@[i as int] is Ret);
                    assert(stmt_render(stmt_view(stmts@[i as int])) =~= seq![82u8, 69u8, 84u8,
                        85u8, 82u8, 78u8, 10u8]);
                    assert(out@ =~= render_s(sv.take(i + 1)));
                }
            },
            Stmt::Assign(name, _) => {
                out.push(83);
                out.push(84);
                out.push(79);
                out.push(82);
                out.push(69);
                out.push(32);
                out.push(36);
                push_bytes(&mut out, name.as_slice());
                out.push(10);
                proof {
                    assert(out@ =~= render_s(sv.take(i as int)) + (seq![83u8, 84u8, 79u8, 82u8,
                        69u8, 32u8, 36u8] + name@ + seq![10u8]));
                    assert(stmts@[i as int] is Assign);
                    assert(stmt_render(stmt_view(stmts@[i as int])) =~= seq![83u8, 84u8, 79u8,
                        82u8, 69u8, 32u8, 36u8] + name@ + seq![10u8]);
                    assert(out@ =~= render_s(sv.take(i + 1)));
                }
            },
            Stmt::If(_, t, f) => {
                out.push(74);
                out.push(77);
                out.push(80);
                out.push(90);
                out.push(32);
                out.push(123);
                out.push(10);
                let mut tl = render_stmts(t);
                out.append(&mut tl);
                out.push(125);
                out.push(32);
                out.push(123);
                out.push(10);
                let mut fl = render_stmts(f);
                out.append(&mut fl);
                out.push(125);
                out.push(10);
                proof {
                    assert(out@ =~= render_s(sv.take(i as int)) + (seq![74u8, 77u8, 80u8, 90u8,
                        32u8, 123u8, 10u8] + render_s(stmts_view(t@)) + seq![125u8, 32u8, 123u8,
                        10u8] + render_s(stmts_view(f@)) + seq![125u8, 10u8]));
                    assert(stmts@[i as int] is If);
                    assert(stmt_render(stmt_view(stmts@[i as int])) =~= seq![74u8, 77u8, 80u8,
                        90u8, 32u8, 123u8, 10u8] + render_s(stmts_view(t@)) + seq![125u8, 32u8,
                        123u8, 10u8] + render_s(stmts_view(f@)) + seq![125u8, 10u8]);
                    assert(out@ =~= render_s(sv.take(i + 1)));
                }
            },
        }
        i = i + 1;
    }
    proof {
        assert(sv.take(sv.len() as int) =~= sv);
    }
    out
}

// What the session promises of a whole round trip, and of running again.

/// Round trip: a value registered under a name and decoded back is the
/// value itself, for every value of the data model — every value whose
/// objects bind each key once.  (Injection additionally rejects values
/// whose strings hold an embedded terminator byte; the decode itself loses
/// nothing.)
pub proof fn lemma_variable_roundtrip(
    vars: Seq<(Seq<u8>, NVal)>,
    name: Seq<u8>,
    v: crate::document::vm_value::VVal,
)
    requires
        crate::document::vm_value::vval_keys_unique(v),
    ensures
        value_of(h_get(h_set(vars, name, native_of(v)), name)) == v,
{
    crate::jx9::interp::lemma_h_set_get(vars, name, native_of(v));
    crate::document::vm_value::lemma_value_roundtrip(v);
}

/// Absent and null stay distinct: a name bound to the null value decodes
/// to the null value, while an unbound name has no binding at all.
pub proof fn lemma_absent_vs_null(vars: Seq<(Seq<u8>, NVal)>, name: Seq<u8>, other: Seq<u8>)
    requires
        !h_has(vars, other),
        other != name,
    ensures
        value_of(h_get(h_set(vars, name, native_of(crate::document::vm_value::VVal::Null)), name))
            == crate::document::vm_value::VVal::Null,
        !h_has(h_set(vars, name, native_of(crate::document::vm_value::VVal::Null)), other),
{
    lemma_variable_roundtrip(vars, name, crate::document::vm_value::VVal::Null);
    let vs = h_set(vars, name, native_of(crate::document::vm_value::VVal::Null));
    if h_has(vars, name) {
        crate::jx9::interp::lemma_h_first_props(vars, name);
        assert forall|i: int| 0 <= i < vs.len() implies (#[trigger] vs[i]).0 != other by {
            assert(vs[i].0 == vars[i].0 || vs[i].0 == name);
        }
    } else {
        assert forall|i: int| 0 <= i < vs.len() implies (#[trigger] vs[i]).0 != other by {
            if i < vars.len() {
                assert(vs[i] == vars[i]);
            }
        }
    }
}

/// Running again reproduces the run: executing a session twice in
/// succession, with nothing changed in between, produces the same output
/// bytes and the same output length both times, because the implicit reset
/// discards the first run's output and changes nothing the run reads.
pub proof fn lemma_rerun_reproduces_output(v: VmView)
    ensures
        after_exec(after_exec(v)).out_len == after_exec(v).out_len,
        after_exec(after_exec(v)).out_buf == after_exec(v).out_buf,
        after_exec(after_exec(v)).last_scope == after_exec(v).last_scope,
        after_exec(after_exec(v)).exec_val == after_exec(v).exec_val,
{
    let v1 = reset_view(v);
    let w = after_exec(v);
    let w1 = reset_view(w);
    assert(start_scope(w1) == start_scope(v1));
    assert(w1.prog == v1.prog);
    assert(run_of(w1) == run_of(v1));
}

} // verus!

verus! {

/// What registration and extraction give together: before any run, reading
/// back a name just registered decodes to exactly the registered value.
/// With the session's contracts this pins the whole round trip, for every
/// value whose strings the engine's string representation can carry.
pub proof fn lemma_session_roundtrip(v: VmView, name: Seq<u8>, x: crate::document::vm_value::VVal)
    requires
        v.last_scope is None,
        crate::document::vm_value::vval_keys_unique(x),
    ensures
        ({
            let v2 = VmView {
                vars: h_set(v.vars, name, native_of(x)),
                names: v.names.push(name),
                ..v
            };
            &&& h_has(extract_scope(v2), name)
            &&& value_of(h_get(extract_scope(v2), name)) == x
        }),
{
    crate::jx9::interp::lemma_h_set_get(v.vars, name, native_of(x));
    crate::document::vm_value::lemma_value_roundtrip(x);
}

} // verus!
