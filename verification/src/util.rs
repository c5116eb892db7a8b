//! Utility operations of the database handle: the engine's pseudo-random
//! generator.

use vstd::prelude::*;

use crate::{DbView, UnQLite};

verus! {

/// One step of the engine's pseudo-random generator (an xorshift walk; the
/// zero state steps to a fixed odd seed so the walk never sticks).
pub open spec fn rng_next(x: u32) -> u32 {
    if x == 0 {
        0x9e3779b9u32
    } else {
        let a = x ^ (x << 13);
        let b = a ^ (a >> 17);
        b ^ (b << 5)
    }
}

/// The generator state after `n` further steps.
pub open spec fn rng_iter(x: u32, n: nat) -> u32
    decreases n,
{
    if n == 0 {
        x
    } else {
        rng_iter(rng_next(x), (n - 1) as nat)
    }
}

/// Utility interface of the database handle.
pub trait Util: View<V = DbView> {
    /// A string of lower-case letters of the given length, drawn from the
    /// engine's pseudo-random generator.
    fn random_string(&mut self, buf_size: u32) -> Vec<u8>
        requires
            old(self)@.wf(),
    ;

    /// One draw of the engine's pseudo-random generator.
    fn random_num(&mut self) -> u32
        requires
            old(self)@.wf(),
    ;
}

impl Util for UnQLite {
    /// A string of lower-case letters of the given length.
    fn random_string(&mut self, buf_size: u32) -> (r: Vec<u8>)
        ensures
            final(self)@.wf(),
            final(self)@ == (DbView {
                rng: rng_iter(old(self)@.rng, buf_size as nat),
                ..old(self)@
            }),
            r@.len() == buf_size,
            forall|i: int| 0 <= i < r@.len() ==> 97 <= #[trigger] r@[i] <= 122,
    {
        let mut out: Vec<u8> = Vec::new();
        let mut i: u32 = 0;
        while i < buf_size
            invariant
                0 <= i <= buf_size,
                out@.len() == i,
                self.records == old(self).records,
                self.read_only == old(self).read_only,
                self.mem_engine == old(self).mem_engine,
                self.auto_commit == old(self).auto_commit,
                self.in_txn == old(self).in_txn,
                self.saved == old(self).saved,
                self.page_cache == old(self).page_cache,
                self.rng == rng_iter(old(self)@.rng, i as nat),
                forall|k: int| 0 <= k < out@.len() ==> 97 <= #[trigger] out@[k] <= 122,
            decreases buf_size - i,
        {
            let drawn = self.next_rng();
            out.push(97u8 + (drawn % 26) as u8);
            i = i + 1;
            proof {
                lemma_rng_iter_step(old(self)@.rng, i as nat);
            }
        }
        proof {
            assert(final(self)@ =~= (DbView {
                rng: rng_iter(old(self)@.rng, buf_size as nat),
                ..old(self)@
            }));
        }
        out
    }

    /// One draw of the engine's pseudo-random generator.
    fn random_num(&mut self) -> (r: u32)
        ensures
            final(self)@.wf(),
            final(self)@ == (DbView { rng: rng_next(old(self)@.rng), ..old(self)@ }),
            r == rng_next(old(self)@.rng),
    {
        let drawn = self.next_rng();
        proof {
            assert(final(self)@ =~= (DbView { rng: rng_next(old(self)@.rng), ..old(self)@ }));
        }
        drawn
    }
}

impl UnQLite {
    /// Advance the generator one step and return the new state.
    fn next_rng(&mut self) -> (r: u32)
        ensures
            r == rng_next(old(self).rng),
            final(self).rng == r,
            final(self).records == old(self).records,
            final(self).read_only == old(self).read_only,
            final(self).mem_engine == old(self).mem_engine,
            final(self).auto_commit == old(self).auto_commit,
            final(self).in_txn == old(self).in_txn,
            final(self).saved == old(self).saved,
            final(self).page_cache == old(self).page_cache,
    {
        let x = self.rng;
        let r = if x == 0 {
            0x9e3779b9u32
        } else {
            let a = x ^ (x << 13u32);
            let b = a ^ (a >> 17u32);
            b ^ (b << 5u32)
        };
        self.rng = r;
        r
    }
}

/// Unfolding step of the iterated generator, from the front.
pub proof fn lemma_rng_iter_step(x: u32, n: nat)
    requires
        n > 0,
    ensures
        rng_iter(x, n) == rng_next(rng_iter(x, (n - 1) as nat)),
    decreases n,
{
    if n == 1 {
        assert(rng_iter(x, 1) == rng_iter(rng_next(x), 0));
    } else {
        lemma_rng_iter_step(rng_next(x), (n - 1) as nat);
    }
}

} // verus!
