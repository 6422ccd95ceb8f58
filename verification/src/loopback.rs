//! The virtual loopback's delay line: whatever is generated comes back on the inputs
//! after a fixed delay (in samples), block by block.

use vstd::prelude::*;

verus! {

/// The sample a delay of `delay` samples shows at position `t` of the captured stream,
/// given everything generated so far: silence (`zero`) before the delay has elapsed.
pub open spec fn delayed<S>(generated: Seq<S>, delay: nat, zero: S, t: int) -> S {
    if t < delay {
        zero
    } else {
        generated[t - delay]
    }
}

#[verifier::reject_recursive_types(S)]
pub struct DelayLine<S> {
    line: Vec<S>,
    delay: usize,
    block: usize,
    zero: S,
    generated: Ghost<Seq<S>>,
}

impl<S: Copy> DelayLine<S> {
    pub closed spec fn delay(&self) -> nat {
        self.delay as nat
    }

    /// Samples per block.
    pub closed spec fn block(&self) -> nat {
        self.block as nat
    }

    pub closed spec fn zero(&self) -> S {
        self.zero
    }

    /// Everything generated so far.
    pub closed spec fn generated(&self) -> Seq<S> {
        self.generated@
    }

    pub closed spec fn wf(&self) -> bool {
        &&& self.delay + self.block <= usize::MAX
        &&& self.line@.len() == self.delay + self.block
        &&& forall|k: int|
            0 <= k < self.delay + self.block ==> #[trigger] self.line@[k] == delayed(
                self.generated@,
                self.delay as nat,
                self.zero,
                self.generated@.len() - self.block + k,
            )
    }

    /// A silent line for blocks of `block` samples delayed by `delay` samples.
    pub fn new(delay: usize, block: usize, zero: S) -> (d: DelayLine<S>)
        requires
            delay + block <= usize::MAX,
        ensures
            d.wf(),
            d.delay() == delay,
            d.block() == block,
            d.zero() == zero,
            d.generated() == Seq::<S>::empty(),
    {
        let n = delay + block;
        let mut line: Vec<S> = Vec::with_capacity(n);
        let mut i: usize = 0;
        while i < n
            invariant
                i <= n,
                line@.len() == i,
                forall|j: int| 0 <= j < i ==> line@[j] == zero,
            decreases n - i,
        {
            line.push(zero);
            i = i + 1;
        }
        DelayLine { line, delay, block, zero, generated: Ghost(Seq::empty()) }
    }

    /// Generate one block of output; returns the block captured at the same time: each
    /// captured sample is the sample generated `delay` samples earlier (silence before).
    pub fn process(&mut self, out: &[S]) -> (captured: Vec<S>)
        requires
            old(self).wf(),
            out@.len() == old(self).block(),
        ensures
            final(self).wf(),
            final(self).delay() == old(self).delay(),
            final(self).block() == old(self).block(),
            final(self).zero() == old(self).zero(),
            final(self).generated() == old(self).generated() + out@,
            captured@.len() == out@.len(),
            forall|j: int|
                0 <= j < captured@.len() ==> #[trigger] captured@[j] == delayed(
                    final(self).generated(),
                    old(self).delay(),
                    old(self).zero(),
                    old(self).generated().len() + j,
                ),
    {
        let ghost g0 = self.generated@;
        let ghost n0 = g0.len();
        let ghost g1 = g0 + out@;
        let ghost z = self.zero;
        let b = self.block;
        let d = self.delay;
        let mut i: usize = 0;
        while i < d
            invariant
                self.line@.len() == d + b,
                d + b <= usize::MAX,
                self.delay == d,
                self.block == b,
                self.zero == z,
                self.generated@ == g0,
                n0 == g0.len(),
                i <= d,
                forall|k: int|
                    0 <= k < i ==> #[trigger] self.line@[k] == delayed(g0, d as nat, z, n0 + k),
                forall|k: int|
                    i <= k < d + b ==> #[trigger] self.line@[k] == delayed(
                        g0,
                        d as nat,
                        z,
                        n0 - b + k,
                    ),
            decreases d - i,
        {
            let v = self.line[i + b];
            proof {
                assert(self.line@[i + b] == delayed(g0, d as nat, z, n0 - b + (i + b)));
            }
            self.line.set(i, v);
            i = i + 1;
        }
        let mut j: usize = 0;
        while j < b
            invariant
                self.line@.len() == d + b,
                d + b <= usize::MAX,
                self.delay == d,
                self.block == b,
                self.zero == z,
                self.generated@ == g0,
                n0 == g0.len(),
                out@.len() == b,
                j <= b,
                forall|k: int|
                    0 <= k < d ==> #[trigger] self.line@[k] == delayed(g0, d as nat, z, n0 + k),
                forall|k: int| 0 <= k < j ==> #[trigger] self.line@[d + k] == out@[k],
            decreases b - j,
        {
            self.line.set(d + j, out[j]);
            j = j + 1;
        }
        self.generated = Ghost(g1);
        proof {
            assert forall|k: int| 0 <= k < d + b implies #[trigger] self.line@[k] == delayed(
                g1,
                d as nat,
                z,
                g1.len() - b + k,
            ) by {
                if k < d {
                    assert(self.line@[k] == delayed(g0, d as nat, z, n0 + k));
                } else {
                    assert(self.line@[d + (k - d)] == out@[k - d]);
                }
            }
        }
        let mut captured: Vec<S> = Vec::with_capacity(b);
        let mut k: usize = 0;
        while k < b
            invariant
                self.line@.len() == d + b,
                k <= b,
                captured@.len() == k,
                forall|m: int| 0 <= m < k ==> #[trigger] captured@[m] == self.line@[m],
            decreases b - k,
        {
            captured.push(self.line[k]);
            k = k + 1;
        }
        proof {
            assert forall|m: int| 0 <= m < captured@.len() implies #[trigger] captured@[m]
                == delayed(g1, d as nat, z, n0 + m) by {
                assert(captured@[m] == self.line@[m]);
            }
        }
        captured
    }
}

/// What the loopback worker does between two blocks, once it has read the live parameters.
#[derive(Debug, Clone, Copy, PartialEq, Eq, Structural)]
pub enum WorkerStep {
    /// Carry on with the current blocker and delay line.
    Continue,
    /// Build a new blocker and delay line for blocks of `block_frames` frames, on the new
    /// sender (`new_sender`) or on the current blocker's.
    Rebuild { block_frames: usize, new_sender: bool },
    /// Nothing to send blocks to: the worker ends.
    Stop,
}

pub open spec fn worker_step_spec(new_sender: bool, requested_block: u32, block_frames: usize, has_blocker: bool) -> WorkerStep {
    let nb: usize = if requested_block == 0 { 1 } else { requested_block as usize };
    if new_sender || nb != block_frames {
        if new_sender {
            WorkerStep::Rebuild { block_frames: nb, new_sender: true }
        } else if has_blocker {
            WorkerStep::Rebuild { block_frames: nb, new_sender: false }
        } else {
            WorkerStep::Stop
        }
    } else if has_blocker {
        WorkerStep::Continue
    } else {
        WorkerStep::Stop
    }
}

/// The block size a request asks for: at least one frame.
pub open spec fn block_frames_for(requested_block: u32) -> usize {
    if requested_block == 0 { 1 } else { requested_block as usize }
}

/// How the worker decides: a pending new sink always wins and rebuilds on it, at the
/// requested size (at least one frame), whatever the current size; without one, the
/// worker carries on when the size is unchanged, rebuilds on its own sink when the size
/// changed, and stops when it has no sink.
pub proof fn lemma_worker_step(new_sender: bool, requested_block: u32, block_frames: usize, has_blocker: bool)
    ensures
        new_sender ==> worker_step_spec(new_sender, requested_block, block_frames, has_blocker) == (WorkerStep::Rebuild {
            block_frames: block_frames_for(requested_block),
            new_sender: true,
        }),
        !new_sender && !has_blocker ==> worker_step_spec(new_sender, requested_block, block_frames, has_blocker)
            == WorkerStep::Stop,
        !new_sender && has_blocker && block_frames == block_frames_for(requested_block) ==> worker_step_spec(
            new_sender,
            requested_block,
            block_frames,
            has_blocker,
        ) == WorkerStep::Continue,
        !new_sender && has_blocker && block_frames != block_frames_for(requested_block) ==> worker_step_spec(
            new_sender,
            requested_block,
            block_frames,
            has_blocker,
        ) == (WorkerStep::Rebuild { block_frames: block_frames_for(requested_block), new_sender: false }),
        block_frames_for(requested_block) >= 1,
        requested_block > 0 ==> block_frames_for(requested_block) == requested_block,
{
}

/// The worker's decision: a new block sink or a new block size (at least one frame)
/// rebuilds the blocker, on the new sink when there is one, else on the current blocker's;
/// with no sink at all the worker stops.
pub fn worker_step(new_sender: bool, requested_block: u32, block_frames: usize, has_blocker: bool) -> (r: WorkerStep)
    ensures
        r == worker_step_spec(new_sender, requested_block, block_frames, has_blocker),
        new_sender ==> r == (WorkerStep::Rebuild { block_frames: block_frames_for(requested_block), new_sender: true }),
        !new_sender && !has_blocker ==> r == WorkerStep::Stop,
        !new_sender && has_blocker && block_frames == block_frames_for(requested_block) ==> r == WorkerStep::Continue,
        !new_sender && has_blocker && block_frames != block_frames_for(requested_block) ==> r == (WorkerStep::Rebuild { block_frames: block_frames_for(requested_block), new_sender: false }),
{
    let nb: usize = if requested_block == 0 { 1 } else { requested_block as usize };
    if new_sender || nb != block_frames {
        if new_sender {
            WorkerStep::Rebuild { block_frames: nb, new_sender: true }
        } else if has_blocker {
            WorkerStep::Rebuild { block_frames: nb, new_sender: false }
        } else {
            WorkerStep::Stop
        }
    } else if has_blocker {
        WorkerStep::Continue
    } else {
        WorkerStep::Stop
    }
}

/// One step of the loopback's noise source (xorshift64: shifts 13, 7, 17).
pub open spec fn xorshift_spec(x: u64) -> u64 {
    let a = x ^ ((x << 13u64) as u64);
    let b = a ^ (a >> 7u64);
    b ^ ((b << 17u64) as u64)
}

/// The next state of the loopback's noise source.
pub fn xorshift_next(x: u64) -> (r: u64)
    ensures
        r == xorshift_spec(x),
{
    let mut y = x;
    y ^= y << 13;
    y ^= y >> 7;
    y ^= y << 17;
    y
}

} // verus!
