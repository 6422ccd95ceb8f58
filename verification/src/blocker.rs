//! Regroups arbitrarily sized interleaved callbacks into fixed-size [`InputBlock`]s.
//!
//! Shared by every backend whose native buffer size does not match the requested
//! `block_frames`. Designed for audio callbacks: [`Blocker::push`] never waits — it hands
//! each completed block to the channel with `try_send`, and a full channel drops it. A
//! blocker built with [`Blocker::blocking`] is for threads that may wait: it hands each
//! completed block to its caller ([`Blocker::next_block`]), who sends it and reports what
//! became of it ([`Blocker::record_outcome`]).
//!
//! Every block cut is recorded in a ghost log, so that the contracts can say exactly what
//! was cut: block `i` carries samples `i·L .. (i+1)·L` of everything pushed
//! (`L = block_frames · channels`), its `seq` is `i`, its `first_frame` is `i·block_frames`,
//! and its `dropped_before` counts the blocks reported refused as full since the last one
//! reported delivered.

use crate::types::{BlockView, InputBlock};
use tokio::sync::mpsc::error::TrySendError;
use tokio::sync::mpsc::Sender;
use vstd::prelude::*;

verus! {

#[verifier::external_type_specification]
#[verifier::external_body]
#[verifier::reject_recursive_types(T)]
pub struct ExSender<T>(Sender<T>);

/// What became of a block handed to the channel.
#[derive(Debug, Clone, Copy, PartialEq, Eq, Structural)]
pub enum SendOutcome {
    /// The receiver got it.
    Sent,
    /// The channel was full: the block was dropped.
    Full,
    /// The receiver is gone: the block was dropped.
    Closed,
}

/// `tokio::sync::mpsc::Sender::try_send`: hands `message` to the channel without waiting.
/// Which outcome comes back depends on the receiver, so nothing is stated of it.
#[verifier::external_body]
fn channel_try_send<T>(tx: &Sender<T>, message: T) -> (r: SendOutcome) {
    match tx.try_send(message) {
        Ok(()) => SendOutcome::Sent,
        Err(TrySendError::Full(_)) => SendOutcome::Full,
        Err(TrySendError::Closed(_)) => SendOutcome::Closed,
    }
}

/// `tokio::sync::mpsc::Sender::is_closed`: whether the receiver is gone (a moment's
/// observation, so nothing is stated of it).
#[verifier::external_body]
fn channel_is_closed<T>(tx: &Sender<T>) -> (r: bool) {
    tx.is_closed()
}

/// One more dropped block, saturating.
pub open spec fn saturating_inc(x: u32) -> u32 {
    if x == u32::MAX {
        x
    } else {
        (x + 1) as u32
    }
}

/// The drop counter after a history of send outcomes: reset by a delivered block, raised
/// by a refused one, left alone when the receiver is gone.
pub open spec fn drops_after(o: Seq<SendOutcome>) -> u32
    decreases o.len(),
{
    if o.len() == 0 {
        0
    } else {
        match o.last() {
            SendOutcome::Sent => 0,
            SendOutcome::Full => saturating_inc(drops_after(o.drop_last())),
            SendOutcome::Closed => drops_after(o.drop_last()),
        }
    }
}

/// The `i`-th block cut from `pushed` (`block_frames · channels` samples each), with the
/// drop count that the outcomes before it leave.
pub open spec fn block_at<S>(
    pushed: Seq<S>,
    outcomes: Seq<SendOutcome>,
    channels: u16,
    block_frames: nat,
    i: int,
) -> BlockView<S> {
    let len = block_frames * channels as nat;
    BlockView {
        seq: i as u64,
        first_frame: (i * block_frames) as u64,
        channels: channels,
        frames: block_frames as u32,
        samples: pushed.subrange(i * len, (i + 1) * len),
        dropped_before: drops_after(outcomes.take(i)),
    }
}

proof fn lemma_block_inside(i: int, seq: int, len: nat)
    requires
        0 <= i < seq,
    ensures
        0 <= i * len <= (i + 1) * len <= seq * len,
{
    assert(0 <= i * len <= (i + 1) * len <= seq * len) by (nonlinear_arith)
        requires
            0 <= i < seq,
    ;
}

#[verifier::reject_recursive_types(S)]
pub struct Blocker<S> {
    channels: u16,
    block_frames: usize,
    buf: Vec<S>,
    seq: u64,
    first_frame: u64,
    dropped: u32,
    tx: Sender<InputBlock<S>>,
    blocking: bool,
    /// A block handed to the caller whose outcome is not reported yet.
    awaiting: bool,
    /// Every sample pushed so far.
    pushed: Ghost<Seq<S>>,
    /// Every block cut, in order.
    sent: Ghost<Seq<BlockView<S>>>,
    /// What became of each of them, as the channel (or the caller) reported it.
    outcomes: Ghost<Seq<SendOutcome>>,
}

impl<S> Blocker<S> {
    pub closed spec fn channels(&self) -> u16 {
        self.channels
    }

    pub closed spec fn block_frames(&self) -> nat {
        self.block_frames as nat
    }

    /// Samples per block.
    pub open spec fn block_len(&self) -> nat {
        self.block_frames() * self.channels() as nat
    }

    /// The channel the blocks go to.
    pub closed spec fn sender(&self) -> Sender<InputBlock<S>> {
        self.tx
    }

    pub closed spec fn is_blocking(&self) -> bool {
        self.blocking
    }

    /// Whether the last block cut was handed to the caller and its outcome is not reported yet.
    pub closed spec fn awaiting(&self) -> bool {
        self.awaiting
    }

    /// Samples pushed but not yet part of a complete block.
    pub closed spec fn pending(&self) -> Seq<S> {
        self.buf@
    }

    pub closed spec fn pushed(&self) -> Seq<S> {
        self.pushed@
    }

    pub closed spec fn sent(&self) -> Seq<BlockView<S>> {
        self.sent@
    }

    pub closed spec fn outcomes(&self) -> Seq<SendOutcome> {
        self.outcomes@
    }

    /// The drop count that the next block will carry.
    pub closed spec fn dropped(&self) -> u32 {
        self.dropped
    }

    /// Index of the first frame of the next block.
    pub closed spec fn next_first_frame(&self) -> u64 {
        self.first_frame
    }

    /// The block the `i`-th one should be, given what was pushed and reported.
    pub open spec fn expected_block(&self, i: int) -> BlockView<S> {
        block_at(self.pushed(), self.outcomes(), self.channels(), self.block_frames(), i)
    }

    /// The bookkeeping, with room for a block that is complete but not cut yet.
    spec fn wf_open(&self) -> bool {
        &&& 1 <= self.block_frames <= u32::MAX
        &&& self.block_frames * self.channels <= usize::MAX
        &&& self.buf@.len() <= self.block_len()
        &&& self.channels == 0 ==> self.buf@.len() == 0
        &&& self.sent@.len() == self.seq
        &&& self.outcomes@.len() + (if self.awaiting { 1int } else { 0int }) == self.seq
        &&& self.first_frame == self.seq * self.block_frames
        &&& self.dropped == drops_after(self.outcomes@)
        &&& self.pushed@.len() == self.seq * self.block_len() + self.buf@.len()
        &&& self.buf@ == self.pushed@.subrange(self.seq * self.block_len(), self.pushed@.len() as int)
        &&& forall|i: int| 0 <= i < self.seq ==> #[trigger] self.sent@[i] == self.expected_block(i)
    }

    pub closed spec fn wf(&self) -> bool {
        &&& self.wf_open()
        &&& self.channels > 0 ==> self.buf@.len() < self.block_len()
        &&& self.awaiting ==> self.blocking
    }

    /// What every well-formed blocker guarantees of the blocks it has cut.
    pub proof fn lemma_sent_blocks(&self)
        requires
            self.wf(),
        ensures
            self.block_frames() >= 1,
            self.pushed().len() == self.sent().len() * self.block_len() + self.pending().len(),
            self.pending() == self.pushed().subrange(
                (self.sent().len() * self.block_len()) as int,
                self.pushed().len() as int,
            ),
            self.channels() > 0 ==> self.pending().len() < self.block_len(),
            self.outcomes().len() + (if self.awaiting() { 1int } else { 0int }) == self.sent().len(),
            self.awaiting() ==> self.is_blocking(),
            self.dropped() == drops_after(self.outcomes()),
            self.next_first_frame() == self.sent().len() * self.block_frames(),
            forall|i: int| 0 <= i < self.sent().len() ==> #[trigger] self.sent()[i] == self.expected_block(i),
    {
    }

    /// The drop count that each block carries: none on the first block and none on a block
    /// that follows a delivered one; after a block refused as full, one more than the block
    /// before it carried (saturating); after a closed channel, the same as the block before.
    pub proof fn lemma_drop_counts(&self, i: int)
        requires
            self.wf(),
            0 <= i < self.sent().len(),
        ensures
            i == 0 ==> self.sent()[i].dropped_before == 0,
            i > 0 ==> i - 1 < self.outcomes().len(),
            i > 0 && self.outcomes()[i - 1] == SendOutcome::Sent ==> self.sent()[i].dropped_before == 0,
            i > 0 && self.outcomes()[i - 1] == SendOutcome::Full ==> self.sent()[i].dropped_before == (if self.sent()[i
                - 1].dropped_before == u32::MAX {
                u32::MAX
            } else {
                (self.sent()[i - 1].dropped_before + 1) as u32
            }),
            i > 0 && self.outcomes()[i - 1] == SendOutcome::Closed ==> self.sent()[i].dropped_before
                == self.sent()[i - 1].dropped_before,
    {
        let o = self.outcomes();
        assert(self.sent()[i] == self.expected_block(i));
        if i == 0 {
            assert(o.take(0).len() == 0);
        } else {
            assert(self.sent()[i - 1] == self.expected_block(i - 1));
            let t = o.take(i);
            assert(t.drop_last() =~= o.take(i - 1));
            assert(t.last() == o[i - 1]);
        }
    }

    /// The drop count that the next block will carry is none if nothing was reported yet or
    /// the last block reported was delivered.
    pub proof fn lemma_next_drop_count(&self)
        requires
            self.wf(),
        ensures
            self.outcomes().len() == 0 ==> self.dropped() == 0,
            self.outcomes().len() > 0 && self.outcomes().last() == SendOutcome::Sent ==> self.dropped() == 0,
    {
    }

    pub fn new(channels: u16, block_frames: u32, tx: Sender<InputBlock<S>>) -> (b: Blocker<S>)
        requires
            (if block_frames == 0 { 1 } else { block_frames as int }) * channels <= usize::MAX,
        ensures
            b.wf(),
            b.channels() == channels,
            b.block_frames() == if block_frames == 0 { 1 } else { block_frames as nat },
            !b.is_blocking(),
            !b.awaiting(),
            b.sender() == tx,
            b.pushed() == Seq::<S>::empty(),
            b.sent() == Seq::<BlockView<S>>::empty(),
            b.outcomes() == Seq::<SendOutcome>::empty(),
    {
        let block_frames: usize = if block_frames == 0 { 1 } else { block_frames as usize };
        let b = Blocker {
            channels,
            block_frames,
            buf: Vec::with_capacity(block_frames * channels as usize),
            seq: 0,
            first_frame: 0,
            dropped: 0,
            tx,
            blocking: false,
            awaiting: false,
            pushed: Ghost(Seq::empty()),
            sent: Ghost(Seq::empty()),
            outcomes: Ghost(Seq::empty()),
        };
        proof {
            assert(b.buf@ =~= b.pushed@.subrange(0, 0));
            assert(b.first_frame == b.seq * b.block_frames) by (nonlinear_arith)
                requires
                    b.first_frame == 0,
                    b.seq == 0,
            ;
            assert(b.channels > 0 ==> b.block_frames * b.channels > 0) by (nonlinear_arith)
                requires
                    b.block_frames >= 1,
            ;
        }
        b
    }

    /// For threads that may wait for channel room: completed blocks go to the caller
    /// ([`Blocker::next_block`]) instead of `try_send` (never for a real audio callback).
    pub fn blocking(self) -> (b: Blocker<S>)
        requires
            self.wf(),
        ensures
            b.wf(),
            b.is_blocking(),
            b.awaiting() == self.awaiting(),
            b.sender() == self.sender(),
            b.channels() == self.channels(),
            b.block_frames() == self.block_frames(),
            b.pushed() == self.pushed(),
            b.pending() == self.pending(),
            b.sent() == self.sent(),
            b.outcomes() == self.outcomes(),
    {
        let mut b = self;
        b.blocking = true;
        b
    }

    /// Append `data[pos..pos + take]` to the pending samples.
    fn absorb(&mut self, data: &[S], pos: usize, take: usize)
        where
            S: Copy,
        requires
            old(self).wf_open(),
            pos + take <= data@.len(),
            old(self).buf@.len() + take <= old(self).block_len(),
        ensures
            final(self).wf_open(),
            final(self).pushed@ == old(self).pushed@ + data@.subrange(pos as int, pos + take),
            final(self).buf@ == old(self).buf@ + data@.subrange(pos as int, pos + take),
            final(self).channels == old(self).channels,
            final(self).block_frames == old(self).block_frames,
            final(self).blocking == old(self).blocking,
            final(self).awaiting == old(self).awaiting,
            final(self).tx == old(self).tx,
            final(self).seq == old(self).seq,
            final(self).first_frame == old(self).first_frame,
            final(self).dropped == old(self).dropped,
            final(self).sent == old(self).sent,
            final(self).outcomes == old(self).outcomes,
    {
        let ghost s0 = *self;
        let ghost add = data@.subrange(pos as int, pos + take);
        let ghost all = self.pushed@ + add;
        let n = data.len();
        let mut j: usize = 0;
        while j < take
            invariant
                n == data@.len(),
                pos + take <= data@.len(),
                j <= take,
                add == data@.subrange(pos as int, pos + take),
                self.buf@ == s0.buf@ + data@.subrange(pos as int, pos + j),
                self.channels == s0.channels,
                self.block_frames == s0.block_frames,
                self.blocking == s0.blocking,
                self.awaiting == s0.awaiting,
                self.tx == s0.tx,
                self.seq == s0.seq,
                self.first_frame == s0.first_frame,
                self.dropped == s0.dropped,
                self.sent == s0.sent,
                self.outcomes == s0.outcomes,
                self.pushed == s0.pushed,
            decreases take - j,
        {
            self.buf.push(data[pos + j]);
            proof {
                assert(data@.subrange(pos as int, pos + j + 1) =~= data@.subrange(pos as int, pos + j).push(
                    data@[pos + j],
                ));
            }
            j = j + 1;
        }
        self.pushed = Ghost(all);
        proof {
            let l = self.block_len();
            assert forall|i: int| 0 <= i < self.seq implies #[trigger] self.sent@[i] == self.expected_block(i) by {
                lemma_block_inside(i, self.seq as int, l);
                assert(s0.sent@[i] == s0.expected_block(i));
                assert(all.subrange(i * l, (i + 1) * l) =~= s0.pushed@.subrange(i * l, (i + 1) * l));
            }
            assert(self.buf@ =~= all.subrange(self.seq * l, all.len() as int));
        }
    }

    /// Cut the complete pending block; its outcome is then awaited.
    fn cut_block(&mut self) -> (b: InputBlock<S>)
        requires
            old(self).wf_open(),
            !old(self).awaiting,
            old(self).block_len() > 0,
            old(self).buf@.len() == old(self).block_len(),
            old(self).first_frame + old(self).block_frames <= u64::MAX,
            old(self).seq < u64::MAX,
        ensures
            final(self).wf_open(),
            final(self).awaiting,
            final(self).buf@.len() == 0,
            final(self).seq == old(self).seq + 1,
            final(self).first_frame == old(self).first_frame + old(self).block_frames,
            final(self).sent@ == old(self).sent@.push(b@),
            b@ == block_at(
                old(self).pushed@,
                old(self).outcomes@,
                old(self).channels,
                old(self).block_frames as nat,
                old(self).seq as int,
            ),
            final(self).channels == old(self).channels,
            final(self).block_frames == old(self).block_frames,
            final(self).blocking == old(self).blocking,
            final(self).tx == old(self).tx,
            final(self).pushed == old(self).pushed,
            final(self).dropped == old(self).dropped,
            final(self).outcomes == old(self).outcomes,
    {
        let ghost s0 = *self;
        let block_len = self.block_frames * self.channels as usize;
        let mut samples: Vec<S> = Vec::with_capacity(block_len);
        core::mem::swap(&mut samples, &mut self.buf);
        let block = InputBlock {
            seq: self.seq,
            first_frame: self.first_frame,
            channels: self.channels,
            frames: self.block_frames as u32,
            samples,
            dropped_before: self.dropped,
        };
        proof {
            self.sent@ = self.sent@.push(block@);
        }
        self.seq = self.seq + 1;
        self.first_frame = self.first_frame + self.block_frames as u64;
        self.awaiting = true;
        proof {
            let l = s0.block_len();
            assert(s0.pushed@.len() == (s0.seq + 1) * l) by (nonlinear_arith)
                requires
                    s0.pushed@.len() == s0.seq * l + l,
            ;
            assert(self.first_frame == self.seq * self.block_frames) by (nonlinear_arith)
                requires
                    self.first_frame == s0.first_frame + s0.block_frames,
                    s0.first_frame == s0.seq * s0.block_frames,
                    self.seq == s0.seq + 1,
                    self.block_frames == s0.block_frames,
            ;
            assert(s0.outcomes@.take(s0.seq as int) =~= s0.outcomes@);
            assert(block@ == block_at(s0.pushed@, s0.outcomes@, s0.channels, s0.block_frames as nat, s0.seq as int));
            assert forall|i: int| 0 <= i < self.seq implies #[trigger] self.sent@[i] == self.expected_block(i) by {
                if i < s0.seq {
                    assert(self.sent@[i] == s0.sent@[i]);
                    assert(s0.sent@[i] == s0.expected_block(i));
                }
            }
            assert(self.buf@ =~= self.pushed@.subrange(self.seq * l, self.pushed@.len() as int));
        }
        block
    }

    /// Account for what became of the block being awaited.
    fn record(&mut self, outcome: SendOutcome)
        requires
            old(self).wf_open(),
            old(self).awaiting,
        ensures
            final(self).wf_open(),
            !final(self).awaiting,
            final(self).outcomes@ == old(self).outcomes@.push(outcome),
            outcome == SendOutcome::Sent ==> final(self).dropped == 0,
            outcome == SendOutcome::Full ==> final(self).dropped == (if old(self).dropped == u32::MAX {
                u32::MAX
            } else {
                (old(self).dropped + 1) as u32
            }),
            outcome == SendOutcome::Closed ==> final(self).dropped == old(self).dropped,
            final(self).buf == old(self).buf,
            final(self).channels == old(self).channels,
            final(self).block_frames == old(self).block_frames,
            final(self).blocking == old(self).blocking,
            final(self).tx == old(self).tx,
            final(self).seq == old(self).seq,
            final(self).first_frame == old(self).first_frame,
            final(self).pushed == old(self).pushed,
            final(self).sent == old(self).sent,
    {
        let ghost s0 = *self;
        match outcome {
            SendOutcome::Sent => {
                self.dropped = 0;
            },
            SendOutcome::Full => {
                self.dropped = self.dropped.saturating_add(1);
            },
            SendOutcome::Closed => {},
        }
        self.awaiting = false;
        proof {
            let o = s0.outcomes@.push(outcome);
            assert(o.drop_last() =~= s0.outcomes@);
            self.outcomes@ = o;
            assert forall|i: int| 0 <= i < self.seq implies #[trigger] self.sent@[i] == self.expected_block(i) by {
                assert(s0.sent@[i] == s0.expected_block(i));
                assert(o.take(i) =~= s0.outcomes@.take(i));
            }
        }
    }

    /// Cut the complete pending block and hand it to the channel without waiting.
    fn emit(&mut self)
        requires
            old(self).wf_open(),
            !old(self).awaiting,
            old(self).block_len() > 0,
            old(self).buf@.len() == old(self).block_len(),
            old(self).first_frame + old(self).block_frames <= u64::MAX,
            old(self).seq < u64::MAX,
        ensures
            final(self).wf_open(),
            !final(self).awaiting,
            final(self).buf@.len() == 0,
            final(self).seq == old(self).seq + 1,
            final(self).first_frame == old(self).first_frame + old(self).block_frames,
            final(self).sent@.take(old(self).sent@.len() as int) == old(self).sent@,
            final(self).outcomes@.take(old(self).outcomes@.len() as int) == old(self).outcomes@,
            final(self).outcomes@.len() == old(self).outcomes@.len() + 1,
            final(self).channels == old(self).channels,
            final(self).block_frames == old(self).block_frames,
            final(self).blocking == old(self).blocking,
            final(self).tx == old(self).tx,
            final(self).pushed == old(self).pushed,
    {
        let ghost s0 = *self;
        let block = self.cut_block();
        let outcome = channel_try_send(&self.tx, block);
        self.record(outcome);
        proof {
            assert(self.sent@.take(s0.sent@.len() as int) =~= s0.sent@);
            assert(self.outcomes@.take(s0.outcomes@.len() as int) =~= s0.outcomes@);
        }
    }

    /// Push interleaved samples; every block they complete goes to the channel at once
    /// (`try_send`: a full channel drops it and the next block counts it).
    pub fn push(&mut self, data: &[S])
        where
            S: Copy,
        requires
            old(self).wf(),
            !old(self).is_blocking(),
            old(self).channels() > 0 || data@.len() == 0,
            old(self).next_first_frame() + old(self).pending().len() + data@.len() <= u64::MAX,
        ensures
            final(self).wf(),
            !final(self).awaiting(),
            final(self).channels() == old(self).channels(),
            final(self).block_frames() == old(self).block_frames(),
            final(self).is_blocking() == old(self).is_blocking(),
            final(self).sender() == old(self).sender(),
            final(self).pushed() == old(self).pushed() + data@,
            final(self).sent().take(old(self).sent().len() as int) == old(self).sent(),
            final(self).outcomes().take(old(self).outcomes().len() as int) == old(self).outcomes(),
    {
        let ghost s0 = *self;
        let n = data.len();
        let block_len = self.block_frames * self.channels as usize;
        let mut pos: usize = 0;
        proof {
            assert(data@.subrange(0, 0) =~= Seq::<S>::empty());
            assert(self.pushed@ =~= s0.pushed@ + data@.subrange(0, 0));
            assert(self.sent@.take(self.sent@.len() as int) =~= self.sent@);
            assert(self.outcomes@.take(self.outcomes@.len() as int) =~= self.outcomes@);
        }
        while pos < n
            invariant
                self.wf(),
                !self.blocking,
                !self.awaiting,
                n == data@.len(),
                pos <= n,
                block_len == self.block_len(),
                self.channels == s0.channels,
                self.block_frames == s0.block_frames,
                self.tx == s0.tx,
                self.channels > 0 || n == 0,
                self.pushed@ == s0.pushed@ + data@.subrange(0, pos as int),
                self.first_frame + self.buf@.len() + (n - pos) <= u64::MAX,
                self.sent@.take(s0.sent@.len() as int) == s0.sent@,
                self.outcomes@.take(s0.outcomes@.len() as int) == s0.outcomes@,
                s0.sent@.len() <= self.sent@.len(),
                s0.outcomes@.len() <= self.outcomes@.len(),
            decreases n - pos,
        {
            let room = block_len - self.buf.len();
            let take = if room < n - pos { room } else { n - pos };
            let ghost before = *self;
            self.absorb(data, pos, take);
            proof {
                assert(self.pushed@ =~= s0.pushed@ + data@.subrange(0, pos + take));
            }
            pos = pos + take;
            if self.buf.len() == block_len {
                let ghost full = *self;
                proof {
                    assert(self.block_frames <= self.block_frames * self.channels) by (nonlinear_arith)
                        requires
                            self.channels >= 1,
                    ;
                    assert(self.seq <= self.first_frame) by (nonlinear_arith)
                        requires
                            self.first_frame == self.seq * self.block_frames,
                            self.block_frames >= 1,
                    ;
                }
                self.emit();
                proof {
                    assert(self.sent@.take(s0.sent@.len() as int) =~= s0.sent@) by {
                        assert(self.sent@.take(s0.sent@.len() as int) =~= self.sent@.take(full.sent@.len() as int).take(
                            s0.sent@.len() as int,
                        ));
                    }
                    assert(self.outcomes@.take(s0.outcomes@.len() as int) =~= s0.outcomes@) by {
                        assert(self.outcomes@.take(s0.outcomes@.len() as int) =~= self.outcomes@.take(
                            full.outcomes@.len() as int,
                        ).take(s0.outcomes@.len() as int));
                    }
                }
            }
        }
        proof {
            assert(data@.subrange(0, n as int) =~= data@);
        }
    }

    /// Blocking mode: take samples from `data[pos..]` until a block completes or the data
    /// runs out. A completed block is handed back, for the caller to send (waiting for room
    /// if it likes) and to report with [`Blocker::record_outcome`]; the position reached is
    /// returned with it.
    pub fn next_block(&mut self, data: &[S], pos: usize) -> (r: (usize, Option<InputBlock<S>>))
        where
            S: Copy,
        requires
            old(self).wf(),
            old(self).is_blocking(),
            !old(self).awaiting(),
            pos <= data@.len(),
            old(self).channels() > 0 || pos == data@.len(),
            old(self).next_first_frame() + old(self).pending().len() + (data@.len() - pos) <= u64::MAX,
        ensures
            final(self).wf(),
            final(self).channels() == old(self).channels(),
            final(self).block_frames() == old(self).block_frames(),
            final(self).is_blocking(),
            final(self).sender() == old(self).sender(),
            pos <= r.0 <= data@.len(),
            final(self).pushed() == old(self).pushed() + data@.subrange(pos as int, r.0 as int),
            final(self).outcomes() == old(self).outcomes(),
            final(self).next_first_frame() + final(self).pending().len() + (data@.len() - r.0) <= u64::MAX,
            match r.1 {
                Some(b) => {
                    &&& r.0 > pos
                    &&& final(self).awaiting()
                    &&& final(self).pending().len() == 0
                    &&& final(self).sent() == old(self).sent().push(b@)
                    &&& b@ == final(self).expected_block(old(self).sent().len() as int)
                },
                None => {
                    &&& r.0 == data@.len()
                    &&& !final(self).awaiting()
                    &&& final(self).sent() == old(self).sent()
                },
            },
    {
        let n = data.len();
        let block_len = self.block_frames * self.channels as usize;
        let room = block_len - self.buf.len();
        let take = if room < n - pos { room } else { n - pos };
        self.absorb(data, pos, take);
        let end = pos + take;
        if block_len == 0 || self.buf.len() < block_len {
            return (end, None);
        }
        proof {
            assert(self.block_frames <= self.block_frames * self.channels) by (nonlinear_arith)
                requires
                    self.channels >= 1,
            ;
            assert(self.seq <= self.first_frame) by (nonlinear_arith)
                requires
                    self.first_frame == self.seq * self.block_frames,
                    self.block_frames >= 1,
            ;
        }
        let ghost i = self.seq as int;
        let b = self.cut_block();
        proof {
            assert(self.sent@[i] == self.expected_block(i));
        }
        (end, Some(b))
    }

    /// Blocking mode: report what became of the block [`Blocker::next_block`] handed out.
    /// A delivered block resets the drop count; a refused one raises it; a closed channel
    /// leaves it.
    pub fn record_outcome(&mut self, outcome: SendOutcome)
        requires
            old(self).wf(),
            old(self).awaiting(),
        ensures
            final(self).wf(),
            !final(self).awaiting(),
            final(self).outcomes() == old(self).outcomes().push(outcome),
            final(self).dropped() == drops_after(final(self).outcomes()),
            outcome == SendOutcome::Sent ==> final(self).dropped() == 0,
            outcome == SendOutcome::Full ==> final(self).dropped() == (if old(self).dropped() == u32::MAX {
                u32::MAX
            } else {
                (old(self).dropped() + 1) as u32
            }),
            outcome == SendOutcome::Closed ==> final(self).dropped() == old(self).dropped(),
            final(self).sent() == old(self).sent(),
            final(self).pushed() == old(self).pushed(),
            final(self).pending() == old(self).pending(),
            final(self).next_first_frame() == old(self).next_first_frame(),
            final(self).channels() == old(self).channels(),
            final(self).block_frames() == old(self).block_frames(),
            final(self).is_blocking() == old(self).is_blocking(),
            final(self).sender() == old(self).sender(),
    {
        self.record(outcome);
    }

    /// The channel the blocks go to (blocking mode sends through it).
    pub fn channel(&self) -> (r: &Sender<InputBlock<S>>)
        ensures
            *r == self.sender(),
    {
        &self.tx
    }

    /// Give the channel back (to regroup into blocks of another size).
    pub fn into_sender(self) -> (tx: Sender<InputBlock<S>>)
        ensures
            tx == self.sender(),
    {
        self.tx
    }

    /// Whether the receiver is gone.
    pub fn is_closed(&self) -> (r: bool) {
        channel_is_closed(&self.tx)
    }
}

} // verus!
