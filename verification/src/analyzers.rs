//! The integer side of the stream analyzers: the oscilloscope's window geometry and
//! decimation, and the input auto-range policy.

use vstd::prelude::*;

verus! {

/// `⌈a / b⌉`.
pub open spec fn ceil_div(a: nat, b: nat) -> nat {
    if a % b == 0 {
        a / b
    } else {
        a / b + 1
    }
}

fn div_ceil(a: usize, b: usize) -> (r: usize)
    requires
        b > 0,
    ensures
        r == ceil_div(a as nat, b as nat),
{
    if a % b == 0 {
        a / b
    } else {
        assert(a / b < usize::MAX) by (nonlinear_arith)
            requires
                b >= 2,
        ;
        a / b + 1
    }
}

/// Oscilloscope window geometry: the window length (at least 2 frames), the sub-sampling
/// step and the number of points shown.
pub open spec fn scope_geometry_spec(window_frames: nat, points: nat) -> (nat, nat, nat) {
    let window = if window_frames < 2 { 2 } else { window_frames };
    let p = if points == 0 {
        window
    } else if points > window {
        window
    } else {
        points
    };
    let step = ceil_div(window, p);
    (window, step, ceil_div(window, step))
}

/// `(window, step, points)` of an oscilloscope: `points == 0` shows every frame of the
/// window; otherwise every `step`-th frame, `step = ⌈window / points⌉`.
pub fn scope_geometry(window_frames: usize, points: usize) -> (r: (usize, usize, usize))
    ensures
        (r.0 as nat, r.1 as nat, r.2 as nat) == scope_geometry_spec(window_frames as nat, points as nat),
        r.0 >= 2,
        r.1 >= 1,
        1 <= r.2 <= r.0,
        (r.2 - 1) * r.1 < r.0,
        r.0 <= r.2 * r.1,
{
    let window = if window_frames < 2 { 2 } else { window_frames };
    let p = if points == 0 {
        window
    } else if points > window {
        window
    } else {
        points
    };
    let step = div_ceil(window, p);
    proof {
        assert(1 <= step <= window) by (nonlinear_arith)
            requires
                1 <= p <= window,
                step == ceil_div(window as nat, p as nat),
        ;
    }
    let shown = div_ceil(window, step);
    proof {
        assert(1 <= shown <= window && (shown - 1) * step < window && window <= shown * step) by (nonlinear_arith)
            requires
                1 <= step <= window,
                shown == ceil_div(window as nat, step as nat),
        ;
    }
    (window, step, shown)
}

/// Channel-major sub-sampled window: value `c·points + p` is frame `start + p·step` of
/// channel `c`.
pub open spec fn decimated<S>(buf: Seq<S>, channels: nat, start: nat, points: nat, step: nat) -> Seq<S> {
    Seq::new(
        channels * points,
        |k: int| buf[(start + (k % points as int) * step) * channels + k / points as int],
    )
}

/// The values an oscilloscope reading carries for a window starting at frame `start` of an
/// interleaved buffer.
pub fn decimate_window<S: Copy>(buf: &[S], channels: usize, start: usize, points: usize, step: usize) -> (r: Vec<S>)
    requires
        channels >= 1,
        points >= 1,
        (start + (points - 1) * step + 1) * channels <= buf@.len(),
    ensures
        r@ == decimated(buf@, channels as nat, start as nat, points as nat, step as nat),
{
    let blen = buf.len();
    let mut values: Vec<S> = Vec::new();
    let mut c: usize = 0;
    while c < channels
        invariant
            blen == buf@.len(),
            channels >= 1,
            points >= 1,
            (start + (points - 1) * step + 1) * channels <= buf@.len(),
            c <= channels,
            values@.len() == c * points,
            forall|k: int| 0 <= k < c * points ==> #[trigger] values@[k] == decimated(
                buf@,
                channels as nat,
                start as nat,
                points as nat,
                step as nat,
            )[k],
        decreases channels - c,
    {
        let mut p: usize = 0;
        while p < points
            invariant
                blen == buf@.len(),
                channels >= 1,
                points >= 1,
                (start + (points - 1) * step + 1) * channels <= buf@.len(),
                c < channels,
                p <= points,
                values@.len() == c * points + p,
                forall|k: int| 0 <= k < c * points + p ==> #[trigger] values@[k] == decimated(
                    buf@,
                    channels as nat,
                    start as nat,
                    points as nat,
                    step as nat,
                )[k],
            decreases points - p,
        {
            proof {
                assert((start + p * step) * channels + c < buf@.len() && p * step <= start + p * step
                    && start + p * step <= (start + p * step) * channels) by (nonlinear_arith)
                    requires
                        (start + (points - 1) * step + 1) * channels <= buf@.len(),
                        p < points,
                        c < channels,
                ;
                let k = c * points + p;
                assert(k / points as int == c && k % points as int == p) by (nonlinear_arith)
                    requires
                        k == c * points + p,
                        p < points,
                ;
                assert(c * points + p < channels * points) by (nonlinear_arith)
                    requires
                        c < channels,
                        p < points,
                ;
            }
            values.push(buf[(start + p * step) * channels + c]);
            p = p + 1;
        }
        proof {
            assert((c + 1) * points == c * points + points) by (nonlinear_arith);
        }
        c = c + 1;
    }
    proof {
        assert(values@ =~= decimated(buf@, channels as nat, start as nat, points as nat, step as nat));
    }
    values
}

/// One oscilloscope reading: the index of its first frame and its channel-major values.
pub struct ScopeReading<S> {
    pub first_frame: u64,
    pub values: Vec<S>,
}

/// The oscilloscope's sample buffer: interleaved samples, at most two windows' worth
/// between readings; a reading is cut once two whole windows are buffered.
#[verifier::reject_recursive_types(S)]
pub struct ScopeBuffer<S> {
    channels: usize,
    window: usize,
    step: usize,
    points: usize,
    buf: Vec<S>,
    first_frame: u64,
}

impl<S: Copy> ScopeBuffer<S> {
    pub closed spec fn n_channels(&self) -> nat {
        self.channels as nat
    }

    pub closed spec fn window_frames(&self) -> nat {
        self.window as nat
    }

    pub closed spec fn step_frames(&self) -> nat {
        self.step as nat
    }

    pub closed spec fn shown_points(&self) -> nat {
        self.points as nat
    }

    /// The buffered interleaved samples.
    pub closed spec fn buffered(&self) -> Seq<S> {
        self.buf@
    }

    /// Index of the frame the buffer starts with.
    pub closed spec fn head_frame(&self) -> u64 {
        self.first_frame
    }

    pub closed spec fn wf(&self) -> bool {
        &&& self.window >= 2
        &&& self.step >= 1
        &&& 1 <= self.points <= self.window
        &&& (self.points - 1) * self.step < self.window
    }

    /// A window of `window_frames` frames (at least 2) showing `points` points per channel
    /// (0: every frame), as `scope_geometry` lays them out.
    pub fn new(window_frames: usize, points: usize, channels: u16) -> (b: ScopeBuffer<S>)
        ensures
            b.wf(),
            (b.window_frames(), b.step_frames(), b.shown_points()) == scope_geometry_spec(window_frames as nat, points as nat),
            b.n_channels() == channels,
            b.buffered() == Seq::<S>::empty(),
            b.head_frame() == 0,
    {
        let (window, step, shown) = scope_geometry(window_frames, points);
        ScopeBuffer { channels: channels as usize, window, step, points: shown, buf: Vec::new(), first_frame: 0 }
    }

    pub fn points(&self) -> (r: usize)
        ensures
            r == self.shown_points(),
    {
        self.points
    }

    pub fn step(&self) -> (r: usize)
        ensures
            r == self.step_frames(),
    {
        self.step
    }

    pub fn window(&self) -> (r: usize)
        ensures
            r == self.window_frames(),
    {
        self.window
    }

    pub fn first_frame(&self) -> (r: u64)
        ensures
            r == self.head_frame(),
    {
        self.first_frame
    }

    /// The buffered samples, for the trigger search.
    pub fn samples(&self) -> (r: &[S])
        ensures
            r@ == self.buffered(),
    {
        self.buf.as_slice()
    }

    /// Append a block; an empty buffer takes the block's first frame as its start.
    pub fn extend(&mut self, block_first_frame: u64, samples: &[S])
        ensures
            final(self).buffered() == old(self).buffered() + samples@,
            final(self).head_frame() == if old(self).buffered().len() == 0 {
                block_first_frame
            } else {
                old(self).head_frame()
            },
            final(self).n_channels() == old(self).n_channels(),
            final(self).window_frames() == old(self).window_frames(),
            final(self).step_frames() == old(self).step_frames(),
            final(self).shown_points() == old(self).shown_points(),
            old(self).wf() ==> final(self).wf(),
    {
        if self.buf.len() == 0 {
            self.first_frame = block_first_frame;
        }
        let ghost b0 = self.buf@;
        let ghost s0 = *self;
        let n = samples.len();
        let mut i: usize = 0;
        while i < n
            invariant
                n == samples@.len(),
                self.channels == s0.channels,
                self.window == s0.window,
                self.step == s0.step,
                self.points == s0.points,
                self.first_frame == s0.first_frame,
                i <= n,
                self.buf@ == b0 + samples@.subrange(0, i as int),
            decreases n - i,
        {
            self.buf.push(samples[i]);
            proof {
                assert(samples@.subrange(0, i + 1) =~= samples@.subrange(0, i as int).push(samples@[i as int]));
            }
            i = i + 1;
        }
        proof {
            assert(samples@.subrange(0, n as int) =~= samples@);
        }
    }

    /// Whether two whole windows are buffered, so that a reading can be cut.
    pub fn ready(&self) -> (r: bool)
        requires
            self.n_channels() >= 1,
        ensures
            r == (self.buffered().len() / self.n_channels() >= 2 * self.window_frames()),
    {
        let frames = self.buf.len() / self.channels;
        frames >= self.window && frames - self.window >= self.window
    }

    /// Cut the reading whose window starts `start` frames into the buffer (where the
    /// trigger fired, or 0), then drop one window and keep the rest.
    pub fn take(&mut self, start: usize) -> (r: ScopeReading<S>)
        requires
            old(self).wf(),
            old(self).n_channels() >= 1,
            old(self).buffered().len() / old(self).n_channels() >= 2 * old(self).window_frames(),
            start < old(self).window_frames(),
            old(self).head_frame() + old(self).window_frames() <= u64::MAX,
        ensures
            r.first_frame == old(self).head_frame() + start,
            r.values@ == decimated(
                old(self).buffered(),
                old(self).n_channels(),
                start as nat,
                old(self).shown_points(),
                old(self).step_frames(),
            ),
            final(self).buffered() == old(self).buffered().subrange(
                (old(self).window_frames() * old(self).n_channels()) as int,
                old(self).buffered().len() as int,
            ),
            final(self).head_frame() == old(self).head_frame() + old(self).window_frames(),
            final(self).wf(),
            final(self).n_channels() == old(self).n_channels(),
            final(self).window_frames() == old(self).window_frames(),
            final(self).step_frames() == old(self).step_frames(),
            final(self).shown_points() == old(self).shown_points(),
    {
        let ch = self.channels;
        let w = self.window;
        let len = self.buf.len();
        proof {
            assert((start + (self.points - 1) * self.step + 1) * ch <= len && w * ch <= len) by (nonlinear_arith)
                requires
                    len as int / ch as int >= 2 * w,
                    ch >= 1,
                    start < w,
                    (self.points - 1) * self.step < w,
            ;
        }
        let values = decimate_window(self.buf.as_slice(), ch, start, self.points, self.step);
        let first = self.first_frame + start as u64;
        let rest = self.buf.split_off(w * ch);
        self.buf = rest;
        self.first_frame = self.first_frame + w as u64;
        ScopeReading { first_frame: first, values }
    }
}

/// A window of `len` consecutive audio frames, filled frame by frame across blocks (the
/// level meter's display windows, the analyzer's FFT frames).
pub struct FrameWindow {
    len: usize,
    filled: usize,
    start: u64,
}

impl FrameWindow {
    pub closed spec fn len(&self) -> usize {
        self.len
    }

    /// Frames gathered in the current window.
    pub closed spec fn filled(&self) -> usize {
        self.filled
    }

    /// Index of the first frame of the current (or last completed) window.
    pub closed spec fn first_frame(&self) -> u64 {
        self.start
    }

    pub open spec fn wf(&self) -> bool {
        self.len() >= 1 && self.filled() < self.len()
    }

    pub fn new(len: usize) -> (w: FrameWindow)
        requires
            len >= 1,
        ensures
            w.wf(),
            w.len() == len,
            w.filled() == 0,
            w.first_frame() == 0,
    {
        FrameWindow { len, filled: 0, start: 0 }
    }

    /// Take frame `i` of a block whose first frame is `block_first_frame`; `true` when it
    /// completes the window (which then starts over).
    pub fn advance(&mut self, block_first_frame: u64, i: usize) -> (complete: bool)
        requires
            old(self).wf(),
            block_first_frame + i <= u64::MAX,
        ensures
            final(self).wf(),
            final(self).len() == old(self).len(),
            final(self).first_frame() == if old(self).filled() == 0 { (block_first_frame + i) as u64 } else { old(self).first_frame() },
            complete == (old(self).filled() + 1 == old(self).len()),
            final(self).filled() == if complete { 0 } else { (old(self).filled() + 1) as usize },
    {
        if self.filled == 0 {
            self.start = block_first_frame + i as u64;
        }
        self.filled = self.filled + 1;
        if self.filled == self.len {
            self.filled = 0;
            true
        } else {
            false
        }
    }

    /// Frames gathered in the current window.
    pub fn filled_frames(&self) -> (r: usize)
        ensures
            r == self.filled(),
    {
        self.filled
    }

    pub fn start(&self) -> (r: u64)
        ensures
            r == self.first_frame(),
    {
        self.start
    }
}

/// Whether the analyzer emits the frame that starts at `frame_start`: always the first
/// time, then once at least `min_interval` frames have passed since the last emitted one.
pub open spec fn emit_due(last_emit: Option<u64>, frame_start: u64, min_interval: u64) -> bool {
    match last_emit {
        None => true,
        Some(last) => (if frame_start >= last { frame_start - last } else { 0 }) >= min_interval,
    }
}

/// Rate limit of the analyzer's frames; updates `last_emit` when the frame goes out.
pub fn gate_emission(last_emit: &mut Option<u64>, frame_start: u64, min_interval: u64) -> (emit: bool)
    ensures
        emit == emit_due(*old(last_emit), frame_start, min_interval),
        emit ==> *final(last_emit) == Some(frame_start),
        !emit ==> *final(last_emit) == *old(last_emit),
{
    let emit = match *last_emit {
        Some(last) => frame_start.saturating_sub(last) >= min_interval,
        None => true,
    };
    if emit {
        *last_emit = Some(frame_start);
    }
    emit
}

/// How an averager folds the next power spectrum into its accumulator.
#[derive(Debug, Clone, Copy, PartialEq, Eq, Structural)]
pub enum AverageStep {
    /// The accumulator becomes the new spectrum.
    Replace,
    /// `acc ← acc + (x − acc) / d`.
    Blend(u32),
    /// The accumulator stays (a completed linear average is frozen).
    Keep,
    /// Per-bin maximum.
    Max,
}

/// The counting side of a spectrum averager: blocks seen since the last reset, and what
/// the next block does to the accumulator.
pub struct AverageCounter {
    mode: crate::dsp::Averaging,
    len: usize,
    count: u32,
}

/// The step an averager in `mode` takes on the `count`-th block since its last reset.
pub open spec fn average_step(mode: crate::dsp::Averaging, count: u32) -> AverageStep {
    match mode {
        crate::dsp::Averaging::Off => AverageStep::Replace,
        crate::dsp::Averaging::Exponential { n } => {
            let n1 = if n == 0 { 1 } else { n };
            AverageStep::Blend(if count < n1 { count } else { n1 })
        },
        crate::dsp::Averaging::Linear { n } => {
            let n1 = if n == 0 { 1 } else { n };
            if count <= n1 {
                AverageStep::Blend(count)
            } else {
                AverageStep::Keep
            }
        },
        crate::dsp::Averaging::PeakHold => if count == 1 {
            AverageStep::Replace
        } else {
            AverageStep::Max
        },
    }
}

/// What each averaging mode does with the `count`-th block since its last reset: with
/// averaging off every block replaces the accumulator; peak hold replaces with the first
/// block and keeps the per-bin maximum after it; a linear average of `n` blocks is the
/// running mean of the first `n` (divisor `count`) and is frozen after them; an exponential
/// one is the running mean until `n` blocks are seen and blends with weight `1/n` after.
pub proof fn lemma_average_modes(count: u32, n: u32)
    requires
        count >= 1,
        n >= 1,
    ensures
        average_step(crate::dsp::Averaging::Off, count) == AverageStep::Replace,
        count == 1 ==> average_step(crate::dsp::Averaging::PeakHold, count) == AverageStep::Replace,
        count > 1 ==> average_step(crate::dsp::Averaging::PeakHold, count) == AverageStep::Max,
        count <= n ==> average_step(crate::dsp::Averaging::Linear { n }, count) == AverageStep::Blend(count),
        count > n ==> average_step(crate::dsp::Averaging::Linear { n }, count) == AverageStep::Keep,
        count <= n ==> average_step(crate::dsp::Averaging::Exponential { n }, count) == AverageStep::Blend(count),
        count >= n ==> average_step(crate::dsp::Averaging::Exponential { n }, count) == AverageStep::Blend(n),
{
}

impl AverageCounter {
    pub closed spec fn mode(&self) -> crate::dsp::Averaging {
        self.mode
    }

    /// Length of the spectra being averaged.
    pub closed spec fn len(&self) -> usize {
        self.len
    }

    pub closed spec fn seen(&self) -> u32 {
        self.count
    }

    pub fn new(mode: crate::dsp::Averaging) -> (a: AverageCounter)
        ensures
            a.mode() == mode,
            a.len() == 0,
            a.seen() == 0,
    {
        AverageCounter { mode, len: 0, count: 0 }
    }

    pub fn reset(&mut self)
        ensures
            final(self).mode() == old(self).mode(),
            final(self).len() == old(self).len(),
            final(self).seen() == 0,
    {
        self.count = 0;
    }

    pub fn count(&self) -> (r: u32)
        ensures
            r == self.seen(),
    {
        self.count
    }

    /// Account for a spectrum of `len` bins: a new length restarts the average (the
    /// accumulator is rebuilt as zeros). Returns whether it restarted, and the step.
    pub fn begin(&mut self, len: usize) -> (r: (bool, AverageStep))
        ensures
            r.0 == (len != old(self).len()),
            final(self).len() == len,
            final(self).mode() == old(self).mode(),
            final(self).seen() == ({
                let c = if r.0 { 0u32 } else { old(self).seen() };
                if c == u32::MAX { c } else { (c + 1) as u32 }
            }),
            r.1 == average_step(old(self).mode(), final(self).seen()),
            old(self).mode() == crate::dsp::Averaging::Off ==> r.1 == AverageStep::Replace,
            old(self).mode() == crate::dsp::Averaging::PeakHold ==> (r.1 == AverageStep::Replace
                <==> final(self).seen() == 1),
    {
        let restart = len != self.len;
        if restart {
            self.len = len;
            self.count = 0;
        }
        self.count = self.count.saturating_add(1);
        let step = match self.mode {
            crate::dsp::Averaging::Off => AverageStep::Replace,
            crate::dsp::Averaging::Exponential { n } => {
                let n1 = if n == 0 { 1 } else { n };
                AverageStep::Blend(if self.count < n1 { self.count } else { n1 })
            },
            crate::dsp::Averaging::Linear { n } => {
                let n1 = if n == 0 { 1 } else { n };
                if self.count <= n1 {
                    AverageStep::Blend(self.count)
                } else {
                    AverageStep::Keep
                }
            },
            crate::dsp::Averaging::PeakHold => if self.count == 1 {
                AverageStep::Replace
            } else {
                AverageStep::Max
            },
        };
        (restart, step)
    }

    /// True once a linear average has collected its `n` blocks.
    pub fn is_complete(&self) -> (r: bool)
        ensures
            r == match self.mode() {
                crate::dsp::Averaging::Linear { n } => self.seen() >= (if n == 0 { 1 } else { n }),
                _ => false,
            },
    {
        match self.mode {
            crate::dsp::Averaging::Linear { n } => self.count >= (if n == 0 { 1 } else { n }),
            _ => false,
        }
    }
}

/// Where the recent peak level of the input stands, relative to the policy thresholds
/// (the classification of the levels themselves is done on the samples).
#[derive(Debug, Clone, Copy, PartialEq, Eq, Structural)]
pub enum PeakLevel {
    /// Above the clipping threshold: go up one range.
    Clipping,
    /// Below the down threshold: go down one range once it has lasted long enough.
    Low,
    /// Anything in between.
    Comfortable,
}

/// Input auto-range policy, all timings in audio frames:
/// - **up** one range as soon as the recent peak clips;
/// - **down** one range when the peak has stayed low for `hold_frames`;
/// - never more than one change per `interval_frames` (a refused change counts too).
pub struct RangePolicy {
    current: usize,
    n_ranges: usize,
    low_since: Option<u64>,
    last_change: Option<u64>,
    hold_frames: u64,
    interval_frames: u64,
}

/// Whether enough frames have passed since the last change (or there was none).
pub open spec fn interval_ok(last_change: Option<u64>, now: u64, interval: u64) -> bool {
    match last_change {
        None => true,
        Some(t) => (if now >= t { now - t } else { 0 }) >= interval,
    }
}

impl RangePolicy {
    pub closed spec fn range(&self) -> usize {
        self.current
    }

    pub closed spec fn n_ranges(&self) -> usize {
        self.n_ranges
    }

    pub closed spec fn low_since(&self) -> Option<u64> {
        self.low_since
    }

    pub closed spec fn last_change(&self) -> Option<u64> {
        self.last_change
    }

    pub closed spec fn hold_frames(&self) -> u64 {
        self.hold_frames
    }

    pub closed spec fn interval_frames(&self) -> u64 {
        self.interval_frames
    }

    pub open spec fn wf(&self) -> bool {
        2 <= self.n_ranges() && self.range() < self.n_ranges()
    }

    /// `None` when the device has fewer than two input ranges.
    pub fn new(current: usize, n_ranges: usize, hold_frames: u64, interval_frames: u64) -> (r: Option<RangePolicy>)
        ensures
            n_ranges < 2 ==> r is None,
            n_ranges >= 2 ==> (r matches Some(p) && p.wf() && p.n_ranges() == n_ranges && p.range() == (if current
                < n_ranges { current } else { (n_ranges - 1) as usize }) && p.low_since() is None
                && p.last_change() is None && p.hold_frames() == hold_frames && p.interval_frames()
                == interval_frames),
    {
        if n_ranges < 2 {
            return None;
        }
        Some(
            RangePolicy {
                current: if current < n_ranges { current } else { n_ranges - 1 },
                n_ranges,
                low_since: None,
                last_change: None,
                hold_frames,
                interval_frames,
            },
        )
    }

    pub fn current(&self) -> (r: usize)
        ensures
            r == self.range(),
    {
        self.current
    }

    /// Look at the recent peak of the block starting at frame `now`: the range the input
    /// should switch to, if any.
    pub fn decide(&mut self, now: u64, level: PeakLevel) -> (target: Option<usize>)
        requires
            old(self).wf(),
        ensures
            final(self).wf(),
            final(self).range() == old(self).range(),
            final(self).n_ranges() == old(self).n_ranges(),
            final(self).last_change() == old(self).last_change(),
            final(self).hold_frames() == old(self).hold_frames(),
            final(self).interval_frames() == old(self).interval_frames(),
            level == PeakLevel::Clipping ==> final(self).low_since() is None && target == if old(self).range() + 1
                < old(self).n_ranges() && interval_ok(old(self).last_change(), now, old(self).interval_frames()) {
                Some((old(self).range() + 1) as usize)
            } else {
                None
            },
            level == PeakLevel::Comfortable ==> final(self).low_since() is None && target is None,
            level == PeakLevel::Low ==> {
                let since = match old(self).low_since() {
                    Some(t) => t,
                    None => now,
                };
                &&& final(self).low_since() == Some(since)
                &&& target == if (if now >= since { now - since } else { 0 }) >= old(self).hold_frames()
                    && old(self).range() > 0 && interval_ok(old(self).last_change(), now, old(self).interval_frames()) {
                    Some((old(self).range() - 1) as usize)
                } else {
                    None
                }
            },
            target matches Some(t) ==> t < old(self).n_ranges() && interval_ok(old(self).last_change(), now, old(self).interval_frames()),
    {
        let interval_ok = match self.last_change {
            None => true,
            Some(t) => now.saturating_sub(t) >= self.interval_frames,
        };
        match level {
            PeakLevel::Clipping => {
                self.low_since = None;
                if self.current + 1 < self.n_ranges && interval_ok {
                    Some(self.current + 1)
                } else {
                    None
                }
            },
            PeakLevel::Low => {
                let since = match self.low_since {
                    Some(t) => t,
                    None => now,
                };
                self.low_since = Some(since);
                if now.saturating_sub(since) >= self.hold_frames && self.current > 0 && interval_ok {
                    Some(self.current - 1)
                } else {
                    None
                }
            },
            PeakLevel::Comfortable => {
                self.low_since = None;
                None
            },
        }
    }

    /// The device switched to `target` at frame `now`.
    pub fn applied(&mut self, target: usize, now: u64)
        requires
            old(self).wf(),
            target < old(self).n_ranges(),
        ensures
            final(self).wf(),
            final(self).range() == target,
            final(self).last_change() == Some(now),
            final(self).low_since() is None,
            final(self).n_ranges() == old(self).n_ranges(),
            final(self).hold_frames() == old(self).hold_frames(),
            final(self).interval_frames() == old(self).interval_frames(),
    {
        self.current = target;
        self.last_change = Some(now);
        self.low_since = None;
    }

    /// The device refused the switch at frame `now`: the range stays, but the attempt
    /// counts as a change for the interval.
    pub fn refused(&mut self, now: u64)
        requires
            old(self).wf(),
        ensures
            final(self).wf(),
            final(self).range() == old(self).range(),
            final(self).last_change() == Some(now),
            final(self).low_since() == old(self).low_since(),
            final(self).n_ranges() == old(self).n_ranges(),
            final(self).hold_frames() == old(self).hold_frames(),
            final(self).interval_frames() == old(self).interval_frames(),
    {
        self.last_change = Some(now);
    }
}

/// Two range changes (or attempts) are never closer than the interval: after a change at
/// frame `t`, no change is proposed before frame `t + interval`.
pub proof fn lemma_changes_are_spaced(last: u64, now: u64, interval: u64)
    requires
        last <= now,
        now < last + interval,
    ensures
        !interval_ok(Some(last), now, interval),
{
}

} // verus!
