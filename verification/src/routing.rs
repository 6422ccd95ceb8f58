//! Channel routing between a device's native interleaved buffers and the channels a
//! stream selected: capture selection, output spreading, stereo split and merge, and the
//! generator's channel mask.

use vstd::prelude::*;

verus! {

/// The selection keeps every device channel in order.
pub open spec fn is_identity(sel: Seq<u16>, dev_ch: nat) -> bool {
    sel.len() == dev_ch && forall|i: int| 0 <= i < sel.len() ==> sel[i] == i
}

/// The selected channels of every complete frame, frame after frame.
pub open spec fn selected<S>(data: Seq<S>, dev_ch: nat, sel: Seq<u16>) -> Seq<S> {
    let k = sel.len();
    Seq::new((data.len() / dev_ch) * k, |x: int| data[(x as int / (k as int)) * dev_ch + sel[x as int % (k as int)]])
}

/// What a capture callback hands on: the block as it came when the selection is every
/// channel in order, else the selected channels of each complete frame.
pub open spec fn capture_selection<S>(data: Seq<S>, dev_ch: nat, sel: Seq<u16>) -> Seq<S> {
    if is_identity(sel, dev_ch) {
        data
    } else {
        selected(data, dev_ch, sel)
    }
}

/// Channel `c` of frame `f` of an interleaved buffer of `width` channels.
pub open spec fn sample_of<S>(buf: Seq<S>, width: nat, f: int, c: int) -> S {
    buf[f * width + c]
}

/// A capture of whole frames hands on, frame by frame, exactly the selected channels in
/// the selection's order: as many frames as came in, `sel.len()` samples each, sample `j`
/// of frame `f` being device channel `sel[j]` of frame `f`, whether or not the selection
/// is every channel in order.
pub proof fn lemma_capture_frames<S>(data: Seq<S>, dev_ch: nat, sel: Seq<u16>)
    requires
        dev_ch >= 1,
        forall|j: int| 0 <= j < sel.len() ==> sel[j] < dev_ch,
        data.len() % dev_ch == 0,
    ensures
        capture_selection(data, dev_ch, sel).len() == (data.len() / dev_ch) * sel.len(),
        forall|f: int, j: int|
            0 <= f < data.len() / dev_ch && 0 <= j < sel.len() ==> #[trigger] sample_of(
                capture_selection(data, dev_ch, sel),
                sel.len(),
                f,
                j,
            ) == sample_of(data, dev_ch, f, sel[j] as int),
{
    let frames = data.len() / dev_ch;
    let k = sel.len();
    let r = capture_selection(data, dev_ch, sel);
    assert(data.len() == frames * dev_ch) by (nonlinear_arith)
        requires
            frames == data.len() / dev_ch,
            data.len() % dev_ch == 0,
            dev_ch >= 1,
    ;
    assert forall|f: int, j: int| 0 <= f < frames && 0 <= j < k implies #[trigger] sample_of(r, k, f, j) == sample_of(
        data,
        dev_ch,
        f,
        sel[j] as int,
    ) by {
        let x = f * k + j;
        assert(0 <= x < frames * k) by (nonlinear_arith)
            requires
                x == f * k + j,
                0 <= j < k,
                0 <= f < frames,
        ;
        if is_identity(sel, dev_ch) {
            assert(sel[j] == j);
        } else {
            assert(x / (k as int) == f && x % (k as int) == j) by (nonlinear_arith)
                requires
                    x == f * k + j,
                    0 <= j < k,
                    0 <= f,
            ;
        }
    }
}

fn identity_selection(sel: &[u16], dev_ch: usize) -> (r: bool)
    ensures
        r == is_identity(sel@, dev_ch as nat),
{
    if sel.len() != dev_ch {
        return false;
    }
    let mut i: usize = 0;
    while i < sel.len()
        invariant
            i <= sel@.len(),
            forall|j: int| 0 <= j < i ==> sel@[j] == j,
        decreases sel@.len() - i,
    {
        if sel[i] as usize != i {
            return false;
        }
        i = i + 1;
    }
    true
}

/// Keep the selected channels of a captured interleaved buffer.
pub fn select_channels<S: Copy>(data: &[S], dev_ch: usize, sel: &[u16]) -> (r: Vec<S>)
    requires
        dev_ch >= 1,
        forall|j: int| 0 <= j < sel@.len() ==> sel@[j] < dev_ch,
    ensures
        r@ == capture_selection(data@, dev_ch as nat, sel@),
        data@.len() % (dev_ch as nat) == 0 ==> r@.len() == (data@.len() / (dev_ch as nat)) * sel@.len(),
        data@.len() % (dev_ch as nat) == 0 ==> forall|f: int, j: int|
            0 <= f < data@.len() / (dev_ch as nat) && 0 <= j < sel@.len() ==> #[trigger] sample_of(r@, sel@.len(), f, j)
                == sample_of(data@, dev_ch as nat, f, sel@[j] as int),
{
    proof {
        if data@.len() % (dev_ch as nat) == 0 {
            lemma_capture_frames(data@, dev_ch as nat, sel@);
        }
    }
    if identity_selection(sel, dev_ch) {
        return vstd::slice::slice_to_vec(data);
    }
    let dlen = data.len();
    let frames = dlen / dev_ch;
    let k = sel.len();
    let mut out: Vec<S> = Vec::new();
    let mut f: usize = 0;
    while f < frames
        invariant
            dlen == data@.len(),
            frames == data@.len() as int / (dev_ch as int),
            dev_ch >= 1,
            k == sel@.len(),
            forall|j: int| 0 <= j < sel@.len() ==> sel@[j] < dev_ch,
            f <= frames,
            out@.len() == f * k,
            forall|x: int| 0 <= x < f * k ==> #[trigger] out@[x] == selected(data@, dev_ch as nat, sel@)[x],
        decreases frames - f,
    {
        let mut j: usize = 0;
        while j < k
            invariant
                dlen == data@.len(),
                frames == data@.len() as int / (dev_ch as int),
                dev_ch >= 1,
                k == sel@.len(),
                forall|j2: int| 0 <= j2 < sel@.len() ==> sel@[j2] < dev_ch,
                f < frames,
                j <= k,
                out@.len() == f * k + j,
                forall|x: int| 0 <= x < f * k + j ==> #[trigger] out@[x] == selected(data@, dev_ch as nat, sel@)[x],
            decreases k - j,
        {
            let c = sel[j] as usize;
            proof {
                assert(f * dev_ch + c < data@.len() && f * dev_ch <= f * dev_ch + c) by (nonlinear_arith)
                    requires
                        f < data@.len() as int / (dev_ch as int),
                        c < dev_ch,
                        dev_ch >= 1,
                ;
                let x = f * k + j;
                assert(x as int / (k as int) == f && x as int % (k as int) == j) by (nonlinear_arith)
                    requires
                        x == f * k + j,
                        j < k,
                ;
                assert(x < frames * k) by (nonlinear_arith)
                    requires
                        x == f * k + j,
                        j < k,
                        f < frames,
                ;
            }
            out.push(data[f * dev_ch + c]);
            j = j + 1;
        }
        proof {
            assert((f + 1) * k == f * k + k) by (nonlinear_arith);
        }
        f = f + 1;
    }
    assert(out@ =~= selected(data@, dev_ch as nat, sel@));
    out
}

/// Index of the last occurrence of channel `c` in the selection, or -1.
pub open spec fn last_index(sel: Seq<u16>, c: int) -> int
    decreases sel.len(),
{
    if sel.len() == 0 {
        -1
    } else if sel.last() == c {
        sel.len() - 1
    } else {
        last_index(sel.drop_last(), c)
    }
}

/// What a device output callback writes at channel `c` of frame `f`: the value of the last
/// selected stream channel routed there, or `zero` when none is.
pub open spec fn spread_value<S>(scratch: Seq<S>, sel: Seq<u16>, width: int, f: int, c: int, zero: S) -> S {
    let j = last_index(sel, c);
    if j >= 0 {
        scratch[f * width + j]
    } else {
        zero
    }
}

/// Spread the selected stream channels of `scratch` (interleaved, `sel.len()` wide) onto
/// the device buffer `data` (`dev_ch` wide); every other sample of `data` becomes `zero`.
pub fn spread_to_device<S: Copy>(data: &mut [S], dev_ch: usize, sel: &[u16], scratch: &[S], zero: S)
    requires
        dev_ch >= 1,
        forall|j: int| 0 <= j < sel@.len() ==> sel@[j] < dev_ch,
        (old(data)@.len() as int / (dev_ch as int)) * sel@.len() <= scratch@.len(),
    ensures
        final(data)@.len() == old(data)@.len(),
        forall|p: int|
            0 <= p < final(data)@.len() ==> #[trigger] final(data)@[p] == if p / (dev_ch as int)
                < old(data)@.len() as int / (dev_ch as int) {
                spread_value(scratch@, sel@, sel@.len() as int, p / (dev_ch as int), p % (dev_ch as int), zero)
            } else {
                zero
            },
{
    let n = data.len();
    let mut i: usize = 0;
    while i < n
        invariant
            n == data@.len(),
            i <= n,
            forall|p: int| 0 <= p < i ==> data@[p] == zero,
        decreases n - i,
    {
        data[i] = zero;
        i = i + 1;
    }
    let frames = n / dev_ch;
    let k = sel.len();
    let slen = scratch.len();
    let mut f: usize = 0;
    while f < frames
        invariant
            n == data@.len(),
            frames == n as int / (dev_ch as int),
            dev_ch >= 1,
            k == sel@.len(),
            slen == scratch@.len(),
            frames * k <= scratch@.len(),
            forall|j: int| 0 <= j < sel@.len() ==> sel@[j] < dev_ch,
            f <= frames,
            forall|p: int|
                0 <= p < n ==> #[trigger] data@[p] == if p / (dev_ch as int) < f {
                    spread_value(scratch@, sel@, sel@.len() as int, p / (dev_ch as int), p % (dev_ch as int), zero)
                } else {
                    zero
                },
        decreases frames - f,
    {
        let mut j: usize = 0;
        while j < k
            invariant
                n == data@.len(),
                frames == n as int / (dev_ch as int),
                dev_ch >= 1,
                k == sel@.len(),
                slen == scratch@.len(),
                frames * k <= scratch@.len(),
                forall|j2: int| 0 <= j2 < sel@.len() ==> sel@[j2] < dev_ch,
                f < frames,
                j <= k,
                forall|p: int|
                    0 <= p < n ==> #[trigger] data@[p] == if p / (dev_ch as int) < f {
                        spread_value(scratch@, sel@, sel@.len() as int, p / (dev_ch as int), p % (dev_ch as int), zero)
                    } else if p / (dev_ch as int) == f {
                        spread_value(scratch@, sel@.take(j as int), sel@.len() as int, (f as int), p % (dev_ch as int), zero)
                    } else {
                        zero
                    },
            decreases k - j,
        {
            let c = sel[j] as usize;
            proof {
                assert(f * dev_ch + c < n && f * dev_ch <= f * dev_ch + c) by (nonlinear_arith)
                    requires
                        f < frames,
                        frames == n as int / (dev_ch as int),
                        c < dev_ch,
                        dev_ch >= 1,
                ;
                assert(f * k + j < frames * k && f * k <= f * k + j) by (nonlinear_arith)
                    requires
                        f < frames,
                        j < k,
                ;
            }
            let v = scratch[f * k + j];
            let ghost before = data@;
            data[f * dev_ch + c] = v;
            proof {
                let t = sel@.take(j + 1);
                assert(t.drop_last() =~= sel@.take(j as int));
                assert forall|p: int| 0 <= p < n implies #[trigger] data@[p] == if p / (dev_ch as int) < f {
                    spread_value(scratch@, sel@, sel@.len() as int, p / (dev_ch as int), p % (dev_ch as int), zero)
                } else if p / (dev_ch as int) == f {
                    spread_value(scratch@, t, sel@.len() as int, (f as int), p % (dev_ch as int), zero)
                } else {
                    zero
                } by {
                    let q = f * dev_ch + c;
                    assert(t.last() == c as u16);
                    assert(last_index(t, c as int) == j as int);
                    assert(forall|c2: int| c2 != c ==> last_index(t, c2) == last_index(sel@.take(j as int), c2));
                    assert(q as int / (dev_ch as int) == f && q as int % (dev_ch as int) == c) by (nonlinear_arith)
                        requires
                            q == f * dev_ch + c,
                            c < dev_ch,
                    ;
                    if p != q {
                        assert(data@[p] == before[p]);
                        if p / (dev_ch as int) == f {
                            assert(p % (dev_ch as int) != c) by (nonlinear_arith)
                                requires
                                    p / (dev_ch as int) == f,
                                    p != f * dev_ch + c,
                                    dev_ch >= 1,
                                    p >= 0,
                            ;
                        }
                    }
                }
            }
            j = j + 1;
        }
        proof {
            assert(sel@.take(k as int) =~= sel@);
        }
        f = f + 1;
    }
}

/// Per-channel buffers of a stereo stimulus: each frame's left (right) sample where that
/// output is driven, `zero` elsewhere.
pub fn split_stimulus<S: Copy>(inter: &[S], left: &mut Vec<S>, right: &mut Vec<S>, drive_l: bool, drive_r: bool, zero: S)
    requires
        old(left)@.len() >= inter@.len() / 2,
        old(right)@.len() >= inter@.len() / 2,
    ensures
        final(left)@.len() == old(left)@.len(),
        final(right)@.len() == old(right)@.len(),
        forall|i: int| 0 <= i < inter@.len() / 2 ==> #[trigger] final(left)@[i] == if drive_l { inter@[2 * i] } else { zero },
        forall|i: int| 0 <= i < inter@.len() / 2 ==> #[trigger] final(right)@[i] == if drive_r { inter@[2 * i + 1] } else { zero },
        forall|i: int| inter@.len() / 2 <= i < old(left)@.len() ==> #[trigger] final(left)@[i] == old(left)@[i],
        forall|i: int| inter@.len() / 2 <= i < old(right)@.len() ==> #[trigger] final(right)@[i] == old(right)@[i],
{
    let ilen = inter.len();
    let frames = ilen / 2;
    let mut i: usize = 0;
    while i < frames
        invariant
            ilen == inter@.len(),
            frames == inter@.len() / 2,
            i <= frames,
            left@.len() == old(left)@.len(),
            right@.len() == old(right)@.len(),
            left@.len() >= frames,
            right@.len() >= frames,
            forall|j: int| 0 <= j < i ==> #[trigger] left@[j] == if drive_l { inter@[2 * j] } else { zero },
            forall|j: int| 0 <= j < i ==> #[trigger] right@[j] == if drive_r { inter@[2 * j + 1] } else { zero },
            forall|j: int| i <= j < left@.len() ==> #[trigger] left@[j] == old(left)@[j],
            forall|j: int| i <= j < right@.len() ==> #[trigger] right@[j] == old(right)@[j],
        decreases frames - i,
    {
        let l = if drive_l { inter[2 * i] } else { zero };
        let r = if drive_r { inter[2 * i + 1] } else { zero };
        left[i] = l;
        right[i] = r;
        i = i + 1;
    }
}

/// Interleave a stereo capture (as long as the shorter channel), keeping only the
/// captured channels; `zero` stands for the others.
pub fn interleave_capture<S: Copy>(left: &[S], right: &[S], cap_l: bool, cap_r: bool, zero: S) -> (r: Vec<S>)
    ensures
        r@.len() == 2 * (if left@.len() < right@.len() { left@.len() } else { right@.len() }),
        forall|i: int| 0 <= i < r@.len() / 2 ==> #[trigger] r@[2 * i] == if cap_l { left@[i] } else { zero },
        forall|i: int| 0 <= i < r@.len() / 2 ==> #[trigger] r@[2 * i + 1] == if cap_r { right@[i] } else { zero },
{
    let n = if left.len() < right.len() { left.len() } else { right.len() };
    let mut out: Vec<S> = Vec::new();
    let mut i: usize = 0;
    while i < n
        invariant
            n <= left@.len(),
            n <= right@.len(),
            i <= n,
            out@.len() == 2 * i,
            forall|j: int| 0 <= j < i ==> #[trigger] out@[2 * j] == if cap_l { left@[j] } else { zero },
            forall|j: int| 0 <= j < i ==> #[trigger] out@[2 * j + 1] == if cap_r { right@[j] } else { zero },
        decreases n - i,
    {
        out.push(if cap_l { left[i] } else { zero });
        out.push(if cap_r { right[i] } else { zero });
        i = i + 1;
    }
    out
}

/// Whether stream channel `c` is driven: every channel when the mask is empty.
pub open spec fn driven(mask: Seq<bool>, c: int) -> bool {
    mask.len() == 0 || (c < mask.len() && mask[c])
}

/// Copy one mono signal to the driven channels of an interleaved buffer (`zero` on the
/// others), frame by frame, for as many frames as both hold.
pub fn fan_out<S: Copy>(buf: &mut [S], channels: usize, mono: &[S], mask: &[bool], zero: S)
    requires
        channels >= 1,
    ensures
        final(buf)@.len() == old(buf)@.len(),
        forall|p: int|
            0 <= p < old(buf)@.len() ==> #[trigger] final(buf)@[p] == if p / (channels as int)
                < old(buf)@.len() as int / (channels as int) && p / (channels as int) < mono@.len() {
                if driven(mask@, p % (channels as int)) {
                    mono@[p / (channels as int)]
                } else {
                    zero
                }
            } else {
                old(buf)@[p]
            },
{
    let n = buf.len();
    let frames_buf = n / channels;
    let frames = if frames_buf < mono.len() { frames_buf } else { mono.len() };
    let mlen = mask.len();
    let mut f: usize = 0;
    while f < frames
        invariant
            n == buf@.len(),
            n == old(buf)@.len(),
            frames_buf == n as int / (channels as int),
            frames <= frames_buf,
            frames <= mono@.len(),
            frames == if frames_buf < mono@.len() { (frames_buf as int) } else { mono@.len() as int },
            mlen == mask@.len(),
            channels >= 1,
            f <= frames,
            forall|p: int|
                0 <= p < n ==> #[trigger] buf@[p] == if p / (channels as int) < f {
                    if driven(mask@, p % (channels as int)) {
                        mono@[p / (channels as int)]
                    } else {
                        zero
                    }
                } else {
                    old(buf)@[p]
                },
        decreases frames - f,
    {
        let v = mono[f];
        let mut c: usize = 0;
        while c < channels
            invariant
                n == buf@.len(),
                n == old(buf)@.len(),
                frames_buf == n as int / (channels as int),
                frames <= frames_buf,
                frames <= mono@.len(),
                mlen == mask@.len(),
                channels >= 1,
                f < frames,
                v == mono@[(f as int)],
                c <= channels,
                forall|p: int|
                    0 <= p < n ==> #[trigger] buf@[p] == if p / (channels as int) < f || (p / (channels as int) == f
                        && p % (channels as int) < c) {
                        if driven(mask@, p % (channels as int)) {
                            mono@[p / (channels as int)]
                        } else {
                            zero
                        }
                    } else {
                        old(buf)@[p]
                    },
            decreases channels - c,
        {
            let on = mlen == 0 || (c < mlen && mask[c]);
            proof {
                assert(f * channels + c < n && f * channels <= f * channels + c) by (nonlinear_arith)
                    requires
                        f < frames_buf,
                        frames_buf == n as int / (channels as int),
                        c < channels,
                ;
            }
            let q = f * channels + c;
            proof {
                assert(q as int / (channels as int) == f && q as int % (channels as int) == c) by (nonlinear_arith)
                    requires
                        q == f * channels + c,
                        c < channels,
                ;
            }
            let ghost before = buf@;
            buf[q] = if on { v } else { zero };
            proof {
                assert forall|p: int| 0 <= p < n implies #[trigger] buf@[p] == if p / (channels as int) < f || (p
                    / (channels as int) == f && p % (channels as int) < c + 1) {
                    if driven(mask@, p % (channels as int)) {
                        mono@[p / (channels as int)]
                    } else {
                        zero
                    }
                } else {
                    old(buf)@[p]
                } by {
                    if p != q {
                        assert(buf@[p] == before[p]);
                        if p / (channels as int) == f {
                            assert(p % (channels as int) != c) by (nonlinear_arith)
                                requires
                                    p / (channels as int) == f,
                                    p != f * channels + c,
                                    channels >= 1,
                                    p >= 0,
                            ;
                        }
                    }
                }
            }
            c = c + 1;
        }
        proof {
            assert forall|p: int| 0 <= p < n implies #[trigger] buf@[p] == if p / (channels as int) < f + 1 {
                if driven(mask@, p % (channels as int)) {
                    mono@[p / (channels as int)]
                } else {
                    zero
                }
            } else {
                old(buf)@[p]
            } by {
                assert(p % (channels as int) < channels) by (nonlinear_arith)
                    requires
                        channels >= 1,
                        p >= 0,
                ;
            }
        }
        f = f + 1;
    }
}

} // verus!
