//! Wire helpers shared by server and clients.
//!
//! - [`Frame`]: the real-time binary frame: a little-endian header
//!   (`u32 stream_id, u64 seq, u64 first_frame, u16 channels, u16 values_per_channel`)
//!   followed by `channels * values_per_channel` single-precision values, each as its
//!   four IEEE-754 bytes, little-endian. The library keeps every value as its 32-bit
//!   pattern, so encoding and decoding never touch the numbers themselves.
//! - [`envelope`]: wrap a payload with its request id.

use crate::le::{
    le_bytes, le_value, lemma_le_bytes_len, lemma_le_bytes_of_value, lemma_le_value_bound, lemma_le_value_of_bytes,
    lemma_pow256_values, read_le,
};
use bytes::{BufMut, Bytes, BytesMut};
use vstd::prelude::*;

verus! {

/// Size of the fixed header: u32 + u64 + u64 + u16 + u16.
pub const FRAME_HEADER_LEN: usize = 24;

#[verifier::external_type_specification]
#[verifier::external_body]
pub struct ExBytesMut(BytesMut);

#[verifier::external_type_specification]
#[verifier::external_body]
pub struct ExBytes(Bytes);

/// The bytes written so far into a `bytes::BytesMut`.
pub uninterp spec fn bytes_mut_contents(b: BytesMut) -> Seq<u8>;

/// The bytes held by a `bytes::Bytes`.
pub uninterp spec fn bytes_contents(b: Bytes) -> Seq<u8>;

/// `BytesMut::with_capacity`: an empty buffer (the capacity is only a hint).
#[verifier::external_body]
fn buffer_with_capacity(capacity: usize) -> (b: BytesMut)
    ensures
        bytes_mut_contents(b) == Seq::<u8>::empty(),
{
    BytesMut::with_capacity(capacity)
}

/// `BufMut::put_u16_le` on a `BytesMut`: appends the two little-endian bytes of `n`.
#[verifier::external_body]
fn put_u16_le(b: &mut BytesMut, n: u16)
    requires
        bytes_mut_contents(*old(b)).len() + 2 <= isize::MAX,
    ensures
        bytes_mut_contents(*final(b)) == bytes_mut_contents(*old(b)) + le_bytes(n as nat, 2),
{
    b.put_u16_le(n)
}

/// `BufMut::put_u32_le` on a `BytesMut`: appends the four little-endian bytes of `n`.
#[verifier::external_body]
fn put_u32_le(b: &mut BytesMut, n: u32)
    requires
        bytes_mut_contents(*old(b)).len() + 4 <= isize::MAX,
    ensures
        bytes_mut_contents(*final(b)) == bytes_mut_contents(*old(b)) + le_bytes(n as nat, 4),
{
    b.put_u32_le(n)
}

/// `BufMut::put_u64_le` on a `BytesMut`: appends the eight little-endian bytes of `n`.
#[verifier::external_body]
fn put_u64_le(b: &mut BytesMut, n: u64)
    requires
        bytes_mut_contents(*old(b)).len() + 8 <= isize::MAX,
    ensures
        bytes_mut_contents(*final(b)) == bytes_mut_contents(*old(b)) + le_bytes(n as nat, 8),
{
    b.put_u64_le(n)
}

/// `BytesMut::freeze`: the same bytes, now immutable.
#[verifier::external_body]
fn freeze(b: BytesMut) -> (r: Bytes)
    ensures
        bytes_contents(r) == bytes_mut_contents(b),
{
    b.freeze()
}

/// A decoded real-time frame. `values` is channel-major; each value is the bit pattern
/// of an `f32` (`f32::to_bits`).
#[derive(Debug, Clone, PartialEq)]
pub struct Frame {
    pub stream_id: u32,
    pub seq: u64,
    pub first_frame: u64,
    pub channels: u16,
    pub values_per_channel: u16,
    pub values: Vec<u32>,
}

/// Mathematical model of a [`Frame`].
pub struct FrameView {
    pub stream_id: u32,
    pub seq: u64,
    pub first_frame: u64,
    pub channels: u16,
    pub values_per_channel: u16,
    pub values: Seq<u32>,
}

impl View for Frame {
    type V = FrameView;

    open spec fn view(&self) -> FrameView {
        FrameView {
            stream_id: self.stream_id,
            seq: self.seq,
            first_frame: self.first_frame,
            channels: self.channels,
            values_per_channel: self.values_per_channel,
            values: self.values@,
        }
    }
}

/// Why a byte string is not a frame.
#[derive(Debug, PartialEq, Eq)]
pub enum WireError {
    /// Fewer bytes than the header (the byte count).
    TooShort(usize),
    /// The payload does not hold `channels * values_per_channel` values.
    LengthMismatch { expected: usize, got: usize },
}

/// A frame is well formed when it carries exactly `channels * values_per_channel` values.
pub open spec fn frame_wf(f: FrameView) -> bool {
    f.values.len() == f.channels as nat * f.values_per_channel as nat
}

/// The bytes of a sequence of values, four little-endian bytes each.
pub open spec fn values_bytes(vs: Seq<u32>) -> Seq<u8>
    decreases vs.len(),
{
    if vs.len() == 0 {
        Seq::empty()
    } else {
        values_bytes(vs.drop_last()) + le_bytes(vs.last() as nat, 4)
    }
}

/// The header bytes of a frame.
pub open spec fn header_bytes(f: FrameView) -> Seq<u8> {
    le_bytes(f.stream_id as nat, 4) + le_bytes(f.seq as nat, 8) + le_bytes(f.first_frame as nat, 8)
        + le_bytes(f.channels as nat, 2) + le_bytes(f.values_per_channel as nat, 2)
}

/// The encoding of a frame: header, then the values.
pub open spec fn frame_bytes(f: FrameView) -> Seq<u8> {
    header_bytes(f) + values_bytes(f.values)
}

/// The `i`-th four-byte value of a payload starting at `FRAME_HEADER_LEN`.
pub open spec fn value_at(b: Seq<u8>, i: int) -> u32 {
    le_value(b.subrange(24 + 4 * i, 28 + 4 * i)) as u32
}

/// What a byte string decodes to.
pub open spec fn decode_spec(b: Seq<u8>) -> Result<FrameView, WireError> {
    if b.len() < 24 {
        Err(WireError::TooShort(b.len() as usize))
    } else {
        let channels = le_value(b.subrange(20, 22));
        let per_channel = le_value(b.subrange(22, 24));
        let expected = channels * per_channel;
        if b.len() - 24 != 4 * expected {
            Err(WireError::LengthMismatch { expected: expected as usize, got: (b.len() - 24) as usize })
        } else {
            Ok(
                FrameView {
                    stream_id: le_value(b.subrange(0, 4)) as u32,
                    seq: le_value(b.subrange(4, 12)) as u64,
                    first_frame: le_value(b.subrange(12, 20)) as u64,
                    channels: channels as u16,
                    values_per_channel: per_channel as u16,
                    values: Seq::new(expected, |i: int| value_at(b, i)),
                },
            )
        }
    }
}

pub proof fn lemma_values_bytes_len(vs: Seq<u32>)
    ensures
        values_bytes(vs).len() == 4 * vs.len(),
    decreases vs.len(),
{
    if vs.len() > 0 {
        lemma_values_bytes_len(vs.drop_last());
        lemma_le_bytes_len(vs.last() as nat, 4);
    }
}

/// The `i`-th group of four bytes of `values_bytes(vs)` is the encoding of `vs[i]`.
pub proof fn lemma_values_bytes_at(vs: Seq<u32>, i: int)
    requires
        0 <= i < vs.len(),
    ensures
        values_bytes(vs).subrange(4 * i, 4 * i + 4) == le_bytes(vs[i] as nat, 4),
    decreases vs.len(),
{
    lemma_values_bytes_len(vs.drop_last());
    lemma_le_bytes_len(vs.last() as nat, 4);
    let pre = values_bytes(vs.drop_last());
    let last = le_bytes(vs.last() as nat, 4);
    if i == vs.len() - 1 {
        assert((pre + last).subrange(4 * i, 4 * i + 4) =~= last);
    } else {
        lemma_values_bytes_at(vs.drop_last(), i);
        assert((pre + last).subrange(4 * i, 4 * i + 4) =~= pre.subrange(4 * i, 4 * i + 4));
    }
}

/// Decoding the encoding of a well-formed frame gives the frame back.
pub proof fn lemma_frame_round_trip(f: FrameView)
    requires
        frame_wf(f),
    ensures
        decode_spec(frame_bytes(f)) == Ok::<FrameView, WireError>(f),
{
    let b = frame_bytes(f);
    let h = header_bytes(f);
    lemma_pow256_values();
    lemma_le_value_of_bytes(f.stream_id as nat, 4);
    lemma_le_value_of_bytes(f.seq as nat, 8);
    lemma_le_value_of_bytes(f.first_frame as nat, 8);
    lemma_le_value_of_bytes(f.channels as nat, 2);
    lemma_le_value_of_bytes(f.values_per_channel as nat, 2);
    lemma_values_bytes_len(f.values);
    assert(h.len() == 24);
    assert(b.subrange(0, 4) =~= le_bytes(f.stream_id as nat, 4));
    assert(b.subrange(4, 12) =~= le_bytes(f.seq as nat, 8));
    assert(b.subrange(12, 20) =~= le_bytes(f.first_frame as nat, 8));
    assert(b.subrange(20, 22) =~= le_bytes(f.channels as nat, 2));
    assert(b.subrange(22, 24) =~= le_bytes(f.values_per_channel as nat, 2));
    let r = decode_spec(b);
    let expected = f.channels as nat * f.values_per_channel as nat;
    assert(b.len() - 24 == 4 * expected);
    let vals = Seq::new(expected, |i: int| value_at(b, i));
    assert forall|i: int| 0 <= i < expected implies vals[i] == f.values[i] by {
        lemma_values_bytes_at(f.values, i);
        assert(b.subrange(24 + 4 * i, 28 + 4 * i) =~= values_bytes(f.values).subrange(
            4 * i,
            4 * i + 4,
        ));
        lemma_le_value_of_bytes(f.values[i] as nat, 4);
    }
    assert(vals =~= f.values);
}

/// A byte string cut in groups of four is the encoding of the values those groups denote.
pub proof fn lemma_values_bytes_of_groups(vs: Seq<u32>, p: Seq<u8>)
    requires
        p.len() == 4 * vs.len(),
        forall|i: int| 0 <= i < vs.len() ==> le_value(#[trigger] p.subrange(4 * i, 4 * i + 4)) == vs[i] as nat,
    ensures
        values_bytes(vs) == p,
    decreases vs.len(),
{
    if vs.len() == 0 {
        assert(p =~= Seq::<u8>::empty());
    } else {
        let k = vs.len() - 1;
        let front = p.subrange(0, 4 * k);
        let last = p.subrange(4 * k, 4 * k + 4);
        assert forall|i: int| 0 <= i < vs.drop_last().len() implies le_value(
            #[trigger] front.subrange(4 * i, 4 * i + 4),
        ) == vs.drop_last()[i] as nat by {
            assert(front.subrange(4 * i, 4 * i + 4) =~= p.subrange(4 * i, 4 * i + 4));
        }
        lemma_values_bytes_of_groups(vs.drop_last(), front);
        lemma_le_bytes_of_value(last);
        assert(le_value(last) == vs.last() as nat);
        assert(p =~= front + last);
    }
}

/// Decoding is canonical: the only bytes that decode to a frame are its encoding.
pub proof fn lemma_decode_canonical(b: Seq<u8>, f: FrameView)
    requires
        decode_spec(b) == Ok::<FrameView, WireError>(f),
    ensures
        frame_bytes(f) == b,
        frame_wf(f),
{
    lemma_pow256_values();
    let s0 = b.subrange(0, 4);
    let s1 = b.subrange(4, 12);
    let s2 = b.subrange(12, 20);
    let s3 = b.subrange(20, 22);
    let s4 = b.subrange(22, 24);
    let payload = b.subrange(24, b.len() as int);
    lemma_le_value_bound(s0);
    lemma_le_value_bound(s1);
    lemma_le_value_bound(s2);
    lemma_le_value_bound(s3);
    lemma_le_value_bound(s4);
    lemma_le_bytes_of_value(s0);
    lemma_le_bytes_of_value(s1);
    lemma_le_bytes_of_value(s2);
    lemma_le_bytes_of_value(s3);
    lemma_le_bytes_of_value(s4);
    assert forall|i: int| 0 <= i < f.values.len() implies le_value(
        #[trigger] payload.subrange(4 * i, 4 * i + 4),
    ) == f.values[i] as nat by {
        assert(payload.subrange(4 * i, 4 * i + 4) =~= b.subrange(24 + 4 * i, 28 + 4 * i));
        lemma_le_value_bound(b.subrange(24 + 4 * i, 28 + 4 * i));
    }
    lemma_values_bytes_of_groups(f.values, payload);
    assert(b =~= s0 + s1 + s2 + s3 + s4 + payload);
}

impl Frame {
    /// Encode the frame in its wire format.
    pub fn encode(&self) -> (r: Bytes)
        requires
            FRAME_HEADER_LEN + 4 * self.values.len() <= isize::MAX,
        ensures
            bytes_contents(r) == frame_bytes(self@),
            bytes_contents(r).len() == FRAME_HEADER_LEN + 4 * self.values@.len(),
            bytes_contents(r).subrange(0, 24) == header_bytes(self@),
            forall|i: int|
                0 <= i < self.values@.len() ==> #[trigger] bytes_contents(r).subrange(24 + 4 * i, 28 + 4 * i)
                    == le_bytes(self.values@[i] as nat, 4),
    {
        let n = self.values.len();
        proof {
            lemma_le_bytes_len(self.stream_id as nat, 4);
            lemma_le_bytes_len(self.seq as nat, 8);
            lemma_le_bytes_len(self.first_frame as nat, 8);
            lemma_le_bytes_len(self.channels as nat, 2);
            lemma_le_bytes_len(self.values_per_channel as nat, 2);
        }
        let mut b = buffer_with_capacity(FRAME_HEADER_LEN + n * 4);
        put_u32_le(&mut b, self.stream_id);
        put_u64_le(&mut b, self.seq);
        put_u64_le(&mut b, self.first_frame);
        put_u16_le(&mut b, self.channels);
        put_u16_le(&mut b, self.values_per_channel);
        proof {
            assert(bytes_mut_contents(b) =~= header_bytes(self@) + values_bytes(
                self.values@.take(0),
            ));
        }
        let mut i: usize = 0;
        while i < n
            invariant
                n == self.values.len(),
                i <= n,
                FRAME_HEADER_LEN + 4 * n <= isize::MAX,
                bytes_mut_contents(b) == header_bytes(self@) + values_bytes(
                    self.values@.take(i as int),
                ),
                header_bytes(self@).len() == 24,
            decreases n - i,
        {
            proof {
                lemma_values_bytes_len(self.values@.take(i as int));
            }
            put_u32_le(&mut b, self.values[i]);
            proof {
                let t = self.values@.take(i + 1);
                assert(t.drop_last() =~= self.values@.take(i as int));
                assert(bytes_mut_contents(b) =~= header_bytes(self@) + values_bytes(t));
            }
            i = i + 1;
        }
        proof {
            assert(self.values@.take(n as int) =~= self.values@);
            let h = header_bytes(self@);
            let vb = values_bytes(self.values@);
            lemma_values_bytes_len(self.values@);
            assert((h + vb).subrange(0, 24) =~= h);
            assert forall|i: int| 0 <= i < self.values@.len() implies #[trigger] (h + vb).subrange(
                24 + 4 * i,
                28 + 4 * i,
            ) == le_bytes(self.values@[i] as nat, 4) by {
                lemma_values_bytes_at(self.values@, i);
                assert((h + vb).subrange(24 + 4 * i, 28 + 4 * i) =~= vb.subrange(4 * i, 4 * i + 4));
            }
        }
        freeze(b)
    }

    /// Decode a frame. `TooShort` when the header is incomplete, `LengthMismatch` when the
    /// payload does not hold exactly the announced number of values.
    pub fn decode(bytes: &[u8]) -> (r: Result<Frame, WireError>)
        ensures
            match r {
                Ok(f) => decode_spec(bytes@) == Ok::<FrameView, WireError>(f@),
                Err(e) => decode_spec(bytes@) == Err::<FrameView, WireError>(e),
            },
    {
        let len = bytes.len();
        if len < FRAME_HEADER_LEN {
            return Err(WireError::TooShort(len));
        }
        let stream_id = read_le(bytes, 0, 4);
        let seq = read_le(bytes, 4, 8);
        let first_frame = read_le(bytes, 12, 8);
        let channels = read_le(bytes, 20, 2);
        let values_per_channel = read_le(bytes, 22, 2);
        proof {
            lemma_pow256_values();
            lemma_le_value_bound(bytes@.subrange(0, 4));
            lemma_le_value_bound(bytes@.subrange(20, 22));
            lemma_le_value_bound(bytes@.subrange(22, 24));
            assert(channels * values_per_channel <= 0xffff * 0xffff) by (nonlinear_arith)
                requires
                    channels <= 0xffff,
                    values_per_channel <= 0xffff,
            ;
        }
        let expected: u64 = channels * values_per_channel;
        let got: usize = len - FRAME_HEADER_LEN;
        if got as u64 != expected * 4 {
            return Err(WireError::LengthMismatch { expected: expected as usize, got });
        }
        let count = expected as usize;
        let mut values: Vec<u32> = Vec::with_capacity(count);
        let mut i: usize = 0;
        while i < count
            invariant
                count as nat == channels * values_per_channel,
                len == bytes@.len(),
                len == 24 + 4 * count,
                i <= count,
                values@.len() == i,
                forall|j: int| 0 <= j < i ==> values@[j] == value_at(bytes@, j),
            decreases count - i,
        {
            let v = read_le(bytes, FRAME_HEADER_LEN + 4 * i, 4);
            proof {
                lemma_pow256_values();
                lemma_le_value_bound(bytes@.subrange(24 + 4 * i, 28 + 4 * i));
            }
            values.push(v as u32);
            i = i + 1;
        }
        let f = Frame {
            stream_id: stream_id as u32,
            seq,
            first_frame,
            channels: channels as u16,
            values_per_channel: values_per_channel as u16,
            values,
        };
        proof {
            assert(f@.values =~= Seq::new(count as nat, |j: int| value_at(bytes@, j)));
        }
        Ok(f)
    }

    /// Values of one channel.
    pub fn channel(&self, ch: u16) -> (r: &[u32])
        requires
            (ch as int + 1) * self.values_per_channel as int <= self.values.len(),
        ensures
            r@ == self.values@.subrange(
                ch as int * self.values_per_channel as int,
                (ch as int + 1) * self.values_per_channel as int,
            ),
    {
        let n = self.values_per_channel as usize;
        proof {
            assert(ch as int * n <= (ch as int + 1) * n) by (nonlinear_arith);
        }
        vstd::slice::slice_subrange(self.values.as_slice(), ch as usize * n, (ch as usize + 1) * n)
    }
}

/// A request or response with its correlation id (0 = server-initiated).
#[derive(Debug, Clone, PartialEq)]
pub struct Envelope<P> {
    pub request_id: u64,
    pub payload: Option<P>,
}

/// Build an envelope around a payload.
pub fn envelope<P>(request_id: u64, payload: P) -> (e: Envelope<P>)
    ensures
        e.request_id == request_id,
        e.payload == Some(payload),
{
    Envelope { request_id, payload: Some(payload) }
}

} // verus!
