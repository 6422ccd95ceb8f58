//! The decisions every device backend takes: which sample rates a device offers, how a
//! channel selection is resolved, and the configure / start / stop protocol of a device
//! that runs one stream at a time.

use crate::error::DeviceError;
use crate::text::{decimal, str_eq, with_number};
use crate::types::{AppliedConfig, AppliedView, BackendKind, DeviceConfig, DeviceId, StreamConfig, StreamHandle};
use vstd::prelude::*;
use vstd::string::{StrSliceExecFns, StringExecFns};

verus! {

/// Sample rates Anecho cares about; a device advertises the subset it supports.
pub open spec fn candidate_rates() -> Seq<u32> {
    seq![44_100, 48_000, 88_200, 96_000, 176_400, 192_000, 384_000]
}

pub fn candidate_rate_list() -> (v: Vec<u32>)
    ensures
        v@ == candidate_rates(),
{
    let v = vec![44_100u32, 48_000, 88_200, 96_000, 176_400, 192_000, 384_000];
    assert(v@ =~= candidate_rates());
    v
}

/// Whether `x` occurs in `v`.
pub fn contains_u32(v: &[u32], x: u32) -> (r: bool)
    ensures
        r == v@.contains(x),
{
    let mut i: usize = 0;
    while i < v.len()
        invariant
            i <= v@.len(),
            forall|j: int| 0 <= j < i ==> v@[j] != x,
        decreases v@.len() - i,
    {
        if v[i] == x {
            assert(v@[i as int] == x);
            return true;
        }
        i = i + 1;
    }
    false
}

/// One supported stream configuration of a sound card: a sample-rate interval and a
/// channel count.
#[derive(Debug, Clone, Copy, PartialEq, Eq, Structural)]
pub struct RateRange {
    pub min_sample_rate: u32,
    pub max_sample_rate: u32,
    pub channels: u16,
}

/// Whether some configuration covers `rate`.
pub open spec fn covered(configs: Seq<RateRange>, rate: u32) -> bool {
    exists|i: int| 0 <= i < configs.len() && #[trigger] configs[i].min_sample_rate <= rate <= configs[i].max_sample_rate
}

/// The largest channel count among the configurations (0 when there is none).
pub open spec fn max_channels(configs: Seq<RateRange>) -> u16
    decreases configs.len(),
{
    if configs.len() == 0 {
        0
    } else {
        let rest = max_channels(configs.drop_last());
        if configs.last().channels > rest {
            configs.last().channels
        } else {
            rest
        }
    }
}

/// The largest channel count is the largest one: no configuration has more channels, and
/// some configuration has that many (with no configuration it is 0).
pub proof fn lemma_max_channels(configs: Seq<RateRange>)
    ensures
        forall|i: int| 0 <= i < configs.len() ==> #[trigger] configs[i].channels <= max_channels(configs),
        configs.len() > 0 ==> exists|i: int| 0 <= i < configs.len() && #[trigger] configs[i].channels == max_channels(configs),
        configs.len() == 0 ==> max_channels(configs) == 0,
    decreases configs.len(),
{
    if configs.len() > 0 {
        let rest = configs.drop_last();
        lemma_max_channels(rest);
        assert forall|i: int| 0 <= i < configs.len() implies #[trigger] configs[i].channels <= max_channels(configs) by {
            if i < rest.len() {
                assert(configs[i] == rest[i]);
            }
        }
        if configs.last().channels <= max_channels(rest) && rest.len() > 0 {
            let j = choose|j: int| 0 <= j < rest.len() && #[trigger] rest[j].channels == max_channels(rest);
            assert(configs[j] == rest[j]);
        } else {
            assert(configs[configs.len() - 1].channels == max_channels(configs));
        }
    }
}

fn covers(configs: &[RateRange], rate: u32) -> (r: bool)
    ensures
        r == covered(configs@, rate),
{
    let mut i: usize = 0;
    while i < configs.len()
        invariant
            i <= configs@.len(),
            forall|j: int| 0 <= j < i ==> !(#[trigger] configs@[j].min_sample_rate <= rate <= configs@[j].max_sample_rate),
        decreases configs@.len() - i,
    {
        if configs[i].min_sample_rate <= rate && rate <= configs[i].max_sample_rate {
            return true;
        }
        i = i + 1;
    }
    false
}

/// The candidate rates a set of supported configurations covers (ascending, each once) and
/// the largest channel count; nothing for a device that could not be queried.
pub fn probe(configs: Option<Vec<RateRange>>) -> (r: (Vec<u32>, u16))
    ensures
        match configs {
            Some(cs) => {
                &&& r.0@ == candidate_rates().filter(|x: u32| covered(cs@, x))
                &&& r.1 == max_channels(cs@)
                &&& forall|i: int| 0 <= i < cs@.len() ==> #[trigger] cs@[i].channels <= r.1
                &&& cs@.len() > 0 ==> exists|i: int| 0 <= i < cs@.len() && #[trigger] cs@[i].channels == r.1
                &&& cs@.len() == 0 ==> r.1 == 0
            },
            None => r.0@ == Seq::<u32>::empty() && r.1 == 0,
        },
{
    match configs {
        None => (Vec::new(), 0),
        Some(cs) => {
            let mut channels: u16 = 0;
            let mut k: usize = 0;
            while k < cs.len()
                invariant
                    k <= cs@.len(),
                    channels == max_channels(cs@.take(k as int)),
                decreases cs@.len() - k,
            {
                proof {
                    assert(cs@.take(k + 1).drop_last() =~= cs@.take(k as int));
                }
                if cs[k].channels > channels {
                    channels = cs[k].channels;
                }
                k = k + 1;
            }
            assert(cs@.take(cs@.len() as int) =~= cs@);
            proof {
                lemma_max_channels(cs@);
            }
            let cands = candidate_rate_list();
            let ghost pred = |x: u32| covered(cs@, x);
            let mut rates: Vec<u32> = Vec::new();
            let mut i: usize = 0;
            while i < cands.len()
                invariant
                    cands@ == candidate_rates(),
                    i <= cands@.len(),
                    pred == (|x: u32| covered(cs@, x)),
                    rates@ == cands@.take(i as int).filter(pred),
                decreases cands@.len() - i,
            {
                proof {
                    reveal_with_fuel(Seq::<_>::filter, 1);
                    assert(cands@.take(i + 1).drop_last() =~= cands@.take(i as int));
                }
                if covers(cs.as_slice(), cands[i]) {
                    rates.push(cands[i]);
                }
                i = i + 1;
            }
            assert(cands@.take(cands@.len() as int) =~= cands@);
            (rates, channels)
        },
    }
}

/// Whether `rate` works in both directions of a device: for capture when it has inputs,
/// for generation when it has outputs.
pub open spec fn usable_rate(in_rates: Seq<u32>, in_ch: u16, out_rates: Seq<u32>, out_ch: u16, rate: u32) -> bool {
    (in_ch == 0 || in_rates.contains(rate)) && (out_ch == 0 || out_rates.contains(rate))
}

/// Rates usable for capture (or for generation when the device has no input).
pub fn usable_rates(in_rates: &[u32], in_ch: u16, out_rates: &[u32], out_ch: u16) -> (r: Vec<u32>)
    ensures
        r@ == candidate_rates().filter(|x: u32| usable_rate(in_rates@, in_ch, out_rates@, out_ch, x)),
{
    let cands = candidate_rate_list();
    let ghost pred = |x: u32| usable_rate(in_rates@, in_ch, out_rates@, out_ch, x);
    let mut rates: Vec<u32> = Vec::new();
    let mut i: usize = 0;
    while i < cands.len()
        invariant
            cands@ == candidate_rates(),
            i <= cands@.len(),
            pred == (|x: u32| usable_rate(in_rates@, in_ch, out_rates@, out_ch, x)),
            rates@ == cands@.take(i as int).filter(pred),
        decreases cands@.len() - i,
    {
        proof {
            reveal_with_fuel(Seq::<_>::filter, 1);
            assert(cands@.take(i + 1).drop_last() =~= cands@.take(i as int));
        }
        let r = cands[i];
        if (in_ch == 0 || contains_u32(in_rates, r)) && (out_ch == 0 || contains_u32(out_rates, r)) {
            rates.push(r);
        }
        i = i + 1;
    }
    assert(cands@.take(cands@.len() as int) =~= cands@);
    rates
}

/// Channels `0, 1, ..., n - 1`.
pub open spec fn all_channels(n: u16) -> Seq<u16> {
    Seq::new(n as nat, |i: int| i as u16)
}

pub fn all_channel_list(n: u16) -> (v: Vec<u16>)
    ensures
        v@ == all_channels(n),
{
    let mut v: Vec<u16> = Vec::new();
    let mut c: u16 = 0;
    while c < n
        invariant
            c <= n,
            v@ =~= all_channels(c),
        decreases n - c,
    {
        v.push(c);
        c = c + 1;
    }
    v
}

/// The message of a channel that a device does not have.
pub open spec fn channel_out_of_range_message(bad: u16, available: u16) -> Seq<char> {
    "channel "@ + decimal(bad as nat) + " out of range (device has "@ + decimal(available as nat) + ")"@
}

/// Index of the first requested channel that the device does not have.
pub open spec fn first_bad_channel(requested: Seq<u16>, available: u16) -> int {
    choose|k: int|
        0 <= k < requested.len() && requested[k] >= available && forall|j: int| 0 <= j < k ==> requested[j] < available
}

/// Resolve a channel selection: empty means every channel; otherwise every requested
/// channel must exist.
pub fn expand(requested: Vec<u16>, available: u16) -> (r: Result<Vec<u16>, DeviceError>)
    ensures
        requested@.len() == 0 ==> (r matches Ok(v) && v@ == all_channels(available)),
        requested@.len() > 0 && (forall|j: int| 0 <= j < requested@.len() ==> requested@[j] < available)
            ==> (r matches Ok(v) && v@ == requested@),
        requested@.len() > 0 && (exists|j: int| 0 <= j < requested@.len() && requested@[j] >= available)
            ==> (r matches Err(DeviceError::UnsupportedConfig(m)) && m@ == channel_out_of_range_message(
            requested@[first_bad_channel(requested@, available)],
            available,
        )),
{
    if requested.len() == 0 {
        return Ok(all_channel_list(available));
    }
    let mut i: usize = 0;
    while i < requested.len()
        invariant
            i <= requested@.len(),
            forall|j: int| 0 <= j < i ==> requested@[j] < available,
        decreases requested@.len() - i,
    {
        let c = requested[i];
        if c >= available {
            proof {
                let k = first_bad_channel(requested@, available);
                assert(0 <= i < requested@.len() && requested@[i as int] >= available && forall|j: int|
                    0 <= j < i ==> requested@[j] < available);
                assert(k == i as int) by {
                    if k < i {
                        assert(requested@[k] < available);
                    } else if k > i {
                        assert(requested@[i as int] < available);
                    }
                }
            }
            let head = with_number("channel ", c as u64, " out of range (device has ");
            let tail = with_number("", available as u64, ")");
            proof {
                assert(""@ =~= Seq::<char>::empty()) by {
                    reveal_strlit("");
                }
            }
            let m = head.concat(tail.as_str());
            proof {
                assert(m@ =~= channel_out_of_range_message(c, available));
            }
            return Err(DeviceError::UnsupportedConfig(m));
        }
        i = i + 1;
    }
    Ok(requested)
}

/// Frames per block of a stream: never 0.
pub fn cfg_block_frames(cfg: &StreamConfig) -> (r: u32)
    ensures
        r == if cfg.block_frames == 0 { 1 } else { cfg.block_frames },
{
    if cfg.block_frames == 0 {
        1
    } else {
        cfg.block_frames
    }
}

/// The message of a sample rate a device does not support.
pub open spec fn sample_rate_message(rate: u32) -> Seq<char> {
    "sample rate "@ + decimal(rate as nat) + " Hz"@
}

/// The configuration a device applies: the requested rate and ranges, and the requested
/// channels, or `all_in` / `all_out` where none were requested.
pub open spec fn applied_from(
    cfg_rate: u32,
    input_range: Option<usize>,
    output_range: Option<usize>,
    input_channels: Seq<u16>,
    output_channels: Seq<u16>,
    all_in: Seq<u16>,
    all_out: Seq<u16>,
) -> AppliedView {
    AppliedView {
        sample_rate: cfg_rate,
        input_range,
        output_range,
        input_channels: if input_channels.len() == 0 { all_in } else { input_channels },
        output_channels: if output_channels.len() == 0 { all_out } else { output_channels },
    }
}

/// The configure / start / stop state of a device that runs one stream at a time.
pub struct DeviceState {
    pub applied: Option<AppliedConfig>,
    /// Handle of the running stream, if any.
    pub running: Option<StreamHandle>,
    pub next_handle: u64,
}

/// The applied configuration, as a value.
pub open spec fn applied_view(a: Option<AppliedConfig>) -> Option<AppliedView> {
    match a {
        Some(c) => Some(c@),
        None => None,
    }
}

/// `h` is what a successful `claim_stream` hands out from `before`, leaving `after`.
pub open spec fn claimed(before: DeviceState, after: DeviceState, h: StreamHandle) -> bool {
    &&& h.0 == before.next_handle
    &&& after.next_handle == before.next_handle + 1
}

impl DeviceState {
    pub fn new() -> (s: DeviceState)
        ensures
            s.applied is None,
            s.running is None,
            s.next_handle == 0,
    {
        DeviceState { applied: None, running: None, next_handle: 0 }
    }

    /// Configure a device without ranges whose every rate in `sample_rates` works and whose
    /// `channels` inputs and outputs can be selected freely (the virtual loopback).
    /// Refused while a stream runs.
    pub fn configure_loopback(&mut self, cfg: DeviceConfig, sample_rates: &[u32], channels: u16) -> (r: Result<AppliedConfig, DeviceError>)
        ensures
            old(self).running is Some ==> (r matches Err(DeviceError::Busy)),
            old(self).running is None && !sample_rates@.contains(cfg.sample_rate) ==> (r matches Err(
                DeviceError::UnsupportedConfig(m),
            ) && m@ == sample_rate_message(cfg.sample_rate)),
            old(self).running is None && sample_rates@.contains(cfg.sample_rate) ==> (r matches Ok(a)
                && a@ == applied_from(
                cfg.sample_rate,
                None,
                None,
                cfg.input_channels@,
                cfg.output_channels@,
                all_channels(channels),
                all_channels(channels),
            ) && applied_view(final(self).applied) == Some(a@)),
            r is Err ==> applied_view(final(self).applied) == applied_view(old(self).applied),
            final(self).running == old(self).running,
            final(self).next_handle == old(self).next_handle,
    {
        if self.running.is_some() {
            return Err(DeviceError::Busy);
        }
        if !contains_u32(sample_rates, cfg.sample_rate) {
            return Err(DeviceError::UnsupportedConfig(with_number("sample rate ", cfg.sample_rate as u64, " Hz")));
        }
        let all = all_channel_list(channels);
        let input_channels = if cfg.input_channels.len() == 0 {
            vstd::slice::slice_to_vec(all.as_slice())
        } else {
            cfg.input_channels
        };
        let output_channels = if cfg.output_channels.len() == 0 {
            all
        } else {
            cfg.output_channels
        };
        let applied = AppliedConfig {
            sample_rate: cfg.sample_rate,
            input_range: None,
            output_range: None,
            input_channels,
            output_channels,
        };
        self.applied = Some(applied.clone());
        Ok(applied)
    }

    /// Configure a sound card: no selectable ranges, every requested channel must exist.
    /// Refused while a stream runs.
    pub fn configure_sound_card(
        &mut self,
        cfg: DeviceConfig,
        sample_rates: &[u32],
        input_channels: u16,
        output_channels: u16,
    ) -> (r: Result<AppliedConfig, DeviceError>)
        ensures
            old(self).running is Some ==> (r matches Err(DeviceError::Busy)),
            old(self).running is None && !sample_rates@.contains(cfg.sample_rate) ==> (r matches Err(
                DeviceError::UnsupportedConfig(m),
            ) && m@ == sample_rate_message(cfg.sample_rate)),
            old(self).running is None && sample_rates@.contains(cfg.sample_rate) && (cfg.input_range is Some
                || cfg.output_range is Some) ==> (r matches Err(DeviceError::UnsupportedConfig(m))
                && m@ == "sound cards have no selectable ranges"@),
            r matches Ok(a) ==> {
                &&& old(self).running is None
                &&& sample_rates@.contains(cfg.sample_rate)
                &&& cfg.input_range is None && cfg.output_range is None
                &&& a.sample_rate == cfg.sample_rate
                &&& a.input_range is None && a.output_range is None
                &&& (cfg.input_channels@.len() == 0 ==> a.input_channels@ == all_channels(input_channels))
                &&& (cfg.input_channels@.len() > 0 ==> a.input_channels@ == cfg.input_channels@)
                &&& (cfg.output_channels@.len() == 0 ==> a.output_channels@ == all_channels(output_channels))
                &&& (cfg.output_channels@.len() > 0 ==> a.output_channels@ == cfg.output_channels@)
                &&& forall|j: int| 0 <= j < a.input_channels@.len() ==> a.input_channels@[j] < input_channels
                &&& forall|j: int| 0 <= j < a.output_channels@.len() ==> a.output_channels@[j] < output_channels
                &&& applied_view(final(self).applied) == Some(a@)
            },
            old(self).running is None && sample_rates@.contains(cfg.sample_rate) && cfg.input_range is None
                && cfg.output_range is None && (forall|j: int| 0 <= j < cfg.input_channels@.len() ==> cfg.input_channels@[j] < input_channels)
                && (forall|j: int| 0 <= j < cfg.output_channels@.len() ==> cfg.output_channels@[j] < output_channels)
                ==> r is Ok,
            r is Err ==> applied_view(final(self).applied) == applied_view(old(self).applied),
            final(self).running == old(self).running,
            final(self).next_handle == old(self).next_handle,
    {
        if self.running.is_some() {
            return Err(DeviceError::Busy);
        }
        if !contains_u32(sample_rates, cfg.sample_rate) {
            return Err(DeviceError::UnsupportedConfig(with_number("sample rate ", cfg.sample_rate as u64, " Hz")));
        }
        if cfg.input_range.is_some() || cfg.output_range.is_some() {
            return Err(DeviceError::UnsupportedConfig(String::from_str("sound cards have no selectable ranges")));
        }
        let sample_rate = cfg.sample_rate;
        let ins = match expand(cfg.input_channels, input_channels) {
            Ok(v) => v,
            Err(e) => return Err(e),
        };
        let outs = match expand(cfg.output_channels, output_channels) {
            Ok(v) => v,
            Err(e) => return Err(e),
        };
        let applied = AppliedConfig {
            sample_rate,
            input_range: None,
            output_range: None,
            input_channels: ins,
            output_channels: outs,
        };
        self.applied = Some(applied.clone());
        Ok(applied)
    }

    /// Reserve a handle for a new stream: refused while one runs, or before `configure`.
    pub fn claim_stream(&mut self) -> (r: Result<(StreamHandle, AppliedConfig), DeviceError>)
        requires
            old(self).next_handle < u64::MAX,
        ensures
            old(self).running is Some ==> (r matches Err(DeviceError::Busy)),
            old(self).running is None && old(self).applied is None ==> (r matches Err(DeviceError::NotConfigured)),
            old(self).running is None && old(self).applied is Some ==> (r matches Ok((h, a)) && claimed(
                *old(self),
                *final(self),
                h,
            ) && applied_view(old(self).applied) == Some(a@)),
            r is Err ==> final(self).next_handle == old(self).next_handle,
            final(self).running == old(self).running,
            applied_view(final(self).applied) == applied_view(old(self).applied),
    {
        if self.running.is_some() {
            return Err(DeviceError::Busy);
        }
        let applied = match &self.applied {
            Some(a) => a.clone(),
            None => return Err(DeviceError::NotConfigured),
        };
        let handle = StreamHandle(self.next_handle);
        self.next_handle = self.next_handle + 1;
        Ok((handle, applied))
    }

    /// Record that the stream of `handle` now runs.
    pub fn mark_running(&mut self, handle: StreamHandle)
        ensures
            final(self).running == Some(handle),
            final(self).next_handle == old(self).next_handle,
            applied_view(final(self).applied) == applied_view(old(self).applied),
    {
        self.running = Some(handle);
    }

    /// Release the stream of `handle`. `Ok(true)` when it was running (the caller stops it),
    /// `Ok(false)` when nothing runs (stopping is idempotent), `NoSuchStream` when another
    /// stream runs.
    pub fn release(&mut self, handle: StreamHandle) -> (r: Result<bool, DeviceError>)
        ensures
            old(self).running == Some(handle) ==> (r matches Ok(true) && final(self).running is None),
            old(self).running is None ==> (r matches Ok(false) && final(self).running is None),
            old(self).running is Some && old(self).running != Some(handle) ==> (r matches Err(
                DeviceError::NoSuchStream,
            ) && final(self).running == old(self).running),
            final(self).next_handle == old(self).next_handle,
            applied_view(final(self).applied) == applied_view(old(self).applied),
    {
        match self.running {
            Some(h) => {
                if h == handle {
                    self.running = None;
                    Ok(true)
                } else {
                    Err(DeviceError::NoSuchStream)
                }
            },
            None => Ok(false),
        }
    }

    /// `Ok` when the stream of `handle` is the running one.
    pub fn check_running(&self, handle: StreamHandle) -> (r: Result<(), DeviceError>)
        ensures
            self.running == Some(handle) ==> r is Ok,
            self.running != Some(handle) ==> (r matches Err(DeviceError::NoSuchStream)),
    {
        match self.running {
            Some(h) => {
                if h == handle {
                    Ok(())
                } else {
                    Err(DeviceError::NoSuchStream)
                }
            },
            None => Err(DeviceError::NoSuchStream),
        }
    }
}

/// The message of a range index a device does not have.
pub open spec fn range_index_message(i: usize) -> Seq<char> {
    "range index "@ + decimal(i as nat)
}

/// The full-scale level (dBV) of range `idx` (or `default` when none is requested).
pub fn range_dbv(ranges: &[i32], idx: Option<usize>, default: usize) -> (r: Result<i32, DeviceError>)
    ensures
        ({
            let i = match idx {
                Some(i) => i,
                None => default,
            };
            &&& i < ranges@.len() ==> r == Ok::<i32, DeviceError>(ranges@[i as int])
            &&& i >= ranges@.len() ==> (r matches Err(DeviceError::UnsupportedConfig(m)) && m@ == range_index_message(i))
        }),
{
    let i = match idx {
        Some(i) => i,
        None => default,
    };
    if i < ranges.len() {
        Ok(ranges[i])
    } else {
        let m = with_number("range index ", i as u64, "");
        proof {
            reveal_strlit("");
            assert(m@ =~= range_index_message(i));
        }
        Err(DeviceError::UnsupportedConfig(m))
    }
}

/// The ranges a QA40x configuration selects, with their full-scale levels in dBV.
#[derive(Debug, Clone, Copy, PartialEq, Eq, Structural)]
pub struct RangeChoice {
    pub input_index: usize,
    pub input_dbv: i32,
    pub output_index: usize,
    pub output_dbv: i32,
}

/// The input range a QA40x uses by default: the widest (last) one.
pub open spec fn default_input_range(n: nat) -> usize {
    if n == 0 {
        0
    } else {
        (n - 1) as usize
    }
}

/// The message of a channel a QA40x does not have.
pub open spec fn channel_message(c: u16) -> Seq<char> {
    "channel "@ + decimal(c as nat)
}

/// Index of the first channel of `s` that is not 0 or 1.
pub open spec fn first_non_stereo(s: Seq<u16>) -> int {
    choose|k: int| 0 <= k < s.len() && s[k] >= 2 && forall|j: int| 0 <= j < k ==> s[j] < 2
}

impl DeviceState {
    /// First steps of a QA40x configure: refused while streaming, for a rate that the
    /// driver does not know (`rate_known`) or the device does not list, and for a range
    /// index the device does not have. Safe defaults: widest input range, lowest output
    /// range.
    pub fn qa40x_select_ranges(
        &self,
        cfg: &DeviceConfig,
        sample_rates: &[u32],
        rate_known: bool,
        input_ranges_dbv: &[i32],
        output_ranges_dbv: &[i32],
    ) -> (r: Result<RangeChoice, DeviceError>)
        ensures
            ({
                let in_idx = match cfg.input_range {
                    Some(i) => i,
                    None => default_input_range(input_ranges_dbv@.len()),
                };
                let out_idx = match cfg.output_range {
                    Some(i) => i,
                    None => 0usize,
                };
                let rate_ok = rate_known && sample_rates@.contains(cfg.sample_rate);
                &&& self.running is Some ==> (r matches Err(DeviceError::Busy))
                &&& self.running is None && !rate_ok ==> (r matches Err(DeviceError::UnsupportedConfig(m)) && m@
                    == sample_rate_message(cfg.sample_rate))
                &&& self.running is None && rate_ok && in_idx >= input_ranges_dbv@.len() ==> (r matches Err(
                    DeviceError::UnsupportedConfig(m),
                ) && m@ == range_index_message(in_idx))
                &&& self.running is None && rate_ok && in_idx < input_ranges_dbv@.len() && out_idx
                    >= output_ranges_dbv@.len() ==> (r matches Err(DeviceError::UnsupportedConfig(m)) && m@
                    == range_index_message(out_idx))
                &&& self.running is None && rate_ok && in_idx < input_ranges_dbv@.len() && out_idx
                    < output_ranges_dbv@.len() ==> r == Ok::<RangeChoice, DeviceError>(
                    RangeChoice {
                        input_index: in_idx,
                        input_dbv: input_ranges_dbv@[in_idx as int],
                        output_index: out_idx,
                        output_dbv: output_ranges_dbv@[out_idx as int],
                    },
                )
            }),
    {
        if self.running.is_some() {
            return Err(DeviceError::Busy);
        }
        if !rate_known || !contains_u32(sample_rates, cfg.sample_rate) {
            return Err(DeviceError::UnsupportedConfig(with_number("sample rate ", cfg.sample_rate as u64, " Hz")));
        }
        let n_in = input_ranges_dbv.len();
        let in_idx = match cfg.input_range {
            Some(i) => i,
            None => if n_in == 0 { 0 } else { n_in - 1 },
        };
        let out_idx = match cfg.output_range {
            Some(i) => i,
            None => 0,
        };
        let in_dbv = match range_dbv(input_ranges_dbv, Some(in_idx), 0) {
            Ok(v) => v,
            Err(e) => return Err(e),
        };
        let out_dbv = match range_dbv(output_ranges_dbv, Some(out_idx), 0) {
            Ok(v) => v,
            Err(e) => return Err(e),
        };
        Ok(RangeChoice { input_index: in_idx, input_dbv: in_dbv, output_index: out_idx, output_dbv: out_dbv })
    }

    /// Record what a QA40x applied once the device accepted the rate and gains: the
    /// selected ranges, and both channels where none were requested.
    pub fn qa40x_apply(&mut self, cfg: DeviceConfig, input_index: usize, output_index: usize) -> (a: AppliedConfig)
        ensures
            a@ == applied_from(
                cfg.sample_rate,
                Some(input_index),
                Some(output_index),
                cfg.input_channels@,
                cfg.output_channels@,
                seq![0u16, 1u16],
                seq![0u16, 1u16],
            ),
            applied_view(final(self).applied) == Some(a@),
            final(self).running == old(self).running,
            final(self).next_handle == old(self).next_handle,
    {
        let input_channels = if cfg.input_channels.len() == 0 {
            vec![0u16, 1]
        } else {
            cfg.input_channels
        };
        let output_channels = if cfg.output_channels.len() == 0 {
            vec![0u16, 1]
        } else {
            cfg.output_channels
        };
        let applied = AppliedConfig {
            sample_rate: cfg.sample_rate,
            input_range: Some(input_index),
            output_range: Some(output_index),
            input_channels,
            output_channels,
        };
        proof {
            assert(applied@ =~= applied_from(
                cfg.sample_rate,
                Some(input_index),
                Some(output_index),
                cfg.input_channels@,
                cfg.output_channels@,
                seq![0u16, 1u16],
                seq![0u16, 1u16],
            ));
        }
        self.applied = Some(applied.clone());
        applied
    }
}

/// A QA40x has two inputs and two outputs: every requested channel must be 0 or 1
/// (inputs checked first).
pub fn qa40x_check_channels(cfg: &DeviceConfig) -> (r: Result<(), DeviceError>)
    ensures
        ({
            let all = cfg.input_channels@ + cfg.output_channels@;
            &&& (forall|j: int| 0 <= j < all.len() ==> all[j] < 2) ==> r is Ok
            &&& (exists|j: int| 0 <= j < all.len() && all[j] >= 2) ==> (r matches Err(DeviceError::UnsupportedConfig(m))
                && m@ == channel_message(all[first_non_stereo(all)]))
        }),
{
    let ghost all = cfg.input_channels@ + cfg.output_channels@;
    let ni = cfg.input_channels.len();
    let no = cfg.output_channels.len();
    let mut i: usize = 0;
    while i < ni
        invariant
            ni == cfg.input_channels@.len(),
            all == cfg.input_channels@ + cfg.output_channels@,
            i <= ni,
            forall|j: int| 0 <= j < i ==> all[j] < 2,
        decreases ni - i,
    {
        let c = cfg.input_channels[i];
        assert(c == all[i as int]);
        if c >= 2 {
            proof {
                lemma_first_non_stereo(all, i as int);
            }
            return Err(channel_error(c));
        }
        i = i + 1;
    }
    let mut k: usize = 0;
    while k < no
        invariant
            ni == cfg.input_channels@.len(),
            no == cfg.output_channels@.len(),
            all == cfg.input_channels@ + cfg.output_channels@,
            k <= no,
            forall|j: int| 0 <= j < ni + k ==> all[j] < 2,
        decreases no - k,
    {
        let c = cfg.output_channels[k];
        assert(c == all[ni + k]);
        if c >= 2 {
            proof {
                lemma_first_non_stereo(all, ni + k);
            }
            return Err(channel_error(c));
        }
        k = k + 1;
    }
    Ok(())
}

proof fn lemma_first_non_stereo(all: Seq<u16>, i: int)
    requires
        0 <= i < all.len(),
        all[i] >= 2,
        forall|j: int| 0 <= j < i ==> all[j] < 2,
    ensures
        first_non_stereo(all) == i,
{
    let k = first_non_stereo(all);
    assert(0 <= i < all.len() && all[i] >= 2 && forall|j: int| 0 <= j < i ==> all[j] < 2);
    if k < i {
        assert(all[k] < 2);
    } else if k > i {
        assert(all[i] < 2);
    }
}

fn channel_error(c: u16) -> (e: DeviceError)
    ensures
        e matches DeviceError::UnsupportedConfig(m) && m@ == channel_message(c),
{
    let m = with_number("channel ", c as u64, "");
    proof {
        reveal_strlit("");
        assert(m@ =~= channel_message(c));
    }
    DeviceError::UnsupportedConfig(m)
}

/// The unit part of a QA40x identifier (after `qa40x/`), if it is one.
pub fn qa40x_unit(id: &DeviceId) -> (r: Option<String>)
    ensures
        ({
            let p = seq!['q', 'a', '4', '0', 'x', '/'];
            &&& (id@.len() >= 6 && id@.take(6) == p) ==> (r matches Some(u) && u@ == id@.skip(6))
            &&& !(id@.len() >= 6 && id@.take(6) == p) ==> r is None
        }),
{
    let s = id.as_str();
    let n = s.unicode_len();
    let prefix = "qa40x/";
    proof {
        reveal_strlit("qa40x/");
    }
    if n < 6 {
        return None;
    }
    let head = s.substring_char(0, 6);
    proof {
        assert(head@ =~= id@.take(6));
        assert(prefix@ =~= seq!['q', 'a', '4', '0', 'x', '/']);
    }
    if !str_eq(head, prefix) {
        return None;
    }
    let rest = s.substring_char(6, n);
    proof {
        assert(rest@ =~= id@.skip(6));
    }
    Some(String::from_str(rest))
}

/// Handles are never reused: a handle claimed after another one (with any number of
/// configure, mark and release steps in between, none of which lowers the counter) differs
/// from it.
pub proof fn lemma_handles_are_unique(
    s0: DeviceState,
    s1: DeviceState,
    s2: DeviceState,
    s3: DeviceState,
    h1: StreamHandle,
    h2: StreamHandle,
)
    requires
        claimed(s0, s1, h1),
        s1.next_handle <= s2.next_handle,
        claimed(s2, s3, h2),
    ensures
        h1 != h2,
        h1.0 < h2.0,
{
}

/// The identifier of the virtual loopback device.
pub fn loopback_id() -> (id: DeviceId)
    ensures
        id@ == seq!['v', 'i', 'r', 't', 'u', 'a', 'l', '/'] + "loopback"@,
{
    DeviceId::new(BackendKind::Virtual, "loopback")
}

/// Opening the virtual loopback: any other identifier is not found.
pub fn check_loopback_id(id: &DeviceId) -> (r: Result<(), DeviceError>)
    ensures
        id@ == seq!['v', 'i', 'r', 't', 'u', 'a', 'l', '/'] + "loopback"@ ==> r is Ok,
        id@ != seq!['v', 'i', 'r', 't', 'u', 'a', 'l', '/'] + "loopback"@ ==> (r matches Err(
            DeviceError::NotFound(m),
        ) && m@ == id@),
{
    let own = loopback_id();
    if str_eq(id.as_str(), own.as_str()) {
        Ok(())
    } else {
        Err(DeviceError::NotFound(String::from_str(id.as_str())))
    }
}

/// The backend, among those registered (by kind, in registration order), that owns a
/// device: the first one of the kind named by the identifier.
pub fn select_backend(kinds: &[BackendKind], id: &DeviceId) -> (r: Result<usize, DeviceError>)
    ensures
        match r {
            Ok(i) => {
                &&& id.backend_spec() matches Some(k)
                &&& i < kinds@.len() && kinds@[i as int] == k
                &&& forall|j: int| 0 <= j < i ==> kinds@[j] != k
            },
            Err(e) => {
                &&& e matches DeviceError::NotFound(m) && m@ == id@
                &&& (id.backend_spec() matches Some(k) ==> !kinds@.contains(k))
            },
        },
{
    let kind = match id.backend() {
        Some(k) => k,
        None => return Err(DeviceError::NotFound(String::from_str(id.as_str()))),
    };
    let mut i: usize = 0;
    while i < kinds.len()
        invariant
            i <= kinds@.len(),
            id.backend_spec() == Some(kind),
            forall|j: int| 0 <= j < i ==> kinds@[j] != kind,
        decreases kinds@.len() - i,
    {
        if kinds[i] == kind {
            return Ok(i);
        }
        i = i + 1;
    }
    Err(DeviceError::NotFound(String::from_str(id.as_str())))
}

/// Generic sound cards through cpal.
#[derive(Debug, Default, Clone, Copy)]
pub struct CpalBackend;

impl CpalBackend {
    pub fn new() -> (b: CpalBackend)
        ensures
            b == CpalBackend,
    {
        CpalBackend
    }
}

/// What a failed cpal open reports as the device.
pub fn id_display(_backend: &CpalBackend) -> (s: String)
    ensures
        s@ == "cpal device"@,
{
    String::from_str("cpal device")
}

/// Silence: an output source that writes nothing (the buffer arrives zeroed).
#[derive(Debug, Default, Clone, Copy)]
pub struct Silence;

} // verus!
