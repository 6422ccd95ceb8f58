//! Plain data types shared by every backend. Kept free of backend-specific details so that
//! the engine and the API layer can map them to the contract without knowing the backend.

use crate::text::{first_segment, lemma_first_segment_after, str_eq};
use vstd::prelude::*;
use vstd::string::{StrSliceExecFns, StringExecFns};

verus! {

/// Which backend owns a device.
#[derive(Debug, Clone, Copy, PartialEq, Eq, Hash, Structural)]
pub enum BackendKind {
    /// QuantAsylum QA402/QA403 through `qa40x-driver` (native USB, factory calibration).
    Qa40x,
    /// Generic sound card through cpal (WASAPI, ASIO, Core Audio, ALSA...).
    Cpal,
    /// In-process virtual loopback used by tests.
    Virtual,
}

/// The identifier prefix of each backend.
pub open spec fn prefix_of(k: BackendKind) -> Seq<char> {
    match k {
        BackendKind::Qa40x => seq!['q', 'a', '4', '0', 'x'],
        BackendKind::Cpal => seq!['c', 'p', 'a', 'l'],
        BackendKind::Virtual => seq!['v', 'i', 'r', 't', 'u', 'a', 'l'],
    }
}

/// The backend whose prefix is `s`, if any.
pub open spec fn backend_of_prefix(s: Seq<char>) -> Option<BackendKind> {
    if s == prefix_of(BackendKind::Qa40x) {
        Some(BackendKind::Qa40x)
    } else if s == prefix_of(BackendKind::Cpal) {
        Some(BackendKind::Cpal)
    } else if s == prefix_of(BackendKind::Virtual) {
        Some(BackendKind::Virtual)
    } else {
        None
    }
}

impl BackendKind {
    pub fn prefix(self) -> (r: &'static str)
        ensures
            r@ == prefix_of(self),
    {
        match self {
            BackendKind::Qa40x => {
                proof {
                    reveal_strlit("qa40x");
                }
                "qa40x"
            },
            BackendKind::Cpal => {
                proof {
                    reveal_strlit("cpal");
                }
                "cpal"
            },
            BackendKind::Virtual => {
                proof {
                    reveal_strlit("virtual");
                }
                "virtual"
            },
        }
    }

    pub fn from_prefix(s: &str) -> (r: Option<BackendKind>)
        ensures
            r == backend_of_prefix(s@),
    {
        if str_eq(s, BackendKind::Qa40x.prefix()) {
            Some(BackendKind::Qa40x)
        } else if str_eq(s, BackendKind::Cpal.prefix()) {
            Some(BackendKind::Cpal)
        } else if str_eq(s, BackendKind::Virtual.prefix()) {
            Some(BackendKind::Virtual)
        } else {
            None
        }
    }
}

/// Stable, human-readable device identifier: `<backend>/<unit>`, e.g. `qa40x/QA403-1234`
/// or `cpal/coreaudio/MacBook Pro Microphone`.
#[derive(Debug, Clone, PartialEq, Eq, Hash)]
pub struct DeviceId(pub String);

impl View for DeviceId {
    type V = Seq<char>;

    open spec fn view(&self) -> Seq<char> {
        self.0@
    }
}

impl DeviceId {
    /// The backend that the identifier names.
    pub open spec fn backend_spec(&self) -> Option<BackendKind> {
        backend_of_prefix(first_segment(self@))
    }

    pub fn new(backend: BackendKind, unit: &str) -> (id: DeviceId)
        ensures
            id@ == prefix_of(backend) + seq!['/'] + unit@,
    {
        proof {
            reveal_strlit("/");
        }
        let s = String::from_str(backend.prefix()).concat("/").concat(unit);
        DeviceId(s)
    }

    pub fn as_str(&self) -> (r: &str)
        ensures
            r@ == self@,
    {
        self.0.as_str()
    }

    /// The backend named by the part of the identifier before the first `/`.
    pub fn backend(&self) -> (r: Option<BackendKind>)
        ensures
            r == self.backend_spec(),
    {
        let s = self.0.as_str();
        let n = s.unicode_len();
        let mut i: usize = 0;
        while i < n && s.get_char(i) != '/'
            invariant
                n == s@.len(),
                i <= n,
                forall|j: int| 0 <= j < i ==> s@[j] != '/',
            decreases n - i,
        {
            i = i + 1;
        }
        proof {
            lemma_first_segment_after(s@, i as int);
        }
        BackendKind::from_prefix(s.substring_char(0, i))
    }
}

/// Every backend is found again from its own prefix, and no two backends share one.
pub proof fn lemma_prefix_round_trip(k: BackendKind, j: BackendKind)
    ensures
        backend_of_prefix(prefix_of(k)) == Some(k),
        prefix_of(k) == prefix_of(j) ==> k == j,
{
    assert(prefix_of(BackendKind::Qa40x) != prefix_of(BackendKind::Cpal)) by {
        assert(prefix_of(BackendKind::Qa40x).len() != prefix_of(BackendKind::Cpal).len());
    }
    assert(prefix_of(BackendKind::Qa40x) != prefix_of(BackendKind::Virtual)) by {
        assert(prefix_of(BackendKind::Qa40x).len() != prefix_of(BackendKind::Virtual).len());
    }
    assert(prefix_of(BackendKind::Cpal) != prefix_of(BackendKind::Virtual)) by {
        assert(prefix_of(BackendKind::Cpal).len() != prefix_of(BackendKind::Virtual).len());
    }
}

/// An identifier made by [`DeviceId::new`] names the backend it was made for.
pub proof fn lemma_new_id_names_its_backend(k: BackendKind, unit: Seq<char>)
    ensures
        backend_of_prefix(first_segment(prefix_of(k) + seq!['/'] + unit)) == Some(k),
{
    let p = prefix_of(k);
    let s = p + seq!['/'] + unit;
    assert(forall|j: int| 0 <= j < p.len() ==> s[j] == p[j] && p[j] != '/');
    crate::text::lemma_first_segment_at_slash(s, p.len() as int);
    assert(s.take(p.len() as int) =~= p);
}

/// Whether absolute units are known for this device.
#[derive(Debug, Clone, PartialEq)]
pub enum Calibration {
    /// Factory calibration read from the device (QA40x): samples map to volts.
    Factory { source: String },
    /// No calibration: samples are dBFS only. A user calibration may be applied upstream.
    Uncalibrated,
}

/// Requested device configuration. `None` keeps the backend default.
#[derive(Debug, PartialEq)]
pub struct DeviceConfig {
    pub sample_rate: u32,
    /// Index into the device's input ranges.
    pub input_range: Option<usize>,
    /// Index into the device's output ranges.
    pub output_range: Option<usize>,
    /// Physical input channels to capture, in block order. Empty = all.
    pub input_channels: Vec<u16>,
    /// Physical output channels to drive, in block order. Empty = all.
    pub output_channels: Vec<u16>,
    /// Let the engine pick the input range from the signal (devices with ranges). Backends
    /// ignore it; the engine implements the policy.
    pub auto_range_input: bool,
}

impl DeviceConfig {
    pub fn with_sample_rate(sample_rate: u32) -> (c: DeviceConfig)
        ensures
            c.sample_rate == sample_rate,
            c.input_range is None,
            c.output_range is None,
            c.input_channels@ == Seq::<u16>::empty(),
            c.output_channels@ == Seq::<u16>::empty(),
            !c.auto_range_input,
    {
        DeviceConfig {
            sample_rate,
            input_range: None,
            output_range: None,
            input_channels: Vec::new(),
            output_channels: Vec::new(),
            auto_range_input: false,
        }
    }
}

impl Clone for DeviceConfig {
    fn clone(&self) -> (r: DeviceConfig)
        ensures
            r.sample_rate == self.sample_rate,
            r.input_range == self.input_range,
            r.output_range == self.output_range,
            r.input_channels@ == self.input_channels@,
            r.output_channels@ == self.output_channels@,
            r.auto_range_input == self.auto_range_input,
    {
        DeviceConfig {
            sample_rate: self.sample_rate,
            input_range: self.input_range,
            output_range: self.output_range,
            input_channels: vstd::slice::slice_to_vec(self.input_channels.as_slice()),
            output_channels: vstd::slice::slice_to_vec(self.output_channels.as_slice()),
            auto_range_input: self.auto_range_input,
        }
    }
}

/// What the backend actually applied (ranges resolved, channel lists expanded).
#[derive(Debug, PartialEq)]
pub struct AppliedConfig {
    pub sample_rate: u32,
    pub input_range: Option<usize>,
    pub output_range: Option<usize>,
    pub input_channels: Vec<u16>,
    pub output_channels: Vec<u16>,
}

/// Mathematical model of an [`AppliedConfig`].
pub struct AppliedView {
    pub sample_rate: u32,
    pub input_range: Option<usize>,
    pub output_range: Option<usize>,
    pub input_channels: Seq<u16>,
    pub output_channels: Seq<u16>,
}

impl View for AppliedConfig {
    type V = AppliedView;

    open spec fn view(&self) -> AppliedView {
        AppliedView {
            sample_rate: self.sample_rate,
            input_range: self.input_range,
            output_range: self.output_range,
            input_channels: self.input_channels@,
            output_channels: self.output_channels@,
        }
    }
}

impl Clone for AppliedConfig {
    fn clone(&self) -> (r: AppliedConfig)
        ensures
            r@ == self@,
    {
        AppliedConfig {
            sample_rate: self.sample_rate,
            input_range: self.input_range,
            output_range: self.output_range,
            input_channels: vstd::slice::slice_to_vec(self.input_channels.as_slice()),
            output_channels: vstd::slice::slice_to_vec(self.output_channels.as_slice()),
        }
    }
}

/// Per-stream parameters.
#[derive(Debug, Clone, PartialEq, Eq, Structural)]
pub struct StreamConfig {
    /// Frames per [`InputBlock`]. Backends regroup their native buffers to honour this.
    pub block_frames: u32,
    pub capture: bool,
    pub generate: bool,
}

impl Default for StreamConfig {
    fn default() -> (c: StreamConfig)
        ensures
            c.block_frames == 4096,
            c.capture,
            !c.generate,
    {
        StreamConfig { block_frames: 4096, capture: true, generate: false }
    }
}

/// A captured block: interleaved samples (full scale = ±1.0 for audio samples).
#[derive(Debug, Clone)]
pub struct InputBlock<S> {
    /// Monotonic block counter for this stream, starting at 0.
    pub seq: u64,
    /// Index of the first frame of this block since the stream started.
    pub first_frame: u64,
    pub channels: u16,
    pub frames: u32,
    pub samples: Vec<S>,
    /// Number of blocks the backend had to drop before this one (0 = none).
    pub dropped_before: u32,
}

/// Mathematical model of an [`InputBlock`].
pub struct BlockView<S> {
    pub seq: u64,
    pub first_frame: u64,
    pub channels: u16,
    pub frames: u32,
    pub samples: Seq<S>,
    pub dropped_before: u32,
}

impl<S> View for InputBlock<S> {
    type V = BlockView<S>;

    open spec fn view(&self) -> BlockView<S> {
        BlockView {
            seq: self.seq,
            first_frame: self.first_frame,
            channels: self.channels,
            frames: self.frames,
            samples: self.samples@,
            dropped_before: self.dropped_before,
        }
    }
}

/// Opaque handle to a running stream.
#[derive(Debug, Clone, Copy, PartialEq, Eq, Hash, Structural)]
pub struct StreamHandle(pub u64);

#[derive(Debug, Clone, Copy, PartialEq, Eq, Structural)]
pub enum Direction {
    Input,
    Output,
}

} // verus!
