//! The discrete choices of the signal processing: analysis windows, averaging modes,
//! frequency weightings and the distortion analyses.

use vstd::prelude::*;

verus! {

/// Analysis windows (all periodic).
#[derive(Debug, Clone, Copy, PartialEq, Eq, Hash, Structural)]
pub enum Window {
    Rectangular,
    Hann,
    BlackmanHarris4,
    BlackmanHarris7,
    FlatTop,
}

/// Main-lobe half width of each window, in bins.
pub open spec fn main_lobe_of(w: Window) -> nat {
    match w {
        Window::Rectangular => 1,
        Window::Hann => 2,
        Window::BlackmanHarris4 => 4,
        Window::BlackmanHarris7 => 7,
        Window::FlatTop => 5,
    }
}

impl Window {
    /// Bins on each side of a sine's bin that hold its main lobe (used to sum the power of
    /// a spectral line): rectangular 1, Hann 2, Blackman-Harris 4-term 4, 7-term 7, flat-top 5.
    pub fn main_lobe_bins(self) -> (r: usize)
        ensures
            r == main_lobe_of(self),
    {
        match self {
            Window::Rectangular => 1,
            Window::Hann => 2,
            Window::BlackmanHarris4 => 4,
            // Measured on a bin-centred tone: the 7-term window still carries -96 dBc at
            // ±6 bins and reaches its sidelobe floor (< -125 dBc) from ±8 on, so the lobe
            // is ±7 bins.
            Window::BlackmanHarris7 => 7,
            Window::FlatTop => 5,
        }
    }
}

/// How successive spectra are combined.
#[derive(Debug, Clone, Copy, PartialEq, Eq, Structural)]
pub enum Averaging {
    /// Each block replaces the previous one (`None` in the API).
    Off,
    /// `y ← y + (x − y)/n` once `n` blocks have been seen, running mean before that.
    Exponential { n: u32 },
    /// Running mean of the last `n` blocks (then frozen until reset).
    Linear { n: u32 },
    /// Per-bin maximum since the last reset.
    PeakHold,
}

/// Frequency weightings A, C, Z (IEC 61672-1).
#[derive(Debug, Clone, Copy, PartialEq, Eq, Hash, Structural)]
pub enum Weighting {
    A,
    C,
    Z,
}

/// Total harmonic distortion (+ noise) of a stationary sine.
#[derive(Debug, Clone, Copy)]
pub struct Thd;

/// Intermodulation distortion (SMPTE, CCIF).
#[derive(Debug, Clone, Copy)]
pub struct Imd;

/// Spectrum index range a spectral line occupies: the `m` bins on each side of bin `k`,
/// clipped to the spectrum.
pub open spec fn line_bins(k: nat, m: nat, bins: nat) -> (nat, nat) {
    (if k >= m { (k - m) as nat } else { 0 }, if k + m < bins { k + m } else { (bins - 1) as nat })
}

/// The bins over which the power of the line at bin `k` is summed:
/// `k.saturating_sub(m) ..= (k + m).min(len - 1)`.
pub fn line_bin_range(k: usize, window: Window, bins: usize) -> (r: (usize, usize))
    requires
        bins >= 1,
        k + main_lobe_of(window) <= usize::MAX,
    ensures
        r.0 == line_bins(k as nat, main_lobe_of(window), bins as nat).0,
        r.1 == line_bins(k as nat, main_lobe_of(window), bins as nat).1,
{
    let m = window.main_lobe_bins();
    let lo = if k >= m { k - m } else { 0 };
    let hi = if k + m < bins { k + m } else { bins - 1 };
    (lo, hi)
}

} // verus!
