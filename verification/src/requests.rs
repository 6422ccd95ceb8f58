//! The rules by which API requests become engine requests: channel lists, noise
//! generators, RTA averaging and generator levels.

use vstd::prelude::*;
use vstd::string::StringExecFns;
use crate::dsp::Averaging;
use crate::engine::EngineError;
use crate::text::{decimal, with_number};

verus! {

/// Index of the first value of `v` that does not fit a `u16` (the length when all do).
pub open spec fn first_wide(v: Seq<u32>, i: int) -> int
    decreases v.len() - i,
{
    if 0 <= i < v.len() && v[i] <= u16::MAX {
        first_wide(v, i + 1)
    } else {
        i
    }
}

proof fn lemma_first_wide(v: Seq<u32>, i: int)
    requires
        0 <= i <= v.len(),
    ensures
        i <= first_wide(v, i) <= v.len(),
        forall|j: int| i <= j < first_wide(v, i) ==> #[trigger] v[j] <= u16::MAX,
        first_wide(v, i) < v.len() ==> v[first_wide(v, i)] > u16::MAX,
    decreases v.len() - i,
{
    if i < v.len() && v[i] <= u16::MAX {
        lemma_first_wide(v, i + 1);
    }
}

/// The channel indices of a list as `u16`, or the first that does not fit.
fn narrow(v: &[u32]) -> (r: Result<Vec<u16>, u32>)
    ensures
        match r {
            Ok(w) => first_wide(v@, 0) == v@.len() && w@.len() == v@.len() && forall|i: int|
                0 <= i < v@.len() ==> #[trigger] w@[i] == v@[i],
            Err(x) => first_wide(v@, 0) < v@.len() && x == v@[first_wide(v@, 0)],
        },
{
    proof {
        lemma_first_wide(v@, 0);
    }
    let n = v.len();
    let mut w: Vec<u16> = Vec::new();
    let mut i: usize = 0;
    while i < n
        invariant
            n == v@.len(),
            i <= n,
            first_wide(v@, i as int) == first_wide(v@, 0),
            w@.len() == i,
            forall|j: int| 0 <= j < i ==> #[trigger] w@[j] == v@[j],
        decreases n - i,
    {
        if v[i] > 0xffff {
            return Err(v[i]);
        }
        w.push(v[i] as u16);
        i = i + 1;
    }
    Ok(w)
}

/// A device configuration's channel list: each index must fit a `u16`; the first that
/// does not is refused as `channel <x>`.
pub fn device_channels(v: &[u32]) -> (r: Result<Vec<u16>, EngineError>)
    ensures
        first_wide(v@, 0) == v@.len() ==> (r matches Ok(w) && w@.len() == v@.len() && forall|i: int|
            0 <= i < v@.len() ==> #[trigger] w@[i] == v@[i]),
        first_wide(v@, 0) < v@.len() ==> (r matches Err(EngineError::BadRequest(m)) && m@ == "channel "@
            + decimal(v@[first_wide(v@, 0)] as nat)),
{
    proof {
        lemma_first_wide(v@, 0);
    }
    match narrow(v) {
        Ok(w) => Ok(w),
        Err(x) => {
            let m = with_number("channel ", x as u64, "");
            proof {
                reveal_strlit("");
                assert(m@ =~= "channel "@ + decimal(x as nat));
            }
            Err(EngineError::BadRequest(m))
        },
    }
}

/// A generator's output channels: each must fit a `u16`.
pub fn output_channels(v: &[u32]) -> (r: Result<Vec<u16>, EngineError>)
    ensures
        first_wide(v@, 0) == v@.len() ==> (r matches Ok(w) && w@.len() == v@.len() && forall|i: int|
            0 <= i < v@.len() ==> #[trigger] w@[i] == v@[i]),
        first_wide(v@, 0) < v@.len() ==> (r matches Err(EngineError::BadRequest(m)) && m@
            == "output channel out of range"@),
{
    proof {
        lemma_first_wide(v@, 0);
    }
    match narrow(v) {
        Ok(w) => Ok(w),
        Err(_) => Err(EngineError::BadRequest(String::from_str("output channel out of range"))),
    }
}

/// The noise colour a request names.
#[derive(Debug, Clone, Copy, PartialEq, Eq, Structural)]
pub enum NoiseKind {
    Unspecified,
    White,
    Pink,
}

/// The noise generator a request resolves to.
#[derive(Debug, Clone, Copy, PartialEq, Eq, Structural)]
pub enum NoiseSignal {
    White { seed: u64 },
    Pink { seed: u64 },
    /// White noise repeating every `period_frames` frames.
    Periodic { seed: u64, period_frames: usize },
}

/// Seed 0 means seed 1.
pub open spec fn noise_seed(seed: u64) -> u64 {
    if seed == 0 { 1 } else { seed }
}

/// A noise request: a period makes white noise periodic; periodic pink noise and a missing
/// colour are refused.
pub fn noise_signal(kind: NoiseKind, period_frames: u32, seed: u64) -> (r: Result<NoiseSignal, EngineError>)
    ensures
        kind == NoiseKind::White && period_frames == 0 ==> r == Ok::<NoiseSignal, EngineError>(
            NoiseSignal::White { seed: noise_seed(seed) },
        ),
        kind == NoiseKind::Pink && period_frames == 0 ==> r == Ok::<NoiseSignal, EngineError>(
            NoiseSignal::Pink { seed: noise_seed(seed) },
        ),
        kind == NoiseKind::White && period_frames > 0 ==> r == Ok::<NoiseSignal, EngineError>(
            NoiseSignal::Periodic { seed: noise_seed(seed), period_frames: period_frames as usize },
        ),
        kind == NoiseKind::Pink && period_frames > 0 ==> (r matches Err(EngineError::BadRequest(m)) && m@
            == "periodic pink noise is not supported yet"@),
        kind == NoiseKind::Unspecified ==> (r matches Err(EngineError::BadRequest(m)) && m@
            == "noise kind is required"@),
{
    let seed = if seed == 0 { 1 } else { seed };
    match kind {
        NoiseKind::White => if period_frames == 0 {
            Ok(NoiseSignal::White { seed })
        } else {
            Ok(NoiseSignal::Periodic { seed, period_frames: period_frames as usize })
        },
        NoiseKind::Pink => if period_frames == 0 {
            Ok(NoiseSignal::Pink { seed })
        } else {
            Err(EngineError::BadRequest(String::from_str("periodic pink noise is not supported yet")))
        },
        NoiseKind::Unspecified => Err(EngineError::BadRequest(String::from_str("noise kind is required"))),
    }
}

/// The averaging mode an RTA request names.
#[derive(Debug, Clone, Copy, PartialEq, Eq, Structural)]
pub enum AveragingMode {
    Unspecified,
    Exponential,
    Linear,
    PeakHold,
}

pub open spec fn averaging_spec(requested: Option<(AveragingMode, u32)>) -> Averaging {
    match requested {
        None => Averaging::Off,
        Some((mode, count)) => {
            let n: u32 = if count == 0 { 8 } else { count };
            match mode {
                AveragingMode::Unspecified => Averaging::Off,
                AveragingMode::Exponential => Averaging::Exponential { n },
                AveragingMode::Linear => Averaging::Linear { n },
                AveragingMode::PeakHold => Averaging::PeakHold,
            }
        },
    }
}

/// An RTA request's averaging: none unless asked for; a count of 0 means 8.
pub fn rta_averaging(requested: Option<(AveragingMode, u32)>) -> (r: Averaging)
    ensures
        r == averaging_spec(requested),
{
    match requested {
        None => Averaging::Off,
        Some((mode, count)) => {
            let n: u32 = if count == 0 { 8 } else { count };
            match mode {
                AveragingMode::Unspecified => Averaging::Off,
                AveragingMode::Exponential => Averaging::Exponential { n },
                AveragingMode::Linear => Averaging::Linear { n },
                AveragingMode::PeakHold => Averaging::PeakHold,
            }
        },
    }
}

/// A generator level, in whatever type carries decibels.
#[derive(Debug, Clone, Copy, PartialEq)]
pub enum LevelRequest<T> {
    /// Peak level in dBFS.
    PeakDbfs(T),
    /// RMS level in dBV.
    DbvRms(T),
}

/// A generator's level: the level given wins; a sine without one keeps its amplitude (in
/// peak dBFS); any other signal without one is refused.
pub fn generator_level<T>(level: Option<LevelRequest<T>>, sine_dbfs: Option<T>) -> (r: Result<
    LevelRequest<T>,
    EngineError,
>)
    ensures
        level is Some ==> r == Ok::<LevelRequest<T>, EngineError>(level->0),
        level is None && sine_dbfs is Some ==> r == Ok::<LevelRequest<T>, EngineError>(
            LevelRequest::PeakDbfs(sine_dbfs->0),
        ),
        level is None && sine_dbfs is None ==> (r matches Err(EngineError::BadRequest(m)) && m@
            == "generator level is required for this signal"@),
{
    match level {
        Some(l) => Ok(l),
        None => match sine_dbfs {
            Some(db) => Ok(LevelRequest::PeakDbfs(db)),
            None => Err(EngineError::BadRequest(String::from_str("generator level is required for this signal"))),
        },
    }
}

} // verus!
