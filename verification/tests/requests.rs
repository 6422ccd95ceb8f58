use anecho::dsp::Averaging;
use anecho::engine::EngineError;
use anecho::requests::{
    device_channels, generator_level, noise_signal, output_channels, rta_averaging, AveragingMode, LevelRequest,
    NoiseKind, NoiseSignal,
};

#[test]
fn channel_lists_narrow_to_u16() {
    assert_eq!(device_channels(&[0, 1, 65535]).unwrap(), vec![0u16, 1, 65535]);
    assert!(matches!(device_channels(&[0, 70000, 80000]), Err(EngineError::BadRequest(m)) if m == "channel 70000"));
    assert_eq!(output_channels(&[]).unwrap(), Vec::<u16>::new());
    assert!(matches!(output_channels(&[65536]), Err(EngineError::BadRequest(m)) if m == "output channel out of range"));
}

#[test]
fn noise_requests() {
    assert_eq!(noise_signal(NoiseKind::White, 0, 0).unwrap(), NoiseSignal::White { seed: 1 });
    assert_eq!(noise_signal(NoiseKind::Pink, 0, 42).unwrap(), NoiseSignal::Pink { seed: 42 });
    assert_eq!(
        noise_signal(NoiseKind::White, 16_384, 7).unwrap(),
        NoiseSignal::Periodic { seed: 7, period_frames: 16_384 }
    );
    assert!(matches!(
        noise_signal(NoiseKind::Pink, 1024, 7),
        Err(EngineError::BadRequest(m)) if m == "periodic pink noise is not supported yet"
    ));
    assert!(matches!(
        noise_signal(NoiseKind::Unspecified, 0, 7),
        Err(EngineError::BadRequest(m)) if m == "noise kind is required"
    ));
}

#[test]
fn rta_averaging_defaults() {
    assert_eq!(rta_averaging(None), Averaging::Off);
    assert_eq!(rta_averaging(Some((AveragingMode::Unspecified, 4))), Averaging::Off);
    assert_eq!(rta_averaging(Some((AveragingMode::Exponential, 0))), Averaging::Exponential { n: 8 });
    assert_eq!(rta_averaging(Some((AveragingMode::Linear, 3))), Averaging::Linear { n: 3 });
    assert_eq!(rta_averaging(Some((AveragingMode::PeakHold, 3))), Averaging::PeakHold);
}

#[test]
fn generator_levels_fall_back_to_the_sine_amplitude() {
    assert_eq!(generator_level(Some(LevelRequest::DbvRms(-10.0)), Some(-3.0)).unwrap(), LevelRequest::DbvRms(-10.0));
    assert_eq!(generator_level(None, Some(-3.0)).unwrap(), LevelRequest::PeakDbfs(-3.0));
    assert!(matches!(
        generator_level::<f64>(None, None),
        Err(EngineError::BadRequest(m)) if m == "generator level is required for this signal"
    ));
}
