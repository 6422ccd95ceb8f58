use anecho::engine::measure_channels;
use anecho::connection::ConnectionBook;
use anecho::engine::StreamFrames;
use anecho::engine::{CaptureProgress, CaptureStep};
use anecho::engine::{channel_samples, effective_max_harmonic};
use anecho::dsp::{Averaging, Window};
use anecho::engine::{
    error_code, error_env, interleaved_to_channel_major, measure_params, overrun_event, raw_frame,
    EngineError, ErrorCode, Event, Sessions, StreamKind, StreamPlan,
};
use anecho::error::DeviceError;
use anecho::types::InputBlock;

#[test]
fn sessions_streams_lifecycle() {
    let mut s = Sessions::new();
    let a = s.open();
    let b = s.open();
    assert_eq!((a, b), (1, 2));
    let p = s.plan_stream(a, Some(2), StreamKind::Levels, 0, 0).unwrap();
    assert_eq!(
        p,
        StreamPlan { stream_id: 1, block_frames: 4096, channels: 2, values_per_channel: 2, replaces: None }
    );
    s.attach(a, p.stream_id);
    assert!(matches!(s.claim_measure(a), Err(EngineError::StreamRunning(1))));
    assert!(matches!(s.detach(9), Err(EngineError::NoSuchStream(9))));
    assert_eq!(s.detach(p.stream_id).unwrap(), a);
    assert!(s.claim_measure(a).is_ok());
    assert!(matches!(s.claim_measure(a), Err(EngineError::StreamRunning(1))));
    s.end_measure(a);
    let mut ids = s.session_ids();
    ids.sort();
    assert_eq!(ids, vec![1, 2]);
    assert_eq!(s.close(a).unwrap(), None);
    assert!(matches!(s.close(a), Err(EngineError::NoSuchSession(1))));
    assert!(matches!(s.plan_stream(a, Some(2), StreamKind::Levels, 0, 0), Err(EngineError::NoSuchSession(1))));
    assert_eq!(s.session_ids(), vec![2]);
    assert_eq!(s.open(), 3, "session ids are never reused");
}

#[test]
fn close_returns_the_running_stream() {
    let mut s = Sessions::new();
    let a = s.open();
    let p = s.plan_stream(a, Some(1), StreamKind::RawInput, 512, 0).unwrap();
    assert_eq!(p.values_per_channel, 512);
    s.attach(a, p.stream_id);
    assert_eq!(s.close(a).unwrap(), Some(p.stream_id));
    assert!(matches!(s.detach(p.stream_id), Err(EngineError::NoSuchStream(_))));
}

#[test]
fn stream_plan_errors() {
    let mut s = Sessions::new();
    let a = s.open();
    assert!(matches!(
        s.plan_stream(a, None, StreamKind::Levels, 0, 0),
        Err(EngineError::Device(DeviceError::NotConfigured))
    ));
    match s.plan_stream(a, Some(0), StreamKind::Levels, 0, 0) {
        Err(EngineError::BadRequest(m)) => assert_eq!(m, "device has no input channel"),
        other => panic!("{other:?}"),
    }
    match s.plan_stream(a, Some(2), StreamKind::RawInput, 70_000, 0) {
        Err(EngineError::BadRequest(m)) => assert_eq!(m, "block_frames > 65535"),
        other => panic!("{other:?}"),
    }
    // The refused raw stream still consumed stream id 1.
    assert_eq!(s.plan_stream(a, Some(2), StreamKind::RawInput, 0, 0).unwrap().stream_id, 2);
}

#[test]
fn error_codes() {
    assert_eq!(error_code(&EngineError::NoSuchSession(3)), ErrorCode::NotFound);
    assert_eq!(error_code(&EngineError::StreamRunning(3)), ErrorCode::Busy);
    assert_eq!(error_code(&EngineError::BadRequest("x".into())), ErrorCode::BadRequest);
    assert_eq!(error_code(&EngineError::Device(DeviceError::NotConfigured)), ErrorCode::Unsupported);
    assert_eq!(error_code(&EngineError::Device(DeviceError::Busy)), ErrorCode::Busy);
    assert_eq!(error_code(&EngineError::Device(DeviceError::Disconnected)), ErrorCode::Device);
    let e = error_env(5, ErrorCode::BadRequest, "empty envelope");
    assert_eq!(e.request_id, 5);
    let p = e.payload.unwrap();
    assert_eq!(p.code, ErrorCode::BadRequest);
    assert_eq!(p.message, "empty envelope");
}

#[test]
fn raw_frames_are_channel_major() {
    let block = InputBlock {
        seq: 4,
        first_frame: 12,
        channels: 2,
        frames: 3,
        samples: vec![1u32, 10, 2, 20, 3, 30],
        dropped_before: 0,
    };
    let f = raw_frame(&block, 7, 9);
    assert_eq!(f.values, vec![1, 2, 3, 10, 20, 30]);
    assert_eq!((f.stream_id, f.seq, f.first_frame, f.channels, f.values_per_channel), (7, 9, 12, 2, 3));
    assert_eq!(interleaved_to_channel_major(&[1u8, 2, 3], 2, 2, 0), vec![1, 0, 2, 0]);
    assert_eq!(overrun_event(&block, 7), None);
    let dropped = InputBlock { dropped_before: 3, ..block };
    assert_eq!(overrun_event(&dropped, 7), Some(Event::StreamOverrun { stream_id: 7, dropped_blocks: 3 }));
}

#[test]
fn measure_parameters() {
    assert_eq!(measure_params(0, 0).unwrap(), (65_536, 4));
    assert_eq!(measure_params(1024, 2).unwrap(), (1024, 2));
    for bad in [100usize, 128, 3000] {
        match measure_params(bad, 1) {
            Err(EngineError::BadRequest(m)) => assert_eq!(m, "fft_length must be a power of two >= 256"),
            other => panic!("{other:?}"),
        }
    }
}

#[test]
fn window_main_lobes() {
    assert_eq!(Window::Rectangular.main_lobe_bins(), 1);
    assert_eq!(Window::Hann.main_lobe_bins(), 2);
    assert_eq!(Window::BlackmanHarris4.main_lobe_bins(), 4);
    assert_eq!(Window::BlackmanHarris7.main_lobe_bins(), 7);
    assert_eq!(Window::FlatTop.main_lobe_bins(), 5);
    assert_eq!(anecho::dsp::line_bin_range(3, Window::Hann, 10), (1, 5));
    assert_eq!(anecho::dsp::line_bin_range(1, Window::FlatTop, 4), (0, 3));
    assert_ne!(Averaging::Off, Averaging::PeakHold);
}

#[test]
fn capture_discards_the_first_block_then_averages() {
    let mut p = CaptureProgress::new(3);
    assert_eq!(p.on_block(), CaptureStep::Discard);
    assert_eq!(p.on_block(), CaptureStep::Analyze);
    assert_eq!(p.on_block(), CaptureStep::Analyze);
    assert_eq!(p.on_block(), CaptureStep::AnalyzeLast);
    assert_eq!(p.collected(), 3);
    let mut q = CaptureProgress::new(1);
    assert_eq!(q.on_block(), CaptureStep::Discard);
    assert_eq!(q.on_block(), CaptureStep::AnalyzeLast);
}

#[test]
fn channel_samples_and_harmonics() {
    let s: Vec<u32> = (0..7).collect();
    assert_eq!(channel_samples(&s, 2, 0), vec![0, 2, 4, 6]);
    assert_eq!(channel_samples(&s, 2, 1), vec![1, 3, 5]);
    assert_eq!(channel_samples(&s, 3, 7), Vec::<u32>::new());
    assert_eq!(effective_max_harmonic(0), 9);
    assert_eq!(effective_max_harmonic(5), 5);
}

#[test]
fn a_streaming_session_switches_to_the_new_stream() {
    let mut s = Sessions::new();
    let a = s.open();
    let levels = s.plan_stream(a, Some(2), StreamKind::Levels, 0, 0).unwrap();
    s.attach(a, levels.stream_id);
    let rta = s.plan_stream(a, Some(2), StreamKind::Rta, 4096, 1000).unwrap();
    assert_eq!(
        rta,
        StreamPlan { stream_id: 2, block_frames: 4096, channels: 2, values_per_channel: 1000, replaces: Some(1) }
    );
    // The old stream is detached; the new one is recorded once it runs.
    assert!(matches!(s.detach(levels.stream_id), Err(EngineError::NoSuchStream(1))));
    s.attach(a, rta.stream_id);
    let scope = s.plan_stream(a, Some(2), StreamKind::Scope, 0, 48).unwrap();
    assert_eq!((scope.stream_id, scope.values_per_channel, scope.replaces), (3, 48, Some(2)));
    s.attach(a, scope.stream_id);
    // A refused switch leaves the running stream in place.
    assert!(matches!(s.plan_stream(a, Some(2), StreamKind::RawInput, 70_000, 0), Err(EngineError::BadRequest(_))));
    assert_eq!(s.detach(scope.stream_id).unwrap(), a);
}

#[test]
fn a_measurement_always_releases_its_claim() {
    let mut s = Sessions::new();
    let a = s.open();
    s.claim_measure(a).unwrap();
    let r: Result<u32, EngineError> = s.finish_measure(a, Err(EngineError::Device(DeviceError::NotConfigured)));
    assert!(matches!(r, Err(EngineError::Device(DeviceError::NotConfigured))));
    s.claim_measure(a).unwrap();
    assert_eq!(s.finish_measure(a, Ok(7u32)).unwrap(), 7);
    assert!(s.claim_measure(a).is_ok(), "a second measurement on the session is accepted");
}

#[test]
fn stream_frames_are_numbered_in_order() {
    let mut f = StreamFrames::new(5);
    let block = InputBlock { seq: 0, first_frame: 100, channels: 2, frames: 2, samples: vec![1u32, 2, 3, 4], dropped_before: 0 };
    let r = f.raw(&block);
    assert_eq!((r.stream_id, r.seq, r.first_frame, r.values_per_channel), (5, 0, 100, 2));
    assert_eq!(r.values, vec![1, 3, 2, 4]);
    let l = f.reading(2400, 2, 2, vec![9, 9, 9, 9]);
    assert_eq!((l.seq, l.first_frame, l.channels), (1, 2400, 2));
    assert_eq!(f.sent_count(), 2);
}

#[test]
fn connection_owns_its_streams_and_sessions() {
    let mut c = ConnectionBook::new();
    c.session_opened(1);
    c.session_opened(2);
    c.session_opened(1);
    c.stream_started(10);
    assert!(c.forward_frame(10));
    assert!(!c.forward_frame(11));
    assert!(c.on_event(Event::StreamOverrun { stream_id: 10, dropped_blocks: 3 }));
    assert!(!c.on_event(Event::StreamOverrun { stream_id: 11, dropped_blocks: 3 }));
    assert!(!c.on_event(Event::StreamEnded { stream_id: 10 }));
    assert!(!c.forward_frame(10));
    assert!(c.on_event(Event::RangeChanged { session_id: 2, input_range: Some(1), output_range: None }));
    assert!(!c.on_event(Event::RangeChanged { session_id: 3, input_range: Some(1), output_range: None }));
    c.session_closed(2);
    assert!(!c.on_event(Event::RangeChanged { session_id: 2, input_range: Some(0), output_range: None }));
    assert_eq!(c.on_close(), vec![1]);
    c.stream_started(12);
    c.stream_stopped(12);
    assert!(!c.forward_frame(12));
}

#[test]
fn a_measurement_needs_an_input_channel() {
    assert!(matches!(measure_channels(0), Err(EngineError::BadRequest(m)) if m == "device has no input channel"));
    assert_eq!(measure_channels(2).unwrap(), 2);
}
