use anecho::analyzers::ScopeBuffer;
use anecho::analyzers::{
    decimate_window, gate_emission, scope_geometry, AverageCounter, AverageStep, FrameWindow, PeakLevel,
    RangePolicy,
};
use anecho::dsp::Averaging;
use anecho::routing::{fan_out, interleave_capture, select_channels, split_stimulus, spread_to_device};

#[test]
fn scope_geometry_steps() {
    assert_eq!(scope_geometry(480, 48), (480, 10, 48));
    assert_eq!(scope_geometry(480, 0), (480, 1, 480));
    assert_eq!(scope_geometry(1, 0), (2, 1, 2));
    assert_eq!(scope_geometry(100, 30), (100, 4, 25));
    assert_eq!(scope_geometry(10, 1000), (10, 1, 10));
}

#[test]
fn scope_decimation() {
    let buf: Vec<u32> = (0..40).collect(); // 20 frames, 2 channels
    assert_eq!(decimate_window(&buf, 2, 1, 3, 4), vec![2, 10, 18, 3, 11, 19]);
}

#[test]
fn auto_range_policy() {
    assert!(RangePolicy::new(0, 1, 48_000, 14_400).is_none());
    let mut p = RangePolicy::new(9, 4, 48_000, 14_400).unwrap();
    assert_eq!(p.current(), 3);
    assert_eq!(p.decide(0, PeakLevel::Clipping), None, "already on the widest range");
    assert_eq!(p.decide(0, PeakLevel::Low), None);
    assert_eq!(p.decide(40_000, PeakLevel::Low), None);
    assert_eq!(p.decide(48_000, PeakLevel::Low), Some(2));
    p.applied(2, 48_000);
    assert_eq!(p.current(), 2);
    assert_eq!(p.decide(50_000, PeakLevel::Clipping), None, "too soon after a change");
    assert_eq!(p.decide(62_400, PeakLevel::Clipping), Some(3));
    p.refused(62_400);
    assert_eq!(p.current(), 2);
    assert_eq!(p.decide(70_000, PeakLevel::Clipping), None);
    assert_eq!(p.decide(80_000, PeakLevel::Comfortable), None);
}

#[test]
fn frame_windows_and_emission() {
    let mut w = FrameWindow::new(3);
    assert!(!w.advance(100, 0));
    assert_eq!(w.start(), 100);
    assert!(!w.advance(100, 1));
    assert!(w.advance(100, 2));
    assert!(!w.advance(200, 0));
    assert_eq!(w.start(), 200);
    let mut last = None;
    assert!(gate_emission(&mut last, 0, 4800));
    assert!(!gate_emission(&mut last, 4000, 4800));
    assert_eq!(last, Some(0));
    assert!(gate_emission(&mut last, 4800, 4800));
    assert_eq!(last, Some(4800));
}

#[test]
fn averaging_steps() {
    let mut a = AverageCounter::new(Averaging::Linear { n: 2 });
    assert_eq!(a.begin(1), (true, AverageStep::Blend(1)));
    assert_eq!(a.begin(1), (false, AverageStep::Blend(2)));
    assert!(a.is_complete());
    assert_eq!(a.begin(1), (false, AverageStep::Keep));
    let mut e = AverageCounter::new(Averaging::Exponential { n: 4 });
    for k in 1..=4 {
        assert_eq!(e.begin(8), (k == 1, AverageStep::Blend(k)));
    }
    assert_eq!(e.begin(8), (false, AverageStep::Blend(4)));
    assert_eq!(e.begin(16), (true, AverageStep::Blend(1)), "a new length restarts");
    let mut p = AverageCounter::new(Averaging::PeakHold);
    assert_eq!(p.begin(2).1, AverageStep::Replace);
    assert_eq!(p.begin(2).1, AverageStep::Max);
    p.reset();
    assert_eq!(p.count(), 0);
    assert_eq!(p.begin(2).1, AverageStep::Replace);
    let mut o = AverageCounter::new(Averaging::Off);
    assert_eq!(o.begin(2).1, AverageStep::Replace);
    assert!(!o.is_complete());
}

#[test]
fn capture_channel_selection() {
    let data = [0u32, 1, 2, 10, 11, 12, 20, 21];
    assert_eq!(select_channels(&data, 3, &[0, 1, 2]), data.to_vec());
    assert_eq!(select_channels(&data, 3, &[2, 0]), vec![2, 0, 12, 10]);
    assert_eq!(select_channels(&data, 3, &[]), Vec::<u32>::new());
}

#[test]
fn output_spreading() {
    let mut data = [9u32; 7];
    spread_to_device(&mut data, 3, &[2, 0, 2], &[1, 2, 3, 4, 5, 6], 0);
    assert_eq!(data, [2, 0, 3, 5, 0, 6, 0]);
}

#[test]
fn stereo_split_and_merge() {
    let mut l = vec![7u32; 3];
    let mut r = vec![7u32; 3];
    split_stimulus(&[1, 2, 3, 4], &mut l, &mut r, true, false, 0);
    assert_eq!(l, vec![1, 3, 7]);
    assert_eq!(r, vec![0, 0, 7]);
    assert_eq!(interleave_capture(&[1u32, 2, 3], &[10, 20], false, true, 0), vec![0, 10, 0, 20]);
}

#[test]
fn mask_drives_only_selected_channels() {
    let mut buf = vec![0f32; 8];
    fan_out(&mut buf, 2, &[0.5, 0.6, 0.7, 0.8], &[false, true], 0.0);
    assert!(buf.iter().step_by(2).all(|v| *v == 0.0));
    assert!(buf.iter().skip(1).step_by(2).all(|v| v.abs() > 0.4));
    let mut all = vec![0u8; 4];
    fan_out(&mut all, 2, &[3], &[], 0);
    assert_eq!(all, vec![3, 3, 0, 0]);
}

#[test]
fn scope_buffer_cuts_readings_window_by_window() {
    // 4-frame window, every other frame shown, 2 channels.
    let mut b: ScopeBuffer<u32> = ScopeBuffer::new(4, 2, 2);
    assert_eq!((b.window(), b.step(), b.points()), (4, 2, 2));
    let block: Vec<u32> = (0..10).collect(); // frames 100..105
    b.extend(100, &block);
    assert!(!b.ready());
    let block: Vec<u32> = (10..20).collect(); // frames 105..110
    b.extend(105, &block);
    assert_eq!(b.first_frame(), 100);
    assert!(b.ready());
    let r = b.take(1);
    assert_eq!(r.first_frame, 101);
    // Frames 1 and 3 of channel 0, then of channel 1.
    assert_eq!(r.values, vec![2, 6, 3, 7]);
    assert_eq!(b.first_frame(), 104);
    assert_eq!(b.samples(), &(8..20).collect::<Vec<u32>>()[..]);
    assert!(!b.ready());
}
