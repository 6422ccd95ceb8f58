use anecho::loopback::{worker_step, xorshift_next, WorkerStep};
use anecho::blocker::SendOutcome;
use anecho::loopback::DelayLine;
use anecho::blocker::Blocker;
use anecho::device::{
    candidate_rate_list, cfg_block_frames, check_loopback_id, expand, id_display, loopback_id, probe,
    qa40x_check_channels, qa40x_unit, range_dbv, select_backend, usable_rates, CpalBackend, DeviceState,
    RangeChoice, RateRange,
};
use anecho::error::DeviceError;
use anecho::rng::Rng;
use anecho::text::decimal_string;
use anecho::types::{BackendKind, DeviceConfig, DeviceId, StreamConfig, StreamHandle};
use tokio::sync::mpsc;

fn message(e: DeviceError) -> String {
    match e {
        DeviceError::UnsupportedConfig(m) | DeviceError::NotFound(m) | DeviceError::Backend(m) => m,
        other => panic!("no message in {other:?}"),
    }
}

#[test]
fn regroups_into_fixed_blocks() {
    let (tx, mut rx) = mpsc::channel(8);
    let mut b = Blocker::new(2, 4, tx);
    let data: Vec<f32> = (0..20).map(|i| i as f32).collect(); // 10 frames stereo
    b.push(&data[..6]);
    b.push(&data[6..]);
    let b0 = rx.try_recv().unwrap();
    let b1 = rx.try_recv().unwrap();
    assert_eq!(b0.seq, 0);
    assert_eq!(b0.first_frame, 0);
    assert_eq!(&b0.samples[..], &data[..8]);
    assert_eq!(b1.first_frame, 4);
    assert_eq!(&b1.samples[..], &data[8..16]);
    assert!(
        rx.try_recv().is_err(),
        "2 leftover frames must stay buffered"
    );
}

#[test]
fn counts_drops_when_channel_full() {
    let (tx, mut rx) = mpsc::channel(1);
    let mut b = Blocker::new(1, 2, tx);
    b.push(&[0.0f32; 6]); // 3 blocks, capacity 1 -> 2 dropped
    let first = rx.try_recv().unwrap();
    assert_eq!(first.dropped_before, 0);
    b.push(&[0.0f32; 2]);
    let next = rx.try_recv().unwrap();
    assert_eq!(next.seq, 3);
    assert_eq!(next.dropped_before, 2);
}

#[test]
fn blocker_zero_block_frames_means_one() {
    let (tx, mut rx) = mpsc::channel(8);
    let mut b = Blocker::new(1, 0, tx);
    b.push(&[1u8, 2, 3]);
    for (i, v) in [1u8, 2, 3].iter().enumerate() {
        let blk = rx.try_recv().unwrap();
        assert_eq!(blk.seq, i as u64);
        assert_eq!(blk.first_frame, i as u64);
        assert_eq!(blk.frames, 1);
        assert_eq!(blk.samples, vec![*v]);
    }
    assert!(!b.is_closed());
}

#[test]
fn blocker_closed_receiver_keeps_counting() {
    let (tx, rx) = mpsc::channel::<anecho::types::InputBlock<u8>>(1);
    drop(rx);
    let mut b = Blocker::new(1, 1, tx);
    assert!(b.is_closed());
    b.push(&[1u8, 2]);
    let tx = b.into_sender();
    assert!(tx.is_closed());
}

#[test]
fn blocking_blocker_hands_blocks_to_its_caller() {
    let (tx, mut rx) = mpsc::channel::<anecho::types::InputBlock<u8>>(1);
    let mut b = Blocker::new(1, 2, tx).blocking();
    let data = [1u8, 2, 3, 4, 5];
    let (pos, first) = b.next_block(&data, 0);
    assert_eq!(pos, 2);
    let first = first.unwrap();
    assert_eq!((first.seq, first.first_frame, first.samples.clone()), (0, 0, vec![1, 2]));
    b.channel().try_send(first).unwrap();
    b.record_outcome(SendOutcome::Sent);
    let (pos, second) = b.next_block(&data, pos);
    assert_eq!(pos, 4);
    // The channel is full: the caller reports the block as refused.
    assert!(b.channel().try_send(second.unwrap()).is_err());
    b.record_outcome(SendOutcome::Full);
    let (pos, none) = b.next_block(&data, pos);
    assert_eq!((pos, none.is_none()), (5, true));
    assert_eq!(rx.try_recv().unwrap().seq, 0);
    let (_, third) = b.next_block(&[6u8], 0);
    let third = third.unwrap();
    assert_eq!((third.seq, third.samples.clone(), third.dropped_before), (2, vec![5, 6], 1));
}

#[test]
fn loopback_noise_steps_like_xorshift64() {
    let mut x = 0x9E37_79B9_7F4A_7C15u64;
    let mut expected = x;
    for _ in 0..3 {
        expected ^= expected << 13;
        expected ^= expected >> 7;
        expected ^= expected << 17;
        x = xorshift_next(x);
        assert_eq!(x, expected);
    }
    assert_ne!(x, 0x9E37_79B9_7F4A_7C15u64);
}

#[test]
fn start_before_configure_fails() {
    let mut st = DeviceState::new();
    assert!(matches!(st.claim_stream(), Err(DeviceError::NotConfigured)));
}

#[test]
fn loopback_configure_start_stop() {
    let mut st = DeviceState::new();
    let rates = [44_100u32, 48_000, 96_000, 192_000];
    let err = st
        .configure_loopback(DeviceConfig::with_sample_rate(22_050), &rates, 2)
        .unwrap_err();
    assert_eq!(message(err), "sample rate 22050 Hz");
    let applied = st
        .configure_loopback(DeviceConfig::with_sample_rate(48_000), &rates, 2)
        .unwrap();
    assert_eq!(applied.input_channels, vec![0, 1]);
    assert_eq!(applied.output_channels, vec![0, 1]);
    assert_eq!(applied.input_range, None);
    let (h, a) = st.claim_stream().unwrap();
    assert_eq!(h, StreamHandle(0));
    assert_eq!(a.sample_rate, 48_000);
    st.mark_running(h);
    assert!(matches!(st.claim_stream(), Err(DeviceError::Busy)));
    assert!(matches!(
        st.configure_loopback(DeviceConfig::with_sample_rate(48_000), &rates, 2),
        Err(DeviceError::Busy)
    ));
    assert!(st.check_running(h).is_ok());
    assert!(matches!(st.release(StreamHandle(9)), Err(DeviceError::NoSuchStream)));
    assert_eq!(st.release(h).unwrap(), true);
    assert_eq!(st.release(h).unwrap(), false, "stop is idempotent");
    assert!(matches!(st.check_running(h), Err(DeviceError::NoSuchStream)));
    let (h2, _) = st.claim_stream().unwrap();
    assert_eq!(h2, StreamHandle(1));
}

#[test]
fn sound_card_configure_rules() {
    let mut st = DeviceState::new();
    let rates = [48_000u32];
    let mut cfg = DeviceConfig::with_sample_rate(48_000);
    cfg.input_range = Some(0);
    assert_eq!(
        message(st.configure_sound_card(cfg, &rates, 2, 2).unwrap_err()),
        "sound cards have no selectable ranges"
    );
    let mut cfg = DeviceConfig::with_sample_rate(48_000);
    cfg.input_channels = vec![1, 5, 7];
    assert_eq!(
        message(st.configure_sound_card(cfg, &rates, 2, 2).unwrap_err()),
        "channel 5 out of range (device has 2)"
    );
    let mut cfg = DeviceConfig::with_sample_rate(48_000);
    cfg.output_channels = vec![1];
    let a = st.configure_sound_card(cfg, &rates, 4, 2).unwrap();
    assert_eq!(a.input_channels, vec![0, 1, 2, 3]);
    assert_eq!(a.output_channels, vec![1]);
}

#[test]
fn expand_channels() {
    assert_eq!(expand(vec![], 3).unwrap(), vec![0, 1, 2]);
    assert_eq!(expand(vec![2, 0], 3).unwrap(), vec![2, 0]);
    assert_eq!(
        message(expand(vec![0, 3, 4], 3).unwrap_err()),
        "channel 3 out of range (device has 3)"
    );
    assert_eq!(expand(vec![], 0).unwrap(), Vec::<u16>::new());
}

#[test]
fn probe_collects_sorted_rates_and_channels() {
    let configs = vec![
        RateRange { min_sample_rate: 88_200, max_sample_rate: 192_000, channels: 2 },
        RateRange { min_sample_rate: 44_100, max_sample_rate: 48_000, channels: 8 },
    ];
    let (rates, ch) = probe(Some(configs));
    assert_eq!(rates, vec![44_100, 48_000, 88_200, 96_000, 176_400, 192_000]);
    assert_eq!(ch, 8);
    assert_eq!(probe(None), (vec![], 0));
    assert_eq!(candidate_rate_list().len(), 7);
}

#[test]
fn usable_rates_need_both_directions() {
    let r = usable_rates(&[44_100, 48_000, 96_000], 2, &[48_000, 96_000, 192_000], 2);
    assert_eq!(r, vec![48_000, 96_000]);
    let r = usable_rates(&[], 0, &[192_000], 2);
    assert_eq!(r, vec![192_000]);
}

#[test]
fn block_frames_never_zero() {
    let mut c = StreamConfig::default();
    assert_eq!(c.block_frames, 4096);
    assert!(c.capture && !c.generate);
    c.block_frames = 0;
    assert_eq!(cfg_block_frames(&c), 1);
}

#[test]
fn device_ids_name_their_backend() {
    let id = DeviceId::new(BackendKind::Cpal, "coreaudio/MacBook Pro Microphone");
    assert_eq!(id.as_str(), "cpal/coreaudio/MacBook Pro Microphone");
    assert_eq!(id.backend(), Some(BackendKind::Cpal));
    assert_eq!(DeviceId("qa40x/QA403-1234".into()).backend(), Some(BackendKind::Qa40x));
    assert_eq!(DeviceId("virtual".into()).backend(), Some(BackendKind::Virtual));
    assert_eq!(DeviceId("usb/x".into()).backend(), None);
    assert_eq!(BackendKind::Virtual.prefix(), "virtual");
    assert_eq!(BackendKind::from_prefix("qa40x"), Some(BackendKind::Qa40x));
    assert_eq!(BackendKind::from_prefix("QA40X"), None);
}

#[test]
fn registry_picks_the_backend_of_the_id() {
    let kinds = [BackendKind::Virtual, BackendKind::Cpal, BackendKind::Cpal];
    assert_eq!(select_backend(&kinds, &DeviceId("cpal/alsa/x".into())).unwrap(), 1);
    assert_eq!(
        message(select_backend(&kinds, &DeviceId("qa40x/y".into())).unwrap_err()),
        "qa40x/y"
    );
    assert_eq!(
        message(select_backend(&kinds, &DeviceId("nope".into())).unwrap_err()),
        "nope"
    );
}

#[test]
fn loopback_id_is_checked() {
    assert_eq!(loopback_id().as_str(), "virtual/loopback");
    assert!(check_loopback_id(&DeviceId("virtual/loopback".into())).is_ok());
    assert_eq!(
        message(check_loopback_id(&DeviceId("virtual/other".into())).unwrap_err()),
        "virtual/other"
    );
    assert_eq!(id_display(&CpalBackend::new()), "cpal device");
}

#[test]
fn qa40x_range_selection() {
    let st = DeviceState::new();
    let cfg = DeviceConfig::with_sample_rate(48_000);
    let ins = [0, 6, 12, 18, 24, 30, 36, 42];
    let outs = [-12, -2, 8, 18];
    let c = st.qa40x_select_ranges(&cfg, &[48_000, 96_000], true, &ins, &outs).unwrap();
    assert_eq!(c, RangeChoice { input_index: 7, input_dbv: 42, output_index: 0, output_dbv: -12 });
    assert_eq!(
        message(st.qa40x_select_ranges(&cfg, &[48_000], false, &ins, &outs).unwrap_err()),
        "sample rate 48000 Hz"
    );
    let mut cfg2 = DeviceConfig::with_sample_rate(48_000);
    cfg2.output_range = Some(4);
    assert_eq!(
        message(st.qa40x_select_ranges(&cfg2, &[48_000], true, &ins, &outs).unwrap_err()),
        "range index 4"
    );
    assert_eq!(range_dbv(&outs, None, 2).unwrap(), 8);
}

#[test]
fn qa40x_channels_and_ids() {
    let mut cfg = DeviceConfig::with_sample_rate(48_000);
    assert!(qa40x_check_channels(&cfg).is_ok());
    cfg.output_channels = vec![1, 3];
    assert_eq!(message(qa40x_check_channels(&cfg).unwrap_err()), "channel 3");
    let mut st = DeviceState::new();
    let a = st.qa40x_apply(DeviceConfig::with_sample_rate(48_000), 7, 0);
    assert_eq!(a.input_channels, vec![0, 1]);
    assert_eq!(a.input_range, Some(7));
    assert_eq!(
        qa40x_unit(&DeviceId("qa40x/usb/QA403-1".into())).as_deref(),
        Some("usb/QA403-1")
    );
    assert_eq!(qa40x_unit(&DeviceId("cpal/x".into())), None);
    assert_eq!(qa40x_unit(&DeviceId("qa40".into())), None);
}

#[test]
fn rng_matches_reference_sequence() {
    let mut r = Rng::new(1);
    assert_eq!(r.next_u64(), 12966619160104079557);
    assert_eq!(r.next_u64(), 9600361134598540522);
    assert_eq!(r.next_u64(), 10590380919521690900);
    let mut r = Rng::new(0);
    assert_eq!(r.next_u64(), 11091344671253066420);
    assert_eq!(r.next_u64(), 13793997310169335082);
}

#[test]
fn decimal_rendering() {
    assert_eq!(decimal_string(0), "0");
    assert_eq!(decimal_string(9), "9");
    assert_eq!(decimal_string(10), "10");
    assert_eq!(decimal_string(18446744073709551615), "18446744073709551615");
}

#[test]
fn delay_line_returns_what_was_generated_after_the_delay() {
    // Delay 3 samples, blocks of 2.
    let mut d: DelayLine<u32> = DelayLine::new(3, 2, 0);
    let mut captured = Vec::new();
    for b in 0..5u32 {
        captured.extend(d.process(&[10 * b + 1, 10 * b + 2]));
    }
    assert_eq!(captured, vec![0, 0, 0, 1, 2, 11, 12, 21, 22, 31]);
    // No delay: the block comes straight back.
    let mut z: DelayLine<u32> = DelayLine::new(0, 3, 0);
    assert_eq!(z.process(&[7, 8, 9]), vec![7, 8, 9]);
}

#[test]
fn loopback_worker_rebuilds_on_a_new_sink_or_block_size() {
    assert_eq!(worker_step(true, 512, 0, false), WorkerStep::Rebuild { block_frames: 512, new_sender: true });
    assert_eq!(worker_step(false, 512, 512, true), WorkerStep::Continue);
    assert_eq!(worker_step(false, 0, 512, true), WorkerStep::Rebuild { block_frames: 1, new_sender: false });
    assert_eq!(worker_step(false, 256, 512, false), WorkerStep::Stop);
    assert_eq!(worker_step(false, 512, 512, false), WorkerStep::Stop);
}
