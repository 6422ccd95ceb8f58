use anecho::wire::{envelope, Frame, WireError, FRAME_HEADER_LEN};

fn bits(v: &[f32]) -> Vec<u32> {
    v.iter().map(|x| x.to_bits()).collect()
}

#[test]
fn frame_round_trip() {
    let f = Frame {
        stream_id: 7,
        seq: 3,
        first_frame: 4096,
        channels: 2,
        values_per_channel: 2,
        values: bits(&[-20.0, -17.0, -21.0, -18.0]),
    };
    let bytes = f.encode();
    assert_eq!(bytes.len(), FRAME_HEADER_LEN + 16);
    assert_eq!(Frame::decode(&bytes).unwrap(), f);
    assert_eq!(f.channel(1), &bits(&[-21.0, -18.0])[..]);
}

#[test]
fn frame_rejects_bad_length() {
    let mut bytes = Frame {
        stream_id: 1,
        seq: 0,
        first_frame: 0,
        channels: 1,
        values_per_channel: 3,
        values: bits(&[0.0; 3]),
    }
    .encode()
    .to_vec();
    bytes.pop();
    assert!(matches!(
        Frame::decode(&bytes),
        Err(WireError::LengthMismatch { .. })
    ));
    assert!(matches!(Frame::decode(&bytes[..5]), Err(WireError::TooShort(5))));
}

#[test]
fn frame_header_is_little_endian() {
    let f = Frame {
        stream_id: 0x0403_0201,
        seq: 0x0c0b_0a09_0807_0605,
        first_frame: 0x1413_1211_100f_0e0d,
        channels: 0x1615,
        values_per_channel: 0,
        values: vec![],
    };
    let bytes = f.encode();
    let expected: Vec<u8> = (1u8..=0x16).chain([0u8, 0u8]).collect();
    assert_eq!(&bytes[..], &expected[..]);
}

#[test]
fn frame_values_are_ieee_bytes() {
    let f = Frame {
        stream_id: 0,
        seq: 0,
        first_frame: 0,
        channels: 1,
        values_per_channel: 1,
        values: bits(&[1.0]),
    };
    let bytes = f.encode();
    assert_eq!(&bytes[24..], &1.0f32.to_le_bytes()[..]);
    let back = Frame::decode(&bytes).unwrap();
    assert_eq!(f32::from_bits(back.values[0]), 1.0);
}

#[test]
fn decode_reports_mismatch_sizes() {
    let mut bytes = vec![0u8; 24];
    bytes[20] = 2; // channels
    bytes[22] = 3; // values per channel
    bytes.extend_from_slice(&[0u8; 8]);
    match Frame::decode(&bytes) {
        Err(WireError::LengthMismatch { expected, got }) => {
            assert_eq!(expected, 6);
            assert_eq!(got, 8);
        }
        other => panic!("unexpected {other:?}"),
    }
    assert_eq!(Frame::decode(&[]), Err(WireError::TooShort(0)));
    assert_eq!(Frame::decode(&[0u8; 23]), Err(WireError::TooShort(23)));
}

#[test]
fn empty_frame_decodes() {
    let f = Frame::decode(&[0u8; 24]).unwrap();
    assert_eq!(f.channels, 0);
    assert!(f.values.is_empty());
}

#[test]
fn envelope_carries_id_and_payload() {
    let e = envelope(42, "hello");
    assert_eq!(e.request_id, 42);
    assert_eq!(e.payload, Some("hello"));
}
