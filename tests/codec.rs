use bytes::{Bytes, BytesMut};

use litep2p_core::codec::Identity;

#[test]
fn decode_empty_buffer_yields_nothing() {
    let mut codec = Identity::<4>::new();
    let mut src = BytesMut::new();
    assert!(matches!(codec.decode(&mut src), Ok(None)));
    assert!(src.is_empty());
}

#[test]
fn decode_takes_one_frame() {
    let mut codec = Identity::<4>::new();
    let mut src = BytesMut::from(&[1u8, 2, 3, 4, 5, 6, 7, 8, 9][..]);
    let frame = codec.decode(&mut src).unwrap().unwrap();
    assert_eq!(&frame[..], &[1u8, 2, 3, 4][..]);
    assert_eq!(&src[..], &[5u8, 6, 7, 8, 9][..]);
}

#[test]
fn encode_appends_payload() {
    let mut codec = Identity::<3>::new();
    let mut dst = BytesMut::from(&[9u8][..]);
    assert!(codec.encode(Bytes::from(vec![1u8, 2, 3]), &mut dst).is_ok());
    assert_eq!(&dst[..], &[9u8, 1, 2, 3][..]);
}

#[test]
fn decode_needs_a_whole_frame() {
    let codec = Identity::<4>::new();
    assert!(codec.can_decode(&BytesMut::new()));
    assert!(codec.can_decode(&BytesMut::from(&[1u8, 2, 3, 4][..])));
    assert!(!codec.can_decode(&BytesMut::from(&[1u8, 2][..])));
}
