use bytes::BytesMut;
use slipframe::{encode_frame, SlipCodec, SlipError, END, ESC};

#[test]
fn encode_slice() {
    let mut codec = SlipCodec::new();
    let mut dst = BytesMut::new();
    codec.encode_slice(b"data", &mut dst).unwrap();
    assert_eq!(&dst[..], encode_frame(b"data"));
}

#[test]
fn encode_slice_escapes() {
    let mut codec = SlipCodec::new();
    let mut dst = BytesMut::new();
    codec.encode_slice(&[END, ESC, 0x01], &mut dst).unwrap();
    assert_eq!(&dst[..], encode_frame(&[END, ESC, 0x01]));
}

#[test]
fn tokio_codec_decode_multiple_frames() {
    let mut codec = SlipCodec::new();
    let frames = [encode_frame(b"one"), encode_frame(&[END])].concat();
    let mut src = BytesMut::from(&frames[..]);
    let first = codec.decode(&mut src).unwrap().unwrap();
    assert_eq!(first, b"one");
    let second = codec.decode(&mut src).unwrap().unwrap();
    assert_eq!(second, vec![END]);
    assert!(codec.decode(&mut src).unwrap().is_none());
}

#[test]
fn decode_incomplete_eof_errors() {
    let mut frame = encode_frame(b"broken");
    frame.pop();
    let mut codec = SlipCodec::new();
    let mut src = BytesMut::from(&frame[..]);
    assert!(codec.decode(&mut src).unwrap().is_none());
    let err = codec.decode_eof(&mut src).unwrap_err();
    assert!(matches!(err, SlipError::UnexpectedEndOfFrame));
}

#[test]
fn decode_esc_pending_eof_errors() {
    let mut codec = SlipCodec::new();
    let mut src = BytesMut::from(&[ESC][..]);
    assert!(codec.decode(&mut src).unwrap().is_none());
    let err = codec.decode_eof(&mut src).unwrap_err();
    assert!(matches!(err, SlipError::IncompleteEscape));
}

#[test]
fn decode_invalid_escape_in_buffer() {
    let mut codec = SlipCodec::new();
    let mut src = BytesMut::from(&[ESC, 0x07, END][..]);
    let err = codec.decode(&mut src).unwrap_err();
    assert!(matches!(err, SlipError::InvalidEscape(0x07)));
}

#[test]
fn decode_resumes_across_chunks() {
    let mut codec = SlipCodec::new();
    let frame = encode_frame(b"split");
    let mut first = BytesMut::from(&frame[..3]);
    let mut second = BytesMut::from(&frame[3..]);
    assert!(codec.decode(&mut first).unwrap().is_none());
    let decoded = codec.decode(&mut second).unwrap().unwrap();
    assert_eq!(decoded, b"split");
}
