use slipframe::{
    decode_frame, decode_frames, decode_frames_with_remainder, decoded_lengths, encode_frame,
    encoded_len, SlipError, END, ESC, ESC_END, ESC_ESC,
};

#[test]
fn encode_simple() {
    let encoded = encode_frame(b"abc");
    assert_eq!(encoded, vec![b'a', b'b', b'c', END]);
}

#[test]
fn encode_escapes() {
    let encoded = encode_frame(&[END, ESC, 0x01]);
    assert_eq!(encoded, vec![ESC, ESC_END, ESC, ESC_ESC, 0x01, END]);
}

#[test]
fn decode_single_frame() {
    let frame = encode_frame(b"payload");
    let decoded = decode_frame(&frame).unwrap();
    assert_eq!(decoded, b"payload");
}

#[test]
fn lib_decode_multiple_frames() {
    let encoded = [encode_frame(b"one"), encode_frame(&[END])].concat();
    let frames = decode_frames(&encoded).unwrap();
    assert_eq!(frames.len(), 2);
    assert_eq!(frames[0], b"one");
    assert_eq!(frames[1], vec![END]);
}

#[test]
fn decode_invalid_escape() {
    let err = decode_frames(&[ESC, 0x01, END]).unwrap_err();
    assert!(matches!(err, SlipError::InvalidEscape(0x01)));
}

#[test]
fn decode_frames_remainder_incomplete() {
    let (frames, remainder) = decode_frames_with_remainder(&[0x01, 0x02]).unwrap();
    assert!(frames.is_empty());
    assert_eq!(remainder.decoded, vec![0x01, 0x02]);
    assert!(!remainder.escape_pending);
}

#[test]
fn decode_frames_remainder_escape_pending() {
    let input = [b'X', ESC];
    let (frames, remainder) = decode_frames_with_remainder(&input).unwrap();
    assert!(frames.is_empty());
    assert_eq!(remainder.decoded, vec![b'X']);
    assert!(remainder.escape_pending);
}

#[test]
fn decoded_lengths_multiple_frames() {
    let encoded = [
        encode_frame(b"foo"),
        encode_frame(&[]),
        encode_frame(&[END]),
    ]
    .concat();
    let lengths = decoded_lengths(&encoded).unwrap();
    assert_eq!(lengths, vec![3, 0, 1]);
}

#[test]
fn decoded_lengths_incomplete_frame_error() {
    let mut encoded = encode_frame(b"broken");
    encoded.pop();
    let err = decoded_lengths(&encoded).unwrap_err();
    assert!(matches!(err, SlipError::UnexpectedEndOfFrame));
}

#[test]
fn encoded_len_counts_escapes() {
    let len = encoded_len(&[END, ESC, 0x01]);
    assert_eq!(len, 6);
}
