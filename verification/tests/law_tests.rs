use slipframe::{
    decode_frame, decode_frames, decode_frames_iter, decode_frames_iter_with_remainder,
    decode_frames_with_remainder, decoded_lengths, decoded_lengths_iter, encode_frame,
    encode_into_writer, encode_iter, encoded_len, SlipError, VecSink, END, ESC,
};

#[test]
fn round_trip_with_specials() {
    let payload = vec![0x00, END, 0x7F, ESC, END, ESC, 0xFF];
    let frames = decode_frames(&encode_frame(&payload)).unwrap();
    assert_eq!(frames, vec![payload]);
}

#[test]
fn length_formula_matches_encoding() {
    let payload = [0x01, END, ESC, END, 0x02];
    let frame = encode_frame(&payload);
    assert_eq!(encoded_len(&payload), frame.len());
    assert_eq!(frame.len(), payload.len() + 3 + 1);
}

#[test]
fn multi_frame_ordering() {
    let p1 = vec![ESC, 0x10];
    let p2 = vec![END];
    let encoded = [encode_frame(&p1), encode_frame(&p2)].concat();
    let frames = decode_frames(&encoded).unwrap();
    assert_eq!(frames, vec![p1, p2]);
}

#[test]
fn boundary_empty_payload() {
    assert_eq!(encode_frame(&[]), vec![END]);
    let frames = decode_frames(&[END]).unwrap();
    assert_eq!(frames, vec![Vec::<u8>::new()]);
}

#[test]
fn truncation_remainder_is_payload() {
    let mut truncated = encode_frame(b"hi");
    truncated.pop();
    let (frames, remainder) = decode_frames_with_remainder(&truncated).unwrap();
    assert!(frames.is_empty());
    assert_eq!(remainder.decoded, b"hi");
    assert!(!remainder.escape_pending);
}

#[test]
fn encode_iter_matches_encode_frame() {
    let payload = [END, ESC, 0x33, ESC, ESC, END, 0x00];
    assert_eq!(encode_iter(&payload), encode_frame(&payload));
}

#[test]
fn encode_into_writer_matches_encode_frame() {
    let payload = [0x11, END, ESC];
    let mut sink = VecSink::new();
    encode_into_writer(&payload, &mut sink).unwrap();
    assert_eq!(sink.data, encode_frame(&payload));
}

#[test]
fn batch_decoders_agree() {
    let encoded = [
        encode_frame(b"a"),
        encode_frame(&[END, ESC]),
        encode_frame(&[]),
    ]
    .concat();
    let fast = decode_frames_with_remainder(&encoded).unwrap();
    let slow = decode_frames_iter_with_remainder(&encoded).unwrap();
    assert_eq!(fast.0, slow.0);
    assert_eq!(fast.1, slow.1);
    assert_eq!(decode_frames(&encoded).unwrap(), decode_frames_iter(&encoded).unwrap());
}

#[test]
fn length_decoders_agree() {
    let encoded = [encode_frame(&[ESC, ESC]), encode_frame(b"xyz")].concat();
    assert_eq!(decoded_lengths(&encoded).unwrap(), vec![2, 3]);
    assert_eq!(decoded_lengths_iter(&encoded).unwrap(), vec![2, 3]);
}

#[test]
fn decode_frame_missing() {
    let err = decode_frame(&[]).unwrap_err();
    assert!(matches!(err, SlipError::MissingFrame));
}

#[test]
fn decode_frame_multiple() {
    let encoded = [encode_frame(b"a"), encode_frame(b"b")].concat();
    let err = decode_frame(&encoded).unwrap_err();
    assert!(matches!(err, SlipError::MultipleFrames(2)));
}

#[test]
fn decode_frames_incomplete_escape_error() {
    let err = decode_frames(&[0x01, ESC]).unwrap_err();
    assert!(matches!(err, SlipError::IncompleteEscape));
}

#[test]
fn decoded_lengths_invalid_escape() {
    let err = decoded_lengths(&[ESC, 0xAA, END]).unwrap_err();
    assert!(matches!(err, SlipError::InvalidEscape(0xAA)));
    let err = decoded_lengths_iter(&[ESC, 0xAA, END]).unwrap_err();
    assert!(matches!(err, SlipError::InvalidEscape(0xAA)));
}

#[test]
fn error_messages() {
    let err = decode_frames(&[ESC, 0x01, END]).unwrap_err();
    assert_eq!(err.message(), "encountered invalid escape sequence 0x01");
    let err = decode_frames(&[ESC, 0xAB, END]).unwrap_err();
    assert_eq!(err.message(), "encountered invalid escape sequence 0xAB");
    let err = decode_frames(&[0x01]).unwrap_err();
    assert_eq!(err.message(), "encountered unexpected end of frame");
    let err = decode_frames(&[ESC]).unwrap_err();
    assert_eq!(err.message(), "encountered incomplete escape sequence");
    let err = decode_frame(&[]).unwrap_err();
    assert_eq!(err.message(), "no complete SLIP frame found in input");
    let both = [encode_frame(b"a"), encode_frame(b"b")].concat();
    let err = decode_frame(&both).unwrap_err();
    assert_eq!(err.message(), "expected a single frame but found more");
}

#[test]
fn decoded_lengths_incomplete_escape() {
    let err = decoded_lengths(&[ESC]).unwrap_err();
    assert!(matches!(err, SlipError::IncompleteEscape));
}
