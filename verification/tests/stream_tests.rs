use slipframe::{
    encode_frame, MemSource, SlipError, SlipReader, SlipWriter, VecSink, END, ESC,
};

#[test]
fn reader_writer_roundtrip() {
    let mut writer = SlipWriter::new(VecSink::new());
    writer.write_frame(b"first").unwrap();
    writer.write_frame(&[END]).unwrap();
    let encoded = writer.into_inner().data;

    let mut reader = SlipReader::new(MemSource::new(encoded));
    let mut frame = Vec::new();
    assert_eq!(reader.read_frame_into(&mut frame).unwrap(), Some(5));
    assert_eq!(frame, b"first");
    assert_eq!(reader.read_frame_into(&mut frame).unwrap(), Some(1));
    assert_eq!(frame, vec![END]);
    assert!(reader.read_frame_into(&mut frame).unwrap().is_none());
}

#[test]
fn reader_incomplete_escape() {
    let data = vec![ESC];
    let mut reader = SlipReader::new(MemSource::new(data));
    let mut frame = Vec::new();
    let err = reader.read_frame_into(&mut frame).unwrap_err();
    assert!(matches!(err, SlipError::IncompleteEscape));
}

#[test]
fn reader_take_remainder_after_eof() {
    let mut encoded = encode_frame(b"chunk");
    encoded.pop();
    let mut reader = SlipReader::new(MemSource::new(encoded));
    let mut frame = Vec::new();
    let err = reader.read_frame_into(&mut frame).unwrap_err();
    assert!(matches!(err, SlipError::UnexpectedEndOfFrame));
    assert!(frame.is_empty());
    assert!(reader.has_remainder());
    let remainder = reader.take_remainder();
    assert_eq!(remainder.decoded, b"chunk");
    assert!(!remainder.escape_pending);
    assert!(!reader.has_remainder());
}

#[test]
fn reader_frame_length_only() {
    let encoded = [
        encode_frame(b"first"),
        encode_frame(&[END]),
        encode_frame(b""),
    ]
    .concat();
    let mut reader = SlipReader::new(MemSource::new(encoded));
    assert_eq!(reader.read_frame_length().unwrap(), Some(5));
    assert_eq!(reader.read_frame_length().unwrap(), Some(1));
    assert_eq!(reader.read_frame_length().unwrap(), Some(0));
    assert!(reader.read_frame_length().unwrap().is_none());
}

#[test]
fn reader_frame_length_incomplete() {
    let mut encoded = encode_frame(b"oops");
    encoded.pop();
    let mut reader = SlipReader::new(MemSource::new(encoded));
    let err = reader.read_frame_length().unwrap_err();
    assert!(matches!(err, SlipError::UnexpectedEndOfFrame));
    let remainder = reader.take_remainder();
    assert_eq!(remainder.decoded, b"oops");
    assert!(!remainder.escape_pending);
}

#[test]
fn reader_take_remainder_twice_is_empty() {
    let mut encoded = encode_frame(b"tail");
    encoded.pop();
    let mut reader = SlipReader::new(MemSource::new(encoded));
    let mut frame = Vec::new();
    assert!(reader.read_frame_into(&mut frame).is_err());
    let first = reader.take_remainder();
    assert_eq!(first.decoded, b"tail");
    let second = reader.take_remainder();
    assert!(second.is_empty());
    assert_eq!(second.decoded, Vec::<u8>::new());
    assert!(!second.escape_pending);
}

#[test]
fn reader_read_frame_returns_payload() {
    let encoded = [encode_frame(b"alpha"), encode_frame(&[ESC, END])].concat();
    let mut reader = SlipReader::new(MemSource::new(encoded));
    assert_eq!(reader.read_frame().unwrap(), Some(b"alpha".to_vec()));
    assert_eq!(reader.read_frame().unwrap(), Some(vec![ESC, END]));
    assert_eq!(reader.read_frame().unwrap(), None);
}

#[test]
fn reader_into_inner_with_remainder() {
    let mut encoded = encode_frame(b"part");
    encoded.pop();
    let mut reader = SlipReader::new(MemSource::new(encoded));
    let mut frame = Vec::new();
    assert!(reader.read_frame_into(&mut frame).is_err());
    let (_source, remainder) = reader.into_inner_with_remainder();
    assert_eq!(remainder.decoded, b"part");
    assert!(!remainder.escape_pending);
    assert_eq!(remainder.len(), 4);
    assert!(!remainder.is_empty());
}

#[test]
fn writer_frame_iter_matches_frame() {
    let payload = [END, ESC, 0x42, ESC];
    let mut writer = SlipWriter::new(VecSink::new());
    writer.write_frame(&payload).unwrap();
    writer.flush().unwrap();
    let batched = writer.into_inner().data;

    let mut writer2 = SlipWriter::new(VecSink::new());
    writer2.write_frame_iter(&payload).unwrap();
    let pieced = writer2.into_inner().data;

    assert_eq!(batched, pieced);
    assert_eq!(batched, encode_frame(&payload));
}
