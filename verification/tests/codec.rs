use tentacle::codec::{
    push_be, read_be, Decoded, FrameError, FrameReader, LengthDelimitedCodec,
    DEFAULT_LENGTH_FIELD_LEN, DEFAULT_MAX_FRAME_LEN,
};

#[test]
fn default_codec() {
    let codec = LengthDelimitedCodec::new();
    assert_eq!(codec.length_field_len, 4);
    assert_eq!(codec.max_frame_len, 8 * 1024 * 1024);
    assert_eq!(DEFAULT_LENGTH_FIELD_LEN, 4);
    assert_eq!(DEFAULT_MAX_FRAME_LEN, 8 * 1024 * 1024);
    assert_eq!(codec.length_field_length(0), None);
    assert_eq!(codec.length_field_length(9), None);
    assert_eq!(codec.length_field_length(2).unwrap().length_field_len, 2);
    assert_eq!(codec.length_field_length(2).unwrap().max_frame_len, codec.max_frame_len);
    assert_eq!(codec.max_frame_length(10).max_frame_len, 10);
}

#[test]
fn big_endian_numbers() {
    let mut out = vec![9];
    push_be(&mut out, 0x0102_0304, 4);
    assert_eq!(out, vec![9, 1, 2, 3, 4]);
    push_be(&mut out, 0x0102_0304, 2);
    assert_eq!(out, vec![9, 1, 2, 3, 4, 3, 4]);
    push_be(&mut out, 7, 0);
    assert_eq!(out.len(), 7);
    assert_eq!(read_be(&out, 1, 4), 0x0102_0304);
    assert_eq!(read_be(&out, 0, 0), 0);
    assert_eq!(read_be(&[255; 8], 0, 8), u64::MAX);
    let mut wide = Vec::new();
    push_be(&mut wide, u64::MAX - 1, 8);
    assert_eq!(wide, vec![255, 255, 255, 255, 255, 255, 255, 254]);
}

#[test]
fn frame_round_trip() {
    let codec = LengthDelimitedCodec::new();
    let mut wire = Vec::new();
    assert_eq!(codec.encode(b"hello", &mut wire), Ok(()));
    assert_eq!(wire, vec![0, 0, 0, 5, b'h', b'e', b'l', b'l', b'o']);
    assert_eq!(
        codec.decode(&wire),
        Ok(Decoded::Frame { payload: b"hello".to_vec(), consumed: 9 })
    );
}

#[test]
fn frame_of_maximum_length_is_accepted() {
    let codec = LengthDelimitedCodec::new().max_frame_length(5);
    assert!(codec.can_frame(5));
    assert!(!codec.can_frame(6));
    let mut wire = Vec::new();
    assert_eq!(codec.encode(&[1, 2, 3, 4, 5], &mut wire), Ok(()));
    assert_eq!(
        codec.decode(&wire),
        Ok(Decoded::Frame { payload: vec![1, 2, 3, 4, 5], consumed: 9 })
    );
}

#[test]
fn frame_above_maximum_length_is_refused() {
    let codec = LengthDelimitedCodec::new().max_frame_length(5);
    let mut wire = vec![42];
    assert_eq!(codec.encode(&[1, 2, 3, 4, 5, 6], &mut wire), Err(FrameError::FrameTooLong));
    assert_eq!(wire, vec![42]);
    assert_eq!(
        codec.decode(&[0, 0, 0, 6, 1, 2, 3, 4, 5, 6]),
        Err(FrameError::FrameTooLong)
    );
    // refused as soon as the length has arrived
    assert_eq!(codec.decode(&[0, 0, 0, 6]), Err(FrameError::FrameTooLong));
}

#[test]
fn zero_length_frame_is_delivered() {
    let codec = LengthDelimitedCodec::new();
    let mut wire = Vec::new();
    assert_eq!(codec.encode(&[], &mut wire), Ok(()));
    assert_eq!(wire, vec![0, 0, 0, 0]);
    assert_eq!(
        codec.decode(&wire),
        Ok(Decoded::Frame { payload: vec![], consumed: 4 })
    );
    let mut reader = FrameReader::new(codec);
    reader.feed(&wire);
    assert_eq!(reader.next_frame(), Ok(Some(vec![])));
    assert_eq!(reader.next_frame(), Ok(None));
}

#[test]
fn incomplete_frames_wait() {
    let codec = LengthDelimitedCodec::new();
    assert_eq!(codec.decode(&[]), Ok(Decoded::Incomplete));
    assert_eq!(codec.decode(&[0, 0, 0]), Ok(Decoded::Incomplete));
    assert_eq!(codec.decode(&[0, 0, 0, 2, 1]), Ok(Decoded::Incomplete));
    assert_eq!(
        codec.decode(&[0, 0, 0, 2, 1, 2, 99]),
        Ok(Decoded::Frame { payload: vec![1, 2], consumed: 6 })
    );
}

#[test]
fn length_prefix_width_is_configurable() {
    let one = LengthDelimitedCodec::new().length_field_length(1).unwrap();
    let mut wire = Vec::new();
    assert_eq!(one.encode(&[7; 255], &mut wire), Ok(()));
    assert_eq!(wire.len(), 256);
    assert_eq!(wire[0], 255);
    assert_eq!(one.encode(&[7; 256], &mut wire), Err(FrameError::FrameTooLong));
    assert!(one.can_frame(255));
    assert!(!one.can_frame(256));
    let eight = LengthDelimitedCodec::new().length_field_length(8).unwrap();
    let mut wire = Vec::new();
    assert_eq!(eight.encode(&[1], &mut wire), Ok(()));
    assert_eq!(wire, vec![0, 0, 0, 0, 0, 0, 0, 1, 1]);
    assert_eq!(
        eight.decode(&wire),
        Ok(Decoded::Frame { payload: vec![1], consumed: 9 })
    );
    assert_eq!(
        eight.decode(&[255, 0, 0, 0, 0, 0, 0, 0, 1]),
        Err(FrameError::FrameTooLong)
    );
    let two = LengthDelimitedCodec::new().length_field_length(2).unwrap();
    assert_eq!(
        two.decode(&[1, 0, 5]),
        Ok(Decoded::Incomplete)
    );
}

#[test]
fn reader_buffers_partial_input() {
    let mut reader = FrameReader::new(LengthDelimitedCodec::new());
    reader.feed(&[0, 0]);
    assert_eq!(reader.next_frame(), Ok(None));
    reader.feed(&[0, 3, 1, 2]);
    assert_eq!(reader.next_frame(), Ok(None));
    assert_eq!(reader.buffer, vec![0, 0, 0, 3, 1, 2]);
    reader.feed(&[3, 0, 0]);
    assert_eq!(reader.next_frame(), Ok(Some(vec![1, 2, 3])));
    assert_eq!(reader.buffer, vec![0, 0]);
    assert_eq!(reader.next_frame(), Ok(None));
}

#[test]
fn reader_reports_a_refused_frame() {
    let mut reader = FrameReader::new(LengthDelimitedCodec::new().max_frame_length(2));
    reader.feed(&[0, 0, 0, 1, 9, 0, 0, 0, 3, 1, 2, 3]);
    assert_eq!(reader.next_frame(), Ok(Some(vec![9])));
    assert_eq!(reader.next_frame(), Err(FrameError::FrameTooLong));
    assert_eq!(reader.next_frame(), Err(FrameError::FrameTooLong));
    assert_eq!(reader.buffer, vec![0, 0, 0, 3, 1, 2, 3]);
}

#[test]
fn frames_are_delivered_in_order() {
    let codec = LengthDelimitedCodec::new();
    let messages: Vec<Vec<u8>> = vec![b"m1".to_vec(), vec![], b"third".to_vec(), vec![0; 300]];
    let mut wire = Vec::new();
    for m in &messages {
        assert_eq!(codec.encode(m, &mut wire), Ok(()));
    }
    let mut reader = FrameReader::new(codec);
    reader.feed(&wire);
    reader.feed(&[0, 0, 0, 9, 1]);
    assert_eq!(reader.drain(), messages);
    assert_eq!(reader.buffer, vec![0, 0, 0, 9, 1]);
    assert_eq!(reader.drain(), Vec::<Vec<u8>>::new());
}

#[test]
fn drain_stops_at_a_refused_frame() {
    let mut reader = FrameReader::new(LengthDelimitedCodec::new().max_frame_length(1));
    reader.feed(&[0, 0, 0, 1, 5, 0, 0, 0, 2, 6, 7]);
    assert_eq!(reader.drain(), vec![vec![5]]);
    assert_eq!(reader.buffer, vec![0, 0, 0, 2, 6, 7]);
    assert_eq!(reader.next_frame(), Err(FrameError::FrameTooLong));
}
