use zmk_studio_client::framing::encode_frame;
use zmk_studio_client::framing::FrameDecoder;
use zmk_studio_client::framing::FramingError;

#[test]
fn encodes_basic_frame() {
    let input = [1_u8, 2, 3];
    let encoded = encode_frame(&input);
    assert_eq!(encoded, vec![171, 1, 2, 3, 173]);
}

#[test]
fn encodes_escaped_frame() {
    let input = [1_u8, 171, 172, 2, 3, 171, 4, 173, 5];
    let encoded = encode_frame(&input);
    assert_eq!(
        encoded,
        vec![171, 1, 172, 171, 172, 172, 2, 3, 172, 171, 4, 172, 173, 5, 173]
    );
}

#[test]
fn decodes_multiple_frames() {
    let input = [171_u8, 1, 2, 3, 173, 171, 4, 173];
    let mut decoder = FrameDecoder::new();
    let frames = decoder.push(&input).expect("decode should succeed");

    assert_eq!(frames, vec![vec![1, 2, 3], vec![4]]);
}

#[test]
fn decodes_escaped_frame_byte_by_byte() {
    let input = [
        171_u8, 1, 172, 171, 172, 172, 2, 3, 172, 171, 4, 172, 173, 5, 173,
    ];

    let mut decoder = FrameDecoder::new();
    let mut frames = Vec::new();

    for &b in &input {
        frames.extend(
            decoder
                .push(core::slice::from_ref(&b))
                .expect("decode should succeed"),
        );
    }

    assert_eq!(frames, vec![vec![1, 171, 172, 2, 3, 171, 4, 173, 5]]);
}

#[test]
fn round_trips_every_reserved_byte() {
    let payload: Vec<u8> = vec![0, 171, 172, 173, 255, 171, 171, 173, 172, 1];
    let encoded = encode_frame(&payload);
    let mut decoder = FrameDecoder::new();
    let frames = decoder.push(&encoded).expect("decode should succeed");
    assert_eq!(frames, vec![payload]);
}

#[test]
fn chunking_does_not_change_decoded_frames() {
    let first = encode_frame(&[10_u8, 171, 20]);
    let second = encode_frame(&[30_u8, 173]);
    let mut stream = first.clone();
    stream.extend(second.clone());

    let mut whole = FrameDecoder::new();
    let expected = whole.push(&stream).expect("decode should succeed");

    for split in 0..stream.len() {
        let mut decoder = FrameDecoder::new();
        let mut frames = decoder.push(&stream[..split]).expect("decode should succeed");
        frames.extend(decoder.push(&stream[split..]).expect("decode should succeed"));
        assert_eq!(frames, expected);
    }
}

#[test]
fn recovers_after_expected_start_error() {
    let mut decoder = FrameDecoder::new();
    let err = decoder.push(&[9_u8]).unwrap_err();
    assert_eq!(err, FramingError::ExpectedStartOfFrame);

    let frames = decoder
        .push(&encode_frame(&[7_u8, 8]))
        .expect("decode should succeed after an error");
    assert_eq!(frames, vec![vec![7, 8]]);
}

#[test]
fn recovers_after_start_mid_frame_error() {
    let mut decoder = FrameDecoder::new();
    let err = decoder.push(&[171_u8, 1, 2, 171]).unwrap_err();
    assert_eq!(err, FramingError::UnexpectedStartOfFrameMidFrame);

    let frames = decoder
        .push(&encode_frame(&[42_u8]))
        .expect("decode should succeed after an error");
    assert_eq!(frames, vec![vec![42]]);
}

#[test]
fn error_discards_the_partial_frame() {
    let mut decoder = FrameDecoder::new();
    decoder.push(&[171_u8, 1, 2]).expect("open frame is fine");
    decoder.push(&[171_u8]).unwrap_err();

    let frames = decoder
        .push(&encode_frame(&[5_u8]))
        .expect("decode should succeed");
    assert_eq!(frames, vec![vec![5]]);
}
