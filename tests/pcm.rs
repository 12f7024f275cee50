use resampler::pcm::{decode_frames, encode_frames, Endian, Frame};

#[test]
fn decode_little_endian_frame() {
    let bytes = [1u8, 0, 0, 0, 0xff, 0xff, 0xff, 0xff];
    assert_eq!(decode_frames(&bytes, Endian::Little), vec![[1, -1]]);
}

#[test]
fn decode_big_endian_frame() {
    let bytes = [0u8, 0, 1, 0, 0x80, 0, 0, 0];
    assert_eq!(decode_frames(&bytes, Endian::Big), vec![[256, i32::MIN]]);
}

#[test]
fn decode_drops_trailing_partial_frame() {
    let bytes = [2u8, 0, 0, 0, 3, 0, 0, 0, 9, 9, 9];
    assert_eq!(decode_frames(&bytes, Endian::Little), vec![[2, 3]]);
    assert_eq!(decode_frames(&bytes[..7], Endian::Little), Vec::<Frame>::new());
}

#[test]
fn decode_empty_stream() {
    assert_eq!(decode_frames(&[], Endian::Little), Vec::<Frame>::new());
}

#[test]
fn encode_little_and_big_endian() {
    let frames = [[0x01020304, -2]];
    assert_eq!(
        encode_frames(&frames, Endian::Little),
        vec![4u8, 3, 2, 1, 0xfe, 0xff, 0xff, 0xff]
    );
    assert_eq!(
        encode_frames(&frames, Endian::Big),
        vec![1u8, 2, 3, 4, 0xff, 0xff, 0xff, 0xfe]
    );
}

#[test]
fn encode_then_decode_gives_frames_back() {
    let frames: Vec<Frame> = vec![[0, 0], [i32::MAX, i32::MIN], [-1, 1], [123456789, -987654321]];
    for e in [Endian::Little, Endian::Big] {
        let bytes = encode_frames(&frames, e);
        assert_eq!(bytes.len(), 32);
        assert_eq!(decode_frames(&bytes, e), frames);
    }
}
