use opencuboids::codec::{decode_blocks, encode_blocks, DecodeError};
use opencuboids::coords::ivec3;
use opencuboids::protocol::{
    decode_request, decode_response, encode_request, encode_response, frame_message, take_frame,
    Request, Response,
};
use opencuboids::chunk::Chunk;

fn round_trip(blocks: Vec<u8>) {
    let encoded = encode_blocks(&blocks);
    let decoded = decode_blocks(&encoded).expect("well-formed encoding must decode");
    assert_eq!(decoded, blocks);
}

#[test]
fn blocks_round_trip_all_air() {
    round_trip(vec![0u8; 32768]);
}

#[test]
fn blocks_round_trip_all_one_value() {
    round_trip(vec![7u8; 32768]);
}

#[test]
fn blocks_round_trip_maximally_alternating() {
    let blocks: Vec<u8> = (0..32768).map(|i| (i % 2) as u8).collect();
    round_trip(blocks);
}

#[test]
fn blocks_round_trip_mixed_runs() {
    let blocks: Vec<u8> = (0..32768).map(|i| ((i / 1000) % 5) as u8).collect();
    round_trip(blocks);
}

#[test]
fn all_air_encodes_to_one_run() {
    let encoded = encode_blocks(&vec![0u8; 32768]);
    // one pair: value 0, count 32768 little-endian
    assert_eq!(encoded, vec![0u8, 0x00, 0x80]);
}

#[test]
fn runs_longer_than_a_pair_can_carry_are_split() {
    let encoded = encode_blocks(&vec![3u8; 70000]);
    // 70000 = 65535 + 4465, and 4465 = 0x1171
    assert_eq!(encoded, vec![3u8, 0xFF, 0xFF, 3u8, 0x71, 0x11]);
}

#[test]
fn truncated_pair_is_malformed() {
    assert_eq!(decode_blocks(&vec![1u8, 1u8]), Err(DecodeError::Malformed));
}

#[test]
fn zero_count_is_malformed() {
    assert_eq!(decode_blocks(&vec![1u8, 0u8, 0u8]), Err(DecodeError::Malformed));
}

#[test]
fn wrong_volume_is_a_length_mismatch() {
    // one run of a single block: far short of a chunk volume
    assert_eq!(decode_blocks(&vec![1u8, 1u8, 0u8]), Err(DecodeError::LengthMismatch));
    // one full chunk plus one more block: too long
    assert_eq!(
        decode_blocks(&vec![0u8, 0x00, 0x80, 2u8, 1u8, 0u8]),
        Err(DecodeError::LengthMismatch)
    );
}

#[test]
fn trailing_bytes_are_malformed() {
    assert_eq!(decode_blocks(&vec![0u8, 0x00, 0x80, 9u8]), Err(DecodeError::Malformed));
}

#[test]
fn request_round_trips_with_negative_coordinates() {
    let req = Request::ChunkRange { start: ivec3(-5, -1, 0), end: ivec3(3, 1, 2) };
    let body = encode_request(&req);
    assert_eq!(body.len(), 25);
    let back = decode_request(&body).expect("encoded request must decode");
    assert_eq!(back, req);
}

#[test]
fn request_with_wrong_tag_is_malformed() {
    let req = Request::ChunkRange { start: ivec3(0, 0, 0), end: ivec3(0, 0, 0) };
    let mut body = encode_request(&req);
    body[0] = 9;
    assert_eq!(decode_request(&body), Err(DecodeError::Malformed));
}

#[test]
fn response_round_trips_a_chunk() {
    let mut chunk = Chunk::new(ivec3(-2, 0, 7));
    chunk.set_block(0, 0, 0, 1);
    chunk.set_block(31, 31, 31, 3);
    let body = encode_response(&Response::ChunkData(chunk));
    match decode_response(&body).expect("encoded response must decode") {
        Response::ChunkData(back) => {
            assert_eq!(back.pos, ivec3(-2, 0, 7));
            assert_eq!(back.get_block(0, 0, 0), 1);
            assert_eq!(back.get_block(31, 31, 31), 3);
            assert_eq!(back.get_block(5, 5, 5), 0);
        }
        Response::Test => panic!("wrong response kind"),
    }
}

#[test]
fn test_response_round_trips() {
    let body = encode_response(&Response::Test);
    assert_eq!(body, vec![2u8]);
    assert!(matches!(decode_response(&body), Ok(Response::Test)));
}

#[test]
fn short_response_is_malformed() {
    assert_eq!(
        decode_response(&vec![1u8, 0u8]).err(),
        Some(DecodeError::Malformed)
    );
}

#[test]
fn framing_round_trips() {
    let body = vec![1u8, 2, 3, 4, 5];
    let mut buf = frame_message(&body);
    assert_eq!(buf.len(), 9);
    let got = take_frame(&mut buf).expect("complete frame must pop");
    assert_eq!(got, body);
    assert!(buf.is_empty());
}

#[test]
fn incomplete_frame_waits_for_more_data() {
    let body = vec![9u8; 10];
    let framed = frame_message(&body);
    let mut partial = framed[..8].to_vec();
    let before = partial.clone();
    assert!(take_frame(&mut partial).is_none());
    assert_eq!(partial, before);
}

#[test]
fn two_frames_pop_in_order() {
    let a = vec![1u8, 2];
    let b = vec![3u8];
    let mut buf = frame_message(&a);
    buf.extend_from_slice(&frame_message(&b));
    assert_eq!(take_frame(&mut buf).unwrap(), a);
    assert_eq!(take_frame(&mut buf).unwrap(), b);
    assert!(take_frame(&mut buf).is_none());
}
