use flate2::bufread::ZlibDecoder;
use flate2::write::ZlibEncoder;
use flate2::Compression;
use mclient::error::Error;
use mclient::frame::read_frame;
use mclient::packet::compressed_frame_body;
use mclient::packet::decode_body;
use mclient::packet::encode_body;
use mclient::packet::inflated_packet;
use mclient::packet::parse_packet;
use mclient::packet::receive_packet;
use mclient::packet::send_packet;
use mclient::packet::send_packet_raw;
use mclient::varint::decode;
use std::io::Read;
use std::io::Write;

fn inflate(data: &[u8]) -> Vec<u8> {
    let mut out = Vec::new();
    ZlibDecoder::new(data).read_to_end(&mut out).unwrap();
    out
}

fn deflate(data: &[u8]) -> Vec<u8> {
    let mut encoder = ZlibEncoder::new(Vec::new(), Compression::default());
    encoder.write_all(data).unwrap();
    encoder.finish().unwrap()
}

fn round_trip(id: i32, payload: &[u8], threshold: i32) {
    let bytes = send_packet(id, payload, threshold).unwrap();
    assert_eq!(receive_packet(&bytes, threshold), Ok(((id, payload.to_vec()), bytes.len())));
}

#[test]
fn uncompressed_body_is_id_then_payload() {
    assert_eq!(encode_body(0x10, &[1, 2, 3], -1), Ok(vec![0x10, 1, 2, 3]));
    assert_eq!(send_packet(0x10, &[1, 2, 3], -1), Ok(vec![0x04, 0x10, 1, 2, 3]));
    assert_eq!(send_packet_raw(0x10, &[1, 2, 3]), vec![0x04, 0x10, 1, 2, 3]);
}

#[test]
fn packet_below_threshold_is_marked_uncompressed() {
    assert_eq!(encode_body(0x03, &[9, 9], 64), Ok(vec![0x00, 0x03, 9, 9]));
    assert_eq!(send_packet(0x03, &[9, 9], 64), Ok(vec![0x04, 0x00, 0x03, 9, 9]));
}

#[test]
fn packet_at_threshold_is_deflated() {
    let payload = vec![0u8; 63];
    let body = encode_body(0x03, &payload, 64).unwrap();
    let (declared, used) = decode(&body).unwrap();
    assert_eq!(declared, 64);
    let mut raw = vec![0x03];
    raw.extend_from_slice(&payload);
    assert_ne!(&body[used..], &raw[..]);
    assert_eq!(inflate(&body[used..]), raw);
}

#[test]
fn packet_one_below_threshold_is_not_deflated() {
    let payload = vec![0u8; 62];
    let body = encode_body(0x03, &payload, 64).unwrap();
    assert_eq!(body[0], 0x00);
    assert_eq!(body[1], 0x03);
    assert_eq!(&body[2..], &payload[..]);
}

#[test]
fn round_trip_without_compression() {
    round_trip(0, &[], -1);
    round_trip(0x32, &[1, 2, 3], -1);
    round_trip(-5, &vec![0xab; 1000], -1);
}

#[test]
fn round_trip_with_threshold_zero() {
    round_trip(0, &[], 0);
    round_trip(0x1f, &[1, 2, 3, 4, 5, 6, 7, 8], 0);
    round_trip(300, &vec![0x55; 5000], 0);
}

#[test]
fn round_trip_with_large_threshold() {
    round_trip(0, &[], 1 << 20);
    round_trip(0x0e, &vec![0x41; 100_000], 1 << 20);
    round_trip(0x0e, &vec![0x41; (1 << 20) + 5], 1 << 20);
}

#[test]
fn round_trip_straddling_the_threshold() {
    for threshold in [1i32, 2, 64, 256, 1000] {
        for raw_len in [threshold - 1, threshold, threshold + 1] {
            if raw_len < 1 {
                continue;
            }
            let payload: Vec<u8> = (0..raw_len - 1).map(|i| (i * 7 % 256) as u8).collect();
            let body = encode_body(0x03, &payload, threshold).unwrap();
            let (declared, _) = decode(&body).unwrap();
            if raw_len < threshold {
                assert_eq!(declared, 0);
            } else {
                assert_eq!(declared, raw_len);
            }
            assert_eq!(decode_body(&body, threshold), Ok((0x03, payload.clone())));
            round_trip(0x03, &payload, threshold);
        }
    }
}

#[test]
fn chat_line_under_threshold_64_goes_uncompressed() {
    let line = b"hello mate";
    let mut payload = vec![line.len() as u8];
    payload.extend_from_slice(line);
    let bytes = send_packet(0x03, &payload, 64).unwrap();
    let (body, used) = read_frame(&bytes).unwrap();
    assert_eq!(used, bytes.len());
    assert_eq!(body[0], 0x00);
    assert_eq!(&body[1..], &[&[0x03u8][..], &payload[..]].concat()[..]);
}

#[test]
fn two_hundred_zero_bytes_under_threshold_64_are_deflated() {
    let payload = vec![0u8; 200];
    let bytes = send_packet(0x03, &payload, 64).unwrap();
    let (body, _) = read_frame(&bytes).unwrap();
    let (declared, used) = decode(&body).unwrap();
    assert_eq!(declared, 201);
    assert!(body.len() - used < 200);
    let mut raw = vec![0x03];
    raw.extend_from_slice(&payload);
    assert_eq!(inflate(&body[used..]), raw);
    assert_eq!(receive_packet(&bytes, 64), Ok(((0x03, payload), bytes.len())));
}

#[test]
fn compressed_body_is_length_then_stream() {
    assert_eq!(compressed_frame_body(300, &[0xde, 0xad]), vec![0xac, 0x02, 0xde, 0xad]);
}

#[test]
fn compressed_body_from_elsewhere_is_read() {
    let raw = [&[0x0eu8][..], &[0x42u8; 500][..]].concat();
    let body = compressed_frame_body(raw.len(), &deflate(&raw));
    assert_eq!(decode_body(&body, 256), Ok((0x0e, vec![0x42u8; 500])));
}

#[test]
fn parse_packet_takes_id_and_rest() {
    assert_eq!(parse_packet(&[0x80, 0x01, 5, 6]), Ok((128, vec![5, 6])));
    assert_eq!(parse_packet(&[0x07]), Ok((7, vec![])));
    assert_eq!(parse_packet(&[]), Err(Error::MalformedVarInt));
}

#[test]
fn inflated_packet_checks_the_declared_length() {
    assert_eq!(inflated_packet(3, Some(vec![0x05, 1, 2])), Ok((5, vec![1, 2])));
    assert_eq!(inflated_packet(4, Some(vec![0x05, 1, 2])), Err(Error::DecompressionError));
    assert_eq!(inflated_packet(2, Some(vec![0x05, 1, 2])), Err(Error::DecompressionError));
    assert_eq!(inflated_packet(-3, Some(vec![0x05, 1, 2])), Err(Error::DecompressionError));
    assert_eq!(inflated_packet(3, None), Err(Error::DecompressionError));
    assert_eq!(inflated_packet(1, Some(vec![0x80])), Err(Error::MalformedVarInt));
}

#[test]
fn body_that_does_not_inflate_is_a_decompression_error() {
    assert_eq!(decode_body(&[0x05, 1, 2, 3, 4], 0), Err(Error::DecompressionError));
    assert_eq!(decode_body(&[0x05], 0), Err(Error::DecompressionError));
}

#[test]
fn declared_length_must_match_what_inflates() {
    let raw = [0x03u8, 1, 2, 3, 4, 5];
    let stream = deflate(&raw);
    let right = compressed_frame_body(6, &stream);
    let long = compressed_frame_body(7, &stream);
    let short = compressed_frame_body(5, &stream);
    assert_eq!(decode_body(&right, 0), Ok((0x03, vec![1, 2, 3, 4, 5])));
    assert_eq!(decode_body(&long, 0), Err(Error::DecompressionError));
    assert_eq!(decode_body(&short, 0), Err(Error::DecompressionError));
}

#[test]
fn body_errors_when_compression_is_on() {
    assert_eq!(decode_body(&[], 0), Err(Error::MalformedVarInt));
    assert_eq!(decode_body(&[0x00], 0), Err(Error::MalformedVarInt));
    assert_eq!(decode_body(&[0x00, 0x80], 0), Err(Error::MalformedVarInt));
}

#[test]
fn body_errors_when_compression_is_off() {
    assert_eq!(decode_body(&[], -1), Err(Error::MalformedVarInt));
    assert_eq!(decode_body(&[0x00, 0x03, 9], -1), Ok((0, vec![0x03, 9])));
}

#[test]
fn receive_reports_frame_errors() {
    assert_eq!(receive_packet(&[0x05, 0x00], -1), Err(Error::TruncatedFrame));
    assert_eq!(receive_packet(&[], -1), Err(Error::MalformedVarInt));
    assert_eq!(receive_packet(&[0x00], -1), Err(Error::MalformedVarInt));
}

#[test]
fn receive_takes_one_frame_only() {
    let mut wire = send_packet(0x1f, &[1, 2, 3, 4, 5, 6, 7, 8], 64).unwrap();
    let first = wire.len();
    wire.extend_from_slice(&send_packet(0x0e, &[0x00], 64).unwrap());
    assert_eq!(receive_packet(&wire, 64), Ok(((0x1f, vec![1, 2, 3, 4, 5, 6, 7, 8]), first)));
    assert_eq!(
        receive_packet(&wire[first..], 64),
        Ok(((0x0e, vec![0x00]), wire.len() - first))
    );
}
