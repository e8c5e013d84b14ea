use bytes::{BufMut, BytesMut};
use voxel_server::net::encode::{BincodeDecoder, BincodeEncoder, DecodeState, EncodeError};

type Value = (u16, Vec<u8>);

fn encode_value(codec: &mut BincodeEncoder<Value>, value: Value, buffer: &mut BytesMut) -> Result<(), EncodeError> {
    let payload = bincode::serialize(&value).unwrap();
    codec.encode(&payload, buffer)
}

fn decode_value(codec: &mut BincodeDecoder<Value>, buffer: &mut BytesMut) -> Result<Option<Value>, bincode::Error> {
    match codec.decode(buffer) {
        Some(frame) => bincode::deserialize(&frame[..]).map(Some),
        None => Ok(None),
    }
}

#[test]
fn test_encode() {
    let mut buffer = BytesMut::new();
    let mut codec = BincodeEncoder::<Value>::new();

    assert_eq!(encode_value(&mut codec, (13, vec![0, 1, 2, 3, 4]), &mut buffer).unwrap(), ());
    assert_eq!(&buffer[..], &[15, 0, 13, 0, 5, 0, 0, 0, 0, 0, 0, 0, 0, 1, 2, 3, 4]);

    assert_eq!(encode_value(&mut codec, (10, vec![]), &mut buffer).unwrap(), ());
    assert_eq!(&buffer[..], &[15, 0, 13, 0, 5, 0, 0, 0, 0, 0, 0, 0, 0, 1, 2, 3, 4, 10, 0, 10, 0, 0, 0, 0, 0, 0, 0, 0, 0]);
}

#[test]
fn test_decode() {
    let mut buffer = BytesMut::new();
    let mut codec = BincodeDecoder::<Value>::new();

    buffer.extend(&[15, 0, 13, 0, 5, 0, 0, 0, 0, 0, 0, 0, 0, 1, 2, 3, 4]);
    assert_eq!(decode_value(&mut codec, &mut buffer).unwrap(), Some((13, vec![0, 1, 2, 3, 4])), "value is correctly decoded");
    assert_eq!(codec.decode_state(), DecodeState::Head, "awaiting body length");
    assert_eq!(decode_value(&mut codec, &mut buffer).unwrap(), None, "no value can be decoded yet");

    buffer.put_u8(10);
    buffer.put_u8(0);
    assert_eq!(decode_value(&mut codec, &mut buffer).unwrap(), None, "no value can be decoded yet");
    assert_eq!(codec.decode_state(), DecodeState::Body(10), "awaiting body");

    buffer.put_u8(10);
    buffer.put_u8(0);
    buffer.put_u8(0);
    buffer.put_u8(0);
    buffer.put_u8(0);
    buffer.put_u8(0);
    assert_eq!(decode_value(&mut codec, &mut buffer).unwrap(), None, "no value can be decoded yet");
    assert_eq!(codec.decode_state(), DecodeState::Body(10), "awaiting body");

    buffer.put_u8(0);
    buffer.put_u8(0);
    buffer.put_u8(0);
    assert_eq!(decode_value(&mut codec, &mut buffer).unwrap(), None, "no value can be decoded yet");
    assert_eq!(codec.decode_state(), DecodeState::Body(10), "awaiting body");

    buffer.put_u8(0);
    assert_eq!(decode_value(&mut codec, &mut buffer).unwrap(), Some((10, vec![])), "value is correctly decoded");
    assert_eq!(codec.decode_state(), DecodeState::Head, "awaiting body length");
    assert_eq!(decode_value(&mut codec, &mut buffer).unwrap(), None, "no value can be decoded yet");
}

#[test]
fn new_decoder_awaits_a_length() {
    let codec = BincodeDecoder::<Value>::new();
    assert_eq!(codec.decode_state(), DecodeState::Head);
}

#[test]
fn round_trip_consumes_exactly_the_frame() {
    let mut encoder = BincodeEncoder::<Vec<u8>>::new();
    let mut decoder = BincodeDecoder::<Vec<u8>>::new();
    let mut buffer = BytesMut::new();
    let payload: Vec<u8> = vec![7, 0, 255, 3, 3, 3];
    assert_eq!(encoder.encode(&payload, &mut buffer), Ok(()));
    assert_eq!(buffer.len(), payload.len() + 2);
    buffer.extend(&[9, 9, 9]);
    let frame = decoder.decode(&mut buffer).unwrap();
    assert_eq!(&frame[..], &payload[..]);
    assert_eq!(&buffer[..], &[9, 9, 9]);
    assert_eq!(decoder.decode_state(), DecodeState::Head);
}

#[test]
fn empty_payload_is_a_frame_of_two_zero_bytes() {
    let mut encoder = BincodeEncoder::<Vec<u8>>::new();
    let mut decoder = BincodeDecoder::<Vec<u8>>::new();
    let mut buffer = BytesMut::new();
    assert_eq!(encoder.encode(&[], &mut buffer), Ok(()));
    assert_eq!(&buffer[..], &[0, 0]);
    let frame = decoder.decode(&mut buffer).unwrap();
    assert!(frame.is_empty());
    assert!(buffer.is_empty());
    assert_eq!(decoder.decode_state(), DecodeState::Head);
}

#[test]
fn length_prefix_counts_the_payload_bytes() {
    for (len, lo, hi) in [(0usize, 0u8, 0u8), (1, 1, 0), (255, 255, 0), (256, 0, 1), (300, 44, 1), (65535, 255, 255)] {
        for fill in [0u8, 0xAB] {
            let mut encoder = BincodeEncoder::<Vec<u8>>::new();
            let mut buffer = BytesMut::new();
            let payload = vec![fill; len];
            assert_eq!(encoder.encode(&payload, &mut buffer), Ok(()));
            assert_eq!(buffer.len(), len + 2);
            assert_eq!(buffer[0], lo);
            assert_eq!(buffer[1], hi);
            assert_eq!(&buffer[2..], &payload[..]);
        }
    }
}

#[test]
fn encode_appends_after_what_is_there() {
    let mut encoder = BincodeEncoder::<Vec<u8>>::new();
    let mut buffer = BytesMut::new();
    buffer.extend(&[1, 2, 3]);
    assert_eq!(encoder.encode(&[8, 9], &mut buffer), Ok(()));
    assert_eq!(&buffer[..], &[1, 2, 3, 2, 0, 8, 9]);
}

#[test]
fn payload_over_the_limit_is_refused() {
    let mut encoder = BincodeEncoder::<Vec<u8>>::new();
    let mut buffer = BytesMut::new();
    buffer.extend(&[1, 2, 3]);
    let payload = vec![5u8; 65536];
    assert_eq!(encoder.encode(&payload, &mut buffer), Err(EncodeError::PayloadTooLong));
    assert_eq!(&buffer[..], &[1, 2, 3]);
}

#[test]
fn largest_payload_round_trips() {
    let mut encoder = BincodeEncoder::<Vec<u8>>::new();
    let mut decoder = BincodeDecoder::<Vec<u8>>::new();
    let mut buffer = BytesMut::new();
    let payload: Vec<u8> = (0..65535u32).map(|i| (i % 251) as u8).collect();
    assert_eq!(encoder.encode(&payload, &mut buffer), Ok(()));
    let frame = decoder.decode(&mut buffer).unwrap();
    assert_eq!(&frame[..], &payload[..]);
    assert!(buffer.is_empty());
}

#[test]
fn decode_one_byte_at_a_time() {
    let mut encoder = BincodeEncoder::<Value>::new();
    let mut encoded = BytesMut::new();
    encode_value(&mut encoder, (13, vec![0, 1, 2, 3, 4]), &mut encoded).unwrap();
    let bytes = encoded.to_vec();

    let mut decoder = BincodeDecoder::<Value>::new();
    let mut buffer = BytesMut::new();
    for (i, byte) in bytes.iter().enumerate() {
        buffer.put_u8(*byte);
        let decoded = decode_value(&mut decoder, &mut buffer).unwrap();
        if i + 1 < bytes.len() {
            assert_eq!(decoded, None);
        } else {
            assert_eq!(decoded, Some((13, vec![0, 1, 2, 3, 4])));
        }
    }
    assert!(buffer.is_empty());
    assert_eq!(decoder.decode_state(), DecodeState::Head);
}

#[test]
fn decode_in_two_chunks_at_every_cut() {
    let mut encoder = BincodeEncoder::<Value>::new();
    let mut encoded = BytesMut::new();
    encode_value(&mut encoder, (13, vec![0, 1, 2, 3, 4]), &mut encoded).unwrap();
    let bytes = encoded.to_vec();

    for cut in 0..bytes.len() {
        let mut decoder = BincodeDecoder::<Value>::new();
        let mut buffer = BytesMut::new();
        buffer.extend(&bytes[..cut]);
        assert_eq!(decode_value(&mut decoder, &mut buffer).unwrap(), None);
        let expected = if cut < 2 { DecodeState::Head } else { DecodeState::Body(15) };
        assert_eq!(decoder.decode_state(), expected);
        buffer.extend(&bytes[cut..]);
        assert_eq!(decode_value(&mut decoder, &mut buffer).unwrap(), Some((13, vec![0, 1, 2, 3, 4])));
        assert!(buffer.is_empty());
        assert_eq!(decoder.decode_state(), DecodeState::Head);
    }
}

#[test]
fn two_frames_in_one_buffer_come_out_in_order() {
    let mut encoder = BincodeEncoder::<Vec<u8>>::new();
    let mut decoder = BincodeDecoder::<Vec<u8>>::new();
    let mut buffer = BytesMut::new();
    encoder.encode(&[1, 2, 3], &mut buffer).unwrap();
    encoder.encode(&[4], &mut buffer).unwrap();
    assert_eq!(&decoder.decode(&mut buffer).unwrap()[..], &[1, 2, 3]);
    assert_eq!(&decoder.decode(&mut buffer).unwrap()[..], &[4]);
    assert!(decoder.decode(&mut buffer).is_none());
}

#[test]
fn garbled_payload_fails_to_deserialize() {
    let mut decoder = BincodeDecoder::<Value>::new();
    let mut buffer = BytesMut::new();
    buffer.extend(&[3, 0, 13, 0, 5]);
    assert!(decode_value(&mut decoder, &mut buffer).is_err());
}
