use yamf_hash::error::Error;
use yamf_hash::sink::BoundedSink;
use yamf_hash::{new_blake3, YamfHash, BLAKE3_HASH_SIZE, MAX_YAMF_HASH_SIZE};

#[test]
fn round_trip_no_trailing_bytes() {
    let message = b"round trip me";
    let computed = new_blake3(message);

    let mut encoded = vec![0u8; MAX_YAMF_HASH_SIZE];
    let written = computed.encode(&mut encoded).unwrap();
    assert_eq!(written, MAX_YAMF_HASH_SIZE);

    let (decoded, remaining) = YamfHash::<&[u8]>::decode(&encoded).unwrap();
    assert_eq!(decoded, computed);
    assert_eq!(computed, decoded);
    assert_eq!(remaining.len(), 0);
}

#[test]
fn length_agreement() {
    let computed = new_blake3(b"sized exactly");
    let needed = computed.encoding_length();
    assert_eq!(needed, MAX_YAMF_HASH_SIZE);

    let mut exact = vec![0u8; needed];
    let written = computed.encode(&mut exact).unwrap();
    assert_eq!(written, needed);
}

#[test]
fn borrowed_and_owned_decode_equal() {
    let computed = new_blake3(&[1, 2, 3]);
    let mut encoded = Vec::new();
    computed.encode_write(&mut encoded).unwrap();

    let (borrowed, _) = YamfHash::<&[u8]>::decode(&encoded).unwrap();
    let (owned, _) = YamfHash::<Vec<u8>>::decode_owned(&encoded).unwrap();

    assert_eq!(borrowed, owned);
    assert_eq!(owned, borrowed);
    assert_eq!(borrowed, computed);
    assert_eq!(owned, computed);
    assert_eq!(computed, borrowed);
    assert_eq!(computed, owned);
}

#[test]
fn truncation_rejected() {
    // One byte short of the declared 2 + 32 bytes.
    let mut short = vec![0xEEu8; 33];
    short[0] = 0;
    short[1] = 32;
    match YamfHash::<&[u8]>::decode(&short) {
        Err(Error::DecodeError) => {}
        _ => panic!(),
    }
    match YamfHash::<Vec<u8>>::decode_owned(&short) {
        Err(Error::DecodeError) => {}
        _ => panic!(),
    }
    // Only the algorithm id fits.
    match YamfHash::<&[u8]>::decode(&[0]) {
        Err(Error::DecodeError) => {}
        _ => panic!(),
    }
}

#[test]
fn trailing_data_passthrough() {
    let mut bytes = vec![0x00u8, 0x20];
    bytes.extend_from_slice(&[0xCD; 32]);
    bytes.push(0xAA);
    let (decoded, remaining) = YamfHash::<&[u8]>::decode(&bytes).unwrap();
    match decoded {
        YamfHash::Blake3(digest) => assert_eq!(digest, &[0xCD; 32][..]),
    }
    assert_eq!(remaining, &[0xAA]);
}

#[test]
fn malformed_varu64_rejected() {
    // An overlong (non-canonical) encoding of 5 leads the buffer.
    let mut bytes = vec![248u8, 5];
    bytes.extend_from_slice(&[0x77; 40]);
    match YamfHash::<&[u8]>::decode(&bytes) {
        Err(Error::DecodeVaru64Error) => {}
        _ => panic!(),
    }
    // An empty buffer has no integer at all.
    match YamfHash::<&[u8]>::decode(&[]) {
        Err(Error::DecodeVaru64Error) => {}
        _ => panic!(),
    }
    match YamfHash::<Vec<u8>>::decode_owned(&[]) {
        Err(Error::DecodeVaru64Error) => {}
        _ => panic!(),
    }
}

#[test]
fn unsupported_algorithm_rejected() {
    let mut bytes = vec![1u8, 32];
    bytes.extend_from_slice(&[0x11; 32]);
    match YamfHash::<&[u8]>::decode(&bytes) {
        Err(Error::DecodeUnsupportedAlgorithm) => {}
        _ => panic!(),
    }
    match YamfHash::<Vec<u8>>::decode_owned(&bytes) {
        Err(Error::DecodeUnsupportedAlgorithm) => {}
        _ => panic!(),
    }
}

#[test]
fn encode_buffer_too_small() {
    let computed = new_blake3(b"needs 34 bytes");
    let mut small = vec![0u8; MAX_YAMF_HASH_SIZE - 1];
    match computed.encode(&mut small) {
        Err(Error::EncodeError) => {}
        _ => panic!(),
    }
    // Nothing was written.
    assert!(small.iter().all(|b| *b == 0));
}

#[test]
fn compute_deterministic() {
    let first = new_blake3(b"same input");
    let second = new_blake3(b"same input");
    assert_eq!(first, second);

    let mut enc1 = Vec::new();
    let mut enc2 = Vec::new();
    first.encode_write(&mut enc1).unwrap();
    second.encode_write(&mut enc2).unwrap();
    assert_eq!(enc1, enc2);
}

#[test]
fn compute_matches_digest_primitive() {
    // A 32-byte input, so handing the input back unchanged would still have
    // a plausible length yet the wrong bytes.
    let input = [0xB3u8; 32];
    let computed = new_blake3(&input);
    let expected = blake3::hash(&input);
    match &computed {
        YamfHash::Blake3(digest) => {
            assert_eq!(&digest[..], expected.as_bytes());
            assert_ne!(&digest[..], &input[..]);
        }
    }
}

#[test]
fn compute_matches_known_vector() {
    // The BLAKE3 digest of the empty input.
    let expected = [
        0xafu8, 0x13, 0x49, 0xb9, 0xf5, 0xf9, 0xa1, 0xa6, 0xa0, 0x40, 0x4d, 0xea, 0x36, 0xdc,
        0xc9, 0x49, 0x9b, 0xcb, 0x25, 0xc9, 0xad, 0xc1, 0x12, 0xb7, 0xcc, 0x9a, 0x93, 0xca,
        0xe4, 0x1f, 0x32, 0x62,
    ];
    let computed = new_blake3(&[]);
    match &computed {
        YamfHash::Blake3(digest) => assert_eq!(&digest[..], &expected[..]),
    }
}

#[test]
fn bounded_sink_accepts_until_capacity() {
    let mut sink = BoundedSink::new(MAX_YAMF_HASH_SIZE);
    let computed = new_blake3(b"fits exactly");
    computed.encode_write(&mut sink).unwrap();
    assert_eq!(sink.bytes().len(), MAX_YAMF_HASH_SIZE);
    assert_eq!(sink.bytes()[0], 0);
    assert_eq!(sink.bytes()[1], 32);

    // The sink is full now: the next write is rejected whole and the digest
    // of a second encode attempt is not flushed.
    match computed.encode_write(&mut sink) {
        Err(Error::EncodeWriteError) => {}
        _ => panic!(),
    }
    assert_eq!(sink.bytes().len(), MAX_YAMF_HASH_SIZE);
}

#[test]
fn failed_write_keeps_accepted_bytes() {
    // Room for the two header fields but not for the digest: the digest
    // write is rejected whole, and the header already accepted stays.
    let yamf_hash = YamfHash::Blake3(vec![0xFF; 4]);
    let mut sink = BoundedSink::new(4);
    match yamf_hash.encode_write(&mut sink) {
        Err(Error::EncodeWriteError) => {}
        _ => panic!(),
    }
    assert_eq!(sink.bytes().as_slice(), &[0u8, 32]);
}

#[test]
fn hash_size_constants_agree() {
    assert_eq!(BLAKE3_HASH_SIZE, blake3::OUT_LEN);
    assert_eq!(MAX_YAMF_HASH_SIZE, BLAKE3_HASH_SIZE + 2);
}
