use yamf_hash::error::Error;

const SAMPLES: [u64; 17] = [
    0,
    1,
    100,
    247,
    248,
    255,
    256,
    300,
    65535,
    65536,
    16777215,
    16777216,
    4294967295,
    4294967296,
    1099511627776,
    72057594037927936,
    u64::MAX,
];

#[test]
fn encoding_length_matches_reference_codec() {
    for &v in SAMPLES.iter() {
        assert_eq!(yamf_hash::varu64::encoding_length(v), varu64::encoding_length(v));
    }
}

#[test]
fn encode_matches_reference_codec() {
    for &v in SAMPLES.iter() {
        let mut ours = vec![0u8; 9];
        let n = yamf_hash::varu64::encode(v, &mut ours, 0);

        let mut reference = [0u8; 9];
        let n_ref = varu64::encode(v, &mut reference);

        assert_eq!(n, n_ref);
        assert_eq!(&ours[..n], &reference[..n_ref]);
    }
}

#[test]
fn encode_respects_position() {
    let mut out = vec![0xEEu8; 5];
    let n = yamf_hash::varu64::encode(300, &mut out, 1);
    assert_eq!(n, 3);
    assert_eq!(out, vec![0xEE, 249, 1, 44, 0xEE]);
}

#[test]
fn decode_matches_reference_codec() {
    for &v in SAMPLES.iter() {
        let mut encoded = vec![0u8; 9];
        let n = yamf_hash::varu64::encode(v, &mut encoded, 0);
        encoded.truncate(n);
        encoded.push(0xAB);

        let (value, remaining) = yamf_hash::varu64::decode(&encoded).unwrap();
        let (value_ref, remaining_ref) = varu64::decode(&encoded).unwrap();
        assert_eq!(value, v);
        assert_eq!(value_ref, v);
        assert_eq!(remaining, &[0xAB]);
        assert_eq!(remaining_ref, &[0xAB]);
    }
}

#[test]
fn decode_rejects_what_the_reference_codec_rejects() {
    // Empty, truncated mid-encoding, and overlong (non-canonical) forms.
    let cases: [&[u8]; 5] = [
        &[],
        &[249, 1],
        &[255, 0, 0, 0],
        &[248, 5],
        &[249, 0, 7],
    ];
    for bytes in cases.iter() {
        match yamf_hash::varu64::decode(bytes) {
            Err(Error::DecodeVaru64Error) => {}
            _ => panic!(),
        }
        assert!(varu64::decode(bytes).is_err());
    }
}

#[test]
fn decode_small_values_are_single_bytes() {
    let bytes = [42u8, 9, 9];
    let (value, remaining) = yamf_hash::varu64::decode(&bytes).unwrap();
    assert_eq!(value, 42);
    assert_eq!(remaining, &[9, 9]);
}
