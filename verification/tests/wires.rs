use bls12_381::{G1Affine, G2Affine};
use zktx::wire::{
    decode_point, encode_point, proof_from_bytes, proof_to_bytes, ProofBytes, ProofWire,
};

fn generator_bytes() -> ProofBytes {
    ProofBytes {
        a: G1Affine::generator().to_uncompressed().to_vec(),
        b: G2Affine::generator().to_uncompressed().to_vec(),
        c: G1Affine::generator().to_uncompressed().to_vec(),
    }
}

#[test]
fn point_bytes_are_big_endian_coordinates() {
    let x = [0x0807_0605_0403_0201, 0, 0, 0, 0, 0x1a00_0000_0000_0000];
    let y = [2, 0, 0, 0, 0, 0];
    let bytes = encode_point(&vec![x, y], false).unwrap();
    assert_eq!(bytes.len(), 96);
    assert_eq!(bytes[0], 0x1a);
    assert_eq!(&bytes[1..40], &[0u8; 39][..]);
    assert_eq!(&bytes[40..48], &[8, 7, 6, 5, 4, 3, 2, 1]);
    assert_eq!(&bytes[48..95], &[0u8; 47][..]);
    assert_eq!(bytes[95], 2);
}

#[test]
fn infinity_sets_the_second_bit_of_the_first_byte() {
    let zero = [0u64; 6];
    let bytes = encode_point(&vec![zero, zero], true).unwrap();
    assert_eq!(bytes[0], 0x40);
    assert_eq!(&bytes[1..], &[0u8; 95][..]);
    assert_eq!(bytes, G1Affine::identity().to_uncompressed().to_vec());
    let x = [0, 0, 0, 0, 0, 0x1f00_0000_0000_0000];
    assert_eq!(encode_point(&vec![x], true).unwrap()[0], 0x5f);
}

#[test]
fn coordinate_in_the_flag_bits_cannot_be_encoded() {
    let zero = [0u64; 6];
    let x = [0, 0, 0, 0, 0, 1 << 61];
    assert_eq!(encode_point(&vec![x, zero], false), None);
    assert_eq!(encode_point(&vec![[0, 0, 0, 0, 0, (1 << 61) - 1], zero], false).map(|b| b[0]), Some(0x1f));
    // the flags sit in the first coordinate only
    assert!(encode_point(&vec![zero, x], false).is_some());
    assert_eq!(encode_point(&Vec::new(), false), None);
}

#[test]
fn decode_reads_words_and_flag() {
    let mut bytes = vec![0u8; 96];
    bytes[0] = 0x5a;
    bytes[47] = 1;
    bytes[48] = 0xff;
    bytes[95] = 2;
    let (coords, infinity) = decode_point(&bytes, 2).unwrap();
    assert!(infinity);
    assert_eq!(coords, vec![
        [1, 0, 0, 0, 0, 0x1a00_0000_0000_0000],
        [2, 0, 0, 0, 0, 0xff00_0000_0000_0000],
    ]);
}

#[test]
fn decode_refuses_wrong_lengths_and_flags() {
    assert_eq!(decode_point(&vec![0u8; 95], 2), None);
    assert_eq!(decode_point(&vec![0u8; 97], 2), None);
    assert_eq!(decode_point(&vec![0u8; 96], 1), None);
    assert_eq!(decode_point(&Vec::new(), 0), None);
    assert!(decode_point(&vec![0u8; 96], 2).is_some());
    let mut compressed = vec![0u8; 96];
    compressed[0] = 0x80;
    assert_eq!(decode_point(&compressed, 2), None);
    let mut sorted = vec![0u8; 96];
    sorted[0] = 0x20;
    assert_eq!(decode_point(&sorted, 2), None);
}

#[test]
fn encoding_a_decoded_point_gives_the_bytes_back() {
    let generator = G2Affine::generator().to_uncompressed().to_vec();
    let (coords, infinity) = decode_point(&generator, 4).unwrap();
    assert!(!infinity);
    assert_eq!(encode_point(&coords, infinity), Some(generator));
}

#[test]
fn decoding_an_encoded_point_gives_the_point_back() {
    let coords = vec![
        [1, 2, 3, 4, 5, 6],
        [u64::MAX, 0, u64::MAX, 0, u64::MAX, u64::MAX],
        [0x0123_4567_89ab_cdef, 0, 0, 0, 0, 1 << 63],
    ];
    for infinity in [false, true] {
        let bytes = encode_point(&coords, infinity).unwrap();
        assert_eq!(decode_point(&bytes, 3), Some((coords.clone(), infinity)));
    }
}

#[test]
fn proof_round_trip_from_bytes() {
    let bytes = generator_bytes();
    let wire = proof_from_bytes(&bytes).unwrap();
    let again = proof_to_bytes(&wire).unwrap();
    assert_eq!(again.a, bytes.a);
    assert_eq!(again.b, bytes.b);
    assert_eq!(again.c, bytes.c);
}

#[test]
fn proof_round_trip_from_the_wire() {
    let wire: ProofWire = (
        ([1, 2, 3, 4, 5, 6], [7, 8, 9, 10, 11, 12], false),
        (
            ([13, 14, 15, 16, 17, 18], [19, 20, 21, 22, 23, 24]),
            ([25, 26, 27, 28, 29, 30], [31, 32, 33, 34, 35, 36]),
            true,
        ),
        ([37, 38, 39, 40, 41, 42], [43, 44, 45, 46, 47, 48], false),
    );
    let bytes = proof_to_bytes(&wire).unwrap();
    assert_eq!(bytes.a.len(), 96);
    assert_eq!(bytes.b.len(), 192);
    assert_eq!(bytes.c.len(), 96);
    assert_eq!(proof_from_bytes(&bytes), Some(wire));
}

#[test]
fn second_group_bytes_hold_the_second_component_first() {
    let wire: ProofWire = (
        ([0; 6], [0; 6], false),
        (([1, 0, 0, 0, 0, 0], [2, 0, 0, 0, 0, 0]), ([3, 0, 0, 0, 0, 0], [4, 0, 0, 0, 0, 0]), false),
        ([0; 6], [0; 6], false),
    );
    let bytes = proof_to_bytes(&wire).unwrap();
    assert_eq!(bytes.b[47], 2);
    assert_eq!(bytes.b[95], 1);
    assert_eq!(bytes.b[143], 4);
    assert_eq!(bytes.b[191], 3);
}

#[test]
fn proof_with_a_malformed_point_has_no_bytes_and_no_wire() {
    let zero = [0u64; 6];
    let high = [0, 0, 0, 0, 0, 1 << 62];
    let good = (zero, zero, false);
    let good2 = ((zero, zero), (zero, zero), false);
    assert_eq!(proof_to_bytes(&((high, zero, false), good2, good)).map(|_| ()), None);
    assert_eq!(proof_to_bytes(&(good, ((zero, high), (zero, zero), false), good)).map(|_| ()), None);
    assert_eq!(proof_to_bytes(&(good, good2, (high, zero, false))).map(|_| ()), None);
    // the first component of x comes second in the bytes: no flags there
    assert!(proof_to_bytes(&(good, ((high, zero), (zero, zero), false), good)).is_some());
    let mut bytes = generator_bytes();
    bytes.b.pop();
    assert_eq!(proof_from_bytes(&bytes), None);
    let mut bytes = generator_bytes();
    bytes.c[0] |= 0x80;
    assert_eq!(proof_from_bytes(&bytes), None);
}
