use k256::Scalar;
use sovereign_tee_core::codec::{bytes_to_scalar, encode_scalar};
use sovereign_tee_core::CoreError;

/// The canonical big-endian encoding of the secp256k1 scalar-field order.
fn order_be_bytes() -> Vec<u8> {
    hex::decode("fffffffffffffffffffffffffffffffebaaedce6af48a03bbfd25e8cd0364141").unwrap()
}

#[test]
fn scenario_canonical_round_trip_of_one() {
    // Encode the scalar 1: exactly 31 zero bytes then 0x01.
    let bytes = encode_scalar(&Scalar::ONE);
    let mut expected = vec![0u8; 31];
    expected.push(1u8);
    assert_eq!(bytes, expected);

    // Decoding the canonical 32-byte big-endian form returns the same
    // scalar.
    assert_eq!(bytes_to_scalar(&bytes).unwrap(), Scalar::ONE);
}

#[test]
fn scenario_foreign_little_endian_decodes() {
    // A 33-byte little-endian foreign encoding of the same logical value 1:
    // the adapter truncates to width and reverses before reading.
    let mut foreign = vec![0u8; 33];
    foreign[0] = 1u8;
    assert_eq!(bytes_to_scalar(&foreign).unwrap(), Scalar::ONE);
}

#[test]
fn short_foreign_encoding_decodes() {
    // A 1-byte foreign (little-endian) encoding is zero-padded to width.
    let foreign = vec![1u8];
    assert_eq!(bytes_to_scalar(&foreign).unwrap(), Scalar::ONE);
}

#[test]
fn decode_rejects_out_of_range_value() {
    // The order itself is not a canonical residue.
    assert_eq!(
        bytes_to_scalar(&order_be_bytes()),
        Err(CoreError::InvalidScalarEncoding)
    );

    // The order minus one is.
    let mut below = order_be_bytes();
    let last = below.len() - 1;
    below[last] -= 1;
    let s = bytes_to_scalar(&below).unwrap();
    assert_eq!(encode_scalar(&s), below);
}

#[test]
fn round_trip_arbitrary_scalar() {
    let x = Scalar::from(0xdead_beef_0102_0304u64);
    let enc = encode_scalar(&x);
    assert_eq!(enc.len(), 32);
    assert_eq!(bytes_to_scalar(&enc).unwrap(), x);
}
