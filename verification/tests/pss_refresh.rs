use k256::elliptic_curve::Field;
use k256::Scalar;
use rand_core::OsRng;
use sovereign_tee_core::codec::{bytes_to_scalar, encode_scalar};
use sovereign_tee_core::pss::{
    combine_custody, generate_initial_shares, mock_sign_and_verify, perform_pss_refresh,
    refresh_custody, CustodyPair,
};
use sovereign_tee_core::CoreError;

#[test]
fn test_pss_refresh_math() {
    let s1 = Scalar::random(&mut OsRng);
    let s2 = Scalar::random(&mut OsRng);

    let s1_bytes = encode_scalar(&s1);
    let s2_bytes = encode_scalar(&s2);

    let result = perform_pss_refresh(0, &s1_bytes, &s2_bytes).expect("PSS refresh failed");

    let s1_new = bytes_to_scalar(&result.new_dao_share).unwrap();
    let s2_new = bytes_to_scalar(&result.new_tee_share).unwrap();

    let sum_old = s1 + s2;
    let sum_new = s1_new + s2_new;

    assert_eq!(
        sum_old, sum_new,
        "Sum of shares must remain invariant after refresh"
    );
    assert_ne!(s1, s1_new, "Share 1 must change");
    assert_ne!(s2, s2_new, "Share 2 must change");
}

#[test]
fn refresh_concrete_sum() {
    // Shares 5 and 7: whatever the blinding value, the sum decodes to 12.
    let a = encode_scalar(&Scalar::from(5u64));
    let b = encode_scalar(&Scalar::from(7u64));
    let out = perform_pss_refresh(0, &a, &b).unwrap();
    let na = bytes_to_scalar(&out.new_dao_share).unwrap();
    let nb = bytes_to_scalar(&out.new_tee_share).unwrap();
    assert_eq!(na + nb, Scalar::from(12u64));
}

#[test]
fn refresh_rejects_unknown_curve() {
    let a = encode_scalar(&Scalar::from(5u64));
    let b = encode_scalar(&Scalar::from(7u64));
    assert!(matches!(
        perform_pss_refresh(9, &a, &b),
        Err(CoreError::UnsupportedCurve)
    ));
}

#[test]
fn refresh_rejects_invalid_share_encoding() {
    let bad = vec![0xffu8; 32];
    let good = encode_scalar(&Scalar::from(7u64));
    assert!(matches!(
        perform_pss_refresh(0, &bad, &good),
        Err(CoreError::InvalidScalarEncoding)
    ));
}

#[test]
fn custody_pair_refresh_preserves_combined_key() {
    let pair = generate_initial_shares();
    let key_before = combine_custody(&pair);
    let refreshed = refresh_custody(&pair);
    let key_after = combine_custody(&refreshed);
    assert_eq!(key_before, key_after);
    assert_ne!(pair.share_a, refreshed.share_a);
    assert_ne!(pair.share_b, refreshed.share_b);
}

#[test]
fn mock_sign_produces_valid_material() {
    let a = encode_scalar(&Scalar::from(11u64));
    let b = encode_scalar(&Scalar::from(31u64));
    let msg = b"proposal digest".to_vec();
    let (sig_hex, pubkey_hex) = mock_sign_and_verify(&a, &b, &msg).unwrap();
    // A 64-byte signature and a 33-byte compressed public key, hex-encoded.
    assert_eq!(sig_hex.len(), 128);
    assert_eq!(pubkey_hex.len(), 66);

    // The key is the sum of the shares: 42. Check the public key against a
    // direct derivation from that sum.
    let sk = k256::ecdsa::SigningKey::from_slice(&encode_scalar(&Scalar::from(42u64))).unwrap();
    let vk = k256::ecdsa::VerifyingKey::from(&sk);
    let expected_pub = hex::encode(vk.to_encoded_point(true).as_bytes());
    assert_eq!(pubkey_hex, expected_pub);
}

#[test]
fn mock_sign_rejects_zero_key() {
    // Shares that cancel: x and -x sum to the zero scalar, which cannot be
    // a signing key.
    let x = Scalar::from(9u64);
    let a = encode_scalar(&x);
    let b = encode_scalar(&(-x));
    let msg = b"m".to_vec();
    assert!(matches!(
        mock_sign_and_verify(&a, &b, &msg),
        Err(CoreError::PreconditionViolation)
    ));
}

#[test]
fn mock_sign_rejects_bad_encoding() {
    let bad = vec![0xffu8; 32];
    let good = encode_scalar(&Scalar::from(7u64));
    let msg = b"m".to_vec();
    assert!(matches!(
        mock_sign_and_verify(&bad, &good, &msg),
        Err(CoreError::InvalidScalarEncoding)
    ));
}

#[test]
fn genesis_shares_are_usable() {
    let pair = generate_initial_shares();
    let pair2 = CustodyPair {
        share_a: pair.share_a,
        share_b: pair.share_b,
    };
    assert_eq!(combine_custody(&pair), combine_custody(&pair2));
}
