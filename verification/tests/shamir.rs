use k256::elliptic_curve::Field;
use k256::Scalar;
use rand_core::OsRng;
use sovereign_tee_core::sharding::{power, recover_secret, split_secret};
use sovereign_tee_core::CoreError;

#[test]
fn test_shamir_secret_sharing() {
    let secret = Scalar::random(&mut OsRng);

    // Split into 5 shares, threshold 3
    let shares = split_secret(&secret, 3, 5).unwrap();
    assert_eq!(shares.len(), 5);

    // Recover with 3 shares (should succeed)
    let subset_3 = shares[0..3].to_vec();
    let recovered_3 = recover_secret(&subset_3).expect("Recovery failed with k=3");
    assert_eq!(
        secret, recovered_3,
        "Secret recovered with k shares must match"
    );

    // Recover with 5 shares (should succeed)
    let recovered_5 = recover_secret(&shares).expect("Recovery failed with k=5");
    assert_eq!(
        secret, recovered_5,
        "Secret recovered with n shares must match"
    );

    // Recover with 2 shares (should produce a wrong result)
    let subset_2 = shares[0..2].to_vec();
    let recovered_2 = recover_secret(&subset_2).expect("Math should run");
    assert_ne!(
        secret, recovered_2,
        "Recovering with < k shares must fail to match secret"
    );
}

#[test]
fn scenario_split_one_and_reconstruct() {
    // Secret = field element 1, split 3-of-5.
    let secret = Scalar::ONE;
    let shares = split_secret(&secret, 3, 5).unwrap();
    assert_eq!(shares.len(), 5);
    for (i, share) in shares.iter().enumerate() {
        assert_eq!(share.0, i + 1);
    }

    // Any 3 of the 5 reconstruct the secret: indices {1, 3, 5}.
    let subset = vec![shares[0], shares[2], shares[4]];
    let recovered = recover_secret(&subset).unwrap();
    assert_eq!(recovered, Scalar::ONE);

    // Indices {1, 2} are below threshold: some value different from 1.
    let short = vec![shares[0], shares[1]];
    let wrong = recover_secret(&short).unwrap();
    assert_ne!(wrong, Scalar::ONE);
}

#[test]
fn fixed_vector_reconstruction() {
    // Deterministic check against a hand-built polynomial f(x) = 7 + 2x:
    // shares are (1, 9), (2, 11), (3, 13).
    let shares = vec![
        (1usize, Scalar::from(9u64)),
        (2usize, Scalar::from(11u64)),
        (3usize, Scalar::from(13u64)),
    ];
    assert_eq!(recover_secret(&shares).unwrap(), Scalar::from(7u64));

    // Any 2 of them determine the degree-1 polynomial.
    let two = vec![shares[0], shares[2]];
    assert_eq!(recover_secret(&two).unwrap(), Scalar::from(7u64));

    // A single share of a threshold-2 polynomial interpolates to its own
    // value, not the secret.
    let one = vec![shares[0]];
    assert_eq!(recover_secret(&one).unwrap(), Scalar::from(9u64));
    assert_ne!(recover_secret(&one).unwrap(), Scalar::from(7u64));
}

#[test]
fn duplicate_index_rejected() {
    let shares = vec![
        (1usize, Scalar::from(9u64)),
        (1usize, Scalar::from(11u64)),
    ];
    assert_eq!(
        recover_secret(&shares),
        Err(CoreError::DuplicateOrDegenerateShareIndex)
    );

    let empty: Vec<(usize, Scalar)> = Vec::new();
    assert_eq!(
        recover_secret(&empty),
        Err(CoreError::DuplicateOrDegenerateShareIndex)
    );
}

#[test]
fn split_rejects_threshold_above_total() {
    let secret = Scalar::from(5u64);
    assert!(matches!(
        split_secret(&secret, 6, 5),
        Err(CoreError::PreconditionViolation)
    ));
    // The boundary itself is accepted.
    assert_eq!(split_secret(&secret, 5, 5).unwrap().len(), 5);
}

#[test]
fn power_matches_field_exponentiation() {
    let b = Scalar::from(3u64);
    assert_eq!(power(&b, 0), Scalar::ONE);
    assert_eq!(power(&b, 1), b);
    assert_eq!(power(&b, 5), Scalar::from(243u64));
}
