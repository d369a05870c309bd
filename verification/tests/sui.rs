use blake2::Digest;
use k256::ecdsa::{SigningKey, VerifyingKey};
use k256::Scalar;
use sovereign_tee_core::sui_utils::{build_and_hash_sui_tx, pubkey_to_sui_address};

type Blake2b256 = blake2::Blake2b<blake2::digest::consts::U32>;

#[test]
fn test_sui_address_generation() {
    // Test vector: the keypair for private key 1.
    let one = Scalar::ONE;
    let signing_key = SigningKey::from_bytes(&one.to_bytes()).unwrap();
    let verifying_key = VerifyingKey::from(&signing_key);
    let pubkey_bytes = verifying_key.to_encoded_point(true).as_bytes().to_vec();

    let addr = pubkey_to_sui_address(&pubkey_bytes);
    assert!(addr.starts_with("0x"));
    assert_eq!(addr.len(), 66); // 0x + 64 hex chars (32 bytes)
}

#[test]
fn test_sui_tx_hashing() {
    let hash = build_and_hash_sui_tx("0xSender", "0xRecipient", 100);
    assert_eq!(hash.len(), 32); // Blake2b-256
}

#[test]
fn address_matches_direct_digest() {
    let pubkey_bytes = vec![7u8; 33];
    let addr = pubkey_to_sui_address(&pubkey_bytes);

    let mut data = vec![0x01u8];
    data.extend_from_slice(&pubkey_bytes);
    let digest = Blake2b256::digest(&data);
    let expected = format!("0x{}", hex::encode(digest));
    assert_eq!(addr, expected);
}

#[test]
fn tx_digest_matches_direct_digest() {
    let sender = "0xSender";
    let recipient = "0xRecipient";
    let amount: u64 = 100;

    let mut payload = vec![0u8, 0u8, 0u8];
    payload.extend_from_slice(b"SUI_TX_V1");
    payload.extend_from_slice(sender.as_bytes());
    payload.extend_from_slice(recipient.as_bytes());
    payload.extend_from_slice(&amount.to_le_bytes());
    let expected = Blake2b256::digest(&payload).to_vec();

    assert_eq!(build_and_hash_sui_tx(sender, recipient, amount), expected);
}

#[test]
fn service_handle_reports_its_curve() {
    let service = sovereign_tee_core::tee_service::TeeMpcService::new(0);
    assert_eq!(service.curve(), 0);
    let store = sovereign_tee_core::tee_service::TeeKeyStore {
        share_encryption_key: vec![1u8],
        share_decryption_key: vec![2u8],
        dwallet_secret_share: None,
    };
    assert!(store.dwallet_secret_share.is_none());
}
