use sovereign_tee_core::dao::{DaoGroup, Member};
use sovereign_tee_core::CoreError;

fn group_of_three() -> DaoGroup {
    DaoGroup {
        threshold: 2,
        members: vec![Member::new("alice"), Member::new("bob"), Member::new("carol")],
    }
}

fn endorse(group: &DaoGroup, idx: usize, message: &[u8]) -> (String, String) {
    let member = &group.members[idx];
    (member.name.clone(), member.sign(message).unwrap())
}

fn tamper(sig_hex: &str) -> String {
    // Flip the first hex digit while staying well-formed hex, so the entry
    // still parses but verification fails.
    let mut chars: Vec<char> = sig_hex.chars().collect();
    chars[0] = if chars[0] == '0' { '1' } else { '0' };
    chars.into_iter().collect()
}

#[test]
fn scenario_two_of_three_quorum() {
    let group = group_of_three();
    let message = b"transfer 100 to 0xRecipient";

    // Two cryptographically valid endorsements meet the threshold.
    let sigs = vec![endorse(&group, 0, message), endorse(&group, 1, message)];
    assert!(group.verify_proposal(message, &sigs));

    // One valid and one tampered endorsement do not.
    let good = endorse(&group, 0, message);
    let (bob, bob_sig) = endorse(&group, 1, message);
    let sigs = vec![good, (bob, tamper(&bob_sig))];
    assert!(!group.verify_proposal(message, &sigs));
}

#[test]
fn quorum_threshold_boundary() {
    let group = group_of_three();
    let message = b"gated action";

    for m in 0..4usize {
        let sigs: Vec<(String, String)> =
            (0..m).map(|i| endorse(&group, i % 3, message)).collect();
        let expected = m >= group.threshold;
        assert_eq!(group.verify_proposal(message, &sigs), expected);
    }
}

#[test]
fn unknown_and_malformed_entries_are_skipped() {
    let group = group_of_three();
    let message = b"gated action";

    let valid = endorse(&group, 0, message);
    let (_, sig) = endorse(&group, 1, message);

    // A name absent from the roster is skipped, not fatal.
    let sigs = vec![valid.clone(), ("mallory".to_string(), sig.clone())];
    assert!(!group.verify_proposal(message, &sigs));

    // A signature that is not even hex is skipped, not fatal.
    let sigs = vec![valid.clone(), (group.members[1].name.clone(), "zz".to_string())];
    assert!(!group.verify_proposal(message, &sigs));

    // The valid entries still count around the bad one.
    let sigs = vec![
        valid,
        ("mallory".to_string(), sig),
        endorse(&group, 1, message),
    ];
    assert!(group.verify_proposal(message, &sigs));
}

#[test]
fn repeated_name_counts_once() {
    let group = group_of_three();
    let message = b"gated action";
    let alice = endorse(&group, 0, message);
    let sigs = vec![alice.clone(), alice];
    assert!(!group.verify_proposal(message, &sigs));
}

#[test]
fn signatures_bind_the_message() {
    let group = group_of_three();
    let sigs = vec![
        endorse(&group, 0, b"message one"),
        endorse(&group, 1, b"message one"),
    ];
    assert!(group.verify_proposal(b"message one", &sigs));
    assert!(!group.verify_proposal(b"message two", &sigs));
}

#[test]
fn member_sign_rejects_malformed_key() {
    let member = Member {
        name: "broken".to_string(),
        pubkey_hex: String::new(),
        privkey_hex: "zz".to_string(),
    };
    assert_eq!(
        member.sign(b"m"),
        Err(CoreError::InvalidScalarEncoding)
    );

    // A key of the wrong width is rejected too.
    let member = Member {
        name: "short".to_string(),
        pubkey_hex: String::new(),
        privkey_hex: "abcd".to_string(),
    };
    assert_eq!(
        member.sign(b"m"),
        Err(CoreError::InvalidScalarEncoding)
    );
}

#[test]
fn member_keys_are_well_formed() {
    let member = Member::new("dana");
    assert_eq!(member.name, "dana");
    assert_eq!(member.privkey_hex.len(), 64);
    assert_eq!(member.pubkey_hex.len(), 66);
    // The stored public key matches a direct derivation from the stored
    // private key.
    let sk_bytes = hex::decode(&member.privkey_hex).unwrap();
    let sk = k256::ecdsa::SigningKey::from_slice(&sk_bytes).unwrap();
    let vk = k256::ecdsa::VerifyingKey::from(&sk);
    assert_eq!(
        member.pubkey_hex,
        hex::encode(vk.to_encoded_point(true).as_bytes())
    );
}
