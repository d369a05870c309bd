//! Additive two-party custody of the signing key, and its proactive
//! refresh: the key is the field sum of two shares, and a refresh
//! re-randomizes both shares without changing that sum. After a refresh the
//! old share values must be treated as permanently revoked by their
//! holders; the core cannot enforce that obligation.
use vstd::arithmetic::div_mod::{lemma_add_mod_noop, lemma_mod_multiples_vanish};
use vstd::prelude::*;

use crate::codec::{bytes_to_scalar, decode_ok, decoded_nat, encode_scalar, lemma_codec_round_trip};
use crate::crypto::{
    ecdsa_endorsement_check, ecdsa_pubkey, ecdsa_sign, hex_encode, hex_str_of, pubkey_of, sig_of,
};
use crate::field::{
    add_mod, be_bytes_of, group_order, scalar_add, scalar_as_nat, scalar_random, scalar_sub,
    sub_mod,
};
use crate::CoreError;

verus! {

/// Two secret shares whose field sum is the signing key. The key itself is
/// never stored; it is derived transiently by `combine_custody` inside a
/// signing operation and discarded with that operation's scope.
pub struct CustodyPair {
    pub share_a: k256::Scalar,
    pub share_b: k256::Scalar,
}

/// The field sum the pair stands for: the signing key's residue.
pub open spec fn custody_sum(pair: CustodyPair) -> nat {
    add_mod(scalar_as_nat(pair.share_a), scalar_as_nat(pair.share_b))
}

/// The refreshed share pair, in the canonical byte encoding.
pub struct RefreshedShares {
    pub new_dao_share: Vec<u8>,
    pub new_tee_share: Vec<u8>,
}

/// Samples a custody pair at genesis: two independent uniformly random
/// shares. Their sum, the signing key, is never computed here.
pub fn generate_initial_shares() -> (r: CustodyPair)
    ensures
        scalar_as_nat(r.share_a) < group_order(),
        scalar_as_nat(r.share_b) < group_order(),
{
    CustodyPair { share_a: scalar_random(), share_b: scalar_random() }
}

/// Derives the signing key from the pair: the field sum of the two shares.
/// Callers must treat the result as ephemeral, used at once and discarded.
pub fn combine_custody(pair: &CustodyPair) -> (r: k256::Scalar)
    ensures
        scalar_as_nat(r) == custody_sum(*pair),
        scalar_as_nat(r) < group_order(),
{
    scalar_add(&pair.share_a, &pair.share_b)
}

/// Law (refresh sum invariance): blinding one share by `d` and unblinding
/// the other preserves the field sum, for every pair of residues and every
/// blinding value.
pub proof fn lemma_refresh_preserves_sum(a: nat, b: nat, d: nat)
    requires
        d < group_order(),
    ensures
        add_mod(add_mod(a, d), sub_mod(b, d)) == add_mod(a, b),
{
    let p = group_order() as int;
    lemma_add_mod_noop((a + d) as int, b + group_order() - d, p);
    lemma_mod_multiples_vanish(1, (a + b) as int, p);
}

/// Re-randomizes a custody pair with a fresh uniformly random blinding
/// value: the components change (with overwhelming probability) but their
/// sum, and hence any publicly derived key, does not.
pub fn refresh_custody(pair: &CustodyPair) -> (r: CustodyPair)
    ensures
        custody_sum(r) == custody_sum(*pair),
        scalar_as_nat(r.share_a) < group_order(),
        scalar_as_nat(r.share_b) < group_order(),
{
    let delta = scalar_random();
    let new_a = scalar_add(&pair.share_a, &delta);
    let new_b = scalar_sub(&pair.share_b, &delta);
    proof {
        lemma_refresh_preserves_sum(
            scalar_as_nat(pair.share_a),
            scalar_as_nat(pair.share_b),
            scalar_as_nat(delta),
        );
    }
    CustodyPair { share_a: new_a, share_b: new_b }
}

/// Refreshes an encoded share pair on the named curve (only curve `0`,
/// secp256k1, is supported). Decodes both shares, re-randomizes them with
/// one blinding value, and re-encodes canonically; the decoded sum of the
/// output equals the decoded sum of the input.
pub fn perform_pss_refresh(curve: u32, dao_share_bytes: &[u8], tee_share_bytes: &[u8]) -> (r:
    Result<RefreshedShares, CoreError>)
    ensures
        (r is Ok) <==> (curve == 0 && decode_ok(dao_share_bytes@) && decode_ok(
            tee_share_bytes@,
        )),
        curve != 0 ==> (r matches Err(e) && e == CoreError::UnsupportedCurve),
        (curve == 0 && !(decode_ok(dao_share_bytes@) && decode_ok(tee_share_bytes@))) ==> (
        r matches Err(e) && e == CoreError::InvalidScalarEncoding),
        (r matches Ok(out) ==> out.new_dao_share@.len() == 32 && out.new_tee_share@.len() == 32
            && decode_ok(out.new_dao_share@) && decode_ok(out.new_tee_share@) && add_mod(
            decoded_nat(out.new_dao_share@),
            decoded_nat(out.new_tee_share@),
        ) == add_mod(decoded_nat(dao_share_bytes@), decoded_nat(tee_share_bytes@))),
{
    if curve != 0 {
        return Err(CoreError::UnsupportedCurve);
    }
    let s_dao = match bytes_to_scalar(dao_share_bytes) {
        Ok(s) => s,
        Err(e) => {
            return Err(e);
        },
    };
    let s_tee = match bytes_to_scalar(tee_share_bytes) {
        Ok(s) => s,
        Err(e) => {
            return Err(e);
        },
    };
    let pair = CustodyPair { share_a: s_dao, share_b: s_tee };
    let refreshed = refresh_custody(&pair);
    let new_dao = encode_scalar(&refreshed.share_a);
    let new_tee = encode_scalar(&refreshed.share_b);
    proof {
        lemma_codec_round_trip(scalar_as_nat(refreshed.share_a));
        lemma_codec_round_trip(scalar_as_nat(refreshed.share_b));
    }
    Ok(RefreshedShares { new_dao_share: new_dao, new_tee_share: new_tee })
}

/// Reconstructs the signing key from the two encoded custody shares, signs
/// the message with it, self-checks the signature, and returns the
/// hex-encoded signature and compressed public key. A local stand-in for
/// the remote signing protocol, intended only for testing and
/// verification; the combined key lives only inside this call.
pub fn mock_sign_and_verify(dao_share_bytes: &[u8], tee_share_bytes: &[u8], message: &[u8]) -> (r:
    Result<(String, String), CoreError>)
    ensures
        (r is Ok) <==> (decode_ok(dao_share_bytes@) && decode_ok(tee_share_bytes@) && add_mod(
            decoded_nat(dao_share_bytes@),
            decoded_nat(tee_share_bytes@),
        ) != 0),
        !(decode_ok(dao_share_bytes@) && decode_ok(tee_share_bytes@)) ==> (r matches Err(e) && e
            == CoreError::InvalidScalarEncoding),
        (decode_ok(dao_share_bytes@) && decode_ok(tee_share_bytes@) && add_mod(
            decoded_nat(dao_share_bytes@),
            decoded_nat(tee_share_bytes@),
        ) == 0) ==> (r matches Err(e) && e == CoreError::PreconditionViolation),
        (r matches Ok(out) ==> out.0@ == hex_str_of(
            sig_of(
                be_bytes_of(
                    add_mod(decoded_nat(dao_share_bytes@), decoded_nat(tee_share_bytes@)),
                    32,
                ),
                message@,
            ),
        ) && out.1@ == hex_str_of(
            pubkey_of(
                be_bytes_of(
                    add_mod(decoded_nat(dao_share_bytes@), decoded_nat(tee_share_bytes@)),
                    32,
                ),
            ),
        )),
{
    let s_dao = match bytes_to_scalar(dao_share_bytes) {
        Ok(s) => s,
        Err(e) => {
            return Err(e);
        },
    };
    let s_tee = match bytes_to_scalar(tee_share_bytes) {
        Ok(s) => s,
        Err(e) => {
            return Err(e);
        },
    };
    let pair = CustodyPair { share_a: s_dao, share_b: s_tee };
    let key = combine_custody(&pair);
    let key_bytes = encode_scalar(&key);
    proof {
        lemma_codec_round_trip(scalar_as_nat(key));
    }
    let pk = match ecdsa_pubkey(&key_bytes) {
        Some(p) => p,
        None => {
            return Err(CoreError::PreconditionViolation);
        },
    };
    let sig = ecdsa_sign(&key_bytes, message).unwrap();
    let sig_hex = hex_encode(&sig);
    let pubkey_hex = hex_encode(&pk);
    let self_check = ecdsa_endorsement_check(&pk, message, &sig);
    if !self_check {
        proof {
            assert(false);
        }
        return Err(CoreError::PreconditionViolation);
    }
    Ok((sig_hex, pubkey_hex))
}

} // verus!
