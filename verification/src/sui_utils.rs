//! Ledger-address and transaction-digest helpers at the boundary: the
//! address is the Blake2b-256 hash of a scheme flag and the compressed
//! public key, and the mock transaction digest is the Blake2b-256 hash of
//! an intent prefix over an assembled payload. Only the byte assembly is
//! this crate's own logic; the digest is the backend's.
use vstd::prelude::*;

use vstd::string::StrSliceExecFns;
use vstd::string::StringExecFns;
use vstd::string::StringSliceAdditionalSpecFns;

use crate::crypto::{blake2b256_of, blake2b_256, hex_encode, hex_str_of};

verus! {

/// The ASCII bytes of the mock transaction tag.
pub open spec fn sui_tx_tag() -> Seq<u8> {
    seq![83u8, 85u8, 73u8, 95u8, 84u8, 88u8, 95u8, 86u8, 49u8]
}

/// The `n` low-order base-256 digits of `v`, least significant first.
pub open spec fn le_bytes_of(v: nat, n: nat) -> Seq<u8>
    decreases n,
{
    if n == 0 {
        Seq::empty()
    } else {
        seq![(v % 256) as u8] + le_bytes_of(v / 256, (n - 1) as nat)
    }
}

/// The bytes that are hashed for the mock transaction digest: a three-byte
/// intent prefix, the tag, the sender and recipient bytes, and the amount
/// as eight little-endian bytes.
pub open spec fn sui_tx_intent_message(sender: Seq<u8>, recipient: Seq<u8>, amount: u64) -> Seq<
    u8,
> {
    seq![0u8, 0u8, 0u8] + sui_tx_tag() + sender + recipient + le_bytes_of(amount as nat, 8)
}

/// Derives the ledger address of a compressed public key: `0x` followed by
/// the hex of the Blake2b-256 hash of the scheme flag and the key bytes.
pub fn pubkey_to_sui_address(pubkey_bytes: &Vec<u8>) -> (r: String)
    ensures
        r@ == seq!['0', 'x'] + hex_str_of(blake2b256_of(seq![1u8] + pubkey_bytes@)),
{
    let mut data: Vec<u8> = Vec::new();
    data.push(1u8);
    let mut i: usize = 0;
    while i < pubkey_bytes.len()
        invariant
            i <= pubkey_bytes@.len(),
            data@ =~= seq![1u8] + pubkey_bytes@.take(i as int),
        decreases pubkey_bytes@.len() - i,
    {
        data.push(pubkey_bytes[i]);
        i += 1;
    }
    assert(data@ =~= seq![1u8] + pubkey_bytes@);
    let hash = blake2b_256(&data);
    let digits = hex_encode(&hash);
    let mut out: String = "0x".to_owned();
    proof {
        reveal_strlit("0x");
        assert("0x"@ =~= seq!['0', 'x']);
    }
    out.append(digits.as_str());
    out
}

/// Builds the mock transaction payload for a transfer and returns its
/// 32-byte Blake2b-256 intent digest.
pub fn build_and_hash_sui_tx(sender: &str, recipient: &str, amount: u64) -> (r: Vec<u8>)
    ensures
        r@ == blake2b256_of(
            sui_tx_intent_message(sender.spec_bytes(), recipient.spec_bytes(), amount),
        ),
        r@.len() == 32,
{
    let mut msg: Vec<u8> = Vec::new();
    msg.push(0u8);
    msg.push(0u8);
    msg.push(0u8);
    msg.push(83u8);
    msg.push(85u8);
    msg.push(73u8);
    msg.push(95u8);
    msg.push(84u8);
    msg.push(88u8);
    msg.push(95u8);
    msg.push(86u8);
    msg.push(49u8);
    assert(msg@ =~= seq![0u8, 0u8, 0u8] + sui_tx_tag());
    let sb = sender.as_bytes();
    let mut i: usize = 0;
    while i < sb.len()
        invariant
            i <= sb@.len(),
            sb@ == sender.spec_bytes(),
            msg@ =~= seq![0u8, 0u8, 0u8] + sui_tx_tag() + sender.spec_bytes().take(i as int),
        decreases sb@.len() - i,
    {
        msg.push(sb[i]);
        i += 1;
    }
    assert(msg@ =~= seq![0u8, 0u8, 0u8] + sui_tx_tag() + sender.spec_bytes());
    let rb = recipient.as_bytes();
    let mut j: usize = 0;
    while j < rb.len()
        invariant
            j <= rb@.len(),
            rb@ == recipient.spec_bytes(),
            msg@ =~= seq![0u8, 0u8, 0u8] + sui_tx_tag() + sender.spec_bytes()
                + recipient.spec_bytes().take(j as int),
        decreases rb@.len() - j,
    {
        msg.push(rb[j]);
        j += 1;
    }
    let ghost prefix = seq![0u8, 0u8, 0u8] + sui_tx_tag() + sender.spec_bytes()
        + recipient.spec_bytes();
    assert(msg@ =~= prefix);
    let mut a: u64 = amount;
    let mut n: usize = 0;
    proof {
        vstd::arithmetic::power::lemma_pow0(256);
        assert(amount as int / vstd::arithmetic::power::pow(256, 0) == amount as int);
    }
    while n < 8
        invariant
            n <= 8,
            a as int == amount as int / vstd::arithmetic::power::pow(256, n as nat),
            msg@.len() == prefix.len() + n,
            le_bytes_of(amount as nat, 8) =~= msg@.skip(prefix.len() as int) + le_bytes_of(
                a as nat,
                (8 - n) as nat,
            ),
            msg@.take(prefix.len() as int) =~= prefix,
        decreases 8 - n,
    {
        msg.push((a % 256) as u8);
        proof {
            vstd::arithmetic::power::lemma_pow_positive(256, n as nat);
            vstd::arithmetic::div_mod::lemma_div_denominator(
                amount as int,
                vstd::arithmetic::power::pow(256, n as nat),
                256,
            );
            reveal(vstd::arithmetic::power::pow);
            assert(vstd::arithmetic::power::pow(256, (n + 1) as nat) == 256
                * vstd::arithmetic::power::pow(256, n as nat));
            assert(256 * vstd::arithmetic::power::pow(256, n as nat)
                == vstd::arithmetic::power::pow(256, n as nat) * 256);
        }
        a = a / 256;
        n += 1;
    }
    proof {
        assert(le_bytes_of(a as nat, 0) =~= Seq::<u8>::empty());
        assert(msg@ =~= prefix + le_bytes_of(amount as nat, 8));
        assert(msg@ =~= sui_tx_intent_message(sender.spec_bytes(), recipient.spec_bytes(), amount));
    }
    blake2b_256(&msg)
}

} // verus!
