//! Trusted boundary to the byte-level cryptographic backends: hex
//! encoding, ECDSA key handling and signatures, and the Blake2b-256
//! digest. Hex has an exact specification; the key derivation, the
//! deterministic signature and the digest are named functions of their
//! byte arguments, since writing their algorithms out here would state
//! nothing checkable.
use vstd::prelude::*;

use blake2::Digest;
use k256::ecdsa::signature::{Signer, Verifier};

use crate::field::{group_order, nat_of_be};

verus! {

/// The lowercase hex digit for a value below 16.
pub open spec fn hex_char_of(v: nat) -> char {
    seq!['0', '1', '2', '3', '4', '5', '6', '7', '8', '9', 'a', 'b', 'c', 'd', 'e', 'f'][v as int]
}

/// The lowercase hex string of a byte sequence: two digits per byte, high
/// nibble first.
pub open spec fn hex_str_of(bytes: Seq<u8>) -> Seq<char> {
    Seq::new(
        bytes.len() * 2,
        |i: int|
            if i % 2 == 0 {
                hex_char_of((bytes[i / 2] as nat) / 16)
            } else {
                hex_char_of((bytes[i / 2] as nat) % 16)
            },
    )
}

/// Whether a character is a hex digit, in either case.
pub open spec fn is_hex_digit(c: char) -> bool {
    (48 <= c as u32 && c as u32 <= 57) || (97 <= c as u32 && c as u32 <= 102) || (65 <= c as u32
        && c as u32 <= 70)
}

/// The numeric value of a hex digit.
pub open spec fn hex_val(c: char) -> nat {
    if 48 <= c as u32 && c as u32 <= 57 {
        (c as u32 - 48) as nat
    } else if 97 <= c as u32 && c as u32 <= 102 {
        (c as u32 - 87) as nat
    } else {
        (c as u32 - 55) as nat
    }
}

/// Whether a string is a well-formed hex encoding: even length, hex digits
/// throughout.
pub open spec fn is_hex_seq(s: Seq<char>) -> bool {
    s.len() % 2 == 0 && (forall|i: int| 0 <= i < s.len() ==> is_hex_digit(#[trigger] s[i]))
}

/// The bytes a well-formed hex string decodes to.
pub open spec fn bytes_of_hex(s: Seq<char>) -> Seq<u8> {
    Seq::new(s.len() / 2, |i: int| (hex_val(s[2 * i]) * 16 + hex_val(s[2 * i + 1])) as u8)
}

/// Relies on `hex::encode`: two lowercase digits per byte, high nibble
/// first.
#[verifier::external_body]
pub(crate) fn hex_encode(bytes: &Vec<u8>) -> (r: String)
    ensures
        r@ == hex_str_of(bytes@),
{
    hex::encode(bytes)
}

/// Relies on `hex::decode`: accepts exactly the even-length strings of hex
/// digits (either case) and returns their bytes.
#[verifier::external_body]
pub(crate) fn hex_decode(s: &String) -> (r: Option<Vec<u8>>)
    ensures
        (r is Some) <==> is_hex_seq(s@),
        (r matches Some(b) ==> b@ == bytes_of_hex(s@)),
{
    match hex::decode(s.as_str()) {
        Ok(v) => Some(v),
        Err(_) => None,
    }
}

/// What compressed SEC1 public-key derivation returns for a 32-byte
/// big-endian secret key: a function of the key bytes alone.
pub uninterp spec fn pubkey_of(sk: Seq<u8>) -> Seq<u8>;

/// What RFC 6979 deterministic ECDSA signing returns for a secret key and
/// a message: a function of the two alone.
pub uninterp spec fn sig_of(sk: Seq<u8>, msg: Seq<u8>) -> Seq<u8>;

/// Whether an endorsement passes: the public key parses as a SEC1 point,
/// the signature parses as a fixed-width scalar pair, and ECDSA
/// verification of the message under that key succeeds. A function of the
/// three byte strings alone.
pub uninterp spec fn endorsement_check(pubkey: Seq<u8>, msg: Seq<u8>, sig: Seq<u8>) -> bool;

/// Relies on `ecdsa::SigningKey::random` over the operating system's
/// entropy source, and `to_bytes`: a uniformly random nonzero secret key,
/// as 32 big-endian bytes.
#[verifier::external_body]
pub(crate) fn ecdsa_keygen() -> (r: Vec<u8>)
    ensures
        r@.len() == 32,
        0 < nat_of_be(r@) < group_order(),
{
    k256::ecdsa::SigningKey::random(&mut rand_core::OsRng).to_bytes().to_vec()
}

/// Relies on `ecdsa::SigningKey::from_slice` (for a 32-byte input, accepts
/// exactly the nonzero canonical scalars) and
/// `VerifyingKey::to_encoded_point`: the 33-byte compressed SEC1 encoding
/// of the matching public key.
#[verifier::external_body]
pub(crate) fn ecdsa_pubkey(sk: &Vec<u8>) -> (r: Option<Vec<u8>>)
    requires
        sk@.len() == 32,
    ensures
        (r is Some) <==> 0 < nat_of_be(sk@) < group_order(),
        (r matches Some(pk) ==> pk@ == pubkey_of(sk@) && pk@.len() == 33),
{
    match k256::ecdsa::SigningKey::from_slice(sk.as_slice()) {
        Ok(k) => Some(k.verifying_key().to_encoded_point(true).as_bytes().to_vec()),
        Err(_) => None,
    }
}

/// Relies on `ecdsa::SigningKey::sign` (RFC 6979, deterministic) and
/// `Signature::to_bytes`: the 64-byte signature is a function of the key
/// and message, and verifies under the matching public key.
#[verifier::external_body]
pub(crate) fn ecdsa_sign(sk: &Vec<u8>, msg: &[u8]) -> (r: Option<Vec<u8>>)
    requires
        sk@.len() == 32,
    ensures
        (r is Some) <==> 0 < nat_of_be(sk@) < group_order(),
        (r matches Some(sig) ==> sig@ == sig_of(sk@, msg@) && sig@.len() == 64
            && endorsement_check(pubkey_of(sk@), msg@, sig@)),
{
    match k256::ecdsa::SigningKey::from_slice(sk.as_slice()) {
        Ok(k) => {
            let sig: k256::ecdsa::Signature = k.sign(msg);
            Some(sig.to_bytes().to_vec())
        },
        Err(_) => None,
    }
}

/// Relies on `VerifyingKey::from_sec1_bytes`, `Signature::from_slice` and
/// `Verifier::verify`: true exactly when the key and the signature parse
/// and the signature verifies for this message.
#[verifier::external_body]
pub(crate) fn ecdsa_endorsement_check(pubkey: &Vec<u8>, msg: &[u8], sig: &Vec<u8>) -> (r: bool)
    ensures
        r == endorsement_check(pubkey@, msg@, sig@),
{
    let vk = match k256::ecdsa::VerifyingKey::from_sec1_bytes(pubkey.as_slice()) {
        Ok(v) => v,
        Err(_) => return false,
    };
    let parsed = match k256::ecdsa::Signature::from_slice(sig.as_slice()) {
        Ok(s) => s,
        Err(_) => return false,
    };
    vk.verify(msg, &parsed).is_ok()
}

/// What the Blake2b-256 digest returns: a function of the input bytes.
pub uninterp spec fn blake2b256_of(data: Seq<u8>) -> Seq<u8>;

/// Relies on `blake2::Blake2b` with a 32-byte output size: the digest is
/// 32 bytes and a function of the input alone.
#[verifier::external_body]
pub(crate) fn blake2b_256(data: &Vec<u8>) -> (r: Vec<u8>)
    ensures
        r@ == blake2b256_of(data@),
        r@.len() == 32,
{
    blake2::Blake2b::<blake2::digest::consts::U32>::digest(data.as_slice()).to_vec()
}

} // verus!
