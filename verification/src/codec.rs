//! Canonical scalar encoding: the single wire format every layer converges
//! to is the fixed-width (32-byte) big-endian form of a canonical residue.
//! Decoding also absorbs the known foreign format: a buffer that is not
//! exactly canonical width is a little-endian, possibly oversized or
//! undersized encoding, and is truncated or zero-padded to width and then
//! byte-reversed before being read. Foreign inputs are lossy by design:
//! only a canonical input is reproduced byte-for-byte by re-encoding.
use vstd::arithmetic::div_mod::{lemma_breakdown, lemma_small_mod};
use vstd::arithmetic::power::{lemma_pow_positive, pow};
use vstd::prelude::*;

use crate::field::{
    be_bytes_of, group_order, nat_of_be, scalar_as_nat, scalar_from_be_bytes, scalar_to_bytes,
};
use crate::CoreError;

verus! {

/// The bytes actually read as big-endian: the input itself when it is
/// canonical width, otherwise the foreign adjustment described above.
pub open spec fn canonical_form(b: Seq<u8>) -> Seq<u8> {
    if b.len() == 32 {
        b
    } else {
        let padded = if b.len() > 32 {
            b.take(32)
        } else {
            b + Seq::new((32 - b.len()) as nat, |i: int| 0u8)
        };
        padded.reverse()
    }
}

/// The integer a byte buffer decodes to, before the range check.
pub open spec fn decoded_nat(b: Seq<u8>) -> nat {
    nat_of_be(canonical_form(b))
}

/// Whether a byte buffer decodes to a valid scalar: its integer must be a
/// canonical residue.
pub open spec fn decode_ok(b: Seq<u8>) -> bool {
    decoded_nat(b) < group_order()
}

/// `be_bytes_of` always has the width it was asked for.
pub proof fn lemma_be_bytes_len(v: nat, n: nat)
    ensures
        be_bytes_of(v, n).len() == n,
    decreases n,
{
    if n > 0 {
        lemma_be_bytes_len(v / 256, (n - 1) as nat);
    }
}

/// Reading big-endian bytes back gives the value they were made from,
/// reduced to the width.
pub proof fn lemma_nat_of_be_be_bytes(v: nat, n: nat)
    ensures
        nat_of_be(be_bytes_of(v, n)) == v % (pow(256, n) as nat),
    decreases n,
{
    reveal(pow);
    if n == 0 {
        assert(pow(256, 0) == 1);
        assert(v % 1 == 0);
    } else {
        let s = be_bytes_of(v / 256, (n - 1) as nat);
        let b = (v % 256) as u8;
        lemma_nat_of_be_be_bytes(v / 256, (n - 1) as nat);
        assert(s.push(b).drop_last() =~= s);
        assert(s.push(b).last() == b);
        lemma_pow_positive(256, (n - 1) as nat);
        lemma_breakdown(v as int, 256, pow(256, (n - 1) as nat));
        assert(pow(256, n) == 256 * pow(256, (n - 1) as nat));
    }
}

/// Law: the codec round-trips every valid scalar. The canonical encoding
/// of a residue below the order is canonical width, passes the decoder's
/// range check, and decodes to the same residue.
pub proof fn lemma_codec_round_trip(v: nat)
    requires
        v < group_order(),
    ensures
        be_bytes_of(v, 32).len() == 32,
        decode_ok(be_bytes_of(v, 32)),
        decoded_nat(be_bytes_of(v, 32)) == v,
{
    lemma_be_bytes_len(v, 32);
    lemma_nat_of_be_be_bytes(v, 32);
    assert(pow(256, 32) == 0x10000000000000000000000000000000000000000000000000000000000000000) by {
        reveal_with_fuel(pow, 33);
    }
    lemma_small_mod(v, pow(256, 32) as nat);
}

/// Decodes a byte buffer to a scalar under the adapter policy above.
/// Fails exactly when the integer that is read is not below the order.
pub fn bytes_to_scalar(bytes: &[u8]) -> (r: Result<k256::Scalar, CoreError>)
    ensures
        (r is Ok) <==> decode_ok(bytes@),
        (r matches Ok(s) ==> scalar_as_nat(s) == decoded_nat(bytes@) && scalar_as_nat(s)
            < group_order()),
        (r matches Err(e) ==> e == CoreError::InvalidScalarEncoding),
{
    let n = bytes.len();
    let mut buf: Vec<u8> = Vec::new();
    if n == 32 {
        let mut i: usize = 0;
        while i < 32
            invariant
                i <= 32,
                bytes@.len() == 32,
                buf@ =~= bytes@.take(i as int),
            decreases 32 - i,
        {
            buf.push(bytes[i]);
            i += 1;
        }
        assert(buf@ =~= canonical_form(bytes@));
    } else {
        let mut tmp: Vec<u8> = Vec::new();
        let m: usize = if n > 32 {
            32
        } else {
            n
        };
        let mut i: usize = 0;
        while i < m
            invariant
                i <= m,
                m <= 32,
                m <= bytes@.len(),
                tmp@ =~= bytes@.take(i as int),
            decreases m - i,
        {
            tmp.push(bytes[i]);
            i += 1;
        }
        while tmp.len() < 32
            invariant
                m <= tmp@.len() <= 32,
                tmp@ =~= bytes@.take(m as int) + Seq::new((tmp@.len() - m) as nat, |k: int| 0u8),
            decreases 32 - tmp@.len(),
        {
            tmp.push(0u8);
        }
        proof {
            let padded = if bytes@.len() > 32 {
                bytes@.take(32)
            } else {
                bytes@ + Seq::new((32 - bytes@.len()) as nat, |k: int| 0u8)
            };
            assert(tmp@ =~= padded);
        }
        let mut i: usize = 0;
        while i < 32
            invariant
                i <= 32,
                tmp@.len() == 32,
                buf@.len() == i,
                forall|k: int| 0 <= k < i ==> buf@[k] == tmp@[31 - k],
            decreases 32 - i,
        {
            buf.push(tmp[31 - i]);
            i += 1;
        }
        assert(buf@ =~= tmp@.reverse());
        assert(buf@ =~= canonical_form(bytes@));
    }
    match scalar_from_be_bytes(&buf) {
        Some(s) => Ok(s),
        None => Err(CoreError::InvalidScalarEncoding),
    }
}

/// Encodes a scalar in the canonical fixed-width big-endian form. Never
/// pads beyond the canonical width and never truncates.
pub fn encode_scalar(s: &k256::Scalar) -> (r: Vec<u8>)
    ensures
        r@ == be_bytes_of(scalar_as_nat(*s), 32),
        r@.len() == 32,
{
    let b = scalar_to_bytes(s);
    proof {
        lemma_be_bytes_len(scalar_as_nat(*s), 32);
    }
    b
}

} // verus!
