//! The scalar field of the signing curve (secp256k1), modelled as the
//! integers modulo the curve order. The arithmetic itself is performed by
//! the `k256` crate behind trusted wrappers; everything a contract says
//! about a scalar is said through its residue `scalar_as_nat`.
use vstd::arithmetic::div_mod::{
    lemma_mul_mod_noop_left, lemma_mul_mod_noop_right, lemma_small_mod,
};
use vstd::arithmetic::mul::{lemma_mul_is_associative, lemma_mul_is_commutative};
use vstd::prelude::*;

use k256::elliptic_curve::Field;
use k256::elliptic_curve::PrimeField;

verus! {

/// The order of the secp256k1 scalar field: every scalar is a canonical
/// residue in `[0, group_order())`.
pub open spec fn group_order() -> nat {
    0xFFFFFFFF_FFFFFFFF_FFFFFFFF_FFFFFFFE_BAAEDCE6_AF48A03B_BFD25E8C_D0364141_nat
}

#[verifier::external_type_specification]
#[verifier::external_body]
pub struct ExScalar(k256::Scalar);

/// The residue a scalar stands for: its value as an integer in
/// `[0, group_order())`. Every trusted wrapper below speaks of its scalar
/// arguments and results through this view.
pub uninterp spec fn scalar_as_nat(s: k256::Scalar) -> nat;

/// Addition in the scalar field.
pub open spec fn add_mod(a: nat, b: nat) -> nat {
    (a + b) % group_order()
}

/// Subtraction in the scalar field, for reduced operands.
pub open spec fn sub_mod(a: nat, b: nat) -> nat {
    (((a + group_order() - b) % (group_order() as int))) as nat
}

/// Multiplication in the scalar field.
pub open spec fn mul_mod(a: nat, b: nat) -> nat {
    (a * b) % group_order()
}

/// The multiplicative inverse of `a` in the scalar field, where one exists.
pub open spec fn mod_inv(a: nat) -> nat {
    choose|b: nat| b < group_order() && #[trigger] ((a * b) % group_order()) == 1
}

/// The big-endian bytes of `v`, `n` bytes wide (the `n` low-order base-256
/// digits of `v`, most significant first).
pub open spec fn be_bytes_of(v: nat, n: nat) -> Seq<u8>
    decreases n,
{
    if n == 0 {
        Seq::empty()
    } else {
        be_bytes_of(v / 256, (n - 1) as nat).push((v % 256) as u8)
    }
}

/// The integer a big-endian byte sequence stands for.
pub open spec fn nat_of_be(s: Seq<u8>) -> nat
    decreases s.len(),
{
    if s.len() == 0 {
        0
    } else {
        (nat_of_be(s.drop_last()) * 256 + s.last()) as nat
    }
}

/// An inverse in the field is unique among reduced values, so the value the
/// backend hands back is exactly `mod_inv`.
pub proof fn lemma_mod_inv_unique(a: nat, b: nat)
    requires
        b < group_order(),
        (a * b) % group_order() == 1,
    ensures
        mod_inv(a) == b,
{
    let p = group_order() as int;
    assert(exists|c: nat| c < group_order() && #[trigger] ((a * c) % group_order()) == 1);
    let c = mod_inv(a);
    assert(c < group_order() && (a * c) % group_order() == 1);
    let ai = a as int;
    let bi = b as int;
    let ci = c as int;
    lemma_small_mod(c, group_order());
    lemma_small_mod(b, group_order());
    lemma_mul_mod_noop_right(ci, ai * bi, p);
    lemma_mul_is_associative(ci, ai, bi);
    lemma_mul_is_commutative(ai, ci);
    lemma_mul_mod_noop_left(ci * ai, bi, p);
    assert((ci * ((ai * bi) % p)) % p == (ci * (ai * bi)) % p);
    assert(ci * 1 == ci) by (nonlinear_arith);
    assert(ci == (ci * (ai * bi)) % p);
    assert(ci * (ai * bi) == (ci * ai) * bi);
    assert(((ci * ai) % p * bi) % p == ((ci * ai) * bi) % p);
    assert((ci * ai) % p == 1);
    assert(1 * bi == bi) by (nonlinear_arith);
    assert(ci == bi);
}

/// Relies on `k256::Scalar::ZERO`: the additive identity.
#[verifier::external_body]
pub(crate) fn scalar_zero() -> (r: k256::Scalar)
    ensures
        scalar_as_nat(r) == 0,
{
    k256::Scalar::ZERO
}

/// Relies on `k256::Scalar::ONE`: the multiplicative identity.
#[verifier::external_body]
pub(crate) fn scalar_one() -> (r: k256::Scalar)
    ensures
        scalar_as_nat(r) == 1,
{
    k256::Scalar::ONE
}

/// Relies on `k256::Scalar: From<u64>`: embeds an integer below the order.
#[verifier::external_body]
pub(crate) fn scalar_from_u64(x: u64) -> (r: k256::Scalar)
    ensures
        scalar_as_nat(r) == x as nat,
{
    k256::Scalar::from(x)
}

/// Relies on `k256::Scalar::add`: addition modulo the order.
#[verifier::external_body]
pub(crate) fn scalar_add(a: &k256::Scalar, b: &k256::Scalar) -> (r: k256::Scalar)
    ensures
        scalar_as_nat(r) == add_mod(scalar_as_nat(*a), scalar_as_nat(*b)),
        scalar_as_nat(r) < group_order(),
{
    *a + *b
}

/// Relies on `k256::Scalar::sub`: subtraction modulo the order.
#[verifier::external_body]
pub(crate) fn scalar_sub(a: &k256::Scalar, b: &k256::Scalar) -> (r: k256::Scalar)
    ensures
        scalar_as_nat(r) == sub_mod(scalar_as_nat(*a), scalar_as_nat(*b)),
        scalar_as_nat(r) < group_order(),
{
    *a - *b
}

/// Relies on `k256::Scalar::mul`: multiplication modulo the order.
#[verifier::external_body]
pub(crate) fn scalar_mul(a: &k256::Scalar, b: &k256::Scalar) -> (r: k256::Scalar)
    ensures
        scalar_as_nat(r) == mul_mod(scalar_as_nat(*a), scalar_as_nat(*b)),
        scalar_as_nat(r) < group_order(),
{
    *a * *b
}

/// Relies on `k256::Scalar::invert`: the inverse of a nonzero scalar, and
/// no inverse of zero.
#[verifier::external_body]
pub(crate) fn scalar_invert(a: &k256::Scalar) -> (r: Option<k256::Scalar>)
    ensures
        (r is Some) <==> scalar_as_nat(*a) != 0,
        (r matches Some(v) ==> scalar_as_nat(v) < group_order() && (scalar_as_nat(*a)
            * scalar_as_nat(v)) % group_order() == 1),
{
    let inv = a.invert();
    if bool::from(inv.is_some()) {
        Some(inv.unwrap())
    } else {
        None
    }
}

/// Relies on `k256::Scalar::random` with the operating system's entropy
/// source: a uniformly sampled scalar. Nothing is promised of its value
/// beyond being a canonical residue.
#[verifier::external_body]
pub(crate) fn scalar_random() -> (r: k256::Scalar)
    ensures
        scalar_as_nat(r) < group_order(),
{
    k256::Scalar::random(&mut rand_core::OsRng)
}

/// Relies on `k256::Scalar::to_bytes`: the canonical fixed-width big-endian
/// (SEC1) encoding of the scalar.
#[verifier::external_body]
pub(crate) fn scalar_to_bytes(a: &k256::Scalar) -> (r: Vec<u8>)
    ensures
        r@ == be_bytes_of(scalar_as_nat(*a), 32),
{
    a.to_bytes().to_vec()
}

/// Relies on `k256::Scalar::from_repr`: parses a 32-byte big-endian
/// integer, accepting exactly the values below the order.
#[verifier::external_body]
pub(crate) fn scalar_from_be_bytes(b: &Vec<u8>) -> (r: Option<k256::Scalar>)
    requires
        b@.len() == 32,
    ensures
        (r is Some) <==> nat_of_be(b@) < group_order(),
        (r matches Some(s) ==> scalar_as_nat(s) == nat_of_be(b@)),
{
    let repr: [u8; 32] = match b.as_slice().try_into() {
        Ok(a) => a,
        Err(_) => return None,
    };
    let opt = k256::Scalar::from_repr(repr.into());
    if bool::from(opt.is_some()) {
        Some(opt.unwrap())
    } else {
        None
    }
}

} // verus!
