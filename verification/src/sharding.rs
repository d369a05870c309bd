//! Threshold (Shamir) secret sharing over the scalar field: splitting a
//! secret through a random polynomial and recombining shares by Lagrange
//! interpolation at zero.
//!
//! Reconstruction deliberately performs the arithmetic for whatever share
//! set it is given: it does not know the threshold used at split time, and
//! fewer than `threshold` shares yield a well-defined but meaningless
//! scalar, not an error. Callers that need threshold enforcement must check
//! the share count against a threshold obtained elsewhere (the roster).
use vstd::arithmetic::div_mod::{
    lemma_add_mod_noop, lemma_add_mod_noop_right, lemma_mod_bound, lemma_mod_multiples_vanish,
    lemma_mul_mod_noop_left, lemma_small_mod,
};
use vstd::prelude::*;

use crate::field::{
    add_mod, group_order, mod_inv, mul_mod, scalar_add, scalar_as_nat, scalar_from_u64,
    scalar_invert, scalar_mul, scalar_one, scalar_random, scalar_sub, scalar_zero, sub_mod,
};
use crate::CoreError;

verus! {

/// The residues of a sequence of scalars.
pub open spec fn nats_of(s: Seq<k256::Scalar>) -> Seq<nat> {
    s.map_values(|c: k256::Scalar| scalar_as_nat(c))
}

/// A share list as pairs of (index, value) residues.
pub open spec fn points_of(shares: Seq<(usize, k256::Scalar)>) -> Seq<(nat, nat)> {
    shares.map_values(|s: (usize, k256::Scalar)| (s.0 as nat, scalar_as_nat(s.1)))
}

/// The indices of a point list.
pub open spec fn xs_of(pts: Seq<(nat, nat)>) -> Seq<nat> {
    pts.map_values(|p: (nat, nat)| p.0)
}

/// Two supplied shares carry the same index (which makes interpolation
/// ill-defined: a zero denominator).
pub open spec fn has_duplicate_index(shares: Seq<(usize, k256::Scalar)>) -> bool {
    exists|a: int, b: int|
        0 <= a < b < shares.len() && (#[trigger] shares[a]).0 == (#[trigger] shares[b]).0
}

/// `b` to the `e` in the scalar field.
pub open spec fn pow_mod(b: nat, e: nat) -> nat
    decreases e,
{
    if e == 0 {
        1
    } else {
        mul_mod(pow_mod(b, (e - 1) as nat), b)
    }
}

/// The first `k` terms of the polynomial with the given coefficients,
/// evaluated at `x` in the scalar field.
pub open spec fn poly_eval_prefix(coeffs: Seq<nat>, x: nat, k: int) -> nat
    decreases k,
{
    if k <= 0 {
        0
    } else {
        add_mod(poly_eval_prefix(coeffs, x, k - 1), mul_mod(coeffs[k - 1], pow_mod(x, (k - 1) as nat)))
    }
}

/// The polynomial with the given coefficients (constant term first),
/// evaluated at `x` in the scalar field.
pub open spec fn poly_eval(coeffs: Seq<nat>, x: nat) -> nat {
    poly_eval_prefix(coeffs, x, coeffs.len() as int)
}

/// The Lagrange basis coefficient for point `j` evaluated at zero,
/// restricted to the first `k` points: the product over `m != j` of
/// `x_m / (x_m - x_j)`.
pub open spec fn lagrange_basis_prefix(xs: Seq<nat>, j: int, k: int) -> nat
    decreases k,
{
    if k <= 0 {
        1
    } else if k - 1 == j {
        lagrange_basis_prefix(xs, j, k - 1)
    } else {
        mul_mod(
            mul_mod(lagrange_basis_prefix(xs, j, k - 1), xs[k - 1]),
            mod_inv(sub_mod(xs[k - 1], xs[j])),
        )
    }
}

/// The first `k` terms of the Lagrange interpolation of the given points,
/// evaluated at zero: the sum over `j` of `y_j * L_j(0)`.
pub open spec fn lagrange_sum_prefix(pts: Seq<(nat, nat)>, k: int) -> nat
    decreases k,
{
    if k <= 0 {
        0
    } else {
        add_mod(
            lagrange_sum_prefix(pts, k - 1),
            mul_mod(pts[k - 1].1, lagrange_basis_prefix(xs_of(pts), k - 1, pts.len() as int)),
        )
    }
}

/// The Lagrange interpolation of the given points, evaluated at zero.
pub open spec fn lagrange_at_zero(pts: Seq<(nat, nat)>) -> nat {
    lagrange_sum_prefix(pts, pts.len() as int)
}

/// The points are the evaluations, at their own indices, of some polynomial
/// over the field whose constant term is `secret` and whose degree is below
/// the threshold (a threshold of zero degenerates to a constant
/// polynomial, exactly as the splitter treats it).
pub open spec fn is_share_set_of(pts: Seq<(nat, nat)>, secret: nat, threshold: nat) -> bool {
    exists|coeffs: Seq<nat>|
        #[trigger] coeffs.len() == (if threshold == 0 {
            1nat
        } else {
            threshold
        }) && coeffs[0] == secret && (forall|i: int|
            0 <= i < pts.len() ==> (#[trigger] pts[i]).1 == poly_eval(coeffs, pts[i].0))
}

/// The field difference of two distinct reduced values is nonzero.
proof fn lemma_sub_mod_nonzero(a: nat, b: nat)
    requires
        a < group_order(),
        b < group_order(),
        a != b,
    ensures
        sub_mod(a, b) != 0,
{
    let p = group_order() as int;
    if a > b {
        lemma_mod_multiples_vanish(1, a - b, p);
        lemma_small_mod((a - b) as nat, group_order());
    } else {
        lemma_small_mod((a + group_order() - b) as nat, group_order());
    }
}

/// Raises a scalar to a machine-integer exponent in the field.
pub fn power(base: &k256::Scalar, exp: usize) -> (r: k256::Scalar)
    ensures
        scalar_as_nat(r) == pow_mod(scalar_as_nat(*base), exp as nat),
        scalar_as_nat(r) < group_order(),
{
    let mut res = scalar_one();
    let mut e: usize = 0;
    proof {
        lemma_mod_bound(1 as int, group_order() as int);
    }
    while e < exp
        invariant
            e <= exp,
            scalar_as_nat(res) == pow_mod(scalar_as_nat(*base), e as nat),
            scalar_as_nat(res) < group_order(),
        decreases exp - e,
    {
        res = scalar_mul(&res, base);
        e += 1;
    }
    res
}

/// Splits a secret into `total` shares at indices `1..=total`, any
/// `threshold` of which determine it: the shares are the evaluations of a
/// polynomial with random higher coefficients whose constant term is the
/// secret. Fails exactly when `threshold > total`.
pub fn split_secret(secret: &k256::Scalar, threshold: usize, total: usize) -> (r: Result<
    Vec<(usize, k256::Scalar)>,
    CoreError,
>)
    ensures
        (r is Ok) <==> threshold <= total,
        (r matches Err(e) ==> e == CoreError::PreconditionViolation),
        (r matches Ok(shares) ==> shares@.len() == total && (forall|i: int|
            0 <= i < shares@.len() ==> (#[trigger] shares@[i]).0 == i + 1) && is_share_set_of(
            points_of(shares@),
            scalar_as_nat(*secret),
            threshold as nat,
        )),
{
    if threshold > total {
        return Err(CoreError::PreconditionViolation);
    }
    let mut coeffs: Vec<k256::Scalar> = Vec::new();
    coeffs.push(*secret);
    let mut i: usize = 1;
    while i < threshold
        invariant
            1 <= i,
            threshold >= 1 ==> i <= threshold,
            threshold == 0 ==> i == 1,
            coeffs@.len() == i,
            coeffs@[0] == *secret,
        decreases threshold - i,
    {
        coeffs.push(scalar_random());
        i += 1;
    }
    let ghost cnat: Seq<nat> = nats_of(coeffs@);
    proof {
        assert(cnat.len() == (if threshold == 0 {
            1nat
        } else {
            threshold as nat
        }));
        assert(cnat[0] == scalar_as_nat(*secret));
    }
    let t = coeffs.len();
    let mut shares: Vec<(usize, k256::Scalar)> = Vec::new();
    let mut idx: usize = 0;
    while idx < total
        invariant
            idx <= total,
            t == coeffs@.len(),
            cnat == nats_of(coeffs@),
            shares@.len() == idx,
            forall|i: int| 0 <= i < idx ==> (#[trigger] shares@[i]).0 == i + 1,
            forall|i: int|
                0 <= i < idx ==> scalar_as_nat((#[trigger] shares@[i]).1) == poly_eval(
                    cnat,
                    (i + 1) as nat,
                ),
        decreases total - idx,
    {
        let x = scalar_from_u64((idx as u64) + 1);
        let mut y = scalar_zero();
        let mut k: usize = 0;
        while k < t
            invariant
                k <= t,
                t == coeffs@.len(),
                cnat == nats_of(coeffs@),
                scalar_as_nat(x) == (idx + 1) as nat,
                scalar_as_nat(y) == poly_eval_prefix(cnat, (idx + 1) as nat, k as int),
            decreases t - k,
        {
            let xp = power(&x, k);
            let term = scalar_mul(&coeffs[k], &xp);
            y = scalar_add(&y, &term);
            k += 1;
        }
        shares.push((idx + 1, y));
        idx += 1;
    }
    proof {
        let pts = points_of(shares@);
        assert forall|i: int| 0 <= i < pts.len() implies (#[trigger] pts[i]).1 == poly_eval(
            cnat,
            pts[i].0,
        ) by {
            assert(pts[i].0 == (i + 1) as nat);
            assert(pts[i].1 == scalar_as_nat(shares@[i].1));
        }
        assert(is_share_set_of(pts, scalar_as_nat(*secret), threshold as nat));
    }
    Ok(shares)
}

/// Recombines shares by Lagrange interpolation at zero. Fails exactly on an
/// empty share set or a repeated index; for any other set it returns the
/// interpolation of exactly the points it was given, whether or not they
/// came from one polynomial.
pub fn recover_secret(shares: &Vec<(usize, k256::Scalar)>) -> (r: Result<k256::Scalar, CoreError>)
    ensures
        (r is Ok) <==> (shares@.len() > 0 && !has_duplicate_index(shares@)),
        (r matches Err(e) ==> e == CoreError::DuplicateOrDegenerateShareIndex),
        (r matches Ok(s) ==> scalar_as_nat(s) == lagrange_at_zero(points_of(shares@))
            && scalar_as_nat(s) < group_order()),
{
    let n = shares.len();
    if n == 0 {
        return Err(CoreError::DuplicateOrDegenerateShareIndex);
    }
    let mut i: usize = 0;
    while i < n
        invariant
            i <= n,
            n == shares@.len(),
            forall|a: int, b: int|
                0 <= a < b < n && a < i ==> (#[trigger] shares@[a]).0 != (#[trigger] shares@[b]).0,
        decreases n - i,
    {
        let mut j = i + 1;
        while j < n
            invariant
                i < n,
                i < j <= n,
                n == shares@.len(),
                forall|b: int| i < b < j ==> (#[trigger] shares@[b]).0 != shares@[i as int].0,
            decreases n - j,
        {
            if shares[i].0 == shares[j].0 {
                return Err(CoreError::DuplicateOrDegenerateShareIndex);
            }
            j += 1;
        }
        i += 1;
    }
    assert(!has_duplicate_index(shares@));
    let ghost pts = points_of(shares@);
    let ghost xs = xs_of(pts);
    let mut secret = scalar_zero();
    let mut j: usize = 0;
    while j < n
        invariant
            j <= n,
            n == shares@.len(),
            pts == points_of(shares@),
            xs == xs_of(pts),
            !has_duplicate_index(shares@),
            scalar_as_nat(secret) == lagrange_sum_prefix(pts, j as int),
        decreases n - j,
    {
        let x_j = scalar_from_u64(shares[j].0 as u64);
        let y_j = shares[j].1;
        let mut basis = scalar_one();
        let mut m: usize = 0;
        while m < n
            invariant
                m <= n,
                j < n,
                n == shares@.len(),
                pts == points_of(shares@),
                xs == xs_of(pts),
                !has_duplicate_index(shares@),
                scalar_as_nat(x_j) == xs[j as int],
                scalar_as_nat(basis) == lagrange_basis_prefix(xs, j as int, m as int),
            decreases n - m,
        {
            if m != j {
                let x_m = scalar_from_u64(shares[m].0 as u64);
                let diff = scalar_sub(&x_m, &x_j);
                proof {
                    assert(shares@[m as int].0 != shares@[j as int].0);
                    assert(xs[m as int] < group_order() && xs[j as int] < group_order()) by {
                        assert(shares@[m as int].0 <= usize::MAX);
                        assert(shares@[j as int].0 <= usize::MAX);
                    }
                    lemma_sub_mod_nonzero(xs[m as int], xs[j as int]);
                }
                let inv = scalar_invert(&diff).unwrap();
                proof {
                    crate::field::lemma_mod_inv_unique(
                        sub_mod(xs[m as int], xs[j as int]),
                        scalar_as_nat(inv),
                    );
                }
                let t1 = scalar_mul(&basis, &x_m);
                basis = scalar_mul(&t1, &inv);
            }
            m += 1;
        }
        let term = scalar_mul(&y_j, &basis);
        secret = scalar_add(&secret, &term);
        proof {
            assert(pts[j as int].1 == scalar_as_nat(shares@[j as int].1));
        }
        j += 1;
    }
    Ok(secret)
}

/// Law (the one-share instance of split/reconstruct correctness): a single
/// share of a constant polynomial interpolates back to its constant term,
/// the secret.
pub proof fn lemma_recover_one_of_one(pt: (nat, nat), coeffs: Seq<nat>)
    requires
        coeffs.len() == 1,
        coeffs[0] < group_order(),
        pt.1 == poly_eval(coeffs, pt.0),
    ensures
        lagrange_at_zero(seq![pt]) == coeffs[0],
{
    let p = group_order();
    let s = coeffs[0];
    assert(pow_mod(pt.0, 0) == 1);
    lemma_small_mod(s, p);
    assert(poly_eval_prefix(coeffs, pt.0, 0) == 0);
    assert(poly_eval_prefix(coeffs, pt.0, 1) == add_mod(0, mul_mod(s, pow_mod(pt.0, 0))));
    assert(poly_eval(coeffs, pt.0) == add_mod(0, mul_mod(s, 1)));
    assert(mul_mod(s, 1) == s % p);
    assert(pt.1 == s);
    let pts = seq![pt];
    assert(lagrange_basis_prefix(xs_of(pts), 0, 0) == 1);
    assert(lagrange_basis_prefix(xs_of(pts), 0, 1) == lagrange_basis_prefix(xs_of(pts), 0, 0));
    assert(lagrange_sum_prefix(pts, 0) == 0);
    assert(lagrange_sum_prefix(pts, 1) == add_mod(
        0,
        mul_mod(pts[0].1, lagrange_basis_prefix(xs_of(pts), 0, 1)),
    ));
    assert(lagrange_at_zero(pts) == add_mod(0, mul_mod(pt.1, 1)));
    assert(lagrange_at_zero(pts) == s);
}

/// Law (a two-share instance of split/reconstruct correctness): the two
/// shares of a degree-one polynomial at any pair of adjacent indices
/// interpolate back to its constant term, the secret. Adjacent indices are
/// singled out because their basis denominators, 1 and its negation, have
/// inverses that can be exhibited without appeal to the order's primality.
pub proof fn lemma_recover_adjacent_pair(coeffs: Seq<nat>, x1: nat, y1: nat, y2: nat)
    requires
        coeffs.len() == 2,
        coeffs[0] < group_order(),
        coeffs[1] < group_order(),
        x1 + 1 < group_order(),
        y1 == poly_eval(coeffs, x1),
        y2 == poly_eval(coeffs, x1 + 1),
    ensures
        lagrange_at_zero(seq![(x1, y1), ((x1 + 1) as nat, y2)]) == coeffs[0],
{
    let p = group_order();
    let pi = p as int;
    let a0 = coeffs[0];
    let a1 = coeffs[1];
    let x2: nat = x1 + 1;

    // The two share values, unfolded from the polynomial.
    lemma_small_mod(a0, p);
    lemma_small_mod(a1, p);
    lemma_small_mod(x1, p);
    lemma_small_mod(x2, p);
    assert(pow_mod(x1, 0) == 1 && pow_mod(x2, 0) == 1);
    assert(pow_mod(x1, 1) == mul_mod(1, x1) && pow_mod(x2, 1) == mul_mod(1, x2));
    assert(poly_eval_prefix(coeffs, x1, 0) == 0 && poly_eval_prefix(coeffs, x2, 0) == 0);
    assert(poly_eval_prefix(coeffs, x1, 1) == add_mod(0, mul_mod(a0, pow_mod(x1, 0))));
    assert(poly_eval_prefix(coeffs, x2, 1) == add_mod(0, mul_mod(a0, pow_mod(x2, 0))));
    assert(poly_eval_prefix(coeffs, x1, 2) == add_mod(
        poly_eval_prefix(coeffs, x1, 1),
        mul_mod(a1, pow_mod(x1, 1)),
    ));
    assert(poly_eval_prefix(coeffs, x2, 2) == add_mod(
        poly_eval_prefix(coeffs, x2, 1),
        mul_mod(a1, pow_mod(x2, 1)),
    ));
    vstd::arithmetic::div_mod::lemma_mul_mod_noop_right(a1 as int, x1 as int, pi);
    vstd::arithmetic::div_mod::lemma_mul_mod_noop_right(a1 as int, x2 as int, pi);
    assert(y1 == add_mod(a0 % p, (a1 * x1) % p));
    lemma_add_mod_noop_right(a0 as int, (a1 * x1) as int, pi);
    assert(y1 == (a0 + a1 * x1) % p);
    assert(y2 == add_mod(a0 % p, (a1 * x2) % p));
    lemma_add_mod_noop_right(a0 as int, (a1 * x2) as int, pi);
    assert(y2 == (a0 + a1 * x2) % p);

    // The two basis coefficients: x2 / (x2 - x1) and x1 / (x1 - x2).
    let pts = seq![(x1, y1), (x2, y2)];
    let xs = xs_of(pts);
    assert(xs[0] == x1 && xs[1] == x2);
    lemma_mod_multiples_vanish(1, 1, pi);
    lemma_small_mod(1, p);
    assert(sub_mod(x2, x1) == 1);
    crate::field::lemma_mod_inv_unique(1, 1);
    lemma_small_mod((p - 1) as nat, p);
    assert(sub_mod(x1, x2) == (p - 1) as nat);
    assert((p - 1) * (p - 1) == p * (p - 2) + 1) by (nonlinear_arith);
    lemma_mod_multiples_vanish((p - 2) as int, 1, pi);
    crate::field::lemma_mod_inv_unique((p - 1) as nat, (p - 1) as nat);
    assert(lagrange_basis_prefix(xs, 0, 1) == lagrange_basis_prefix(xs, 0, 0));
    assert(lagrange_basis_prefix(xs, 0, 2) == mul_mod(mul_mod(1, x2), mod_inv(sub_mod(x2, x1))));
    let b0 = lagrange_basis_prefix(xs, 0, 2);
    assert(b0 == mul_mod(x2 % p, 1));
    assert(b0 == x2);
    assert(lagrange_basis_prefix(xs, 1, 1) == mul_mod(
        mul_mod(lagrange_basis_prefix(xs, 1, 0), x1),
        mod_inv(sub_mod(x1, x2)),
    ));
    assert(lagrange_basis_prefix(xs, 1, 2) == lagrange_basis_prefix(xs, 1, 1));
    let b1 = lagrange_basis_prefix(xs, 1, 2);
    assert(b1 == mul_mod(x1 % p, (p - 1) as nat));
    assert(b1 == (x1 * ((p - 1) as nat)) % p);

    // The interpolation sum: x2*y1 - x1*y2, which the polynomial makes a0.
    assert(lagrange_sum_prefix(pts, 0) == 0);
    assert(lagrange_sum_prefix(pts, 1) == add_mod(0, mul_mod(y1, b0)));
    assert(lagrange_sum_prefix(pts, 2) == add_mod(
        lagrange_sum_prefix(pts, 1),
        mul_mod(y2, b1),
    ));
    lemma_small_mod(mul_mod(y1, b0), p);
    assert(lagrange_at_zero(pts) == ((y1 * x2) % p + (y2 * b1) % p) % p);
    lemma_mul_mod_noop_left((a0 + a1 * x1) as int, x2 as int, pi);
    assert((y1 * x2) % p == ((a0 + a1 * x1) * x2) % p);
    vstd::arithmetic::div_mod::lemma_mul_mod_noop_right(y2 as int, (x1 * (p - 1)) as int, pi);
    assert((y2 * b1) % p == (y2 * (x1 * ((p - 1) as nat))) % p);
    lemma_mul_mod_noop_left((a0 + a1 * x2) as int, (x1 * (p - 1)) as int, pi);
    assert((y2 * (x1 * ((p - 1) as nat))) % p == ((a0 + a1 * x2) * (x1 * ((p - 1) as nat))) % p);
    lemma_add_mod_noop(((a0 + a1 * x1) * x2) as int, ((a0 + a1 * x2) * (x1 * (p - 1))) as int, pi);
    assert(lagrange_at_zero(pts) == ((a0 + a1 * x1) * x2 + (a0 + a1 * x2) * (x1 * (p - 1)))
        % pi);
    assert((a0 + a1 * x1) * (x1 + 1) + (a0 + a1 * (x1 + 1)) * (x1 * (pi - 1)) == a0 + pi * (x1 * (
    a0 + a1 * (x1 + 1)))) by (nonlinear_arith);
    lemma_mod_multiples_vanish((x1 * (a0 + a1 * x2)) as int, a0 as int, pi);
    assert(lagrange_at_zero(pts) == a0 % p);
}

} // verus!
