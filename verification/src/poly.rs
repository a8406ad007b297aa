//! Dense polynomials over the scalar field, as vectors of coefficient
//! encodings, and the arkworks transforms that operate on them.

use vstd::prelude::*;

use crate::curve::Scalar;
use ark_bls12_381::Fr;
use ark_poly::univariate::DensePolynomial;
use ark_poly::{EvaluationDomain, GeneralEvaluationDomain, UVPolynomial};
use ark_serialize::{CanonicalDeserialize, CanonicalSerialize};

verus! {

/// A dense polynomial: the coefficient of `x^i` is at position `i`.
/// Trailing zero coefficients are allowed.
pub struct Polynomial {
    pub coeffs: Vec<Scalar>,
}

/// The byte encodings of a sequence of elements.
pub open spec fn views_of<T: View<V = Seq<u8>>>(s: Seq<T>) -> Seq<Seq<u8>> {
    s.map_values(|x: T| x@)
}

impl View for Polynomial {
    type V = Seq<Seq<u8>>;

    open spec fn view(&self) -> Seq<Seq<u8>> {
        views_of(self.coeffs@)
    }
}

/// Holds of `n` exactly when it is a power of two.
pub open spec fn is_pow2(n: nat) -> bool
    decreases n,
{
    if n == 0 {
        false
    } else if n == 1 {
        true
    } else {
        n % 2 == 0 && is_pow2(n / 2)
    }
}

/// Decides whether `n` is a power of two.
pub fn pow2_check(n: u64) -> (r: bool)
    ensures
        r == is_pow2(n as nat),
{
    if n == 0 {
        return false;
    }
    let mut m: u64 = n;
    while m % 2 == 0 && m > 1
        invariant
            m >= 1,
            is_pow2(n as nat) == is_pow2(m as nat),
        decreases m,
    {
        m = m / 2;
    }
    m == 1
}

/// The size of the evaluation domain built for `min` coefficients: the
/// smallest power of two at least `min`.
pub uninterp spec fn domain_size_b(min: u64) -> u64;

/// The coefficients returned by the domain's inverse discrete Fourier
/// transform for the given evaluations, as byte encodings.
pub uninterp spec fn ifft_b(evals: Seq<Seq<u8>>, size: u64) -> Seq<Seq<u8>>;

/// The byte encoding of the value of the polynomial with the given
/// coefficients at the given point.
pub uninterp spec fn poly_eval_b(coeffs: Seq<Seq<u8>>, point: Seq<u8>) -> Seq<u8>;

/// The coefficients of the quotient of the two polynomials, as byte encodings.
pub uninterp spec fn poly_div_b(dividend: Seq<Seq<u8>>, divisor: Seq<Seq<u8>>) -> Seq<Seq<u8>>;

/// The coefficients of the product of the two polynomials, as byte encodings.
pub uninterp spec fn poly_mul_b(a: Seq<Seq<u8>>, b: Seq<Seq<u8>>) -> Seq<Seq<u8>>;

/// The byte encoding of the value at the given point of the vanishing
/// polynomial of the evaluation domain of the given size.
pub uninterp spec fn vanish_b(size: u64, point: Seq<u8>) -> Seq<u8>;

/// Relies on ark_poly's `GeneralEvaluationDomain::new`, which rounds the
/// requested number of coefficients up to the next power of two; for this
/// field it succeeds whenever that power is at most 2^32.
#[verifier::external_body]
pub(crate) fn domain_new(min: u64) -> (r: u64)
    requires
        1 <= min <= 0x1_0000_0000,
    ensures
        r == domain_size_b(min),
        is_pow2(r as nat),
        min <= r < 2 * min,
        r <= 0x1_0000_0000,
{
    let d: GeneralEvaluationDomain<Fr> = GeneralEvaluationDomain::new(min as usize).unwrap();
    d.size() as u64
}

/// Relies on ark_poly's inverse discrete Fourier transform: it pads the
/// evaluations with zeros to the domain size and returns exactly that many
/// coefficients.
#[verifier::external_body]
pub(crate) fn ifft(evals: &Vec<Scalar>, size: u64) -> (r: Vec<Scalar>)
    requires
        is_pow2(size as nat),
        size <= 0x1_0000_0000,
        evals@.len() <= size,
    ensures
        views_of(r@) == ifft_b(views_of(evals@), size),
        r@.len() == size,
{
    let d: GeneralEvaluationDomain<Fr> = GeneralEvaluationDomain::new(size as usize).unwrap();
    let es: Vec<Fr> =
        evals.iter().map(|s| Fr::deserialize(&s.b[..]).unwrap()).collect();
    let cs = d.ifft(&es);
    cs.iter().map(|c| {
        let mut out: Vec<u8> = Vec::new();
        c.serialize(&mut out).unwrap();
        Scalar { b: out }
    }).collect()
}

/// Relies on ark_poly's polynomial evaluation. The result depends only on the
/// coefficients and the point.
#[verifier::external_body]
pub(crate) fn poly_eval(coeffs: &Vec<Scalar>, point: &Scalar) -> (r: Scalar)
    ensures
        r@ == poly_eval_b(views_of(coeffs@), point@),
{
    let cs: Vec<Fr> =
        coeffs.iter().map(|s| Fr::deserialize(&s.b[..]).unwrap()).collect();
    let p = DensePolynomial::from_coefficients_vec(cs);
    let z = Fr::deserialize(&point.b[..]).unwrap();
    let v = ark_poly::Polynomial::evaluate(&p, &z);
    let mut out: Vec<u8> = Vec::new();
    v.serialize(&mut out).unwrap();
    Scalar { b: out }
}

/// Relies on ark_poly's exact polynomial division (the remainder is
/// discarded). The divisor must be monic, so it is nonzero and the division
/// never fails; a dividend of lower degree yields the empty (zero) quotient,
/// and otherwise the quotient loses the divisor's degree.
#[verifier::external_body]
pub(crate) fn poly_div(dividend: &Vec<Scalar>, divisor: &Vec<Scalar>) -> (r: Vec<Scalar>)
    requires
        divisor@.len() >= 2,
        views_of(divisor@).last() == crate::curve::fr_of_u64_b(1),
    ensures
        views_of(r@) == poly_div_b(views_of(dividend@), views_of(divisor@)),
        dividend@.len() >= 1 && divisor@.len() <= dividend@.len() + 1 ==> r@.len()
            + divisor@.len() <= dividend@.len() + 1,
        divisor@.len() > dividend@.len() ==> r@.len() == 0,
{
    let ds: Vec<Fr> =
        dividend.iter().map(|s| Fr::deserialize(&s.b[..]).unwrap()).collect();
    let vs: Vec<Fr> =
        divisor.iter().map(|s| Fr::deserialize(&s.b[..]).unwrap()).collect();
    let a = DensePolynomial::from_coefficients_vec(ds);
    let b = DensePolynomial::from_coefficients_vec(vs);
    let q = &a / &b;
    q.coeffs().iter().map(|c| {
        let mut out: Vec<u8> = Vec::new();
        c.serialize(&mut out).unwrap();
        Scalar { b: out }
    }).collect()
}

/// Relies on ark_poly's polynomial multiplication: the product of nonempty
/// inputs has at most `a.len() + b.len() - 1` coefficients.
#[verifier::external_body]
pub(crate) fn poly_mul(a: &Vec<Scalar>, b: &Vec<Scalar>) -> (r: Vec<Scalar>)
    requires
        a@.len() + b@.len() <= 0x1_0000_0000,
    ensures
        views_of(r@) == poly_mul_b(views_of(a@), views_of(b@)),
        r@.len() <= a@.len() + b@.len(),
        a@.len() >= 1 && b@.len() >= 1 ==> r@.len() < a@.len() + b@.len(),
{
    let xs: Vec<Fr> =
        a.iter().map(|s| Fr::deserialize(&s.b[..]).unwrap()).collect();
    let ys: Vec<Fr> =
        b.iter().map(|s| Fr::deserialize(&s.b[..]).unwrap()).collect();
    let p = DensePolynomial::from_coefficients_vec(xs);
    let q = DensePolynomial::from_coefficients_vec(ys);
    let z = &p * &q;
    z.coeffs().iter().map(|c| {
        let mut out: Vec<u8> = Vec::new();
        c.serialize(&mut out).unwrap();
        Scalar { b: out }
    }).collect()
}

/// Relies on ark_poly's `evaluate_vanishing_polynomial` for the evaluation
/// domain of the given size. The result depends only on the size and the point.
#[verifier::external_body]
pub(crate) fn vanish_at(size: u64, point: &Scalar) -> (r: Scalar)
    requires
        is_pow2(size as nat),
        size <= 0x1_0000_0000,
    ensures
        r@ == vanish_b(size, point@),
{
    let d: GeneralEvaluationDomain<Fr> = GeneralEvaluationDomain::new(size as usize).unwrap();
    let z = Fr::deserialize(&point.b[..]).unwrap();
    let v = d.evaluate_vanishing_polynomial(z);
    let mut out: Vec<u8> = Vec::new();
    v.serialize(&mut out).unwrap();
    Scalar { b: out }
}

} // verus!
