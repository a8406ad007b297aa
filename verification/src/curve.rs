//! Field and curve elements, carried in their canonical byte encodings.
//!
//! Every element of the scalar field and of the two pairing groups is held
//! as its canonical byte encoding: elements built by the library carry what
//! the arkworks serializer produced for them, and untrusted input is accepted
//! only when it re-encodes to itself. Equality of elements is therefore
//! equality of the byte strings, and the protocol logic above the arithmetic
//! is stated over these byte sequences alone. The arithmetic itself is
//! performed by the arkworks crates behind the trusted wrappers in this
//! module; what each operation returns is given a name (an uninterpreted
//! spec function), and every contract of the library speaks over those
//! names.

use vstd::prelude::*;

use ark_ec::{AffineCurve, PairingEngine, ProjectiveCurve};
use ark_ff::{Field, PrimeField, UniformRand};
use ark_serialize::{CanonicalDeserialize, CanonicalSerialize};

verus! {

/// Length of the canonical encoding of a scalar field element.
pub const FR_BYTES: usize = 32;

/// Length of the canonical (compressed) encoding of a group-1 point.
pub const G1_BYTES: usize = 48;

/// Length of the canonical (compressed) encoding of a group-2 point.
pub const G2_BYTES: usize = 96;

/// Holds of exactly those 32-byte strings that decode to a scalar field element.
pub uninterp spec fn fr_valid(b: Seq<u8>) -> bool;

/// The canonical encoding of the field element `Fr::from(n)`.
pub uninterp spec fn fr_of_u64_b(n: u64) -> Seq<u8>;

/// The canonical encoding of the sum of the two encoded field elements.
pub uninterp spec fn fr_add_b(a: Seq<u8>, b: Seq<u8>) -> Seq<u8>;

/// The canonical encoding of the difference of the two encoded field elements.
pub uninterp spec fn fr_sub_b(a: Seq<u8>, b: Seq<u8>) -> Seq<u8>;

/// The canonical encoding of the product of the two encoded field elements.
pub uninterp spec fn fr_mul_b(a: Seq<u8>, b: Seq<u8>) -> Seq<u8>;

/// The canonical encoding of the additive inverse of the encoded field element.
pub uninterp spec fn fr_neg_b(a: Seq<u8>) -> Seq<u8>;

/// The canonical encoding of the multiplicative inverse of the encoded
/// (nonzero) field element.
pub uninterp spec fn fr_inv_b(a: Seq<u8>) -> Seq<u8>;

/// Holds of exactly those 48-byte strings that are the canonical encoding of
/// a group-1 point: they decode and re-encode to themselves.
pub uninterp spec fn g1_valid(b: Seq<u8>) -> bool;

/// The encoding of the group-1 point `p` multiplied by the scalar `s`.
pub uninterp spec fn g1_scale_b(p: Seq<u8>, s: Seq<u8>) -> Seq<u8>;

/// The encoding of the sum of the two encoded group-1 points.
pub uninterp spec fn g1_add_b(a: Seq<u8>, b: Seq<u8>) -> Seq<u8>;

/// The encoding of the difference of the two encoded group-1 points.
pub uninterp spec fn g1_sub_b(a: Seq<u8>, b: Seq<u8>) -> Seq<u8>;

/// Holds of exactly those 96-byte strings that are the canonical encoding of
/// a group-2 point: they decode and re-encode to themselves.
pub uninterp spec fn g2_valid(b: Seq<u8>) -> bool;

/// The encoding of the group-2 point `p` multiplied by the scalar `s`.
pub uninterp spec fn g2_scale_b(p: Seq<u8>, s: Seq<u8>) -> Seq<u8>;

/// The encoding of the difference of the two encoded group-2 points.
pub uninterp spec fn g2_sub_b(a: Seq<u8>, b: Seq<u8>) -> Seq<u8>;

/// The encoding of the bilinear pairing of the encoded group-1 and group-2 points.
pub uninterp spec fn pairing_b(p: Seq<u8>, q: Seq<u8>) -> Seq<u8>;

/// A scalar field element, held as its canonical 32-byte encoding.
pub struct Scalar {
    pub(crate) b: Vec<u8>,
}

impl View for Scalar {
    type V = Seq<u8>;

    closed spec fn view(&self) -> Seq<u8> {
        self.b@
    }
}

impl Scalar {
    /// Every scalar in existence holds the canonical 32-byte encoding of a
    /// field element.
    #[verifier::type_invariant]
    pub closed spec fn inv(self) -> bool {
        self.b@.len() == FR_BYTES && fr_valid(self.b@)
    }

    /// The canonical encoding of this field element.
    pub fn as_bytes(&self) -> (r: Vec<u8>)
        ensures
            r@ == self@,
            r@.len() == FR_BYTES,
            fr_valid(self@),
    {
        proof {
            use_type_invariant(self);
        }
        clone_bytes(&self.b)
    }

    /// A copy of this field element.
    pub fn dup(&self) -> (r: Scalar)
        ensures
            r@ == self@,
    {
        proof {
            use_type_invariant(self);
        }
        Scalar { b: clone_bytes(&self.b) }
    }

    /// Whether the two field elements are equal; by canonicality of the
    /// encoding this is equality of the byte strings.
    pub fn equals(&self, other: &Scalar) -> (r: bool)
        ensures
            r == (self@ == other@),
    {
        bytes_eq(&self.b, &other.b)
    }
}

/// A group-1 point, held as its canonical compressed 48-byte encoding.
pub struct G1Point {
    pub(crate) b: Vec<u8>,
}

impl View for G1Point {
    type V = Seq<u8>;

    closed spec fn view(&self) -> Seq<u8> {
        self.b@
    }
}

impl G1Point {
    /// Every group-1 point in existence holds the canonical 48-byte encoding
    /// of a subgroup point.
    #[verifier::type_invariant]
    pub closed spec fn inv(self) -> bool {
        self.b@.len() == G1_BYTES && g1_valid(self.b@)
    }

    /// The canonical encoding of this point.
    pub fn as_bytes(&self) -> (r: Vec<u8>)
        ensures
            r@ == self@,
            r@.len() == G1_BYTES,
            g1_valid(self@),
    {
        proof {
            use_type_invariant(self);
        }
        clone_bytes(&self.b)
    }

    /// A copy of this point.
    pub fn dup(&self) -> (r: G1Point)
        ensures
            r@ == self@,
    {
        proof {
            use_type_invariant(self);
        }
        G1Point { b: clone_bytes(&self.b) }
    }
}

/// A group-2 point, held as its canonical compressed 96-byte encoding.
pub struct G2Point {
    pub(crate) b: Vec<u8>,
}

impl View for G2Point {
    type V = Seq<u8>;

    closed spec fn view(&self) -> Seq<u8> {
        self.b@
    }
}

impl G2Point {
    /// Every group-2 point in existence holds the canonical 96-byte encoding
    /// of a subgroup point.
    #[verifier::type_invariant]
    pub closed spec fn inv(self) -> bool {
        self.b@.len() == G2_BYTES && g2_valid(self.b@)
    }

    /// The canonical encoding of this point.
    pub fn as_bytes(&self) -> (r: Vec<u8>)
        ensures
            r@ == self@,
            r@.len() == G2_BYTES,
            g2_valid(self@),
    {
        proof {
            use_type_invariant(self);
        }
        clone_bytes(&self.b)
    }

    /// A copy of this point.
    pub fn dup(&self) -> (r: G2Point)
        ensures
            r@ == self@,
    {
        proof {
            use_type_invariant(self);
        }
        G2Point { b: clone_bytes(&self.b) }
    }
}

/// Copies a byte vector element by element.
pub fn clone_bytes(v: &Vec<u8>) -> (r: Vec<u8>)
    ensures
        r@ == v@,
{
    let mut r: Vec<u8> = Vec::new();
    let mut i: usize = 0;
    while i < v.len()
        invariant
            i <= v@.len(),
            r@ == v@.subrange(0, i as int),
        decreases v@.len() - i,
    {
        r.push(v[i]);
        i = i + 1;
    }
    proof {
        assert(r@ == v@.subrange(0, v@.len() as int));
        assert(v@.subrange(0, v@.len() as int) == v@);
    }
    r
}

/// Compares two byte vectors element by element.
pub fn bytes_eq(a: &Vec<u8>, b: &Vec<u8>) -> (r: bool)
    ensures
        r == (a@ == b@),
{
    if a.len() != b.len() {
        proof {
            assert(a@ != b@);
        }
        return false;
    }
    let mut i: usize = 0;
    while i < a.len()
        invariant
            i <= a@.len(),
            a@.len() == b@.len(),
            forall|j: int| 0 <= j < i ==> a@[j] == b@[j],
        decreases a@.len() - i,
    {
        if a[i] != b[i] {
            proof {
                assert(a@[i as int] != b@[i as int]);
            }
            return false;
        }
        i = i + 1;
    }
    proof {
        assert(a@ =~= b@);
    }
    true
}

/// Appends all bytes of `src` to `dst`.
pub fn append_bytes(dst: &mut Vec<u8>, src: &Vec<u8>)
    ensures
        final(dst)@ == old(dst)@ + src@,
{
    let mut i: usize = 0;
    while i < src.len()
        invariant
            i <= src@.len(),
            dst@ == old(dst)@ + src@.subrange(0, i as int),
        decreases src@.len() - i,
    {
        dst.push(src[i]);
        proof {
            assert(old(dst)@ + src@.subrange(0, i as int) + seq![src@[i as int]] == old(
                dst,
            )@ + src@.subrange(0, i + 1));
        }
        i = i + 1;
    }
    proof {
        assert(src@.subrange(0, src@.len() as int) == src@);
    }
}

/// Copies `len` bytes of `b` starting at `start`.
pub fn sub_bytes(b: &[u8], start: usize, len: usize) -> (r: Vec<u8>)
    requires
        start + len <= b@.len(),
    ensures
        r@ == b@.subrange(start as int, start + len),
{
    let total: usize = b.len();
    let mut r: Vec<u8> = Vec::new();
    let mut i: usize = 0;
    while i < len
        invariant
            i <= len,
            start + len <= total,
            total == b@.len(),
            r@ == b@.subrange(start as int, start + i),
        decreases len - i,
    {
        r.push(b[start + i]);
        proof {
            assert(b@.subrange(start as int, start + i) + seq![b@[start + i]] == b@.subrange(
                start as int,
                start + i + 1,
            ));
        }
        i = i + 1;
    }
    r
}

/// Relies on ark_ff's `Fr::from(u64)` and the canonical serializer:
/// the returned bytes encode the field element `n`.
#[verifier::external_body]
pub(crate) fn fr_from_u64(n: u64) -> (r: Scalar)
    ensures
        r@ == fr_of_u64_b(n),
{
    let x = ark_bls12_381::Fr::from(n);
    let mut b: Vec<u8> = Vec::new();
    x.serialize(&mut b).unwrap();
    Scalar { b }
}

/// Relies on ark_ff's field addition: the returned bytes encode the sum.
/// Field addition is commutative, and the integer lift is additive: for
/// values that fit in a `u64` the sum stays far below the field modulus, so
/// the lifts of `x` and `y` add to the lift of `x + y`.
#[verifier::external_body]
pub(crate) fn fr_add(a: &Scalar, b: &Scalar) -> (r: Scalar)
    ensures
        r@ == fr_add_b(a@, b@),
        r@ == fr_add_b(b@, a@),
        forall|x: u64, y: u64|
            #![trigger fr_of_u64_b(x), fr_of_u64_b(y)]
            a@ == fr_of_u64_b(x) && b@ == fr_of_u64_b(y) && x + y <= u64::MAX ==> r@
                == fr_of_u64_b((x + y) as u64),
{
    let x = ark_bls12_381::Fr::deserialize(&a.b[..]).unwrap();
    let y = ark_bls12_381::Fr::deserialize(&b.b[..]).unwrap();
    let z = x + y;
    let mut out: Vec<u8> = Vec::new();
    z.serialize(&mut out).unwrap();
    Scalar { b: out }
}

/// Relies on ark_ff's field subtraction: the returned bytes encode the difference.
#[verifier::external_body]
pub(crate) fn fr_sub(a: &Scalar, b: &Scalar) -> (r: Scalar)
    ensures
        r@ == fr_sub_b(a@, b@),
{
    let x = ark_bls12_381::Fr::deserialize(&a.b[..]).unwrap();
    let y = ark_bls12_381::Fr::deserialize(&b.b[..]).unwrap();
    let z = x - y;
    let mut out: Vec<u8> = Vec::new();
    z.serialize(&mut out).unwrap();
    Scalar { b: out }
}

/// Relies on ark_ff's field multiplication: the returned bytes encode the product.
#[verifier::external_body]
pub(crate) fn fr_mul(a: &Scalar, b: &Scalar) -> (r: Scalar)
    ensures
        r@ == fr_mul_b(a@, b@),
{
    let x = ark_bls12_381::Fr::deserialize(&a.b[..]).unwrap();
    let y = ark_bls12_381::Fr::deserialize(&b.b[..]).unwrap();
    let z = x * y;
    let mut out: Vec<u8> = Vec::new();
    z.serialize(&mut out).unwrap();
    Scalar { b: out }
}

/// Relies on ark_ff's field negation: the returned bytes encode the additive inverse.
#[verifier::external_body]
pub(crate) fn fr_neg(a: &Scalar) -> (r: Scalar)
    ensures
        r@ == fr_neg_b(a@),
{
    let x = ark_bls12_381::Fr::deserialize(&a.b[..]).unwrap();
    let z = -x;
    let mut out: Vec<u8> = Vec::new();
    z.serialize(&mut out).unwrap();
    Scalar { b: out }
}

/// Relies on ark_ff's `Field::inverse`: `None` exactly on the zero element
/// (whose canonical encoding is that of `Fr::from(0)`), and otherwise the
/// bytes of the multiplicative inverse.
#[verifier::external_body]
pub(crate) fn fr_inverse(a: &Scalar) -> (r: Option<Scalar>)
    ensures
        (r is Some) <==> a@ != fr_of_u64_b(0),
        r matches Some(s) ==> s@ == fr_inv_b(a@),
{
    let x = ark_bls12_381::Fr::deserialize(&a.b[..]).unwrap();
    match x.inverse() {
        None => None,
        Some(z) => {
            let mut out: Vec<u8> = Vec::new();
            z.serialize(&mut out).unwrap();
            Some(Scalar { b: out })
        },
    }
}

/// Relies on ark_ff's `UniformRand` with the thread-local cryptographic rng:
/// a field element about whose value nothing is promised.
#[verifier::external_body]
pub(crate) fn fr_rand() -> (r: Scalar) {
    let mut rng = rand::thread_rng();
    let x = ark_bls12_381::Fr::rand(&mut rng);
    let mut out: Vec<u8> = Vec::new();
    x.serialize(&mut out).unwrap();
    Scalar { b: out }
}

/// Relies on ark_serialize's checked deserializer for `Fr`: it accepts
/// exactly the canonical encodings (32 little-endian bytes below the field
/// modulus); the accepted bytes are kept as they are.
#[verifier::external_body]
pub(crate) fn fr_from_bytes(b: &Vec<u8>) -> (r: Option<Scalar>)
    requires
        b@.len() == FR_BYTES,
    ensures
        (r is Some) <==> fr_valid(b@),
        r matches Some(s) ==> s@ == b@,
{
    match ark_bls12_381::Fr::deserialize(&b[..]) {
        Err(_) => None,
        Ok(_) => Some(Scalar { b: b.clone() }),
    }
}

/// Relies on ark_ec's fixed group-1 generator.
#[verifier::external_body]
pub(crate) fn g1_generator() -> (r: G1Point) {
    let g = ark_bls12_381::G1Affine::prime_subgroup_generator();
    let mut out: Vec<u8> = Vec::new();
    g.serialize(&mut out).unwrap();
    G1Point { b: out }
}

/// Relies on ark_ec's scalar multiplication in group 1.
#[verifier::external_body]
pub(crate) fn g1_scale(p: &G1Point, s: &Scalar) -> (r: G1Point)
    ensures
        r@ == g1_scale_b(p@, s@),
{
    let pt = ark_bls12_381::G1Affine::deserialize(&p.b[..]).unwrap();
    let sc = ark_bls12_381::Fr::deserialize(&s.b[..]).unwrap();
    let z = pt.mul(sc.into_repr()).into_affine();
    let mut out: Vec<u8> = Vec::new();
    z.serialize(&mut out).unwrap();
    G1Point { b: out }
}

/// Relies on ark_ec's group-1 addition.
#[verifier::external_body]
pub(crate) fn g1_add(a: &G1Point, b: &G1Point) -> (r: G1Point)
    ensures
        r@ == g1_add_b(a@, b@),
{
    let x = ark_bls12_381::G1Affine::deserialize(&a.b[..]).unwrap();
    let y = ark_bls12_381::G1Affine::deserialize(&b.b[..]).unwrap();
    let z = (x.into_projective() + y.into_projective()).into_affine();
    let mut out: Vec<u8> = Vec::new();
    z.serialize(&mut out).unwrap();
    G1Point { b: out }
}

/// Relies on ark_ec's group-1 subtraction.
#[verifier::external_body]
pub(crate) fn g1_sub(a: &G1Point, b: &G1Point) -> (r: G1Point)
    ensures
        r@ == g1_sub_b(a@, b@),
{
    let x = ark_bls12_381::G1Affine::deserialize(&a.b[..]).unwrap();
    let y = ark_bls12_381::G1Affine::deserialize(&b.b[..]).unwrap();
    let z = (x.into_projective() - y.into_projective()).into_affine();
    let mut out: Vec<u8> = Vec::new();
    z.serialize(&mut out).unwrap();
    G1Point { b: out }
}

/// Relies on ark_serialize's checked deserializer and serializer for group-1
/// points: accepted are exactly the canonical encodings, the 48-byte strings
/// that decode to a point on the curve and in the prime-order subgroup and
/// re-encode to themselves.
#[verifier::external_body]
pub(crate) fn g1_from_bytes(b: &Vec<u8>) -> (r: Option<G1Point>)
    requires
        b@.len() == G1_BYTES,
    ensures
        (r is Some) <==> g1_valid(b@),
        r matches Some(p) ==> p@ == b@,
{
    match ark_bls12_381::G1Affine::deserialize(&b[..]) {
        Err(_) => None,
        Ok(p) => {
            let mut out: Vec<u8> = Vec::new();
            p.serialize(&mut out).unwrap();
            if out == *b { Some(G1Point { b: out }) } else { None }
        },
    }
}

/// Relies on ark_ec's fixed group-2 generator.
#[verifier::external_body]
pub(crate) fn g2_generator() -> (r: G2Point) {
    let g = ark_bls12_381::G2Affine::prime_subgroup_generator();
    let mut out: Vec<u8> = Vec::new();
    g.serialize(&mut out).unwrap();
    G2Point { b: out }
}

/// Relies on ark_ec's scalar multiplication in group 2.
#[verifier::external_body]
pub(crate) fn g2_scale(p: &G2Point, s: &Scalar) -> (r: G2Point)
    ensures
        r@ == g2_scale_b(p@, s@),
{
    let pt = ark_bls12_381::G2Affine::deserialize(&p.b[..]).unwrap();
    let sc = ark_bls12_381::Fr::deserialize(&s.b[..]).unwrap();
    let z = pt.mul(sc.into_repr()).into_affine();
    let mut out: Vec<u8> = Vec::new();
    z.serialize(&mut out).unwrap();
    G2Point { b: out }
}

/// Relies on ark_ec's group-2 subtraction.
#[verifier::external_body]
pub(crate) fn g2_sub(a: &G2Point, b: &G2Point) -> (r: G2Point)
    ensures
        r@ == g2_sub_b(a@, b@),
{
    let x = ark_bls12_381::G2Affine::deserialize(&a.b[..]).unwrap();
    let y = ark_bls12_381::G2Affine::deserialize(&b.b[..]).unwrap();
    let z = (x.into_projective() - y.into_projective()).into_affine();
    let mut out: Vec<u8> = Vec::new();
    z.serialize(&mut out).unwrap();
    G2Point { b: out }
}

/// Relies on ark_serialize's checked deserializer and serializer for group-2
/// points, as for group 1: only the canonical encodings are accepted.
#[verifier::external_body]
pub(crate) fn g2_from_bytes(b: &Vec<u8>) -> (r: Option<G2Point>)
    requires
        b@.len() == G2_BYTES,
    ensures
        (r is Some) <==> g2_valid(b@),
        r matches Some(p) ==> p@ == b@,
{
    match ark_bls12_381::G2Affine::deserialize(&b[..]) {
        Err(_) => None,
        Ok(p) => {
            let mut out: Vec<u8> = Vec::new();
            p.serialize(&mut out).unwrap();
            if out == *b { Some(G2Point { b: out }) } else { None }
        },
    }
}

/// Relies on ark_ec's bilinear pairing for BLS12-381: the returned bytes are
/// the canonical encoding of the pairing of the two points, so two pairings
/// are equal exactly when the returned byte strings are.
#[verifier::external_body]
pub(crate) fn pairing(p: &G1Point, q: &G2Point) -> (r: Vec<u8>)
    ensures
        r@ == pairing_b(p@, q@),
{
    let x = ark_bls12_381::G1Affine::deserialize(&p.b[..]).unwrap();
    let y = ark_bls12_381::G2Affine::deserialize(&q.b[..]).unwrap();
    let z = ark_bls12_381::Bls12_381::pairing(x, y);
    let mut out: Vec<u8> = Vec::new();
    z.serialize(&mut out).unwrap();
    out
}

} // verus!
