//! End-to-end tests of the commitment scheme, the proof protocol, the wire
//! encodings and the hash binding, with the real arkworks and blake3 crates
//! linked.

use zk_summit_challenge::metric::{big_integer_metric, BigInt256};
use zk_summit_challenge::poly::Polynomial;
use zk_summit_challenge::prove::{
    commit, create_proof, evaluate, get_challenge_point, interpolate, open, prepare_for_submission,
    scalar, setup, verify, Setup,
};
use zk_summit_challenge::verify::{check_solution, check_submission, ABCProof};

#[test]
fn big_integer_metric_test() {
    let four = BigInt256::from_u64(4u64);
    let ten = BigInt256::from_u64(10u64);
    let six = BigInt256::from_u64(6u64);
    assert_eq!(big_integer_metric(&four, &ten), six);
    assert_eq!(big_integer_metric(&ten, &four), six);
}

#[test]
fn big_integer_metric_multi_limb() {
    let a = BigInt256::from_limbs(0, 1, 0, 0);
    let b = BigInt256::from_u64(1);
    let expect = BigInt256::from_limbs(u64::MAX, 0, 0, 0);
    assert_eq!(big_integer_metric(&a, &b), expect);
    assert_eq!(big_integer_metric(&b, &a), expect);
}

#[test]
fn commitment_opening_scenario() {
    let s = setup(4);
    let values = vec![scalar(1), scalar(2), scalar(3), scalar(4)];
    let p = interpolate(&values, &s);
    let c = commit(&p, &s);
    let z = scalar(7);
    let v = evaluate(&p, &z);
    let o = open(&p, &z, &s);
    assert!(verify(&s, &c, &z, &v, &o));
    // A wrong claimed value must fail the pairing check.
    assert!(!verify(&s, &c, &z, &scalar(999), &o));
    // A substituted opening (here: a commitment to an unrelated polynomial)
    // must fail the pairing check.
    let other = interpolate(&vec![scalar(9), scalar(9)], &s);
    let bad_opening = commit(&other, &s);
    assert!(!verify(&s, &c, &z, &v, &bad_opening));
}

#[test]
fn interpolation_hits_first_domain_point() {
    // The first element of the multiplicative evaluation domain is one, so
    // the interpolated polynomial takes the first value there.
    let s = setup(4);
    let values = vec![scalar(1), scalar(2), scalar(3), scalar(4)];
    let p = interpolate(&values, &s);
    let at_one = evaluate(&p, &scalar(1));
    assert_eq!(at_one.as_bytes(), scalar(1).as_bytes());
}

#[test]
fn evaluate_constant_polynomial() {
    let p = Polynomial { coeffs: vec![scalar(5)] };
    let v = evaluate(&p, &scalar(9));
    assert_eq!(v.as_bytes(), scalar(5).as_bytes());
}

#[test]
fn abc_proof_verifies() {
    let s = setup(4);
    let proof = create_proof(&s);
    assert!(proof.verify(&s));
    let bytes = prepare_for_submission(&proof);
    assert!(check_solution(&bytes, &s));
}

#[test]
fn abc_proof_single_field_mutation_fails() {
    let s = setup(4);
    let proof = create_proof(&s);
    let mut bytes = prepare_for_submission(&proof);
    // Flip the low byte of eval_c (offset 256): still a canonical field
    // element, but the scalar identity no longer holds.
    bytes[256] ^= 1;
    assert!(!check_solution(&bytes, &s));
}

#[test]
fn abc_proof_opening_mutation_fails() {
    let s = setup(4);
    let proof = create_proof(&s);
    let mut bytes = prepare_for_submission(&proof);
    // Corrupt a byte of open_a (offset 320): either the point no longer
    // parses or the pairing check fails.
    bytes[320] ^= 1;
    assert!(!check_solution(&bytes, &s));
}

#[test]
fn zero_polynomial_commitment() {
    // The empty coefficient vector is the zero polynomial: it commits to the
    // zero point, evaluates to zero everywhere, and its openings verify.
    let s = setup(3);
    let empty = Polynomial { coeffs: vec![] };
    let zero = Polynomial { coeffs: vec![scalar(0)] };
    assert_eq!(commit(&empty, &s).as_bytes(), commit(&zero, &s).as_bytes());
    let z = scalar(11);
    let v = evaluate(&empty, &z);
    assert_eq!(v.as_bytes(), scalar(0).as_bytes());
    let o = open(&empty, &z, &s);
    assert!(verify(&s, &commit(&empty, &s), &z, &v, &o));
}

#[test]
fn non_canonical_infinity_encoding_rejected() {
    // ark's deserializer ignores the x-bytes of an infinity-flagged string;
    // the library accepts only the canonical form, where they are zero.
    let s = setup(4);
    let proof = create_proof(&s);
    let bytes = proof.as_bytes();
    // Canonical zero point in place of comm_a: parses.
    let mut canonical = bytes.clone();
    for i in 0..48 {
        canonical[i] = 0;
    }
    canonical[47] = 0x40;
    assert!(ABCProof::from_bytes(&canonical).is_some());
    // Same with a stray x-byte: rejected.
    let mut stray = canonical.clone();
    stray[0] = 1;
    assert!(ABCProof::from_bytes(&stray).is_none());
}

#[test]
fn check_solution_rejects_malformed_input() {
    let s = setup(3);
    assert!(!check_solution(&[0u8; 10], &s));
    assert!(!check_solution(&[0u8; 511], &s));
    assert!(!check_solution(&[0u8; 512], &s));
    assert!(ABCProof::from_bytes(&[0u8; 511]).is_none());
}

#[test]
fn proof_serialization_round_trip() {
    let s = setup(4);
    let proof = create_proof(&s);
    let bytes = proof.as_bytes();
    assert_eq!(bytes.len(), 512);
    let parsed = ABCProof::from_bytes(&bytes).expect("canonical proof bytes must parse");
    assert_eq!(parsed.as_bytes(), bytes);
    assert_eq!(parsed.comm_a.as_bytes(), proof.comm_a.as_bytes());
    assert_eq!(parsed.eval_q.as_bytes(), proof.eval_q.as_bytes());
    assert_eq!(parsed.open_c.as_bytes(), proof.open_c.as_bytes());
}

#[test]
fn setup_serialization_round_trip() {
    let s = setup(3);
    let bytes = s.as_bytes();
    let parsed = Setup::from_bytes(&bytes).expect("canonical setup bytes must parse");
    assert_eq!(parsed.as_bytes(), bytes);
    assert_eq!(parsed.domain.size, s.domain.size);
    assert_eq!(parsed.g1_powers.len(), s.g1_powers.len());
    assert_eq!(parsed.h.as_bytes(), s.h.as_bytes());
    assert_eq!(parsed.beta_h.as_bytes(), s.beta_h.as_bytes());
    assert_eq!(parsed.challenge_data.b.len(), s.challenge_data.b.len());
}

#[test]
fn setup_from_bytes_rejects_malformed_input() {
    assert!(Setup::from_bytes(&[1, 2, 3]).is_none());
    assert!(Setup::from_bytes(&[0u8; 300]).is_none());
}

#[test]
fn hash_binding() {
    let s = setup(4);
    let proof = create_proof(&s);
    let bytes = prepare_for_submission(&proof);
    let good_hash = blake3::hash(&bytes).as_bytes().to_vec();
    assert!(check_submission(&good_hash, &bytes, &s));
    let mut bad_hash = good_hash.clone();
    bad_hash[0] ^= 0xff;
    // A wrong hash makes the submission invalid even though the proof is good.
    assert!(!check_submission(&bad_hash, &bytes, &s));
}

#[test]
fn challenge_determinism() {
    let transcript = vec![3u8, 1, 4, 1, 5, 9, 2, 6];
    let c1 = get_challenge_point(&transcript);
    let c2 = get_challenge_point(&transcript);
    assert_eq!(c1.as_bytes(), c2.as_bytes());
    // The challenge of a one-byte transcript is the lift of that byte.
    let c3 = get_challenge_point(&[1u8]);
    assert_eq!(c3.as_bytes(), scalar(1).as_bytes());
    // The challenge is the sum of the byte lifts.
    let c5 = get_challenge_point(&[2u8, 3u8]);
    assert_eq!(c5.as_bytes(), scalar(5).as_bytes());
    // It therefore depends only on the multiset of transcript bytes.
    let c6 = get_challenge_point(&[4u8, 3u8, 1u8]);
    let c7 = get_challenge_point(&[1u8, 4u8, 3u8]);
    assert_eq!(c6.as_bytes(), c7.as_bytes());
    // The empty transcript maps to zero.
    let c4 = get_challenge_point(&[]);
    assert_eq!(c4.as_bytes(), scalar(0).as_bytes());
}
