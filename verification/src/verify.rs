//! The aggregate proof for the identity `a * b - c = q * Z` and its
//! verification, together with its fixed-width wire encoding.

use vstd::prelude::*;

use crate::curve::{
    bytes_eq, fr_mul, fr_sub, fr_mul_b, fr_sub_b, fr_valid, g1_from_bytes, g1_valid, G1Point,
    Scalar, append_bytes, sub_bytes,
};
use crate::poly::vanish_b;
use crate::prove::{challenge_b, get_challenge_point, kzg_check_b, verify, Setup};

verus! {

/// The number of bytes in the wire encoding of an `ABCProof`: four group-1
/// commitments, four field evaluations, and four group-1 openings.
pub const ABC_BYTES: usize = 512;

/// The digest that identifies a byte string: what `blake3::hash` returns.
pub uninterp spec fn blake3_b(data: Seq<u8>) -> Seq<u8>;

/// The type of an `a * b = c` proof: a commitment, claimed evaluation and
/// opening for each of the polynomials `a`, `b`, `c` and the quotient `q`.
pub struct ABCProof {
    pub comm_a: G1Point,
    pub comm_b: G1Point,
    pub comm_c: G1Point,
    pub comm_q: G1Point,
    pub eval_a: Scalar,
    pub eval_b: Scalar,
    pub eval_c: Scalar,
    pub eval_q: Scalar,
    pub open_a: G1Point,
    pub open_b: G1Point,
    pub open_c: G1Point,
    pub open_q: G1Point,
}

/// The full verification predicate over the encodings of the twelve proof
/// fields: the challenge is derived from the commitments to `a` and `q`, each
/// of the four triples passes the pairing check, and the claimed evaluations
/// satisfy `a * b - c == q * Z` at the challenge.
pub open spec fn abc_check(
    g1_0: Seq<u8>,
    h: Seq<u8>,
    beta_h: Seq<u8>,
    size: u64,
    ca: Seq<u8>,
    cb: Seq<u8>,
    cc: Seq<u8>,
    cq: Seq<u8>,
    ea: Seq<u8>,
    eb: Seq<u8>,
    ec: Seq<u8>,
    eqv: Seq<u8>,
    oa: Seq<u8>,
    ob: Seq<u8>,
    oc: Seq<u8>,
    oq: Seq<u8>,
) -> bool {
    let ch = challenge_b(ca + cq);
    let vz = vanish_b(size, ch);
    &&& kzg_check_b(g1_0, h, beta_h, ca, ch, ea, oa)
    &&& kzg_check_b(g1_0, h, beta_h, cb, ch, eb, ob)
    &&& kzg_check_b(g1_0, h, beta_h, cc, ch, ec, oc)
    &&& kzg_check_b(g1_0, h, beta_h, cq, ch, eqv, oq)
    &&& fr_sub_b(fr_mul_b(ea, eb), ec) == fr_mul_b(eqv, vz)
}

/// Holds of exactly those byte strings that parse as a proof: the right
/// length, and every field a canonical element encoding.
pub open spec fn parse_ok(b: Seq<u8>) -> bool {
    &&& b.len() == ABC_BYTES
    &&& g1_valid(b.subrange(0, 48))
    &&& g1_valid(b.subrange(48, 96))
    &&& g1_valid(b.subrange(96, 144))
    &&& g1_valid(b.subrange(144, 192))
    &&& fr_valid(b.subrange(192, 224))
    &&& fr_valid(b.subrange(224, 256))
    &&& fr_valid(b.subrange(256, 288))
    &&& fr_valid(b.subrange(288, 320))
    &&& g1_valid(b.subrange(320, 368))
    &&& g1_valid(b.subrange(368, 416))
    &&& g1_valid(b.subrange(416, 464))
    &&& g1_valid(b.subrange(464, 512))
}

/// The verification predicate applied to the fields encoded in a wire proof.
pub open spec fn valid_bytes(b: Seq<u8>, setup: &Setup) -> bool {
    abc_check(
        setup.g1_powers@[0]@,
        setup.h@,
        setup.beta_h@,
        setup.domain.size,
        b.subrange(0, 48),
        b.subrange(48, 96),
        b.subrange(96, 144),
        b.subrange(144, 192),
        b.subrange(192, 224),
        b.subrange(224, 256),
        b.subrange(256, 288),
        b.subrange(288, 320),
        b.subrange(320, 368),
        b.subrange(368, 416),
        b.subrange(416, 464),
        b.subrange(464, 512),
    )
}

impl ABCProof {
    /// The wire encoding: the twelve fields, in order, each in its canonical
    /// fixed-width form.
    pub open spec fn ser(&self) -> Seq<u8> {
        self.comm_a@ + self.comm_b@ + self.comm_c@ + self.comm_q@ + self.eval_a@ + self.eval_b@
            + self.eval_c@ + self.eval_q@ + self.open_a@ + self.open_b@ + self.open_c@
            + self.open_q@
    }

    /// The verification predicate applied to this proof's fields.
    pub open spec fn valid(&self, setup: &Setup) -> bool {
        abc_check(
            setup.g1_powers@[0]@,
            setup.h@,
            setup.beta_h@,
            setup.domain.size,
            self.comm_a@,
            self.comm_b@,
            self.comm_c@,
            self.comm_q@,
            self.eval_a@,
            self.eval_b@,
            self.eval_c@,
            self.eval_q@,
            self.open_a@,
            self.open_b@,
            self.open_c@,
            self.open_q@,
        )
    }

    /// Serializes the proof into its wire encoding.
    pub fn as_bytes(&self) -> (r: Vec<u8>)
        ensures
            r@ == self.ser(),
            r@.len() == ABC_BYTES,
            parse_ok(self.ser()),
    {
        let mut r = self.comm_a.as_bytes();
        let bs = self.comm_b.as_bytes();
        append_bytes(&mut r, &bs);
        let bs = self.comm_c.as_bytes();
        append_bytes(&mut r, &bs);
        let bs = self.comm_q.as_bytes();
        append_bytes(&mut r, &bs);
        let bs = self.eval_a.as_bytes();
        append_bytes(&mut r, &bs);
        let bs = self.eval_b.as_bytes();
        append_bytes(&mut r, &bs);
        let bs = self.eval_c.as_bytes();
        append_bytes(&mut r, &bs);
        let bs = self.eval_q.as_bytes();
        append_bytes(&mut r, &bs);
        let bs = self.open_a.as_bytes();
        append_bytes(&mut r, &bs);
        let bs = self.open_b.as_bytes();
        append_bytes(&mut r, &bs);
        let bs = self.open_c.as_bytes();
        append_bytes(&mut r, &bs);
        let bs = self.open_q.as_bytes();
        append_bytes(&mut r, &bs);
        proof {
            lemma_abc_roundtrip(
                self.comm_a@,
                self.comm_b@,
                self.comm_c@,
                self.comm_q@,
                self.eval_a@,
                self.eval_b@,
                self.eval_c@,
                self.eval_q@,
                self.open_a@,
                self.open_b@,
                self.open_c@,
                self.open_q@,
            );
        }
        r
    }

    /// Parses a wire encoding; `None` exactly when the bytes are not a
    /// well-formed proof. On success every field is recovered exactly from
    /// its chunk of the input.
    pub fn from_bytes(bytes: &[u8]) -> (r: Option<ABCProof>)
        ensures
            (r is Some) <==> parse_ok(bytes@),
            r matches Some(p) ==> p.ser() == bytes@ && p.valid_fields_match(bytes@),
    {
        if bytes.len() != ABC_BYTES {
            return None;
        }
        let chunk = sub_bytes(bytes, 0, 48);
        let comm_a = match g1_from_bytes(&chunk) { Some(p) => p, None => { return None } };
        let chunk = sub_bytes(bytes, 48, 48);
        let comm_b = match g1_from_bytes(&chunk) { Some(p) => p, None => { return None } };
        let chunk = sub_bytes(bytes, 96, 48);
        let comm_c = match g1_from_bytes(&chunk) { Some(p) => p, None => { return None } };
        let chunk = sub_bytes(bytes, 144, 48);
        let comm_q = match g1_from_bytes(&chunk) { Some(p) => p, None => { return None } };
        let chunk = sub_bytes(bytes, 192, 32);
        let eval_a = match crate::curve::fr_from_bytes(&chunk) { Some(s) => s, None => { return None } };
        let chunk = sub_bytes(bytes, 224, 32);
        let eval_b = match crate::curve::fr_from_bytes(&chunk) { Some(s) => s, None => { return None } };
        let chunk = sub_bytes(bytes, 256, 32);
        let eval_c = match crate::curve::fr_from_bytes(&chunk) { Some(s) => s, None => { return None } };
        let chunk = sub_bytes(bytes, 288, 32);
        let eval_q = match crate::curve::fr_from_bytes(&chunk) { Some(s) => s, None => { return None } };
        let chunk = sub_bytes(bytes, 320, 48);
        let open_a = match g1_from_bytes(&chunk) { Some(p) => p, None => { return None } };
        let chunk = sub_bytes(bytes, 368, 48);
        let open_b = match g1_from_bytes(&chunk) { Some(p) => p, None => { return None } };
        let chunk = sub_bytes(bytes, 416, 48);
        let open_c = match g1_from_bytes(&chunk) { Some(p) => p, None => { return None } };
        let chunk = sub_bytes(bytes, 464, 48);
        let open_q = match g1_from_bytes(&chunk) { Some(p) => p, None => { return None } };
        let p = ABCProof {
            comm_a, comm_b, comm_c, comm_q,
            eval_a, eval_b, eval_c, eval_q,
            open_a, open_b, open_c, open_q,
        };
        proof {
            lemma_concat_of_chunks(bytes@);
        }
        Some(p)
    }

    /// Each field's encoding equals its chunk of `b`.
    pub open spec fn valid_fields_match(&self, b: Seq<u8>) -> bool {
        &&& self.comm_a@ == b.subrange(0, 48)
        &&& self.comm_b@ == b.subrange(48, 96)
        &&& self.comm_c@ == b.subrange(96, 144)
        &&& self.comm_q@ == b.subrange(144, 192)
        &&& self.eval_a@ == b.subrange(192, 224)
        &&& self.eval_b@ == b.subrange(224, 256)
        &&& self.eval_c@ == b.subrange(256, 288)
        &&& self.eval_q@ == b.subrange(288, 320)
        &&& self.open_a@ == b.subrange(320, 368)
        &&& self.open_b@ == b.subrange(368, 416)
        &&& self.open_c@ == b.subrange(416, 464)
        &&& self.open_q@ == b.subrange(464, 512)
    }

    /// Function used by the verifier to check the validity of an
    /// `a * b = c` proof: derive the challenge from the commitments to `a`
    /// and `q`, evaluate the vanishing polynomial there, run the pairing
    /// check on all four triples, and check the scalar identity. All four
    /// pairing checks are computed before the results are combined.
    pub fn verify(&self, setup: &Setup) -> (r: bool)
        requires
            setup.wf(),
        ensures
            r == self.valid(setup),
    {
        let mut transcript = self.comm_a.as_bytes();
        let qb = self.comm_q.as_bytes();
        append_bytes(&mut transcript, &qb);
        let eval_point = get_challenge_point(transcript.as_slice());
        let eval_z = crate::poly::vanish_at(setup.domain.size, &eval_point);
        let ok_a = verify(setup, &self.comm_a, &eval_point, &self.eval_a, &self.open_a);
        let ok_b = verify(setup, &self.comm_b, &eval_point, &self.eval_b, &self.open_b);
        let ok_c = verify(setup, &self.comm_c, &eval_point, &self.eval_c, &self.open_c);
        let ok_q = verify(setup, &self.comm_q, &eval_point, &self.eval_q, &self.open_q);
        let lhs = fr_sub(&fr_mul(&self.eval_a, &self.eval_b), &self.eval_c);
        let rhs = fr_mul(&self.eval_q, &eval_z);
        let id_ok = lhs.equals(&rhs);
        ok_a && ok_b && ok_c && ok_q && id_ok
    }
}

/// A wire encoding made of twelve canonical chunks parses, and parsing
/// recovers exactly the chunks that were encoded: the serialization
/// round-trip for proofs.
pub proof fn lemma_abc_roundtrip(
    ca: Seq<u8>,
    cb: Seq<u8>,
    cc: Seq<u8>,
    cq: Seq<u8>,
    ea: Seq<u8>,
    eb: Seq<u8>,
    ec: Seq<u8>,
    eqv: Seq<u8>,
    oa: Seq<u8>,
    ob: Seq<u8>,
    oc: Seq<u8>,
    oq: Seq<u8>,
)
    requires
        ca.len() == 48 && g1_valid(ca),
        cb.len() == 48 && g1_valid(cb),
        cc.len() == 48 && g1_valid(cc),
        cq.len() == 48 && g1_valid(cq),
        ea.len() == 32 && fr_valid(ea),
        eb.len() == 32 && fr_valid(eb),
        ec.len() == 32 && fr_valid(ec),
        eqv.len() == 32 && fr_valid(eqv),
        oa.len() == 48 && g1_valid(oa),
        ob.len() == 48 && g1_valid(ob),
        oc.len() == 48 && g1_valid(oc),
        oq.len() == 48 && g1_valid(oq),
    ensures
        ({
            let w = ca + cb + cc + cq + ea + eb + ec + eqv + oa + ob + oc + oq;
            &&& parse_ok(w)
            &&& w.subrange(0, 48) == ca
            &&& w.subrange(48, 96) == cb
            &&& w.subrange(96, 144) == cc
            &&& w.subrange(144, 192) == cq
            &&& w.subrange(192, 224) == ea
            &&& w.subrange(224, 256) == eb
            &&& w.subrange(256, 288) == ec
            &&& w.subrange(288, 320) == eqv
            &&& w.subrange(320, 368) == oa
            &&& w.subrange(368, 416) == ob
            &&& w.subrange(416, 464) == oc
            &&& w.subrange(464, 512) == oq
        }),
{
    let w = ca + cb + cc + cq + ea + eb + ec + eqv + oa + ob + oc + oq;
    assert(w.subrange(0, 48) =~= ca);
    assert(w.subrange(48, 96) =~= cb);
    assert(w.subrange(96, 144) =~= cc);
    assert(w.subrange(144, 192) =~= cq);
    assert(w.subrange(192, 224) =~= ea);
    assert(w.subrange(224, 256) =~= eb);
    assert(w.subrange(256, 288) =~= ec);
    assert(w.subrange(288, 320) =~= eqv);
    assert(w.subrange(320, 368) =~= oa);
    assert(w.subrange(368, 416) =~= ob);
    assert(w.subrange(416, 464) =~= oc);
    assert(w.subrange(464, 512) =~= oq);
}

/// A 512-byte string is the concatenation of its twelve chunks.
proof fn lemma_concat_of_chunks(b: Seq<u8>)
    requires
        b.len() == 512,
    ensures
        b.subrange(0, 48) + b.subrange(48, 96) + b.subrange(96, 144) + b.subrange(144, 192)
            + b.subrange(192, 224) + b.subrange(224, 256) + b.subrange(256, 288) + b.subrange(
            288,
            320,
        ) + b.subrange(320, 368) + b.subrange(368, 416) + b.subrange(416, 464) + b.subrange(
            464,
            512,
        ) == b,
{
    assert(b.subrange(0, 48) + b.subrange(48, 96) + b.subrange(96, 144) + b.subrange(144, 192)
        + b.subrange(192, 224) + b.subrange(224, 256) + b.subrange(256, 288) + b.subrange(288, 320)
        + b.subrange(320, 368) + b.subrange(368, 416) + b.subrange(416, 464) + b.subrange(464, 512)
        =~= b);
}

/// Deserializes a submitted proof and verifies it. Malformed input is an
/// invalid proof, never a failure: untrusted bytes cannot crash the verifier.
pub fn check_solution(serialized_proof: &[u8], setup: &Setup) -> (r: bool)
    requires
        setup.wf(),
    ensures
        r == (parse_ok(serialized_proof@) && valid_bytes(serialized_proof@, setup)),
{
    match ABCProof::from_bytes(serialized_proof) {
        None => false,
        Some(proof) => proof.verify(setup),
    }
}

/// Relies on `blake3::hash`: the 32-byte digest of the input, a function of
/// the input bytes alone.
#[verifier::external_body]
fn blake3_hash(data: &Vec<u8>) -> (r: Vec<u8>)
    ensures
        r@ == blake3_b(data@),
        r@.len() == 32,
{
    blake3::hash(&data[..]).as_bytes().to_vec()
}

/// The first-line check for a submission: the claimed hash must be the
/// digest of the submitted bytes, and the bytes must verify as a proof. A
/// wrong hash makes the submission invalid even when the proof itself would
/// verify.
pub fn check_submission(claimed_hash: &Vec<u8>, serialized_proof: &Vec<u8>, setup: &Setup) -> (r:
    bool)
    requires
        setup.wf(),
    ensures
        r == (claimed_hash@ == blake3_b(serialized_proof@) && parse_ok(serialized_proof@)
            && valid_bytes(serialized_proof@, setup)),
        claimed_hash@ != blake3_b(serialized_proof@) ==> r == false,
{
    let digest = blake3_hash(serialized_proof);
    if !bytes_eq(claimed_hash, &digest) {
        return false;
    }
    check_solution(serialized_proof.as_slice(), setup)
}

} // verus!
