//! The commitment scheme: reference-string generation, polynomial
//! interpolation and evaluation, commitments, evaluation openings, the
//! pairing check, and the derivation of the non-interactive challenge.

use vstd::prelude::*;

use crate::curve::{
    append_bytes, bytes_eq, fr_add, fr_add_b, fr_from_bytes, fr_from_u64, fr_inv_b, fr_inverse,
    fr_mul, fr_mul_b, fr_neg, fr_neg_b, fr_of_u64_b, fr_rand, fr_sub, fr_sub_b, fr_valid, g1_add, g1_add_b,
    g1_from_bytes, g1_generator, g1_scale, g1_scale_b, g1_sub, g1_sub_b, g1_valid, g2_from_bytes,
    g2_generator, g2_scale, g2_scale_b, g2_sub, g2_sub_b, g2_valid, pairing, pairing_b, sub_bytes,
    G1Point, G2Point, Scalar,
};
use crate::poly::{
    domain_new, domain_size_b, ifft, ifft_b, is_pow2, poly_div, poly_div_b, poly_eval, poly_eval_b,
    poly_mul, poly_mul_b, views_of, Polynomial,
};

verus! {

/// The instance data of the underlying puzzle: the field elements whose
/// multiplicative inverses a valid proof demonstrates knowledge of.
pub struct ChallengeData {
    pub b: Vec<Scalar>,
}

/// The evaluation domain over which polynomials are interpolated, determined
/// by its size: the multiplicative subgroup of that order.
pub struct Domain {
    pub size: u64,
}

impl Domain {
    /// A size that the arkworks radix-2 domain construction accepts.
    pub open spec fn wf(&self) -> bool {
        &&& is_pow2(self.size as nat)
        &&& 1 <= self.size <= 0x1_0000_0000
    }
}

/// The structured reference string together with the evaluation domain and
/// the published instance data. Immutable once generated.
pub struct Setup {
    /// `g1_powers[i]` encodes `secret^i * G1` for the one-time secret scalar.
    pub g1_powers: Vec<G1Point>,
    /// The fixed group-2 generator.
    pub h: G2Point,
    /// `secret * h`: the trapdoor exponent, encoded in group 2.
    pub beta_h: G2Point,
    /// The evaluation domain; its size equals the number of group-1 powers.
    pub domain: Domain,
    /// The published puzzle instance.
    pub challenge_data: ChallengeData,
}

impl Setup {
    /// Structural well-formedness: the domain is valid and there is one
    /// group-1 power for each domain element.
    pub open spec fn wf(&self) -> bool {
        &&& self.domain.wf()
        &&& self.g1_powers@.len() == self.domain.size
    }
}

/// The concatenation of a sequence of byte strings, in order.
pub open spec fn cat_all(s: Seq<Seq<u8>>) -> Seq<u8>
    decreases s.len(),
{
    if s.len() == 0 {
        Seq::empty()
    } else {
        cat_all(s.drop_last()) + s.last()
    }
}

/// The concatenation of strings of width `w` has length `w` times their number.
pub proof fn lemma_cat_all_len(vs: Seq<Seq<u8>>, w: int)
    requires
        w >= 0,
        forall|j: int| 0 <= j < vs.len() ==> (#[trigger] vs[j]).len() == w,
    ensures
        cat_all(vs).len() == w * vs.len(),
    decreases vs.len(),
{
    if vs.len() > 0 {
        lemma_cat_all_len(vs.drop_last(), w);
        assert(w * (vs.len() - 1) + w == w * vs.len()) by (nonlinear_arith);
    }
}

/// The `i`-th width-`w` chunk of the concatenation of width-`w` strings is
/// the `i`-th string.
pub proof fn lemma_cat_all_chunk(vs: Seq<Seq<u8>>, w: int, i: int)
    requires
        w >= 0,
        forall|j: int| 0 <= j < vs.len() ==> (#[trigger] vs[j]).len() == w,
        0 <= i < vs.len(),
    ensures
        cat_all(vs).subrange(w * i, w * i + w) == vs[i],
    decreases vs.len(),
{
    lemma_cat_all_len(vs, w);
    lemma_cat_all_len(vs.drop_last(), w);
    if i == vs.len() - 1 {
        assert(w * (vs.len() - 1) == w * vs.len() - w) by (nonlinear_arith);
        assert(cat_all(vs).subrange(w * i, w * i + w) =~= vs[i]);
    } else {
        lemma_cat_all_chunk(vs.drop_last(), w, i);
        assert(w * i + w <= w * (vs.len() - 1)) by (nonlinear_arith)
            requires
                w >= 0,
                0 <= i < vs.len() - 1,
        ;
        assert(cat_all(vs).subrange(w * i, w * i + w) =~= cat_all(vs.drop_last()).subrange(
            w * i,
            w * i + w,
        ));
    }
}

/// The multi-scalar product committing `coeffs` against `powers`:
/// the sum of `coeffs[i] * powers[i]`, accumulated left to right. The empty
/// coefficient vector is the zero polynomial and commits to the zero point,
/// written here as the first power scaled by zero.
pub open spec fn msm_b(coeffs: Seq<Seq<u8>>, powers: Seq<Seq<u8>>) -> Seq<u8>
    recommends
        coeffs.len() <= powers.len(),
        powers.len() >= 1,
    decreases coeffs.len(),
{
    if coeffs.len() == 0 {
        g1_scale_b(powers[0], fr_of_u64_b(0))
    } else if coeffs.len() == 1 {
        g1_scale_b(powers[0], coeffs[0])
    } else {
        g1_add_b(
            msm_b(coeffs.drop_last(), powers),
            g1_scale_b(powers[coeffs.len() - 1], coeffs[coeffs.len() - 1]),
        )
    }
}

/// Holds of exactly those byte strings that parse as a `Setup`: an 8-byte
/// domain size (a power of two in range), an 8-byte instance count, the two
/// group-2 points, one group-1 point per domain element, and the instance
/// scalars, every element in canonical form.
pub open spec fn setup_wire_ok(b: Seq<u8>) -> bool {
    let size = vstd::bytes::spec_u64_from_le_bytes(b.subrange(0, 8)) as int;
    let count = vstd::bytes::spec_u64_from_le_bytes(b.subrange(8, 16)) as int;
    &&& b.len() >= 16
    &&& is_pow2(size as nat)
    &&& 1 <= size <= 0x1_0000_0000
    &&& b.len() == 208 + 48 * size + 32 * count
    &&& g2_valid(b.subrange(16, 112))
    &&& g2_valid(b.subrange(112, 208))
    &&& (forall|i: int|
        0 <= i < size ==> g1_valid(#[trigger] b.subrange(208 + 48 * i, 208 + 48 * i + 48)))
    &&& (forall|i: int|
        0 <= i < count ==> fr_valid(
            #[trigger] b.subrange(208 + 48 * size + 32 * i, 208 + 48 * size + 32 * i + 32),
        ))
}

impl Setup {
    /// The canonical encoding of this setup: the domain size, the instance
    /// count, the two group-2 points, the group-1 powers, and the instance
    /// scalars.
    pub open spec fn ser(&self) -> Seq<u8> {
        vstd::bytes::spec_u64_to_le_bytes(self.domain.size) + vstd::bytes::spec_u64_to_le_bytes(
            self.challenge_data.b@.len() as u64,
        ) + self.h@ + self.beta_h@ + cat_all(views_of(self.g1_powers@)) + cat_all(
            views_of(self.challenge_data.b@),
        )
    }

    /// Serializes the setup into its canonical encoding, which parses back.
    pub fn as_bytes(&self) -> (r: Vec<u8>)
        requires
            self.wf(),
            self.challenge_data.b@.len() <= 0xffff_ffff,
        ensures
            r@ == self.ser(),
            setup_wire_ok(self.ser()),
    {
        proof {
            vstd::bytes::lemma_auto_spec_u64_to_from_le_bytes();
        }
        let mut r = vstd::bytes::u64_to_le_bytes(self.domain.size);
        let count: u64 = self.challenge_data.b.len() as u64;
        let cb = vstd::bytes::u64_to_le_bytes(count);
        append_bytes(&mut r, &cb);
        let hb = self.h.as_bytes();
        append_bytes(&mut r, &hb);
        let bhb = self.beta_h.as_bytes();
        append_bytes(&mut r, &bhb);
        let ghost prefix = r@;
        let mut i: usize = 0;
        while i < self.g1_powers.len()
            invariant
                i <= self.g1_powers@.len(),
                r@ == prefix + cat_all(views_of(self.g1_powers@.subrange(0, i as int))),
                forall|j: int|
                    0 <= j < i ==> g1_valid(#[trigger] self.g1_powers@[j]@)
                        && self.g1_powers@[j]@.len() == 48,
            decreases self.g1_powers@.len() - i,
        {
            let pb = self.g1_powers[i].as_bytes();
            append_bytes(&mut r, &pb);
            proof {
                let pre = views_of(self.g1_powers@.subrange(0, i as int));
                let cur = views_of(self.g1_powers@.subrange(0, i + 1));
                assert(cur.drop_last() =~= pre);
                assert(cur.last() == self.g1_powers@[i as int]@);
            }
            i = i + 1;
        }
        proof {
            assert(self.g1_powers@.subrange(0, self.g1_powers@.len() as int) == self.g1_powers@);
        }
        let ghost prefix2 = r@;
        let mut j: usize = 0;
        while j < self.challenge_data.b.len()
            invariant
                j <= self.challenge_data.b@.len(),
                r@ == prefix2 + cat_all(views_of(self.challenge_data.b@.subrange(0, j as int))),
                forall|k: int|
                    0 <= k < j ==> fr_valid(#[trigger] self.challenge_data.b@[k]@)
                        && self.challenge_data.b@[k]@.len() == 32,
            decreases self.challenge_data.b@.len() - j,
        {
            let sb = self.challenge_data.b[j].as_bytes();
            append_bytes(&mut r, &sb);
            proof {
                let pre = views_of(self.challenge_data.b@.subrange(0, j as int));
                let cur = views_of(self.challenge_data.b@.subrange(0, j + 1));
                assert(cur.drop_last() =~= pre);
                assert(cur.last() == self.challenge_data.b@[j as int]@);
            }
            j = j + 1;
        }
        proof {
            assert(self.challenge_data.b@.subrange(0, self.challenge_data.b@.len() as int)
                == self.challenge_data.b@);
            lemma_setup_ser_ok(self);
        }
        r
    }

    /// Parses a canonical encoding; `None` exactly when the bytes are not a
    /// well-formed setup. On success the parsed setup is well formed and
    /// re-serializes to exactly the input, so serialization round-trips.
    pub fn from_bytes(bytes: &[u8]) -> (r: Option<Setup>)
        ensures
            (r is Some) <==> setup_wire_ok(bytes@),
            r matches Some(s) ==> s.wf() && s.ser() == bytes@,
    {
        proof {
            vstd::bytes::lemma_auto_spec_u64_to_from_le_bytes();
        }
        let blen: usize = bytes.len();
        if blen < 16 {
            return None;
        }
        let head = sub_bytes(bytes, 0, 8);
        let size: u64 = vstd::bytes::u64_from_le_bytes(head.as_slice());
        let chead = sub_bytes(bytes, 8, 8);
        let count: u64 = vstd::bytes::u64_from_le_bytes(chead.as_slice());
        if size < 1 || size > 0x1_0000_0000 {
            return None;
        }
        if !crate::poly::pow2_check(size) {
            return None;
        }
        let total: u128 = 208u128 + 48u128 * (size as u128) + 32u128 * (count as u128);
        if (blen as u128) != total {
            return None;
        }
        let hch = sub_bytes(bytes, 16, 96);
        let h = match g2_from_bytes(&hch) {
            Some(p) => p,
            None => { return None },
        };
        let bch = sub_bytes(bytes, 112, 96);
        let beta_h = match g2_from_bytes(&bch) {
            Some(p) => p,
            None => { return None },
        };
        let size_us: usize = size as usize;
        let mut powers: Vec<G1Point> = Vec::new();
        let mut i: usize = 0;
        while i < size_us
            invariant
                i <= size_us,
                size_us == size,
                blen == bytes@.len(),
                blen == 208 + 48 * (size as int) + 32 * (count as int),
                size == vstd::bytes::spec_u64_from_le_bytes(bytes@.subrange(0, 8)),
                count == vstd::bytes::spec_u64_from_le_bytes(bytes@.subrange(8, 16)),
                is_pow2(size as nat),
                1 <= size <= 0x1_0000_0000,
                h@ == bytes@.subrange(16, 112),
                g2_valid(bytes@.subrange(16, 112)),
                beta_h@ == bytes@.subrange(112, 208),
                g2_valid(bytes@.subrange(112, 208)),
                powers@.len() == i,
                forall|j: int|
                    0 <= j < i ==> (#[trigger] powers@[j]@) == bytes@.subrange(
                        208 + 48 * j,
                        208 + 48 * j + 48,
                    ) && g1_valid(powers@[j]@),
            decreases size_us - i,
        {
            proof {
                assert(48 * i < 48 * (size as int)) by (nonlinear_arith)
                    requires
                        0 <= i < size,
                ;
                assert(0 <= 32 * (count as int)) by (nonlinear_arith);
            }
            let off64: u64 = 208 + 48 * (i as u64);
            let chunk = sub_bytes(bytes, off64 as usize, 48);
            let p = match g1_from_bytes(&chunk) {
                Some(p) => p,
                None => {
                    proof {
                        assert(!g1_valid(bytes@.subrange(208 + 48 * (i as int), 208 + 48 * (
                        i as int) + 48)));
                    }
                    return None;
                },
            };
            powers.push(p);
            i = i + 1;
        }
        let base64: u64 = 208 + 48 * size;
        let count_us: usize = count as usize;
        let mut ch: Vec<Scalar> = Vec::new();
        let mut j: usize = 0;
        while j < count_us
            invariant
                j <= count_us,
                count_us == count,
                base64 == 208 + 48 * (size as int),
                blen == bytes@.len(),
                blen == 208 + 48 * (size as int) + 32 * (count as int),
                size == vstd::bytes::spec_u64_from_le_bytes(bytes@.subrange(0, 8)),
                count == vstd::bytes::spec_u64_from_le_bytes(bytes@.subrange(8, 16)),
                is_pow2(size as nat),
                1 <= size <= 0x1_0000_0000,
                h@ == bytes@.subrange(16, 112),
                g2_valid(bytes@.subrange(16, 112)),
                beta_h@ == bytes@.subrange(112, 208),
                g2_valid(bytes@.subrange(112, 208)),
                powers@.len() == size,
                forall|k: int|
                    0 <= k < size ==> (#[trigger] powers@[k]@) == bytes@.subrange(
                        208 + 48 * k,
                        208 + 48 * k + 48,
                    ) && g1_valid(powers@[k]@),
                ch@.len() == j,
                forall|k: int|
                    0 <= k < j ==> (#[trigger] ch@[k]@) == bytes@.subrange(
                        208 + 48 * (size as int) + 32 * k,
                        208 + 48 * (size as int) + 32 * k + 32,
                    ) && fr_valid(ch@[k]@),
            decreases count_us - j,
        {
            proof {
                assert(32 * j < 32 * (count as int)) by (nonlinear_arith)
                    requires
                        0 <= j < count,
                ;
            }
            let off64: u64 = base64 + 32 * (j as u64);
            let chunk = sub_bytes(bytes, off64 as usize, 32);
            let s = match fr_from_bytes(&chunk) {
                Some(s) => s,
                None => {
                    proof {
                        let base = 208 + 48 * (size as int);
                        assert(!fr_valid(bytes@.subrange(base + 32 * (j as int), base + 32 * (
                        j as int) + 32)));
                    }
                    return None;
                },
            };
            ch.push(s);
            j = j + 1;
        }
        let s = Setup {
            g1_powers: powers,
            h,
            beta_h,
            domain: Domain { size },
            challenge_data: ChallengeData { b: ch },
        };
        proof {
            let bv = bytes@;
            let size_i = size as int;
            let count_i = count as int;
            assert(0 <= 48 * size_i && 0 <= 32 * count_i) by (nonlinear_arith)
                requires
                    size_i >= 0,
                    count_i >= 0,
            ;
            let pviews = views_of(s.g1_powers@);
            let cviews = views_of(s.challenge_data.b@);
            assert(pviews.len() == size_i);
            assert(cviews.len() == count_i);
            assert forall|k: int| 0 <= k < size_i implies (#[trigger] pviews[k]) == bv.subrange(
                208 + 48 * k,
                208 + 48 * k + 48,
            ) by {
                assert(pviews[k] == s.g1_powers@[k]@);
            }
            assert forall|k: int| 0 <= k < count_i implies (#[trigger] cviews[k]) == bv.subrange(
                208 + 48 * size_i + 32 * k,
                208 + 48 * size_i + 32 * k + 32,
            ) by {
                assert(cviews[k] == s.challenge_data.b@[k]@);
            }
            lemma_cat_of_chunks(bv, 208, 48, pviews);
            lemma_cat_of_chunks(bv, 208 + 48 * size_i, 32, cviews);
            assert(cat_all(pviews) == bv.subrange(208, 208 + 48 * size_i));
            assert(cat_all(cviews) == bv.subrange(208 + 48 * size_i, 208 + 48 * size_i + 32
                * count_i));
            assert(vstd::bytes::spec_u64_to_le_bytes(size) =~= bv.subrange(0, 8));
            assert(vstd::bytes::spec_u64_to_le_bytes(count) =~= bv.subrange(8, 16));
            assert(s.ser() =~= bv);
            assert(s.wf());
            assert forall|k: int| 0 <= k < size_i implies g1_valid(
                #[trigger] bv.subrange(208 + 48 * k, 208 + 48 * k + 48),
            ) by {
                assert(s.g1_powers@[k]@ == bv.subrange(208 + 48 * k, 208 + 48 * k + 48));
            }
            assert forall|k: int| 0 <= k < count_i implies fr_valid(
                #[trigger] bv.subrange(208 + 48 * size_i + 32 * k, 208 + 48 * size_i + 32 * k + 32),
            ) by {
                assert(s.challenge_data.b@[k]@ == bv.subrange(
                    208 + 48 * size_i + 32 * k,
                    208 + 48 * size_i + 32 * k + 32,
                ));
            }
            assert(setup_wire_ok(bv));
        }
        Some(s)
    }
}

/// If each string of `vs` is the matching width-`w` chunk of `b` starting at
/// `base`, their concatenation is the corresponding range of `b`.
proof fn lemma_cat_of_chunks(b: Seq<u8>, base: int, w: int, vs: Seq<Seq<u8>>)
    requires
        w >= 0,
        base >= 0,
        base + w * vs.len() <= b.len(),
        forall|j: int|
            0 <= j < vs.len() ==> (#[trigger] vs[j]) == b.subrange(base + w * j, base + w * j + w),
    ensures
        cat_all(vs) == b.subrange(base, base + w * vs.len()),
    decreases vs.len(),
{
    if vs.len() == 0 {
        assert(cat_all(vs) =~= b.subrange(base, base));
    } else {
        let n = vs.len() as int;
        assert(w * (n - 1) + w == w * n) by (nonlinear_arith);
        assert(0 <= w * (n - 1)) by (nonlinear_arith)
            requires
                w >= 0,
                n >= 1,
        ;
        lemma_cat_of_chunks(b, base, w, vs.drop_last());
        assert(cat_all(vs) =~= b.subrange(base, base + w * n));
    }
}

/// The canonical encoding of a well-formed setup with valid elements parses:
/// it satisfies `setup_wire_ok`, with every chunk recovering its field.
proof fn lemma_setup_ser_ok(s: &Setup)
    requires
        s.wf(),
        s.challenge_data.b@.len() <= 0xffff_ffff,
        s.h@.len() == 96 && g2_valid(s.h@),
        s.beta_h@.len() == 96 && g2_valid(s.beta_h@),
        forall|j: int|
            0 <= j < s.g1_powers@.len() ==> g1_valid(#[trigger] s.g1_powers@[j]@)
                && s.g1_powers@[j]@.len() == 48,
        forall|k: int|
            0 <= k < s.challenge_data.b@.len() ==> fr_valid(#[trigger] s.challenge_data.b@[k]@)
                && s.challenge_data.b@[k]@.len() == 32,
    ensures
        setup_wire_ok(s.ser()),
        s.ser().len() == 208 + 48 * s.g1_powers@.len() + 32 * s.challenge_data.b@.len(),
{
    vstd::bytes::lemma_auto_spec_u64_to_from_le_bytes();
    let w = s.ser();
    let size = s.domain.size as int;
    let count = s.challenge_data.b@.len() as int;
    let pviews = views_of(s.g1_powers@);
    let cviews = views_of(s.challenge_data.b@);
    lemma_cat_all_len(pviews, 48);
    lemma_cat_all_len(cviews, 32);
    assert(w.len() == 208 + 48 * size + 32 * count);
    assert(w.subrange(0, 8) =~= vstd::bytes::spec_u64_to_le_bytes(s.domain.size));
    assert(w.subrange(8, 16) =~= vstd::bytes::spec_u64_to_le_bytes(count as u64));
    assert(w.subrange(16, 112) =~= s.h@);
    assert(w.subrange(112, 208) =~= s.beta_h@);
    assert forall|i: int| 0 <= i < size implies g1_valid(
        #[trigger] w.subrange(208 + 48 * i, 208 + 48 * i + 48),
    ) by {
        lemma_cat_all_chunk(pviews, 48, i);
        assert(48 * i + 48 <= 48 * size) by (nonlinear_arith)
            requires
                0 <= i < size,
        ;
        assert(w.subrange(208 + 48 * i, 208 + 48 * i + 48) =~= cat_all(pviews).subrange(
            48 * i,
            48 * i + 48,
        ));
    }
    assert forall|i: int| 0 <= i < count implies fr_valid(
        #[trigger] w.subrange(208 + 48 * size + 32 * i, 208 + 48 * size + 32 * i + 32),
    ) by {
        lemma_cat_all_chunk(cviews, 32, i);
        assert(32 * i + 32 <= 32 * count) by (nonlinear_arith)
            requires
                0 <= i < count,
        ;
        assert(w.subrange(208 + 48 * size + 32 * i, 208 + 48 * size + 32 * i + 32) =~= cat_all(
            cviews,
        ).subrange(32 * i, 32 * i + 32));
    }
}

/// The encoding of the `i`-th power of the secret scalar: one for `i = 0`,
/// and each next power the product of the previous one with the secret.
pub open spec fn secret_power_b(sk: Seq<u8>, i: nat) -> Seq<u8>
    decreases i,
{
    if i == 0 {
        fr_of_u64_b(1)
    } else {
        fr_mul_b(secret_power_b(sk, (i - 1) as nat), sk)
    }
}

/// The structure of the reference string: one generator scaled by the
/// successive powers of one secret scalar, whose group-2 encoding is
/// `beta_h`. The secret and the generator are existentially quantified by
/// `setup`'s contract: the secret itself is never returned.
pub open spec fn srs_structure(s: &Setup, sk: Seq<u8>, gen: Seq<u8>) -> bool {
    &&& s.beta_h@ == g2_scale_b(s.h@, sk)
    &&& forall|i: int|
        0 <= i < s.g1_powers@.len() ==> (#[trigger] s.g1_powers@[i]@) == g1_scale_b(
            gen,
            secret_power_b(sk, i as nat),
        )
}

/// Generates the reference string and the puzzle instance.
///
/// The secret scalar is drawn here, used to build the group encodings, and
/// then dropped with this function's frame: it is a local value with no
/// escaping reference, so it cannot be recovered from the returned `Setup`
/// (the contract quantifies it existentially). This is a generation-only
/// operation for the trusted party; a verifier never calls it.
pub fn setup(len: usize) -> (r: Setup)
    requires
        1 <= len,
        len + 2 <= 0x1_0000_0000,
    ensures
        r.wf(),
        r.domain.size == domain_size_b((len + 2) as u64),
        r.g1_powers@.len() == r.domain.size,
        len + 2 <= r.domain.size,
        r.challenge_data.b@.len() == len,
        exists|sk: Seq<u8>, gen: Seq<u8>| srs_structure(&r, sk, gen),
{
    let n = domain_new(len as u64 + 2);
    let secret = fr_rand();
    let generator = g1_generator();
    let mut g1_powers: Vec<G1Point> = Vec::new();
    let mut pow = fr_from_u64(1);
    let mut i: u64 = 0;
    while i < n
        invariant
            i <= n,
            g1_powers@.len() == i,
            pow@ == secret_power_b(secret@, i as nat),
            forall|j: int|
                0 <= j < i ==> (#[trigger] g1_powers@[j]@) == g1_scale_b(
                    generator@,
                    secret_power_b(secret@, j as nat),
                ),
        decreases n - i,
    {
        g1_powers.push(g1_scale(&generator, &pow));
        pow = fr_mul(&pow, &secret);
        i = i + 1;
    }
    let h = g2_generator();
    let beta_h = g2_scale(&h, &secret);
    let mut b: Vec<Scalar> = Vec::new();
    let mut j: usize = 0;
    while j < len
        invariant
            j <= len,
            b@.len() == j,
        decreases len - j,
    {
        b.push(fr_rand());
        j = j + 1;
    }
    let r = Setup {
        g1_powers,
        h,
        beta_h,
        domain: Domain { size: n },
        challenge_data: ChallengeData { b },
    };
    proof {
        assert(srs_structure(&r, secret@, generator@));
    }
    r
}

/// Conversion from integer to finite field element.
pub fn scalar(n: u64) -> (r: Scalar)
    ensures
        r@ == fr_of_u64_b(n),
{
    fr_from_u64(n)
}

/// Computes the commitment to `p`: the sum of `coeff[i] * g1_powers[i]`.
/// The polynomial must not outgrow the reference string; high-degree terms
/// are rejected by the precondition rather than silently dropped. The empty
/// coefficient vector is the zero polynomial and commits to the zero point.
pub fn commit(p: &Polynomial, setup: &Setup) -> (r: G1Point)
    requires
        setup.wf(),
        p@.len() <= setup.g1_powers@.len(),
    ensures
        r@ == msm_b(p@, views_of(setup.g1_powers@)),
{
    let ghost powers = views_of(setup.g1_powers@);
    if p.coeffs.len() == 0 {
        let zero = fr_from_u64(0);
        return g1_scale(&setup.g1_powers[0], &zero);
    }
    let mut acc = g1_scale(&setup.g1_powers[0], &p.coeffs[0]);
    proof {
        assert(p@.subrange(0, 1).len() == 1);
        assert(p@.subrange(0, 1)[0] == p.coeffs@[0]@);
        assert(powers[0] == setup.g1_powers@[0]@);
    }
    let mut i: usize = 1;
    while i < p.coeffs.len()
        invariant
            1 <= i <= p.coeffs@.len(),
            p.coeffs@.len() <= setup.g1_powers@.len(),
            powers == views_of(setup.g1_powers@),
            acc@ == msm_b(p@.subrange(0, i as int), powers),
        decreases p.coeffs@.len() - i,
    {
        let term = g1_scale(&setup.g1_powers[i], &p.coeffs[i]);
        acc = g1_add(&acc, &term);
        proof {
            let pre = p@.subrange(0, i as int);
            let cur = p@.subrange(0, i + 1);
            assert(cur.drop_last() == pre);
            assert(cur[i as int] == p.coeffs@[i as int]@);
            assert(powers[i as int] == setup.g1_powers@[i as int]@);
        }
        i = i + 1;
    }
    proof {
        assert(p@.subrange(0, p@.len() as int) == p@);
    }
    acc
}

/// Recovers the polynomial whose value at the domain's `i`-th root is
/// `values[i]` (missing values are taken as zero), by the domain's inverse
/// discrete Fourier transform. Deterministic and total on its domain.
pub fn interpolate(values: &Vec<Scalar>, setup: &Setup) -> (r: Polynomial)
    requires
        setup.wf(),
        values@.len() <= setup.domain.size,
    ensures
        r@ == ifft_b(views_of(values@), setup.domain.size),
        r@.len() == setup.domain.size,
{
    Polynomial { coeffs: ifft(values, setup.domain.size) }
}

/// Evaluates the polynomial at the given point.
pub fn evaluate(poly: &Polynomial, eval_point: &Scalar) -> (r: Scalar)
    ensures
        r@ == poly_eval_b(poly@, eval_point@),
{
    poly_eval(&poly.coeffs, eval_point)
}

/// The coefficients of the witness polynomial `(p - p(z)) / (x - z)`; the
/// empty coefficient vector is the zero polynomial, whose witness is zero.
pub open spec fn witness_b(p: Seq<Seq<u8>>, z: Seq<u8>) -> Seq<Seq<u8>> {
    let v = poly_eval_b(p, z);
    let num = if p.len() == 0 {
        p
    } else {
        p.update(0, fr_sub_b(p[0], v))
    };
    poly_div_b(num, seq![fr_neg_b(z), fr_of_u64_b(1)])
}

/// The opening for `p` at `z`: the commitment to the witness polynomial.
pub open spec fn open_b(p: Seq<Seq<u8>>, z: Seq<u8>, powers: Seq<Seq<u8>>) -> Seq<u8> {
    msm_b(witness_b(p, z), powers)
}

/// Produces evidence of the value of `poly` at `eval_point`: the commitment
/// to the quotient of `poly - poly(eval_point)` by `x - eval_point`. The
/// division is exact by construction, since `eval_point` is a root of the
/// dividend.
pub fn open(poly: &Polynomial, eval_point: &Scalar, setup: &Setup) -> (r: G1Point)
    requires
        setup.wf(),
        poly@.len() <= setup.g1_powers@.len(),
    ensures
        r@ == open_b(poly@, eval_point@, views_of(setup.g1_powers@)),
{
    let value = poly_eval(&poly.coeffs, eval_point);
    let mut num: Vec<Scalar> = Vec::new();
    if poly.coeffs.len() == 0 {
        proof {
            assert(views_of(num@) =~= poly@);
        }
        return open_witness(num, eval_point, setup);
    }
    num.push(fr_sub(&poly.coeffs[0], &value));
    let mut i: usize = 1;
    while i < poly.coeffs.len()
        invariant
            1 <= i <= poly.coeffs@.len(),
            num@.len() == i,
            views_of(num@) == views_of(poly.coeffs@).update(
                0,
                fr_sub_b(poly.coeffs@[0]@, poly_eval_b(views_of(poly.coeffs@), eval_point@)),
            ).subrange(0, i as int),
        decreases poly.coeffs@.len() - i,
    {
        num.push(poly.coeffs[i].dup());
        proof {
            let full = views_of(poly.coeffs@).update(
                0,
                fr_sub_b(poly.coeffs@[0]@, poly_eval_b(views_of(poly.coeffs@), eval_point@)),
            );
            assert(full.subrange(0, i as int) + seq![full[i as int]] == full.subrange(0, i + 1));
            assert(full[i as int] == poly.coeffs@[i as int]@);
        }
        i = i + 1;
    }
    proof {
        let full = views_of(poly.coeffs@).update(
            0,
            fr_sub_b(poly.coeffs@[0]@, poly_eval_b(views_of(poly.coeffs@), eval_point@)),
        );
        assert(full.subrange(0, full.len() as int) == full);
    }
    open_witness(num, eval_point, setup)
}

/// Divides the prepared numerator `poly - poly(eval_point)` by
/// `x - eval_point` and commits the quotient.
fn open_witness(num: Vec<Scalar>, eval_point: &Scalar, setup: &Setup) -> (r: G1Point)
    requires
        setup.wf(),
        num@.len() <= setup.g1_powers@.len(),
    ensures
        r@ == msm_b(
            poly_div_b(views_of(num@), seq![fr_neg_b(eval_point@), fr_of_u64_b(1)]),
            views_of(setup.g1_powers@),
        ),
{
    let mut divisor: Vec<Scalar> = Vec::new();
    divisor.push(fr_neg(eval_point));
    divisor.push(fr_from_u64(1));
    proof {
        assert(views_of(divisor@) =~= seq![fr_neg_b(eval_point@), fr_of_u64_b(1)]);
    }
    let q = poly_div(&num, &divisor);
    let wp = Polynomial { coeffs: q };
    commit(&wp, setup)
}

/// The pairing equation relating a commitment, a claimed value at a point,
/// and an opening: `e(commitment - value * G1, h) == e(opening, beta_h - point * h)`.
pub open spec fn kzg_check_b(
    g1_0: Seq<u8>,
    h: Seq<u8>,
    beta_h: Seq<u8>,
    commitment: Seq<u8>,
    eval_point: Seq<u8>,
    value: Seq<u8>,
    opening: Seq<u8>,
) -> bool {
    pairing_b(g1_sub_b(commitment, g1_scale_b(g1_0, value)), h) == pairing_b(
        opening,
        g2_sub_b(beta_h, g2_scale_b(h, eval_point)),
    )
}

/// Verification of one commitment/evaluation/opening triple via the bilinear
/// pairing equation. Pure; both pairings are always computed, and only the
/// final equality decides.
pub fn verify(
    setup: &Setup,
    commitment: &G1Point,
    eval_point: &Scalar,
    value: &Scalar,
    opening: &G1Point,
) -> (r: bool)
    requires
        setup.wf(),
    ensures
        r == kzg_check_b(
            setup.g1_powers@[0]@,
            setup.h@,
            setup.beta_h@,
            commitment@,
            eval_point@,
            value@,
            opening@,
        ),
{
    let g1 = &setup.g1_powers[0];
    let scaled = g1_scale(g1, value);
    let inner = g1_sub(commitment, &scaled);
    let lhs = pairing(&inner, &setup.h);
    let shifted = g2_scale(&setup.h, eval_point);
    let inner2 = g2_sub(&setup.beta_h, &shifted);
    let rhs = pairing(opening, &inner2);
    bytes_eq(&lhs, &rhs)
}

/// The `i`-th coefficient of a polynomial, zero beyond its length.
pub open spec fn coeff_at(s: Seq<Seq<u8>>, i: int) -> Seq<u8> {
    if 0 <= i < s.len() {
        s[i]
    } else {
        fr_of_u64_b(0)
    }
}

/// The coefficient-wise difference of two polynomials, the shorter one
/// padded with zeros.
pub open spec fn poly_sub_b(a: Seq<Seq<u8>>, b: Seq<Seq<u8>>) -> Seq<Seq<u8>> {
    Seq::new(
        if a.len() >= b.len() {
            a.len()
        } else {
            b.len()
        },
        |i: int| fr_sub_b(coeff_at(a, i), coeff_at(b, i)),
    )
}

/// The encoding of the multiplicative inverse of an instance value, or of
/// zero for the zero element, which has none.
pub open spec fn inv_or_zero_b(x: Seq<u8>) -> Seq<u8> {
    if x == fr_of_u64_b(0) {
        fr_of_u64_b(0)
    } else {
        fr_inv_b(x)
    }
}

/// The encodings of the inverses of the instance values (zero for zero).
pub open spec fn inverses_b(bs: Seq<Seq<u8>>) -> Seq<Seq<u8>> {
    Seq::new(bs.len(), |i: int| inv_or_zero_b(bs[i]))
}

/// `k` copies of the encoding of one.
pub open spec fn ones_b(k: nat) -> Seq<Seq<u8>> {
    Seq::new(k, |i: int| fr_of_u64_b(1))
}

/// The coefficients of the vanishing polynomial `x^n - 1` of the evaluation
/// domain of size `n`.
pub open spec fn vanish_coeffs_b(n: nat) -> Seq<Seq<u8>> {
    Seq::new(
        n + 1,
        |i: int|
            if i == 0 {
                fr_neg_b(fr_of_u64_b(1))
            } else if i == n {
                fr_of_u64_b(1)
            } else {
                fr_of_u64_b(0)
            },
    )
}

/// Subtracts `b` from `a` coefficient-wise, treating missing high
/// coefficients as zero.
fn poly_sub(a: &Vec<Scalar>, b: &Vec<Scalar>) -> (r: Vec<Scalar>)
    ensures
        views_of(r@) == poly_sub_b(views_of(a@), views_of(b@)),
        r@.len() == if a@.len() >= b@.len() {
            a@.len()
        } else {
            b@.len()
        },
{
    let n = if a.len() >= b.len() {
        a.len()
    } else {
        b.len()
    };
    let mut r: Vec<Scalar> = Vec::new();
    let mut i: usize = 0;
    while i < n
        invariant
            i <= n,
            r@.len() == i,
            n == if a@.len() >= b@.len() {
                a@.len()
            } else {
                b@.len()
            },
            forall|j: int|
                0 <= j < i ==> (#[trigger] r@[j]@) == fr_sub_b(
                    coeff_at(views_of(a@), j),
                    coeff_at(views_of(b@), j),
                ),
        decreases n - i,
    {
        let x = if i < a.len() {
            a[i].dup()
        } else {
            fr_from_u64(0)
        };
        let y = if i < b.len() {
            b[i].dup()
        } else {
            fr_from_u64(0)
        };
        r.push(fr_sub(&x, &y));
        i = i + 1;
    }
    proof {
        assert(views_of(r@) =~= poly_sub_b(views_of(a@), views_of(b@)));
    }
    r
}

/// The reference prover: builds polynomials `a` (the inverses of the
/// published instance values), `b` (the instance values) and `c` (ones) by
/// interpolation, the quotient `q = (a * b - c) / Z`, and commits, evaluates
/// and opens all four at the challenge derived from the commitments to `a`
/// and `q`. An instance value without an inverse (zero) is mapped to zero,
/// in which case the resulting proof simply does not verify. The output is
/// validated end to end by running the verifier on it.
pub fn create_proof(setup: &Setup) -> (r: crate::verify::ABCProof)
    requires
        setup.wf(),
        setup.challenge_data.b@.len() + 2 <= setup.domain.size,
        setup.domain.size <= 0x8000_0000,
    ensures
        ({
            let bs = views_of(setup.challenge_data.b@);
            let powers = views_of(setup.g1_powers@);
            let n = setup.domain.size;
            let ac = ifft_b(inverses_b(bs), n);
            let bc = ifft_b(bs, n);
            let cc = ifft_b(ones_b(bs.len()), n);
            let qc = poly_div_b(
                poly_sub_b(poly_mul_b(ac, bc), cc),
                vanish_coeffs_b(n as nat),
            );
            let ch = challenge_b(msm_b(ac, powers) + msm_b(qc, powers));
            &&& r.comm_a@ == msm_b(ac, powers)
            &&& r.comm_b@ == msm_b(bc, powers)
            &&& r.comm_c@ == msm_b(cc, powers)
            &&& r.comm_q@ == msm_b(qc, powers)
            &&& r.eval_a@ == poly_eval_b(ac, ch)
            &&& r.eval_b@ == poly_eval_b(bc, ch)
            &&& r.eval_c@ == poly_eval_b(cc, ch)
            &&& r.eval_q@ == poly_eval_b(qc, ch)
            &&& r.open_a@ == open_b(ac, ch, powers)
            &&& r.open_b@ == open_b(bc, ch, powers)
            &&& r.open_c@ == open_b(cc, ch, powers)
            &&& r.open_q@ == open_b(qc, ch, powers)
        }),
{
    let ghost bs = views_of(setup.challenge_data.b@);
    let len = setup.challenge_data.b.len();
    let mut a_vals: Vec<Scalar> = Vec::new();
    let mut b_vals: Vec<Scalar> = Vec::new();
    let mut c_vals: Vec<Scalar> = Vec::new();
    let mut i: usize = 0;
    while i < len
        invariant
            i <= len,
            len == setup.challenge_data.b@.len(),
            bs == views_of(setup.challenge_data.b@),
            a_vals@.len() == i,
            b_vals@.len() == i,
            c_vals@.len() == i,
            forall|j: int| 0 <= j < i ==> (#[trigger] a_vals@[j]@) == inv_or_zero_b(bs[j]),
            forall|j: int| 0 <= j < i ==> (#[trigger] b_vals@[j]@) == bs[j],
            forall|j: int| 0 <= j < i ==> (#[trigger] c_vals@[j]@) == fr_of_u64_b(1),
        decreases len - i,
    {
        let inv = match fr_inverse(&setup.challenge_data.b[i]) {
            Some(s) => s,
            None => fr_from_u64(0),
        };
        a_vals.push(inv);
        b_vals.push(setup.challenge_data.b[i].dup());
        c_vals.push(fr_from_u64(1));
        i = i + 1;
    }
    proof {
        assert(views_of(a_vals@) =~= inverses_b(bs));
        assert(views_of(b_vals@) =~= bs);
        assert(views_of(c_vals@) =~= ones_b(bs.len()));
    }
    let a = interpolate(&a_vals, setup);
    let b = interpolate(&b_vals, setup);
    let c = interpolate(&c_vals, setup);
    let ab = poly_mul(&a.coeffs, &b.coeffs);
    let numer = poly_sub(&ab, &c.coeffs);
    let n: usize = setup.domain.size as usize;
    let mut z: Vec<Scalar> = Vec::new();
    let one = fr_from_u64(1);
    z.push(fr_neg(&one));
    let mut j: usize = 1;
    while j < n
        invariant
            1 <= j <= n,
            z@.len() == j,
            z@[0]@ == fr_neg_b(fr_of_u64_b(1)),
            forall|k: int| 1 <= k < j ==> (#[trigger] z@[k]@) == fr_of_u64_b(0),
        decreases n - j,
    {
        z.push(fr_from_u64(0));
        j = j + 1;
    }
    z.push(fr_from_u64(1));
    proof {
        assert(views_of(z@).last() == z@[z@.len() - 1]@);
        assert(views_of(z@) =~= vanish_coeffs_b(setup.domain.size as nat));
    }
    let q_raw = poly_div(&numer, &z);
    let q = Polynomial { coeffs: q_raw };
    let comm_a = commit(&a, setup);
    let comm_b = commit(&b, setup);
    let comm_c = commit(&c, setup);
    let comm_q = commit(&q, setup);
    let mut transcript = comm_a.as_bytes();
    let qb = comm_q.as_bytes();
    append_bytes(&mut transcript, &qb);
    let eval_point = get_challenge_point(transcript.as_slice());
    let eval_a = evaluate(&a, &eval_point);
    let eval_b = evaluate(&b, &eval_point);
    let eval_c = evaluate(&c, &eval_point);
    let eval_q = evaluate(&q, &eval_point);
    let open_a = open(&a, &eval_point, setup);
    let open_b = open(&b, &eval_point, setup);
    let open_c = open(&c, &eval_point, setup);
    let open_q = open(&q, &eval_point, setup);
    crate::verify::ABCProof {
        comm_a,
        comm_b,
        comm_c,
        comm_q,
        eval_a,
        eval_b,
        eval_c,
        eval_q,
        open_a,
        open_b,
        open_c,
        open_q,
    }
}

/// Prepares a proof to be submitted by serializing it into its wire bytes.
pub fn prepare_for_submission(proof: &crate::verify::ABCProof) -> (r: Vec<u8>)
    ensures
        r@ == proof.ser(),
{
    proof.as_bytes()
}

/// The challenge derived from a transcript: the sum of the field-element
/// lifts of its bytes, accumulated left to right. A pure function of the
/// transcript bytes, so the same transcript always yields the same challenge.
pub open spec fn challenge_b(t: Seq<u8>) -> Seq<u8>
    decreases t.len(),
{
    if t.len() == 0 {
        fr_of_u64_b(0)
    } else {
        fr_add_b(challenge_b(t.drop_last()), fr_of_u64_b(t.last() as u64))
    }
}

/// Same transcripts yield the same challenge point.
pub proof fn lemma_challenge_deterministic(t1: Seq<u8>, t2: Seq<u8>)
    requires
        t1 == t2,
    ensures
        challenge_b(t1) == challenge_b(t2),
{
}

/// The integer sum of a transcript's bytes.
pub open spec fn byte_sum(t: Seq<u8>) -> int
    decreases t.len(),
{
    if t.len() == 0 {
        0
    } else {
        byte_sum(t.drop_last()) + t.last()
    }
}

proof fn lemma_byte_sum_step(t: Seq<u8>, i: int)
    requires
        0 <= i < t.len(),
    ensures
        byte_sum(t.subrange(0, i + 1)) == byte_sum(t.subrange(0, i)) + t[i],
{
    assert(t.subrange(0, i + 1).drop_last() == t.subrange(0, i));
    assert(t.subrange(0, i + 1).last() == t[i]);
}

proof fn lemma_byte_sum_prefix(t: Seq<u8>, i: int)
    requires
        0 <= i <= t.len(),
    ensures
        byte_sum(t.subrange(0, i)) <= byte_sum(t),
    decreases t.len() - i,
{
    if i == t.len() {
        assert(t.subrange(0, t.len() as int) == t);
    } else {
        lemma_byte_sum_step(t, i);
        lemma_byte_sum_prefix(t, i + 1);
    }
}

proof fn lemma_byte_sum_nonneg(t: Seq<u8>)
    ensures
        byte_sum(t) >= 0,
    decreases t.len(),
{
    if t.len() > 0 {
        lemma_byte_sum_nonneg(t.drop_last());
    }
}

proof fn lemma_byte_sum_remove(t: Seq<u8>, k: int)
    requires
        0 <= k < t.len(),
    ensures
        byte_sum(t.remove(k)) == byte_sum(t) - t[k],
    decreases t.len(),
{
    if k == t.len() - 1 {
        assert(t.remove(k) =~= t.drop_last());
    } else {
        assert(t.remove(k).drop_last() =~= t.drop_last().remove(k));
        assert(t.remove(k).last() == t.last());
        lemma_byte_sum_remove(t.drop_last(), k);
    }
}

/// The challenge depends only on the multiset of transcript bytes:
/// transcripts that are permutations of one another have the same byte sum,
/// so by `get_challenge_point`'s contract they yield the same challenge
/// whenever that sum fits in a `u64` — a consequence of deriving the
/// challenge as a plain sum of byte lifts.
pub proof fn lemma_byte_sum_permutation(t1: Seq<u8>, t2: Seq<u8>)
    requires
        t1.to_multiset() == t2.to_multiset(),
    ensures
        byte_sum(t1) == byte_sum(t2),
    decreases t1.len(),
{
    t1.to_multiset_ensures();
    t2.to_multiset_ensures();
    if t1.len() == 0 {
        assert(t2.len() == 0);
    } else {
        let x = t1.last();
        assert(t1.contains(x)) by {
            assert(t1[t1.len() - 1] == x);
        }
        assert(t2.to_multiset().count(x) > 0);
        assert(t2.contains(x));
        let k = choose|k: int| 0 <= k < t2.len() && t2[k] == x;
        assert(t1.remove(t1.len() - 1) =~= t1.drop_last());
        assert(t1.drop_last().to_multiset() == t1.to_multiset().remove(x));
        assert(t2.remove(k).to_multiset() == t2.to_multiset().remove(x));
        lemma_byte_sum_remove(t2, k);
        lemma_byte_sum_permutation(t1.drop_last(), t2.remove(k));
    }
}

/// Maps a transcript deterministically to a field element, simulating the
/// verifier's choice of a random challenge point. When the transcript's byte
/// sum fits in a `u64`, the challenge is exactly the lift of that sum.
pub fn get_challenge_point(transcript: &[u8]) -> (r: Scalar)
    ensures
        r@ == challenge_b(transcript@),
        byte_sum(transcript@) <= u64::MAX ==> r@ == fr_of_u64_b(byte_sum(transcript@) as u64),
{
    let n: usize = transcript.len();
    let mut acc = fr_from_u64(0);
    proof {
        assert(transcript@.subrange(0, 0).len() == 0);
    }
    let mut i: usize = 0;
    while i < n
        invariant
            i <= n,
            n == transcript@.len(),
            acc@ == challenge_b(transcript@.subrange(0, i as int)),
            byte_sum(transcript@) <= u64::MAX ==> acc@ == fr_of_u64_b(
                byte_sum(transcript@.subrange(0, i as int)) as u64,
            ),
        decreases n - i,
    {
        let lift = fr_from_u64(transcript[i] as u64);
        acc = fr_add(&acc, &lift);
        proof {
            let cur = transcript@.subrange(0, i + 1);
            assert(cur.drop_last() == transcript@.subrange(0, i as int));
            assert(cur.last() == transcript@[i as int]);
            lemma_byte_sum_step(transcript@, i as int);
            lemma_byte_sum_prefix(transcript@, i + 1);
            lemma_byte_sum_nonneg(transcript@.subrange(0, i as int));
        }
        i = i + 1;
    }
    proof {
        assert(transcript@.subrange(0, transcript@.len() as int) == transcript@);
    }
    acc
}

} // verus!
