//! Pedersen commitments to vectors of field elements, in the group G1 of BLS12-381.
//!
//! A point is held as its compressed encoding; the group law is computed by `ark_ec`.
use crate::error::FoldingError;
use crate::field::Fr;
use crate::matrix::vals;
use ark_ff::PrimeField;
use ark_serialize::{CanonicalDeserialize, CanonicalSerialize};
use vstd::prelude::*;

verus! {

/// The compressed encoding of `a + b`, or `None` where an input encodes no point of G1.
pub uninterp spec fn g1_add_of(a: Seq<u8>, b: Seq<u8>) -> Option<Seq<u8>>;

/// The compressed encoding of `s * p`, or `None` where `p` encodes no point of G1.
pub uninterp spec fn g1_mul_of(p: Seq<u8>, s: int) -> Option<Seq<u8>>;

/// The bytes that an optional encoding holds.
pub open spec fn opt_bytes(o: Option<Vec<u8>>) -> Option<Seq<u8>> {
    match o {
        Some(v) => Some(v@),
        None => None,
    }
}

/// `a + b`, when both are points.
pub open spec fn opt_add(a: Option<Seq<u8>>, b: Option<Seq<u8>>) -> Option<Seq<u8>> {
    match (a, b) {
        (Some(x), Some(y)) => g1_add_of(x, y),
        _ => None,
    }
}

/// Relies on `ark_serialize` (compressed, validated decoding and encoding of
/// `ark_bls12_381::G1Projective`) and on `+` of that group.
#[verifier::external_body]
fn point_add(a: &Vec<u8>, b: &Vec<u8>) -> (r: Option<Vec<u8>>)
    ensures
        opt_bytes(r) == g1_add_of(a@, b@),
{
    let x = ark_bls12_381::G1Projective::deserialize_compressed(&a[..]).ok()?;
    let y = ark_bls12_381::G1Projective::deserialize_compressed(&b[..]).ok()?;
    let mut out: Vec<u8> = Vec::new();
    (x + y).serialize_compressed(&mut out).ok()?;
    Some(out)
}

/// Relies on `ark_serialize` (compressed, validated decoding and encoding of
/// `ark_bls12_381::G1Projective`) and on the scalar multiplication of that group.
#[verifier::external_body]
fn point_mul(p: &Vec<u8>, s: &Fr) -> (r: Option<Vec<u8>>)
    ensures
        opt_bytes(r) == g1_mul_of(p@, s.val()),
{
    let x = ark_bls12_381::G1Projective::deserialize_compressed(&p[..]).ok()?;
    let k = ark_bls12_381::Fr::from_bigint(ark_ff::BigInt(s.to_limbs())).unwrap();
    let mut out: Vec<u8> = Vec::new();
    (x * k).serialize_compressed(&mut out).ok()?;
    Some(out)
}

/// `a + b` in G1.
pub fn add_points(a: &Vec<u8>, b: &Vec<u8>) -> (r: Result<Vec<u8>, FoldingError>)
    ensures
        g1_add_of(a@, b@) is None <==> r == Err::<Vec<u8>, FoldingError>(FoldingError::InvalidPoint),
        r is Ok <==> g1_add_of(a@, b@) is Some,
        r is Ok ==> g1_add_of(a@, b@) == Some(r->Ok_0@),
{
    match point_add(a, b) {
        Some(v) => Ok(v),
        None => Err(FoldingError::InvalidPoint),
    }
}

/// `s * p` in G1.
pub fn mul_point(p: &Vec<u8>, s: &Fr) -> (r: Result<Vec<u8>, FoldingError>)
    ensures
        g1_mul_of(p@, s.val()) is None <==> r == Err::<Vec<u8>, FoldingError>(FoldingError::InvalidPoint),
        r is Ok <==> g1_mul_of(p@, s.val()) is Some,
        r is Ok ==> g1_mul_of(p@, s.val()) == Some(r->Ok_0@),
{
    match point_mul(p, s) {
        Some(v) => Ok(v),
        None => Err(FoldingError::InvalidPoint),
    }
}

/// Byte-wise equality.
pub fn bytes_eq(a: &Vec<u8>, b: &Vec<u8>) -> (r: bool)
    ensures
        r == (a@ == b@),
{
    if a.len() != b.len() {
        return false;
    }
    let mut i: usize = 0;
    while i < a.len()
        invariant
            a@.len() == b@.len(),
            i <= a@.len(),
            forall|k: int| 0 <= k < i ==> a@[k] == b@[k],
        decreases a@.len() - i,
    {
        if a[i] != b[i] {
            return false;
        }
        i += 1;
    }
    assert(a@ =~= b@);
    true
}

/// A commitment: the compressed encoding of a point of G1.
#[derive(Clone, Debug, PartialEq, Eq)]
pub struct Commitment(pub Vec<u8>);

/// The public parameters of the commitment: one generator per committed value, and
/// the generator of the blinding term.
#[derive(Clone, Debug, PartialEq, Eq)]
pub struct Params {
    pub h: Vec<u8>,
    pub generators: Vec<Vec<u8>>,
}

/// `r * h + sum_{i < k} w_i * g_i`, accumulated left to right.
pub open spec fn commit_prefix(h: Seq<u8>, gens: Seq<Vec<u8>>, w: Seq<int>, r: int, k: int) -> Option<Seq<u8>>
    decreases k,
{
    if k <= 0 {
        g1_mul_of(h, r)
    } else {
        opt_add(commit_prefix(h, gens, w, r, k - 1), g1_mul_of(gens[k - 1]@, w[k - 1]))
    }
}

/// The commitment to `w` with blinding `r`, when the parameters hold points.
pub open spec fn commit_spec(params: Params, w: Seq<Fr>, r: int) -> Option<Seq<u8>> {
    commit_prefix(params.h@, params.generators@, vals(w), r, w.len() as int)
}

/// The outcome of committing to `w` with blinding `r`.
pub open spec fn commit_result(params: Params, w: Seq<Fr>, r: int) -> Result<Seq<u8>, FoldingError> {
    if w.len() > params.generators@.len() {
        Err(FoldingError::DimensionMismatch)
    } else {
        match commit_spec(params, w, r) {
            Some(c) => Ok(c),
            None => Err(FoldingError::InvalidPoint),
        }
    }
}

/// The bytes of a committed result.
pub open spec fn commitment_bytes(r: Result<Commitment, FoldingError>) -> Result<Seq<u8>, FoldingError> {
    match r {
        Ok(c) => Ok(c.0@),
        Err(e) => Err(e),
    }
}

/// Pedersen commitment `r_w * h + sum_i w_i * g_i`.
pub fn commit(params: &Params, w: &Vec<Fr>, r_w: &Fr) -> (r: Result<Commitment, FoldingError>)
    ensures
        commitment_bytes(r) == commit_result(*params, w@, r_w.val()),
{
    if w.len() > params.generators.len() {
        return Err(FoldingError::DimensionMismatch);
    }
    let mut acc = match mul_point(&params.h, r_w) {
        Ok(p) => p,
        Err(e) => {
            proof {
                lemma_none_stays(*params, w@, r_w.val(), 0, w@.len() as int);
            }
            return Err(e);
        },
    };
    let mut i: usize = 0;
    while i < w.len()
        invariant
            w@.len() <= params.generators@.len(),
            i <= w@.len(),
            commit_prefix(params.h@, params.generators@, vals(w@), r_w.val(), i as int) == Some(acc@),
        decreases w@.len() - i,
    {
        let term = mul_point(&params.generators[i], &w[i]);
        assert(commit_prefix(params.h@, params.generators@, vals(w@), r_w.val(), i + 1) == opt_add(
            Some(acc@),
            g1_mul_of(params.generators@[i as int]@, vals(w@)[i as int]),
        ));
        let term = match term {
            Ok(p) => p,
            Err(e) => {
                proof {
                    lemma_none_stays(*params, w@, r_w.val(), i as int + 1, w@.len() as int);
                }
                return Err(e);
            },
        };
        acc = match add_points(&acc, &term) {
            Ok(p) => p,
            Err(e) => {
                proof {
                    lemma_none_stays(*params, w@, r_w.val(), i as int + 1, w@.len() as int);
                }
                return Err(e);
            },
        };
        i += 1;
    }
    Ok(Commitment(acc))
}

proof fn lemma_none_stays(params: Params, w: Seq<Fr>, r: int, k: int, n: int)
    requires
        0 <= k <= n,
        commit_prefix(params.h@, params.generators@, vals(w), r, k) is None,
    ensures
        commit_prefix(params.h@, params.generators@, vals(w), r, n) is None,
    decreases n - k,
{
    if k < n {
        lemma_none_stays(params, w, r, k + 1, n);
    }
}

} // verus!
