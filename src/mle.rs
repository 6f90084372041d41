//! Multilinear extensions of tables indexed by the boolean hypercube.
//!
//! A table of `2^k` values is indexed little-endian: bit `i` of an index is the `i`-th
//! coordinate of the hypercube point it names.
use crate::field::{fadd, fmul, fsub, lemma_modulus_big, modulus, Fr};
use crate::matrix::vals;
use ark_ff::PrimeField;
use ark_poly::MultilinearExtension;
use vstd::arithmetic::power2::{lemma2_to64, lemma2_to64_rest, lemma_pow2_strictly_increases, lemma_pow2_unfold, pow2};
use vstd::prelude::*;

verus! {

/// The largest number of variables a table may have.
pub const MAX_VARS: usize = 30;

/// The table with its variable `0` fixed to `r`: `e[2b] + r * (e[2b+1] - e[2b])`.
pub open spec fn fold_table(e: Seq<int>, r: int) -> Seq<int> {
    Seq::new(e.len() / 2, |b: int| fadd(e[2 * b], fmul(r, fsub(e[2 * b + 1], e[2 * b]))))
}

/// The multilinear extension of the table `e` evaluated at `pt`, fixing variables from
/// the first one on.
pub open spec fn mle_at(e: Seq<int>, pt: Seq<int>) -> int
    decreases pt.len(),
{
    if pt.len() == 0 {
        if e.len() > 0 {
            e[0]
        } else {
            0
        }
    } else {
        mle_at(fold_table(e, pt[0]), pt.drop_first())
    }
}

/// One factor of the equality polynomial: `a * b + (1 - a) * (1 - b)`.
pub open spec fn eq_factor(a: int, b: int) -> int {
    fadd(fmul(a, b), fmul(fsub(1, a), fsub(1, b)))
}

/// `eq(x, y)` over the first `k` coordinates.
pub open spec fn eq_prefix(x: Seq<int>, y: Seq<int>, k: int) -> int
    decreases k,
{
    if k <= 0 {
        1
    } else {
        fmul(eq_prefix(x, y, k - 1), eq_factor(x[k - 1], y[k - 1]))
    }
}

/// The table of `eq(r, b)` over the points `b` of the `k`-dimensional hypercube.
pub open spec fn eq_table(r: Seq<int>, k: nat) -> Seq<int>
    decreases k,
{
    if k == 0 {
        seq![1]
    } else {
        let prev = eq_table(r, (k - 1) as nat);
        Seq::new(
            2 * prev.len(),
            |b: int|
                if b < prev.len() {
                    fmul(prev[b], fsub(1, r[k - 1]))
                } else {
                    fmul(prev[b - prev.len()], r[k - 1])
                },
        )
    }
}

/// The first `k` little-endian bits of `idx`.
pub open spec fn bits(idx: nat, k: nat) -> Seq<int>
    decreases k,
{
    if k == 0 {
        seq![]
    } else {
        seq![(idx % 2) as int] + bits(idx / 2, (k - 1) as nat)
    }
}

/// `v` followed by zeros up to length `len`.
pub open spec fn padded(v: Seq<int>, len: nat) -> Seq<int> {
    Seq::new(len, |i: int| if i < v.len() { v[i] } else { 0 })
}

/// Every value is a canonical representative of the field.
pub open spec fn canonical(e: Seq<int>) -> bool {
    forall|i: int| 0 <= i < e.len() ==> 0 <= #[trigger] e[i] < modulus()
}

/// At a point of the hypercube, a multilinear extension takes the table's value there.
pub proof fn lemma_mle_at_bits(e: Seq<int>, k: nat, idx: nat)
    requires
        e.len() == pow2(k),
        idx < pow2(k),
        canonical(e),
    ensures
        mle_at(e, bits(idx, k)) == e[idx as int],
    decreases k,
{
    lemma_modulus_big();
    lemma2_to64();
    if k == 0 {
        assert(bits(idx, k) =~= Seq::<int>::empty());
    } else {
        let b = (idx % 2) as int;
        let pt = bits(idx, k);
        assert(pt[0] == b);
        assert(pt.drop_first() =~= bits(idx / 2, (k - 1) as nat));
        lemma_pow2_unfold(k);
        let f = fold_table(e, b);
        assert(f.len() == pow2((k - 1) as nat));
        assert forall|j: int| 0 <= j < f.len() implies #[trigger] f[j] == (if b == 0 { e[2 * j] } else { e[2 * j + 1] }) by {
            let x0 = e[2 * j];
            let x1 = e[2 * j + 1];
            let p = modulus();
            if b == 0 {
                assert(fmul(0, fsub(x1, x0)) == 0);
                vstd::arithmetic::div_mod::lemma_small_mod(x0 as nat, p as nat);
            } else {
                let d = fsub(x1, x0);
                vstd::arithmetic::div_mod::lemma_small_mod(d as nat, p as nat);
                assert(fmul(1, d) == d);
                vstd::arithmetic::div_mod::lemma_add_mod_noop_right(x0, x1 - x0, p);
                vstd::arithmetic::div_mod::lemma_small_mod(x1 as nat, p as nat);
            }
        }
        assert(canonical(f));
        assert(idx / 2 < pow2((k - 1) as nat));
        lemma_mle_at_bits(f, (k - 1) as nat, idx / 2);
        assert(f[(idx / 2) as int] == e[idx as int]);
    }
}

/// `2^k` as a machine integer.
pub fn pow2_usize(k: usize) -> (r: usize)
    requires
        k <= MAX_VARS,
    ensures
        r == pow2(k as nat),
        r <= pow2(MAX_VARS as nat),
{
    let mut p: usize = 1;
    let mut i: usize = 0;
    proof {
        lemma2_to64();
        lemma2_to64_rest();
    }
    while i < k
        invariant
            i <= k <= MAX_VARS,
            p == pow2(i as nat),
            pow2(MAX_VARS as nat) == 0x4000_0000,
        decreases k - i,
    {
        proof {
            lemma_pow2_unfold((i + 1) as nat);
            if i + 1 < MAX_VARS {
                lemma_pow2_strictly_increases((i + 1) as nat, MAX_VARS as nat);
            }
        }
        p = p * 2;
        i += 1;
    }
    proof {
        if k < MAX_VARS {
            lemma_pow2_strictly_increases(k as nat, MAX_VARS as nat);
        }
    }
    p
}

/// The point of the `k`-dimensional boolean hypercube with index `idx`.
pub fn hypercube_point(idx: usize, k: usize) -> (r: Vec<Fr>)
    ensures
        vals(r@) == bits(idx as nat, k as nat),
{
    let mut out: Vec<Fr> = Vec::new();
    let mut n: usize = idx;
    let mut i: usize = 0;
    while i < k
        invariant
            i <= k,
            out@.len() == i,
            vals(out@) + bits(n as nat, (k - i) as nat) == bits(idx as nat, k as nat),
        decreases k - i,
    {
        let b = Fr::from_u64((n % 2) as u64);
        let ghost prev = vals(out@);
        out.push(b);
        assert(vals(out@) =~= prev.push((n % 2) as int));
        assert(bits(n as nat, (k - i) as nat) == seq![(n % 2) as int] + bits((n / 2) as nat, (k - i - 1) as nat));
        assert(prev + bits(n as nat, (k - i) as nat) =~= vals(out@) + bits((n / 2) as nat, (k - i - 1) as nat));
        n = n / 2;
        i += 1;
    }
    assert(vals(out@) + bits(n as nat, 0) =~= vals(out@));
    out
}

/// `eq(x, y) = prod_i (x_i * y_i + (1 - x_i) * (1 - y_i))`.
pub fn eq_eval(x: &Vec<Fr>, y: &Vec<Fr>) -> (r: Fr)
    requires
        x@.len() == y@.len(),
    ensures
        r.val() == eq_prefix(vals(x@), vals(y@), x@.len() as int),
{
    let one = Fr::one();
    let mut acc = Fr::one();
    let mut i: usize = 0;
    while i < x.len()
        invariant
            x@.len() == y@.len(),
            i <= x@.len(),
            one.val() == 1,
            acc.val() == eq_prefix(vals(x@), vals(y@), i as int),
        decreases x@.len() - i,
    {
        let f = x[i].mul(&y[i]).add(&one.sub(&x[i]).mul(&one.sub(&y[i])));
        acc = acc.mul(&f);
        i += 1;
    }
    acc
}

/// The table of `eq(r, b)` over the hypercube of dimension `r.len()`.
pub fn build_eq_table(r: &Vec<Fr>) -> (t: Vec<Fr>)
    requires
        r@.len() <= MAX_VARS,
    ensures
        vals(t@) == eq_table(vals(r@), r@.len() as nat),
        t@.len() == pow2(r@.len() as nat),
{
    let one = Fr::one();
    let mut t: Vec<Fr> = Vec::new();
    t.push(Fr::one());
    let mut i: usize = 0;
    proof {
        lemma2_to64();
    }
    assert(vals(t@) =~= eq_table(vals(r@), 0));
    while i < r.len()
        invariant
            i <= r@.len() <= MAX_VARS,
            one.val() == 1,
            vals(t@) == eq_table(vals(r@), i as nat),
            t@.len() == pow2(i as nat),
        decreases r@.len() - i,
    {
        let ghost prev = vals(t@);
        let half = t.len();
        proof {
            lemma_pow2_unfold((i + 1) as nat);
            lemma2_to64();
            lemma2_to64_rest();
            if i + 1 < MAX_VARS {
                lemma_pow2_strictly_increases((i + 1) as nat, MAX_VARS as nat);
            }
        }
        let lo = one.sub(&r[i]);
        let mut next: Vec<Fr> = Vec::new();
        let mut b: usize = 0;
        let full = 2 * half;
        while b < full
            invariant
                half == t@.len(),
                full == 2 * half,
                prev == vals(t@),
                lo.val() == fsub(1, r@[i as int].val()),
                i < r@.len(),
                b <= 2 * half,
                next@.len() == b,
                forall|j: int|
                    0 <= j < b ==> #[trigger] next@[j].val() == (if j < half {
                        fmul(prev[j], fsub(1, vals(r@)[i as int]))
                    } else {
                        fmul(prev[j - half], vals(r@)[i as int])
                    }),
            decreases full - b,
        {
            if b < half {
                next.push(t[b].mul(&lo));
            } else {
                next.push(t[b - half].mul(&r[i]));
            }
            b += 1;
        }
        t = next;
        i += 1;
        assert(vals(t@) =~= eq_table(vals(r@), i as nat));
    }
    t
}

/// `v` followed by zeros up to `2^k` entries.
pub fn vec_to_mle(k: usize, v: &Vec<Fr>) -> (r: Vec<Fr>)
    requires
        k <= MAX_VARS,
        v@.len() <= pow2(k as nat),
    ensures
        vals(r@) == padded(vals(v@), pow2(k as nat)),
        r@.len() == pow2(k as nat),
{
    let len = pow2_usize(k);
    let mut out: Vec<Fr> = Vec::new();
    let mut i: usize = 0;
    while i < len
        invariant
            len == pow2(k as nat),
            v@.len() <= len,
            i <= len,
            out@.len() == i,
            forall|j: int| 0 <= j < i ==> #[trigger] out@[j].val() == padded(vals(v@), len as nat)[j],
        decreases len - i,
    {
        if i < v.len() {
            out.push(v[i]);
        } else {
            out.push(Fr::zero());
        }
        i += 1;
    }
    assert(vals(out@) =~= padded(vals(v@), len as nat));
    out
}

/// Relies on `ark_poly::MultilinearExtension::evaluate` of `DenseMultilinearExtension`,
/// which fixes the variables one after the other, from the first, as `fold_table` does.
#[verifier::external_body]
pub(crate) fn mle_evaluate(evals: &Vec<Fr>, point: &Vec<Fr>) -> (r: Fr)
    requires
        point@.len() <= MAX_VARS,
        evals@.len() == pow2(point@.len() as nat),
    ensures
        r.val() == mle_at(vals(evals@), vals(point@)),
{
    let to_ark = |a: &Fr| ark_bls12_381::Fr::from_bigint(ark_ff::BigInt(a.to_limbs())).unwrap();
    let e: Vec<ark_bls12_381::Fr> = evals.iter().map(to_ark).collect();
    let p: Vec<ark_bls12_381::Fr> = point.iter().map(to_ark).collect();
    let m = ark_poly::DenseMultilinearExtension::from_evaluations_vec(p.len(), e);
    Fr::from_limbs(m.evaluate(&p).unwrap().into_bigint().0)
}

} // verus!
