//! Multilinear extensions are linear in their tables: the extension of a
//! `rho`-combination of tables is the same combination of their extensions.
use crate::field::{fadd, fmul, fpow, fsub, lemma_modulus_big, modulus};
use crate::mle::{fold_table, mle_at};
use vstd::arithmetic::div_mod::{
    lemma_add_mod_noop, lemma_add_mod_noop_right, lemma_mul_mod_noop_left, lemma_mul_mod_noop_right,
    lemma_sub_mod_noop,
};
use vstd::arithmetic::power2::{lemma_pow2_unfold, pow2};
use vstd::prelude::*;

verus! {

/// Entry-wise sum of two tables.
pub open spec fn add_tab(a: Seq<int>, b: Seq<int>) -> Seq<int> {
    Seq::new(a.len(), |j: int| fadd(a[j], b[j]))
}

/// Every entry of a table times `s`.
pub open spec fn scale_tab(a: Seq<int>, s: int) -> Seq<int> {
    Seq::new(a.len(), |j: int| fmul(a[j], s))
}

/// `sum_{i < k} ts[i][idx] * rho^i`, accumulated left to right.
pub open spec fn tab_comb(ts: Seq<Seq<int>>, rho: int, k: int, idx: int) -> int
    decreases k,
{
    if k <= 0 {
        0
    } else {
        fadd(tab_comb(ts, rho, k - 1, idx), fmul(ts[k - 1][idx], fpow(rho, (k - 1) as nat)))
    }
}

/// The table of `tab_comb` over `len` entries.
pub open spec fn comb_table(ts: Seq<Seq<int>>, rho: int, k: int, len: nat) -> Seq<int> {
    Seq::new(len, |idx: int| tab_comb(ts, rho, k, idx))
}

/// `sum_{i < k} MLE(ts[i])(pt) * rho^i`, accumulated left to right.
pub open spec fn mle_comb(ts: Seq<Seq<int>>, rho: int, pt: Seq<int>, k: int) -> int
    decreases k,
{
    if k <= 0 {
        0
    } else {
        fadd(mle_comb(ts, rho, pt, k - 1), fmul(mle_at(ts[k - 1], pt), fpow(rho, (k - 1) as nat)))
    }
}

proof fn lemma_fold_entry_add(a0: int, a1: int, b0: int, b1: int, r: int)
    ensures
        fadd(fadd(a0, b0), fmul(r, fsub(fadd(a1, b1), fadd(a0, b0)))) == fadd(
            fadd(a0, fmul(r, fsub(a1, a0))),
            fadd(b0, fmul(r, fsub(b1, b0))),
        ),
{
    lemma_modulus_big();
    let p = modulus();
    // left side
    lemma_sub_mod_noop(a1 + b1, a0 + b0, p);
    lemma_mul_mod_noop_right(r, (a1 + b1) - (a0 + b0), p);
    lemma_add_mod_noop(a0 + b0, r * ((a1 + b1) - (a0 + b0)), p);
    assert(fadd(fadd(a0, b0), fmul(r, fsub(fadd(a1, b1), fadd(a0, b0)))) == (a0 + b0 + r * ((a1 + b1) - (a0 + b0))) % p);
    // right side
    lemma_mul_mod_noop_right(r, a1 - a0, p);
    lemma_add_mod_noop_right(a0, r * (a1 - a0), p);
    lemma_mul_mod_noop_right(r, b1 - b0, p);
    lemma_add_mod_noop_right(b0, r * (b1 - b0), p);
    lemma_add_mod_noop(a0 + r * (a1 - a0), b0 + r * (b1 - b0), p);
    assert(a0 + r * (a1 - a0) + (b0 + r * (b1 - b0)) == a0 + b0 + r * ((a1 + b1) - (a0 + b0))) by (nonlinear_arith);
}

proof fn lemma_fold_entry_scale(a0: int, a1: int, s: int, r: int)
    ensures
        fadd(fmul(a0, s), fmul(r, fsub(fmul(a1, s), fmul(a0, s)))) == fmul(fadd(a0, fmul(r, fsub(a1, a0))), s),
{
    lemma_modulus_big();
    let p = modulus();
    lemma_sub_mod_noop(a1 * s, a0 * s, p);
    lemma_mul_mod_noop_right(r, a1 * s - a0 * s, p);
    lemma_add_mod_noop(a0 * s, r * (a1 * s - a0 * s), p);
    assert(fadd(fmul(a0, s), fmul(r, fsub(fmul(a1, s), fmul(a0, s)))) == (a0 * s + r * (a1 * s - a0 * s)) % p);
    lemma_mul_mod_noop_right(r, a1 - a0, p);
    lemma_add_mod_noop_right(a0, r * (a1 - a0), p);
    lemma_mul_mod_noop_left(a0 + r * (a1 - a0), s, p);
    assert((a0 + r * (a1 - a0)) * s == a0 * s + r * (a1 * s - a0 * s)) by (nonlinear_arith);
}

/// The extension of a sum of tables is the sum of their extensions.
pub proof fn lemma_mle_add(a: Seq<int>, b: Seq<int>, pt: Seq<int>)
    requires
        pt.len() <= 64,
        a.len() == pow2(pt.len() as nat),
        b.len() == a.len(),
    ensures
        mle_at(add_tab(a, b), pt) == fadd(mle_at(a, pt), mle_at(b, pt)),
    decreases pt.len(),
{
    vstd::arithmetic::power2::lemma2_to64();
    if pt.len() > 0 {
        let r = pt[0];
        lemma_pow2_unfold(pt.len() as nat);
        let fa = fold_table(a, r);
        let fb = fold_table(b, r);
        assert forall|j: int| 0 <= j < fa.len() implies #[trigger] fold_table(add_tab(a, b), r)[j] == add_tab(fa, fb)[j] by {
            lemma_fold_entry_add(a[2 * j], a[2 * j + 1], b[2 * j], b[2 * j + 1], r);
        }
        assert(fold_table(add_tab(a, b), r) =~= add_tab(fa, fb));
        lemma_mle_add(fa, fb, pt.drop_first());
    }
}

/// The extension of a scaled table is the scaled extension.
pub proof fn lemma_mle_scale(a: Seq<int>, s: int, pt: Seq<int>)
    requires
        pt.len() <= 64,
        a.len() == pow2(pt.len() as nat),
    ensures
        mle_at(scale_tab(a, s), pt) == fmul(mle_at(a, pt), s),
    decreases pt.len(),
{
    vstd::arithmetic::power2::lemma2_to64();
    if pt.len() > 0 {
        let r = pt[0];
        lemma_pow2_unfold(pt.len() as nat);
        let fa = fold_table(a, r);
        assert forall|j: int| 0 <= j < fa.len() implies #[trigger] fold_table(scale_tab(a, s), r)[j] == scale_tab(fa, s)[j] by {
            lemma_fold_entry_scale(a[2 * j], a[2 * j + 1], s, r);
        }
        assert(fold_table(scale_tab(a, s), r) =~= scale_tab(fa, s));
        lemma_mle_scale(fa, s, pt.drop_first());
    }
}

/// The extension of the all-zero table is zero.
pub proof fn lemma_mle_zero(len: nat, pt: Seq<int>)
    requires
        pt.len() <= 64,
        len == pow2(pt.len() as nat),
    ensures
        mle_at(Seq::new(len, |j: int| 0int), pt) == 0,
    decreases pt.len(),
{
    vstd::arithmetic::power2::lemma2_to64();
    lemma_modulus_big();
    if pt.len() > 0 {
        let r = pt[0];
        lemma_pow2_unfold(pt.len() as nat);
        let z = Seq::new(len, |j: int| 0int);
        vstd::arithmetic::div_mod::lemma_small_mod(0, modulus() as nat);
        vstd::arithmetic::mul::lemma_mul_basics(r);
        assert(fold_table(z, r) =~= Seq::new(len / 2, |j: int| 0int));
        lemma_mle_zero(len / 2, pt.drop_first());
    }
}

/// The extension of a `rho`-combination of tables is the `rho`-combination of their
/// extensions.
pub proof fn lemma_mle_comb(ts: Seq<Seq<int>>, rho: int, pt: Seq<int>, k: int)
    requires
        pt.len() <= 64,
        0 <= k <= ts.len(),
        forall|i: int| 0 <= i < ts.len() ==> (#[trigger] ts[i]).len() == pow2(pt.len() as nat),
    ensures
        mle_at(comb_table(ts, rho, k, pow2(pt.len() as nat)), pt) == mle_comb(ts, rho, pt, k),
    decreases k,
{
    let len = pow2(pt.len() as nat);
    if k == 0 {
        assert(comb_table(ts, rho, 0, len) =~= Seq::new(len, |j: int| 0int));
        lemma_mle_zero(len, pt);
    } else {
        lemma_mle_comb(ts, rho, pt, k - 1);
        let c = fpow(rho, (k - 1) as nat);
        let prev = comb_table(ts, rho, k - 1, len);
        let term = scale_tab(ts[k - 1], c);
        assert(comb_table(ts, rho, k, len) =~= add_tab(prev, term));
        lemma_mle_add(prev, term, pt);
        lemma_mle_scale(ts[k - 1], c, pt);
    }
}

} // verus!
