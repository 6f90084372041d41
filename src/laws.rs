//! Properties that relate several operations of the library.
use crate::ccs::{gate_at, m_and_z_evals, mz_at, mz_table, satisfied, sel_prod, CCS};
use crate::construction::q_model;
use crate::field::{fadd, fmul, lemma_modulus_big, modulus};
use crate::matrix::dot;
use crate::mle::{bits, canonical, lemma_mle_at_bits, mle_at};
use crate::poly::{prod_at, sum_at, VirtualPolynomial};
use crate::ccs::{mat_table, sum_eqm_evals};
use crate::folding::{
    all_m, all_u, all_w, all_wf, all_x, comb, comb_mats, comb_scalars, fold_lens_ok, fold_shapes_ok,
    folded_as, mats_shape, rows_of,
};
use crate::linearity::{comb_table, lemma_mle_comb, mle_comb, tab_comb};
use crate::mle::padded;
use vstd::arithmetic::power2::{lemma_pow2_adds, lemma_pow2_pos, pow2};
use crate::commitment::{commit_result, Params};
use crate::error::FoldingError;
use crate::field::{lemma_val_injective, Fr};
use crate::instance::{accs_outcome, cccs_outcome, z_of, Witness, ACCS, CCCS};
use crate::matrix::vals;
use vstd::prelude::*;

verus! {

/// An accumulated instance made from an assignment `z = [1, x, w]` passes its own check:
/// whatever `to_accs` returns on success is accepted by `ACCS::check_relation` with the
/// witness it returned.
pub proof fn lemma_accs_round_trip(
    ccs: CCS,
    params: Params,
    z: Seq<Fr>,
    r_w: Fr,
    r_x: Seq<Fr>,
    r_y: Seq<Fr>,
    inst: ACCS,
    wit: Witness,
)
    requires
        ccs.wf(),
        z.len() == ccs.m,
        z[0].val() == 1,
        r_x.len() == ccs.s,
        r_y.len() == ccs.s_prime,
        // what `to_accs` promises of its result
        inst.ccs.model() == ccs.model(),
        inst.u.val() == 1,
        inst.x@ == z.subrange(1, 1 + ccs.l),
        inst.r_x@ == r_x,
        inst.r_y@ == r_y,
        vals(inst.v@) == m_and_z_evals(ccs.model().M, z, r_x, r_y),
        wit.w@ == z.subrange(1 + ccs.l, ccs.m as int),
        wit.r_w == r_w,
        commit_result(params, wit.w@, r_w.val()) == Ok::<Seq<u8>, FoldingError>(inst.C.0@),
    ensures
        accs_outcome(inst, params, wit) == Ok::<(), FoldingError>(()),
{
    lemma_val_injective(inst.u, z[0]);
    assert(z_of(inst.u, inst.x@, wit.w@) =~= z);
}

/// A committed instance made from a satisfying assignment `z = [1, x, w]` passes its own
/// check: whatever `to_cccs` returns on success is accepted by `CCCS::check_relation`.
pub proof fn lemma_cccs_round_trip(ccs: CCS, params: Params, z: Seq<Fr>, r_w: Fr, inst: CCCS, wit: Witness)
    requires
        ccs.wf(),
        z.len() == ccs.m,
        z[0].val() == 1,
        satisfied(ccs.model(), z),
        // what `to_cccs` promises of its result
        inst.ccs.model() == ccs.model(),
        inst.x@ == z.subrange(1, 1 + ccs.l),
        wit.w@ == z.subrange(1 + ccs.l, ccs.m as int),
        wit.r_w == r_w,
        commit_result(params, wit.w@, r_w.val()) == Ok::<Seq<u8>, FoldingError>(inst.C.0@),
    ensures
        cccs_outcome(inst, params, wit) == Ok::<(), FoldingError>(()),
{
    Fr::lemma_one();
    lemma_val_injective(Fr::spec_one(), z[0]);
    assert(z_of(Fr::spec_one(), inst.x@, wit.w@) =~= z);
}

proof fn lemma_prod_shift(c: int, fs: Seq<Seq<int>>, pt: Seq<int>, k: int)
    ensures
        prod_at(c, fs, pt, k) % modulus() == (c * prod_at(1, fs, pt, k)) % modulus(),
    decreases k,
{
    lemma_modulus_big();
    let p = modulus();
    if k > 0 {
        lemma_prod_shift(c, fs, pt, k - 1);
        let a = prod_at(c, fs, pt, k - 1);
        let b = prod_at(1, fs, pt, k - 1);
        let g = mle_at(fs[k - 1], pt);
        assert(prod_at(c, fs, pt, k) == (a * g) % p);
        assert(prod_at(1, fs, pt, k) == (b * g) % p);
        vstd::arithmetic::div_mod::lemma_mod_twice(a * g, p);
        vstd::arithmetic::div_mod::lemma_mul_mod_noop_left(a, g, p);
        assert((a * g) % p == ((a % p) * g) % p);
        assert(a % p == (c * b) % p);
        vstd::arithmetic::div_mod::lemma_mul_mod_noop_left(c * b, g, p);
        assert(((c * b) % p * g) % p == (c * b * g) % p);
        vstd::arithmetic::div_mod::lemma_mul_mod_noop_right(c, b * g, p);
        assert((c * ((b * g) % p)) % p == (c * (b * g)) % p);
        assert(c * b * g == c * (b * g)) by (nonlinear_arith);
    } else {
        vstd::arithmetic::mul::lemma_mul_basics(c);
    }
}

proof fn lemma_dot_canonical(a: Seq<Fr>, b: Seq<Fr>, k: int)
    ensures
        0 <= dot(a, b, k) < modulus(),
{
    lemma_modulus_big();
}

proof fn lemma_mz_table_at(ccs: CCS, z: Seq<Fr>, j: int, x: nat)
    requires
        ccs.wf(),
        0 <= j < ccs.t,
        x < pow2(ccs.s as nat),
    ensures
        mle_at(mz_table(ccs.model().M[j], z, ccs.s as nat), bits(x, ccs.s as nat)) == (if x < ccs.n {
            mz_at(ccs.model(), j, z, x as int)
        } else {
            0
        }),
{
    let t = mz_table(ccs.model().M[j], z, ccs.s as nat);
    assert forall|i: int| 0 <= i < t.len() implies 0 <= #[trigger] t[i] < modulus() by {
        lemma_modulus_big();
        if i < ccs.model().M[j].len() {
            lemma_dot_canonical(ccs.model().M[j][i], z, z.len() as int);
        }
    }
    assert(canonical(t));
    lemma_mle_at_bits(t, ccs.s as nat, x);
}

proof fn lemma_term_at(ccs: CCS, z: Seq<Fr>, x: nat, i: int, k: int)
    requires
        ccs.wf(),
        0 <= i < ccs.q,
        0 <= k <= ccs.model().S[i].len(),
        x < pow2(ccs.s as nat),
    ensures
        x < ccs.n ==> prod_at(1, q_model(ccs, z)[i].1, bits(x, ccs.s as nat), k) == sel_prod(ccs.model(), z, x as int, i, k),
        x >= ccs.n && k > 0 ==> prod_at(1, q_model(ccs, z)[i].1, bits(x, ccs.s as nat), k) == 0,
    decreases k,
{
    if k > 0 {
        lemma_term_at(ccs, z, x, i, k - 1);
        let j = ccs.model().S[i][k - 1] as int;
        assert(j < ccs.t);
        lemma_mz_table_at(ccs, z, j, x);
        lemma_modulus_big();
        let prev = prod_at(1, q_model(ccs, z)[i].1, bits(x, ccs.s as nat), k - 1);
        vstd::arithmetic::mul::lemma_mul_basics(prev);
        vstd::arithmetic::div_mod::lemma_small_mod(0, modulus() as nat);
        assert(q_model(ccs, z)[i].1[k - 1] == mz_table(ccs.model().M[j], z, ccs.s as nat));
        if x >= ccs.n {
            assert(fmul(prev, 0) == 0);
        }
    }
}

proof fn lemma_sum_at_row(ccs: CCS, z: Seq<Fr>, x: nat, i: int)
    requires
        ccs.wf(),
        0 <= i <= ccs.q,
        x < pow2(ccs.s as nat),
        x >= ccs.n ==> forall|ii: int| 0 <= ii < ccs.q ==> (#[trigger] ccs.model().S[ii]).len() > 0,
    ensures
        x < ccs.n ==> sum_at(q_model(ccs, z), bits(x, ccs.s as nat), i) == gate_at(ccs.model(), z, x as int, i),
        x >= ccs.n ==> sum_at(q_model(ccs, z), bits(x, ccs.s as nat), i) == 0,
    decreases i,
{
    lemma_modulus_big();
    if i > 0 {
        lemma_sum_at_row(ccs, z, x, i - 1);
        let term = q_model(ccs, z)[i - 1];
        let k = ccs.model().S[i - 1].len() as int;
        assert(term.1.len() == k);
        assert(term.0 == ccs.c@[i - 1].val());
        lemma_term_at(ccs, z, x, i - 1, k);
        lemma_prod_shift(term.0, term.1, bits(x, ccs.s as nat), k);
        let prev = sum_at(q_model(ccs, z), bits(x, ccs.s as nat), i - 1);
        let pr = prod_at(term.0, term.1, bits(x, ccs.s as nat), k);
        vstd::arithmetic::div_mod::lemma_add_mod_noop_right(prev, pr, modulus());
        if x >= ccs.n {
            assert(k > 0);
            vstd::arithmetic::mul::lemma_mul_basics(term.0);
            vstd::arithmetic::div_mod::lemma_small_mod(0, modulus() as nat);
            assert(fadd(0, 0) == 0);
        }
    }
}

/// On a satisfying assignment, `q` vanishes at every point of the boolean hypercube.
/// Rows beyond the system's `n` rows are padding; there every term holds a factor that is
/// zero, which needs every selector set to be non-empty when `n < 2^s`.
pub proof fn lemma_q_vanishes_on_hypercube(inst: CCCS, z: Seq<Fr>, q: VirtualPolynomial, idx: nat, point: Seq<Fr>)
    requires
        inst.ccs.wf(),
        z.len() == inst.ccs.m,
        satisfied(inst.ccs.model(), z),
        inst.ccs.n < pow2(inst.ccs.s as nat) ==> forall|i: int| 0 <= i < inst.ccs.q ==> (#[trigger] inst.ccs.model().S[i]).len() > 0,
        // what `compute_q` promises of its result
        q.model() == q_model(inst.ccs, z),
        idx < pow2(inst.ccs.s as nat),
        vals(point) == bits(idx, inst.ccs.s as nat),
    ensures
        q.eval_at(point) == 0,
{
    let ccs = inst.ccs;
    assert(q.terms@.len() == q.model().len());
    lemma_sum_at_row(ccs, z, idx, ccs.q as int);
    if idx < ccs.n {
        assert(gate_at(ccs.model(), z, idx as int, ccs.q as int) == 0);
    }
}

proof fn lemma_comb_as_mle(vs: Seq<Seq<Fr>>, j: int, ts: Seq<Seq<int>>, rho: int, pt: Seq<int>, k: int)
    requires
        forall|i: int| 0 <= i < k ==> (#[trigger] vs[i])[j].val() == mle_at(ts[i], pt),
    ensures
        comb(vs, rho, k, j) == mle_comb(ts, rho, pt, k),
    decreases k,
{
    if k > 0 {
        lemma_comb_as_mle(vs, j, ts, rho, pt, k - 1);
    }
}

proof fn lemma_tab_comb_mats(ts: Seq<Seq<int>>, ms: Seq<Seq<Seq<Seq<Fr>>>>, rho: int, k: int, kk: int, j: int, x: int, y: int)
    requires
        forall|i: int| 0 <= i < k ==> (#[trigger] ts[i])[kk] == ms[i][j][x][y].val(),
    ensures
        tab_comb(ts, rho, k, kk) == comb_mats(ms, rho, k, j, x, y),
    decreases k,
{
    if k > 0 {
        lemma_tab_comb_mats(ts, ms, rho, k - 1, kk, j, x, y);
    }
}

proof fn lemma_tab_comb_zero(ts: Seq<Seq<int>>, rho: int, k: int, kk: int)
    requires
        forall|i: int| 0 <= i < k ==> (#[trigger] ts[i])[kk] == 0,
    ensures
        tab_comb(ts, rho, k, kk) == 0,
    decreases k,
{
    lemma_modulus_big();
    if k > 0 {
        lemma_tab_comb_zero(ts, rho, k - 1, kk);
        vstd::arithmetic::mul::lemma_mul_basics(fpow_of(rho, k - 1));
        vstd::arithmetic::div_mod::lemma_small_mod(0, modulus() as nat);
    }
}

spec fn fpow_of(rho: int, e: int) -> int {
    crate::field::fpow(rho, e as nat)
}

proof fn lemma_tab_comb_vec(ts: Seq<Seq<int>>, vs: Seq<Seq<Fr>>, rho: int, k: int, kk: int, idx: int)
    requires
        forall|i: int| 0 <= i < k ==> (#[trigger] ts[i])[kk] == vs[i][idx].val(),
    ensures
        tab_comb(ts, rho, k, kk) == comb(vs, rho, k, idx),
    decreases k,
{
    if k > 0 {
        lemma_tab_comb_vec(ts, vs, rho, k - 1, kk, idx);
    }
}

proof fn lemma_tab_comb_scalars(ts: Seq<Seq<int>>, us: Seq<Fr>, rho: int, k: int, kk: int)
    requires
        forall|i: int| 0 <= i < k ==> (#[trigger] ts[i])[kk] == us[i].val(),
    ensures
        tab_comb(ts, rho, k, kk) == comb_scalars(us, rho, k),
    decreases k,
{
    if k > 0 {
        lemma_tab_comb_scalars(ts, us, rho, k - 1, kk);
        assert(us[k - 1].val() * fpow_of(rho, k - 1) == fpow_of(rho, k - 1) * us[k - 1].val()) by (nonlinear_arith);
    }
}

/// The assignments of all instances, running ones first.
pub open spec fn all_z(accs: Seq<ACCS>, cccs: Seq<CCCS>, w_accs: Seq<Witness>, w_cccs: Seq<Witness>) -> Seq<Seq<Fr>> {
    Seq::new(accs.len(), |i: int| z_of(accs[i].u, accs[i].x@, w_accs[i].w@)) + Seq::new(
        cccs.len(),
        |k: int| z_of(Fr::spec_one(), cccs[k].x@, w_cccs[k].w@),
    )
}

/// Folding keeps the claims true: when every instance's openings are the true values of
/// its own assignment at `(r_x', r_y')`, the folded instance's claimed values are those
/// of the folded assignment `[u, x, w]` over the folded matrices.
pub proof fn lemma_fold_keeps_claims(
    accs: Seq<ACCS>,
    cccs: Seq<CCCS>,
    eps: Seq<Vec<Fr>>,
    thetas: Seq<Vec<Fr>>,
    w_accs: Seq<Witness>,
    w_cccs: Seq<Witness>,
    r_x_prime: Seq<Fr>,
    r_y_prime: Seq<Fr>,
    rho: Fr,
    f: ACCS,
    wit: Witness,
)
    requires
        all_wf(accs, cccs),
        fold_shapes_ok(accs, cccs),
        fold_lens_ok(accs, cccs, eps, thetas),
        w_accs.len() == accs.len(),
        w_cccs.len() == cccs.len(),
        forall|i: int| 0 <= i < accs.len() ==> (#[trigger] w_accs[i]).w@.len() + accs[0].ccs.l + 1 == accs[0].ccs.m,
        forall|k: int| 0 <= k < cccs.len() ==> (#[trigger] w_cccs[k]).w@.len() + accs[0].ccs.l + 1 == accs[0].ccs.m,
        r_x_prime.len() == accs[0].ccs.s,
        r_y_prime.len() == accs[0].ccs.s_prime,
        // every opening is the true value of its instance's assignment
        forall|i: int| 0 <= i < accs.len() ==> vals((#[trigger] eps[i])@) == m_and_z_evals(
            accs[i].ccs.model().M,
            z_of(accs[i].u, accs[i].x@, w_accs[i].w@),
            r_x_prime,
            r_y_prime,
        ),
        forall|k: int| 0 <= k < cccs.len() ==> vals((#[trigger] thetas[k])@) == m_and_z_evals(
            cccs[k].ccs.model().M,
            z_of(Fr::spec_one(), cccs[k].x@, w_cccs[k].w@),
            r_x_prime,
            r_y_prime,
        ),
        // what `fold` and `fold_witness` promise of their results
        folded_as(f, accs, cccs, eps, thetas, r_x_prime, r_y_prime, rho),
        wit.w@.len() == w_accs[0].w@.len(),
        forall|k: int| 0 <= k < wit.w@.len() ==> (#[trigger] wit.w@[k]).val() == comb(
            all_w(w_accs, w_cccs),
            rho.val(),
            (accs.len() + cccs.len()) as int,
            k,
        ),
    ensures
        vals(f.v@) == m_and_z_evals(f.ccs.model().M, z_of(f.u, f.x@, wit.w@), f.r_x@, f.r_y@),
{
    let base = accs[0].ccs;
    let n = (accs.len() + cccs.len()) as int;
    let mu = accs.len() as int;
    let (s, sp, t, rows, m, l) = (base.s as nat, base.s_prime as nat, base.t as int, base.n as int, base.m as int, base.l as int);
    let vs = rows_of(eps) + rows_of(thetas);
    let ms = all_m(accs, cccs);
    let zs = all_z(accs, cccs, w_accs, w_cccs);
    let zf = z_of(f.u, f.x@, wit.w@);
    let rho_v = rho.val();
    let pt_full = vals(r_y_prime) + vals(r_x_prime);
    let pt_y = vals(r_y_prime);
    assert(base.wf());
    lemma_pow2_adds(s, sp);
    lemma_pow2_pos(sp);
    // facts per instance
    assert forall|i: int| 0 <= i < n implies {
        &&& (#[trigger] vs[i]) == (if i < mu { eps[i]@ } else { thetas[i - mu]@ })
        &&& ms[i] == (if i < mu { accs[i].ccs.model().M } else { cccs[i - mu].ccs.model().M })
        &&& mats_shape(ms[i], t, rows, m)
        &&& zs[i].len() == m
        &&& vals(vs[i]) == m_and_z_evals(ms[i], zs[i], r_x_prime, r_y_prime)
    } by {
        if i < mu {
            assert(accs[i].ccs.wf() && accs[i].ccs.same_dims(&base));
            assert(rows_of(eps)[i] == eps[i]@);
        } else {
            assert(cccs[i - mu].ccs.wf() && cccs[i - mu].ccs.same_dims(&base));
            assert(rows_of(thetas)[i - mu] == thetas[i - mu]@);
        }
    }
    let fm = f.ccs.model().M;
    assert(vals(f.v@).len() == t + 1);
    assert(m_and_z_evals(fm, zf, f.r_x@, f.r_y@).len() == t + 1);
    assert forall|j: int| 0 <= j < t + 1 implies #[trigger] vals(f.v@)[j] == m_and_z_evals(fm, zf, f.r_x@, f.r_y@)[j] by {
        if j < t {
            let ts = Seq::new(n as nat, |i: int| mat_table(ms[i][j], s, sp));
            assert forall|i: int| 0 <= i < n implies (#[trigger] vs[i])[j].val() == mle_at(ts[i], pt_full) by {
                assert(vals(vs[i])[j] == sum_eqm_evals(ms[i], r_y_prime, r_x_prime)[j]);
            }
            lemma_comb_as_mle(vs, j, ts, rho_v, pt_full, n);
            assert forall|i: int| 0 <= i < ts.len() implies (#[trigger] ts[i]).len() == pow2(pt_full.len() as nat) by {}
            lemma_mle_comb(ts, rho_v, pt_full, n);
            let ct = comb_table(ts, rho_v, n, pow2(pt_full.len() as nat));
            assert forall|kk: int| 0 <= kk < ct.len() implies #[trigger] ct[kk] == mat_table(fm[j], s, sp)[kk] by {
                let x = kk / pow2(sp) as int;
                let y = kk % pow2(sp) as int;
                if 0 <= x < rows && 0 <= y < m {
                    assert forall|i: int| 0 <= i < n implies (#[trigger] ts[i])[kk] == ms[i][j][x][y].val() by {
                        assert(ms[i][j].len() == rows);
                        assert(ms[i][j][x].len() == m);
                    }
                    lemma_tab_comb_mats(ts, ms, rho_v, n, kk, j, x, y);
                } else {
                    assert forall|i: int| 0 <= i < n implies (#[trigger] ts[i])[kk] == 0 by {
                        assert(ms[i][j].len() == rows);
                        if 0 <= x < rows {
                            assert(ms[i][j][x].len() == m);
                        }
                    }
                    lemma_tab_comb_zero(ts, rho_v, n, kk);
                    if 0 <= x < rows {
                        assert(fm[j][x].len() == m);
                    }
                }
            }
            assert(ct =~= mat_table(fm[j], s, sp));
            assert(vals(f.v@)[j] == comb(vs, rho_v, n, j));
            assert(m_and_z_evals(fm, zf, f.r_x@, f.r_y@)[j] == sum_eqm_evals(fm, f.r_y@, f.r_x@)[j]);
        } else {
            let ts = Seq::new(n as nat, |i: int| padded(vals(zs[i]), pow2(sp)));
            assert forall|i: int| 0 <= i < n implies (#[trigger] vs[i])[j].val() == mle_at(ts[i], pt_y) by {
                assert(vals(vs[i])[j] == m_and_z_evals(ms[i], zs[i], r_x_prime, r_y_prime)[t]);
            }
            lemma_comb_as_mle(vs, j, ts, rho_v, pt_y, n);
            lemma_mle_comb(ts, rho_v, pt_y, n);
            let ct = comb_table(ts, rho_v, n, pow2(pt_y.len() as nat));
            assert(zf.len() == m);
            assert forall|kk: int| 0 <= kk < ct.len() implies #[trigger] ct[kk] == padded(vals(zf), pow2(sp))[kk] by {
                if kk == 0 {
                    let us = all_u(accs, cccs);
                    assert forall|i: int| 0 <= i < n implies (#[trigger] ts[i])[kk] == us[i].val() by {}
                    lemma_tab_comb_scalars(ts, us, rho_v, n, kk);
                } else if kk < 1 + l {
                    let xs = all_x(accs, cccs);
                    assert forall|i: int| 0 <= i < n implies (#[trigger] ts[i])[kk] == xs[i][kk - 1].val() by {
                        if i < mu {
                            assert(accs[i].x@.len() == l);
                        } else {
                            assert(cccs[i - mu].x@.len() == l);
                        }
                    }
                    lemma_tab_comb_vec(ts, xs, rho_v, n, kk, kk - 1);
                } else if kk < m {
                    let ws = all_w(w_accs, w_cccs);
                    assert forall|i: int| 0 <= i < n implies (#[trigger] ts[i])[kk] == ws[i][kk - 1 - l].val() by {
                        if i < mu {
                            assert(accs[i].x@.len() == l);
                        } else {
                            assert(cccs[i - mu].x@.len() == l);
                        }
                    }
                    lemma_tab_comb_vec(ts, ws, rho_v, n, kk, kk - 1 - l);
                } else {
                    assert forall|i: int| 0 <= i < n implies (#[trigger] ts[i])[kk] == 0 by {}
                    lemma_tab_comb_zero(ts, rho_v, n, kk);
                }
            }
            assert(ct =~= padded(vals(zf), pow2(sp)));
            assert(vals(f.v@)[j] == comb(vs, rho_v, n, j));
        }
    }
    assert(vals(f.v@) =~= m_and_z_evals(fm, zf, f.r_x@, f.r_y@));
}

proof fn lemma_vec_eq_by_vals(a: Seq<Fr>, b: Seq<Fr>)
    requires
        a.len() == b.len(),
        forall|k: int| 0 <= k < a.len() ==> (#[trigger] a[k]).val() == b[k].val(),
    ensures
        a == b,
{
    assert forall|k: int| 0 <= k < a.len() implies a[k] == b[k] by {
        lemma_val_injective(a[k], b[k]);
    }
    assert(a =~= b);
}

/// Folding is a function of its inputs: the prover's and the verifier's folded instances,
/// made from the same instances, openings, points and challenge, are the same instance.
pub proof fn lemma_fold_deterministic(
    accs: Seq<ACCS>,
    cccs: Seq<CCCS>,
    eps: Seq<Vec<Fr>>,
    thetas: Seq<Vec<Fr>>,
    r_x_prime: Seq<Fr>,
    r_y_prime: Seq<Fr>,
    rho: Fr,
    f1: ACCS,
    f2: ACCS,
)
    requires
        folded_as(f1, accs, cccs, eps, thetas, r_x_prime, r_y_prime, rho),
        folded_as(f2, accs, cccs, eps, thetas, r_x_prime, r_y_prime, rho),
    ensures
        f1.C.0@ == f2.C.0@,
        f1.u == f2.u,
        f1.x@ == f2.x@,
        f1.v@ == f2.v@,
        f1.r_x@ == f2.r_x@,
        f1.r_y@ == f2.r_y@,
        f1.ccs.model() == f2.ccs.model(),
{
    let base = accs[0].ccs;
    lemma_val_injective(f1.u, f2.u);
    lemma_vec_eq_by_vals(f1.x@, f2.x@);
    lemma_vec_eq_by_vals(f1.v@, f2.v@);
    let m1 = f1.ccs.model().M;
    let m2 = f2.ccs.model().M;
    assert forall|j: int| 0 <= j < m1.len() implies #[trigger] m1[j] == m2[j] by {
        assert forall|x: int| 0 <= x < m1[j].len() implies #[trigger] m1[j][x] == m2[j][x] by {
            lemma_vec_eq_by_vals(m1[j][x], m2[j][x]);
        }
        assert(m1[j] =~= m2[j]);
    }
    assert(m1 =~= m2);
}

} // verus!
