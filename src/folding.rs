//! The folding of running accumulated instances (ACCS) and new committed instances
//! (CCCS) into one accumulated instance, by two sum-check reductions and a random
//! linear combination.
use crate::ccs::{
    compute_all_sum_M_and_z_evals, compute_all_sum_Mz_evals, compute_all_sum_eqM_evals, copy_vec,
    m_and_z_evals, msview, sum_eqm_evals, sum_mz_evals, CcsModel, CCS,
};
use crate::commitment::{add_points, g1_mul_of, mul_point, opt_add, Commitment};
use crate::instance::{z_of, Witness, ACCS, CCCS};
use crate::matrix::{mat_add, mat_scalar_mul, Matrix};
use crate::ccs::mview;
use crate::error::FoldingError;
use crate::field::{fadd, fmul, fpow, Fr};
use crate::matrix::vals;
use crate::mle::{eq_eval, eq_prefix};
use vstd::prelude::*;

verus! {

/// The exponents and sizes this module works with stay below this bound.
pub const MAX_TERMS: usize = 0x1000_0000;

/// The folding scheme; its operations are associated functions.
#[derive(Debug)]
pub struct Genericfolding {}

/// `eq(a, b)` over their common length.
pub open spec fn eq_val(a: Seq<Fr>, b: Seq<Fr>) -> int {
    eq_prefix(vals(a), vals(b), a.len() as int)
}

/// `acc + sum_{j' < j} g^(base + j') * e * row[j']`, accumulated left to right.
pub open spec fn row_acc(acc: int, row: Seq<Fr>, g: int, e: int, base: int, j: int) -> int
    decreases j,
{
    if j <= 0 {
        acc
    } else {
        fadd(row_acc(acc, row, g, e, base, j - 1), fmul(fmul(fpow(g, (base + j - 1) as nat), e), row[j - 1].val()))
    }
}

/// `sum_{i' < i} sum_j g^(i' * stride + j) * e_{i'} * rows[i'][j]`.
pub open spec fn block_acc(rows: Seq<Seq<Fr>>, g: int, es: Seq<int>, stride: int, i: int) -> int
    decreases i,
{
    if i <= 0 {
        0
    } else {
        row_acc(block_acc(rows, g, es, stride, i - 1), rows[i - 1], g, es[i - 1], (i - 1) * stride, rows[i - 1].len() as int)
    }
}

/// The product over the first `k` members of `sel` of `vals[j]`.
pub open spec fn sel_vals_prod(sel: Seq<usize>, vals_: Seq<Fr>, k: int) -> int
    decreases k,
{
    if k <= 0 {
        1
    } else {
        fmul(sel_vals_prod(sel, vals_, k - 1), vals_[sel[k - 1] as int].val())
    }
}

/// `sum_{i' < i} c_{i'} * prod_{j in S_{i'}} vals[j]`: the custom gate on given values.
pub open spec fn gate_on(sels: Seq<Seq<usize>>, cs: Seq<Fr>, vals_: Seq<Fr>, i: int) -> int
    decreases i,
{
    if i <= 0 {
        0
    } else {
        fadd(gate_on(sels, cs, vals_, i - 1), fmul(cs[i - 1].val(), sel_vals_prod(sels[i - 1], vals_, sels[i - 1].len() as int)))
    }
}

/// `acc + sum_{k' < k} g^(base + k') * e * gate(taus[k'])`.
pub open spec fn gate_acc(acc: int, ccs: CCS, taus: Seq<Seq<Fr>>, g: int, e: int, base: int, k: int) -> int
    decreases k,
{
    if k <= 0 {
        acc
    } else {
        fadd(
            gate_acc(acc, ccs, taus, g, e, base, k - 1),
            fmul(fmul(fpow(g, (base + k - 1) as nat), e), gate_on(ccs.model().S, ccs.c@, taus[k - 1], ccs.q as int)),
        )
    }
}

/// `eq(r_i, point)` for each point `r_i`.
pub open spec fn eq_vals(rs: Seq<Seq<Fr>>, point: Seq<Fr>) -> Seq<int> {
    Seq::new(rs.len(), |i: int| eq_val(rs[i], point))
}

/// The rows of a list of vectors.
pub open spec fn rows_of(vs: Seq<Vec<Fr>>) -> Seq<Seq<Fr>> {
    vs.map_values(|v: Vec<Fr>| v@)
}

/// The value `c_x` that the first sum-check's final evaluation must equal:
/// `sum_{i,j} gamma^(i*t+j) eq(r_x_i, r_x') sigma_{i,j}
///  + sum_k gamma^(mu*t+k) eq(alpha, r_x') sum_i c_i prod_{j in S_i} tau_{k,j}`.
pub open spec fn cx_spec(
    ccs: CCS,
    sigmas: Seq<Vec<Fr>>,
    taus: Seq<Vec<Fr>>,
    gamma: Fr,
    alpha: Seq<Fr>,
    vec_r_x: Seq<Seq<Fr>>,
    r_x_prime: Seq<Fr>,
) -> int {
    let first = block_acc(rows_of(sigmas), gamma.val(), eq_vals(vec_r_x, r_x_prime), ccs.t as int, sigmas.len() as int);
    gate_acc(first, ccs, rows_of(taus), gamma.val(), eq_val(alpha, r_x_prime), sigmas.len() * ccs.t, taus.len() as int)
}

/// `acc + sum_{j' < j} g^(base + j') * row[j'] * last`.
pub open spec fn pair_acc(acc: int, row: Seq<Fr>, g: int, last: int, base: int, j: int) -> int
    decreases j,
{
    if j <= 0 {
        acc
    } else {
        fadd(pair_acc(acc, row, g, last, base, j - 1), fmul(fmul(fpow(g, (base + j - 1) as nat), row[j - 1].val()), last))
    }
}

/// `acc + sum_{k' < k} sum_{j < t} g^(base + k' * t + j) * theta_{k',j} * theta_{k',t}`.
pub open spec fn theta_acc(acc: int, thetas: Seq<Seq<Fr>>, g: int, t: int, base: int, k: int) -> int
    decreases k,
{
    if k <= 0 {
        acc
    } else {
        pair_acc(theta_acc(acc, thetas, g, t, base, k - 1), thetas[k - 1], g, thetas[k - 1][t].val(), base + (k - 1) * t, t)
    }
}

/// The value `c_y` that the second sum-check's final evaluation must equal:
/// `sum_{i,j} delta^(i*(t+1)+j) eq(r_y_i, r_y') epsilon_{i,j}
///  + sum_k sum_{j < t} delta^(mu*(t+1)+k*t+j) theta_{k,j} theta_{k,t}`.
pub open spec fn cy_spec(
    ccs: CCS,
    epsilons: Seq<Vec<Fr>>,
    thetas: Seq<Vec<Fr>>,
    delta: Fr,
    vec_r_y: Seq<Seq<Fr>>,
    r_y_prime: Seq<Fr>,
) -> int {
    let first = block_acc(rows_of(epsilons), delta.val(), eq_vals(vec_r_y, r_y_prime), ccs.t + 1, epsilons.len() as int);
    theta_acc(first, rows_of(thetas), delta.val(), ccs.t as int, epsilons.len() * (ccs.t + 1), thetas.len() as int)
}

/// All rows have length `k`.
pub open spec fn all_len(vs: Seq<Vec<Fr>>, k: int) -> bool {
    forall|i: int| 0 <= i < vs.len() ==> (#[trigger] vs[i])@.len() == k
}

/// All rows have length at least `k`.
pub open spec fn all_len_at_least(vs: Seq<Vec<Fr>>, k: int) -> bool {
    forall|i: int| 0 <= i < vs.len() ==> (#[trigger] vs[i])@.len() >= k
}

/// `acc + sum_{j < row.len()} g^(base + j) * e * row[j]`.
fn add_row(acc: Fr, row: &Vec<Fr>, g: &Fr, e: &Fr, base: usize) -> (r: Fr)
    requires
        base + row@.len() <= MAX_TERMS,
    ensures
        r.val() == row_acc(acc.val(), row@, g.val(), e.val(), base as int, row@.len() as int),
{
    let mut acc = acc;
    let ghost acc0 = acc.val();
    let mut j: usize = 0;
    while j < row.len()
        invariant
            base + row@.len() <= MAX_TERMS,
            j <= row@.len(),
            acc.val() == row_acc(acc0, row@, g.val(), e.val(), base as int, j as int),
        decreases row@.len() - j,
    {
        let gj = g.pow((base + j) as u64);
        acc = acc.add(&gj.mul(e).mul(&row[j]));
        j += 1;
    }
    acc
}

/// `acc + sum_{j < t} g^(base + j) * row[j] * row[t]`.
fn add_pairs(acc: Fr, row: &Vec<Fr>, g: &Fr, t: usize, base: usize) -> (r: Fr)
    requires
        t < row@.len(),
        base + t <= MAX_TERMS,
    ensures
        r.val() == pair_acc(acc.val(), row@, g.val(), row@[t as int].val(), base as int, t as int),
{
    let mut acc = acc;
    let ghost acc0 = acc.val();
    let mut j: usize = 0;
    while j < t
        invariant
            t < row@.len(),
            base + t <= MAX_TERMS,
            j <= t,
            acc.val() == pair_acc(acc0, row@, g.val(), row@[t as int].val(), base as int, j as int),
        decreases t - j,
    {
        let gj = g.pow((base + j) as u64);
        acc = acc.add(&gj.mul(&row[j]).mul(&row[t]));
        j += 1;
    }
    acc
}

/// `sum_i c_i * prod_{j in S_i} vals[j]`.
pub fn eval_gate(ccs: &CCS, vals_: &Vec<Fr>) -> (r: Fr)
    requires
        ccs.wf(),
        vals_@.len() >= ccs.t,
    ensures
        r.val() == gate_on(ccs.model().S, ccs.c@, vals_@, ccs.q as int),
{
    let mut acc = Fr::zero();
    let mut i: usize = 0;
    while i < ccs.q
        invariant
            ccs.wf(),
            vals_@.len() >= ccs.t,
            i <= ccs.q,
            acc.val() == gate_on(ccs.model().S, ccs.c@, vals_@, i as int),
        decreases ccs.q - i,
    {
        let mut prod = Fr::one();
        let mut k: usize = 0;
        assert(ccs.model().S[i as int] == ccs.S@[i as int]@);
        while k < ccs.S[i].len()
            invariant
                ccs.wf(),
                vals_@.len() >= ccs.t,
                i < ccs.q,
                ccs.model().S[i as int] == ccs.S@[i as int]@,
                k <= ccs.S@[i as int]@.len(),
                prod.val() == sel_vals_prod(ccs.model().S[i as int], vals_@, k as int),
            decreases ccs.S@[i as int]@.len() - k,
        {
            let j = ccs.S[i][k];
            assert(j < ccs.t);
            prod = prod.mul(&vals_[j]);
            k += 1;
        }
        acc = acc.add(&ccs.c[i].mul(&prod));
        i += 1;
    }
    acc
}

impl Genericfolding {
    /// The value `c_x` from the openings `sigmas` (of the running instances) and `taus`
    /// (of the new instances) at `r_x'`.
    pub fn compute_cx_from_sigmas_and_taus(
        ccs: &CCS,
        vec_sigmas: &Vec<Vec<Fr>>,
        vec_taus: &Vec<Vec<Fr>>,
        gamma: Fr,
        alpha: &Vec<Fr>,
        vec_r_x: &Vec<Vec<Fr>>,
        r_x_prime: &Vec<Fr>,
    ) -> (cx: Fr)
        requires
            ccs.wf(),
            vec_r_x@.len() == vec_sigmas@.len(),
            all_len(vec_r_x@, r_x_prime@.len() as int),
            alpha@.len() == r_x_prime@.len(),
            all_len_at_least(vec_taus@, ccs.t as int),
            (vec_sigmas@.len() + vec_taus@.len() + 1) * (ccs.t + 1) <= MAX_TERMS,
            all_len(vec_sigmas@, ccs.t as int),
        ensures
            cx.val() == cx_spec(*ccs, vec_sigmas@, vec_taus@, gamma, alpha@, rows_of(vec_r_x@), r_x_prime@),
    {
        let mu = vec_sigmas.len();
        let t = ccs.t;
        let mut cx = Fr::zero();
        let mut i: usize = 0;
        while i < mu
            invariant
                mu == vec_sigmas@.len(),
                t == ccs.t,
                vec_r_x@.len() == mu,
                all_len(vec_r_x@, r_x_prime@.len() as int),
                all_len(vec_sigmas@, t as int),
                (vec_sigmas@.len() + vec_taus@.len() + 1) * (ccs.t + 1) <= MAX_TERMS,
                i <= mu,
                cx.val() == block_acc(rows_of(vec_sigmas@), gamma.val(), eq_vals(rows_of(vec_r_x@), r_x_prime@), t as int, i as int),
            decreases mu - i,
        {
            let e1 = eq_eval(&vec_r_x[i], r_x_prime);
            assert((i + 1) * t <= (mu + vec_taus@.len() + 1) * (t + 1)) by (nonlinear_arith)
                requires i < mu;
            assert(i * t + t == (i + 1) * t) by (nonlinear_arith);
            cx = add_row(cx, &vec_sigmas[i], &gamma, &e1, i * t);
            proof {
                assert(rows_of(vec_sigmas@)[i as int] == vec_sigmas@[i as int]@);
                assert(eq_vals(rows_of(vec_r_x@), r_x_prime@)[i as int] == e1.val());
            }
            i += 1;
        }
        let e2 = eq_eval(alpha, r_x_prime);
        assert(mu * t + vec_taus@.len() <= (mu + vec_taus@.len() + 1) * (t + 1)) by (nonlinear_arith);
        let base = mu * t;
        let ghost first = cx.val();
        let mut k: usize = 0;
        while k < vec_taus.len()
            invariant
                ccs.wf(),
                all_len_at_least(vec_taus@, ccs.t as int),
                base == mu * t,
                t == ccs.t,
                base + vec_taus@.len() <= MAX_TERMS,
                k <= vec_taus@.len(),
                cx.val() == gate_acc(first, *ccs, rows_of(vec_taus@), gamma.val(), e2.val(), base as int, k as int),
            decreases vec_taus@.len() - k,
        {
            let lhs = eval_gate(ccs, &vec_taus[k]);
            let gk = gamma.pow((base + k) as u64);
            cx = cx.add(&gk.mul(&e2).mul(&lhs));
            proof {
                assert(rows_of(vec_taus@)[k as int] == vec_taus@[k as int]@);
            }
            k += 1;
        }
        cx
    }

    /// The value `c_y` from the openings `epsilons` (of the running instances) and
    /// `thetas` (of the new instances) at `(r_x', r_y')`.
    pub fn compute_cy_from_epsilons_and_thetas(
        ccs: &CCS,
        vec_epsilons: &Vec<Vec<Fr>>,
        vec_thetas: &Vec<Vec<Fr>>,
        delta: Fr,
        vec_r_y: &Vec<Vec<Fr>>,
        r_y_prime: &Vec<Fr>,
    ) -> (cy: Fr)
        requires
            vec_r_y@.len() == vec_epsilons@.len(),
            all_len(vec_r_y@, r_y_prime@.len() as int),
            all_len_at_least(vec_thetas@, ccs.t + 1),
            all_len(vec_epsilons@, ccs.t + 1),
            (vec_epsilons@.len() + vec_thetas@.len() + 1) * (ccs.t + 1) <= MAX_TERMS,
        ensures
            cy.val() == cy_spec(*ccs, vec_epsilons@, vec_thetas@, delta, rows_of(vec_r_y@), r_y_prime@),
    {
        let mu = vec_epsilons.len();
        let t = ccs.t;
        let mut cy = Fr::zero();
        let mut i: usize = 0;
        while i < mu
            invariant
                mu == vec_epsilons@.len(),
                t == ccs.t,
                vec_r_y@.len() == mu,
                all_len(vec_r_y@, r_y_prime@.len() as int),
                all_len(vec_epsilons@, t + 1),
                (vec_epsilons@.len() + vec_thetas@.len() + 1) * (ccs.t + 1) <= MAX_TERMS,
                i <= mu,
                cy.val() == block_acc(rows_of(vec_epsilons@), delta.val(), eq_vals(rows_of(vec_r_y@), r_y_prime@), t + 1, i as int),
            decreases mu - i,
        {
            let e3 = eq_eval(&vec_r_y[i], r_y_prime);
            assert((i + 1) * (t + 1) <= (mu + vec_thetas@.len() + 1) * (t + 1)) by (nonlinear_arith)
                requires i < mu;
            assert(i * (t + 1) + (t + 1) == (i + 1) * (t + 1)) by (nonlinear_arith);
            cy = add_row(cy, &vec_epsilons[i], &delta, &e3, i * (t + 1));
            proof {
                assert(rows_of(vec_epsilons@)[i as int] == vec_epsilons@[i as int]@);
                assert(eq_vals(rows_of(vec_r_y@), r_y_prime@)[i as int] == e3.val());
            }
            i += 1;
        }
        let nu = vec_thetas.len();
        assert(mu * (t + 1) + nu * t + t <= (mu + nu + 1) * (t + 1)) by (nonlinear_arith);
        let base = mu * (t + 1);
        let ghost first = cy.val();
        let mut k: usize = 0;
        while k < nu
            invariant
                nu == vec_thetas@.len(),
                all_len_at_least(vec_thetas@, t + 1),
                base == mu * (t + 1),
                t == ccs.t,
                base + nu * t + t <= MAX_TERMS,
                k <= nu,
                cy.val() == theta_acc(first, rows_of(vec_thetas@), delta.val(), t as int, base as int, k as int),
            decreases nu - k,
        {
            assert(k * t <= nu * t) by (nonlinear_arith)
                requires k < nu;
            cy = add_pairs(cy, &vec_thetas[k], &delta, t, base + k * t);
            proof {
                assert(rows_of(vec_thetas@)[k as int] == vec_thetas@[k as int]@);
                assert(base + k * t == base as int + k as int * t as int);
            }
            k += 1;
        }
        cy
    }
}

/// Every instance is over a well-formed shape with the dimensions of `base`.
pub open spec fn shapes_agree(base: CCS, accs: Seq<ACCS>, cccs: Seq<CCCS>) -> bool {
    &&& forall|i: int| 0 <= i < accs.len() ==> (#[trigger] accs[i]).ccs.wf() && accs[i].ccs.same_dims(&base)
    &&& forall|k: int| 0 <= k < cccs.len() ==> (#[trigger] cccs[k]).ccs.wf() && cccs[k].ccs.same_dims(&base)
}

impl Genericfolding {
    /// `sigma_i = (M_j(r_x', r_y_i))_j` for each running instance and
    /// `tau_k = (sum_y M_j(r_x', y) z_k(y))_j` for each new instance.
    pub fn compute_sigmas_and_taus(
        accs_instances: &Vec<ACCS>,
        cccs_instances: &Vec<CCCS>,
        z_accs: &Vec<Vec<Fr>>,
        z_cccs: &Vec<Vec<Fr>>,
        r_x_prime: &Vec<Fr>,
    ) -> (r: (Vec<Vec<Fr>>, Vec<Vec<Fr>>))
        requires
            accs_instances@.len() >= 1,
            z_accs@.len() == accs_instances@.len(),
            z_cccs@.len() == cccs_instances@.len(),
            shapes_agree(accs_instances@[0].ccs, accs_instances@, cccs_instances@),
            r_x_prime@.len() == accs_instances@[0].ccs.s,
            forall|i: int| 0 <= i < accs_instances@.len() ==> (#[trigger] accs_instances@[i]).r_y@.len() == accs_instances@[0].ccs.s_prime,
            all_len(z_cccs@, accs_instances@[0].ccs.m as int),
        ensures
            r.0@.len() == accs_instances@.len(),
            r.1@.len() == cccs_instances@.len(),
            forall|i: int| 0 <= i < accs_instances@.len() ==> vals((#[trigger] r.0@[i])@) == sum_eqm_evals(
                accs_instances@[i].ccs.model().M,
                accs_instances@[i].r_y@,
                r_x_prime@,
            ),
            forall|k: int| 0 <= k < cccs_instances@.len() ==> vals((#[trigger] r.1@[k])@) == sum_mz_evals(
                cccs_instances@[k].ccs.model().M,
                z_cccs@[k]@,
                r_x_prime@,
            ),
    {
        let s_prime = accs_instances[0].ccs.s_prime;
        let mut sigmas: Vec<Vec<Fr>> = Vec::new();
        let mut i: usize = 0;
        while i < z_accs.len()
            invariant
                z_accs@.len() == accs_instances@.len(),
                accs_instances@.len() >= 1,
                s_prime == accs_instances@[0].ccs.s_prime,
                shapes_agree(accs_instances@[0].ccs, accs_instances@, cccs_instances@),
                r_x_prime@.len() == accs_instances@[0].ccs.s,
                forall|i: int| 0 <= i < accs_instances@.len() ==> (#[trigger] accs_instances@[i]).r_y@.len() == s_prime,
                i <= accs_instances@.len(),
                sigmas@.len() == i,
                forall|k: int| 0 <= k < i ==> vals((#[trigger] sigmas@[k])@) == sum_eqm_evals(
                    accs_instances@[k].ccs.model().M,
                    accs_instances@[k].r_y@,
                    r_x_prime@,
                ),
            decreases accs_instances@.len() - i,
        {
            let a = &accs_instances[i];
            assert(a.ccs.wf());
            sigmas.push(compute_all_sum_eqM_evals(&a.ccs.M, &a.r_y, r_x_prime, s_prime));
            i += 1;
        }
        let mut taus: Vec<Vec<Fr>> = Vec::new();
        let mut k: usize = 0;
        while k < z_cccs.len()
            invariant
                z_cccs@.len() == cccs_instances@.len(),
                accs_instances@.len() >= 1,
                s_prime == accs_instances@[0].ccs.s_prime,
                shapes_agree(accs_instances@[0].ccs, accs_instances@, cccs_instances@),
                r_x_prime@.len() == accs_instances@[0].ccs.s,
                all_len(z_cccs@, accs_instances@[0].ccs.m as int),
                k <= cccs_instances@.len(),
                taus@.len() == k,
                forall|kk: int| 0 <= kk < k ==> vals((#[trigger] taus@[kk])@) == sum_mz_evals(
                    cccs_instances@[kk].ccs.model().M,
                    z_cccs@[kk]@,
                    r_x_prime@,
                ),
            decreases cccs_instances@.len() - k,
        {
            let c = &cccs_instances[k];
            assert(c.ccs.wf());
            assert(z_cccs@[k as int]@.len() == c.ccs.m);
            taus.push(compute_all_sum_Mz_evals(&c.ccs.M, &z_cccs[k], r_x_prime, s_prime));
            k += 1;
        }
        (sigmas, taus)
    }

    /// `epsilon_i = (M_j(r_x', r_y'))_j ++ [z_i(r_y')]` for each running instance, and the
    /// same `theta_k` for each new instance; with no new instance, one row of zeros.
    pub fn compute_epsilons_and_thetas(
        accs_instances: &Vec<ACCS>,
        cccs_instances: &Vec<CCCS>,
        z_accs: &Vec<Vec<Fr>>,
        z_cccs: &Vec<Vec<Fr>>,
        r_x_prime: &Vec<Fr>,
        r_y_prime: &Vec<Fr>,
    ) -> (r: (Vec<Vec<Fr>>, Vec<Vec<Fr>>))
        requires
            accs_instances@.len() >= 1,
            z_accs@.len() == accs_instances@.len(),
            z_cccs@.len() == cccs_instances@.len(),
            shapes_agree(accs_instances@[0].ccs, accs_instances@, cccs_instances@),
            r_x_prime@.len() == accs_instances@[0].ccs.s,
            r_y_prime@.len() == accs_instances@[0].ccs.s_prime,
            all_len(z_accs@, accs_instances@[0].ccs.m as int),
            all_len(z_cccs@, accs_instances@[0].ccs.m as int),
        ensures
            r.0@.len() == accs_instances@.len(),
            forall|i: int| 0 <= i < accs_instances@.len() ==> vals((#[trigger] r.0@[i])@) == m_and_z_evals(
                accs_instances@[i].ccs.model().M,
                z_accs@[i]@,
                r_x_prime@,
                r_y_prime@,
            ),
            cccs_instances@.len() > 0 ==> r.1@.len() == cccs_instances@.len(),
            forall|k: int| 0 <= k < cccs_instances@.len() ==> vals((#[trigger] r.1@[k])@) == m_and_z_evals(
                cccs_instances@[k].ccs.model().M,
                z_cccs@[k]@,
                r_x_prime@,
                r_y_prime@,
            ),
            cccs_instances@.len() == 0 ==> r.1@.len() == 1 && r.1@[0]@.len() == accs_instances@[0].ccs.t + 1
                && forall|j: int| 0 <= j < r.1@[0]@.len() ==> (#[trigger] r.1@[0]@[j]).val() == 0,
    {
        let s_prime = accs_instances[0].ccs.s_prime;
        let mut epsilons: Vec<Vec<Fr>> = Vec::new();
        let mut i: usize = 0;
        while i < z_accs.len()
            invariant
                z_accs@.len() == accs_instances@.len(),
                accs_instances@.len() >= 1,
                s_prime == accs_instances@[0].ccs.s_prime,
                shapes_agree(accs_instances@[0].ccs, accs_instances@, cccs_instances@),
                r_x_prime@.len() == accs_instances@[0].ccs.s,
                r_y_prime@.len() == s_prime,
                all_len(z_accs@, accs_instances@[0].ccs.m as int),
                i <= accs_instances@.len(),
                epsilons@.len() == i,
                forall|k: int| 0 <= k < i ==> vals((#[trigger] epsilons@[k])@) == m_and_z_evals(
                    accs_instances@[k].ccs.model().M,
                    z_accs@[k]@,
                    r_x_prime@,
                    r_y_prime@,
                ),
            decreases accs_instances@.len() - i,
        {
            let a = &accs_instances[i];
            assert(a.ccs.wf());
            assert(z_accs@[i as int]@.len() == a.ccs.m);
            epsilons.push(compute_all_sum_M_and_z_evals(&a.ccs.M, &z_accs[i], r_x_prime, r_y_prime, s_prime));
            i += 1;
        }
        let mut thetas: Vec<Vec<Fr>> = Vec::new();
        if cccs_instances.len() == 0 {
            let mut zeros: Vec<Fr> = Vec::new();
            let mut j: usize = 0;
            let t = accs_instances[0].ccs.t;
            zeros.push(Fr::zero());
            while j < t
                invariant
                    j <= t,
                    zeros@.len() == j + 1,
                    forall|jj: int| 0 <= jj < j + 1 ==> (#[trigger] zeros@[jj]).val() == 0,
                decreases t - j,
            {
                zeros.push(Fr::zero());
                j += 1;
            }
            thetas.push(zeros);
        } else {
            let mut k: usize = 0;
            while k < z_cccs.len()
                invariant
                    z_cccs@.len() == cccs_instances@.len(),
                    accs_instances@.len() >= 1,
                    s_prime == accs_instances@[0].ccs.s_prime,
                    shapes_agree(accs_instances@[0].ccs, accs_instances@, cccs_instances@),
                    r_x_prime@.len() == accs_instances@[0].ccs.s,
                    r_y_prime@.len() == s_prime,
                    all_len(z_cccs@, accs_instances@[0].ccs.m as int),
                    k <= cccs_instances@.len(),
                    thetas@.len() == k,
                    forall|kk: int| 0 <= kk < k ==> vals((#[trigger] thetas@[kk])@) == m_and_z_evals(
                        cccs_instances@[kk].ccs.model().M,
                        z_cccs@[kk]@,
                        r_x_prime@,
                        r_y_prime@,
                    ),
                decreases cccs_instances@.len() - k,
            {
                let c = &cccs_instances[k];
                assert(c.ccs.wf());
                assert(z_cccs@[k as int]@.len() == c.ccs.m);
                thetas.push(compute_all_sum_M_and_z_evals(&c.ccs.M, &z_cccs[k], r_x_prime, r_y_prime, s_prime));
                k += 1;
            }
        }
        (epsilons, thetas)
    }
}

/// `sum_{i < k} vs[i][idx] * rho^i`, accumulated left to right.
pub open spec fn comb(vs: Seq<Seq<Fr>>, rho: int, k: int, idx: int) -> int
    decreases k,
{
    if k <= 0 {
        0
    } else {
        fadd(comb(vs, rho, k - 1, idx), fmul(vs[k - 1][idx].val(), fpow(rho, (k - 1) as nat)))
    }
}

/// `sum_{i < k} rho^i * us[i]`, accumulated left to right.
pub open spec fn comb_scalars(us: Seq<Fr>, rho: int, k: int) -> int
    decreases k,
{
    if k <= 0 {
        0
    } else {
        fadd(comb_scalars(us, rho, k - 1), fmul(fpow(rho, (k - 1) as nat), us[k - 1].val()))
    }
}

/// `sum_{i < k} ms[i][j][x][y] * rho^i`, accumulated left to right.
pub open spec fn comb_mats(ms: Seq<Seq<Seq<Seq<Fr>>>>, rho: int, k: int, j: int, x: int, y: int) -> int
    decreases k,
{
    if k <= 0 {
        0
    } else {
        fadd(comb_mats(ms, rho, k - 1, j, x, y), fmul(ms[k - 1][j][x][y].val(), fpow(rho, (k - 1) as nat)))
    }
}

/// `sum_{i < k} rho^i * cs[i]` in G1, from the first term on; `None` where a term is
/// not a point.
pub open spec fn comb_commit(cs: Seq<Seq<u8>>, rho: int, k: int) -> Option<Seq<u8>>
    decreases k,
{
    if k <= 1 {
        g1_mul_of(cs[0], fpow(rho, 0))
    } else {
        opt_add(comb_commit(cs, rho, k - 1), g1_mul_of(cs[k - 1], fpow(rho, (k - 1) as nat)))
    }
}

/// The public inputs of all instances, running ones first.
pub open spec fn all_x(accs: Seq<ACCS>, cccs: Seq<CCCS>) -> Seq<Seq<Fr>> {
    accs.map_values(|a: ACCS| a.x@) + cccs.map_values(|c: CCCS| c.x@)
}

/// The relaxation factors of all instances; a new instance has factor one.
pub open spec fn all_u(accs: Seq<ACCS>, cccs: Seq<CCCS>) -> Seq<Fr> {
    accs.map_values(|a: ACCS| a.u) + cccs.map_values(|c: CCCS| Fr::spec_one())
}

/// The commitments of all instances.
pub open spec fn all_c(accs: Seq<ACCS>, cccs: Seq<CCCS>) -> Seq<Seq<u8>> {
    accs.map_values(|a: ACCS| a.C.0@) + cccs.map_values(|c: CCCS| c.C.0@)
}

/// The matrices of all instances.
pub open spec fn all_m(accs: Seq<ACCS>, cccs: Seq<CCCS>) -> Seq<Seq<Seq<Seq<Fr>>>> {
    accs.map_values(|a: ACCS| a.ccs.model().M) + cccs.map_values(|c: CCCS| c.ccs.model().M)
}

/// A list of `t` matrices of `n` rows of `m` entries.
pub open spec fn mats_shape(ms: Seq<Seq<Seq<Fr>>>, t: int, n: int, m: int) -> bool {
    &&& ms.len() == t
    &&& forall|j: int| 0 <= j < t ==> (#[trigger] ms[j]).len() == n
    &&& forall|j: int, x: int| 0 <= j < t && 0 <= x < n ==> (#[trigger] ms[j][x]).len() == m
}

/// All instances have the dimensions of the first running one.
pub open spec fn fold_shapes_ok(accs: Seq<ACCS>, cccs: Seq<CCCS>) -> bool {
    &&& accs.len() >= 1
    &&& forall|i: int| 0 <= i < accs.len() ==> (#[trigger] accs[i]).ccs.same_dims(&accs[0].ccs)
    &&& forall|k: int| 0 <= k < cccs.len() ==> (#[trigger] cccs[k]).ccs.same_dims(&accs[0].ccs)
}

/// The public inputs and the openings have the lengths the shape asks for.
pub open spec fn fold_lens_ok(accs: Seq<ACCS>, cccs: Seq<CCCS>, eps: Seq<Vec<Fr>>, thetas: Seq<Vec<Fr>>) -> bool {
    &&& eps.len() == accs.len()
    &&& thetas.len() == cccs.len()
    &&& forall|i: int| 0 <= i < accs.len() ==> (#[trigger] accs[i]).x@.len() == accs[0].ccs.l
    &&& forall|k: int| 0 <= k < cccs.len() ==> (#[trigger] cccs[k]).x@.len() == accs[0].ccs.l
    &&& all_len(eps, accs[0].ccs.t + 1)
    &&& all_len(thetas, accs[0].ccs.t + 1)
}

/// Every shape is well formed.
pub open spec fn all_wf(accs: Seq<ACCS>, cccs: Seq<CCCS>) -> bool {
    &&& forall|i: int| 0 <= i < accs.len() ==> (#[trigger] accs[i]).ccs.wf()
    &&& forall|k: int| 0 <= k < cccs.len() ==> (#[trigger] cccs[k]).ccs.wf()
}

/// The folded instance: every component is the `rho`-combination of the instances'
/// components, the matrices too; the evaluation points are `r_x'` and `r_y'`.
pub open spec fn folded_as(
    f: ACCS,
    accs: Seq<ACCS>,
    cccs: Seq<CCCS>,
    eps: Seq<Vec<Fr>>,
    thetas: Seq<Vec<Fr>>,
    r_x_prime: Seq<Fr>,
    r_y_prime: Seq<Fr>,
    rho: Fr,
) -> bool {
    let n = (accs.len() + cccs.len()) as int;
    let base = accs[0].ccs;
    &&& comb_commit(all_c(accs, cccs), rho.val(), n) == Some(f.C.0@)
    &&& f.u.val() == comb_scalars(all_u(accs, cccs), rho.val(), n)
    &&& f.x@.len() == base.l
    &&& forall|k: int| 0 <= k < base.l ==> (#[trigger] f.x@[k]).val() == comb(all_x(accs, cccs), rho.val(), n, k)
    &&& f.v@.len() == base.t + 1
    &&& forall|k: int| 0 <= k < base.t + 1 ==> (#[trigger] f.v@[k]).val() == comb(rows_of(eps) + rows_of(thetas), rho.val(), n, k)
    &&& f.r_x@ == r_x_prime
    &&& f.r_y@ == r_y_prime
    &&& f.ccs.model() == (CcsModel { M: f.ccs.model().M, ..base.model() })
    &&& mats_shape(f.ccs.model().M, base.t as int, base.n as int, base.m as int)
    &&& forall|j: int, x: int, y: int|
        0 <= j < base.t && 0 <= x < base.n && 0 <= y < base.m ==> (#[trigger] f.ccs.model().M[j][x][y]).val()
            == comb_mats(all_m(accs, cccs), rho.val(), n, j, x, y)
}

/// `n` zeros.
pub fn zeros(n: usize) -> (r: Vec<Fr>)
    ensures
        r@.len() == n,
        forall|k: int| 0 <= k < n ==> (#[trigger] r@[k]).val() == 0,
{
    let mut out: Vec<Fr> = Vec::new();
    let mut k: usize = 0;
    while k < n
        invariant
            k <= n,
            out@.len() == k,
            forall|j: int| 0 <= j < k ==> (#[trigger] out@[j]).val() == 0,
        decreases n - k,
    {
        out.push(Fr::zero());
        k += 1;
    }
    out
}

/// `t` zero matrices of `n` rows of `m` entries.
pub fn zero_mats(t: usize, n: usize, m: usize) -> (r: Vec<Matrix>)
    ensures
        mats_shape(msview(r@), t as int, n as int, m as int),
        forall|j: int, x: int, y: int|
            0 <= j < t && 0 <= x < n && 0 <= y < m ==> (#[trigger] msview(r@)[j][x][y]).val() == 0,
{
    let mut out: Vec<Matrix> = Vec::new();
    let mut j: usize = 0;
    while j < t
        invariant
            j <= t,
            out@.len() == j,
            forall|jj: int| 0 <= jj < j ==> (#[trigger] out@[jj])@.len() == n,
            forall|jj: int, x: int| 0 <= jj < j && 0 <= x < n ==> (#[trigger] out@[jj]@[x])@.len() == m,
            forall|jj: int, x: int, y: int|
                0 <= jj < j && 0 <= x < n && 0 <= y < m ==> (#[trigger] out@[jj]@[x]@[y]).val() == 0,
        decreases t - j,
    {
        let mut mat: Matrix = Vec::new();
        let mut x: usize = 0;
        while x < n
            invariant
                x <= n,
                mat@.len() == x,
                forall|xx: int| 0 <= xx < x ==> (#[trigger] mat@[xx])@.len() == m,
                forall|xx: int, y: int| 0 <= xx < x && 0 <= y < m ==> (#[trigger] mat@[xx]@[y]).val() == 0,
            decreases n - x,
        {
            mat.push(zeros(m));
            x += 1;
        }
        out.push(mat);
        j += 1;
    }
    proof {
        assert forall|jj: int, x: int, y: int|
            0 <= jj < t && 0 <= x < n && 0 <= y < m implies (#[trigger] msview(out@)[jj][x][y]).val() == 0 by {
            assert(msview(out@)[jj][x] == out@[jj]@[x]@);
        }
        assert forall|jj: int, x: int| 0 <= jj < t && 0 <= x < n implies (#[trigger] msview(out@)[jj][x]).len() == m by {
            assert(msview(out@)[jj][x] == out@[jj]@[x]@);
        }
    }
    out
}

/// `acc[k] + v[k] * c` for every `k`.
pub fn scale_add(acc: &Vec<Fr>, v: &Vec<Fr>, c: &Fr) -> (r: Vec<Fr>)
    requires
        acc@.len() == v@.len(),
    ensures
        r@.len() == acc@.len(),
        forall|k: int| 0 <= k < acc@.len() ==> (#[trigger] r@[k]).val() == fadd(acc@[k].val(), fmul(v@[k].val(), c.val())),
{
    let mut out: Vec<Fr> = Vec::new();
    let mut k: usize = 0;
    while k < acc.len()
        invariant
            acc@.len() == v@.len(),
            k <= acc@.len(),
            out@.len() == k,
            forall|j: int| 0 <= j < k ==> (#[trigger] out@[j]).val() == fadd(acc@[j].val(), fmul(v@[j].val(), c.val())),
        decreases acc@.len() - k,
    {
        out.push(acc[k].add(&v[k].mul(c)));
        k += 1;
    }
    out
}

/// `acc_j + ms_j * c` for every matrix `j`.
pub fn scale_add_mats(acc: &Vec<Matrix>, ms: &Vec<Matrix>, c: &Fr, t: usize, n: usize, m: usize) -> (r: Vec<Matrix>)
    requires
        mats_shape(msview(acc@), t as int, n as int, m as int),
        mats_shape(msview(ms@), t as int, n as int, m as int),
    ensures
        mats_shape(msview(r@), t as int, n as int, m as int),
        forall|j: int, x: int, y: int|
            0 <= j < t && 0 <= x < n && 0 <= y < m ==> (#[trigger] msview(r@)[j][x][y]).val() == fadd(
                msview(acc@)[j][x][y].val(),
                fmul(msview(ms@)[j][x][y].val(), c.val()),
            ),
{
    let mut out: Vec<Matrix> = Vec::new();
    let mut j: usize = 0;
    while j < t
        invariant
            mats_shape(msview(acc@), t as int, n as int, m as int),
            mats_shape(msview(ms@), t as int, n as int, m as int),
            j <= t,
            out@.len() == j,
            forall|jj: int| 0 <= jj < j ==> (#[trigger] out@[jj])@.len() == n,
            forall|jj: int, x: int| 0 <= jj < j && 0 <= x < n ==> (#[trigger] out@[jj]@[x])@.len() == m,
            forall|jj: int, x: int, y: int|
                0 <= jj < j && 0 <= x < n && 0 <= y < m ==> (#[trigger] out@[jj]@[x]@[y]).val() == fadd(
                    msview(acc@)[jj][x][y].val(),
                    fmul(msview(ms@)[jj][x][y].val(), c.val()),
                ),
        decreases t - j,
    {
        let scaled = mat_scalar_mul(&ms[j], c);
        assert(msview(acc@)[j as int] == mview(acc@[j as int]@));
        assert(msview(ms@)[j as int] == mview(ms@[j as int]@));
        assert forall|x: int| 0 <= x < acc@[j as int]@.len() implies (#[trigger] acc@[j as int]@[x])@.len() == scaled@[x]@.len() by {
            assert(mview(acc@[j as int]@)[x] == acc@[j as int]@[x]@);
            assert(mview(ms@[j as int]@)[x] == ms@[j as int]@[x]@);
        }
        let row = match mat_add(&acc[j], &scaled) {
            Ok(mm) => mm,
            Err(_) => {
                assert(false);
                Vec::new()
            },
        };
        proof {
            assert forall|x: int, y: int| 0 <= x < n && 0 <= y < m implies (#[trigger] row@[x]@[y]).val() == fadd(
                msview(acc@)[j as int][x][y].val(),
                fmul(msview(ms@)[j as int][x][y].val(), c.val()),
            ) by {
                assert(mview(acc@[j as int]@)[x] == acc@[j as int]@[x]@);
                assert(mview(ms@[j as int]@)[x] == ms@[j as int]@[x]@);
            }
            assert forall|x: int| 0 <= x < n implies (#[trigger] row@[x])@.len() == m by {
                assert(mview(acc@[j as int]@)[x] == acc@[j as int]@[x]@);
            }
        }
        out.push(row);
        j += 1;
    }
    proof {
        assert forall|jj: int, x: int, y: int|
            0 <= jj < t && 0 <= x < n && 0 <= y < m implies (#[trigger] msview(out@)[jj][x][y]).val() == fadd(
                msview(acc@)[jj][x][y].val(),
                fmul(msview(ms@)[jj][x][y].val(), c.val()),
            ) by {
            assert(msview(out@)[jj][x] == out@[jj]@[x]@);
        }
        assert forall|jj: int, x: int| 0 <= jj < t && 0 <= x < n implies (#[trigger] msview(out@)[jj][x]).len() == m by {
            assert(msview(out@)[jj][x] == out@[jj]@[x]@);
        }
    }
    out
}

/// Whether two shapes have the same dimensions.
pub fn dims_match(a: &CCS, b: &CCS) -> (r: bool)
    ensures
        r == a.same_dims(b),
{
    a.m == b.m && a.n == b.n && a.l == b.l && a.t == b.t && a.s == b.s && a.s_prime == b.s_prime
}

fn check_fold_shapes(accs: &Vec<ACCS>, cccs: &Vec<CCCS>) -> (r: bool)
    ensures
        r == fold_shapes_ok(accs@, cccs@),
{
    if accs.len() == 0 {
        return false;
    }
    let mut i: usize = 0;
    while i < accs.len()
        invariant
            accs@.len() >= 1,
            i <= accs@.len(),
            forall|k: int| 0 <= k < i ==> (#[trigger] accs@[k]).ccs.same_dims(&accs@[0].ccs),
        decreases accs@.len() - i,
    {
        if !dims_match(&accs[i].ccs, &accs[0].ccs) {
            return false;
        }
        i += 1;
    }
    let mut k: usize = 0;
    while k < cccs.len()
        invariant
            accs@.len() >= 1,
            k <= cccs@.len(),
            forall|j: int| 0 <= j < accs@.len() ==> (#[trigger] accs@[j]).ccs.same_dims(&accs@[0].ccs),
            forall|j: int| 0 <= j < k ==> (#[trigger] cccs@[j]).ccs.same_dims(&accs@[0].ccs),
        decreases cccs@.len() - k,
    {
        if !dims_match(&cccs[k].ccs, &accs[0].ccs) {
            return false;
        }
        k += 1;
    }
    true
}

fn check_fold_lens(accs: &Vec<ACCS>, cccs: &Vec<CCCS>, eps: &Vec<Vec<Fr>>, thetas: &Vec<Vec<Fr>>) -> (r: bool)
    requires
        accs@.len() >= 1,
        accs@[0].ccs.wf(),
    ensures
        r == fold_lens_ok(accs@, cccs@, eps@, thetas@),
{
    if eps.len() != accs.len() || thetas.len() != cccs.len() {
        return false;
    }
    let l = accs[0].ccs.l;
    let mut i: usize = 0;
    while i < accs.len()
        invariant
            l == accs@[0].ccs.l,
            i <= accs@.len(),
            forall|k: int| 0 <= k < i ==> (#[trigger] accs@[k]).x@.len() == l,
        decreases accs@.len() - i,
    {
        if accs[i].x.len() != l {
            return false;
        }
        i += 1;
    }
    let mut k: usize = 0;
    while k < cccs.len()
        invariant
            l == accs@[0].ccs.l,
            k <= cccs@.len(),
            forall|j: int| 0 <= j < k ==> (#[trigger] cccs@[j]).x@.len() == l,
        decreases cccs@.len() - k,
    {
        if cccs[k].x.len() != l {
            return false;
        }
        k += 1;
    }
    let t = accs[0].ccs.t;
    rows_have_len_plus_one(eps, t) && rows_have_len_plus_one(thetas, t)
}

fn rows_have_len_plus_one(vs: &Vec<Vec<Fr>>, t: usize) -> (r: bool)
    ensures
        r == all_len(vs@, t + 1),
{
    let mut i: usize = 0;
    while i < vs.len()
        invariant
            i <= vs@.len(),
            forall|k: int| 0 <= k < i ==> (#[trigger] vs@[k])@.len() == t + 1,
        decreases vs@.len() - i,
    {
        if vs[i].len() == 0 || vs[i].len() - 1 != t {
            return false;
        }
        i += 1;
    }
    true
}

proof fn lemma_comb_commit_none(cs: Seq<Seq<u8>>, rho: int, k: int, n: int)
    requires
        1 <= k <= n,
        comb_commit(cs, rho, k) is None,
    ensures
        comb_commit(cs, rho, n) is None,
    decreases n - k,
{
    if k < n {
        lemma_comb_commit_none(cs, rho, k + 1, n);
    }
}

impl Genericfolding {
    /// Fold the running instances `accs` and the new instances `cccs` into one
    /// accumulated instance with the challenge `rho`: commitments, relaxation factors,
    /// public inputs, openings (`epsilons` then `thetas`) and matrices are all combined
    /// with the weights `rho^i`, in the order running instances first.
    pub fn fold(
        accs: &Vec<ACCS>,
        cccs: &Vec<CCCS>,
        epsilons: &Vec<Vec<Fr>>,
        thetas: &Vec<Vec<Fr>>,
        r_x_prime: Vec<Fr>,
        r_y_prime: Vec<Fr>,
        rho: Fr,
    ) -> (r: Result<ACCS, FoldingError>)
        requires
            all_wf(accs@, cccs@),
            accs@.len() + cccs@.len() <= MAX_TERMS,
        ensures
            !fold_shapes_ok(accs@, cccs@) ==> r == Err::<ACCS, FoldingError>(FoldingError::ShapeMismatch),
            fold_shapes_ok(accs@, cccs@) && !fold_lens_ok(accs@, cccs@, epsilons@, thetas@) ==> r == Err::<
                ACCS,
                FoldingError,
            >(FoldingError::DimensionMismatch),
            fold_shapes_ok(accs@, cccs@) && fold_lens_ok(accs@, cccs@, epsilons@, thetas@) ==> (r is Ok
                <==> comb_commit(all_c(accs@, cccs@), rho.val(), (accs@.len() + cccs@.len()) as int) is Some),
            fold_shapes_ok(accs@, cccs@) && fold_lens_ok(accs@, cccs@, epsilons@, thetas@) && r is Err ==> r
                == Err::<ACCS, FoldingError>(FoldingError::InvalidPoint),
            r is Ok ==> folded_as(r->Ok_0, accs@, cccs@, epsilons@, thetas@, r_x_prime@, r_y_prime@, rho),
    {
        if !check_fold_shapes(accs, cccs) {
            return Err(FoldingError::ShapeMismatch);
        }
        if !check_fold_lens(accs, cccs, epsilons, thetas) {
            return Err(FoldingError::DimensionMismatch);
        }
        let mu = accs.len();
        let nu = cccs.len();
        let base = &accs[0].ccs;
        let (t, n, m, l) = (base.t, base.n, base.m, base.l);
        let one = Fr::one();
        let mut u_acc = Fr::zero();
        let mut x_acc = zeros(l);
        let mut v_acc = zeros(epsilons[0].len());
        let mut m_acc = zero_mats(t, n, m);
        let mut c_acc: Vec<u8> = Vec::new();
        let ghost xs = all_x(accs@, cccs@);
        let ghost vs = rows_of(epsilons@) + rows_of(thetas@);
        let ghost us = all_u(accs@, cccs@);
        let ghost cs = all_c(accs@, cccs@);
        let ghost ms = all_m(accs@, cccs@);
        let mut i: usize = 0;
        while i < mu + nu
            invariant
                all_wf(accs@, cccs@),
                fold_shapes_ok(accs@, cccs@),
                fold_lens_ok(accs@, cccs@, epsilons@, thetas@),
                mu == accs@.len(),
                nu == cccs@.len(),
                mu + nu <= MAX_TERMS,
                t == accs@[0].ccs.t,
                n == accs@[0].ccs.n,
                m == accs@[0].ccs.m,
                l == accs@[0].ccs.l,
                one == Fr::spec_one(),
                xs == all_x(accs@, cccs@),
                vs == rows_of(epsilons@) + rows_of(thetas@),
                us == all_u(accs@, cccs@),
                cs == all_c(accs@, cccs@),
                ms == all_m(accs@, cccs@),
                i <= mu + nu,
                u_acc.val() == comb_scalars(us, rho.val(), i as int),
                x_acc@.len() == l,
                forall|k: int| 0 <= k < l ==> (#[trigger] x_acc@[k]).val() == comb(xs, rho.val(), i as int, k),
                v_acc@.len() == t + 1,
                forall|k: int| 0 <= k < t + 1 ==> (#[trigger] v_acc@[k]).val() == comb(vs, rho.val(), i as int, k),
                mats_shape(msview(m_acc@), t as int, n as int, m as int),
                forall|j: int, x: int, y: int|
                    0 <= j < t && 0 <= x < n && 0 <= y < m ==> (#[trigger] msview(m_acc@)[j][x][y]).val()
                        == comb_mats(ms, rho.val(), i as int, j, x, y),
                i >= 1 ==> comb_commit(cs, rho.val(), i as int) == Some(c_acc@),
            decreases mu + nu - i,
        {
            let rho_i = rho.pow(i as u64);
            let (c_i, u_i, x_i, v_i, m_i) = if i < mu {
                let a = &accs[i];
                (&a.C.0, a.u, &a.x, &epsilons[i], &a.ccs.M)
            } else {
                let c = &cccs[i - mu];
                (&c.C.0, one, &c.x, &thetas[i - mu], &c.ccs.M)
            };
            proof {
                assert(xs[i as int] == x_i@);
                assert(vs[i as int] == v_i@);
                assert(us[i as int] == u_i);
                assert(cs[i as int] == c_i@);
                assert(ms[i as int] == msview(m_i@));
                if i < mu {
                    assert(accs@[i as int].ccs.wf());
                    assert(accs@[i as int].ccs.same_dims(&accs@[0].ccs));
                } else {
                    assert(cccs@[i - mu].ccs.wf());
                    assert(cccs@[i - mu].ccs.same_dims(&accs@[0].ccs));
                }
                assert(mats_shape(msview(m_i@), t as int, n as int, m as int));
            }
            let term = match mul_point(c_i, &rho_i) {
                Ok(p) => p,
                Err(e) => {
                    proof {
                        if i == 0 {
                            lemma_comb_commit_none(cs, rho.val(), 1, (mu + nu) as int);
                        } else {
                            assert(comb_commit(cs, rho.val(), i + 1) is None);
                            lemma_comb_commit_none(cs, rho.val(), i + 1, (mu + nu) as int);
                        }
                    }
                    return Err(e);
                },
            };
            if i == 0 {
                c_acc = term;
            } else {
                c_acc = match add_points(&c_acc, &term) {
                    Ok(p) => p,
                    Err(e) => {
                        proof {
                            lemma_comb_commit_none(cs, rho.val(), i + 1, (mu + nu) as int);
                        }
                        return Err(e);
                    },
                };
            }
            u_acc = u_acc.add(&rho_i.mul(&u_i));
            x_acc = scale_add(&x_acc, x_i, &rho_i);
            v_acc = scale_add(&v_acc, v_i, &rho_i);
            m_acc = scale_add_mats(&m_acc, m_i, &rho_i, t, n, m);
            i += 1;
        }
        let ccs = base.with_matrices(m_acc);
        Ok(ACCS { ccs, C: Commitment(c_acc), u: u_acc, x: x_acc, r_x: r_x_prime, r_y: r_y_prime, v: v_acc })
    }
}

/// The witnesses of all instances.
pub open spec fn all_w(w_accs: Seq<Witness>, w_cccs: Seq<Witness>) -> Seq<Seq<Fr>> {
    w_accs.map_values(|w: Witness| w.w@) + w_cccs.map_values(|w: Witness| w.w@)
}

/// The blinding values of all witnesses.
pub open spec fn all_r(w_accs: Seq<Witness>, w_cccs: Seq<Witness>) -> Seq<Fr> {
    w_accs.map_values(|w: Witness| w.r_w) + w_cccs.map_values(|w: Witness| w.r_w)
}

/// Every witness has the length of the first.
pub open spec fn witness_lens_ok(w_accs: Seq<Witness>, w_cccs: Seq<Witness>) -> bool {
    &&& w_accs.len() >= 1
    &&& forall|i: int| 0 <= i < w_accs.len() ==> (#[trigger] w_accs[i]).w@.len() == w_accs[0].w@.len()
    &&& forall|k: int| 0 <= k < w_cccs.len() ==> (#[trigger] w_cccs[k]).w@.len() == w_accs[0].w@.len()
}

impl Genericfolding {
    /// Fold the witnesses as `fold` folds the instances: `w = sum_i rho^i w_i` and
    /// `r_w = sum_i rho^i r_w_i`, running instances first.
    pub fn fold_witness(w_accs: &Vec<Witness>, w_cccs: &Vec<Witness>, rho: Fr) -> (r: Result<Witness, FoldingError>)
        requires
            w_accs@.len() + w_cccs@.len() <= MAX_TERMS,
        ensures
            !witness_lens_ok(w_accs@, w_cccs@) <==> r == Err::<Witness, FoldingError>(FoldingError::DimensionMismatch),
            witness_lens_ok(w_accs@, w_cccs@) <==> r is Ok,
            r is Ok ==> {
                let f = r->Ok_0;
                let n = (w_accs@.len() + w_cccs@.len()) as int;
                &&& f.w@.len() == w_accs@[0].w@.len()
                &&& forall|k: int| 0 <= k < f.w@.len() ==> (#[trigger] f.w@[k]).val() == comb(all_w(w_accs@, w_cccs@), rho.val(), n, k)
                &&& f.r_w.val() == comb_scalars(all_r(w_accs@, w_cccs@), rho.val(), n)
            },
    {
        if w_accs.len() == 0 {
            return Err(FoldingError::DimensionMismatch);
        }
        let len = w_accs[0].w.len();
        let mut i: usize = 0;
        while i < w_accs.len()
            invariant
                w_accs@.len() >= 1,
                len == w_accs@[0].w@.len(),
                i <= w_accs@.len(),
                forall|k: int| 0 <= k < i ==> (#[trigger] w_accs@[k]).w@.len() == len,
            decreases w_accs@.len() - i,
        {
            if w_accs[i].w.len() != len {
                return Err(FoldingError::DimensionMismatch);
            }
            i += 1;
        }
        let mut k: usize = 0;
        while k < w_cccs.len()
            invariant
                w_accs@.len() >= 1,
                len == w_accs@[0].w@.len(),
                forall|j: int| 0 <= j < w_accs@.len() ==> (#[trigger] w_accs@[j]).w@.len() == len,
                k <= w_cccs@.len(),
                forall|j: int| 0 <= j < k ==> (#[trigger] w_cccs@[j]).w@.len() == len,
            decreases w_cccs@.len() - k,
        {
            if w_cccs[k].w.len() != len {
                return Err(FoldingError::DimensionMismatch);
            }
            k += 1;
        }
        let mu = w_accs.len();
        let nu = w_cccs.len();
        let ghost ws = all_w(w_accs@, w_cccs@);
        let ghost rs = all_r(w_accs@, w_cccs@);
        let mut w_acc = zeros(len);
        let mut r_acc = Fr::zero();
        let mut i: usize = 0;
        while i < mu + nu
            invariant
                witness_lens_ok(w_accs@, w_cccs@),
                mu + nu <= MAX_TERMS,
                mu == w_accs@.len(),
                nu == w_cccs@.len(),
                len == w_accs@[0].w@.len(),
                ws == all_w(w_accs@, w_cccs@),
                rs == all_r(w_accs@, w_cccs@),
                i <= mu + nu,
                w_acc@.len() == len,
                forall|k: int| 0 <= k < len ==> (#[trigger] w_acc@[k]).val() == comb(ws, rho.val(), i as int, k),
                r_acc.val() == comb_scalars(rs, rho.val(), i as int),
            decreases mu + nu - i,
        {
            let rho_i = rho.pow(i as u64);
            let wit = if i < mu {
                &w_accs[i]
            } else {
                &w_cccs[i - mu]
            };
            assert(ws[i as int] == wit.w@);
            assert(rs[i as int] == wit.r_w);
            w_acc = scale_add(&w_acc, &wit.w, &rho_i);
            r_acc = r_acc.add(&rho_i.mul(&wit.r_w));
            i += 1;
        }
        Ok(Witness { w: w_acc, r_w: r_acc })
    }
}

/// The challenges of one folding step, drawn from the transcript: `gamma` and `alpha`
/// before the first sum-check, `delta` before the second, `rho` before the fold.
#[derive(Clone, Debug, PartialEq, Eq)]
pub struct Challenges {
    pub gamma: Fr,
    pub alpha: Vec<Fr>,
    pub delta: Fr,
    pub rho: Fr,
}

/// What a sum-check verifier concludes: the random point it drew and the value the
/// polynomial must take there.
#[derive(Clone, Debug, PartialEq, Eq)]
pub struct SumCheckClaim {
    pub point: Vec<Fr>,
    pub expected_evaluation: Fr,
}

/// The openings the prover sends besides the two sum-check proofs.
#[derive(Clone, Debug, PartialEq, Eq)]
pub struct Proof {
    pub sigmas: Vec<Vec<Fr>>,
    pub taus: Vec<Vec<Fr>>,
    pub epsilons: Vec<Vec<Fr>>,
    pub thetas: Vec<Vec<Fr>>,
}

/// `acc + sum_{j' < j} g^(base + j') * row[j']`.
pub open spec fn pow_acc(acc: int, row: Seq<Fr>, g: int, base: int, j: int) -> int
    decreases j,
{
    if j <= 0 {
        acc
    } else {
        fadd(pow_acc(acc, row, g, base, j - 1), fmul(fpow(g, (base + j - 1) as nat), row[j - 1].val()))
    }
}

/// `acc + sum_{j' < j} row[j'] * g^(base + j')`.
pub open spec fn val_pow_acc(acc: int, row: Seq<Fr>, g: int, base: int, j: int) -> int
    decreases j,
{
    if j <= 0 {
        acc
    } else {
        fadd(val_pow_acc(acc, row, g, base, j - 1), fmul(row[j - 1].val(), fpow(g, (base + j - 1) as nat)))
    }
}

/// The sum the first sum-check must attest: `sum_i sum_{j < t} gamma^(i*t+j) v_{i,j}`,
/// over the first `i` running instances.
pub open spec fn sum_x_spec(running: Seq<ACCS>, gamma: int, t: int, i: int) -> int
    decreases i,
{
    if i <= 0 {
        0
    } else {
        val_pow_acc(sum_x_spec(running, gamma, t, i - 1), running[i - 1].v@, gamma, (i - 1) * t, running[i - 1].v@.len() - 1)
    }
}

/// `sum_i (sum_j delta^(i*(t+1)+j) sigma_{i,j} + delta^((i+1)*(t+1)-1) v_{i,t})` over the
/// first `i` running instances.
pub open spec fn sum_y_sigmas(running: Seq<ACCS>, sigmas: Seq<Seq<Fr>>, delta: int, t: int, i: int) -> int
    decreases i,
{
    if i <= 0 {
        0
    } else {
        let prev = pow_acc(sum_y_sigmas(running, sigmas, delta, t, i - 1), sigmas[i - 1], delta, (i - 1) * (t + 1), sigmas[i - 1].len() as int);
        fadd(prev, fmul(fpow(delta, (i * (t + 1) - 1) as nat), running[i - 1].v@[t].val()))
    }
}

/// `acc + sum_{k' < k} sum_j delta^(base+k'*t+j) tau_{k',j}`.
pub open spec fn sum_y_taus(acc: int, taus: Seq<Seq<Fr>>, delta: int, t: int, base: int, k: int) -> int
    decreases k,
{
    if k <= 0 {
        acc
    } else {
        pow_acc(sum_y_taus(acc, taus, delta, t, base, k - 1), taus[k - 1], delta, base + (k - 1) * t, taus[k - 1].len() as int)
    }
}

/// The sum the second sum-check must attest.
pub open spec fn sum_y_spec(running: Seq<ACCS>, sigmas: Seq<Seq<Fr>>, taus: Seq<Seq<Fr>>, delta: int, t: int) -> int {
    sum_y_taus(sum_y_sigmas(running, sigmas, delta, t, sigmas.len() as int), taus, delta, t, sigmas.len() * (t + 1), taus.len() as int)
}

/// `acc + sum_{j < j_end} row[j] * g^(base + j)`.
fn add_val_pows(acc: Fr, row: &Vec<Fr>, g: &Fr, base: usize, j_end: usize) -> (r: Fr)
    requires
        j_end <= row@.len(),
        base + j_end <= MAX_TERMS,
    ensures
        r.val() == val_pow_acc(acc.val(), row@, g.val(), base as int, j_end as int),
{
    let mut acc = acc;
    let ghost acc0 = acc.val();
    let mut j: usize = 0;
    while j < j_end
        invariant
            j_end <= row@.len(),
            base + j_end <= MAX_TERMS,
            j <= j_end,
            acc.val() == val_pow_acc(acc0, row@, g.val(), base as int, j as int),
        decreases j_end - j,
    {
        acc = acc.add(&row[j].mul(&g.pow((base + j) as u64)));
        j += 1;
    }
    acc
}

/// `acc + sum_{j < row.len()} g^(base + j) * row[j]`.
fn add_pows(acc: Fr, row: &Vec<Fr>, g: &Fr, base: usize) -> (r: Fr)
    requires
        base + row@.len() <= MAX_TERMS,
    ensures
        r.val() == pow_acc(acc.val(), row@, g.val(), base as int, row@.len() as int),
{
    let mut acc = acc;
    let ghost acc0 = acc.val();
    let mut j: usize = 0;
    while j < row.len()
        invariant
            base + row@.len() <= MAX_TERMS,
            j <= row@.len(),
            acc.val() == pow_acc(acc0, row@, g.val(), base as int, j as int),
        decreases row@.len() - j,
    {
        acc = acc.add(&g.pow((base + j) as u64).mul(&row[j]));
        j += 1;
    }
    acc
}

impl Genericfolding {
    /// The sum the first sum-check attests: `sum_{i,j} gamma^(i*t+j) v_{i,j}` over the
    /// running instances, leaving out each instance's last value `z(r_y)`.
    pub fn expected_sum_x(running: &Vec<ACCS>, gamma: Fr, t: usize) -> (r: Fr)
        requires
            forall|i: int| 0 <= i < running@.len() ==> (#[trigger] running@[i]).v@.len() == t + 1,
            (running@.len() + 1) * (t + 1) <= MAX_TERMS,
        ensures
            r.val() == sum_x_spec(running@, gamma.val(), t as int, running@.len() as int),
    {
        let mut acc = Fr::zero();
        let mut i: usize = 0;
        while i < running.len()
            invariant
                forall|i: int| 0 <= i < running@.len() ==> (#[trigger] running@[i]).v@.len() == t + 1,
                (running@.len() + 1) * (t + 1) <= MAX_TERMS,
                i <= running@.len(),
                acc.val() == sum_x_spec(running@, gamma.val(), t as int, i as int),
            decreases running@.len() - i,
        {
            assert(running@[i as int].v@.len() == t + 1);
            assert(i * t + t <= (running@.len() + 1) * (t + 1)) by (nonlinear_arith)
                requires i < running@.len();
            acc = add_val_pows(acc, &running[i].v, &gamma, i * t, running[i].v.len() - 1);
            i += 1;
        }
        acc
    }

    /// The sum the second sum-check attests, from the running instances' last values and
    /// the openings `sigmas` and `taus`.
    pub fn expected_sum_y(running: &Vec<ACCS>, sigmas: &Vec<Vec<Fr>>, taus: &Vec<Vec<Fr>>, delta: Fr, t: usize) -> (r: Fr)
        requires
            sigmas@.len() == running@.len(),
            forall|i: int| 0 <= i < running@.len() ==> (#[trigger] running@[i]).v@.len() == t + 1,
            all_len(sigmas@, t as int),
            all_len(taus@, t as int),
            (sigmas@.len() + taus@.len() + 1) * (t + 1) <= MAX_TERMS,
        ensures
            r.val() == sum_y_spec(running@, rows_of(sigmas@), rows_of(taus@), delta.val(), t as int),
    {
        let mu = sigmas.len();
        let nu = taus.len();
        let mut acc = Fr::zero();
        let mut i: usize = 0;
        while i < mu
            invariant
                mu == sigmas@.len(),
                nu == taus@.len(),
                sigmas@.len() == running@.len(),
                forall|i: int| 0 <= i < running@.len() ==> (#[trigger] running@[i]).v@.len() == t + 1,
                all_len(sigmas@, t as int),
                (mu + nu + 1) * (t + 1) <= MAX_TERMS,
                i <= mu,
                acc.val() == sum_y_sigmas(running@, rows_of(sigmas@), delta.val(), t as int, i as int),
            decreases mu - i,
        {
            assert((i + 1) * (t + 1) <= (mu + nu + 1) * (t + 1)) by (nonlinear_arith)
                requires i < mu;
            assert(i * (t + 1) + (t + 1) == (i + 1) * (t + 1)) by (nonlinear_arith);
            assert(rows_of(sigmas@)[i as int] == sigmas@[i as int]@);
            acc = add_pows(acc, &sigmas[i], &delta, i * (t + 1));
            let e = (i + 1) * (t + 1) - 1;
            assert(running@[i as int].v@.len() == t + 1);
            acc = acc.add(&delta.pow(e as u64).mul(&running[i].v[t]));
            i += 1;
        }
        assert(mu * (t + 1) + nu * t + t <= (mu + nu + 1) * (t + 1)) by (nonlinear_arith);
        let base = mu * (t + 1);
        let ghost first = acc.val();
        let mut k: usize = 0;
        while k < nu
            invariant
                nu == taus@.len(),
                all_len(taus@, t as int),
                base + nu * t + t <= MAX_TERMS,
                k <= nu,
                acc.val() == sum_y_taus(first, rows_of(taus@), delta.val(), t as int, base as int, k as int),
            decreases nu - k,
        {
            assert(k * t <= nu * t) by (nonlinear_arith)
                requires k < nu;
            assert(rows_of(taus@)[k as int] == taus@[k as int]@);
            acc = add_pows(acc, &taus[k], &delta, base + k * t);
            k += 1;
        }
        acc
    }
}

/// The points `r_x` of the running instances.
pub open spec fn r_xs(running: Seq<ACCS>) -> Seq<Seq<Fr>> {
    running.map_values(|a: ACCS| a.r_x@)
}

/// The points `r_y` of the running instances.
pub open spec fn r_ys(running: Seq<ACCS>) -> Seq<Seq<Fr>> {
    running.map_values(|a: ACCS| a.r_y@)
}

/// At least one instance of each kind, all with the dimensions of the first.
pub open spec fn step_shapes_ok(running: Seq<ACCS>, new: Seq<CCCS>) -> bool {
    &&& new.len() >= 1
    &&& fold_shapes_ok(running, new)
}

/// The sizes stay below the bound on exponents.
pub open spec fn step_sizes_ok(running: Seq<ACCS>, new: Seq<CCCS>) -> bool {
    running.len() >= 1 ==> (running.len() + new.len() + 1) * (running[0].ccs.t + 1) <= MAX_TERMS
}

/// The points, openings and claimed values have the lengths the shape asks for.
pub open spec fn verify_lens_ok(running: Seq<ACCS>, new: Seq<CCCS>, proof: Proof, ch: Challenges, cx: SumCheckClaim, cy: SumCheckClaim) -> bool {
    let base = running[0].ccs;
    &&& proof.sigmas@.len() == running.len()
    &&& all_len(proof.sigmas@, base.t as int)
    &&& proof.taus@.len() == new.len()
    &&& all_len(proof.taus@, base.t as int)
    &&& fold_lens_ok(running, new, proof.epsilons@, proof.thetas@)
    &&& forall|i: int| 0 <= i < running.len() ==> (#[trigger] running[i]).r_x@.len() == base.s
    &&& forall|i: int| 0 <= i < running.len() ==> (#[trigger] running[i]).r_y@.len() == base.s_prime
    &&& forall|i: int| 0 <= i < running.len() ==> (#[trigger] running[i]).v@.len() == base.t + 1
    &&& ch.alpha@.len() == base.s
    &&& cx.point@.len() == base.s
    &&& cy.point@.len() == base.s_prime
}

/// Copies of the points `r_x` (or `r_y`) of the running instances.
fn collect_points(running: &Vec<ACCS>, want_x: bool) -> (r: Vec<Vec<Fr>>)
    ensures
        r@.len() == running@.len(),
        forall|k: int| 0 <= k < running@.len() ==> (#[trigger] r@[k])@ == if want_x { running@[k].r_x@ } else { running@[k].r_y@ },
        want_x ==> rows_of(r@) == r_xs(running@),
        !want_x ==> rows_of(r@) == r_ys(running@),
{
    let mut out: Vec<Vec<Fr>> = Vec::new();
    let mut i: usize = 0;
    while i < running.len()
        invariant
            i <= running@.len(),
            out@.len() == i,
            forall|k: int| 0 <= k < i ==> (#[trigger] out@[k])@ == if want_x { running@[k].r_x@ } else { running@[k].r_y@ },
        decreases running@.len() - i,
    {
        if want_x {
            out.push(copy_vec(&running[i].r_x));
        } else {
            out.push(copy_vec(&running[i].r_y));
        }
        i += 1;
    }
    if want_x {
        assert(rows_of(out@) =~= r_xs(running@));
    } else {
        assert(rows_of(out@) =~= r_ys(running@));
    }
    out
}

fn check_verify_lens(running: &Vec<ACCS>, new: &Vec<CCCS>, proof: &Proof, ch: &Challenges, cx: &SumCheckClaim, cy: &SumCheckClaim) -> (r: bool)
    requires
        running@.len() >= 1,
        running@[0].ccs.wf(),
    ensures
        r == verify_lens_ok(running@, new@, *proof, *ch, *cx, *cy),
{
    let base = &running[0].ccs;
    if proof.sigmas.len() != running.len() || proof.taus.len() != new.len() {
        return false;
    }
    if !rows_have_len(&proof.sigmas, base.t) || !rows_have_len(&proof.taus, base.t) {
        return false;
    }
    if !check_fold_lens(running, new, &proof.epsilons, &proof.thetas) {
        return false;
    }
    if ch.alpha.len() != base.s || cx.point.len() != base.s || cy.point.len() != base.s_prime {
        return false;
    }
    let mut i: usize = 0;
    while i < running.len()
        invariant
            running@.len() >= 1,
            base == &running@[0].ccs,
            base.wf(),
            i <= running@.len(),
            forall|k: int| 0 <= k < i ==> (#[trigger] running@[k]).r_x@.len() == base.s,
            forall|k: int| 0 <= k < i ==> (#[trigger] running@[k]).r_y@.len() == base.s_prime,
            forall|k: int| 0 <= k < i ==> (#[trigger] running@[k]).v@.len() == base.t + 1,
        decreases running@.len() - i,
    {
        let a = &running[i];
        if a.r_x.len() != base.s || a.r_y.len() != base.s_prime || a.v.len() == 0 || a.v.len() - 1 != base.t {
            return false;
        }
        i += 1;
    }
    true
}

fn rows_have_len(vs: &Vec<Vec<Fr>>, len: usize) -> (r: bool)
    ensures
        r == all_len(vs@, len as int),
{
    let mut i: usize = 0;
    while i < vs.len()
        invariant
            i <= vs@.len(),
            forall|k: int| 0 <= k < i ==> (#[trigger] vs@[k])@.len() == len,
        decreases vs@.len() - i,
    {
        if vs[i].len() != len {
            return false;
        }
        i += 1;
    }
    true
}

impl Genericfolding {
    /// The verifier's side of one folding step, given the challenges and what the two
    /// sum-check verifiers concluded. It checks the prover's openings against the two
    /// claimed evaluations and folds the instances.
    pub fn verify(
        running_instances: &Vec<ACCS>,
        new_instances: &Vec<CCCS>,
        proof: &Proof,
        challenges: &Challenges,
        claim_x: &SumCheckClaim,
        claim_y: &SumCheckClaim,
    ) -> (r: Result<ACCS, FoldingError>)
        requires
            all_wf(running_instances@, new_instances@),
            step_sizes_ok(running_instances@, new_instances@),
        ensures
            !step_shapes_ok(running_instances@, new_instances@) ==> r == Err::<ACCS, FoldingError>(
                FoldingError::ShapeMismatch,
            ),
            step_shapes_ok(running_instances@, new_instances@) && !verify_lens_ok(
                running_instances@,
                new_instances@,
                *proof,
                *challenges,
                *claim_x,
                *claim_y,
            ) ==> r == Err::<ACCS, FoldingError>(FoldingError::DimensionMismatch),
            step_shapes_ok(running_instances@, new_instances@) && verify_lens_ok(
                running_instances@,
                new_instances@,
                *proof,
                *challenges,
                *claim_x,
                *claim_y,
            ) ==> {
                let cx = cx_spec(new_instances@[0].ccs, proof.sigmas@, proof.taus@, challenges.gamma,
                    challenges.alpha@, r_xs(running_instances@), claim_x.point@);
                let cy = cy_spec(new_instances@[0].ccs, proof.epsilons@, proof.thetas@, challenges.delta,
                    r_ys(running_instances@), claim_y.point@);
                &&& (cx != claim_x.expected_evaluation.val() || cy != claim_y.expected_evaluation.val()) ==> r
                    == Err::<ACCS, FoldingError>(FoldingError::SumCheckVerificationFailed)
                &&& (cx == claim_x.expected_evaluation.val() && cy == claim_y.expected_evaluation.val()) ==> (
                r is Ok <==> comb_commit(
                    all_c(running_instances@, new_instances@),
                    challenges.rho.val(),
                    (running_instances@.len() + new_instances@.len()) as int,
                ) is Some)
                &&& (cx == claim_x.expected_evaluation.val() && cy == claim_y.expected_evaluation.val()) && r is Err
                    ==> r == Err::<ACCS, FoldingError>(FoldingError::InvalidPoint)
            },
            r is Ok ==> folded_as(
                r->Ok_0,
                running_instances@,
                new_instances@,
                proof.epsilons@,
                proof.thetas@,
                claim_x.point@,
                claim_y.point@,
                challenges.rho,
            ),
    {
        if new_instances.len() == 0 || !check_fold_shapes(running_instances, new_instances) {
            return Err(FoldingError::ShapeMismatch);
        }
        if !check_verify_lens(running_instances, new_instances, proof, challenges, claim_x, claim_y) {
            return Err(FoldingError::DimensionMismatch);
        }
        let ccs = &new_instances[0].ccs;
        proof {
            assert(new_instances@[0].ccs.same_dims(&running_instances@[0].ccs));
            let t = running_instances@[0].ccs.t as int;
            let mu = running_instances@.len() as int;
            let nu = new_instances@.len() as int;
            assert(mu + nu <= (mu + nu + 1) * (t + 1)) by (nonlinear_arith)
                requires t >= 0, mu >= 0, nu >= 0;
        }
        let vec_r_x = collect_points(running_instances, true);
        let cx = Self::compute_cx_from_sigmas_and_taus(
            ccs,
            &proof.sigmas,
            &proof.taus,
            challenges.gamma,
            &challenges.alpha,
            &vec_r_x,
            &claim_x.point,
        );
        if !cx.equals(&claim_x.expected_evaluation) {
            return Err(FoldingError::SumCheckVerificationFailed);
        }
        let vec_r_y = collect_points(running_instances, false);
        let cy = Self::compute_cy_from_epsilons_and_thetas(
            ccs,
            &proof.epsilons,
            &proof.thetas,
            challenges.delta,
            &vec_r_y,
            &claim_y.point,
        );
        if !cy.equals(&claim_y.expected_evaluation) {
            return Err(FoldingError::SumCheckVerificationFailed);
        }
        Self::fold(
            running_instances,
            new_instances,
            &proof.epsilons,
            &proof.thetas,
            copy_vec(&claim_x.point),
            copy_vec(&claim_y.point),
            challenges.rho,
        )
    }
}

/// The assignments `z = [u, x, w]` of the running instances.
pub open spec fn z_accs_of(running: Seq<ACCS>, w_accs: Seq<Witness>) -> Seq<Seq<Fr>> {
    Seq::new(running.len(), |i: int| z_of(running[i].u, running[i].x@, w_accs[i].w@))
}

/// The assignments `z = [1, x, w]` of the new instances.
pub open spec fn z_cccs_of(new: Seq<CCCS>, w_cccs: Seq<Witness>) -> Seq<Seq<Fr>> {
    Seq::new(new.len(), |k: int| z_of(Fr::spec_one(), new[k].x@, w_cccs[k].w@))
}

/// The witnesses, points and public inputs have the lengths the shape asks for.
pub open spec fn prove_lens_ok(
    running: Seq<ACCS>,
    new: Seq<CCCS>,
    w_accs: Seq<Witness>,
    w_cccs: Seq<Witness>,
    r_x_prime: Seq<Fr>,
    r_y_prime: Seq<Fr>,
) -> bool {
    let base = running[0].ccs;
    &&& w_accs.len() == running.len()
    &&& w_cccs.len() == new.len()
    &&& r_x_prime.len() == base.s
    &&& r_y_prime.len() == base.s_prime
    &&& forall|i: int| 0 <= i < running.len() ==> (#[trigger] running[i]).r_y@.len() == base.s_prime
    &&& forall|i: int| 0 <= i < running.len() ==> (#[trigger] running[i]).x@.len() == base.l
    &&& forall|k: int| 0 <= k < new.len() ==> (#[trigger] new[k]).x@.len() == base.l
    &&& forall|i: int| 0 <= i < running.len() ==> (#[trigger] w_accs[i]).w@.len() + base.l + 1 == base.m
    &&& forall|k: int| 0 <= k < new.len() ==> (#[trigger] w_cccs[k]).w@.len() + base.l + 1 == base.m
}

/// `[u] ++ x ++ w`.
pub fn build_z(u: Fr, x: &Vec<Fr>, w: &Vec<Fr>) -> (z: Vec<Fr>)
    ensures
        z@ == z_of(u, x@, w@),
{
    let mut head: Vec<Fr> = Vec::new();
    head.push(u);
    let z = crate::ccs::concat(&crate::ccs::concat(&head, x), w);
    assert(z@ =~= z_of(u, x@, w@));
    z
}

fn check_prove_lens(
    running: &Vec<ACCS>,
    new: &Vec<CCCS>,
    w_accs: &Vec<Witness>,
    w_cccs: &Vec<Witness>,
    r_x_prime: &Vec<Fr>,
    r_y_prime: &Vec<Fr>,
) -> (r: bool)
    requires
        running@.len() >= 1,
        running@[0].ccs.wf(),
    ensures
        r == prove_lens_ok(running@, new@, w_accs@, w_cccs@, r_x_prime@, r_y_prime@),
{
    let base = &running[0].ccs;
    if w_accs.len() != running.len() || w_cccs.len() != new.len() || r_x_prime.len() != base.s
        || r_y_prime.len() != base.s_prime {
        return false;
    }
    let mut i: usize = 0;
    while i < running.len()
        invariant
            base == &running@[0].ccs,
            base.wf(),
            w_accs@.len() == running@.len(),
            i <= running@.len(),
            forall|k: int| 0 <= k < i ==> (#[trigger] running@[k]).r_y@.len() == base.s_prime,
            forall|k: int| 0 <= k < i ==> (#[trigger] running@[k]).x@.len() == base.l,
            forall|k: int| 0 <= k < i ==> (#[trigger] w_accs@[k]).w@.len() + base.l + 1 == base.m,
        decreases running@.len() - i,
    {
        if running[i].r_y.len() != base.s_prime || running[i].x.len() != base.l
            || w_accs[i].w.len() != base.m - base.l - 1 {
            return false;
        }
        i += 1;
    }
    let mut k: usize = 0;
    while k < new.len()
        invariant
            base == &running@[0].ccs,
            base.wf(),
            w_cccs@.len() == new@.len(),
            k <= new@.len(),
            forall|j: int| 0 <= j < k ==> (#[trigger] new@[j]).x@.len() == base.l,
            forall|j: int| 0 <= j < k ==> (#[trigger] w_cccs@[j]).w@.len() + base.l + 1 == base.m,
        decreases new@.len() - k,
    {
        if new[k].x.len() != base.l || w_cccs[k].w.len() != base.m - base.l - 1 {
            return false;
        }
        k += 1;
    }
    true
}

impl Genericfolding {
    /// The prover's side of one folding step, given the challenges and the points `r_x'`
    /// and `r_y'` that the two sum-checks drew: the openings, the folded instance and the
    /// folded witness.
    pub fn prove(
        running_instances: &Vec<ACCS>,
        new_instances: &Vec<CCCS>,
        w_accs: &Vec<Witness>,
        w_cccs: &Vec<Witness>,
        challenges: &Challenges,
        r_x_prime: &Vec<Fr>,
        r_y_prime: &Vec<Fr>,
    ) -> (r: Result<(Proof, ACCS, Witness), FoldingError>)
        requires
            all_wf(running_instances@, new_instances@),
            step_sizes_ok(running_instances@, new_instances@),
        ensures
            !step_shapes_ok(running_instances@, new_instances@) ==> r == Err::<(Proof, ACCS, Witness), FoldingError>(
                FoldingError::ShapeMismatch,
            ),
            step_shapes_ok(running_instances@, new_instances@) && !prove_lens_ok(
                running_instances@,
                new_instances@,
                w_accs@,
                w_cccs@,
                r_x_prime@,
                r_y_prime@,
            ) ==> r == Err::<(Proof, ACCS, Witness), FoldingError>(FoldingError::DimensionMismatch),
            step_shapes_ok(running_instances@, new_instances@) && prove_lens_ok(
                running_instances@,
                new_instances@,
                w_accs@,
                w_cccs@,
                r_x_prime@,
                r_y_prime@,
            ) ==> (r is Ok <==> comb_commit(
                all_c(running_instances@, new_instances@),
                challenges.rho.val(),
                (running_instances@.len() + new_instances@.len()) as int,
            ) is Some),
            r is Ok ==> {
                let (proof, folded, wit) = r->Ok_0;
                let za = z_accs_of(running_instances@, w_accs@);
                let zc = z_cccs_of(new_instances@, w_cccs@);
                let n = (running_instances@.len() + new_instances@.len()) as int;
                &&& proof.sigmas@.len() == running_instances@.len()
                &&& forall|i: int| 0 <= i < running_instances@.len() ==> vals((#[trigger] proof.sigmas@[i])@)
                    == sum_eqm_evals(running_instances@[i].ccs.model().M, running_instances@[i].r_y@, r_x_prime@)
                &&& proof.taus@.len() == new_instances@.len()
                &&& forall|k: int| 0 <= k < new_instances@.len() ==> vals((#[trigger] proof.taus@[k])@)
                    == sum_mz_evals(new_instances@[k].ccs.model().M, zc[k], r_x_prime@)
                &&& proof.epsilons@.len() == running_instances@.len()
                &&& forall|i: int| 0 <= i < running_instances@.len() ==> vals((#[trigger] proof.epsilons@[i])@)
                    == m_and_z_evals(running_instances@[i].ccs.model().M, za[i], r_x_prime@, r_y_prime@)
                &&& proof.thetas@.len() == new_instances@.len()
                &&& forall|k: int| 0 <= k < new_instances@.len() ==> vals((#[trigger] proof.thetas@[k])@)
                    == m_and_z_evals(new_instances@[k].ccs.model().M, zc[k], r_x_prime@, r_y_prime@)
                &&& folded_as(folded, running_instances@, new_instances@, proof.epsilons@, proof.thetas@, r_x_prime@, r_y_prime@, challenges.rho)
                &&& wit.w@.len() == w_accs@[0].w@.len()
                &&& forall|k: int| 0 <= k < wit.w@.len() ==> (#[trigger] wit.w@[k]).val() == comb(all_w(w_accs@, w_cccs@), challenges.rho.val(), n, k)
                &&& wit.r_w.val() == comb_scalars(all_r(w_accs@, w_cccs@), challenges.rho.val(), n)
            },
    {
        if new_instances.len() == 0 || !check_fold_shapes(running_instances, new_instances) {
            return Err(FoldingError::ShapeMismatch);
        }
        if !check_prove_lens(running_instances, new_instances, w_accs, w_cccs, r_x_prime, r_y_prime) {
            return Err(FoldingError::DimensionMismatch);
        }
        let ghost base = running_instances@[0].ccs;
        let mut z_accs: Vec<Vec<Fr>> = Vec::new();
        let mut i: usize = 0;
        while i < running_instances.len()
            invariant
                w_accs@.len() == running_instances@.len(),
                i <= running_instances@.len(),
                z_accs@.len() == i,
                forall|k: int| 0 <= k < i ==> (#[trigger] z_accs@[k])@ == z_accs_of(running_instances@, w_accs@)[k],
            decreases running_instances@.len() - i,
        {
            z_accs.push(build_z(running_instances[i].u, &running_instances[i].x, &w_accs[i].w));
            i += 1;
        }
        let one = Fr::one();
        let mut z_cccs: Vec<Vec<Fr>> = Vec::new();
        let mut k: usize = 0;
        while k < new_instances.len()
            invariant
                w_cccs@.len() == new_instances@.len(),
                one == Fr::spec_one(),
                k <= new_instances@.len(),
                z_cccs@.len() == k,
                forall|j: int| 0 <= j < k ==> (#[trigger] z_cccs@[j])@ == z_cccs_of(new_instances@, w_cccs@)[j],
            decreases new_instances@.len() - k,
        {
            z_cccs.push(build_z(one, &new_instances[k].x, &w_cccs[k].w));
            k += 1;
        }
        proof {
            assert(base.wf());
            assert forall|i: int| 0 <= i < z_accs@.len() implies (#[trigger] z_accs@[i])@.len() == base.m by {
                assert(running_instances@[i].x@.len() == base.l);
                assert(w_accs@[i].w@.len() + base.l + 1 == base.m);
            }
            assert forall|k: int| 0 <= k < z_cccs@.len() implies (#[trigger] z_cccs@[k])@.len() == base.m by {
                assert(new_instances@[k].x@.len() == base.l);
                assert(w_cccs@[k].w@.len() + base.l + 1 == base.m);
            }
            assert(shapes_agree(base, running_instances@, new_instances@));
            let t = base.t as int;
            let mu = running_instances@.len() as int;
            let nu = new_instances@.len() as int;
            assert(mu + nu <= (mu + nu + 1) * (t + 1)) by (nonlinear_arith)
                requires t >= 0, mu >= 0, nu >= 0;
        }
        let (sigmas, taus) = Self::compute_sigmas_and_taus(running_instances, new_instances, &z_accs, &z_cccs, r_x_prime);
        let (epsilons, thetas) = Self::compute_epsilons_and_thetas(
            running_instances,
            new_instances,
            &z_accs,
            &z_cccs,
            r_x_prime,
            r_y_prime,
        );
        proof {
            assert forall|i: int| 0 <= i < epsilons@.len() implies (#[trigger] epsilons@[i])@.len() == base.t + 1 by {
                assert(running_instances@[i].ccs.same_dims(&base));
                assert(vals(epsilons@[i]@).len() == epsilons@[i]@.len());
            }
            assert forall|k: int| 0 <= k < thetas@.len() implies (#[trigger] thetas@[k])@.len() == base.t + 1 by {
                assert(new_instances@[k].ccs.same_dims(&base));
                assert(vals(thetas@[k]@).len() == thetas@[k]@.len());
            }
        }
        let folded = match Self::fold(
            running_instances,
            new_instances,
            &epsilons,
            &thetas,
            copy_vec(r_x_prime),
            copy_vec(r_y_prime),
            challenges.rho,
        ) {
            Ok(f) => f,
            Err(e) => return Err(e),
        };
        proof {
            assert(witness_lens_ok(w_accs@, w_cccs@)) by {
                assert(w_accs@[0].w@.len() + base.l + 1 == base.m);
            }
        }
        let wit = match Self::fold_witness(w_accs, w_cccs, challenges.rho) {
            Ok(w) => w,
            Err(e) => return Err(e),
        };
        Ok((Proof { sigmas, taus, epsilons, thetas }, folded, wit))
    }
}

} // verus!
