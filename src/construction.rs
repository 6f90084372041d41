//! The polynomials each instance contributes to the two sum-check reductions:
//! `q` and `Q` of a committed instance, `L_j` of an accumulated one over the row
//! variables; `R_j`, `S` and `T_j` over the column variables.
use crate::ccs::{compute_sum_Mz, copy_vec, mview, mz_table, CCS};
use crate::error::FoldingError;
use crate::field::{fpow, Fr};
use crate::folding::{shapes_agree, Genericfolding};
use crate::instance::{ACCS, CCCS};
use crate::matrix::{rows_of_len, vals, Matrix};
use crate::mle::{build_eq_table, eq_table, mle_at, mle_evaluate, padded, pow2_usize, vec_to_mle, MAX_VARS};
use crate::poly::{scale_model, Term, VirtualPolynomial};
use vstd::arithmetic::power2::pow2;
use vstd::prelude::*;

verus! {

/// The table over the rows of `sum_y eq(r_y, y) * M(x, y)`: each row's extension at `r_y`.
pub open spec fn eqm_table(mat: Seq<Seq<Fr>>, r_y: Seq<Fr>, s: nat) -> Seq<int> {
    Seq::new(
        pow2(s),
        |x: int| if x < mat.len() { mle_at(padded(vals(mat[x]), pow2(r_y.len() as nat)), vals(r_y)) } else { 0 },
    )
}

/// Column `y` of a matrix.
pub open spec fn column(mat: Seq<Seq<Fr>>, y: int) -> Seq<int> {
    Seq::new(mat.len(), |x: int| if y < mat[x].len() { mat[x][y].val() } else { 0 })
}

/// The table over the `s_prime` column variables of `M(r_x, y)`: each of the first `m`
/// columns' extension at `r_x`.
pub open spec fn col_table(mat: Seq<Seq<Fr>>, r_x: Seq<Fr>, s_prime: nat, m: nat) -> Seq<int> {
    Seq::new(
        pow2(s_prime),
        |y: int| if y < m { mle_at(padded(column(mat, y), pow2(r_x.len() as nat)), vals(r_x)) } else { 0 },
    )
}

/// A polynomial of one term.
pub open spec fn single(coeff: int, factors: Seq<Seq<int>>) -> Seq<(int, Seq<Seq<int>>)> {
    seq![(coeff, factors)]
}

/// The terms of `q(x) = sum_i c_i prod_{j in S_i} sum_y M_j(x, y) z(y)`.
pub open spec fn q_model(ccs: CCS, z: Seq<Fr>) -> Seq<(int, Seq<Seq<int>>)> {
    Seq::new(
        ccs.q as nat,
        |i: int|
            (
                ccs.c@[i].val(),
                Seq::new(
                    ccs.model().S[i].len(),
                    |k: int| mz_table(ccs.model().M[ccs.model().S[i][k] as int], z, ccs.s as nat),
                ),
            ),
    )
}

/// The terms of a list of polynomials, one list per polynomial.
pub open spec fn models(ps: Seq<VirtualPolynomial>) -> Seq<Seq<(int, Seq<Seq<int>>)>> {
    ps.map_values(|p: VirtualPolynomial| p.model())
}

/// `sum_{k' < k} g^k' ps[k']`, as terms.
pub open spec fn rlc_model(ps: Seq<Seq<(int, Seq<Seq<int>>)>>, g: int, k: int) -> Seq<(int, Seq<Seq<int>>)>
    decreases k,
{
    if k <= 0 {
        Seq::empty()
    } else {
        rlc_model(ps, g, k - 1) + scale_model(ps[k - 1], fpow(g, (k - 1) as nat))
    }
}

/// The concatenation of the first `k` lists.
pub open spec fn concat_all<A>(parts: Seq<Seq<A>>, k: int) -> Seq<A>
    decreases k,
{
    if k <= 0 {
        Seq::empty()
    } else {
        concat_all(parts, k - 1) + parts[k - 1]
    }
}

/// The row extensions of `mat` at `r_y`, as a table over `s` row variables.
pub fn compute_sum_eqM(mat: &Matrix, r_y: &Vec<Fr>, s: usize) -> (r: Vec<Fr>)
    requires
        s <= MAX_VARS,
        r_y@.len() <= MAX_VARS,
        mat@.len() <= pow2(s as nat),
        forall|x: int| 0 <= x < mat@.len() ==> (#[trigger] mat@[x])@.len() <= pow2(r_y@.len() as nat),
    ensures
        vals(r@) == eqm_table(mview(mat@), r_y@, s as nat),
        r@.len() == pow2(s as nat),
{
    let rows = pow2_usize(s);
    let mut out: Vec<Fr> = Vec::new();
    let mut x: usize = 0;
    while x < rows
        invariant
            rows == pow2(s as nat),
            r_y@.len() <= MAX_VARS,
            mat@.len() <= rows,
            forall|x: int| 0 <= x < mat@.len() ==> (#[trigger] mat@[x])@.len() <= pow2(r_y@.len() as nat),
            x <= rows,
            out@.len() == x,
            forall|k: int| 0 <= k < x ==> (#[trigger] out@[k]).val() == eqm_table(mview(mat@), r_y@, s as nat)[k],
        decreases rows - x,
    {
        if x < mat.len() {
            let row = vec_to_mle(r_y.len(), &mat[x]);
            out.push(mle_evaluate(&row, r_y));
        } else {
            out.push(Fr::zero());
        }
        x += 1;
    }
    assert(vals(out@) =~= eqm_table(mview(mat@), r_y@, s as nat));
    out
}

/// The column extensions of `mat` at `r_x` for its first `m` columns, as a table over
/// `s_prime` column variables.
pub fn fix_row_variables(mat: &Matrix, r_x: &Vec<Fr>, s_prime: usize, m: usize) -> (r: Vec<Fr>)
    requires
        s_prime <= MAX_VARS,
        r_x@.len() <= MAX_VARS,
        m <= pow2(s_prime as nat),
        mat@.len() <= pow2(r_x@.len() as nat),
    ensures
        vals(r@) == col_table(mview(mat@), r_x@, s_prime as nat, m as nat),
        r@.len() == pow2(s_prime as nat),
{
    let cols = pow2_usize(s_prime);
    let mut out: Vec<Fr> = Vec::new();
    let mut y: usize = 0;
    while y < cols
        invariant
            cols == pow2(s_prime as nat),
            r_x@.len() <= MAX_VARS,
            mat@.len() <= pow2(r_x@.len() as nat),
            y <= cols,
            out@.len() == y,
            forall|k: int| 0 <= k < y ==> (#[trigger] out@[k]).val() == col_table(mview(mat@), r_x@, s_prime as nat, m as nat)[k],
        decreases cols - y,
    {
        if y < m {
            let mut col: Vec<Fr> = Vec::new();
            let mut x: usize = 0;
            while x < mat.len()
                invariant
                    x <= mat@.len(),
                    col@.len() == x,
                    forall|k: int| 0 <= k < x ==> (#[trigger] col@[k]).val() == column(mview(mat@), y as int)[k],
                decreases mat@.len() - x,
            {
                if y < mat[x].len() {
                    col.push(mat[x][y]);
                } else {
                    col.push(Fr::zero());
                }
                x += 1;
            }
            assert(vals(col@) =~= column(mview(mat@), y as int));
            let table = vec_to_mle(r_x.len(), &col);
            out.push(mle_evaluate(&table, r_x));
        } else {
            out.push(Fr::zero());
        }
        y += 1;
    }
    assert(vals(out@) =~= col_table(mview(mat@), r_x@, s_prime as nat, m as nat));
    out
}

/// A polynomial of one term with two factors.
fn two_factor_poly(num_vars: usize, a: Vec<Fr>, b: Vec<Fr>) -> (r: VirtualPolynomial)
    requires
        num_vars <= MAX_VARS,
        a@.len() == pow2(num_vars as nat),
        b@.len() == pow2(num_vars as nat),
    ensures
        r.wf(),
        r.num_vars == num_vars,
        r.model() == single(1, seq![vals(a@), vals(b@)]),
{
    let mut p = VirtualPolynomial::new_from_mle(num_vars, a, Fr::one());
    p.mul_by_mle(&b);
    assert(p.model() =~= single(1, seq![vals(a@), vals(b@)])) by {
        assert(seq![vals(a@)].push(vals(b@)) =~= seq![vals(a@), vals(b@)]);
    }
    p
}

/// The terms of `L_j(x) = eq(r_x, x) * sum_y eq(r_y, y) M_j(x, y)` for each matrix.
pub open spec fn ls_models(a: ACCS) -> Seq<Seq<(int, Seq<Seq<int>>)>> {
    Seq::new(
        a.ccs.t as nat,
        |j: int| single(1, seq![eqm_table(a.ccs.model().M[j], a.r_y@, a.ccs.s as nat), eq_table(vals(a.r_x@), a.r_x@.len() as nat)]),
    )
}

/// The terms of `R_j(y) = eq(r_y, y) M_j(r_x', y)` for each matrix, then of
/// `S(y) = eq(r_y, y) z(y)`.
pub open spec fn rs_models(a: ACCS, r_x_prime: Seq<Fr>, z: Seq<Fr>) -> Seq<Seq<(int, Seq<Seq<int>>)>> {
    Seq::new(
        a.ccs.t as nat,
        |j: int|
            single(
                1,
                seq![col_table(a.ccs.model().M[j], r_x_prime, a.ccs.s_prime as nat, a.ccs.m as nat), eq_table(vals(a.r_y@), a.r_y@.len() as nat)],
            ),
    ).push(single(1, seq![padded(vals(z), pow2(a.ccs.s_prime as nat)), eq_table(vals(a.r_y@), a.r_y@.len() as nat)]))
}

/// The terms of `T_j(y) = M_j(r_x', y) z(y)` for each matrix.
pub open spec fn t_models(c: CCCS, r_x_prime: Seq<Fr>, z: Seq<Fr>) -> Seq<Seq<(int, Seq<Seq<int>>)>> {
    Seq::new(
        c.ccs.t as nat,
        |j: int|
            single(1, seq![col_table(c.ccs.model().M[j], r_x_prime, c.ccs.s_prime as nat, c.ccs.m as nat), padded(vals(z), pow2(c.ccs.s_prime as nat))]),
    )
}

/// Tables of `sum_y M_j(x, y) z(y)` for every matrix.
fn all_mz_tables(ccs: &CCS, z: &Vec<Fr>) -> (r: Vec<Vec<Fr>>)
    requires
        ccs.wf(),
        z@.len() == ccs.m,
    ensures
        r@.len() == ccs.t,
        forall|j: int| 0 <= j < ccs.t ==> vals((#[trigger] r@[j])@) == mz_table(ccs.model().M[j], z@, ccs.s as nat),
        forall|j: int| 0 <= j < ccs.t ==> (#[trigger] r@[j])@.len() == pow2(ccs.s as nat),
{
    let mut out: Vec<Vec<Fr>> = Vec::new();
    let mut j: usize = 0;
    while j < ccs.t
        invariant
            ccs.wf(),
            z@.len() == ccs.m,
            j <= ccs.t,
            out@.len() == j,
            forall|k: int| 0 <= k < j ==> vals((#[trigger] out@[k])@) == mz_table(ccs.model().M[k], z@, ccs.s as nat),
            forall|k: int| 0 <= k < j ==> (#[trigger] out@[k])@.len() == pow2(ccs.s as nat),
        decreases ccs.t - j,
    {
        assert(ccs.model().M[j as int] == mview(ccs.M@[j as int]@));
        assert(rows_of_len(ccs.M@[j as int]@, z@.len() as int)) by {
            assert forall|x: int| 0 <= x < ccs.M@[j as int]@.len() implies (#[trigger] ccs.M@[j as int]@[x])@.len() == z@.len() by {
                assert(ccs.model().M[j as int][x] == ccs.M@[j as int]@[x]@);
            }
        }
        out.push(compute_sum_Mz(&ccs.M[j], z, ccs.s));
        j += 1;
    }
    out
}

impl CCCS {
    /// `q(x) = sum_i c_i prod_{j in S_i} sum_y M_j(x, y) z(y)`, a polynomial over the
    /// row variables; it vanishes on the hypercube exactly when `z` satisfies the system.
    pub fn compute_q(&self, z: &Vec<Fr>) -> (q: VirtualPolynomial)
        requires
            self.ccs.wf(),
            z@.len() == self.ccs.m,
        ensures
            q.wf(),
            q.num_vars == self.ccs.s,
            q.model() == q_model(self.ccs, z@),
    {
        let ccs = &self.ccs;
        let tables = all_mz_tables(ccs, z);
        let mut terms: Vec<Term> = Vec::new();
        let mut i: usize = 0;
        while i < ccs.q
            invariant
                ccs.wf(),
                z@.len() == ccs.m,
                tables@.len() == ccs.t,
                forall|j: int| 0 <= j < ccs.t ==> vals((#[trigger] tables@[j])@) == mz_table(ccs.model().M[j], z@, ccs.s as nat),
                forall|j: int| 0 <= j < ccs.t ==> (#[trigger] tables@[j])@.len() == pow2(ccs.s as nat),
                i <= ccs.q,
                terms@.len() == i,
                forall|k: int| 0 <= k < i ==> crate::poly::term_model(#[trigger] terms@[k]) == q_model(*ccs, z@)[k],
                forall|k: int, f: int|
                    0 <= k < i && 0 <= f < terms@[k].factors@.len() ==> (#[trigger] terms@[k].factors@[f])@.len()
                        == pow2(ccs.s as nat),
            decreases ccs.q - i,
        {
            let mut factors: Vec<Vec<Fr>> = Vec::new();
            let mut k: usize = 0;
            assert(ccs.model().S[i as int] == ccs.S@[i as int]@);
            while k < ccs.S[i].len()
                invariant
                    ccs.wf(),
                    i < ccs.q,
                    ccs.model().S[i as int] == ccs.S@[i as int]@,
                    tables@.len() == ccs.t,
                    forall|j: int| 0 <= j < ccs.t ==> vals((#[trigger] tables@[j])@) == mz_table(ccs.model().M[j], z@, ccs.s as nat),
                    forall|j: int| 0 <= j < ccs.t ==> (#[trigger] tables@[j])@.len() == pow2(ccs.s as nat),
                    k <= ccs.S@[i as int]@.len(),
                    factors@.len() == k,
                    forall|f: int| 0 <= f < k ==> vals((#[trigger] factors@[f])@) == mz_table(
                        ccs.model().M[ccs.model().S[i as int][f] as int],
                        z@,
                        ccs.s as nat,
                    ),
                    forall|f: int| 0 <= f < k ==> (#[trigger] factors@[f])@.len() == pow2(ccs.s as nat),
                decreases ccs.S@[i as int]@.len() - k,
            {
                let j = ccs.S[i][k];
                assert(j < ccs.t);
                factors.push(copy_vec(&tables[j]));
                k += 1;
            }
            let t = Term { coeff: ccs.c[i], factors };
            assert(crate::poly::term_model(t).1 =~= q_model(*ccs, z@)[i as int].1);
            terms.push(t);
            i += 1;
        }
        let q = VirtualPolynomial { num_vars: ccs.s, terms };
        assert(q.model() =~= q_model(*ccs, z@));
        q
    }

    /// `Q(x) = eq(beta, x) * q(x)`.
    pub fn compute_Q(&self, z: &Vec<Fr>, beta: &Vec<Fr>) -> (r: Result<VirtualPolynomial, FoldingError>)
        requires
            self.ccs.wf(),
            z@.len() == self.ccs.m,
        ensures
            beta@.len() != self.ccs.s <==> r == Err::<VirtualPolynomial, FoldingError>(FoldingError::DimensionMismatch),
            r is Ok ==> {
                let p = r->Ok_0;
                &&& p.wf()
                &&& p.num_vars == self.ccs.s
                &&& p.model() == crate::poly::times_model(q_model(self.ccs, z@), eq_table(vals(beta@), beta@.len() as nat))
            },
    {
        let q = self.compute_q(z);
        q.build_f_hat(beta)
    }

    /// `T_j(y) = M_j(r_x', y) z(y)` for every matrix.
    pub fn compute_T(&self, r_x_prime: &Vec<Fr>, z: &Vec<Fr>) -> (r: Vec<VirtualPolynomial>)
        requires
            self.ccs.wf(),
            z@.len() == self.ccs.m,
            r_x_prime@.len() == self.ccs.s,
        ensures
            models(r@) == t_models(*self, r_x_prime@, z@),
            forall|j: int| 0 <= j < r@.len() ==> (#[trigger] r@[j]).wf() && r@[j].num_vars == self.ccs.s_prime,
    {
        let ccs = &self.ccs;
        let z_table = vec_to_mle(ccs.s_prime, z);
        let mut out: Vec<VirtualPolynomial> = Vec::new();
        let mut j: usize = 0;
        while j < ccs.t
            invariant
                ccs == &self.ccs,
                ccs.wf(),
                z@.len() == ccs.m,
                r_x_prime@.len() == ccs.s,
                vals(z_table@) == padded(vals(z@), pow2(ccs.s_prime as nat)),
                z_table@.len() == pow2(ccs.s_prime as nat),
                j <= ccs.t,
                out@.len() == j,
                forall|k: int| 0 <= k < j ==> (#[trigger] out@[k]).model() == t_models(*self, r_x_prime@, z@)[k],
                forall|k: int| 0 <= k < j ==> (#[trigger] out@[k]).wf() && out@[k].num_vars == ccs.s_prime,
            decreases ccs.t - j,
        {
            assert(ccs.model().M[j as int] == mview(ccs.M@[j as int]@));
            let col = fix_row_variables(&ccs.M[j], r_x_prime, ccs.s_prime, ccs.m);
            let p = two_factor_poly(ccs.s_prime, col, copy_vec(&z_table));
            assert(p.model() == t_models(*self, r_x_prime@, z@)[j as int]);
            out.push(p);
            j += 1;
        }
        assert(models(out@) =~= t_models(*self, r_x_prime@, z@));
        out
    }
}

impl ACCS {
    /// `L_j(x) = eq(r_x, x) * sum_y eq(r_y, y) M_j(x, y)` for every matrix; summed over the
    /// hypercube, `L_j` gives `M_j(r_x, r_y)`.
    pub fn compute_Ls(&self) -> (r: Vec<VirtualPolynomial>)
        requires
            self.ccs.wf(),
            self.r_x@.len() == self.ccs.s,
            self.r_y@.len() == self.ccs.s_prime,
        ensures
            models(r@) == ls_models(*self),
            forall|j: int| 0 <= j < r@.len() ==> (#[trigger] r@[j]).wf() && r@[j].num_vars == self.ccs.s,
    {
        let ccs = &self.ccs;
        let eq = build_eq_table(&self.r_x);
        let mut out: Vec<VirtualPolynomial> = Vec::new();
        let mut j: usize = 0;
        while j < ccs.t
            invariant
                ccs == &self.ccs,
                ccs.wf(),
                self.r_x@.len() == ccs.s,
                self.r_y@.len() == ccs.s_prime,
                vals(eq@) == eq_table(vals(self.r_x@), self.r_x@.len() as nat),
                eq@.len() == pow2(ccs.s as nat),
                j <= ccs.t,
                out@.len() == j,
                forall|k: int| 0 <= k < j ==> (#[trigger] out@[k]).model() == ls_models(*self)[k],
                forall|k: int| 0 <= k < j ==> (#[trigger] out@[k]).wf() && out@[k].num_vars == ccs.s,
            decreases ccs.t - j,
        {
            assert(ccs.model().M[j as int] == mview(ccs.M@[j as int]@));
            assert forall|x: int| 0 <= x < ccs.M@[j as int]@.len() implies (#[trigger] ccs.M@[j as int]@[x])@.len() <= pow2(self.r_y@.len() as nat) by {
                assert(ccs.model().M[j as int][x] == ccs.M@[j as int]@[x]@);
            }
            let rows = compute_sum_eqM(&ccs.M[j], &self.r_y, ccs.s);
            let p = two_factor_poly(ccs.s, rows, copy_vec(&eq));
            assert(p.model() == ls_models(*self)[j as int]);
            out.push(p);
            j += 1;
        }
        assert(models(out@) =~= ls_models(*self));
        out
    }

    /// `R_j(y) = eq(r_y, y) M_j(r_x', y)` for every matrix, then `S(y) = eq(r_y, y) z(y)`.
    pub fn compute_R_S(&self, r_x_prime: &Vec<Fr>, z: &Vec<Fr>) -> (r: Vec<VirtualPolynomial>)
        requires
            self.ccs.wf(),
            z@.len() == self.ccs.m,
            r_x_prime@.len() == self.ccs.s,
            self.r_y@.len() == self.ccs.s_prime,
        ensures
            models(r@) == rs_models(*self, r_x_prime@, z@),
            forall|j: int| 0 <= j < r@.len() ==> (#[trigger] r@[j]).wf() && r@[j].num_vars == self.ccs.s_prime,
    {
        let ccs = &self.ccs;
        let eq = build_eq_table(&self.r_y);
        let mut out: Vec<VirtualPolynomial> = Vec::new();
        let mut j: usize = 0;
        while j < ccs.t
            invariant
                ccs == &self.ccs,
                ccs.wf(),
                z@.len() == ccs.m,
                r_x_prime@.len() == ccs.s,
                self.r_y@.len() == ccs.s_prime,
                vals(eq@) == eq_table(vals(self.r_y@), self.r_y@.len() as nat),
                eq@.len() == pow2(ccs.s_prime as nat),
                j <= ccs.t,
                out@.len() == j,
                forall|k: int| 0 <= k < j ==> (#[trigger] out@[k]).model() == rs_models(*self, r_x_prime@, z@)[k],
                forall|k: int| 0 <= k < j ==> (#[trigger] out@[k]).wf() && out@[k].num_vars == ccs.s_prime,
            decreases ccs.t - j,
        {
            assert(ccs.model().M[j as int] == mview(ccs.M@[j as int]@));
            let col = fix_row_variables(&ccs.M[j], r_x_prime, ccs.s_prime, ccs.m);
            let p = two_factor_poly(ccs.s_prime, col, copy_vec(&eq));
            assert(p.model() == rs_models(*self, r_x_prime@, z@)[j as int]);
            out.push(p);
            j += 1;
        }
        let z_table = vec_to_mle(ccs.s_prime, z);
        out.push(two_factor_poly(ccs.s_prime, z_table, eq));
        assert(models(out@) =~= rs_models(*self, r_x_prime@, z@));
        out
    }
}

/// `sum_k g^k ps[k]`.
pub fn random_linear_combination(ps: Vec<VirtualPolynomial>, g: &Fr, num_vars: usize) -> (r: VirtualPolynomial)
    requires
        num_vars <= MAX_VARS,
        forall|k: int| 0 <= k < ps@.len() ==> (#[trigger] ps@[k]).wf() && ps@[k].num_vars == num_vars,
    ensures
        r.wf(),
        r.num_vars == num_vars,
        r.model() == rlc_model(models(ps@), g.val(), ps@.len() as int),
{
    let ghost all = ps@;
    let mut rest = ps;
    let n = rest.len();
    let mut acc = VirtualPolynomial::new(num_vars);
    let mut k: usize = 0;
    while k < n
        invariant
            n == all.len(),
            forall|j: int| 0 <= j < all.len() ==> (#[trigger] all[j]).wf() && all[j].num_vars == num_vars,
            k <= n,
            rest@ == all.subrange(k as int, n as int),
            acc.wf(),
            acc.num_vars == num_vars,
            acc.model() == rlc_model(models(all), g.val(), k as int),
        decreases n - k,
    {
        let mut p = rest.remove(0);
        assert(p == all[k as int]);
        p.scalar_mul(&g.pow(k as u64));
        acc = acc.add(p);
        k += 1;
        assert(rest@ =~= all.subrange(k as int, n as int));
    }
    acc
}

/// The list of `L_j` of every running instance, then `Q_k` of every new instance.
pub open spec fn fx_parts(running: Seq<ACCS>, new: Seq<CCCS>, z_cccs: Seq<Vec<Fr>>, alpha: Seq<Fr>) -> Seq<Seq<(int, Seq<Seq<int>>)>> {
    concat_all(Seq::new(running.len(), |i: int| ls_models(running[i])), running.len() as int) + Seq::new(
        new.len(),
        |k: int| crate::poly::times_model(q_model(new[k].ccs, z_cccs[k]@), eq_table(vals(alpha), alpha.len() as nat)),
    )
}

/// The list of `R_j` and `S` of every running instance, then `T_j` of every new instance.
pub open spec fn gy_parts(running: Seq<ACCS>, new: Seq<CCCS>, z_accs: Seq<Vec<Fr>>, z_cccs: Seq<Vec<Fr>>, r_x_prime: Seq<Fr>) -> Seq<Seq<(int, Seq<Seq<int>>)>> {
    concat_all(Seq::new(running.len(), |i: int| rs_models(running[i], r_x_prime, z_accs[i]@)), running.len() as int)
        + concat_all(Seq::new(new.len(), |k: int| t_models(new[k], r_x_prime, z_cccs[k]@)), new.len() as int)
}

proof fn lemma_models_append(a: Seq<VirtualPolynomial>, b: Seq<VirtualPolynomial>)
    ensures
        models(a + b) == models(a) + models(b),
{
    assert(models(a + b) =~= models(a) + models(b));
}

impl Genericfolding {
    /// `f(x) = sum_k gamma^k P_k(x)` over the list of every running instance's `L_j`
    /// followed by every new instance's `Q` at `alpha`: the polynomial of the first
    /// sum-check.
    pub fn compute_fx(
        running_instances: &Vec<ACCS>,
        cccs_instances: &Vec<CCCS>,
        z_cccs: &Vec<Vec<Fr>>,
        gamma: Fr,
        alpha: &Vec<Fr>,
    ) -> (r: Result<VirtualPolynomial, FoldingError>)
        requires
            running_instances@.len() >= 1,
            shapes_agree(running_instances@[0].ccs, running_instances@, cccs_instances@),
            forall|i: int| 0 <= i < running_instances@.len() ==> (#[trigger] running_instances@[i]).r_x@.len() == running_instances@[0].ccs.s
                && running_instances@[i].r_y@.len() == running_instances@[0].ccs.s_prime,
            z_cccs@.len() == cccs_instances@.len(),
            crate::folding::all_len(z_cccs@, running_instances@[0].ccs.m as int),
        ensures
            alpha@.len() != running_instances@[0].ccs.s <==> r == Err::<VirtualPolynomial, FoldingError>(FoldingError::DimensionMismatch),
            r is Ok ==> {
                let f = r->Ok_0;
                let parts = fx_parts(running_instances@, cccs_instances@, z_cccs@, alpha@);
                &&& f.wf()
                &&& f.num_vars == running_instances@[0].ccs.s
                &&& f.model() == rlc_model(parts, gamma.val(), parts.len() as int)
            },
    {
        let s = running_instances[0].ccs.s;
        if alpha.len() != s {
            return Err(FoldingError::DimensionMismatch);
        }
        let ghost lparts = Seq::new(running_instances@.len(), |i: int| ls_models(running_instances@[i]));
        let mut ps: Vec<VirtualPolynomial> = Vec::new();
        let mut i: usize = 0;
        while i < running_instances.len()
            invariant
                running_instances@.len() >= 1,
                s == running_instances@[0].ccs.s,
                shapes_agree(running_instances@[0].ccs, running_instances@, cccs_instances@),
                forall|i: int| 0 <= i < running_instances@.len() ==> (#[trigger] running_instances@[i]).r_x@.len() == s
                    && running_instances@[i].r_y@.len() == running_instances@[0].ccs.s_prime,
                lparts == Seq::new(running_instances@.len(), |i: int| ls_models(running_instances@[i])),
                i <= running_instances@.len(),
                models(ps@) == concat_all(lparts, i as int),
                forall|k: int| 0 <= k < ps@.len() ==> (#[trigger] ps@[k]).wf() && ps@[k].num_vars == s,
            decreases running_instances@.len() - i,
        {
            let a = &running_instances[i];
            assert(a.ccs.wf() && a.ccs.same_dims(&running_instances@[0].ccs));
            let mut ls = a.compute_Ls();
            let ghost before = ps@;
            let ghost added = ls@;
            ps.append(&mut ls);
            proof {
                lemma_models_append(before, added);
                assert(lparts[i as int] == models(added));
            }
            i += 1;
        }
        let mut k: usize = 0;
        while k < cccs_instances.len()
            invariant
                running_instances@.len() >= 1,
                s == running_instances@[0].ccs.s,
                alpha@.len() == s,
                shapes_agree(running_instances@[0].ccs, running_instances@, cccs_instances@),
                z_cccs@.len() == cccs_instances@.len(),
                crate::folding::all_len(z_cccs@, running_instances@[0].ccs.m as int),
                lparts == Seq::new(running_instances@.len(), |i: int| ls_models(running_instances@[i])),
                k <= cccs_instances@.len(),
                models(ps@) == concat_all(lparts, running_instances@.len() as int) + Seq::new(
                    k as nat,
                    |kk: int| crate::poly::times_model(q_model(cccs_instances@[kk].ccs, z_cccs@[kk]@), eq_table(vals(alpha@), alpha@.len() as nat)),
                ),
                forall|j: int| 0 <= j < ps@.len() ==> (#[trigger] ps@[j]).wf() && ps@[j].num_vars == s,
            decreases cccs_instances@.len() - k,
        {
            let c = &cccs_instances[k];
            assert(c.ccs.wf() && c.ccs.same_dims(&running_instances@[0].ccs));
            assert(z_cccs@[k as int]@.len() == c.ccs.m);
            let q = match c.compute_Q(&z_cccs[k], alpha) {
                Ok(q) => q,
                Err(e) => return Err(e),
            };
            let ghost before = models(ps@);
            ps.push(q);
            assert(models(ps@) =~= before.push(q.model()));
            k += 1;
            assert(models(ps@) =~= concat_all(lparts, running_instances@.len() as int) + Seq::new(
                k as nat,
                |kk: int| crate::poly::times_model(q_model(cccs_instances@[kk].ccs, z_cccs@[kk]@), eq_table(vals(alpha@), alpha@.len() as nat)),
            ));
        }
        assert(models(ps@) =~= fx_parts(running_instances@, cccs_instances@, z_cccs@, alpha@));
        assert(s <= MAX_VARS) by {
            assert(running_instances@[0].ccs.wf());
        }
        Ok(random_linear_combination(ps, &gamma, s))
    }

    /// `g(y) = sum_k delta^k P_k(y)` over the list of every running instance's `R_j` and
    /// `S` followed by every new instance's `T_j`, at `r_x'`: the polynomial of the second
    /// sum-check.
    pub fn compute_gy(
        running_instances: &Vec<ACCS>,
        cccs_instances: &Vec<CCCS>,
        z_accs: &Vec<Vec<Fr>>,
        z_cccs: &Vec<Vec<Fr>>,
        delta: Fr,
        r_x_prime: &Vec<Fr>,
    ) -> (r: VirtualPolynomial)
        requires
            running_instances@.len() >= 1,
            shapes_agree(running_instances@[0].ccs, running_instances@, cccs_instances@),
            forall|i: int| 0 <= i < running_instances@.len() ==> (#[trigger] running_instances@[i]).r_y@.len() == running_instances@[0].ccs.s_prime,
            r_x_prime@.len() == running_instances@[0].ccs.s,
            z_accs@.len() == running_instances@.len(),
            z_cccs@.len() == cccs_instances@.len(),
            crate::folding::all_len(z_accs@, running_instances@[0].ccs.m as int),
            crate::folding::all_len(z_cccs@, running_instances@[0].ccs.m as int),
        ensures
            ({
                let parts = gy_parts(running_instances@, cccs_instances@, z_accs@, z_cccs@, r_x_prime@);
                &&& r.wf()
                &&& r.num_vars == running_instances@[0].ccs.s_prime
                &&& r.model() == rlc_model(parts, delta.val(), parts.len() as int)
            }),
    {
        let sp = running_instances[0].ccs.s_prime;
        let ghost rparts = Seq::new(running_instances@.len(), |i: int| rs_models(running_instances@[i], r_x_prime@, z_accs@[i]@));
        let ghost tparts = Seq::new(cccs_instances@.len(), |k: int| t_models(cccs_instances@[k], r_x_prime@, z_cccs@[k]@));
        let mut ps: Vec<VirtualPolynomial> = Vec::new();
        let mut i: usize = 0;
        while i < running_instances.len()
            invariant
                running_instances@.len() >= 1,
                sp == running_instances@[0].ccs.s_prime,
                shapes_agree(running_instances@[0].ccs, running_instances@, cccs_instances@),
                forall|i: int| 0 <= i < running_instances@.len() ==> (#[trigger] running_instances@[i]).r_y@.len() == sp,
                r_x_prime@.len() == running_instances@[0].ccs.s,
                z_accs@.len() == running_instances@.len(),
                crate::folding::all_len(z_accs@, running_instances@[0].ccs.m as int),
                rparts == Seq::new(running_instances@.len(), |i: int| rs_models(running_instances@[i], r_x_prime@, z_accs@[i]@)),
                i <= running_instances@.len(),
                models(ps@) == concat_all(rparts, i as int),
                forall|k: int| 0 <= k < ps@.len() ==> (#[trigger] ps@[k]).wf() && ps@[k].num_vars == sp,
            decreases running_instances@.len() - i,
        {
            let a = &running_instances[i];
            assert(a.ccs.wf() && a.ccs.same_dims(&running_instances@[0].ccs));
            assert(z_accs@[i as int]@.len() == a.ccs.m);
            let mut more = a.compute_R_S(r_x_prime, &z_accs[i]);
            let ghost before = ps@;
            let ghost added = more@;
            ps.append(&mut more);
            proof {
                lemma_models_append(before, added);
            }
            i += 1;
        }
        let mut k: usize = 0;
        while k < cccs_instances.len()
            invariant
                running_instances@.len() >= 1,
                sp == running_instances@[0].ccs.s_prime,
                shapes_agree(running_instances@[0].ccs, running_instances@, cccs_instances@),
                r_x_prime@.len() == running_instances@[0].ccs.s,
                z_cccs@.len() == cccs_instances@.len(),
                crate::folding::all_len(z_cccs@, running_instances@[0].ccs.m as int),
                tparts == Seq::new(cccs_instances@.len(), |k: int| t_models(cccs_instances@[k], r_x_prime@, z_cccs@[k]@)),
                k <= cccs_instances@.len(),
                models(ps@) == concat_all(rparts, running_instances@.len() as int) + concat_all(tparts, k as int),
                forall|j: int| 0 <= j < ps@.len() ==> (#[trigger] ps@[j]).wf() && ps@[j].num_vars == sp,
            decreases cccs_instances@.len() - k,
        {
            let c = &cccs_instances[k];
            assert(c.ccs.wf() && c.ccs.same_dims(&running_instances@[0].ccs));
            assert(z_cccs@[k as int]@.len() == c.ccs.m);
            let mut more = c.compute_T(r_x_prime, &z_cccs[k]);
            let ghost before = ps@;
            let ghost added = more@;
            ps.append(&mut more);
            proof {
                lemma_models_append(before, added);
                assert(concat_all(tparts, k + 1) == concat_all(tparts, k as int) + models(added));
            }
            k += 1;
        }
        assert(sp <= MAX_VARS) by {
            assert(running_instances@[0].ccs.wf());
        }
        random_linear_combination(ps, &delta, sp)
    }
}

} // verus!
