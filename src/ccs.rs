//! The shape of a customizable constraint system and the evaluations derived from it.
use crate::error::FoldingError;
use crate::field::{fadd, fmul, Fr};
use crate::matrix::{dot, mat_vec_mul, rows_of_len, vals, Matrix};
use crate::mle::{mle_at, mle_evaluate, padded, pow2_usize, vec_to_mle, MAX_VARS};
use vstd::arithmetic::div_mod::lemma_fundamental_div_mod_converse;
use vstd::arithmetic::power2::{lemma_pow2_adds, lemma_pow2_pos, pow2};
use vstd::prelude::*;

verus! {

/// A customizable constraint system: `sum_i c_i * prod_{j in S_i} (M_j z) = 0`, row by row.
///
/// Each of the `t` matrices has `n` rows and `m` columns; `z = [1, x, w]` has `m` entries,
/// `l` of them public. Rows are indexed by `s` variables and columns by `s_prime`.
#[derive(Clone, Debug, PartialEq, Eq)]
pub struct CCS {
    pub m: usize,
    pub n: usize,
    pub l: usize,
    pub t: usize,
    pub q: usize,
    pub d: usize,
    pub s: usize,
    pub s_prime: usize,
    pub M: Vec<Matrix>,
    pub S: Vec<Vec<usize>>,
    pub c: Vec<Fr>,
}

/// A matrix as a sequence of rows.
pub open spec fn mview(mat: Seq<Vec<Fr>>) -> Seq<Seq<Fr>> {
    mat.map_values(|row: Vec<Fr>| row@)
}

/// A list of matrices as sequences.
pub open spec fn msview(ms: Seq<Matrix>) -> Seq<Seq<Seq<Fr>>> {
    ms.map_values(|mat: Matrix| mview(mat@))
}

/// The mathematical content of a constraint system.
pub struct CcsModel {
    pub m: nat,
    pub n: nat,
    pub l: nat,
    pub t: nat,
    pub q: nat,
    pub s: nat,
    pub s_prime: nat,
    pub M: Seq<Seq<Seq<Fr>>>,
    pub S: Seq<Seq<usize>>,
    pub c: Seq<Fr>,
}

/// The entry of a matrix at row `x` and column `y`, zero outside the matrix.
pub open spec fn entry(mat: Seq<Seq<Fr>>, x: int, y: int) -> int {
    if 0 <= x < mat.len() && 0 <= y < mat[x].len() {
        mat[x][y].val()
    } else {
        0
    }
}

/// The matrix as a table over `s + s_prime` variables: column bits first, then row bits.
pub open spec fn mat_table(mat: Seq<Seq<Fr>>, s: nat, s_prime: nat) -> Seq<int> {
    Seq::new(
        pow2(s + s_prime),
        |k: int| entry(mat, k / pow2(s_prime) as int, k % pow2(s_prime) as int),
    )
}

/// The table over `s` row variables of `sum_y M(x, y) * z(y)`.
pub open spec fn mz_table(mat: Seq<Seq<Fr>>, z: Seq<Fr>, s: nat) -> Seq<int> {
    Seq::new(pow2(s), |x: int| if x < mat.len() { dot(mat[x], z, z.len() as int) } else { 0 })
}

/// `v_j = sum_y M_j(r, y) * z(y)` for every matrix.
pub open spec fn sum_mz_evals(ms: Seq<Seq<Seq<Fr>>>, z: Seq<Fr>, r: Seq<Fr>) -> Seq<int> {
    Seq::new(ms.len(), |j: int| mle_at(mz_table(ms[j], z, r.len() as nat), vals(r)))
}

/// `M_j(r, r_y)` for every matrix.
pub open spec fn sum_eqm_evals(ms: Seq<Seq<Seq<Fr>>>, r_y: Seq<Fr>, r: Seq<Fr>) -> Seq<int> {
    Seq::new(
        ms.len(),
        |j: int| mle_at(mat_table(ms[j], r.len() as nat, r_y.len() as nat), vals(r_y) + vals(r)),
    )
}

/// `M_j(r_x, r_y)` for every matrix, followed by `z(r_y)`.
pub open spec fn m_and_z_evals(ms: Seq<Seq<Seq<Fr>>>, z: Seq<Fr>, r_x: Seq<Fr>, r_y: Seq<Fr>) -> Seq<int> {
    sum_eqm_evals(ms, r_y, r_x).push(mle_at(padded(vals(z), pow2(r_y.len() as nat)), vals(r_y)))
}

/// Matrices whose rows fit `2^s` and whose columns fit `2^s_prime`.
pub open spec fn fits(ms: Seq<Seq<Seq<Fr>>>, s: nat, s_prime: nat) -> bool {
    &&& s + s_prime <= MAX_VARS
    &&& forall|j: int|
        0 <= j < ms.len() ==> {
            &&& (#[trigger] ms[j]).len() <= pow2(s)
            &&& forall|x: int| 0 <= x < ms[j].len() ==> (#[trigger] ms[j][x]).len() <= pow2(s_prime)
        }
}

/// Every matrix has rows of length `k`.
pub open spec fn all_rows_of_len(ms: Seq<Seq<Seq<Fr>>>, k: int) -> bool {
    forall|j: int, x: int| 0 <= j < ms.len() && 0 <= x < ms[j].len() ==> (#[trigger] ms[j][x]).len() == k
}

/// `(M_j z)` at row `x`.
pub open spec fn mz_at(ccs: CcsModel, j: int, z: Seq<Fr>, x: int) -> int {
    dot(ccs.M[j][x], z, z.len() as int)
}

/// The product over the first `k` members of `S_i` of `(M_j z)` at row `x`.
pub open spec fn sel_prod(ccs: CcsModel, z: Seq<Fr>, x: int, i: int, k: int) -> int
    decreases k,
{
    if k <= 0 {
        1
    } else {
        fmul(sel_prod(ccs, z, x, i, k - 1), mz_at(ccs, ccs.S[i][k - 1] as int, z, x))
    }
}

/// The sum over the first `i` terms of `c_i * prod_{j in S_i} (M_j z)` at row `x`.
pub open spec fn gate_at(ccs: CcsModel, z: Seq<Fr>, x: int, i: int) -> int
    decreases i,
{
    if i <= 0 {
        0
    } else {
        fadd(
            gate_at(ccs, z, x, i - 1),
            fmul(ccs.c[i - 1].val(), sel_prod(ccs, z, x, i - 1, ccs.S[i - 1].len() as int)),
        )
    }
}

/// `z` satisfies the constraint system: the custom gate vanishes on every row.
pub open spec fn satisfied(ccs: CcsModel, z: Seq<Fr>) -> bool {
    forall|x: int| 0 <= x < ccs.n ==> #[trigger] gate_at(ccs, z, x, ccs.q as int) == 0
}

/// The dimensions agree with the matrices, selectors and coefficients.
pub open spec fn model_wf(c: CcsModel) -> bool {
    &&& c.M.len() == c.t
    &&& c.S.len() == c.q
    &&& c.c.len() == c.q
    &&& forall|i: int, k: int| 0 <= i < c.q && 0 <= k < c.S[i].len() ==> #[trigger] c.S[i][k] < c.t
    &&& forall|j: int| 0 <= j < c.t ==> (#[trigger] c.M[j]).len() == c.n
    &&& all_rows_of_len(c.M, c.m as int)
    &&& c.n <= pow2(c.s)
    &&& c.m <= pow2(c.s_prime)
    &&& c.s + c.s_prime <= MAX_VARS
    &&& c.l + 1 <= c.m
}

impl CCS {
    /// The mathematical content of this system.
    pub open spec fn model(&self) -> CcsModel {
        CcsModel {
            m: self.m as nat,
            n: self.n as nat,
            l: self.l as nat,
            t: self.t as nat,
            q: self.q as nat,
            s: self.s as nat,
            s_prime: self.s_prime as nat,
            M: msview(self.M@),
            S: self.S@.map_values(|sel: Vec<usize>| sel@),
            c: self.c@,
        }
    }

    /// The dimensions agree with the matrices, selectors and coefficients.
    pub open spec fn wf(&self) -> bool {
        model_wf(self.model())
    }

    /// Two shapes with the same dimensions; their matrices and gates may differ.
    pub open spec fn same_dims(&self, o: &CCS) -> bool {
        &&& self.m == o.m
        &&& self.n == o.n
        &&& self.l == o.l
        &&& self.t == o.t
        &&& self.s == o.s
        &&& self.s_prime == o.s_prime
    }

    /// Check that `z` satisfies the system, row by row.
    pub fn check_relation(&self, z: &Vec<Fr>) -> (r: Result<(), FoldingError>)
        requires
            self.wf(),
        ensures
            z@.len() != self.m ==> r == Err::<(), FoldingError>(FoldingError::DimensionMismatch),
            z@.len() == self.m ==> (r is Ok <==> satisfied(self.model(), z@)),
            z@.len() == self.m && !satisfied(self.model(), z@) ==> r == Err::<(), FoldingError>(
                FoldingError::RelationNotSatisfied,
            ),
    {
        if z.len() != self.m {
            return Err(FoldingError::DimensionMismatch);
        }
        let mut mzs: Vec<Vec<Fr>> = Vec::new();
        let mut j: usize = 0;
        while j < self.t
            invariant
                self.wf(),
                z@.len() == self.m,
                j <= self.t,
                mzs@.len() == j,
                forall|jj: int| 0 <= jj < j ==> (#[trigger] mzs@[jj])@.len() == self.n,
                forall|jj: int, x: int|
                    0 <= jj < j && 0 <= x < self.n ==> #[trigger] mzs@[jj]@[x].val() == mz_at(
                        self.model(),
                        jj,
                        z@,
                        x,
                    ),
            decreases self.t - j,
        {
            assert(msview(self.M@)[j as int] == mview(self.M@[j as int]@));
            assert(rows_of_len(self.M@[j as int]@, self.m as int)) by {
                assert forall|x: int| 0 <= x < self.M@[j as int]@.len() implies (#[trigger] self.M@[j as int]@[x])@.len() == self.m by {
                    assert(msview(self.M@)[j as int][x] == self.M@[j as int]@[x]@);
                }
            }
            match mat_vec_mul(&self.M[j], z) {
                Ok(v) => mzs.push(v),
                Err(e) => return Err(e),
            }
            j += 1;
        }
        let mut x: usize = 0;
        while x < self.n
            invariant
                self.wf(),
                z@.len() == self.m,
                x <= self.n,
                mzs@.len() == self.t,
                forall|jj: int| 0 <= jj < self.t ==> (#[trigger] mzs@[jj])@.len() == self.n,
                forall|jj: int, xx: int|
                    0 <= jj < self.t && 0 <= xx < self.n ==> #[trigger] mzs@[jj]@[xx].val()
                        == mz_at(self.model(), jj, z@, xx),
                forall|xx: int| 0 <= xx < x ==> #[trigger] gate_at(self.model(), z@, xx, self.q as int) == 0,
            decreases self.n - x,
        {
            let mut acc = Fr::zero();
            let mut i: usize = 0;
            while i < self.q
                invariant
                    self.wf(),
                    x < self.n,
                    i <= self.q,
                    mzs@.len() == self.t,
                    forall|jj: int| 0 <= jj < self.t ==> (#[trigger] mzs@[jj])@.len() == self.n,
                    forall|jj: int, xx: int|
                        0 <= jj < self.t && 0 <= xx < self.n ==> #[trigger] mzs@[jj]@[xx].val()
                            == mz_at(self.model(), jj, z@, xx),
                    acc.val() == gate_at(self.model(), z@, x as int, i as int),
                decreases self.q - i,
            {
                let mut prod = Fr::one();
                let mut k: usize = 0;
                while k < self.S[i].len()
                    invariant
                        self.wf(),
                        x < self.n,
                        i < self.q,
                        k <= self.S@[i as int]@.len(),
                        mzs@.len() == self.t,
                        forall|jj: int| 0 <= jj < self.t ==> (#[trigger] mzs@[jj])@.len() == self.n,
                        forall|jj: int, xx: int|
                            0 <= jj < self.t && 0 <= xx < self.n ==> #[trigger] mzs@[jj]@[xx].val()
                                == mz_at(self.model(), jj, z@, xx),
                        prod.val() == sel_prod(self.model(), z@, x as int, i as int, k as int),
                    decreases self.S@[i as int]@.len() - k,
                {
                    let j = self.S[i][k];
                    assert(self.model().S[i as int] == self.S@[i as int]@);
                    assert(j < self.t);
                    prod = prod.mul(&mzs[j][x]);
                    k += 1;
                }
                acc = acc.add(&self.c[i].mul(&prod));
                i += 1;
            }
            if !acc.is_zero() {
                return Err(FoldingError::RelationNotSatisfied);
            }
            x += 1;
        }
        Ok(())
    }

    /// `v_j = sum_y M_j(r, y) * z(y)` for each matrix.
    pub fn compute_v_j(&self, z: &Vec<Fr>, r: &Vec<Fr>) -> (v: Vec<Fr>)
        requires
            self.wf(),
            z@.len() == self.m,
            r@.len() == self.s,
        ensures
            vals(v@) == sum_mz_evals(msview(self.M@), z@, r@),
    {
        compute_all_sum_Mz_evals(&self.M, z, r, self.s_prime)
    }

    /// `M_j(r_x, r_y)` for each matrix, followed by `z(r_y)`.
    pub fn compute_v_j_accs(&self, z: &Vec<Fr>, r_x: &Vec<Fr>, r_y: &Vec<Fr>) -> (v: Vec<Fr>)
        requires
            self.wf(),
            z@.len() == self.m,
            r_x@.len() == self.s,
            r_y@.len() == self.s_prime,
        ensures
            vals(v@) == m_and_z_evals(msview(self.M@), z@, r_x@, r_y@),
            v@.len() == self.t + 1,
    {
        compute_all_sum_M_and_z_evals(&self.M, z, r_x, r_y, self.s_prime)
    }
}

/// The matrix as a table of `2^(s + s_prime)` values, column index in the low bits.
pub fn matrix_to_mle(mat: &Matrix, s: usize, s_prime: usize) -> (r: Vec<Fr>)
    requires
        s + s_prime <= MAX_VARS,
    ensures
        vals(r@) == mat_table(mview(mat@), s as nat, s_prime as nat),
        r@.len() == pow2((s + s_prime) as nat),
{
    let rows = pow2_usize(s);
    let cols = pow2_usize(s_prime);
    let full = pow2_usize(s + s_prime);
    proof {
        lemma_pow2_adds(s as nat, s_prime as nat);
        lemma_pow2_pos(s_prime as nat);
    }
    let mut out: Vec<Fr> = Vec::new();
    let mut x: usize = 0;
    while x < rows
        invariant
            rows == pow2(s as nat),
            cols == pow2(s_prime as nat),
            full == rows * cols,
            cols > 0,
            x <= rows,
            out@.len() == x * cols,
            forall|k: int|
                0 <= k < out@.len() ==> #[trigger] out@[k].val() == entry(
                    mview(mat@),
                    k / cols as int,
                    k % cols as int,
                ),
        decreases rows - x,
    {
        let mut y: usize = 0;
        while y < cols
            invariant
                rows == pow2(s as nat),
                cols == pow2(s_prime as nat),
                full == rows * cols,
                cols > 0,
                x < rows,
                y <= cols,
                out@.len() == x * cols + y,
                forall|k: int|
                    0 <= k < out@.len() ==> #[trigger] out@[k].val() == entry(
                        mview(mat@),
                        k / cols as int,
                        k % cols as int,
                    ),
            decreases cols - y,
        {
            proof {
                lemma_fundamental_div_mod_converse(
                    (x * cols + y) as int,
                    cols as int,
                    x as int,
                    y as int,
                );
            }
            if x < mat.len() && y < mat[x].len() {
                out.push(mat[x][y]);
            } else {
                out.push(Fr::zero());
            }
            y += 1;
        }
        x += 1;
        assert(out@.len() == x * cols) by (nonlinear_arith)
            requires
                out@.len() == (x - 1) * cols + cols,
        ;
    }
    assert(out@.len() == full);
    assert(vals(out@) =~= mat_table(mview(mat@), s as nat, s_prime as nat));
    out
}

/// `a` followed by `b`.
pub fn concat(a: &Vec<Fr>, b: &Vec<Fr>) -> (r: Vec<Fr>)
    ensures
        r@ == a@ + b@,
{
    let mut out = a.clone();
    let mut i: usize = 0;
    assert(out@ =~= a@ + b@.subrange(0, 0));
    while i < b.len()
        invariant
            i <= b@.len(),
            out@ =~= a@ + b@.subrange(0, i as int),
        decreases b@.len() - i,
    {
        out.push(b[i]);
        i += 1;
        assert(out@ =~= a@ + b@.subrange(0, i as int));
    }
    assert(b@.subrange(0, b@.len() as int) =~= b@);
    out
}

proof fn lemma_vals_concat(a: Seq<Fr>, b: Seq<Fr>)
    ensures
        vals(a + b) == vals(a) + vals(b),
{
    assert(vals(a + b) =~= vals(a) + vals(b));
}

/// The table over the rows of `sum_y M(x, y) * z(y)`.
pub fn compute_sum_Mz(mat: &Matrix, z: &Vec<Fr>, s: usize) -> (r: Vec<Fr>)
    requires
        s <= MAX_VARS,
        mat@.len() <= pow2(s as nat),
        rows_of_len(mat@, z@.len() as int),
    ensures
        vals(r@) == mz_table(mview(mat@), z@, s as nat),
        r@.len() == pow2(s as nat),
{
    let mz = match mat_vec_mul(mat, z) {
        Ok(v) => v,
        Err(_) => {
            assert(false);
            Vec::new()
        },
    };
    let r = vec_to_mle(s, &mz);
    assert(vals(r@) =~= mz_table(mview(mat@), z@, s as nat));
    r
}

/// `sum_y M_j(r, y) * z(y)` for every matrix `M_j`.
pub fn compute_all_sum_Mz_evals(vec_M: &Vec<Matrix>, z: &Vec<Fr>, r: &Vec<Fr>, s_prime: usize) -> (v: Vec<Fr>)
    requires
        fits(msview(vec_M@), r@.len() as nat, s_prime as nat),
        all_rows_of_len(msview(vec_M@), z@.len() as int),
    ensures
        vals(v@) == sum_mz_evals(msview(vec_M@), z@, r@),
        v@.len() == vec_M@.len(),
{
    let mut out: Vec<Fr> = Vec::new();
    let mut j: usize = 0;
    while j < vec_M.len()
        invariant
            fits(msview(vec_M@), r@.len() as nat, s_prime as nat),
            all_rows_of_len(msview(vec_M@), z@.len() as int),
            j <= vec_M@.len(),
            out@.len() == j,
            forall|k: int| 0 <= k < j ==> #[trigger] out@[k].val() == sum_mz_evals(msview(vec_M@), z@, r@)[k],
        decreases vec_M@.len() - j,
    {
        assert(msview(vec_M@)[j as int] == mview(vec_M@[j as int]@));
        assert(rows_of_len(vec_M@[j as int]@, z@.len() as int)) by {
            assert forall|x: int| 0 <= x < vec_M@[j as int]@.len() implies (#[trigger] vec_M@[j as int]@[x])@.len() == z@.len() by {
                assert(msview(vec_M@)[j as int][x] == vec_M@[j as int]@[x]@);
            }
        }
        let table = compute_sum_Mz(&vec_M[j], z, r.len());
        out.push(mle_evaluate(&table, r));
        j += 1;
    }
    assert(vals(out@) =~= sum_mz_evals(msview(vec_M@), z@, r@));
    out
}

/// `sum_y eq(r_y, y) * M_j(r, y) = M_j(r, r_y)` for every matrix `M_j`.
pub fn compute_all_sum_eqM_evals(vec_M: &Vec<Matrix>, r_y: &Vec<Fr>, r: &Vec<Fr>, s_prime: usize) -> (v: Vec<Fr>)
    requires
        r_y@.len() == s_prime,
        fits(msview(vec_M@), r@.len() as nat, s_prime as nat),
    ensures
        vals(v@) == sum_eqm_evals(msview(vec_M@), r_y@, r@),
        v@.len() == vec_M@.len(),
{
    let point = concat(r_y, r);
    proof {
        lemma_vals_concat(r_y@, r@);
    }
    let mut out: Vec<Fr> = Vec::new();
    let mut j: usize = 0;
    while j < vec_M.len()
        invariant
            r_y@.len() == s_prime,
            fits(msview(vec_M@), r@.len() as nat, s_prime as nat),
            vals(point@) == vals(r_y@) + vals(r@),
            point@.len() == r_y@.len() + r@.len(),
            j <= vec_M@.len(),
            out@.len() == j,
            forall|k: int| 0 <= k < j ==> #[trigger] out@[k].val() == sum_eqm_evals(msview(vec_M@), r_y@, r@)[k],
        decreases vec_M@.len() - j,
    {
        let table = matrix_to_mle(&vec_M[j], r.len(), s_prime);
        assert((r@.len() + s_prime) as nat == point@.len() as nat);
        out.push(mle_evaluate(&table, &point));
        j += 1;
    }
    assert(vals(out@) =~= sum_eqm_evals(msview(vec_M@), r_y@, r@));
    out
}

/// `M_j(r_x, r_y)` for every matrix `M_j`, followed by `z(r_y)`.
pub fn compute_all_sum_M_and_z_evals(
    vec_M: &Vec<Matrix>,
    z: &Vec<Fr>,
    r_x: &Vec<Fr>,
    r_y: &Vec<Fr>,
    s_prime: usize,
) -> (v: Vec<Fr>)
    requires
        r_y@.len() == s_prime,
        fits(msview(vec_M@), r_x@.len() as nat, s_prime as nat),
        z@.len() <= pow2(s_prime as nat),
    ensures
        vals(v@) == m_and_z_evals(msview(vec_M@), z@, r_x@, r_y@),
        v@.len() == vec_M@.len() + 1,
{
    let mut v = compute_all_sum_eqM_evals(vec_M, r_y, r_x, s_prime);
    let z_table = vec_to_mle(s_prime, z);
    let ghost before = v@;
    v.push(mle_evaluate(&z_table, r_y));
    assert(vals(v@) =~= vals(before).push(mle_at(padded(vals(z@), pow2(r_y@.len() as nat)), vals(r_y@))));
    v
}

/// A copy of `v`.
pub fn copy_vec(v: &Vec<Fr>) -> (r: Vec<Fr>)
    ensures
        r@ == v@,
{
    subvec(v, 0, v.len())
}

/// The entries of `v` from `a` up to `b`.
pub fn subvec(v: &Vec<Fr>, a: usize, b: usize) -> (r: Vec<Fr>)
    requires
        a <= b <= v@.len(),
    ensures
        r@ == v@.subrange(a as int, b as int),
{
    let mut out: Vec<Fr> = Vec::new();
    let mut i: usize = a;
    while i < b
        invariant
            a <= i <= b <= v@.len(),
            out@ =~= v@.subrange(a as int, i as int),
        decreases b - i,
    {
        out.push(v[i]);
        i += 1;
        assert(out@ =~= v@.subrange(a as int, i as int));
    }
    out
}

/// A copy of a matrix.
pub fn copy_matrix(mat: &Matrix) -> (r: Matrix)
    ensures
        mview(r@) == mview(mat@),
{
    let mut out: Matrix = Vec::new();
    let mut i: usize = 0;
    while i < mat.len()
        invariant
            i <= mat@.len(),
            out@.len() == i,
            forall|k: int| 0 <= k < i ==> (#[trigger] out@[k])@ == mat@[k]@,
        decreases mat@.len() - i,
    {
        out.push(copy_vec(&mat[i]));
        i += 1;
    }
    assert(mview(out@) =~= mview(mat@));
    out
}

/// A copy of a list of matrices.
pub fn copy_matrices(ms: &Vec<Matrix>) -> (r: Vec<Matrix>)
    ensures
        msview(r@) == msview(ms@),
{
    let mut out: Vec<Matrix> = Vec::new();
    let mut i: usize = 0;
    while i < ms.len()
        invariant
            i <= ms@.len(),
            out@.len() == i,
            forall|k: int| 0 <= k < i ==> mview((#[trigger] out@[k])@) == mview(ms@[k]@),
        decreases ms@.len() - i,
    {
        out.push(copy_matrix(&ms[i]));
        i += 1;
    }
    assert(msview(out@) =~= msview(ms@));
    out
}

/// A copy of a list of selector sets.
pub fn copy_selectors(sels: &Vec<Vec<usize>>) -> (r: Vec<Vec<usize>>)
    ensures
        r@.map_values(|sel: Vec<usize>| sel@) == sels@.map_values(|sel: Vec<usize>| sel@),
{
    let mut out: Vec<Vec<usize>> = Vec::new();
    let mut i: usize = 0;
    while i < sels.len()
        invariant
            i <= sels@.len(),
            out@.len() == i,
            forall|k: int| 0 <= k < i ==> (#[trigger] out@[k])@ == sels@[k]@,
        decreases sels@.len() - i,
    {
        let mut row: Vec<usize> = Vec::new();
        let mut k: usize = 0;
        while k < sels[i].len()
            invariant
                i < sels@.len(),
                k <= sels@[i as int]@.len(),
                row@ =~= sels@[i as int]@.subrange(0, k as int),
            decreases sels@[i as int]@.len() - k,
        {
            row.push(sels[i][k]);
            k += 1;
            assert(row@ =~= sels@[i as int]@.subrange(0, k as int));
        }
        assert(row@ =~= sels@[i as int]@);
        out.push(row);
        i += 1;
    }
    assert(out@.map_values(|sel: Vec<usize>| sel@) =~= sels@.map_values(|sel: Vec<usize>| sel@));
    out
}

impl CCS {
    /// The same system with its matrices replaced by `ms`.
    pub fn with_matrices(&self, ms: Vec<Matrix>) -> (r: CCS)
        ensures
            r.model() == (CcsModel { M: msview(ms@), ..self.model() }),
            r.d == self.d,
    {
        CCS {
            m: self.m,
            n: self.n,
            l: self.l,
            t: self.t,
            q: self.q,
            d: self.d,
            s: self.s,
            s_prime: self.s_prime,
            M: ms,
            S: copy_selectors(&self.S),
            c: copy_vec(&self.c),
        }
    }

    /// A copy of this system.
    pub fn duplicate(&self) -> (r: CCS)
        ensures
            r.model() == self.model(),
            r.d == self.d,
    {
        self.with_matrices(copy_matrices(&self.M))
    }
}

impl CCS {
    /// Whether the dimensions agree with the matrices, selectors and coefficients.
    pub fn is_well_formed(&self) -> (r: bool)
        ensures
            r == self.wf(),
    {
        if self.s > MAX_VARS || self.s_prime > MAX_VARS || self.s + self.s_prime > MAX_VARS {
            return false;
        }
        if self.M.len() != self.t || self.S.len() != self.q || self.c.len() != self.q {
            return false;
        }
        if self.n > pow2_usize(self.s) || self.m > pow2_usize(self.s_prime) || self.m == 0 || self.l > self.m - 1 {
            return false;
        }
        let mut i: usize = 0;
        while i < self.q
            invariant
                self.S@.len() == self.q,
                i <= self.q,
                forall|ii: int, k: int|
                    0 <= ii < i && 0 <= k < self.S@[ii]@.len() ==> #[trigger] self.S@[ii]@[k] < self.t,
            decreases self.q - i,
        {
            let mut k: usize = 0;
            while k < self.S[i].len()
                invariant
                    self.S@.len() == self.q,
                    i < self.q,
                    k <= self.S@[i as int]@.len(),
                    forall|ii: int, kk: int|
                        0 <= ii < i && 0 <= kk < self.S@[ii]@.len() ==> #[trigger] self.S@[ii]@[kk] < self.t,
                    forall|kk: int| 0 <= kk < k ==> #[trigger] self.S@[i as int]@[kk] < self.t,
                decreases self.S@[i as int]@.len() - k,
            {
                if self.S[i][k] >= self.t {
                    assert(self.model().S[i as int][k as int] == self.S@[i as int]@[k as int]);
                    return false;
                }
                k += 1;
            }
            i += 1;
        }
        let mut j: usize = 0;
        while j < self.t
            invariant
                self.M@.len() == self.t,
                j <= self.t,
                forall|jj: int| 0 <= jj < j ==> (#[trigger] self.M@[jj])@.len() == self.n,
                forall|jj: int, x: int| 0 <= jj < j && 0 <= x < self.M@[jj]@.len() ==> (#[trigger] self.M@[jj]@[x])@.len() == self.m,
            decreases self.t - j,
        {
            if self.M[j].len() != self.n {
                assert(self.model().M[j as int].len() == self.M@[j as int]@.len());
                return false;
            }
            let mut x: usize = 0;
            while x < self.n
                invariant
                    self.M@.len() == self.t,
                    j < self.t,
                    self.M@[j as int]@.len() == self.n,
                    x <= self.n,
                    forall|jj: int| 0 <= jj < j ==> (#[trigger] self.M@[jj])@.len() == self.n,
                    forall|jj: int, xx: int| 0 <= jj < j && 0 <= xx < self.M@[jj]@.len() ==> (#[trigger] self.M@[jj]@[xx])@.len() == self.m,
                    forall|xx: int| 0 <= xx < x ==> (#[trigger] self.M@[j as int]@[xx])@.len() == self.m,
                decreases self.n - x,
            {
                if self.M[j][x].len() != self.m {
                    assert(self.model().M[j as int][x as int] == self.M@[j as int]@[x as int]@);
                    return false;
                }
                x += 1;
            }
            j += 1;
        }
        proof {
            assert forall|i: int, k: int| 0 <= i < self.q && 0 <= k < self.model().S[i].len() implies #[trigger] self.model().S[i][k] < self.t by {
                assert(self.model().S[i] == self.S@[i]@);
            }
            assert forall|jj: int| 0 <= jj < self.t implies (#[trigger] self.model().M[jj]).len() == self.n by {
                assert(self.model().M[jj] == mview(self.M@[jj]@));
            }
            assert forall|jj: int, x: int| 0 <= jj < self.model().M.len() && 0 <= x < self.model().M[jj].len() implies (#[trigger] self.model().M[jj][x]).len() == self.m by {
                assert(self.model().M[jj] == mview(self.M@[jj]@));
                assert(self.model().M[jj][x] == self.M@[jj]@[x]@);
            }
        }
        true
    }
}

} // verus!
