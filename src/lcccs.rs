//! The linearized committed instance (LCCCS): one evaluation point `r_x` and the values
//! `v_j = sum_y M_j(r_x, y) z(y)`.
use crate::ccs::{compute_sum_Mz, concat, copy_vec, mview, mz_table, sum_mz_evals, CCS};
use crate::commitment::{bytes_eq, commit, commit_result, Commitment, Params};
use crate::construction::{models, single};
use crate::error::FoldingError;
use crate::field::Fr;
use crate::instance::{error_of, z_of, Witness};
use crate::matrix::{rows_of_len, vals, vals_eq};
use crate::mle::{build_eq_table, eq_table};
use crate::poly::VirtualPolynomial;
use vstd::arithmetic::power2::pow2;
use vstd::prelude::*;

verus! {

/// A linearized committed instance.
#[derive(Clone, Debug, PartialEq, Eq)]
pub struct LCCCS {
    pub ccs: CCS,
    pub C: Commitment,
    pub u: Fr,
    pub x: Vec<Fr>,
    pub r_x: Vec<Fr>,
    pub v: Vec<Fr>,
}

/// What checking a linearized instance against a witness yields.
pub open spec fn lcccs_outcome(a: LCCCS, params: Params, wit: Witness) -> Result<(), FoldingError> {
    let z = z_of(a.u, a.x@, wit.w@);
    match commit_result(params, wit.w@, wit.r_w.val()) {
        Err(e) => Err(e),
        Ok(c) => if c != a.C.0@ {
            Err(FoldingError::RelationNotSatisfied)
        } else if z.len() != a.ccs.m || a.r_x@.len() != a.ccs.s {
            Err(FoldingError::DimensionMismatch)
        } else if vals(a.v@) != sum_mz_evals(a.ccs.model().M, z, a.r_x@) {
            Err(FoldingError::RelationNotSatisfied)
        } else {
            Ok(())
        },
    }
}

/// The terms of `L_j(x) = eq(r_x, x) * sum_y M_j(x, y) z(y)` for each matrix.
pub open spec fn lcccs_ls_models(a: LCCCS, z: Seq<Fr>) -> Seq<Seq<(int, Seq<Seq<int>>)>> {
    Seq::new(
        a.ccs.t as nat,
        |j: int| single(1, seq![mz_table(a.ccs.model().M[j], z, a.ccs.s as nat), eq_table(vals(a.r_x@), a.r_x@.len() as nat)]),
    )
}

impl CCS {
    /// Commit to the witness part of `z = [1, x, w]` and evaluate `v_j` at `r_x`.
    pub fn to_lcccs(&self, params: &Params, z: &Vec<Fr>, r_w: Fr, r_x: &Vec<Fr>) -> (r: Result<(LCCCS, Witness), FoldingError>)
        requires
            self.wf(),
        ensures
            (z@.len() != self.m || r_x@.len() != self.s) ==> r == Err::<(LCCCS, Witness), FoldingError>(
                FoldingError::DimensionMismatch,
            ),
            (z@.len() == self.m && r_x@.len() == self.s) ==> error_of::<_, ()>(r) == error_of::<_, ()>(
                commit_result(*params, z@.subrange(1 + self.l, self.m as int), r_w.val()),
            ),
            r is Ok ==> {
                let (inst, wit) = r->Ok_0;
                &&& inst.ccs.model() == self.model()
                &&& inst.u.val() == 1
                &&& inst.x@ == z@.subrange(1, 1 + self.l)
                &&& inst.r_x@ == r_x@
                &&& vals(inst.v@) == sum_mz_evals(self.model().M, z@, r_x@)
                &&& wit.w@ == z@.subrange(1 + self.l, self.m as int)
                &&& wit.r_w == r_w
                &&& commit_result(*params, wit.w@, r_w.val()) == Ok::<Seq<u8>, FoldingError>(inst.C.0@)
            },
    {
        if z.len() != self.m || r_x.len() != self.s {
            return Err(FoldingError::DimensionMismatch);
        }
        let w = crate::ccs::subvec(z, 1 + self.l, self.m);
        let x = crate::ccs::subvec(z, 1, 1 + self.l);
        let c = match commit(params, &w, &r_w) {
            Ok(c) => c,
            Err(e) => return Err(e),
        };
        let v = self.compute_v_j(z, r_x);
        let inst = LCCCS { ccs: self.duplicate(), C: c, u: Fr::one(), x, r_x: copy_vec(r_x), v };
        Ok((inst, Witness { w, r_w }))
    }
}

impl LCCCS {
    /// `L_j(x) = eq(r_x, x) * sum_y M_j(x, y) z(y)` for every matrix; summed over the
    /// hypercube, `L_j` gives `v_j`.
    pub fn compute_Ls(&self, z: &Vec<Fr>) -> (r: Vec<VirtualPolynomial>)
        requires
            self.ccs.wf(),
            z@.len() == self.ccs.m,
            self.r_x@.len() == self.ccs.s,
        ensures
            models(r@) == lcccs_ls_models(*self, z@),
            forall|j: int| 0 <= j < r@.len() ==> (#[trigger] r@[j]).wf() && r@[j].num_vars == self.ccs.s,
    {
        let ccs = &self.ccs;
        let eq = build_eq_table(&self.r_x);
        let mut out: Vec<VirtualPolynomial> = Vec::new();
        let mut j: usize = 0;
        while j < ccs.t
            invariant
                ccs == &self.ccs,
                ccs.wf(),
                z@.len() == ccs.m,
                self.r_x@.len() == ccs.s,
                vals(eq@) == eq_table(vals(self.r_x@), self.r_x@.len() as nat),
                eq@.len() == pow2(ccs.s as nat),
                j <= ccs.t,
                out@.len() == j,
                forall|k: int| 0 <= k < j ==> (#[trigger] out@[k]).model() == lcccs_ls_models(*self, z@)[k],
                forall|k: int| 0 <= k < j ==> (#[trigger] out@[k]).wf() && out@[k].num_vars == ccs.s,
            decreases ccs.t - j,
        {
            assert(ccs.model().M[j as int] == mview(ccs.M@[j as int]@));
            assert(rows_of_len(ccs.M@[j as int]@, z@.len() as int)) by {
                assert forall|x: int| 0 <= x < ccs.M@[j as int]@.len() implies (#[trigger] ccs.M@[j as int]@[x])@.len() == z@.len() by {
                    assert(ccs.model().M[j as int][x] == ccs.M@[j as int]@[x]@);
                }
            }
            let table = compute_sum_Mz(&ccs.M[j], z, ccs.s);
            let mut p = VirtualPolynomial::new_from_mle(ccs.s, table, Fr::one());
            p.mul_by_mle(&eq);
            assert(seq![vals(table@)].push(vals(eq@)) =~= seq![vals(table@), vals(eq@)]);
            assert(p.model() == lcccs_ls_models(*self, z@)[j as int]);
            out.push(p);
            j += 1;
        }
        assert(models(out@) =~= lcccs_ls_models(*self, z@));
        out
    }

    /// Check that `C` commits to `w` and that `v` holds the values of `z = [u, x, w]`
    /// at `r_x`.
    pub fn check_relation(&self, params: &Params, wit: &Witness) -> (r: Result<(), FoldingError>)
        requires
            self.ccs.wf(),
        ensures
            r == lcccs_outcome(*self, *params, *wit),
    {
        let c = match commit(params, &wit.w, &wit.r_w) {
            Ok(c) => c,
            Err(e) => return Err(e),
        };
        if !bytes_eq(&c.0, &self.C.0) {
            return Err(FoldingError::RelationNotSatisfied);
        }
        let mut z: Vec<Fr> = Vec::new();
        z.push(self.u);
        let z = concat(&concat(&z, &self.x), &wit.w);
        assert(z@ =~= z_of(self.u, self.x@, wit.w@));
        if z.len() != self.ccs.m || self.r_x.len() != self.ccs.s {
            return Err(FoldingError::DimensionMismatch);
        }
        let computed = self.ccs.compute_v_j(&z, &self.r_x);
        if !vals_eq(&computed, &self.v) {
            return Err(FoldingError::RelationNotSatisfied);
        }
        Ok(())
    }
}

} // verus!
