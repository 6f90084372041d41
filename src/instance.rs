//! Committed instances built on a constraint system: the plain committed instance
//! (CCCS) and the accumulated instance (ACCS), with the witness they commit to.
use crate::ccs::{concat, copy_vec, satisfied, subvec, m_and_z_evals, CCS};
use crate::commitment::{bytes_eq, commit, commit_result, Commitment, Params};
use crate::error::FoldingError;
use crate::field::Fr;
use crate::matrix::{vals, vals_eq};
use vstd::prelude::*;

verus! {

/// The private part of an assignment and the blinding of its commitment.
#[derive(Clone, Debug, PartialEq, Eq)]
pub struct Witness {
    pub w: Vec<Fr>,
    pub r_w: Fr,
}

/// A committed instance: the commitment to `w` and the public inputs `x`.
#[derive(Clone, Debug, PartialEq, Eq)]
pub struct CCCS {
    pub ccs: CCS,
    pub C: Commitment,
    pub x: Vec<Fr>,
}

/// An accumulated instance: relaxation factor `u`, evaluation points `r_x` and `r_y`,
/// and the claimed values `v = (M_j(r_x, r_y))_j ++ [z(r_y)]`.
#[derive(Clone, Debug, PartialEq, Eq)]
pub struct ACCS {
    pub ccs: CCS,
    pub C: Commitment,
    pub u: Fr,
    pub x: Vec<Fr>,
    pub r_x: Vec<Fr>,
    pub r_y: Vec<Fr>,
    pub v: Vec<Fr>,
}

/// The assignment `z = [u, x, w]`.
pub open spec fn z_of(u: Fr, x: Seq<Fr>, w: Seq<Fr>) -> Seq<Fr> {
    seq![u] + x + w
}

/// What checking an accumulated instance against a witness yields.
pub open spec fn accs_outcome(a: ACCS, params: Params, wit: Witness) -> Result<(), FoldingError> {
    let z = z_of(a.u, a.x@, wit.w@);
    match commit_result(params, wit.w@, wit.r_w.val()) {
        Err(e) => Err(e),
        Ok(c) => if c != a.C.0@ {
            Err(FoldingError::RelationNotSatisfied)
        } else if z.len() != a.ccs.m || a.r_x@.len() != a.ccs.s || a.r_y@.len() != a.ccs.s_prime {
            Err(FoldingError::DimensionMismatch)
        } else if vals(a.v@) != m_and_z_evals(a.ccs.model().M, z, a.r_x@, a.r_y@) {
            Err(FoldingError::RelationNotSatisfied)
        } else {
            Ok(())
        },
    }
}

/// What checking a committed instance against a witness yields.
pub open spec fn cccs_outcome(a: CCCS, params: Params, wit: Witness) -> Result<(), FoldingError> {
    let z = z_of(Fr::spec_one(), a.x@, wit.w@);
    match commit_result(params, wit.w@, wit.r_w.val()) {
        Err(e) => Err(e),
        Ok(c) => if c != a.C.0@ {
            Err(FoldingError::RelationNotSatisfied)
        } else if z.len() != a.ccs.m {
            Err(FoldingError::DimensionMismatch)
        } else if !satisfied(a.ccs.model(), z) {
            Err(FoldingError::RelationNotSatisfied)
        } else {
            Ok(())
        },
    }
}

/// The error of a failed outcome, if any.
pub open spec fn error_of<T, U>(r: Result<T, FoldingError>) -> Option<FoldingError> {
    match r {
        Ok(_) => None,
        Err(e) => Some(e),
    }
}

/// `z = [1, x, w]` split at the public inputs, committed.
fn split_and_commit(ccs: &CCS, params: &Params, z: &Vec<Fr>, r_w: Fr) -> (r: Result<(Commitment, Vec<Fr>, Witness), FoldingError>)
    requires
        ccs.wf(),
        z@.len() == ccs.m,
    ensures
        error_of::<_, ()>(r) == error_of::<_, ()>(commit_result(*params, z@.subrange(1 + ccs.l, ccs.m as int), r_w.val())),
        r is Ok ==> {
            let (c, x, wit) = r->Ok_0;
            &&& x@ == z@.subrange(1, 1 + ccs.l)
            &&& wit.w@ == z@.subrange(1 + ccs.l, ccs.m as int)
            &&& wit.r_w == r_w
            &&& commit_result(*params, wit.w@, r_w.val()) == Ok::<Seq<u8>, FoldingError>(c.0@)
        },
{
    let w = subvec(z, 1 + ccs.l, ccs.m);
    let x = subvec(z, 1, 1 + ccs.l);
    match commit(params, &w, &r_w) {
        Ok(c) => Ok((c, x, Witness { w, r_w })),
        Err(e) => Err(e),
    }
}

impl CCS {
    /// Commit to the witness part of `z = [1, x, w]` with blinding `r_w`.
    pub fn to_cccs(&self, params: &Params, z: &Vec<Fr>, r_w: Fr) -> (r: Result<(CCCS, Witness), FoldingError>)
        requires
            self.wf(),
        ensures
            z@.len() != self.m ==> r == Err::<(CCCS, Witness), FoldingError>(FoldingError::DimensionMismatch),
            z@.len() == self.m ==> error_of::<_, ()>(r) == error_of::<_, ()>(
                commit_result(*params, z@.subrange(1 + self.l, self.m as int), r_w.val()),
            ),
            r is Ok ==> {
                let (inst, wit) = r->Ok_0;
                &&& inst.ccs.model() == self.model()
                &&& inst.x@ == z@.subrange(1, 1 + self.l)
                &&& wit.w@ == z@.subrange(1 + self.l, self.m as int)
                &&& wit.r_w == r_w
                &&& commit_result(*params, wit.w@, r_w.val()) == Ok::<Seq<u8>, FoldingError>(inst.C.0@)
            },
    {
        if z.len() != self.m {
            return Err(FoldingError::DimensionMismatch);
        }
        match split_and_commit(self, params, z, r_w) {
            Ok((c, x, wit)) => Ok((CCCS { ccs: self.duplicate(), C: c, x }, wit)),
            Err(e) => Err(e),
        }
    }

    /// Commit to the witness part of `z = [1, x, w]` and evaluate the system at the
    /// points `r_x` and `r_y`.
    pub fn to_accs(
        &self,
        params: &Params,
        z: &Vec<Fr>,
        r_w: Fr,
        r_x: &Vec<Fr>,
        r_y: &Vec<Fr>,
    ) -> (r: Result<(ACCS, Witness), FoldingError>)
        requires
            self.wf(),
        ensures
            (z@.len() != self.m || r_x@.len() != self.s || r_y@.len() != self.s_prime) ==> r == Err::<
                (ACCS, Witness),
                FoldingError,
            >(FoldingError::DimensionMismatch),
            (z@.len() == self.m && r_x@.len() == self.s && r_y@.len() == self.s_prime) ==> error_of::<
                _,
                (),
            >(r) == error_of::<_, ()>(
                commit_result(*params, z@.subrange(1 + self.l, self.m as int), r_w.val()),
            ),
            r is Ok ==> {
                let (inst, wit) = r->Ok_0;
                &&& inst.ccs.model() == self.model()
                &&& inst.u.val() == 1
                &&& inst.x@ == z@.subrange(1, 1 + self.l)
                &&& inst.r_x@ == r_x@
                &&& inst.r_y@ == r_y@
                &&& vals(inst.v@) == m_and_z_evals(self.model().M, z@, r_x@, r_y@)
                &&& wit.w@ == z@.subrange(1 + self.l, self.m as int)
                &&& wit.r_w == r_w
                &&& commit_result(*params, wit.w@, r_w.val()) == Ok::<Seq<u8>, FoldingError>(inst.C.0@)
            },
    {
        if z.len() != self.m || r_x.len() != self.s || r_y.len() != self.s_prime {
            return Err(FoldingError::DimensionMismatch);
        }
        match split_and_commit(self, params, z, r_w) {
            Ok((c, x, wit)) => {
                let v = self.compute_v_j_accs(z, r_x, r_y);
                let inst = ACCS {
                    ccs: self.duplicate(),
                    C: c,
                    u: Fr::one(),
                    x,
                    r_x: copy_vec(r_x),
                    r_y: copy_vec(r_y),
                    v,
                };
                Ok((inst, wit))
            },
            Err(e) => Err(e),
        }
    }
}

impl CCCS {
    /// Check that `C` commits to `w` and that `z = [1, x, w]` satisfies the system.
    pub fn check_relation(&self, params: &Params, wit: &Witness) -> (r: Result<(), FoldingError>)
        requires
            self.ccs.wf(),
        ensures
            r == cccs_outcome(*self, *params, *wit),
    {
        let one = Fr::one();
        let c = match commit(params, &wit.w, &wit.r_w) {
            Ok(c) => c,
            Err(e) => return Err(e),
        };
        if !bytes_eq(&c.0, &self.C.0) {
            return Err(FoldingError::RelationNotSatisfied);
        }
        let mut z: Vec<Fr> = Vec::new();
        z.push(one);
        let z = concat(&concat(&z, &self.x), &wit.w);
        assert(z@ =~= z_of(one, self.x@, wit.w@));
        match self.ccs.check_relation(&z) {
            Ok(()) => Ok(()),
            Err(e) => Err(e),
        }
    }
}

impl ACCS {
    /// Check that `C` commits to `w` and that the claimed values `v` are those of
    /// `z = [u, x, w]` at `(r_x, r_y)`.
    pub fn check_relation(&self, params: &Params, wit: &Witness) -> (r: Result<(), FoldingError>)
        requires
            self.ccs.wf(),
        ensures
            r == accs_outcome(*self, *params, *wit),
    {
        let c = match commit(params, &wit.w, &wit.r_w) {
            Ok(c) => c,
            Err(e) => return Err(e),
        };
        if !bytes_eq(&c.0, &self.C.0) {
            return Err(FoldingError::RelationNotSatisfied);
        }
        let mut z: Vec<Fr> = Vec::new();
        z.push(self.u);
        let z = concat(&concat(&z, &self.x), &wit.w);
        assert(z@ =~= z_of(self.u, self.x@, wit.w@));
        if z.len() != self.ccs.m || self.r_x.len() != self.ccs.s || self.r_y.len() != self.ccs.s_prime {
            return Err(FoldingError::DimensionMismatch);
        }
        let computed = self.ccs.compute_v_j_accs(&z, &self.r_x, &self.r_y);
        if !vals_eq(&computed, &self.v) {
            return Err(FoldingError::RelationNotSatisfied);
        }
        Ok(())
    }
}

} // verus!
