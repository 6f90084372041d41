//! Sums of products of multilinear extensions over a common set of variables: the
//! polynomials that the sum-check reductions run on.
use crate::error::FoldingError;
use crate::field::{fadd, fmul, Fr};
use crate::matrix::vals;
use crate::mle::{build_eq_table, eq_table, mle_at, mle_evaluate, MAX_VARS};
use vstd::arithmetic::power2::pow2;
use vstd::prelude::*;

verus! {

/// `coeff * prod_f MLE(f)`.
#[derive(Clone, Debug, PartialEq, Eq)]
pub struct Term {
    pub coeff: Fr,
    pub factors: Vec<Vec<Fr>>,
}

/// `sum_k terms[k]`, each factor a table over `num_vars` variables.
#[derive(Clone, Debug, PartialEq, Eq)]
pub struct VirtualPolynomial {
    pub num_vars: usize,
    pub terms: Vec<Term>,
}

/// A term as its coefficient and the values of its factors' tables.
pub open spec fn term_model(t: Term) -> (int, Seq<Seq<int>>) {
    (t.coeff.val(), t.factors@.map_values(|f: Vec<Fr>| vals(f@)))
}

/// `acc * prod_{f < k} MLE(factors[f])(pt)`.
pub open spec fn prod_at(acc: int, factors: Seq<Seq<int>>, pt: Seq<int>, k: int) -> int
    decreases k,
{
    if k <= 0 {
        acc
    } else {
        fmul(prod_at(acc, factors, pt, k - 1), mle_at(factors[k - 1], pt))
    }
}

/// `sum_{k' < k}` of the terms evaluated at `pt`.
pub open spec fn sum_at(terms: Seq<(int, Seq<Seq<int>>)>, pt: Seq<int>, k: int) -> int
    decreases k,
{
    if k <= 0 {
        0
    } else {
        fadd(sum_at(terms, pt, k - 1), prod_at(terms[k - 1].0, terms[k - 1].1, pt, terms[k - 1].1.len() as int))
    }
}

/// Every term scaled by `c`.
pub open spec fn scale_model(terms: Seq<(int, Seq<Seq<int>>)>, c: int) -> Seq<(int, Seq<Seq<int>>)> {
    terms.map_values(|t: (int, Seq<Seq<int>>)| (fmul(t.0, c), t.1))
}

/// Every term with one more factor.
pub open spec fn times_model(terms: Seq<(int, Seq<Seq<int>>)>, f: Seq<int>) -> Seq<(int, Seq<Seq<int>>)> {
    terms.map_values(|t: (int, Seq<Seq<int>>)| (t.0, t.1.push(f)))
}

impl VirtualPolynomial {
    /// The terms, with the values of their tables.
    pub open spec fn model(&self) -> Seq<(int, Seq<Seq<int>>)> {
        self.terms@.map_values(|t: Term| term_model(t))
    }

    /// Every table has `2^num_vars` entries.
    pub open spec fn wf(&self) -> bool {
        &&& self.num_vars <= MAX_VARS
        &&& forall|k: int, f: int|
            0 <= k < self.terms@.len() && 0 <= f < self.terms@[k].factors@.len() ==> (#[trigger] self.terms@[k].factors@[f])@.len()
                == pow2(self.num_vars as nat)
    }

    /// The polynomial evaluated at `pt`.
    pub open spec fn eval_at(&self, pt: Seq<Fr>) -> int {
        sum_at(self.model(), vals(pt), self.terms@.len() as int)
    }

    /// The zero polynomial.
    pub fn new(num_vars: usize) -> (r: VirtualPolynomial)
        requires
            num_vars <= MAX_VARS,
        ensures
            r.wf(),
            r.num_vars == num_vars,
            r.model() == Seq::<(int, Seq<Seq<int>>)>::empty(),
    {
        let r = VirtualPolynomial { num_vars, terms: Vec::new() };
        assert(r.model() =~= Seq::<(int, Seq<Seq<int>>)>::empty());
        r
    }

    /// `coeff * MLE(mle)`.
    pub fn new_from_mle(num_vars: usize, mle: Vec<Fr>, coeff: Fr) -> (r: VirtualPolynomial)
        requires
            num_vars <= MAX_VARS,
            mle@.len() == pow2(num_vars as nat),
        ensures
            r.wf(),
            r.num_vars == num_vars,
            r.model() == seq![(coeff.val(), seq![vals(mle@)])],
    {
        let ghost mv = vals(mle@);
        let mut factors: Vec<Vec<Fr>> = Vec::new();
        factors.push(mle);
        let mut terms: Vec<Term> = Vec::new();
        terms.push(Term { coeff, factors });
        let r = VirtualPolynomial { num_vars, terms };
        assert(r.terms@[0].factors@.map_values(|f: Vec<Fr>| vals(f@)) =~= seq![mv]);
        assert(r.model() =~= seq![(coeff.val(), seq![mv])]);
        r
    }

    /// The sum of two polynomials over the same variables: the terms of both.
    pub fn add(self, other: VirtualPolynomial) -> (r: VirtualPolynomial)
        requires
            self.wf(),
            other.wf(),
            self.num_vars == other.num_vars,
        ensures
            r.wf(),
            r.num_vars == self.num_vars,
            r.model() == self.model() + other.model(),
    {
        let mut terms = self.terms;
        let mut more = other.terms;
        let ghost a = terms@;
        let ghost b = more@;
        terms.append(&mut more);
        let r = VirtualPolynomial { num_vars: self.num_vars, terms };
        assert(r.terms@ == a + b);
        assert(r.model() =~= self.model() + other.model());
        r
    }

    /// Multiply every term's coefficient by `c`.
    pub fn scalar_mul(&mut self, c: &Fr)
        requires
            old(self).wf(),
        ensures
            final(self).wf(),
            final(self).num_vars == old(self).num_vars,
            final(self).model() == scale_model(old(self).model(), c.val()),
    {
        let mut rest: Vec<Term> = Vec::new();
        std::mem::swap(&mut self.terms, &mut rest);
        let ghost old_terms = rest@;
        let n = rest.len();
        let mut out: Vec<Term> = Vec::new();
        let mut k: usize = 0;
        while k < n
            invariant
                n == old_terms.len(),
                k <= n,
                rest@ == old_terms.subrange(k as int, n as int),
                out@.len() == k,
                forall|j: int| 0 <= j < k ==> (#[trigger] out@[j]).factors == old_terms[j].factors,
                forall|j: int| 0 <= j < k ==> (#[trigger] out@[j]).coeff.val() == fmul(old_terms[j].coeff.val(), c.val()),
            decreases n - k,
        {
            let t = rest.remove(0);
            assert(t == old_terms[k as int]);
            out.push(Term { coeff: t.coeff.mul(c), factors: t.factors });
            k += 1;
            assert(rest@ =~= old_terms.subrange(k as int, n as int));
        }
        self.terms = out;
        assert(self.model() =~= scale_model(old(self).model(), c.val()));
    }

    /// Multiply every term by `MLE(mle)`.
    pub fn mul_by_mle(&mut self, mle: &Vec<Fr>)
        requires
            old(self).wf(),
            mle@.len() == pow2(old(self).num_vars as nat),
        ensures
            final(self).wf(),
            final(self).num_vars == old(self).num_vars,
            final(self).model() == times_model(old(self).model(), vals(mle@)),
    {
        let mut rest: Vec<Term> = Vec::new();
        std::mem::swap(&mut self.terms, &mut rest);
        let ghost old_terms = rest@;
        let n = rest.len();
        let mut out: Vec<Term> = Vec::new();
        let mut k: usize = 0;
        while k < n
            invariant
                n == old_terms.len(),
                k <= n,
                rest@ == old_terms.subrange(k as int, n as int),
                out@.len() == k,
                forall|j: int| 0 <= j < k ==> (#[trigger] out@[j]).coeff == old_terms[j].coeff,
                forall|j: int| 0 <= j < k ==> (#[trigger] out@[j]).factors@ == old_terms[j].factors@.push(
                    out@[j].factors@.last(),
                ),
                forall|j: int| 0 <= j < k ==> (#[trigger] out@[j]).factors@.last()@ == mle@,
            decreases n - k,
        {
            let t = rest.remove(0);
            assert(t == old_terms[k as int]);
            let mut factors = t.factors;
            factors.push(crate::ccs::copy_vec(mle));
            out.push(Term { coeff: t.coeff, factors });
            k += 1;
            assert(rest@ =~= old_terms.subrange(k as int, n as int));
        }
        self.terms = out;
        assert forall|j: int| 0 <= j < n implies term_model(#[trigger] self.terms@[j]) == (
            term_model(old_terms[j]).0,
            term_model(old_terms[j]).1.push(vals(mle@)),
        ) by {
            assert(term_model(self.terms@[j]).1 =~= term_model(old_terms[j]).1.push(vals(mle@)));
        }
        assert(self.model() =~= times_model(old(self).model(), vals(mle@)));
    }

    /// Multiply every term by `eq(point, .)`.
    pub fn build_f_hat(&self, point: &Vec<Fr>) -> (r: Result<VirtualPolynomial, FoldingError>)
        requires
            self.wf(),
        ensures
            point@.len() != self.num_vars <==> r == Err::<VirtualPolynomial, FoldingError>(
                FoldingError::DimensionMismatch,
            ),
            r is Ok ==> {
                let p = r->Ok_0;
                &&& p.wf()
                &&& p.num_vars == self.num_vars
                &&& p.model() == times_model(self.model(), eq_table(vals(point@), point@.len() as nat))
            },
    {
        if point.len() != self.num_vars {
            return Err(FoldingError::DimensionMismatch);
        }
        let eq = build_eq_table(point);
        let mut p = self.duplicate();
        p.mul_by_mle(&eq);
        Ok(p)
    }

    /// A copy of this polynomial.
    pub fn duplicate(&self) -> (r: VirtualPolynomial)
        requires
            self.wf(),
        ensures
            r.wf(),
            r.num_vars == self.num_vars,
            r.model() == self.model(),
    {
        let mut terms: Vec<Term> = Vec::new();
        let mut k: usize = 0;
        while k < self.terms.len()
            invariant
                self.wf(),
                k <= self.terms@.len(),
                terms@.len() == k,
                forall|j: int| 0 <= j < k ==> term_model(#[trigger] terms@[j]) == term_model(self.terms@[j]),
                forall|j: int, f: int|
                    0 <= j < k && 0 <= f < terms@[j].factors@.len() ==> (#[trigger] terms@[j].factors@[f])@.len()
                        == pow2(self.num_vars as nat),
            decreases self.terms@.len() - k,
        {
            let t = &self.terms[k];
            let mut factors: Vec<Vec<Fr>> = Vec::new();
            let mut f: usize = 0;
            while f < t.factors.len()
                invariant
                    self.wf(),
                    k < self.terms@.len(),
                    t == &self.terms@[k as int],
                    f <= t.factors@.len(),
                    factors@.len() == f,
                    forall|i: int| 0 <= i < f ==> (#[trigger] factors@[i])@ == t.factors@[i]@,
                decreases t.factors@.len() - f,
            {
                factors.push(crate::ccs::copy_vec(&t.factors[f]));
                f += 1;
            }
            let nt = Term { coeff: t.coeff, factors };
            assert(term_model(nt).1 =~= term_model(*t).1);
            terms.push(nt);
            k += 1;
        }
        let r = VirtualPolynomial { num_vars: self.num_vars, terms };
        assert(r.model() =~= self.model());
        r
    }

    /// The polynomial evaluated at `point`.
    pub fn evaluate(&self, point: &Vec<Fr>) -> (r: Result<Fr, FoldingError>)
        requires
            self.wf(),
        ensures
            point@.len() != self.num_vars <==> r == Err::<Fr, FoldingError>(FoldingError::DimensionMismatch),
            r is Ok ==> r->Ok_0.val() == self.eval_at(point@),
    {
        if point.len() != self.num_vars {
            return Err(FoldingError::DimensionMismatch);
        }
        let mut acc = Fr::zero();
        let mut k: usize = 0;
        while k < self.terms.len()
            invariant
                self.wf(),
                point@.len() == self.num_vars,
                k <= self.terms@.len(),
                acc.val() == sum_at(self.model(), vals(point@), k as int),
            decreases self.terms@.len() - k,
        {
            let t = &self.terms[k];
            let mut prod = t.coeff;
            let mut f: usize = 0;
            while f < t.factors.len()
                invariant
                    self.wf(),
                    point@.len() == self.num_vars,
                    k < self.terms@.len(),
                    t == &self.terms@[k as int],
                    f <= t.factors@.len(),
                    prod.val() == prod_at(t.coeff.val(), term_model(*t).1, vals(point@), f as int),
                decreases t.factors@.len() - f,
            {
                assert(term_model(*t).1[f as int] == vals(t.factors@[f as int]@));
                prod = prod.mul(&mle_evaluate(&t.factors[f], point));
                f += 1;
            }
            assert(self.model()[k as int] == term_model(*t));
            acc = acc.add(&prod);
            k += 1;
        }
        Ok(acc)
    }
}

} // verus!
