//! Dense vectors and matrices over the field.
use crate::error::FoldingError;
use crate::field::{fadd, fmul, Fr};
use vstd::prelude::*;

verus! {

/// A matrix, as a list of rows.
pub type Matrix = Vec<Vec<Fr>>;

/// The values of a vector of field elements.
pub open spec fn vals(s: Seq<Fr>) -> Seq<int> {
    s.map_values(|x: Fr| x.val())
}

/// `sum_{c < k} a[c] * b[c]`, accumulated left to right.
pub open spec fn dot(a: Seq<Fr>, b: Seq<Fr>, k: int) -> int
    decreases k,
{
    if k <= 0 {
        0
    } else {
        fadd(dot(a, b, k - 1), fmul(a[k - 1].val(), b[k - 1].val()))
    }
}

/// Two matrices with the same number of rows, row for row of the same length.
pub open spec fn same_shape(a: Seq<Vec<Fr>>, b: Seq<Vec<Fr>>) -> bool {
    a.len() == b.len() && forall|i: int| 0 <= i < a.len() ==> (#[trigger] a[i])@.len() == b[i]@.len()
}

/// Every row of `m` has length `k`.
pub open spec fn rows_of_len(m: Seq<Vec<Fr>>, k: int) -> bool {
    forall|i: int| 0 <= i < m.len() ==> (#[trigger] m[i])@.len() == k
}

/// Entry-wise product of two vectors of equal length.
pub fn hadamard(a: &Vec<Fr>, b: &Vec<Fr>) -> (r: Result<Vec<Fr>, FoldingError>)
    ensures
        a@.len() != b@.len() <==> r == Err::<Vec<Fr>, FoldingError>(FoldingError::DimensionMismatch),
        a@.len() == b@.len() <==> r is Ok,
        r is Ok ==> {
            let v = r->Ok_0@;
            &&& v.len() == a@.len()
            &&& forall|i: int| 0 <= i < v.len() ==> #[trigger] v[i].val() == fmul(a@[i].val(), b@[i].val())
        },
{
    if a.len() != b.len() {
        return Err(FoldingError::DimensionMismatch);
    }
    let mut out: Vec<Fr> = Vec::new();
    let mut i: usize = 0;
    while i < a.len()
        invariant
            a@.len() == b@.len(),
            i <= a@.len(),
            out@.len() == i,
            forall|k: int| 0 <= k < i ==> #[trigger] out@[k].val() == fmul(a@[k].val(), b@[k].val()),
        decreases a@.len() - i,
    {
        out.push(a[i].mul(&b[i]));
        i += 1;
    }
    Ok(out)
}

/// Entry-wise sum of two vectors of equal length.
pub fn vec_add(a: &Vec<Fr>, b: &Vec<Fr>) -> (r: Result<Vec<Fr>, FoldingError>)
    ensures
        a@.len() != b@.len() <==> r == Err::<Vec<Fr>, FoldingError>(FoldingError::DimensionMismatch),
        a@.len() == b@.len() <==> r is Ok,
        r is Ok ==> {
            let v = r->Ok_0@;
            &&& v.len() == a@.len()
            &&& forall|i: int| 0 <= i < v.len() ==> #[trigger] v[i].val() == fadd(a@[i].val(), b@[i].val())
        },
{
    if a.len() != b.len() {
        return Err(FoldingError::DimensionMismatch);
    }
    let mut out: Vec<Fr> = Vec::new();
    let mut i: usize = 0;
    while i < a.len()
        invariant
            a@.len() == b@.len(),
            i <= a@.len(),
            out@.len() == i,
            forall|k: int| 0 <= k < i ==> #[trigger] out@[k].val() == fadd(a@[k].val(), b@[k].val()),
        decreases a@.len() - i,
    {
        out.push(a[i].add(&b[i]));
        i += 1;
    }
    Ok(out)
}

/// Every entry of a vector times a scalar.
pub fn vec_scalar_mul(v: &Vec<Fr>, c: &Fr) -> (r: Vec<Fr>)
    ensures
        r@.len() == v@.len(),
        forall|i: int| 0 <= i < v@.len() ==> #[trigger] r@[i].val() == fmul(v@[i].val(), c.val()),
{
    let mut out: Vec<Fr> = Vec::new();
    let mut i: usize = 0;
    while i < v.len()
        invariant
            i <= v@.len(),
            out@.len() == i,
            forall|k: int| 0 <= k < i ==> #[trigger] out@[k].val() == fmul(v@[k].val(), c.val()),
        decreases v@.len() - i,
    {
        out.push(v[i].mul(c));
        i += 1;
    }
    out
}

/// Entry-wise sum of two matrices of the same shape.
pub fn mat_add(a: &Matrix, b: &Matrix) -> (r: Result<Matrix, FoldingError>)
    ensures
        !same_shape(a@, b@) <==> r == Err::<Matrix, FoldingError>(FoldingError::DimensionMismatch),
        same_shape(a@, b@) <==> r is Ok,
        r is Ok ==> {
            let m = r->Ok_0@;
            &&& same_shape(m, a@)
            &&& forall|i: int, j: int|
                0 <= i < m.len() && 0 <= j < m[i]@.len() ==> #[trigger] m[i]@[j].val() == fadd(
                    a@[i]@[j].val(),
                    b@[i]@[j].val(),
                )
        },
{
    if a.len() != b.len() {
        return Err(FoldingError::DimensionMismatch);
    }
    let mut out: Matrix = Vec::new();
    let mut i: usize = 0;
    while i < a.len()
        invariant
            a@.len() == b@.len(),
            i <= a@.len(),
            out@.len() == i,
            forall|k: int| 0 <= k < i ==> (#[trigger] a@[k])@.len() == b@[k]@.len(),
            forall|k: int| 0 <= k < i ==> (#[trigger] out@[k])@.len() == a@[k]@.len(),
            forall|k: int, j: int|
                0 <= k < i && 0 <= j < out@[k]@.len() ==> #[trigger] out@[k]@[j].val() == fadd(
                    a@[k]@[j].val(),
                    b@[k]@[j].val(),
                ),
        decreases a@.len() - i,
    {
        if a[i].len() != b[i].len() {
            return Err(FoldingError::DimensionMismatch);
        }
        match vec_add(&a[i], &b[i]) {
            Ok(row) => out.push(row),
            Err(e) => {
                return Err(e);
            },
        }
        i += 1;
    }
    Ok(out)
}

/// Every entry of a matrix times a scalar.
pub fn mat_scalar_mul(m: &Matrix, c: &Fr) -> (r: Matrix)
    ensures
        same_shape(r@, m@),
        forall|i: int, j: int|
            0 <= i < r@.len() && 0 <= j < r@[i]@.len() ==> #[trigger] r@[i]@[j].val() == fmul(
                m@[i]@[j].val(),
                c.val(),
            ),
{
    let mut out: Matrix = Vec::new();
    let mut i: usize = 0;
    while i < m.len()
        invariant
            i <= m@.len(),
            out@.len() == i,
            forall|k: int| 0 <= k < i ==> (#[trigger] out@[k])@.len() == m@[k]@.len(),
            forall|k: int, j: int|
                0 <= k < i && 0 <= j < out@[k]@.len() ==> #[trigger] out@[k]@[j].val() == fmul(
                    m@[k]@[j].val(),
                    c.val(),
                ),
        decreases m@.len() - i,
    {
        out.push(vec_scalar_mul(&m[i], c));
        i += 1;
    }
    out
}

/// `sum_c row[c] * v[c]`, for a row as long as `v`.
pub fn row_dot(row: &Vec<Fr>, v: &Vec<Fr>) -> (r: Fr)
    requires
        row@.len() == v@.len(),
    ensures
        r.val() == dot(row@, v@, v@.len() as int),
{
    let mut acc = Fr::zero();
    let mut c: usize = 0;
    while c < v.len()
        invariant
            row@.len() == v@.len(),
            c <= v@.len(),
            acc.val() == dot(row@, v@, c as int),
        decreases v@.len() - c,
    {
        acc = acc.add(&row[c].mul(&v[c]));
        c += 1;
    }
    acc
}

/// The product of a matrix and a vector; every row must be as long as the vector.
pub fn mat_vec_mul(m: &Matrix, v: &Vec<Fr>) -> (r: Result<Vec<Fr>, FoldingError>)
    ensures
        !rows_of_len(m@, v@.len() as int) <==> r == Err::<Vec<Fr>, FoldingError>(
            FoldingError::DimensionMismatch,
        ),
        rows_of_len(m@, v@.len() as int) <==> r is Ok,
        r is Ok ==> {
            let out = r->Ok_0@;
            &&& out.len() == m@.len()
            &&& forall|i: int| 0 <= i < out.len() ==> #[trigger] out[i].val() == dot(m@[i]@, v@, v@.len() as int)
        },
{
    let mut out: Vec<Fr> = Vec::new();
    let mut i: usize = 0;
    while i < m.len()
        invariant
            i <= m@.len(),
            out@.len() == i,
            rows_of_len(m@.subrange(0, i as int), v@.len() as int),
            forall|k: int| 0 <= k < i ==> #[trigger] out@[k].val() == dot(m@[k]@, v@, v@.len() as int),
        decreases m@.len() - i,
    {
        if m[i].len() != v.len() {
            return Err(FoldingError::DimensionMismatch);
        }
        out.push(row_dot(&m[i], v));
        i += 1;
        assert(rows_of_len(m@.subrange(0, i as int), v@.len() as int)) by {
            assert forall|k: int| 0 <= k < i implies (#[trigger] m@.subrange(0, i as int)[k])@.len() == v@.len() by {
                if k < i - 1 {
                    assert(m@.subrange(0, i as int)[k] == m@.subrange(0, i - 1)[k]);
                }
            }
        }
    }
    assert(m@.subrange(0, m@.len() as int) =~= m@);
    Ok(out)
}

/// Field elements from small integers, entry by entry.
pub fn to_F_vec(z: Vec<usize>) -> (r: Vec<Fr>)
    ensures
        r@.len() == z@.len(),
        forall|i: int| 0 <= i < z@.len() ==> #[trigger] r@[i].val() == z@[i] as int,
{
    let mut out: Vec<Fr> = Vec::new();
    let mut i: usize = 0;
    while i < z.len()
        invariant
            i <= z@.len(),
            out@.len() == i,
            forall|k: int| 0 <= k < i ==> #[trigger] out@[k].val() == z@[k] as int,
        decreases z@.len() - i,
    {
        out.push(Fr::from_u64(z[i] as u64));
        i += 1;
    }
    out
}

/// A matrix of field elements from a matrix of small integers.
pub fn to_F_matrix(m: Vec<Vec<usize>>) -> (r: Matrix)
    ensures
        r@.len() == m@.len(),
        forall|i: int| 0 <= i < m@.len() ==> (#[trigger] r@[i])@.len() == m@[i]@.len(),
        forall|i: int, j: int|
            0 <= i < m@.len() && 0 <= j < m@[i]@.len() ==> #[trigger] r@[i]@[j].val() == m@[i]@[j] as int,
{
    let mut out: Matrix = Vec::new();
    let mut i: usize = 0;
    while i < m.len()
        invariant
            i <= m@.len(),
            out@.len() == i,
            forall|k: int| 0 <= k < i ==> (#[trigger] out@[k])@.len() == m@[k]@.len(),
            forall|k: int, j: int|
                0 <= k < i && 0 <= j < m@[k]@.len() ==> #[trigger] out@[k]@[j].val() == m@[k]@[j] as int,
        decreases m@.len() - i,
    {
        out.push(to_F_vec(m[i].clone()));
        i += 1;
    }
    out
}

/// Equality of two vectors of field elements.
pub fn vals_eq(a: &Vec<Fr>, b: &Vec<Fr>) -> (r: bool)
    ensures
        r == (vals(a@) == vals(b@)),
{
    if a.len() != b.len() {
        assert(vals(a@).len() != vals(b@).len());
        return false;
    }
    let mut i: usize = 0;
    while i < a.len()
        invariant
            a@.len() == b@.len(),
            i <= a@.len(),
            forall|k: int| 0 <= k < i ==> #[trigger] a@[k].val() == b@[k].val(),
        decreases a@.len() - i,
    {
        if !a[i].equals(&b[i]) {
            assert(vals(a@)[i as int] != vals(b@)[i as int]);
            return false;
        }
        i += 1;
    }
    assert(vals(a@) =~= vals(b@));
    true
}

} // verus!
