use ccs_folding::error::FoldingError;
use ccs_folding::field::Fr;
use ccs_folding::poly::VirtualPolynomial;
use ccs_folding::matrix::{
    hadamard, mat_add, mat_scalar_mul, mat_vec_mul, to_F_matrix, to_F_vec, vec_add, vec_scalar_mul,
};

fn f(n: u64) -> Fr {
    Fr::from_u64(n)
}

fn fv(v: &[u64]) -> Vec<Fr> {
    v.iter().map(|x| f(*x)).collect()
}

#[test]
fn test_hadamard() {
    let a = fv(&[1, 2, 3, 4, 5, 6]);
    let b = fv(&[6, 5, 4, 3, 2, 1]);
    let c = hadamard(&a, &b).unwrap();
    assert_eq!(c, fv(&[6, 10, 12, 12, 10, 6]));
}

#[test]
fn test_mat_vec_mul() {
    let a = vec![fv(&[2, 3, 4]), fv(&[4, 11, 14]), fv(&[2, 8, 17])];
    let v = fv(&[19, 55, 50]);
    let result = mat_vec_mul(&a, &v).unwrap();
    assert_eq!(result, fv(&[403, 1381, 1328]));
    assert_eq!(vec_scalar_mul(&result, &f(2)), fv(&[806, 2762, 2656]));
}

#[test]
fn test_mat_scalar_mul() {
    let a = vec![fv(&[2, 3, 4]), fv(&[4, 11, 14]), fv(&[2, 8, 17])];
    let result = mat_scalar_mul(&a, &f(3));
    assert_eq!(
        result,
        vec![fv(&[6, 9, 12]), fv(&[12, 33, 42]), fv(&[6, 24, 51])]
    );
}

#[test]
fn test_mat_add() {
    let a1 = vec![fv(&[2, 3, 4]), fv(&[4, 11, 14]), fv(&[2, 8, 17])];
    let a2 = vec![fv(&[4, 3, 2]), fv(&[14, 11, 4]), fv(&[17, 8, 2])];
    let result = mat_add(&a1, &a2).unwrap();
    assert_eq!(
        result,
        vec![fv(&[6, 6, 6]), fv(&[18, 22, 18]), fv(&[19, 16, 19])]
    );
}

#[test]
fn dimension_mismatch_is_reported() {
    let a = fv(&[1, 2, 3]);
    let b = fv(&[1, 2]);
    assert_eq!(hadamard(&a, &b), Err(FoldingError::DimensionMismatch));
    assert_eq!(vec_add(&a, &b), Err(FoldingError::DimensionMismatch));
    let m = vec![fv(&[1, 2]), fv(&[3, 4])];
    assert_eq!(mat_vec_mul(&m, &a), Err(FoldingError::DimensionMismatch));
    let m3 = vec![fv(&[1, 2]), fv(&[3, 4]), fv(&[5, 6])];
    assert_eq!(mat_add(&m, &m3), Err(FoldingError::DimensionMismatch));
}

#[test]
fn conversions_from_integers() {
    let m = to_F_matrix(vec![vec![0, 1], vec![5, 7]]);
    assert_eq!(m, vec![fv(&[0, 1]), fv(&[5, 7])]);
    assert_eq!(to_F_vec(vec![3, 9]), fv(&[3, 9]));
}

#[test]
fn field_arithmetic_wraps_at_the_modulus() {
    // p - 1, written in limbs
    let minus_one = Fr::zero().sub(&Fr::one());
    assert_eq!(minus_one.add(&Fr::one()), Fr::zero());
    assert_eq!(minus_one.mul(&minus_one), Fr::one());
    assert_eq!(f(3).pow(4), f(81));
    let limbs = minus_one.to_limbs();
    assert_eq!(Fr::from_limbs(limbs), minus_one);
    assert_eq!(limbs[0], 0xffff_ffff_0000_0000);
}

#[test]
fn polynomial_operations() {
    // p(x0, x1) = 2 * MLE([1, 2, 3, 4])
    let mut p = VirtualPolynomial::new_from_mle(2, fv(&[1, 2, 3, 4]), f(2));
    let at = |p: &VirtualPolynomial, a: u64, b: u64| p.evaluate(&vec![f(a), f(b)]).unwrap();
    assert_eq!(at(&p, 1, 0), f(4));
    assert_eq!(at(&p, 0, 1), f(6));
    p.scalar_mul(&f(3));
    assert_eq!(at(&p, 1, 1), f(24));
    p.mul_by_mle(&fv(&[1, 1, 1, 2]));
    assert_eq!(at(&p, 1, 1), f(48));
    let q = VirtualPolynomial::new_from_mle(2, fv(&[5, 5, 5, 5]), f(1));
    let sum = p.add(q);
    assert_eq!(at(&sum, 0, 0), f(11));
    // eq((1, 0), .) keeps only the point (1, 0)
    let hat = sum.build_f_hat(&vec![f(1), f(0)]).unwrap();
    assert_eq!(at(&hat, 1, 0), f(6 * 2 + 5));
    assert_eq!(at(&hat, 0, 1), Fr::zero());
    // between the points, the extension interpolates: MLE([1, 2, 3, 4]) at (2, 0) is 3
    let r = VirtualPolynomial::new_from_mle(2, fv(&[1, 2, 3, 4]), f(1));
    assert_eq!(at(&r, 2, 0), f(3));
    assert_eq!(r.evaluate(&vec![f(1)]), Err(FoldingError::DimensionMismatch));
}
