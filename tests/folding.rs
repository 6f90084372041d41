use ark_ff::PrimeField;
use ark_serialize::CanonicalSerialize;
use ark_std::rand::Rng;
use ark_std::{test_rng, UniformRand};
use ccs_folding::ccs::{compute_sum_Mz, CCS};
use ccs_folding::commitment::Params;
use ccs_folding::construction::{compute_sum_eqM, fix_row_variables};
use ccs_folding::error::FoldingError;
use ccs_folding::field::Fr;
use ccs_folding::folding::{Challenges, Genericfolding, SumCheckClaim};
use ccs_folding::instance::{Witness, ACCS, CCCS};
use ccs_folding::matrix::{to_F_matrix, to_F_vec};
use ccs_folding::mle::{eq_eval, hypercube_point};
use ccs_folding::poly::VirtualPolynomial;

type NIMFS = Genericfolding;

fn rand_fr<R: Rng>(rng: &mut R) -> Fr {
    let x = ark_bls12_381::Fr::rand(rng);
    Fr::from_limbs(x.into_bigint().0)
}

fn rand_vec<R: Rng>(rng: &mut R, n: usize) -> Vec<Fr> {
    (0..n).map(|_| rand_fr(rng)).collect()
}

fn point_bytes(p: ark_bls12_381::G1Projective) -> Vec<u8> {
    let mut out = Vec::new();
    p.serialize_compressed(&mut out).unwrap();
    out
}

fn new_params<R: Rng>(rng: &mut R, n: usize) -> Params {
    let generators = (0..n)
        .map(|_| point_bytes(ark_bls12_381::G1Projective::rand(rng)))
        .collect();
    Params {
        h: point_bytes(ark_bls12_381::G1Projective::rand(rng)),
        generators,
    }
}

/// R1CS of `x^3 + x + k = y` as a CCS: `(A z) o (B z) - (C z) = 0`.
fn get_test_ccs(k: usize) -> CCS {
    let a = to_F_matrix(vec![
        vec![0, 1, 0, 0, 0, 0],
        vec![0, 0, 0, 1, 0, 0],
        vec![0, 1, 0, 0, 1, 0],
        vec![k, 0, 0, 0, 0, 1],
    ]);
    let b = to_F_matrix(vec![
        vec![0, 1, 0, 0, 0, 0],
        vec![0, 1, 0, 0, 0, 0],
        vec![1, 0, 0, 0, 0, 0],
        vec![1, 0, 0, 0, 0, 0],
    ]);
    let c = to_F_matrix(vec![
        vec![0, 0, 0, 1, 0, 0],
        vec![0, 0, 0, 0, 1, 0],
        vec![0, 0, 0, 0, 0, 1],
        vec![0, 0, 1, 0, 0, 0],
    ]);
    CCS {
        m: 6,
        n: 4,
        l: 1,
        t: 3,
        q: 2,
        d: 2,
        s: 2,
        s_prime: 3,
        M: vec![a, b, c],
        S: vec![vec![0, 1], vec![2]],
        c: vec![Fr::one(), Fr::zero().sub(&Fr::one())],
    }
}

/// `z = (1, x, y, x^2, x^3, x^3 + x)` with `y = x^3 + x + k`.
fn get_test_z(input: usize, k: usize) -> Vec<Fr> {
    to_F_vec(vec![
        1,
        input,
        input * input * input + input + k,
        input * input,
        input * input * input,
        input * input * input + input,
    ])
}

fn hypercube(k: usize) -> Vec<Vec<Fr>> {
    (0..(1usize << k)).map(|i| hypercube_point(i, k)).collect()
}

fn sum_over_hypercube(p: &VirtualPolynomial, k: usize) -> Fr {
    hypercube(k)
        .iter()
        .fold(Fr::zero(), |acc, x| acc.add(&p.evaluate(x).unwrap()))
}

fn collect_mle(k: usize, table: Vec<Fr>, point: &Vec<Fr>) -> Fr {
    VirtualPolynomial::new_from_mle(k, table, Fr::one())
        .evaluate(point)
        .unwrap()
}

struct TestInstances {
    accs_instances: Vec<ACCS>,
    cccs_instances: Vec<CCCS>,
    z_accs: Vec<Vec<Fr>>,
    z_cccs: Vec<Vec<Fr>>,
    w_accs: Vec<Witness>,
    w_cccs: Vec<Witness>,
    gamma: Fr,
    delta: Fr,
    alpha: Vec<Fr>,
    r_x_prime: Vec<Fr>,
    r_y_prime: Vec<Fr>,
    pedersen_params: Params,
}

fn get_mu_nu_test_instances(mu: usize, nu: usize) -> TestInstances {
    let mut rng = test_rng();
    let mut ccs_a = Vec::new();
    let mut z_accs = Vec::new();
    for i in 0..mu {
        ccs_a.push(get_test_ccs(i));
        let z = get_test_z(i + 3, i);
        ccs_a[i].check_relation(&z).unwrap();
        z_accs.push(z);
    }
    let mut ccs_c = Vec::new();
    let mut z_cccs = Vec::new();
    for i in 0..nu {
        ccs_c.push(get_test_ccs(i));
        let z = get_test_z(nu + i + 3, i);
        ccs_c[i].check_relation(&z).unwrap();
        z_cccs.push(z);
    }
    let pedersen_params = new_params(&mut rng, ccs_a[0].m - ccs_a[0].l - 1);
    let s = ccs_a[0].s;
    let s_prime = ccs_a[0].s_prime;
    let mut accs_instances = Vec::new();
    let mut w_accs = Vec::new();
    for i in 0..mu {
        let r_w = rand_fr(&mut rng);
        let r_x = rand_vec(&mut rng, s);
        let r_y = rand_vec(&mut rng, s_prime);
        let (inst, w) = ccs_a[i]
            .to_accs(&pedersen_params, &z_accs[i], r_w, &r_x, &r_y)
            .unwrap();
        accs_instances.push(inst);
        w_accs.push(w);
    }
    let mut cccs_instances = Vec::new();
    let mut w_cccs = Vec::new();
    for i in 0..nu {
        let r_w = rand_fr(&mut rng);
        let (inst, w) = ccs_c[i].to_cccs(&pedersen_params, &z_cccs[i], r_w).unwrap();
        cccs_instances.push(inst);
        w_cccs.push(w);
    }
    TestInstances {
        accs_instances,
        cccs_instances,
        z_accs,
        z_cccs,
        w_accs,
        w_cccs,
        gamma: rand_fr(&mut rng),
        delta: rand_fr(&mut rng),
        alpha: rand_vec(&mut rng, s),
        r_x_prime: rand_vec(&mut rng, s),
        r_y_prime: rand_vec(&mut rng, s_prime),
        pedersen_params,
    }
}

/// One folding step run end to end: the sum-check verifiers' conclusions are the
/// folding polynomials' values at the drawn points.
fn run_step<R: Rng>(
    rng: &mut R,
    running: &Vec<ACCS>,
    new: &Vec<CCCS>,
    w_accs: &Vec<Witness>,
    w_cccs: &Vec<Witness>,
) -> (ACCS, ACCS, Witness) {
    let s = running[0].ccs.s;
    let s_prime = running[0].ccs.s_prime;
    let challenges = Challenges {
        gamma: rand_fr(rng),
        alpha: rand_vec(rng, s),
        delta: rand_fr(rng),
        rho: rand_fr(rng),
    };
    let r_x_prime = rand_vec(rng, s);
    let r_y_prime = rand_vec(rng, s_prime);
    let (proof, folded, folded_w) =
        NIMFS::prove(running, new, w_accs, w_cccs, &challenges, &r_x_prime, &r_y_prime).unwrap();

    let z_cccs: Vec<Vec<Fr>> = new
        .iter()
        .zip(w_cccs)
        .map(|(c, w)| [vec![Fr::one()], c.x.clone(), w.w.clone()].concat())
        .collect();
    let z_accs: Vec<Vec<Fr>> = running
        .iter()
        .zip(w_accs)
        .map(|(a, w)| [vec![a.u], a.x.clone(), w.w.clone()].concat())
        .collect();
    let f = NIMFS::compute_fx(running, new, &z_cccs, challenges.gamma, &challenges.alpha).unwrap();
    let g = NIMFS::compute_gy(running, new, &z_accs, &z_cccs, challenges.delta, &r_x_prime);
    let claim_x = SumCheckClaim {
        point: r_x_prime.clone(),
        expected_evaluation: f.evaluate(&r_x_prime).unwrap(),
    };
    let claim_y = SumCheckClaim {
        point: r_y_prime.clone(),
        expected_evaluation: g.evaluate(&r_y_prime).unwrap(),
    };
    let folded_v = NIMFS::verify(running, new, &proof, &challenges, &claim_x, &claim_y).unwrap();
    (folded, folded_v, folded_w)
}

#[test]
fn test_accs_v_j() {
    let mut rng = test_rng();
    let ccs = get_test_ccs(5);
    let z = get_test_z(3, 5);
    ccs.check_relation(&z).unwrap();
    let params = new_params(&mut rng, ccs.m - ccs.l - 1);
    let r_x = rand_vec(&mut rng, ccs.s);
    let r_y = rand_vec(&mut rng, ccs.s_prime);
    let (accs, _) = ccs.to_accs(&params, &z, rand_fr(&mut rng), &r_x, &r_y).unwrap();
    // matrices A, B, C and z
    assert_eq!(accs.v.len(), 4);
    let vec_l = accs.compute_Ls();
    for (v_j, l_j) in accs.v.iter().zip(vec_l.iter()) {
        assert_eq!(*v_j, sum_over_hypercube(l_j, ccs.s));
    }
}

#[test]
fn accs_test_bad_v_j() {
    let mut rng = test_rng();
    let ccs = get_test_ccs(5);
    let z = get_test_z(3, 5);
    ccs.check_relation(&z).unwrap();
    let mut bad_z = z.clone();
    bad_z[3] = Fr::zero();
    assert!(ccs.check_relation(&bad_z).is_err());
    let params = new_params(&mut rng, ccs.m - ccs.l - 1);
    let r_x = rand_vec(&mut rng, ccs.s);
    let r_y = rand_vec(&mut rng, ccs.s_prime);
    let (accs, w) = ccs.to_accs(&params, &z, rand_fr(&mut rng), &r_x, &r_y).unwrap();
    assert_eq!(accs.v.len(), ccs.t + 1);
    let vec_l = accs.compute_Ls();
    assert_eq!(vec_l.len(), accs.v.len() - 1);
    // the claimed values no longer match a witness taken from the bad assignment
    let bad_w = Witness { w: bad_z[(1 + ccs.l)..].to_vec(), r_w: w.r_w };
    assert!(accs.check_relation(&params, &bad_w).is_err());
}

#[test]
fn test_compute_q() {
    let mut rng = test_rng();
    let ccs = get_test_ccs(5);
    let z = get_test_z(3, 5);
    let params = new_params(&mut rng, ccs.m - ccs.l - 1);
    let (cccs, _) = ccs.to_cccs(&params, &z, rand_fr(&mut rng)).unwrap();
    let q = cccs.compute_q(&z);
    for x in hypercube(ccs.s) {
        assert_eq!(Fr::zero(), q.evaluate(&x).unwrap());
    }
    let beta = rand_vec(&mut rng, ccs.s);
    assert_ne!(Fr::zero(), q.evaluate(&beta).unwrap());
}

#[test]
fn test_compute_Q() {
    let mut rng = test_rng();
    let ccs = get_test_ccs(5);
    let z = get_test_z(3, 5);
    ccs.check_relation(&z).unwrap();
    let params = new_params(&mut rng, ccs.m - ccs.l - 1);
    let (cccs, _) = ccs.to_cccs(&params, &z, rand_fr(&mut rng)).unwrap();
    let beta = rand_vec(&mut rng, ccs.s);
    let big_q = cccs.compute_Q(&z, &beta).unwrap();
    assert_eq!(sum_over_hypercube(&big_q, ccs.s), Fr::zero());
}

#[test]
fn test_Q_against_q() {
    let mut rng = test_rng();
    let ccs = get_test_ccs(5);
    let z = get_test_z(3, 5);
    ccs.check_relation(&z).unwrap();
    let params = new_params(&mut rng, ccs.m - ccs.l - 1);
    let (cccs, _) = ccs.to_cccs(&params, &z, rand_fr(&mut rng)).unwrap();
    let q = cccs.compute_q(&z);
    for d in hypercube(ccs.s) {
        let q_at_d = cccs.compute_Q(&z, &d).unwrap();
        assert_eq!(sum_over_hypercube(&q_at_d, ccs.s), q.evaluate(&d).unwrap());
    }
    let r = rand_vec(&mut rng, ccs.s);
    let q_at_r = cccs.compute_Q(&z, &r).unwrap();
    assert_ne!(sum_over_hypercube(&q_at_r, ccs.s), q.evaluate(&r).unwrap());
}

#[test]
fn test_compute_sum_Mz_over_boolean_hypercube() {
    let ccs = get_test_ccs(5);
    let z = get_test_z(3, 5);
    ccs.check_relation(&z).unwrap();
    for x in hypercube(ccs.s) {
        let mut r = Fr::zero();
        for i in 0..ccs.q {
            let mut prod = Fr::one();
            for j in ccs.S[i].clone() {
                let table = compute_sum_Mz(&ccs.M[j], &z, ccs.s);
                prod = prod.mul(&collect_mle(ccs.s, table, &x));
            }
            r = r.add(&prod.mul(&ccs.c[i]));
        }
        assert_eq!(r, Fr::zero());
    }
}

#[test]
fn test_compute_sum_eqM_over_boolean_hypercube() {
    let mut rng = test_rng();
    let ccs = get_test_ccs(5);
    let r_y = rand_vec(&mut rng, ccs.s_prime);
    for m_j in ccs.M.iter() {
        let sum_meq = compute_sum_eqM(m_j, &r_y, ccs.s);
        for (x, row) in m_j.iter().enumerate() {
            let mut expected = Fr::zero();
            for (y, point) in hypercube(ccs.s_prime).iter().enumerate() {
                let entry = if y < row.len() { row[y] } else { Fr::zero() };
                expected = expected.add(&eq_eval(&r_y, point).mul(&entry));
            }
            assert_eq!(sum_meq[x], expected);
        }
    }
}

#[test]
fn test_compute_M_r_y_compression() {
    let mut rng = test_rng();
    let ccs = get_test_ccs(5);
    let m = ccs.M[0].clone();
    let r = rand_vec(&mut rng, ccs.s);
    let m_r_y = fix_row_variables(&m, &r, ccs.s_prime, ccs.m);
    for j in 0..m[0].len() {
        let column_j: Vec<Fr> = m.iter().map(|row| row[j]).collect();
        let rlc = hypercube(ccs.s)
            .iter()
            .enumerate()
            .map(|(i, x)| column_j[i].mul(&eq_eval(x, &r)))
            .fold(Fr::zero(), |acc, v| acc.add(&v));
        assert_eq!(m_r_y[j], rlc);
    }
}

#[test]
fn test_compute_sigmas_and_taus() {
    let ti = get_mu_nu_test_instances(10, 15);
    let (sigmas, taus) = NIMFS::compute_sigmas_and_taus(
        &ti.accs_instances,
        &ti.cccs_instances,
        &ti.z_accs,
        &ti.z_cccs,
        &ti.r_x_prime,
    );
    let f = NIMFS::compute_fx(&ti.accs_instances, &ti.cccs_instances, &ti.z_cccs, ti.gamma, &ti.alpha)
        .unwrap();
    let expected_cx = f.evaluate(&ti.r_x_prime).unwrap();
    let vec_r_x: Vec<Vec<Fr>> = ti.accs_instances.iter().map(|a| a.r_x.clone()).collect();
    let cx = NIMFS::compute_cx_from_sigmas_and_taus(
        &ti.accs_instances[0].ccs,
        &sigmas,
        &taus,
        ti.gamma,
        &ti.alpha,
        &vec_r_x,
        &ti.r_x_prime,
    );
    assert_eq!(cx, expected_cx);
}

#[test]
fn test_compute_fx() {
    let ti = get_mu_nu_test_instances(10, 15);
    let s = ti.accs_instances[0].ccs.s;
    let t = ti.accs_instances[0].ccs.t;
    let f = NIMFS::compute_fx(&ti.accs_instances, &ti.cccs_instances, &ti.z_cccs, ti.gamma, &ti.alpha)
        .unwrap();
    let f_on_bhc = sum_over_hypercube(&f, s);

    let mut sum_lj_on_bhc = Fr::zero();
    for (i, accs) in ti.accs_instances.iter().enumerate() {
        let vec_l = accs.compute_Ls();
        for x in hypercube(s) {
            for (j, l_j) in vec_l.iter().enumerate() {
                let gamma_ij = ti.gamma.pow((i * t + j) as u64);
                sum_lj_on_bhc = sum_lj_on_bhc.add(&l_j.evaluate(&x).unwrap().mul(&gamma_ij));
            }
        }
    }
    let sum_x = NIMFS::expected_sum_x(&ti.accs_instances, ti.gamma, t);

    assert_ne!(f_on_bhc, Fr::zero());
    assert_eq!(f_on_bhc, sum_lj_on_bhc);
    assert_eq!(f_on_bhc, sum_x);
}

#[test]
fn test_compute_epsilons_and_thetas() {
    let ti = get_mu_nu_test_instances(10, 15);
    let (epsilons, thetas) = NIMFS::compute_epsilons_and_thetas(
        &ti.accs_instances,
        &ti.cccs_instances,
        &ti.z_accs,
        &ti.z_cccs,
        &ti.r_x_prime,
        &ti.r_y_prime,
    );
    let g = NIMFS::compute_gy(
        &ti.accs_instances,
        &ti.cccs_instances,
        &ti.z_accs,
        &ti.z_cccs,
        ti.delta,
        &ti.r_x_prime,
    );
    let expected_cy = g.evaluate(&ti.r_y_prime).unwrap();
    let vec_r_y: Vec<Vec<Fr>> = ti.accs_instances.iter().map(|a| a.r_y.clone()).collect();
    let cy = NIMFS::compute_cy_from_epsilons_and_thetas(
        &ti.accs_instances[0].ccs,
        &epsilons,
        &thetas,
        ti.delta,
        &vec_r_y,
        &ti.r_y_prime,
    );
    assert_eq!(cy, expected_cy);
}

#[test]
fn test_compute_gy() {
    let ti = get_mu_nu_test_instances(10, 15);
    let t = ti.accs_instances[0].ccs.t;
    let s_prime = ti.accs_instances[0].ccs.s_prime;
    let mu = ti.accs_instances.len();
    let (sigmas, taus) = NIMFS::compute_sigmas_and_taus(
        &ti.accs_instances,
        &ti.cccs_instances,
        &ti.z_accs,
        &ti.z_cccs,
        &ti.r_x_prime,
    );
    let sum_y = NIMFS::expected_sum_y(&ti.accs_instances, &sigmas, &taus, ti.delta, t);
    let g = NIMFS::compute_gy(
        &ti.accs_instances,
        &ti.cccs_instances,
        &ti.z_accs,
        &ti.z_cccs,
        ti.delta,
        &ti.r_x_prime,
    );
    let g_on_bhc = sum_over_hypercube(&g, s_prime);

    let mut sum_rs_on_bhc = Fr::zero();
    for (i, accs) in ti.accs_instances.iter().enumerate() {
        let vec_rs = accs.compute_R_S(&ti.r_x_prime, &ti.z_accs[i]);
        for y in hypercube(s_prime) {
            for (j, p) in vec_rs.iter().enumerate() {
                let delta_j = ti.delta.pow((i * (t + 1) + j) as u64);
                sum_rs_on_bhc = sum_rs_on_bhc.add(&p.evaluate(&y).unwrap().mul(&delta_j));
            }
        }
    }
    for (i, cccs) in ti.cccs_instances.iter().enumerate() {
        let vec_t = cccs.compute_T(&ti.r_x_prime, &ti.z_cccs[i]);
        for y in hypercube(s_prime) {
            for (j, p) in vec_t.iter().enumerate() {
                let delta_j = ti.delta.pow((mu * (t + 1) + i * t + j) as u64);
                sum_rs_on_bhc = sum_rs_on_bhc.add(&p.evaluate(&y).unwrap().mul(&delta_j));
            }
        }
    }
    assert_ne!(g_on_bhc, Fr::zero());
    assert_eq!(g_on_bhc, sum_rs_on_bhc);
    assert_eq!(g_on_bhc, sum_y);
}

#[test]
fn genericfolding_test_fold() {
    let ccs1 = get_test_ccs(5);
    let ccs2 = get_test_ccs(6);
    let z1 = get_test_z(3, 5);
    let z2 = get_test_z(4, 6);
    ccs1.check_relation(&z1).unwrap();
    ccs2.check_relation(&z2).unwrap();

    let mut rng = test_rng();
    let r_x_prime = rand_vec(&mut rng, ccs1.s);
    let r_y_prime = rand_vec(&mut rng, ccs1.s_prime);
    let params = new_params(&mut rng, ccs1.m - ccs1.l - 1);
    let r_x = rand_vec(&mut rng, ccs1.s);
    let r_y = rand_vec(&mut rng, ccs1.s_prime);
    let (accs, w1) = ccs1.to_accs(&params, &z1, rand_fr(&mut rng), &r_x, &r_y).unwrap();
    let (cccs, w2) = ccs2.to_cccs(&params, &z2, rand_fr(&mut rng)).unwrap();
    accs.check_relation(&params, &w1).unwrap();
    cccs.check_relation(&params, &w2).unwrap();

    let (epsilons, thetas) = NIMFS::compute_epsilons_and_thetas(
        &vec![accs.clone()],
        &vec![cccs.clone()],
        &vec![z1.clone()],
        &vec![z2.clone()],
        &r_x_prime,
        &r_y_prime,
    );
    let rho = rand_fr(&mut rng);
    let accs_folded = NIMFS::fold(
        &vec![accs],
        &vec![cccs],
        &epsilons,
        &thetas,
        r_x_prime.clone(),
        r_y_prime.clone(),
        rho,
    )
    .unwrap();
    let w_folded = NIMFS::fold_witness(&vec![w1], &vec![w2], rho).unwrap();
    accs_folded.check_relation(&params, &w_folded).unwrap();
}

#[test]
fn test_basic_genericfolding() {
    let mut rng = test_rng();
    let ccs1 = get_test_ccs(5);
    let ccs2 = get_test_ccs(6);
    let params = new_params(&mut rng, ccs1.m - ccs1.l - 1);
    let z_1 = get_test_z(3, 5);
    let z_2 = get_test_z(4, 6);
    let r_x = rand_vec(&mut rng, ccs1.s);
    let r_y = rand_vec(&mut rng, ccs1.s_prime);
    let (running, w1) = ccs1.to_accs(&params, &z_1, rand_fr(&mut rng), &r_x, &r_y).unwrap();
    let (new, w2) = ccs2.to_cccs(&params, &z_2, rand_fr(&mut rng)).unwrap();
    let (folded, folded_v, folded_w) =
        run_step(&mut rng, &vec![running], &vec![new], &vec![w1], &vec![w2]);
    assert_eq!(folded, folded_v);
    folded.check_relation(&params, &folded_w).unwrap();
}

#[test]
fn test_genericfolding_mu_nu_instances() {
    let ti = get_mu_nu_test_instances(10, 15);
    let mut rng = test_rng();
    let (folded, folded_v, folded_w) = run_step(
        &mut rng,
        &ti.accs_instances,
        &ti.cccs_instances,
        &ti.w_accs,
        &ti.w_cccs,
    );
    assert_eq!(folded, folded_v);
    folded.check_relation(&ti.pedersen_params, &folded_w).unwrap();
}

#[test]
fn repeated_folding_keeps_the_relation() {
    for steps in [3usize, 10] {
        let mut rng = test_rng();
        let ccs = get_test_ccs(5);
        let params = new_params(&mut rng, ccs.m - ccs.l - 1);
        let r_x = rand_vec(&mut rng, ccs.s);
        let r_y = rand_vec(&mut rng, ccs.s_prime);
        let (mut running, mut w_run) = ccs
            .to_accs(&params, &get_test_z(3, 5), rand_fr(&mut rng), &r_x, &r_y)
            .unwrap();
        for i in 0..steps {
            let ccs_i = get_test_ccs(5 + i);
            let (new, w_new) = ccs_i
                .to_cccs(&params, &get_test_z(4 + i, 5 + i), rand_fr(&mut rng))
                .unwrap();
            let (folded, folded_v, folded_w) =
                run_step(&mut rng, &vec![running], &vec![new], &vec![w_run], &vec![w_new]);
            assert_eq!(folded, folded_v);
            folded.check_relation(&params, &folded_w).unwrap();
            running = folded;
            w_run = folded_w;
        }
    }
}

#[test]
fn sum_check_sum_identity_single_step() {
    let ti = get_mu_nu_test_instances(1, 1);
    let s = ti.accs_instances[0].ccs.s;
    let t = ti.accs_instances[0].ccs.t;
    let f = NIMFS::compute_fx(&ti.accs_instances, &ti.cccs_instances, &ti.z_cccs, ti.gamma, &ti.alpha)
        .unwrap();
    assert_eq!(
        sum_over_hypercube(&f, s),
        NIMFS::expected_sum_x(&ti.accs_instances, ti.gamma, t)
    );
}

#[test]
fn verifier_rejects_a_wrong_claim() {
    let mut rng = test_rng();
    let ti = get_mu_nu_test_instances(2, 2);
    let s = ti.accs_instances[0].ccs.s;
    let s_prime = ti.accs_instances[0].ccs.s_prime;
    let challenges = Challenges {
        gamma: rand_fr(&mut rng),
        alpha: rand_vec(&mut rng, s),
        delta: rand_fr(&mut rng),
        rho: rand_fr(&mut rng),
    };
    let r_x_prime = rand_vec(&mut rng, s);
    let r_y_prime = rand_vec(&mut rng, s_prime);
    let (proof, _, _) = NIMFS::prove(
        &ti.accs_instances,
        &ti.cccs_instances,
        &ti.w_accs,
        &ti.w_cccs,
        &challenges,
        &r_x_prime,
        &r_y_prime,
    )
    .unwrap();
    let claim_x = SumCheckClaim { point: r_x_prime, expected_evaluation: Fr::one() };
    let claim_y = SumCheckClaim { point: r_y_prime, expected_evaluation: Fr::one() };
    assert_eq!(
        NIMFS::verify(&ti.accs_instances, &ti.cccs_instances, &proof, &challenges, &claim_x, &claim_y),
        Err(FoldingError::SumCheckVerificationFailed)
    );
}

#[test]
fn shape_and_dimension_errors() {
    let mut rng = test_rng();
    let ti = get_mu_nu_test_instances(1, 1);
    let challenges = Challenges {
        gamma: Fr::one(),
        alpha: vec![Fr::one(); 2],
        delta: Fr::one(),
        rho: Fr::one(),
    };
    let r_x_prime = rand_vec(&mut rng, 2);
    let r_y_prime = rand_vec(&mut rng, 3);
    assert_eq!(
        NIMFS::prove(&ti.accs_instances, &vec![], &ti.w_accs, &vec![], &challenges, &r_x_prime, &r_y_prime)
            .err(),
        Some(FoldingError::ShapeMismatch)
    );
    assert_eq!(
        NIMFS::prove(
            &ti.accs_instances,
            &ti.cccs_instances,
            &ti.w_accs,
            &ti.w_cccs,
            &challenges,
            &r_x_prime,
            &rand_vec(&mut rng, 1)
        )
        .err(),
        Some(FoldingError::DimensionMismatch)
    );
    let ccs = get_test_ccs(5);
    assert_eq!(
        ccs.check_relation(&vec![Fr::one(); 3]),
        Err(FoldingError::DimensionMismatch)
    );
}

#[test]
fn perturbing_any_entry_breaks_the_relation() {
    let ccs = get_test_ccs(5);
    let z = get_test_z(3, 5);
    ccs.check_relation(&z).unwrap();
    for i in 0..z.len() {
        let mut bad = z.clone();
        bad[i] = bad[i].add(&Fr::one());
        assert_eq!(ccs.check_relation(&bad), Err(FoldingError::RelationNotSatisfied));
    }
}

#[test]
fn round_trip_instances_pass_their_checks() {
    let mut rng = test_rng();
    for k in 0..4 {
        let ccs = get_test_ccs(k);
        assert!(ccs.is_well_formed());
        let z = get_test_z(k + 2, k);
        let params = new_params(&mut rng, ccs.m - ccs.l - 1);
        let r_x = rand_vec(&mut rng, ccs.s);
        let r_y = rand_vec(&mut rng, ccs.s_prime);
        let (accs, w) = ccs.to_accs(&params, &z, rand_fr(&mut rng), &r_x, &r_y).unwrap();
        accs.check_relation(&params, &w).unwrap();
        let (cccs, w) = ccs.to_cccs(&params, &z, rand_fr(&mut rng)).unwrap();
        cccs.check_relation(&params, &w).unwrap();
    }
}

#[test]
fn commitment_mismatch_is_rejected() {
    let mut rng = test_rng();
    let ccs = get_test_ccs(5);
    let z = get_test_z(3, 5);
    let params = new_params(&mut rng, ccs.m - ccs.l - 1);
    let (cccs, w) = ccs.to_cccs(&params, &z, rand_fr(&mut rng)).unwrap();
    let other = Witness { w: w.w.clone(), r_w: w.r_w.add(&Fr::one()) };
    assert_eq!(cccs.check_relation(&params, &other), Err(FoldingError::RelationNotSatisfied));
    let short = new_params(&mut rng, 1);
    assert_eq!(cccs.check_relation(&short, &w), Err(FoldingError::DimensionMismatch));
    let broken = Params { h: vec![0u8; 3], generators: params.generators.clone() };
    assert_eq!(cccs.check_relation(&broken, &w), Err(FoldingError::InvalidPoint));
}

#[test]
fn malformed_shape_is_detected() {
    let mut ccs = get_test_ccs(5);
    ccs.S[1] = vec![7];
    assert!(!ccs.is_well_formed());
    let mut ccs = get_test_ccs(5);
    ccs.M[0].pop();
    assert!(!ccs.is_well_formed());
}

#[test]
fn eq_and_hypercube_points() {
    let p = hypercube_point(5, 3);
    assert_eq!(p, vec![Fr::one(), Fr::zero(), Fr::one()]);
    assert_eq!(eq_eval(&p, &p), Fr::one());
    assert_eq!(eq_eval(&p, &hypercube_point(4, 3)), Fr::zero());
}

#[test]
fn reduction_of_limbs_wraps_at_the_modulus() {
    let modulus_limbs = [
        0xffff_ffff_0000_0001u64,
        0x53bd_a402_fffe_5bfe,
        0x3339_d808_09a1_d805,
        0x73ed_a753_299d_7d48,
    ];
    assert_eq!(Fr::from_limbs(modulus_limbs), Fr::zero());
}

#[test]
fn test_lcccs_v_j() {
    let mut rng = test_rng();
    let ccs = get_test_ccs(5);
    let z = get_test_z(3, 5);
    ccs.check_relation(&z).unwrap();
    let params = new_params(&mut rng, ccs.m - ccs.l - 1);
    let r_x = rand_vec(&mut rng, ccs.s);
    let (lcccs, w) = ccs.to_lcccs(&params, &z, rand_fr(&mut rng), &r_x).unwrap();
    assert_eq!(lcccs.v.len(), 3);
    let vec_l = lcccs.compute_Ls(&z);
    assert_eq!(vec_l.len(), lcccs.v.len());
    for (v_i, l_j) in lcccs.v.iter().zip(vec_l.iter()) {
        assert_eq!(*v_i, sum_over_hypercube(l_j, ccs.s));
    }
    lcccs.check_relation(&params, &w).unwrap();
}

#[test]
fn lcccs_test_bad_v_j() {
    let mut rng = test_rng();
    let ccs = get_test_ccs(5);
    let z = get_test_z(3, 5);
    ccs.check_relation(&z).unwrap();
    let mut bad_z = z.clone();
    bad_z[3] = Fr::zero();
    assert!(ccs.check_relation(&bad_z).is_err());
    let params = new_params(&mut rng, ccs.m - ccs.l - 1);
    let r_x = rand_vec(&mut rng, ccs.s);
    let (lcccs, _) = ccs.to_lcccs(&params, &z, rand_fr(&mut rng), &r_x).unwrap();
    assert_eq!(lcccs.v.len(), 3);
    let vec_l = lcccs.compute_Ls(&bad_z);
    assert_eq!(vec_l.len(), lcccs.v.len());
    let mut satisfied = true;
    for (v_i, l_j) in lcccs.v.iter().zip(vec_l.iter()) {
        if *v_i != sum_over_hypercube(l_j, ccs.s) {
            satisfied = false;
        }
    }
    assert_eq!(satisfied, false);
}
