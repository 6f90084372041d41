//! Elements of the scalar field of BLS12-381, held as four canonical 64-bit limbs.
//!
//! The arithmetic itself is done by `ark_bls12_381::Fr`; each operation is specified
//! over the integer value of its operands modulo the field's prime.
use ark_ff::Field;
use ark_ff::PrimeField;
use vstd::arithmetic::power::pow;
use vstd::prelude::*;

verus! {

/// The order of the scalar field of BLS12-381, from its four little-endian limbs.
pub open spec fn modulus() -> int {
    limbs_value([18446744069414584321, 6034159408538082302, 3691218898639771653, 8353516859464449352])
}

/// Two to the 64.
pub open spec fn limb_base() -> int {
    0xffff_ffff_ffff_ffff as int + 1
}

/// Field addition on canonical representatives.
pub open spec fn fadd(a: int, b: int) -> int {
    (a + b) % modulus()
}

/// Field subtraction on canonical representatives.
pub open spec fn fsub(a: int, b: int) -> int {
    (a - b) % modulus()
}

/// Field multiplication on canonical representatives.
pub open spec fn fmul(a: int, b: int) -> int {
    (a * b) % modulus()
}

/// Exponentiation in the field.
pub open spec fn fpow(a: int, e: nat) -> int {
    pow(a, e) % modulus()
}

/// The integer that four little-endian limbs stand for.
pub open spec fn limbs_value(l: [u64; 4]) -> int {
    l[0] as int + limb_base() * (l[1] as int + limb_base() * (l[2] as int + limb_base() * (
    l[3] as int)))
}

/// A field element; its limbs always hold the canonical representative.
#[derive(Clone, Copy, Debug, PartialEq, Eq)]
pub struct Fr {
    limbs: [u64; 4],
}

impl Fr {
    /// The integer in `[0, p)` that this element stands for.
    pub closed spec fn val(self) -> int {
        limbs_value(self.limbs)
    }

    #[verifier::type_invariant]
    closed spec fn canonical(self) -> bool {
        self.val() < modulus()
    }

    pub fn zero() -> (r: Fr)
        ensures
            r.val() == 0,
    {
        Fr::from_u64(0)
    }

    /// The multiplicative identity.
    pub closed spec fn spec_one() -> Fr {
        Fr { limbs: [1, 0, 0, 0] }
    }

    pub proof fn lemma_one()
        ensures
            Fr::spec_one().val() == 1,
    {
        let l: [u64; 4] = [1, 0, 0, 0];
        assert(l[0] == 1 && l[1] == 0 && l[2] == 0 && l[3] == 0);
    }

    pub fn one() -> (r: Fr)
        ensures
            r.val() == 1,
            r == Fr::spec_one(),
    {
        let l: [u64; 4] = [1, 0, 0, 0];
        assert(l[0] == 1 && l[1] == 0 && l[2] == 0 && l[3] == 0);
        assert(limbs_value(l) == 1);
        assert(modulus() > limb_base());
        Fr { limbs: l }
    }

    pub fn from_u64(n: u64) -> (r: Fr)
        ensures
            r.val() == n,
    {
        let l: [u64; 4] = [n, 0, 0, 0];
        assert(l[0] == n && l[1] == 0 && l[2] == 0 && l[3] == 0);
        assert(limbs_value(l) == n);
        assert(modulus() > limb_base());
        Fr { limbs: l }
    }

    /// The element whose value is the integer of `limbs`, reduced modulo `p`.
    pub fn from_limbs(limbs: [u64; 4]) -> (r: Fr)
        ensures
            r.val() == limbs_value(limbs) % modulus(),
    {
        reduce_limbs(limbs)
    }

    /// The canonical little-endian limbs of this element.
    pub fn to_limbs(&self) -> (r: [u64; 4])
        ensures
            limbs_value(r) == self.val(),
    {
        self.limbs
    }

    pub fn is_zero(&self) -> (r: bool)
        ensures
            r == (self.val() == 0),
    {
        proof {
            lemma_limbs_zero(self.limbs);
        }
        self.limbs[0] == 0 && self.limbs[1] == 0 && self.limbs[2] == 0 && self.limbs[3] == 0
    }

    /// Equality of field elements.
    pub fn equals(&self, o: &Fr) -> (r: bool)
        ensures
            r == (self.val() == o.val()),
    {
        proof {
            lemma_limbs_injective(self.limbs, o.limbs);
        }
        self.limbs[0] == o.limbs[0] && self.limbs[1] == o.limbs[1] && self.limbs[2] == o.limbs[2]
            && self.limbs[3] == o.limbs[3]
    }

    pub fn add(&self, o: &Fr) -> (r: Fr)
        ensures
            r.val() == fadd(self.val(), o.val()),
    {
        field_add(self, o)
    }

    pub fn sub(&self, o: &Fr) -> (r: Fr)
        ensures
            r.val() == fsub(self.val(), o.val()),
    {
        field_sub(self, o)
    }

    pub fn mul(&self, o: &Fr) -> (r: Fr)
        ensures
            r.val() == fmul(self.val(), o.val()),
    {
        field_mul(self, o)
    }

    pub fn pow(&self, e: u64) -> (r: Fr)
        ensures
            r.val() == fpow(self.val(), e as nat),
    {
        field_pow(self, e)
    }
}

/// The prime is larger than one limb.
pub proof fn lemma_modulus_big()
    ensures
        modulus() > limb_base(),
        limb_base() > 1,
{
    let l: [u64; 4] = [18446744069414584321, 6034159408538082302, 3691218898639771653, 8353516859464449352];
    assert(l[3] == 8353516859464449352u64);
    assert(modulus() == limbs_value(l));
    assert(limbs_value(l) >= limb_base() * limb_base()) by (nonlinear_arith)
        requires
            limbs_value(l) == l[0] as int + limb_base() * (l[1] as int + limb_base() * (l[2] as int + limb_base() * (l[3] as int))),
            l[0] >= 0, l[1] >= 0, l[2] >= 0, l[3] >= 1,
            limb_base() > 1;
    assert(limb_base() * limb_base() > limb_base()) by (nonlinear_arith)
        requires limb_base() > 1;
}

/// Two field elements with the same value are the same element.
pub proof fn lemma_val_injective(a: Fr, b: Fr)
    requires
        a.val() == b.val(),
    ensures
        a == b,
{
    lemma_limbs_injective(a.limbs, b.limbs);
}

proof fn lemma_split(a: int, x: int, c: int, y: int)
    requires
        0 <= a < limb_base(),
        0 <= c < limb_base(),
        a + limb_base() * x == c + limb_base() * y,
    ensures
        a == c,
        x == y,
{
    let b = limb_base();
    vstd::arithmetic::div_mod::lemma_fundamental_div_mod_converse(a + b * x, b, x, a);
    vstd::arithmetic::div_mod::lemma_fundamental_div_mod_converse(c + b * y, b, y, c);
}

proof fn lemma_limbs_injective(l: [u64; 4], m: [u64; 4])
    ensures
        limbs_value(l) == limbs_value(m) <==> l == m,
{
    if limbs_value(l) == limbs_value(m) {
        let b = limb_base();
        lemma_split(
            l[0] as int,
            l[1] as int + b * (l[2] as int + b * (l[3] as int)),
            m[0] as int,
            m[1] as int + b * (m[2] as int + b * (m[3] as int)),
        );
        lemma_split(
            l[1] as int,
            l[2] as int + b * (l[3] as int),
            m[1] as int,
            m[2] as int + b * (m[3] as int),
        );
        lemma_split(l[2] as int, l[3] as int, m[2] as int, m[3] as int);
        assert(l =~= m);
    }
}

proof fn lemma_limbs_zero(l: [u64; 4])
    ensures
        limbs_value(l) == 0 <==> (l[0] == 0 && l[1] == 0 && l[2] == 0 && l[3] == 0),
{
    let b = limb_base();
    let z: [u64; 4] = [0, 0, 0, 0];
    assert(limbs_value(z) == 0);
    lemma_limbs_injective(l, z);
    if l[0] == 0 && l[1] == 0 && l[2] == 0 && l[3] == 0 {
        assert(l =~= z);
    }
}

/// Relies on `ark_ff::PrimeField::from_le_bytes_mod_order` for BLS12-381's `Fr`: the
/// little-endian integer of the bytes, reduced modulo the field's prime.
#[verifier::external_body]
fn reduce_limbs(limbs: [u64; 4]) -> (r: Fr)
    ensures
        r.val() == limbs_value(limbs) % modulus(),
{
    let bytes: Vec<u8> = limbs.iter().flat_map(|l| l.to_le_bytes()).collect();
    let x = ark_bls12_381::Fr::from_le_bytes_mod_order(&bytes);
    Fr { limbs: x.into_bigint().0 }
}

/// Relies on `+` of `ark_bls12_381::Fr`: addition modulo the field's prime.
#[verifier::external_body]
fn field_add(a: &Fr, b: &Fr) -> (r: Fr)
    ensures
        r.val() == fadd(a.val(), b.val()),
{
    let x = ark_bls12_381::Fr::from_bigint(ark_ff::BigInt(a.limbs)).unwrap();
    let y = ark_bls12_381::Fr::from_bigint(ark_ff::BigInt(b.limbs)).unwrap();
    Fr { limbs: (x + y).into_bigint().0 }
}

/// Relies on `-` of `ark_bls12_381::Fr`: subtraction modulo the field's prime.
#[verifier::external_body]
fn field_sub(a: &Fr, b: &Fr) -> (r: Fr)
    ensures
        r.val() == fsub(a.val(), b.val()),
{
    let x = ark_bls12_381::Fr::from_bigint(ark_ff::BigInt(a.limbs)).unwrap();
    let y = ark_bls12_381::Fr::from_bigint(ark_ff::BigInt(b.limbs)).unwrap();
    Fr { limbs: (x - y).into_bigint().0 }
}

/// Relies on `*` of `ark_bls12_381::Fr`: multiplication modulo the field's prime.
#[verifier::external_body]
fn field_mul(a: &Fr, b: &Fr) -> (r: Fr)
    ensures
        r.val() == fmul(a.val(), b.val()),
{
    let x = ark_bls12_381::Fr::from_bigint(ark_ff::BigInt(a.limbs)).unwrap();
    let y = ark_bls12_381::Fr::from_bigint(ark_ff::BigInt(b.limbs)).unwrap();
    Fr { limbs: (x * y).into_bigint().0 }
}

/// Relies on `ark_ff::Field::pow` of `ark_bls12_381::Fr`: the element raised to the
/// power `e`, modulo the field's prime.
#[verifier::external_body]
fn field_pow(a: &Fr, e: u64) -> (r: Fr)
    ensures
        r.val() == fpow(a.val(), e as nat),
{
    let x = ark_bls12_381::Fr::from_bigint(ark_ff::BigInt(a.limbs)).unwrap();
    Fr { limbs: x.pow([e]).into_bigint().0 }
}

} // verus!
