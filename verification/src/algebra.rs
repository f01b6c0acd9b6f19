//! Field and curve abstraction: scalars, G1/G2 points, pairing values.
//!
//! The executable representation of every element comes from the `pairing`
//! crate and is opaque to the verifier.  Each kind of element has an
//! abstraction function into the mathematical model: a scalar maps to its
//! canonical residue below [`fr_order`], a group element to the discrete
//! logarithm of the element with respect to the fixed generator of its
//! group (all three groups are cyclic of the same prime order), and a
//! pairing value to the discrete logarithm with respect to the pairing of
//! the two generators.  The contracts of the trusted wrappers below state
//! how each operation of the `pairing` crate acts on that model; all
//! protocol logic is verified from those contracts alone, through the
//! public operations at the end of this module.

use crate::math::{fr_add, fr_mul, fr_neg, fr_order, fr_reduced};
use blake2b_simd::Params;
use pairing::bls12_381::{Fq12, Fr, FrRepr, G1Affine, G2Affine, G1, G2};
use pairing::{CurveAffine, CurveProjective, Field, PrimeField};
use rand::{Rand, Rng};
use rand04_compat::RngExt;
use rand_core::SeedableRng;
use vstd::prelude::*;

verus! {

#[verifier::external_type_specification]
#[verifier::external_body]
pub struct ExFr(Fr);

#[verifier::external_type_specification]
#[verifier::external_body]
pub struct ExG1(G1);

#[verifier::external_type_specification]
#[verifier::external_body]
pub struct ExG2(G2);

#[verifier::external_type_specification]
#[verifier::external_body]
pub struct ExFq12(Fq12);

/// The canonical residue of a scalar field element: the abstraction of an
/// `Fr` value into the model.
pub uninterp spec fn fr_val(f: Fr) -> nat;

/// The discrete logarithm of a G1 element with respect to the fixed G1
/// generator: the abstraction of a `G1` value into the model.
pub uninterp spec fn g1_dlog(p: G1) -> nat;

/// The discrete logarithm of a G2 element with respect to the fixed G2
/// generator: the abstraction of a `G2` value into the model.
pub uninterp spec fn g2_dlog(p: G2) -> nat;

/// The discrete logarithm of a target-subgroup value with respect to the
/// pairing of the two generators: the abstraction of an `Fq12` value (of
/// the pairing's image subgroup) into the model.
pub uninterp spec fn gt_dlog(f: Fq12) -> nat;

/// Names the result of `Fr::inverse`: the multiplicative inverse of a
/// nonzero residue, a function of the residue alone.
pub uninterp spec fn fr_inv_of(a: nat) -> nat;

/// Names the 32-byte Blake2b digest that `blake2b_simd` computes: a
/// function of the message alone.
pub uninterp spec fn blake2b_digest(m: Seq<u8>) -> Seq<u8>;

/// Names the discrete logarithm of the G1 element sampled from a ChaCha20
/// stream: a function of the 32-byte seed alone.
pub uninterp spec fn g1_seeded(seed: Seq<u8>) -> nat;

/// The model of the deterministic message-to-G1 hash: Blake2b digest, then
/// a G1 element sampled from a ChaCha20 stream seeded with the digest.
pub open spec fn hash_point(m: Seq<u8>) -> nat {
    g1_seeded(blake2b_digest(m))
}

/// An element of the BLS12-381 scalar field.
#[derive(Clone, Copy)]
pub struct Scalar {
    fr: Fr,
}

/// An element of the prime-order subgroup G1.
#[derive(Clone, Copy)]
pub struct G1Point {
    point: G1,
}

/// An element of the prime-order subgroup G2.
#[derive(Clone, Copy)]
pub struct G2Point {
    point: G2,
}

/// A value of the pairing's target subgroup, which is cyclic of order
/// [`fr_order`] and generated by the pairing of the two generators.
#[derive(Clone, Copy)]
pub struct GtElem {
    fq: Fq12,
}

impl Scalar {
    /// The canonical residue of this scalar: the value the specifications
    /// speak of.
    pub closed spec fn val(self) -> nat {
        fr_val(self.fr)
    }

    /// A scalar is well formed when its residue is canonical.
    pub open spec fn wf(self) -> bool {
        fr_reduced(self.val())
    }
}

impl G1Point {
    /// The discrete logarithm of this point: the value the specifications
    /// speak of.
    pub closed spec fn dlog(self) -> nat {
        g1_dlog(self.point)
    }

    /// A point is well formed when its discrete logarithm is canonical.
    pub open spec fn wf(self) -> bool {
        fr_reduced(self.dlog())
    }
}

impl G2Point {
    /// The discrete logarithm of this point: the value the specifications
    /// speak of.
    pub closed spec fn dlog(self) -> nat {
        g2_dlog(self.point)
    }

    /// A point is well formed when its discrete logarithm is canonical.
    pub open spec fn wf(self) -> bool {
        fr_reduced(self.dlog())
    }
}

impl GtElem {
    /// The discrete logarithm of this value: the value the specifications
    /// speak of.
    pub closed spec fn dlog(self) -> nat {
        gt_dlog(self.fq)
    }
}

/// Relies on `Fr::zero`: the additive identity has residue zero.
#[verifier::external_body]
fn fr_zero_elem() -> (r: Scalar)
    ensures
        fr_val(r.fr) == 0,
{
    Scalar { fr: Fr::zero() }
}

/// Relies on `Fr::one`: the multiplicative identity has residue one.
#[verifier::external_body]
fn fr_one_elem() -> (r: Scalar)
    ensures
        fr_val(r.fr) == 1,
{
    Scalar { fr: Fr::one() }
}

/// Relies on `Fr::add_assign`: field addition adds residues modulo the
/// field order.
#[verifier::external_body]
fn fr_add_elem(a: &Scalar, b: &Scalar) -> (r: Scalar)
    ensures
        fr_val(r.fr) == fr_add(fr_val(a.fr), fr_val(b.fr)),
{
    let mut x = a.fr;
    x.add_assign(&b.fr);
    Scalar { fr: x }
}

/// Relies on `Fr::mul_assign`: field multiplication multiplies residues
/// modulo the field order.
#[verifier::external_body]
fn fr_mul_elem(a: &Scalar, b: &Scalar) -> (r: Scalar)
    ensures
        fr_val(r.fr) == fr_mul(fr_val(a.fr), fr_val(b.fr)),
{
    let mut x = a.fr;
    x.mul_assign(&b.fr);
    Scalar { fr: x }
}

/// Relies on `Fr::negate`: field negation negates the residue modulo the
/// field order.
#[verifier::external_body]
fn fr_neg_elem(a: &Scalar) -> (r: Scalar)
    ensures
        fr_val(r.fr) == fr_neg(fr_val(a.fr)),
{
    let mut x = a.fr;
    x.negate();
    Scalar { fr: x }
}

/// Relies on `Fr::inverse`: it returns `None` exactly for zero, and
/// otherwise the multiplicative inverse of the element, which is itself a
/// canonical residue.
#[verifier::external_body]
fn fr_inv_elem(a: &Scalar) -> (r: Option<Scalar>)
    ensures
        (r is Some) == (fr_val(a.fr) != 0),
        r matches Some(s) ==> fr_val(s.fr) == fr_inv_of(fr_val(a.fr))
            && fr_val(s.fr) < fr_order()
            && fr_mul(fr_inv_of(fr_val(a.fr)), fr_val(a.fr)) == 1,
{
    match a.fr.inverse() {
        Some(x) => Some(Scalar { fr: x }),
        None => None,
    }
}

/// Relies on `Fr::from_repr`: a 32-bit integer is below the modulus, so it
/// lifts to the field element with exactly that residue.
#[verifier::external_body]
fn fr_from_u32_elem(x: u32) -> (r: Scalar)
    ensures
        fr_val(r.fr) == x as nat,
{
    match Fr::from_repr(FrRepr::from(x as u64)) {
        Ok(f) => Scalar { fr: f },
        Err(_) => Scalar { fr: Fr::zero() },
    }
}

/// Relies on `Fr::from_repr`: a 64-bit integer is below the modulus, so
/// it lifts to the field element with exactly that residue.
#[verifier::external_body]
fn fr_from_u64_elem(x: u64) -> (r: Scalar)
    ensures
        fr_val(r.fr) == x as nat,
{
    match Fr::from_repr(FrRepr::from(x)) {
        Ok(f) => Scalar { fr: f },
        Err(_) => Scalar { fr: Fr::zero() },
    }
}

/// Relies on `rand::thread_rng` and `Fr::rand`: a field element sampled
/// uniformly from a cryptographically strong source.  Nothing is known of
/// the value beyond its residue being canonical.
#[verifier::external_body]
fn fr_random_elem() -> (r: Scalar)
    ensures
        fr_val(r.fr) < fr_order(),
{
    let rng = &mut rand::thread_rng();
    Scalar { fr: Fr::rand(rng) }
}

/// Relies on `Fr`'s `PartialEq`: field elements are stored canonically, so
/// they are equal exactly when their residues are equal.
#[verifier::external_body]
fn fr_eq_elem(a: &Scalar, b: &Scalar) -> (r: bool)
    ensures
        r == (fr_val(a.fr) == fr_val(b.fr)),
{
    a.fr == b.fr
}

/// Relies on `rand::thread_rng` and `Rng::gen_range`: a uniform integer in
/// `[1, u32::MAX)`.
#[verifier::external_body]
fn random_id_elem() -> (r: u32)
    ensures
        1 <= r < u32::MAX,
{
    let mut rng = rand::thread_rng();
    rng.gen_range(1, u32::MAX)
}

/// Relies on `G1::one`: the fixed G1 generator, of discrete logarithm one.
#[verifier::external_body]
fn g1_gen_elem() -> (r: G1Point)
    ensures
        g1_dlog(r.point) == 1,
{
    G1Point { point: G1::one() }
}

/// Relies on `G1::zero`: the identity, of discrete logarithm zero.
#[verifier::external_body]
fn g1_zero_elem() -> (r: G1Point)
    ensures
        g1_dlog(r.point) == 0,
{
    G1Point { point: G1::zero() }
}

/// Relies on `G1::add_assign`: adding points adds their discrete
/// logarithms modulo the group order.
#[verifier::external_body]
fn g1_add_elem(a: &G1Point, b: &G1Point) -> (r: G1Point)
    ensures
        g1_dlog(r.point) == fr_add(g1_dlog(a.point), g1_dlog(b.point)),
{
    let mut p = a.point;
    p.add_assign(&b.point);
    G1Point { point: p }
}

/// Relies on `G1::mul_assign`: scalar multiplication multiplies the
/// discrete logarithm by the scalar's residue modulo the group order.
#[verifier::external_body]
fn g1_mul_elem(a: &G1Point, s: &Scalar) -> (r: G1Point)
    ensures
        g1_dlog(r.point) == fr_mul(g1_dlog(a.point), fr_val(s.fr)),
{
    let mut p = a.point;
    p.mul_assign(s.fr);
    G1Point { point: p }
}

/// Relies on `G1`'s `PartialEq`: G1 is cyclic of prime order, so points
/// are equal exactly when their discrete logarithms are equal.
#[verifier::external_body]
fn g1_eq_elem(a: &G1Point, b: &G1Point) -> (r: bool)
    ensures
        r == (g1_dlog(a.point) == g1_dlog(b.point)),
{
    a.point == b.point
}

/// Relies on `G2::one`: the fixed G2 generator, of discrete logarithm one.
#[verifier::external_body]
fn g2_gen_elem() -> (r: G2Point)
    ensures
        g2_dlog(r.point) == 1,
{
    G2Point { point: G2::one() }
}

/// Relies on `G2::zero`: the identity, of discrete logarithm zero.
#[verifier::external_body]
fn g2_zero_elem() -> (r: G2Point)
    ensures
        g2_dlog(r.point) == 0,
{
    G2Point { point: G2::zero() }
}

/// Relies on `G2::add_assign`: adding points adds their discrete
/// logarithms modulo the group order.
#[verifier::external_body]
fn g2_add_elem(a: &G2Point, b: &G2Point) -> (r: G2Point)
    ensures
        g2_dlog(r.point) == fr_add(g2_dlog(a.point), g2_dlog(b.point)),
{
    let mut p = a.point;
    p.add_assign(&b.point);
    G2Point { point: p }
}

/// Relies on `G2::mul_assign`: scalar multiplication multiplies the
/// discrete logarithm by the scalar's residue modulo the group order.
#[verifier::external_body]
fn g2_mul_elem(a: &G2Point, s: &Scalar) -> (r: G2Point)
    ensures
        g2_dlog(r.point) == fr_mul(g2_dlog(a.point), fr_val(s.fr)),
{
    let mut p = a.point;
    p.mul_assign(s.fr);
    G2Point { point: p }
}

/// Relies on `G2`'s `PartialEq`: G2 is cyclic of prime order, so points
/// are equal exactly when their discrete logarithms are equal.
#[verifier::external_body]
fn g2_eq_elem(a: &G2Point, b: &G2Point) -> (r: bool)
    ensures
        r == (g2_dlog(a.point) == g2_dlog(b.point)),
{
    a.point == b.point
}

/// Relies on `G1Affine::pairing_with`, the bilinear BLS12-381 pairing:
/// `e(aP, bQ) == e(P, Q)^(ab)`, so the discrete logarithms of the inputs
/// multiply modulo the group order.
#[verifier::external_body]
fn pairing_elem(p: &G1Point, q: &G2Point) -> (r: GtElem)
    ensures
        gt_dlog(r.fq) == fr_mul(g1_dlog(p.point), g2_dlog(q.point)),
{
    let f = G1Affine::from(p.point).pairing_with(&G2Affine::from(q.point));
    GtElem { fq: f }
}

/// Relies on `Fq12`'s `PartialEq`: within the pairing's cyclic target
/// subgroup, values are equal exactly when their discrete logarithms are.
#[verifier::external_body]
fn gt_eq_elem(a: &GtElem, b: &GtElem) -> (r: bool)
    ensures
        r == (gt_dlog(a.fq) == gt_dlog(b.fq)),
{
    a.fq == b.fq
}

/// Relies on `Fq12::pow`: exponentiation by a scalar multiplies the
/// discrete logarithm by the scalar's residue modulo the group order.
#[verifier::external_body]
fn gt_pow_elem(a: &GtElem, s: &Scalar) -> (r: GtElem)
    ensures
        gt_dlog(r.fq) == fr_mul(gt_dlog(a.fq), fr_val(s.fr)),
{
    GtElem { fq: a.fq.pow(FrRepr::from(s.fr)) }
}

/// Relies on `blake2b_simd::Params`: the 32-byte Blake2b digest of the
/// message, a function of the message alone.
#[verifier::external_body]
fn blake2b32_elem(msg: &[u8]) -> (r: Vec<u8>)
    ensures
        r@ == blake2b_digest(msg@),
        r@.len() == 32,
{
    let digest = Params::new().hash_length(32).to_state().update(msg).finalize();
    digest.as_bytes().to_vec()
}

/// Relies on `ChaChaRng::from_seed` and `rand04_compat`'s `gen04`: the G1
/// element drawn first from a ChaCha20 stream is a function of the 32-byte
/// seed alone.
#[verifier::external_body]
fn g1_from_seed_elem(seed: &Vec<u8>) -> (r: G1Point)
    requires
        seed@.len() == 32,
    ensures
        g1_dlog(r.point) == g1_seeded(seed@),
        g1_dlog(r.point) < fr_order(),
{
    let mut s = [0u8; 32];
    s[..32].clone_from_slice(&seed[..32]);
    let mut rng = rand_chacha::ChaChaRng::from_seed(s);
    G1Point { point: rng.gen04() }
}

impl Scalar {
    /// The field's additive identity.
    pub fn zero() -> (r: Self)
        ensures
            r.val() == 0,
            r.wf(),
    {
        fr_zero_elem()
    }

    /// The field's multiplicative identity.
    pub fn one() -> (r: Self)
        ensures
            r.val() == 1,
            r.wf(),
    {
        fr_one_elem()
    }

    /// The scalar with residue `x`.
    pub fn from_u32(x: u32) -> (r: Self)
        ensures
            r.val() == x as nat,
            r.wf(),
    {
        fr_from_u32_elem(x)
    }

    /// The scalar with residue `x` for a signed integer: the absolute
    /// value lifted into the field, then negated when `x` is negative.
    pub fn from_i64(x: i64) -> (r: Self)
        ensures
            x >= 0 ==> r.val() == x as nat,
            x < 0 ==> r.val() == fr_neg((-(x as int)) as nat),
            r.wf(),
    {
        if x >= 0 {
            fr_from_u64_elem(x as u64)
        } else {
            let mag: u64 = if x == i64::MIN {
                9223372036854775808u64
            } else {
                (-x) as u64
            };
            fr_from_u64_elem(mag).neg()
        }
    }

    /// A uniformly random scalar from a cryptographically strong source.
    pub fn random() -> (r: Self)
        ensures
            r.wf(),
    {
        fr_random_elem()
    }

    /// Field addition.
    pub fn add(&self, other: &Scalar) -> (r: Self)
        ensures
            r.val() == fr_add(self.val(), other.val()),
            r.wf(),
    {
        fr_add_elem(self, other)
    }

    /// Field multiplication.
    pub fn mul(&self, other: &Scalar) -> (r: Self)
        ensures
            r.val() == fr_mul(self.val(), other.val()),
            r.wf(),
    {
        fr_mul_elem(self, other)
    }

    /// Field negation.
    pub fn neg(&self) -> (r: Self)
        ensures
            r.val() == fr_neg(self.val()),
            r.wf(),
    {
        fr_neg_elem(self)
    }

    /// Field inversion; `None` exactly for zero.
    pub fn inverse(&self) -> (r: Option<Self>)
        ensures
            (r is Some) == (self.val() != 0),
            r matches Some(s) ==> s.val() == fr_inv_of(self.val()) && s.wf()
                && fr_mul(fr_inv_of(self.val()), self.val()) == 1,
    {
        fr_inv_elem(self)
    }

    /// Whether two scalars are the same field element.
    pub fn equals(&self, other: &Scalar) -> (r: bool)
        ensures
            r == (self.val() == other.val()),
    {
        fr_eq_elem(self, other)
    }
}

impl G1Point {
    /// The fixed G1 generator.
    pub fn generator() -> (r: Self)
        ensures
            r.dlog() == 1,
            r.wf(),
    {
        g1_gen_elem()
    }

    /// The G1 identity.
    pub fn identity() -> (r: Self)
        ensures
            r.dlog() == 0,
            r.wf(),
    {
        g1_zero_elem()
    }

    /// Group addition.
    pub fn add(&self, other: &G1Point) -> (r: Self)
        ensures
            r.dlog() == fr_add(self.dlog(), other.dlog()),
            r.wf(),
    {
        g1_add_elem(self, other)
    }

    /// Scalar multiplication.
    pub fn mul(&self, s: &Scalar) -> (r: Self)
        ensures
            r.dlog() == fr_mul(self.dlog(), s.val()),
            r.wf(),
    {
        g1_mul_elem(self, s)
    }

    /// Whether two points are the same group element.
    pub fn equals(&self, other: &G1Point) -> (r: bool)
        ensures
            r == (self.dlog() == other.dlog()),
    {
        g1_eq_elem(self, other)
    }
}

impl G2Point {
    /// The fixed G2 generator.
    pub fn generator() -> (r: Self)
        ensures
            r.dlog() == 1,
            r.wf(),
    {
        g2_gen_elem()
    }

    /// The G2 identity.
    pub fn identity() -> (r: Self)
        ensures
            r.dlog() == 0,
            r.wf(),
    {
        g2_zero_elem()
    }

    /// Group addition.
    pub fn add(&self, other: &G2Point) -> (r: Self)
        ensures
            r.dlog() == fr_add(self.dlog(), other.dlog()),
            r.wf(),
    {
        g2_add_elem(self, other)
    }

    /// Scalar multiplication.
    pub fn mul(&self, s: &Scalar) -> (r: Self)
        ensures
            r.dlog() == fr_mul(self.dlog(), s.val()),
            r.wf(),
    {
        g2_mul_elem(self, s)
    }

    /// Whether two points are the same group element.
    pub fn equals(&self, other: &G2Point) -> (r: bool)
        ensures
            r == (self.dlog() == other.dlog()),
    {
        g2_eq_elem(self, other)
    }
}

impl GtElem {
    /// Whether two target-subgroup values are the same group element.
    pub fn equals(&self, other: &GtElem) -> (r: bool)
        ensures
            r == (self.dlog() == other.dlog()),
    {
        gt_eq_elem(self, other)
    }

    /// Exponentiation by a scalar.
    pub fn pow(&self, s: &Scalar) -> (r: Self)
        ensures
            r.dlog() == fr_mul(self.dlog(), s.val()),
    {
        gt_pow_elem(self, s)
    }
}

/// The bilinear pairing `e: G1 x G2 -> GT`.
pub fn pairing_points(p: &G1Point, q: &G2Point) -> (r: GtElem)
    ensures
        r.dlog() == fr_mul(p.dlog(), q.dlog()),
{
    pairing_elem(p, q)
}

/// A uniform participant identity in `[1, u32::MAX)`.
pub fn random_nonzero_id() -> (r: u32)
    ensures
        1 <= r < u32::MAX,
{
    random_id_elem()
}

/// The deterministic message-to-G1 hash: Blake2b with 32-byte output seeds
/// a ChaCha20 stream from which one G1 element is sampled.
pub fn hash_to_g1(msg: &[u8]) -> (r: G1Point)
    ensures
        r.dlog() == hash_point(msg@),
        r.wf(),
{
    let digest = blake2b32_elem(msg);
    g1_from_seed_elem(&digest)
}

/// Pairing bilinearity: for all scalars `a` and `b`, the runtime check
/// `e(a·G1, b·G2) == e(G1, G2)^(a·b)` succeeds.
pub fn pairing_bilinear(a: &Scalar, b: &Scalar) -> (r: bool)
    requires
        a.wf(),
        b.wf(),
    ensures
        r,
{
    let g1 = G1Point::generator();
    let g2 = G2Point::generator();
    let lhs = pairing_points(&g1.mul(a), &g2.mul(b));
    let ab = a.mul(b);
    let rhs = pairing_points(&g1, &g2).pow(&ab);
    proof {
        let av: nat = a.val();
        let bv: nat = b.val();
        vstd::arithmetic::div_mod::lemma_small_mod(av, fr_order());
        vstd::arithmetic::div_mod::lemma_small_mod(bv, fr_order());
        vstd::arithmetic::div_mod::lemma_small_mod(1nat, fr_order());
        let x: nat = fr_mul(av, bv);
        vstd::arithmetic::div_mod::lemma_mod_bound((av * bv) as int, fr_order() as int);
        assert(1nat * x == x) by (nonlinear_arith);
        vstd::arithmetic::div_mod::lemma_small_mod(x, fr_order());
    }
    lhs.equals(&rhs)
}

} // verus!
