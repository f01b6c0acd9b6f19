//! The mathematical model: arithmetic in the scalar field of BLS12-381.
//!
//! The scalar field `Fr`, the curve groups G1 and G2 and the pairing's
//! target subgroup are all cyclic of the same prime order.  Specifications
//! therefore speak of group elements through natural numbers below that
//! order: a scalar through its canonical residue, a group element through
//! its discrete logarithm with respect to the fixed generator.

use vstd::arithmetic::div_mod::{
    lemma_add_mod_noop, lemma_add_mod_noop_right, lemma_mul_mod_noop_left,
};
use vstd::arithmetic::mul::lemma_mul_is_distributive_add;
use vstd::prelude::*;

verus! {

/// The order of the BLS12-381 scalar field `Fr` (a prime), which is also
/// the order of G1, G2 and of the pairing's target subgroup.
pub open spec fn fr_order() -> nat {
    52435875175126190479447740508185965837690552500527637822603658699938581184513nat
}

/// A canonical residue: the model of a scalar, or of a group element's
/// discrete logarithm.
pub open spec fn fr_reduced(a: nat) -> bool {
    a < fr_order()
}

/// Addition in the scalar field.
pub open spec fn fr_add(a: nat, b: nat) -> nat {
    (a + b) % fr_order()
}

/// Multiplication in the scalar field.
pub open spec fn fr_mul(a: nat, b: nat) -> nat {
    (a * b) % fr_order()
}

/// Additive inverse in the scalar field.
pub open spec fn fr_neg(a: nat) -> nat {
    (((fr_order() - a % fr_order()) as int) % (fr_order() as int)) as nat
}

/// Subtraction in the scalar field.
pub open spec fn fr_sub(a: nat, b: nat) -> nat {
    fr_add(a, fr_neg(b))
}

/// `x^k` in the scalar field.
pub open spec fn pow_mod(x: nat, k: nat) -> nat
    decreases k,
{
    if k == 0 {
        1
    } else {
        fr_mul(x, pow_mod(x, (k - 1) as nat))
    }
}

/// The first `i` terms of a polynomial with coefficient residues `c`,
/// evaluated at `x`: `c[0] + c[1]*x + ... + c[i-1]*x^(i-1)` in the scalar
/// field.
pub open spec fn poly_eval_prefix(c: Seq<nat>, x: nat, i: int) -> nat
    decreases i,
{
    if i <= 0 {
        0
    } else {
        fr_add(
            poly_eval_prefix(c, x, i - 1),
            fr_mul(c[i - 1], pow_mod(x, (i - 1) as nat)),
        )
    }
}

/// A polynomial with coefficient residues `c` (ascending powers),
/// evaluated at `x` in the scalar field.
pub open spec fn poly_eval(c: Seq<nat>, x: nat) -> nat {
    poly_eval_prefix(c, x, c.len() as int)
}

/// Pointwise field addition of two coefficient sequences.
pub open spec fn seq_fr_add(a: Seq<nat>, b: Seq<nat>) -> Seq<nat> {
    Seq::new(a.len(), |i: int| fr_add(a[i], b[i]))
}

/// Every polynomial evaluation is a canonical residue.
pub proof fn lemma_poly_eval_prefix_reduced(c: Seq<nat>, x: nat, i: int)
    ensures
        fr_reduced(poly_eval_prefix(c, x, i)),
    decreases i,
{
    if i <= 0 {
    } else {
        lemma_poly_eval_prefix_reduced(c, x, i - 1);
    }
}

/// Evaluation is a homomorphism from pointwise coefficient addition to
/// field addition: `(a + b)(x) == a(x) + b(x)`.
pub proof fn lemma_poly_eval_prefix_add(a: Seq<nat>, b: Seq<nat>, x: nat, i: int)
    requires
        a.len() == b.len(),
        i <= a.len(),
    ensures
        poly_eval_prefix(seq_fr_add(a, b), x, i)
            == fr_add(poly_eval_prefix(a, x, i), poly_eval_prefix(b, x, i)),
    decreases i,
{
    let r = fr_order() as int;
    if i <= 0 {
    } else {
        lemma_poly_eval_prefix_add(a, b, x, i - 1);
        let pa = poly_eval_prefix(a, x, i - 1) as int;
        let pb = poly_eval_prefix(b, x, i - 1) as int;
        let aa = a[i - 1] as int;
        let bb = b[i - 1] as int;
        let p = pow_mod(x, (i - 1) as nat) as int;
        assert(seq_fr_add(a, b)[i - 1] == fr_add(a[i - 1], b[i - 1]));
        lemma_mul_mod_noop_left(aa + bb, p, r);
        lemma_mul_is_distributive_add(p, aa, bb);
        assert((aa + bb) * p == aa * p + bb * p) by {
            lemma_mul_is_distributive_add(p, aa, bb);
            assert(p * (aa + bb) == (aa + bb) * p) by (nonlinear_arith);
            assert(p * aa == aa * p) by (nonlinear_arith);
            assert(p * bb == bb * p) by (nonlinear_arith);
        }
        lemma_add_mod_noop(pa + pb, aa * p + bb * p, r);
        lemma_add_mod_noop_right(pa, aa * p, r);
        lemma_add_mod_noop_right(pb, bb * p, r);
        lemma_add_mod_noop(pa + aa * p, pb + bb * p, r);
    }
}

} // verus!
