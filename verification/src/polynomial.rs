//! Secret polynomials over the scalar field and their Feldman commitments.

use crate::algebra::{G1Point, G2Point, Scalar};
use crate::math::{fr_order, poly_eval, poly_eval_prefix, pow_mod};
use vstd::arithmetic::div_mod::lemma_small_mod;
use vstd::prelude::*;

verus! {

/// The residues of a sequence of scalars.
pub open spec fn scalar_vals(s: Seq<Scalar>) -> Seq<nat> {
    s.map_values(|c: Scalar| c.val())
}

/// The discrete logarithms of a sequence of G1 points.
pub open spec fn g1_dlogs(s: Seq<G1Point>) -> Seq<nat> {
    s.map_values(|p: G1Point| p.dlog())
}

/// Whether every point of a sequence of G1 points is well formed.
pub open spec fn g1_all_wf(s: Seq<G1Point>) -> bool {
    forall|i: int| 0 <= i < s.len() ==> #[trigger] s[i].wf()
}

/// The discrete logarithms of a sequence of G2 points.
pub open spec fn g2_dlogs(s: Seq<G2Point>) -> Seq<nat> {
    s.map_values(|p: G2Point| p.dlog())
}

/// Whether every point of a sequence is well formed.
pub open spec fn g2_all_wf(s: Seq<G2Point>) -> bool {
    forall|i: int| 0 <= i < s.len() ==> #[trigger] s[i].wf()
}

/// A polynomial over the scalar field, held as its coefficients in
/// ascending powers.  The constant coefficient is the dealer's contributed
/// secret.
pub struct Polynomial {
    coefs: Vec<Scalar>,
}

impl Polynomial {
    /// The residues of the coefficients, in ascending powers: the value
    /// the specifications speak of.
    pub closed spec fn coef_vals(self) -> Seq<nat> {
        scalar_vals(self.coefs@)
    }

    /// Every coefficient residue is canonical.
    pub closed spec fn wf(self) -> bool {
        forall|i: int| 0 <= i < self.coefs@.len() ==> #[trigger] self.coefs@[i].wf()
    }

    /// A polynomial with `order` coefficients sampled independently and
    /// uniformly from a cryptographically strong source.
    pub fn new(order: usize) -> (r: Self)
        ensures
            r.coef_vals().len() == order,
            r.wf(),
    {
        let mut coefs: Vec<Scalar> = Vec::new();
        let mut k: usize = 0;
        while k < order
            invariant
                k <= order,
                coefs@.len() == k,
                forall|i: int| 0 <= i < k ==> #[trigger] coefs@[i].wf(),
            decreases order - k,
        {
            coefs.push(Scalar::random());
            k = k + 1;
        }
        Polynomial { coefs }
    }

    /// The number of coefficients (the threshold `t`).
    pub fn len(&self) -> (r: usize)
        ensures
            r == self.coef_vals().len(),
    {
        self.coefs.len()
    }

    /// Evaluate the polynomial at the integer point `x`, in the scalar
    /// field: `sum of coefs[k] * x^k`.
    pub fn eval(&self, x: u32) -> (r: Scalar)
        ensures
            r.val() == poly_eval(self.coef_vals(), x as nat),
            r.wf(),
    {
        let xs = Scalar::from_u32(x);
        let mut acc = Scalar::zero();
        let mut xp = Scalar::one();
        let n = self.coefs.len();
        let mut k: usize = 0;
        while k < n
            invariant
                k <= n,
                n == self.coef_vals().len(),
                xs.val() == x as nat,
                acc.val() == poly_eval_prefix(self.coef_vals(), x as nat, k as int),
                xp.val() == pow_mod(x as nat, k as nat),
                acc.wf(),
                xp.wf(),
            decreases n - k,
        {
            let term = self.coefs[k].mul(&xp);
            proof {
                assert(self.coef_vals()[k as int] == self.coefs@[k as int].val());
            }
            acc = acc.add(&term);
            xp = xs.mul(&xp);
            k = k + 1;
        }
        acc
    }

    /// The Feldman commitment vector: each coefficient times the fixed G2
    /// generator, so each commitment's discrete logarithm is the
    /// corresponding coefficient residue.
    pub fn commitments(&self) -> (r: Vec<G2Point>)
        requires
            self.wf(),
        ensures
            g2_dlogs(r@) =~= self.coef_vals(),
            g2_all_wf(r@),
    {
        let gen = G2Point::generator();
        let mut out: Vec<G2Point> = Vec::new();
        let n = self.coefs.len();
        let mut k: usize = 0;
        while k < n
            invariant
                k <= n,
                n == self.coef_vals().len(),
                gen.dlog() == 1,
                out@.len() == k,
                forall|i: int| 0 <= i < k ==> #[trigger] out@[i].dlog() == self.coef_vals()[i],
                forall|i: int| 0 <= i < k ==> #[trigger] out@[i].wf(),
                self.wf(),
            decreases n - k,
        {
            let c = self.coefs[k];
            let p = gen.mul(&c);
            proof {
                assert(self.coefs@[k as int].wf());
                assert(1nat * c.val() == c.val()) by (nonlinear_arith);
                lemma_small_mod(c.val(), fr_order());
            }
            out.push(p);
            k = k + 1;
        }
        out
    }
}

} // verus!
