//! The per-node DKG state machine and threshold signer.
//!
//! A participant is created with its id and the group sizes `(n, t)`,
//! collects Feldman commitment vectors and shares from its peers, then
//! qualifies the dealers whose deals verify and derives its key material
//! `(sk, pk, mpk)` from the qualified set.  Afterwards it signs messages
//! with `sk`; signatures are verified against `pk` or `mpk` through the
//! pairing, and at least `t` partial signatures combine by Lagrange
//! interpolation into a signature under `mpk`.

use crate::algebra::{
    fr_inv_of, hash_point, hash_to_g1, pairing_points, random_nonzero_id, G1Point, G2Point, Scalar,
};
use crate::error::Error;
use crate::idmap::{
    contains_id, copy_ids, has_key, insert_sorted_id, lemma_key_at, lemma_push_binding,
    lemma_push_id_contains, lemma_sorted_insert, lookup_position, sorted_ids, sorted_keys,
    value_of,
};
use crate::math::{
    fr_add, fr_mul, fr_neg, fr_order, fr_reduced, fr_sub, lemma_poly_eval_prefix_add, poly_eval,
    poly_eval_prefix, pow_mod, seq_fr_add,
};
use crate::polynomial::{g1_all_wf, g1_dlogs, g2_all_wf, g2_dlogs, Polynomial};
use vstd::arithmetic::div_mod::{
    lemma_add_mod_noop, lemma_add_mod_noop_right, lemma_mul_mod_noop_left,
    lemma_mul_mod_noop_right, lemma_small_mod,
};
use vstd::arithmetic::mul::{lemma_mul_is_associative, lemma_mul_is_distributive_add};
use vstd::prelude::*;

verus! {

/// The phase of the local DKG state machine.  Transitions are one-way:
/// collecting deals, then qualified, then ready to sign.
#[derive(Clone, Copy, Debug, PartialEq, Eq, Structural)]
pub enum Phase {
    /// Accepting commitment vectors and shares from peers.
    Collecting,
    /// The qualified set is fixed; keys are not yet derived.
    Qualified,
    /// Keys are derived; the node can sign.
    Ready,
}

/// The numerator product of the Lagrange coefficient at zero for
/// `ids[exc]` over the window `[st, ed)`: the product of `-ids[i]` for
/// `i` in the window, `i != exc`.
pub open spec fn lam_num(ids: Seq<u32>, st: int, ed: int, exc: int) -> nat
    decreases ed - st,
{
    if ed <= st {
        1
    } else if ed - 1 == exc {
        lam_num(ids, st, ed - 1, exc)
    } else {
        fr_mul(lam_num(ids, st, ed - 1, exc), fr_neg(ids[ed - 1] as nat))
    }
}

/// The denominator product of the Lagrange coefficient at zero for
/// `ids[exc]` over `[st, ed)`: the product of `ids[exc] - ids[i]` for `i`
/// in the window, `i != exc`.
pub open spec fn lam_den(ids: Seq<u32>, st: int, ed: int, exc: int) -> nat
    decreases ed - st,
{
    if ed <= st {
        1
    } else if ed - 1 == exc {
        lam_den(ids, st, ed - 1, exc)
    } else {
        fr_mul(lam_den(ids, st, ed - 1, exc), fr_sub(ids[exc] as nat, ids[ed - 1] as nat))
    }
}

/// The Lagrange coefficient at zero for `ids[exc]` over `[st, ed)`:
/// numerator times the inverse of the denominator (meaningful when the
/// denominator is nonzero).
pub open spec fn lambda_at(ids: Seq<u32>, st: int, ed: int, exc: int) -> nat {
    fr_mul(lam_num(ids, st, ed, exc), fr_inv_of(lam_den(ids, st, ed, exc)))
}

/// The Lagrange combination of partial-signature logarithms over the
/// first `i` signers: the sum of `sig_j * lambda_j`, each coefficient
/// taken over the whole window.
pub open spec fn combined_sum(ids: Seq<u32>, sigs: Seq<nat>, i: int) -> nat
    decreases i,
{
    if i <= 0 {
        0
    } else {
        fr_add(
            combined_sum(ids, sigs, i - 1),
            fr_mul(sigs[i - 1], lambda_at(ids, 0, ids.len() as int, i - 1)),
        )
    }
}

/// The Lagrange-weighted sum of the signers' secret shares over the first
/// `i` signers: the scalar that interpolation at zero reconstructs.
pub open spec fn weighted_share_sum(ids: Seq<u32>, sks: Seq<nat>, i: int) -> nat
    decreases i,
{
    if i <= 0 {
        0
    } else {
        fr_add(
            weighted_share_sum(ids, sks, i - 1),
            fr_mul(sks[i - 1], lambda_at(ids, 0, ids.len() as int, i - 1)),
        )
    }
}

/// One participant of the distributed key generation.
pub struct NodeInfo {
    /// This node's identity: a nonzero 32-bit integer.
    pub id: u32,
    n: usize,
    t: usize,
    poly: Polynomial,
    commits: Vec<(u32, Vec<G2Point>)>,
    shares: Vec<(u32, Scalar)>,
    qual: Vec<u32>,
    coef: Vec<G2Point>,
    sk: Option<Scalar>,
    pk: Option<G2Point>,
    mpk: Option<G2Point>,
    phase: Phase,
}

impl NodeInfo {
    /// The threshold `t`: how many qualified dealers keys need.
    pub closed spec fn threshold(self) -> usize {
        self.t
    }

    /// The group size `n`.
    pub closed spec fn group_size(self) -> usize {
        self.n
    }

    /// The current protocol phase.
    pub closed spec fn phase_spec(self) -> Phase {
        self.phase
    }

    /// This node's identity.
    pub closed spec fn id_spec(self) -> u32 {
        self.id
    }

    /// The coefficient residues of this node's own secret polynomial.
    pub closed spec fn poly_vals(self) -> Seq<nat> {
        self.poly.coef_vals()
    }

    /// Whether a commitment vector from dealer `k` is stored.
    pub closed spec fn has_commit(self, k: u32) -> bool {
        has_key(self.commits@, k)
    }

    /// The discrete logarithms of the stored commitment vector of dealer
    /// `k` (meaningful when `has_commit`).
    pub closed spec fn commit_at(self, k: u32) -> Seq<nat> {
        g2_dlogs(value_of(self.commits@, k)@)
    }

    /// Whether a share from dealer `k` is stored.
    pub closed spec fn has_share(self, k: u32) -> bool {
        has_key(self.shares@, k)
    }

    /// The residue of the stored share from dealer `k` (meaningful when
    /// `has_share`).
    pub closed spec fn share_at(self, k: u32) -> nat {
        value_of(self.shares@, k).val()
    }

    /// The qualified dealer ids, in ascending order.
    pub closed spec fn qual_ids(self) -> Seq<u32> {
        self.qual@
    }

    /// The discrete logarithms of the aggregated commitment vector
    /// `C_0 .. C_(t-1)` (meaningful once the node is ready).
    pub closed spec fn coef_dlogs(self) -> Seq<nat> {
        g2_dlogs(self.coef@)
    }

    /// The residue of this node's secret share (meaningful once ready).
    pub closed spec fn sk_val(self) -> nat {
        self.sk->Some_0.val()
    }

    /// The discrete logarithm of this node's public share (meaningful once
    /// ready).
    pub closed spec fn pk_dlog(self) -> nat {
        self.pk->Some_0.dlog()
    }

    /// The discrete logarithm of the master public key (meaningful once
    /// ready).
    pub closed spec fn mpk_dlog(self) -> nat {
        self.mpk->Some_0.dlog()
    }

    /// How many of the first `i` stored commitment entries pass
    /// verification.
    pub closed spec fn passing_count(self, i: int) -> nat
        decreases i,
    {
        if i <= 0 {
            0
        } else {
            self.passing_count(i - 1) + if self.accepts(self.commits@[i - 1].0) {
                1nat
            } else {
                0nat
            }
        }
    }

    /// How many stored dealers pass verification in all.  Together with
    /// this node itself they form the qualified set.
    pub closed spec fn passing_total(self) -> nat {
        self.passing_count(self.commits@.len() as int)
    }

    /// The discrete logarithms of the aggregated commitment vector after
    /// folding in the first `i` qualified dealers: this node's own
    /// commitments are the base, and its own id contributes nothing
    /// further.
    pub closed spec fn agg_prefix(self, i: int) -> Seq<nat>
        decreases i,
    {
        if i <= 0 {
            self.poly.coef_vals()
        } else if self.qual@[i - 1] == self.id {
            self.agg_prefix(i - 1)
        } else {
            seq_fr_add(self.agg_prefix(i - 1), self.commit_at(self.qual@[i - 1]))
        }
    }

    /// The sum of this node's own self-share and the stored shares of the
    /// first `i` qualified dealers.
    pub closed spec fn sk_prefix(self, i: int) -> nat
        decreases i,
    {
        if i <= 0 {
            poly_eval(self.poly.coef_vals(), self.id as nat)
        } else if self.qual@[i - 1] == self.id {
            self.sk_prefix(i - 1)
        } else {
            fr_add(self.sk_prefix(i - 1), self.share_at(self.qual@[i - 1]))
        }
    }

    /// The aggregated commitment logarithms `C_0..C_(t-1)` over the whole
    /// qualified set.
    pub closed spec fn agg_full(self) -> Seq<nat> {
        self.agg_prefix(self.qual@.len() as int)
    }

    /// The secret share: the sum of all qualified dealers' shares for this
    /// node, its own included.
    pub closed spec fn sk_full(self) -> nat {
        self.sk_prefix(self.qual@.len() as int)
    }

    /// The Feldman acceptance relation: dealer `j`'s commitments and share
    /// are both present and the share is the committed polynomial
    /// evaluated at this node's id.  `verify` decides exactly this.
    pub open spec fn accepts(self, j: u32) -> bool {
        &&& self.has_commit(j)
        &&& self.has_share(j)
        &&& self.share_at(j) == poly_eval(self.commit_at(j), self.id_spec() as nat)
    }

    /// The facts the fixed qualified set carries: it is large enough,
    /// strictly ascending, holds this node's id, and every other member's
    /// deal passed verification.
    pub open spec fn qual_ok(self) -> bool {
        &&& self.qual_ids().len() >= self.threshold()
        &&& (forall|i: int, j: int|
            0 <= i < j < self.qual_ids().len() ==> #[trigger] self.qual_ids()[i]
                < #[trigger] self.qual_ids()[j])
        &&& self.qual_ids().contains(self.id_spec())
        &&& (forall|i: int|
            0 <= i < self.qual_ids().len() && self.qual_ids()[i] != self.id_spec() ==> self.accepts(
                #[trigger] self.qual_ids()[i],
            ))
    }

    /// The facts the derived keys carry, including key consistency:
    /// `sk` and `pk` agree (`sk·G2 == pk`), `pk` is the aggregated
    /// commitment polynomial evaluated at this node's id, and `mpk` is its
    /// constant term.
    pub open spec fn keys_ok(self) -> bool {
        &&& self.coef_dlogs().len() == self.threshold()
        &&& fr_reduced(self.sk_val())
        &&& fr_reduced(self.pk_dlog())
        &&& fr_reduced(self.mpk_dlog())
        &&& self.pk_dlog() == poly_eval(self.coef_dlogs(), self.id_spec() as nat)
        &&& self.mpk_dlog() == self.coef_dlogs()[0]
        &&& self.sk_val() == self.pk_dlog()
    }

    /// The state invariant, established by `new` and preserved by every
    /// operation.
    pub closed spec fn wf(self) -> bool {
        &&& 1 <= self.t <= self.n
        &&& self.id >= 1
        &&& self.poly.wf()
        &&& self.poly.coef_vals().len() == self.t
        &&& sorted_keys(self.commits@)
        &&& sorted_keys(self.shares@)
        &&& (forall|i: int|
            0 <= i < self.commits@.len() ==> (#[trigger] self.commits@[i]).1@.len() == self.t)
        &&& (forall|i: int|
            0 <= i < self.commits@.len() ==> g2_all_wf((#[trigger] self.commits@[i]).1@))
        &&& (forall|i: int| 0 <= i < self.shares@.len() ==> (#[trigger] self.shares@[i]).1.wf())
        &&& (forall|i: int| 0 <= i < self.commits@.len() ==> (#[trigger] self.commits@[i]).0 != self.id)
        &&& (forall|i: int| 0 <= i < self.shares@.len() ==> (#[trigger] self.shares@[i]).0 != self.id)
        &&& match self.phase {
            Phase::Collecting => {
                &&& self.qual@.len() == 0
                &&& self.coef@.len() == 0
                &&& self.sk is None
                &&& self.pk is None
                &&& self.mpk is None
            },
            Phase::Qualified => {
                &&& self.qual_ok()
                &&& self.coef@.len() == 0
                &&& self.sk is None
                &&& self.pk is None
                &&& self.mpk is None
            },
            Phase::Ready => {
                &&& self.qual_ok()
                &&& self.sk is Some
                &&& self.pk is Some
                &&& self.mpk is Some
                &&& g2_all_wf(self.coef@)
                &&& self.keys_ok()
            },
        }
    }

    /// Whether two states carry the same identity, sizes, polynomial,
    /// phase and qualified set.
    pub open spec fn same_frame(a: NodeInfo, b: NodeInfo) -> bool {
        &&& b.id_spec() == a.id_spec()
        &&& b.threshold() == a.threshold()
        &&& b.group_size() == a.group_size()
        &&& b.poly_vals() == a.poly_vals()
        &&& b.phase_spec() == a.phase_spec()
        &&& b.qual_ids() == a.qual_ids()
    }

    /// Whether two states store the same commitment vectors.
    pub open spec fn same_commits(a: NodeInfo, b: NodeInfo) -> bool {
        forall|x: u32|
            (#[trigger] b.has_commit(x)) == a.has_commit(x) && (a.has_commit(x) ==> b.commit_at(x)
                == a.commit_at(x))
    }

    /// Whether two states store the same shares.
    pub open spec fn same_shares(a: NodeInfo, b: NodeInfo) -> bool {
        forall|x: u32|
            (#[trigger] b.has_share(x)) == a.has_share(x) && (a.has_share(x) ==> b.share_at(x)
                == a.share_at(x))
    }

    /// Whether `b` stores exactly `a`'s commitment vectors plus a new one
    /// under `k` with discrete logarithms `dlogs`.
    pub open spec fn commits_extended(a: NodeInfo, b: NodeInfo, k: u32, dlogs: Seq<nat>) -> bool {
        &&& b.has_commit(k)
        &&& b.commit_at(k) == dlogs
        &&& (forall|x: u32| x != k ==> (#[trigger] b.has_commit(x)) == a.has_commit(x))
        &&& (forall|x: u32|
            x != k && a.has_commit(x) ==> (#[trigger] b.commit_at(x)) == a.commit_at(x))
    }

    /// Whether `b` stores exactly `a`'s shares plus a new one under `k`
    /// with residue `v`.
    pub open spec fn shares_extended(a: NodeInfo, b: NodeInfo, k: u32, v: nat) -> bool {
        &&& b.has_share(k)
        &&& b.share_at(k) == v
        &&& (forall|x: u32| x != k ==> (#[trigger] b.has_share(x)) == a.has_share(x))
        &&& (forall|x: u32|
            x != k && a.has_share(x) ==> (#[trigger] b.share_at(x)) == a.share_at(x))
    }

    /// Create a participant for a group of `n` nodes with threshold `t`.
    /// A zero id asks for a uniformly random nonzero one.  The sizes must
    /// satisfy `1 <= t <= n`; otherwise construction is rejected.
    pub fn new(id: u32, n: usize, t: usize) -> (r: Result<NodeInfo, Error>)
        ensures
            (r is Err) == (n == 0 || t == 0 || t > n),
            r matches Err(e) ==> e == Error::InvalidParameters,
            r matches Ok(node) ==> {
                &&& node.wf()
                &&& node.phase_spec() == Phase::Collecting
                &&& node.threshold() == t
                &&& node.group_size() == n
                &&& node.id_spec() >= 1
                &&& (id != 0 ==> node.id_spec() == id)
                &&& node.poly_vals().len() == t
                &&& node.qual_ids().len() == 0
                &&& (forall|k: u32| !(#[trigger] node.has_commit(k)))
                &&& (forall|k: u32| !(#[trigger] node.has_share(k)))
            },
    {
        if n < t || t == 0 || n == 0 {
            return Err(Error::InvalidParameters);
        }
        let real_id = if id == 0 {
            random_nonzero_id()
        } else {
            id
        };
        let node = NodeInfo {
            id: real_id,
            n,
            t,
            poly: Polynomial::new(t),
            commits: Vec::new(),
            shares: Vec::new(),
            qual: Vec::new(),
            coef: Vec::new(),
            sk: None,
            pk: None,
            mpk: None,
            phase: Phase::Collecting,
        };
        proof {
            assert forall|k: u32| !(#[trigger] node.has_commit(k)) by {
                if has_key(node.commits@, k) {
                    let i = choose|i: int|
                        0 <= i < node.commits@.len() && (#[trigger] node.commits@[i]).0 == k;
                    assert(false);
                }
            }
            assert forall|k: u32| !(#[trigger] node.has_share(k)) by {
                if has_key(node.shares@, k) {
                    let i = choose|i: int|
                        0 <= i < node.shares@.len() && (#[trigger] node.shares@[i]).0 == k;
                    assert(false);
                }
            }
        }
        Ok(node)
    }

    /// Store dealer `secret_id`'s commitment vector.  The vector must have
    /// length `t`; a dealer is stored at most once, and this node is its
    /// own implicit dealer, so its own id is refused as a duplicate.
    pub fn set_node_coefs(&mut self, secret_id: u32, coefs: &Vec<G2Point>) -> (r: Result<
        (),
        Error,
    >)
        requires
            old(self).wf(),
            g2_all_wf(coefs@),
        ensures
            final(self).wf(),
            old(self).phase_spec() != Phase::Collecting ==> r == Err::<(), Error>(Error::OutOfOrder)
                && *final(self) == *old(self),
            old(self).phase_spec() == Phase::Collecting && coefs@.len() != old(self).threshold()
                ==> r == Err::<(), Error>(Error::LengthMismatch) && *final(self) == *old(self),
            old(self).phase_spec() == Phase::Collecting && coefs@.len() == old(self).threshold()
                && (secret_id == old(self).id_spec() || old(self).has_commit(secret_id)) ==> r
                == Err::<(), Error>(Error::DuplicateCommitments) && *final(self) == *old(self),
            old(self).phase_spec() == Phase::Collecting && coefs@.len() == old(self).threshold()
                && secret_id != old(self).id_spec() && !old(self).has_commit(secret_id) ==> r
                == Ok::<(), Error>(())
                && Self::commits_extended(*old(self), *final(self), secret_id, g2_dlogs(coefs@))
                && Self::same_shares(*old(self), *final(self))
                && Self::same_frame(*old(self), *final(self)),
    {
        if self.phase != Phase::Collecting {
            return Err(Error::OutOfOrder);
        }
        if coefs.len() != self.t {
            return Err(Error::LengthMismatch);
        }
        if secret_id == self.id {
            return Err(Error::DuplicateCommitments);
        }
        let (pos, found) = lookup_position(&self.commits, secret_id);
        if found {
            return Err(Error::DuplicateCommitments);
        }
        let copy = copy_points(coefs);
        proof {
            lemma_sorted_insert(self.commits@, pos as int, secret_id, copy);
            self.commits@.insert_ensures(pos as int, (secret_id, copy));
        }
        self.commits.insert(pos, (secret_id, copy));
        Ok(())
    }

    /// Store dealer `secret_id`'s share for this node.  A dealer is stored
    /// at most once, and this node is its own implicit dealer, so its own
    /// id is refused as a duplicate.
    pub fn set_node_secrets(&mut self, secret_id: u32, secret: Scalar) -> (r: Result<(), Error>)
        requires
            old(self).wf(),
            secret.wf(),
        ensures
            final(self).wf(),
            old(self).phase_spec() != Phase::Collecting ==> r == Err::<(), Error>(Error::OutOfOrder)
                && *final(self) == *old(self),
            old(self).phase_spec() == Phase::Collecting
                && (secret_id == old(self).id_spec() || old(self).has_share(secret_id)) ==> r
                == Err::<(), Error>(Error::DuplicateShare) && *final(self) == *old(self),
            old(self).phase_spec() == Phase::Collecting && secret_id != old(self).id_spec()
                && !old(self).has_share(secret_id) ==> r == Ok::<(), Error>(())
                && Self::shares_extended(*old(self), *final(self), secret_id, secret.val())
                && Self::same_commits(*old(self), *final(self))
                && Self::same_frame(*old(self), *final(self)),
    {
        if self.phase != Phase::Collecting {
            return Err(Error::OutOfOrder);
        }
        if secret_id == self.id {
            return Err(Error::DuplicateShare);
        }
        let (pos, found) = lookup_position(&self.shares, secret_id);
        if found {
            return Err(Error::DuplicateShare);
        }
        proof {
            lemma_sorted_insert(self.shares@, pos as int, secret_id, secret);
            self.shares@.insert_ensures(pos as int, (secret_id, secret));
        }
        self.shares.insert(pos, (secret_id, secret));
        Ok(())
    }
}

impl NodeInfo {
    /// Check dealer `secret_id`'s deal: true exactly when both its
    /// commitment vector and its share are stored and the Feldman check
    /// `s·G2 == sum of id^k · A[k]` holds.
    pub fn verify(&self, secret_id: u32) -> (r: bool)
        requires
            self.wf(),
        ensures
            r == self.accepts(secret_id),
    {
        let (cpos, cfound) = lookup_position(&self.commits, secret_id);
        if !cfound {
            return false;
        }
        let (spos, sfound) = lookup_position(&self.shares, secret_id);
        if !sfound {
            return false;
        }
        let secret = self.shares[spos].1;
        proof {
            assert(g2_all_wf(self.commits@[cpos as int].1@));
            assert(self.shares@[spos as int].1.wf());
        }
        let lhs = G2Point::generator().mul(&secret);
        let rhs = eval_commitments(&self.commits[cpos].1, self.id);
        proof {
            assert(1nat * secret.val() == secret.val()) by (nonlinear_arith);
            lemma_small_mod(secret.val(), fr_order());
        }
        lhs.equals(&rhs)
    }

    /// Fix the qualified set: scan the stored dealers in ascending id
    /// order, keep those whose deals verify, evict the rest (their
    /// commitments and shares are dropped, and dropped for good), and join
    /// this node's own id to the set.  Fails with `QualTooSmall` (leaving
    /// the state untouched) when fewer than `t` dealers qualify.
    pub fn get_qual(&mut self) -> (r: Result<Vec<u32>, Error>)
        requires
            old(self).wf(),
        ensures
            final(self).wf(),
            old(self).phase_spec() != Phase::Collecting ==> r == Err::<Vec<u32>, Error>(
                Error::OutOfOrder,
            ) && *final(self) == *old(self),
            old(self).phase_spec() == Phase::Collecting && old(self).passing_total() + 1 < old(self).threshold() ==> r == Err::<Vec<u32>, Error>(Error::QualTooSmall) && *final(self)
                == *old(self),
            old(self).phase_spec() == Phase::Collecting && old(self).passing_total() + 1 >= old(self).threshold() ==> {
                &&& r matches Ok(q) && q@ == final(self).qual_ids()
                &&& final(self).phase_spec() == Phase::Qualified
                &&& final(self).qual_ok()
                &&& (forall|x: u32|
                    #[trigger] final(self).qual_ids().contains(x) <==> (x == old(self).id_spec()
                        || (old(self).has_commit(x) && old(self).accepts(x))))
                &&& (forall|x: u32|
                    (#[trigger] final(self).has_commit(x)) <==> (old(self).has_commit(x) && final(self).qual_ids().contains(x)))
                &&& (forall|x: u32|
                    (#[trigger] final(self).has_share(x)) <==> (old(self).has_share(x) && final(self).qual_ids().contains(x)))
                &&& (forall|x: u32|
                    #[trigger] final(self).has_commit(x) ==> final(self).commit_at(x) == old(self).commit_at(x))
                &&& (forall|x: u32|
                    #[trigger] final(self).has_share(x) ==> final(self).share_at(x) == old(self).share_at(x))
                &&& final(self).id_spec() == old(self).id_spec()
                &&& final(self).threshold() == old(self).threshold()
                &&& final(self).group_size() == old(self).group_size()
                &&& final(self).poly_vals() == old(self).poly_vals()
            },
    {
        if self.phase != Phase::Collecting {
            return Err(Error::OutOfOrder);
        }
        let n = self.commits.len();
        let mut q: Vec<u32> = Vec::new();
        let mut i: usize = 0;
        while i < n
            invariant
                *self == *old(self),
                self.wf(),
                self.phase_spec() == Phase::Collecting,
                i <= n,
                n == self.commits@.len(),
                q@.len() == self.passing_count(i as int),
                sorted_ids(q@),
                forall|p: int|
                    0 <= p < i ==> q@.contains((#[trigger] self.commits@[p]).0) == self.accepts(
                        self.commits@[p].0,
                    ),
                forall|jj: int| #![trigger q@[jj]]
                    0 <= jj < q@.len() ==> exists|p: int|
                        0 <= p < i && q@[jj] == self.commits@[p].0,
            decreases n - i,
        {
            let cid = self.commits[i].0;
            let ok = self.verify(cid);
            let ghost qpre = q@;
            if ok {
                proof {
                    assert forall|jj: int| 0 <= jj < q@.len() implies q@[jj] < cid by {
                        let p = choose|p: int| 0 <= p < i && q@[jj] == self.commits@[p].0;
                        assert(self.commits@[p].0 < self.commits@[i as int].0);
                    }
                    assert(!q@.contains(cid)) by {
                        if q@.contains(cid) {
                            let jj = choose|jj: int| 0 <= jj < q@.len() && q@[jj] == cid;
                            assert(q@[jj] < cid);
                        }
                    }
                }
                q.push(cid);
                proof {
                    assert forall|p: int|
                        0 <= p < i + 1 implies q@.contains((#[trigger] self.commits@[p]).0)
                        == self.accepts(self.commits@[p].0) by {
                        lemma_push_id_contains(qpre, cid, self.commits@[p].0);
                        if p < i {
                            assert(self.commits@[p].0 < self.commits@[i as int].0);
                        }
                    }
                    assert forall|jj: int| #![trigger q@[jj]] 0 <= jj < q@.len() implies exists|
                        p: int,
                    | 0 <= p < i + 1 && q@[jj] == self.commits@[p].0 by {
                        if jj < qpre.len() {
                            let p = choose|p: int| 0 <= p < i && qpre[jj] == self.commits@[p].0;
                            assert(q@[jj] == self.commits@[p].0);
                        } else {
                            assert(q@[jj] == self.commits@[i as int].0);
                        }
                    }
                }
            } else {
                proof {
                    assert(!q@.contains(cid)) by {
                        if q@.contains(cid) {
                            let jj = choose|jj: int| 0 <= jj < q@.len() && q@[jj] == cid;
                            let p = choose|p: int| 0 <= p < i && q@[jj] == self.commits@[p].0;
                            assert(self.accepts(self.commits@[p].0));
                            lemma_key_at(self.commits@, cid, p);
                            lemma_key_at(self.commits@, cid, i as int);
                        }
                    }
                    assert forall|p: int|
                        0 <= p < i + 1 implies q@.contains((#[trigger] self.commits@[p]).0)
                        == self.accepts(self.commits@[p].0) by {}
                }
            }
            i = i + 1;
        }
        proof {
            assert(self.passing_count(n as int) == self.passing_total());
        }
        if q.len() < self.t - 1 {
            return Err(Error::QualTooSmall);
        }
        proof {
            assert(!q@.contains(self.id)) by {
                if q@.contains(self.id) {
                    let jj = choose|jj: int| 0 <= jj < q@.len() && q@[jj] == self.id;
                    let p = choose|p: int| 0 <= p < n as int && q@[jj] == self.commits@[p].0;
                    assert(self.commits@[p].0 != self.id);
                }
            }
        }
        let ghost q0 = q@;
        insert_sorted_id(&mut q, self.id);
        let ghost qfull = q@;
        let ghost oldc = self.commits@;
        let ghost olds = self.shares@;

        let mut newc: Vec<(u32, Vec<G2Point>)> = Vec::new();
        let ghost mut csrc: Seq<int> = Seq::<int>::empty();
        let mut p: usize = 0;
        while p < n
            invariant
                *self == *old(self),
                self.wf(),
                self.phase_spec() == Phase::Collecting,
                p <= n,
                n == self.commits@.len(),
                qfull == q@,
                sorted_keys(newc@),
                csrc.len() == newc@.len(),
                forall|u: int|
                    0 <= u < p && q@.contains((#[trigger] self.commits@[u]).0) ==> has_key(
                        newc@,
                        self.commits@[u].0,
                    ) && value_of(newc@, self.commits@[u].0)@ == self.commits@[u].1@,
                forall|jj: int| 0 <= jj < newc@.len() ==> 0 <= #[trigger] csrc[jj] < p,
                forall|jj: int|
                    0 <= jj < newc@.len() ==> (#[trigger] newc@[jj]).0 == self.commits@[csrc[jj]].0
                        && newc@[jj].1@ == self.commits@[csrc[jj]].1@ && q@.contains(
                        self.commits@[csrc[jj]].0,
                    ),
            decreases n - p,
        {
            let cid = self.commits[p].0;
            if contains_id(&q, cid) {
                let cv = copy_points(&self.commits[p].1);
                let ghost cpre = newc@;
                let ghost csrcpre = csrc;
                proof {
                    assert forall|jj: int| 0 <= jj < newc@.len() implies (#[trigger] newc@[jj]).0
                        < cid by {
                        let u = csrc[jj];
                        assert(newc@[jj].0 == self.commits@[u].0);
                        assert(self.commits@[u].0 < self.commits@[p as int].0);
                    }
                    lemma_push_binding(cpre, cid, cv);
                    csrc = csrc.push(p as int);
                }
                newc.push((cid, cv));
                proof {
                    assert forall|u: int|
                        0 <= u < p + 1 && q@.contains((#[trigger] self.commits@[u]).0)
                        implies has_key(newc@, self.commits@[u].0) && value_of(
                        newc@,
                        self.commits@[u].0,
                    )@ == self.commits@[u].1@ by {
                        if u < p {
                            if self.commits@[u].0 == cid {
                                assert(self.commits@[u].0 < self.commits@[p as int].0);
                            }
                        }
                    }
                    assert forall|jj: int| 0 <= jj < newc@.len() implies 0 <= #[trigger] csrc[jj]
                        < p + 1 by {
                        if jj < cpre.len() {
                            assert(csrc[jj] == csrcpre[jj]);
                        } else {
                            assert(csrc[jj] == p as int);
                        }
                    }
                    assert forall|jj: int| 0 <= jj < newc@.len() implies (#[trigger] newc@[jj]).0
                        == self.commits@[csrc[jj]].0 && newc@[jj].1@ == self.commits@[csrc[jj]].1@
                        && q@.contains(self.commits@[csrc[jj]].0) by {
                        if jj < cpre.len() {
                            assert(newc@[jj] == cpre[jj]);
                            assert(csrc[jj] == csrcpre[jj]);
                            let u = csrcpre[jj];
                            assert(cpre[jj].0 == self.commits@[u].0);
                            assert(cpre[jj].1@ == self.commits@[u].1@);
                            assert(q@.contains(self.commits@[u].0));
                        } else {
                            assert(newc@[jj] == (cid, cv));
                            assert(csrc[jj] == p as int);
                            assert(cv@ == self.commits@[p as int].1@);
                            assert(q@.contains(self.commits@[p as int].0));
                        }
                    }
                }
            } else {
                proof {
                    assert forall|u: int|
                        0 <= u < p + 1 && q@.contains((#[trigger] self.commits@[u]).0)
                        implies has_key(newc@, self.commits@[u].0) && value_of(
                        newc@,
                        self.commits@[u].0,
                    )@ == self.commits@[u].1@ by {}
                }
            }
            p = p + 1;
        }

        let mut news: Vec<(u32, Scalar)> = Vec::new();
        let ghost mut ssrc: Seq<int> = Seq::<int>::empty();
        let mut sp: usize = 0;
        while sp < self.shares.len()
            invariant
                *self == *old(self),
                self.wf(),
                self.phase_spec() == Phase::Collecting,
                sp <= self.shares@.len(),
                qfull == q@,
                sorted_keys(news@),
                ssrc.len() == news@.len(),
                forall|u: int|
                    0 <= u < sp && q@.contains((#[trigger] self.shares@[u]).0) ==> has_key(
                        news@,
                        self.shares@[u].0,
                    ) && value_of(news@, self.shares@[u].0) == self.shares@[u].1,
                forall|jj: int| 0 <= jj < news@.len() ==> 0 <= #[trigger] ssrc[jj] < sp,
                forall|jj: int|
                    0 <= jj < news@.len() ==> (#[trigger] news@[jj]).0 == self.shares@[ssrc[jj]].0
                        && news@[jj].1 == self.shares@[ssrc[jj]].1 && q@.contains(
                        self.shares@[ssrc[jj]].0,
                    ),
            decreases self.shares@.len() - sp,
        {
            let cid = self.shares[sp].0;
            if contains_id(&q, cid) {
                let sv = self.shares[sp].1;
                let ghost spre = news@;
                let ghost ssrcpre = ssrc;
                proof {
                    assert forall|jj: int| 0 <= jj < news@.len() implies (#[trigger] news@[jj]).0
                        < cid by {
                        let u = ssrc[jj];
                        assert(news@[jj].0 == self.shares@[u].0);
                        assert(self.shares@[u].0 < self.shares@[sp as int].0);
                    }
                    lemma_push_binding(spre, cid, sv);
                    ssrc = ssrc.push(sp as int);
                }
                news.push((cid, sv));
                proof {
                    assert forall|u: int|
                        0 <= u < sp + 1 && q@.contains((#[trigger] self.shares@[u]).0)
                        implies has_key(news@, self.shares@[u].0) && value_of(
                        news@,
                        self.shares@[u].0,
                    ) == self.shares@[u].1 by {
                        if u < sp {
                            if self.shares@[u].0 == cid {
                                assert(self.shares@[u].0 < self.shares@[sp as int].0);
                            }
                        }
                    }
                    assert forall|jj: int| 0 <= jj < news@.len() implies 0 <= #[trigger] ssrc[jj]
                        < sp + 1 by {
                        if jj < spre.len() {
                            assert(ssrc[jj] == ssrcpre[jj]);
                        } else {
                            assert(ssrc[jj] == sp as int);
                        }
                    }
                    assert forall|jj: int| 0 <= jj < news@.len() implies (#[trigger] news@[jj]).0
                        == self.shares@[ssrc[jj]].0 && news@[jj].1 == self.shares@[ssrc[jj]].1
                        && q@.contains(self.shares@[ssrc[jj]].0) by {
                        if jj < spre.len() {
                            assert(news@[jj] == spre[jj]);
                            assert(ssrc[jj] == ssrcpre[jj]);
                            let u = ssrcpre[jj];
                            assert(spre[jj].0 == self.shares@[u].0);
                            assert(spre[jj].1 == self.shares@[u].1);
                            assert(q@.contains(self.shares@[u].0));
                        } else {
                            assert(news@[jj] == (cid, sv));
                            assert(ssrc[jj] == sp as int);
                            assert(news@[jj].0 == self.shares@[sp as int].0);
                            assert(news@[jj].1 == self.shares@[sp as int].1);
                            assert(q@.contains(self.shares@[sp as int].0));
                        }
                    }
                }
            } else {
                proof {
                    assert forall|u: int|
                        0 <= u < sp + 1 && q@.contains((#[trigger] self.shares@[u]).0)
                        implies has_key(news@, self.shares@[u].0) && value_of(
                        news@,
                        self.shares@[u].0,
                    ) == self.shares@[u].1 by {}
                }
            }
            sp = sp + 1;
        }

        let ghost newcv = newc@;
        let ghost newsv = news@;
        self.commits = newc;
        self.shares = news;
        self.qual = q;
        self.phase = Phase::Qualified;
        let out = copy_ids(&self.qual);
        proof {
            let oldn = *old(self);
            let nn = n as int;
            assert(oldc == oldn.commits@);
            assert(olds == oldn.shares@);

            // Shape of the kept commitment entries: each is one of the old
            // entries, so lengths, well-formedness and the no-self-key facts
            // carry over.
            assert forall|jj: int| 0 <= jj < newcv.len() implies {
                &&& (#[trigger] newcv[jj]).1@.len() == oldn.threshold()
                &&& g2_all_wf(newcv[jj].1@)
                &&& newcv[jj].0 != oldn.id_spec()
            } by {
                let u = csrc[jj];
                assert((#[trigger] oldn.commits@[u]).1@.len() == oldn.threshold());
                assert(g2_all_wf(oldn.commits@[u].1@));
                assert(oldn.commits@[u].0 != oldn.id_spec());
            }
            assert forall|jj: int| 0 <= jj < newsv.len() implies {
                &&& (#[trigger] newsv[jj]).1.wf()
                &&& newsv[jj].0 != oldn.id_spec()
            } by {
                let u = ssrc[jj];
                assert((#[trigger] oldn.shares@[u]).1.wf());
                assert(oldn.shares@[u].0 != oldn.id_spec());
            }

            // Membership of the qualified set.
            assert forall|x: u32| #[trigger] qfull.contains(x) <==> (x == oldn.id_spec() || (
            oldn.has_commit(x) && oldn.accepts(x))) by {
                if qfull.contains(x) && x != oldn.id_spec() {
                    assert(q0.contains(x));
                    let jj = choose|jj: int| 0 <= jj < q0.len() && q0[jj] == x;
                    let p = choose|p: int| 0 <= p < nn && q0[jj] == oldn.commits@[p].0;
                    lemma_key_at(oldn.commits@, x, p);
                    assert(q0.contains((#[trigger] oldn.commits@[p]).0) == oldn.accepts(oldn.commits@[p].0));
                }
                if x != oldn.id_spec() && oldn.has_commit(x) && oldn.accepts(x) {
                    let w = choose|w: int| 0 <= w < oldn.commits@.len() && (#[trigger] oldn.commits@[w]).0 == x;
                    assert(q0.contains((#[trigger] oldn.commits@[w]).0) == oldn.accepts(oldn.commits@[w].0));
                    assert(q0.contains(x));
                }
                if x == oldn.id_spec() {
                    assert(qfull.contains(x));
                }
            }

            // The kept commitment map holds exactly the qualified dealers
            // among the old ones, with unchanged values.
            assert forall|x: u32| (#[trigger] has_key(newcv, x)) <==> (oldn.has_commit(x)
                && qfull.contains(x)) by {
                if has_key(newcv, x) {
                    let jj = choose|jj: int| 0 <= jj < newcv.len() && (#[trigger] newcv[jj]).0 == x;
                    let u = csrc[jj];
                    lemma_key_at(oldn.commits@, x, u);
                }
                if oldn.has_commit(x) && qfull.contains(x) {
                    let w = choose|w: int| 0 <= w < oldn.commits@.len() && (#[trigger] oldn.commits@[w]).0 == x;
                    assert(qfull.contains((#[trigger] oldn.commits@[w]).0));
                    assert(has_key(newcv, oldn.commits@[w].0));
                }
            }
            assert forall|x: u32| #[trigger] has_key(newcv, x) implies g2_dlogs(value_of(
                newcv,
                x,
            )@) == oldn.commit_at(x) by {
                let w = choose|w: int| 0 <= w < oldn.commits@.len() && (#[trigger] oldn.commits@[w]).0 == x;
                assert(qfull.contains((#[trigger] oldn.commits@[w]).0));
                assert(value_of(newcv, oldn.commits@[w].0)@ == oldn.commits@[w].1@);
                lemma_key_at(oldn.commits@, x, w);
            }
            assert forall|x: u32| (#[trigger] has_key(newsv, x)) <==> (oldn.has_share(x)
                && qfull.contains(x)) by {
                if has_key(newsv, x) {
                    let jj = choose|jj: int| 0 <= jj < newsv.len() && (#[trigger] newsv[jj]).0 == x;
                    let u = ssrc[jj];
                    lemma_key_at(oldn.shares@, x, u);
                }
                if oldn.has_share(x) && qfull.contains(x) {
                    let w = choose|w: int| 0 <= w < oldn.shares@.len() && (#[trigger] oldn.shares@[w]).0 == x;
                    assert(qfull.contains((#[trigger] oldn.shares@[w]).0));
                    assert(has_key(newsv, oldn.shares@[w].0));
                }
            }
            assert forall|x: u32| #[trigger] has_key(newsv, x) implies value_of(newsv, x).val()
                == oldn.share_at(x) by {
                let w = choose|w: int| 0 <= w < oldn.shares@.len() && (#[trigger] oldn.shares@[w]).0 == x;
                assert(qfull.contains((#[trigger] oldn.shares@[w]).0));
                assert(value_of(newsv, oldn.shares@[w].0) == oldn.shares@[w].1);
                lemma_key_at(oldn.shares@, x, w);
            }

            // The fixed qualified set is in order: large enough, ascending,
            // holds this node, and every other member's deal verified and
            // was kept.
            assert(qfull.len() == q0.len() + 1);
            assert(qfull.len() >= oldn.threshold());
            assert forall|i2: int|
                0 <= i2 < qfull.len() && qfull[i2] != oldn.id_spec() implies self.accepts(
                #[trigger] qfull[i2],
            ) by {
                let x = qfull[i2];
                assert(qfull.contains(x));
                assert(oldn.has_commit(x) && oldn.accepts(x));
                assert(has_key(newcv, x));
                assert(has_key(newsv, x));
                assert(g2_dlogs(value_of(newcv, x)@) == oldn.commit_at(x));
                assert(value_of(newsv, x).val() == oldn.share_at(x));
            }
            assert(self.qual_ok());
            assert(self.wf());
        }
        Ok(out)
    }

    /// Derive the key material from the qualified set: aggregate the
    /// qualified dealers' commitment vectors into `C_0..C_(t-1)`, sum
    /// their shares into `sk`, evaluate the aggregate at this node's id
    /// for `pk`, and take `C_0` as the master public key.  Key consistency
    /// (`sk·G2 == pk`) holds by the homomorphism of the commitments.
    pub fn gen_pk_sk(&mut self) -> (r: Result<(), Error>)
        requires
            old(self).wf(),
        ensures
            final(self).wf(),
            old(self).phase_spec() != Phase::Qualified ==> r == Err::<(), Error>(Error::OutOfOrder)
                && *final(self) == *old(self),
            old(self).phase_spec() == Phase::Qualified ==> {
                &&& r == Ok::<(), Error>(())
                &&& final(self).phase_spec() == Phase::Ready
                &&& final(self).keys_ok()
                &&& final(self).qual_ok()
                &&& final(self).coef_dlogs() == old(self).agg_full()
                &&& final(self).sk_val() == old(self).sk_full()
                &&& final(self).qual_ids() == old(self).qual_ids()
                &&& Self::same_commits(*old(self), *final(self))
                &&& Self::same_shares(*old(self), *final(self))
                &&& final(self).id_spec() == old(self).id_spec()
                &&& final(self).threshold() == old(self).threshold()
                &&& final(self).group_size() == old(self).group_size()
                &&& final(self).poly_vals() == old(self).poly_vals()
            },
    {
        if self.phase != Phase::Qualified {
            return Err(Error::OutOfOrder);
        }
        let mut agg = self.poly.commitments();
        let mut skacc = self.poly.eval(self.id);
        proof {
            assert(g2_dlogs(agg@) =~= self.agg_prefix(0));
        }
        let qlen = self.qual.len();
        let mut i: usize = 0;
        while i < qlen
            invariant
                *self == *old(self),
                self.wf(),
                self.phase_spec() == Phase::Qualified,
                i <= qlen,
                qlen == self.qual@.len(),
                agg@.len() == self.threshold(),
                g2_all_wf(agg@),
                g2_dlogs(agg@) == self.agg_prefix(i as int),
                skacc.val() == self.sk_prefix(i as int),
                skacc.wf(),
                poly_eval(g2_dlogs(agg@), self.id_spec() as nat) == skacc.val(),
            decreases qlen - i,
        {
            let qid = self.qual[i];
            if qid != self.id {
                proof {
                    assert(self.accepts(self.qual_ids()[i as int]));
                }
                let (cpos, cfound) = lookup_position(&self.commits, qid);
                if !cfound {
                    return Err(Error::MissingCoefficient(qid));
                }
                let (spos, sfound) = lookup_position(&self.shares, qid);
                if !sfound {
                    return Err(Error::MissingCoefficient(qid));
                }
                let ghost aggpre = agg@;
                proof {
                    assert((#[trigger] self.commits@[cpos as int]).1@.len() == self.threshold());
                    assert(g2_all_wf(self.commits@[cpos as int].1@));
                    assert(value_of(self.commits@, qid) == self.commits@[cpos as int].1);
                    assert(value_of(self.shares@, qid) == self.shares@[spos as int].1);
                }
                let tlen = agg.len();
                let mut k: usize = 0;
                while k < tlen
                    invariant
                        *self == *old(self),
                        self.wf(),
                        k <= tlen,
                        tlen == aggpre.len(),
                        agg@.len() == tlen,
                        0 <= cpos < self.commits@.len(),
                        self.commits@[cpos as int].1@.len() == tlen,
                        g2_all_wf(self.commits@[cpos as int].1@),
                        g2_all_wf(aggpre),
                        forall|x: int|
                            0 <= x < k ==> (#[trigger] agg@[x]).dlog() == fr_add(
                                aggpre[x].dlog(),
                                self.commits@[cpos as int].1@[x].dlog(),
                            ) && agg@[x].wf(),
                        forall|x: int| k <= x < tlen ==> agg@[x] == aggpre[x],
                    decreases tlen - k,
                {
                    proof {
                        assert(agg@[k as int] == aggpre[k as int]);
                        assert(aggpre[k as int].wf());
                        assert(self.commits@[cpos as int].1@[k as int].wf());
                    }
                    let term = agg[k].add(&self.commits[cpos].1[k]);
                    let ghost aggmid = agg@;
                    vstd::std_specs::core::index_set(&mut agg, k, term);
                    proof {
                        assert(agg@ == aggmid.update(k as int, term));
                    }
                    k = k + 1;
                }
                let sv = self.shares[spos].1;
                proof {
                    assert(self.shares@[spos as int].1.wf());
                }
                skacc = skacc.add(&sv);
                proof {
                    let qid2 = self.qual_ids()[i as int];
                    assert(self.commit_at(qid2) == g2_dlogs(self.commits@[cpos as int].1@));
                    assert(g2_dlogs(agg@) =~= seq_fr_add(g2_dlogs(aggpre), self.commit_at(qid2)));
                    assert(self.agg_prefix(i + 1) == seq_fr_add(
                        self.agg_prefix(i as int),
                        self.commit_at(qid2),
                    ));
                    lemma_poly_eval_prefix_add(
                        g2_dlogs(aggpre),
                        self.commit_at(qid2),
                        self.id_spec() as nat,
                        tlen as int,
                    );
                    assert(poly_eval(self.commit_at(qid2), self.id_spec() as nat)
                        == self.share_at(qid2));
                }
            }
            i = i + 1;
        }
        let pkp = eval_commitments(&agg, self.id);
        let mpkp = agg[0];
        let skv = skacc;
        let ghost aggv = agg@;
        self.coef = agg;
        self.sk = Some(skv);
        self.pk = Some(pkp);
        self.mpk = Some(mpkp);
        self.phase = Phase::Ready;
        proof {
            assert(self.coef_dlogs() == g2_dlogs(aggv));
            assert(g2_all_wf(self.coef@)) by {
                assert forall|x: int| 0 <= x < self.coef@.len() implies (
                #[trigger] self.coef@[x]).wf() by {
                    assert(aggv[x].wf());
                }
            }
            assert(aggv[0].wf());
            assert(g2_dlogs(aggv)[0] == aggv[0].dlog());
            assert(fr_reduced(self.mpk_dlog()));
            assert(self.pk_dlog() == poly_eval(self.coef_dlogs(), self.id_spec() as nat));
            assert(self.sk_val() == self.pk_dlog());
            assert(self.keys_ok());
            assert(self.qual_ok()) by {
                assert forall|i2: int|
                    0 <= i2 < self.qual_ids().len() && self.qual_ids()[i2] != self.id_spec()
                    implies self.accepts(#[trigger] self.qual_ids()[i2]) by {
                    assert(old(self).accepts(#[trigger] old(self).qual_ids()[i2]));
                }
            }
            assert(self.wf());
        }
        Ok(())
    }

    /// This node's Feldman commitment vector for broadcasting: its own
    /// polynomial's coefficients, each times the fixed G2 generator.
    pub fn cal_coef(&self) -> (r: Vec<G2Point>)
        requires
            self.wf(),
        ensures
            g2_dlogs(r@) == self.poly_vals(),
            g2_all_wf(r@),
            r@.len() == self.threshold(),
    {
        self.poly.commitments()
    }

    /// The share this node deals to participant `to_usr`: its own secret
    /// polynomial evaluated at that id.
    pub fn cal_secret(&self, to_usr: u32) -> (r: Scalar)
        requires
            self.wf(),
        ensures
            r.val() == poly_eval(self.poly_vals(), to_usr as nat),
            r.wf(),
    {
        self.poly.eval(to_usr)
    }

    /// Sign a message with this node's secret share: `sk · H(msg)`.  Only
    /// a ready node holds key material.
    pub fn cal_signature(&self, msg: &[u8]) -> (r: Result<G1Point, Error>)
        requires
            self.wf(),
        ensures
            (r is Ok) == (self.phase_spec() == Phase::Ready),
            r matches Ok(sig) ==> sig.dlog() == fr_mul(hash_point(msg@), self.sk_val())
                && sig.wf(),
            r matches Err(e) ==> e == Error::OutOfOrder,
    {
        match self.sk {
            Some(sk) => {
                let h = hash_to_g1(msg);
                Ok(h.mul(&sk))
            },
            None => Err(Error::OutOfOrder),
        }
    }

    /// Verify a combined signature against this node's master public key:
    /// `e(sig, G2) == e(hmsg, mpk)`, where `hmsg` is the hashed message
    /// point.  A node without key material accepts nothing.
    pub fn verify_single_signature(&self, hmsg: &G1Point, sig: &G1Point) -> (r: bool)
        requires
            self.wf(),
            hmsg.wf(),
            sig.wf(),
        ensures
            r == (self.phase_spec() == Phase::Ready && sig.dlog() == fr_mul(
                hmsg.dlog(),
                self.mpk_dlog(),
            )),
    {
        match self.mpk {
            Some(mpk) => {
                let lhs = pairing_points(sig, &G2Point::generator());
                let rhs = pairing_points(hmsg, &mpk);
                proof {
                    assert(sig.dlog() * 1nat == sig.dlog()) by (nonlinear_arith);
                    lemma_small_mod(sig.dlog(), fr_order());
                }
                lhs.equals(&rhs)
            },
            None => false,
        }
    }

    /// Verify a partial signature against a signer's public share:
    /// `e(sig, G2) == e(H(msg), pk)`.
    pub fn verify_partial(pk: &G2Point, msg: &[u8], sig: &G1Point) -> (r: bool)
        requires
            pk.wf(),
            sig.wf(),
        ensures
            r == (sig.dlog() == fr_mul(hash_point(msg@), pk.dlog())),
    {
        let h = hash_to_g1(msg);
        let lhs = pairing_points(sig, &G2Point::generator());
        let rhs = pairing_points(&h, pk);
        proof {
            assert(sig.dlog() * 1nat == sig.dlog()) by (nonlinear_arith);
            lemma_small_mod(sig.dlog(), fr_order());
        }
        lhs.equals(&rhs)
    }

    /// The Lagrange coefficient at zero for `ids[exc]` over the window
    /// `[st, ed)`: the product of `-ids[i] / (ids[exc] - ids[i])` for `i`
    /// in the window, `i != exc`.  Fails with `DegenerateInterpolation`
    /// exactly when the denominator product vanishes, which for distinct
    /// 32-bit ids never happens.
    pub fn cal_lambda(st: usize, ed: usize, exc: usize, ids: &Vec<u32>) -> (r: Result<
        Scalar,
        Error,
    >)
        requires
            st <= ed <= ids@.len(),
            exc < ids@.len(),
        ensures
            (r is Ok) == (lam_den(ids@, st as int, ed as int, exc as int) != 0),
            r matches Err(e) ==> e == Error::DegenerateInterpolation,
            r matches Ok(l) ==> l.val() == lambda_at(ids@, st as int, ed as int, exc as int)
                && l.wf() && fr_mul(l.val(), lam_den(ids@, st as int, ed as int, exc as int))
                == lam_num(ids@, st as int, ed as int, exc as int),
    {
        let ks = Scalar::from_u32(ids[exc]);
        let mut up = Scalar::one();
        let mut down = Scalar::one();
        let mut i: usize = st;
        while i < ed
            invariant
                st <= i <= ed,
                ed <= ids@.len(),
                exc < ids@.len(),
                ks.val() == ids@[exc as int] as nat,
                up.val() == lam_num(ids@, st as int, i as int, exc as int),
                down.val() == lam_den(ids@, st as int, i as int, exc as int),
                up.wf(),
                down.wf(),
            decreases ed - i,
        {
            if i != exc {
                let neg = Scalar::from_u32(ids[i]).neg();
                up = up.mul(&neg);
                let diff = ks.add(&neg);
                down = down.mul(&diff);
            }
            i = i + 1;
        }
        match down.inverse() {
            None => Err(Error::DegenerateInterpolation),
            Some(inv) => {
                let l = up.mul(&inv);
                proof {
                    let num = up.val() as int;
                    let iv = inv.val() as int;
                    let den = down.val() as int;
                    let q = fr_order() as int;
                    lemma_mul_mod_noop_left(num * iv, den, q);
                    lemma_mul_is_associative(num, iv, den);
                    lemma_mul_mod_noop_right(num, iv * den, q);
                    assert(num * 1 == num) by (nonlinear_arith);
                    lemma_small_mod(up.val(), fr_order());
                }
                Ok(l)
            },
        }
    }

    /// Combine at least `t` partial signatures by Lagrange interpolation
    /// at zero: the sum of `lambda_j · sig_j` over the given signers.
    pub fn combine(&self, ids: &Vec<u32>, partials: &Vec<G1Point>) -> (r: Result<G1Point, Error>)
        requires
            self.wf(),
            g1_all_wf(partials@),
        ensures
            ids@.len() != partials@.len() ==> r == Err::<G1Point, Error>(Error::LengthMismatch),
            ids@.len() == partials@.len() && ids@.len() < self.threshold() ==> r == Err::<
                G1Point,
                Error,
            >(Error::InsufficientShares),
            ids@.len() == partials@.len() && ids@.len() >= self.threshold() ==> {
                &&& (r is Ok) == (forall|j: int|
                    0 <= j < ids@.len() ==> lam_den(ids@, 0, ids@.len() as int, j) != 0)
                &&& (r matches Err(e) ==> e == Error::DegenerateInterpolation)
                &&& (r matches Ok(sig) ==> sig.dlog() == combined_sum(
                    ids@,
                    g1_dlogs(partials@),
                    ids@.len() as int,
                ) && sig.wf())
            },
    {
        if ids.len() != partials.len() {
            return Err(Error::LengthMismatch);
        }
        if ids.len() < self.t {
            return Err(Error::InsufficientShares);
        }
        let m = ids.len();
        let mut acc = G1Point::identity();
        let mut j: usize = 0;
        while j < m
            invariant
                m == ids@.len(),
                m == partials@.len(),
                self.threshold() <= m,
                j <= m,
                g1_all_wf(partials@),
                acc.dlog() == combined_sum(ids@, g1_dlogs(partials@), j as int),
                acc.wf(),
                forall|x: int| 0 <= x < j ==> lam_den(ids@, 0, m as int, x) != 0,
            decreases m - j,
        {
            let lr = Self::cal_lambda(0, m, j, ids);
            match lr {
                Err(_) => {
                    proof {
                        assert(lam_den(ids@, 0, m as int, j as int) == 0);
                    }
                    return Err(Error::DegenerateInterpolation);
                },
                Ok(l) => {
                    proof {
                        assert(partials@[j as int].wf());
                        assert(g1_dlogs(partials@)[j as int] == partials@[j as int].dlog());
                    }
                    let term = partials[j].mul(&l);
                    acc = acc.add(&term);
                },
            }
            j = j + 1;
        }
        Ok(acc)
    }

    /// This node's public share, once keys are derived.
    pub fn pk(&self) -> (r: Result<G2Point, Error>)
        requires
            self.wf(),
        ensures
            (r is Ok) == (self.phase_spec() == Phase::Ready),
            r matches Ok(p) ==> p.dlog() == self.pk_dlog() && p.wf(),
            r matches Err(e) ==> e == Error::NoPolyCoefficient,
    {
        match self.pk {
            Some(p) => Ok(p),
            None => Err(Error::NoPolyCoefficient),
        }
    }

    /// The master public key, once keys are derived.
    pub fn mpk(&self) -> (r: Result<G2Point, Error>)
        requires
            self.wf(),
        ensures
            (r is Ok) == (self.phase_spec() == Phase::Ready),
            r matches Ok(p) ==> p.dlog() == self.mpk_dlog() && p.wf(),
            r matches Err(e) ==> e == Error::NoPolyCoefficient,
    {
        match self.mpk {
            Some(p) => Ok(p),
            None => Err(Error::NoPolyCoefficient),
        }
    }
}

/// Evaluate a commitment vector at the integer point `x`, in G2:
/// `sum of points[k] · x^k`, the G2 image of the committed polynomial at
/// `x`.
fn eval_commitments(points: &Vec<G2Point>, x: u32) -> (r: G2Point)
    requires
        g2_all_wf(points@),
    ensures
        r.dlog() == poly_eval(g2_dlogs(points@), x as nat),
        r.wf(),
{
    let xs = Scalar::from_u32(x);
    let mut acc = G2Point::identity();
    let mut xp = Scalar::one();
    let n = points.len();
    let mut k: usize = 0;
    while k < n
        invariant
            k <= n,
            n == points@.len(),
            g2_all_wf(points@),
            xs.val() == x as nat,
            acc.dlog() == poly_eval_prefix(g2_dlogs(points@), x as nat, k as int),
            xp.val() == pow_mod(x as nat, k as nat),
            acc.wf(),
            xp.wf(),
        decreases n - k,
    {
        proof {
            assert(points@[k as int].wf());
            assert(g2_dlogs(points@)[k as int] == points@[k as int].dlog());
        }
        let term = points[k].mul(&xp);
        acc = acc.add(&term);
        xp = xs.mul(&xp);
        k = k + 1;
    }
    acc
}

/// Key consistency is an invariant of every ready node: its secret share
/// and public share agree (`sk·G2 == pk`), the public share is the
/// aggregated commitment polynomial evaluated at its id, and the master
/// public key is that polynomial's constant term.  The qualified set
/// behind them is sound as well.
pub proof fn lemma_ready_keys(node: NodeInfo)
    requires
        node.wf(),
        node.phase_spec() == Phase::Ready,
    ensures
        node.keys_ok(),
        node.qual_ok(),
        node.sk_val() == node.pk_dlog(),
        node.pk_dlog() == poly_eval(node.coef_dlogs(), node.id_spec() as nat),
        node.mpk_dlog() == node.coef_dlogs()[0],
{
}

/// Polynomial homomorphism: a deal made honestly always verifies.  When
/// the stored commitment vector commits the dealer's coefficients and the
/// stored share is the dealer's polynomial at this node's id — which is
/// what `cal_coef` and `cal_secret` produce — the Feldman relation
/// `s·G2 == sum of id^k·A_k` holds and the dealer is accepted.
pub proof fn lemma_honest_deal_accepted(node: NodeInfo, j: u32, coefs: Seq<nat>)
    requires
        node.has_commit(j),
        node.has_share(j),
        node.commit_at(j) == coefs,
        node.share_at(j) == poly_eval(coefs, node.id_spec() as nat),
    ensures
        node.accepts(j),
{
}

/// Combining partial signatures is linear in the shares: when each
/// partial signature is `sk_j · H(msg)`, their Lagrange combination is
/// the Lagrange-weighted sum of the shares times `H(msg)`.
pub proof fn lemma_combination_is_weighted_sum(
    ids: Seq<u32>,
    sks: Seq<nat>,
    sigs: Seq<nat>,
    h: nat,
    i: int,
)
    requires
        sks.len() == ids.len(),
        sigs.len() == ids.len(),
        0 <= i <= ids.len(),
        forall|j: int| 0 <= j < ids.len() ==> #[trigger] sigs[j] == fr_mul(h, sks[j]),
    ensures
        combined_sum(ids, sigs, i) == fr_mul(h, weighted_share_sum(ids, sks, i)),
    decreases i,
{
    let q = fr_order() as int;
    if i <= 0 {
        assert(h * 0 == 0) by (nonlinear_arith);
    } else {
        lemma_combination_is_weighted_sum(ids, sks, sigs, h, i - 1);
        let lam = lambda_at(ids, 0, ids.len() as int, i - 1) as int;
        let hh = h as int;
        let sk = sks[i - 1] as int;
        let w = weighted_share_sum(ids, sks, i - 1) as int;
        // the new partial-signature term: ((h·sk) mod q · lam) mod q == (h·sk·lam) mod q
        lemma_mul_mod_noop_left(hh * sk, lam, q);
        lemma_mul_is_associative(hh, sk, lam);
        // fold both sides to a single modulus
        lemma_add_mod_noop(hh * w, hh * sk * lam, q);
        // the right-hand side: h · ((w + (sk·lam) mod q) mod q) mod q
        lemma_mul_mod_noop_right(hh, w + (sk * lam) % q, q);
        lemma_mul_is_distributive_add(hh, w, (sk * lam) % q);
        lemma_mul_mod_noop_right(hh, sk * lam, q);
        lemma_mul_is_associative(hh, sk, lam);
        assert((hh * w + hh * ((sk * lam) % q)) % q == (hh * w + hh * (sk * lam)) % q) by {
            lemma_add_mod_noop_right(hh * w, hh * ((sk * lam) % q), q);
            lemma_add_mod_noop_right(hh * w, hh * (sk * lam), q);
            assert((hh * ((sk * lam) % q)) % q == (hh * (sk * lam)) % q) by {
                lemma_mul_mod_noop_right(hh, sk * lam, q);
            }
        }
    }
}

/// Threshold correctness, relative to Lagrange interpolation: when each
/// partial signature is `sk_j · H(msg)` and the Lagrange-weighted sum of
/// the signers' shares reconstructs the master secret — the discrete
/// logarithm of `mpk` — the combined signature is exactly `msk · H(msg)`,
/// the value that `verify_single_signature` accepts against `mpk`.
pub proof fn lemma_threshold_correctness(
    node: NodeInfo,
    ids: Seq<u32>,
    sks: Seq<nat>,
    sigs: Seq<nat>,
    h: nat,
)
    requires
        sks.len() == ids.len(),
        sigs.len() == ids.len(),
        forall|j: int| 0 <= j < ids.len() ==> #[trigger] sigs[j] == fr_mul(h, sks[j]),
        weighted_share_sum(ids, sks, ids.len() as int) == node.mpk_dlog(),
    ensures
        combined_sum(ids, sigs, ids.len() as int) == fr_mul(h, node.mpk_dlog()),
{
    lemma_combination_is_weighted_sum(ids, sks, sigs, h, ids.len() as int);
}

/// Copy a vector of (freely copyable) curve points.
fn copy_points(v: &Vec<G2Point>) -> (r: Vec<G2Point>)
    ensures
        r@ == v@,
{
    let n = v.len();
    let mut out: Vec<G2Point> = Vec::new();
    let mut i: usize = 0;
    while i < n
        invariant
            i <= n,
            n == v@.len(),
            out@ =~= v@.subrange(0, i as int),
        decreases n - i,
    {
        out.push(v[i]);
        i = i + 1;
    }
    proof {
        assert(out@ =~= v@);
    }
    out
}

} // verus!
