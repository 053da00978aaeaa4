//! KZG10 commitments over the reference pairing group.
//!
//! The reference group takes G1 = G2 = GT = the additive group of the scalar field, with
//! generators `1` and the pairing `e(a, b) = a * b`. It is bilinear, which is all that the
//! commitment scheme's algebra needs, but discrete logarithms in it are trivial: it checks the
//! protocol's arithmetic, and offers no hiding or binding.
use vstd::prelude::*;

use crate::field::{fmul, fsub, is_elem, mul_spec, sub_spec, MODULUS};
use crate::msm::{msm_spec, VariableBase};
use crate::poly::{divide_by_linear, is_poly, quotient_spec};

verus! {

/// The generator of G1 and of G2.
pub const GENERATOR: u64 = 1;

/// A commitment to a polynomial: an element of G1.
#[derive(Clone, Copy, Debug, PartialEq, Eq, Structural)]
pub struct Commitment(pub u64);

/// An opening proof: the commitment to the quotient, and the blinding value of a hiding
/// opening (never set here).
#[derive(Clone, Copy, Debug, PartialEq, Eq, Structural)]
pub struct Proof {
    pub w: u64,
    pub random_v: Option<u64>,
}

impl Proof {
    pub fn is_hiding(&self) -> (r: bool)
        ensures
            r == self.random_v.is_some(),
    {
        self.random_v.is_some()
    }
}

/// The key that checks openings.
#[derive(Clone, Copy, Debug, PartialEq, Eq, Structural)]
pub struct VerifyingKey {
    pub g: u64,
    /// The hiding generator; the identity, as openings do not hide.
    pub gamma_g: u64,
    pub h: u64,
    pub beta_h: u64,
}

impl VerifyingKey {
    pub open spec fn wf(&self) -> bool {
        is_elem(self.g) && is_elem(self.gamma_g) && is_elem(self.h) && is_elem(self.beta_h)
    }
}

/// `beta^i` in the field.
pub open spec fn pow_spec(beta: int, i: nat) -> int
    decreases i,
{
    if i == 0 {
        1
    } else {
        mul_spec(pow_spec(beta, (i - 1) as nat), beta)
    }
}

/// The commitment to `p` under `powers`: `sum_i p_i * powers_i`.
pub open spec fn commit_spec(powers: Seq<u64>, p: Seq<u64>) -> int {
    msm_spec(powers, p, p.len() as int)
}

/// The opening of `p` at `z`: the commitment to the quotient `(p(X) - p(z)) / (X - z)`.
pub open spec fn open_spec(powers: Seq<u64>, p: Seq<u64>, z: int) -> Proof {
    Proof { w: commit_spec(powers, quotient_spec(p, z)) as u64, random_v: None }
}

/// The pairing equation `e(c - v * g, h) == e(w, beta_h - z * h)`, on canonical elements of a
/// non-hiding opening.
pub open spec fn check_spec(vk: VerifyingKey, c: u64, z: int, v: int, proof: Proof) -> bool {
    &&& proof.random_v.is_none()
    &&& is_elem(c)
    &&& is_elem(proof.w)
    &&& mul_spec(sub_spec(c as int, mul_spec(v, vk.g as int)), vk.h as int) == mul_spec(
        proof.w as int,
        sub_spec(vk.beta_h as int, mul_spec(z, vk.h as int)),
    )
}

/// Commits to `p` with the first `p.len()` powers.
pub fn commit(powers: &[u64], p: &[u64]) -> (r: Commitment)
    requires
        is_poly(powers@),
        is_poly(p@),
        p@.len() <= powers@.len(),
    ensures
        is_elem(r.0),
        r.0 as int == commit_spec(powers@, p@),
{
    let mut bases: Vec<u64> = Vec::new();
    let mut i: usize = 0;
    while i < p.len()
        invariant
            i <= p@.len(),
            p@.len() <= powers@.len(),
            is_poly(powers@),
            bases@ == powers@.subrange(0, i as int),
        decreases p@.len() - i,
    {
        bases.push(powers[i]);
        proof {
            assert(powers@.subrange(0, i + 1) =~= powers@.subrange(0, i as int).push(powers@[i as int]));
        }
        i = i + 1;
    }
    let v = VariableBase::msm(bases.as_slice(), p);
    proof {
        lemma_msm_prefix(bases@, powers@, p@, p@.len() as int);
    }
    Commitment(v)
}

proof fn lemma_msm_prefix(prefix: Seq<u64>, bases: Seq<u64>, scalars: Seq<u64>, n: int)
    requires
        0 <= n <= prefix.len(),
        prefix.len() <= bases.len(),
        forall|i: int| 0 <= i < prefix.len() ==> prefix[i] == bases[i],
    ensures
        msm_spec(prefix, scalars, n) == msm_spec(bases, scalars, n),
    decreases n,
{
    if n > 0 {
        lemma_msm_prefix(prefix, bases, scalars, n - 1);
    }
}

/// Opens `p` at `z`.
pub fn open(powers: &[u64], p: &[u64], z: u64) -> (r: Proof)
    requires
        is_poly(powers@),
        is_poly(p@),
        is_elem(z),
        p@.len() <= powers@.len() + 1,
    ensures
        r == open_spec(powers@, p@, z as int),
        is_elem(r.w),
{
    let q = divide_by_linear(p, z);
    let c = commit(powers, q.as_slice());
    Proof { w: c.0, random_v: None }
}

/// Checks that `proof` opens `c` to `v` at `z`.
pub fn check(vk: &VerifyingKey, c: u64, z: u64, v: u64, proof: &Proof) -> (r: bool)
    requires
        vk.wf(),
        is_elem(z),
        is_elem(v),
    ensures
        r == check_spec(*vk, c, z as int, v as int, *proof),
{
    if proof.is_hiding() || c >= MODULUS || proof.w >= MODULUS {
        return false;
    }
    let lhs = fmul(fsub(c, fmul(v, vk.g)), vk.h);
    let rhs = fmul(proof.w, fsub(vk.beta_h, fmul(z, vk.h)));
    lhs == rhs
}

} // verus!
