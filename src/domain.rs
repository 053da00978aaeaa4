use vstd::prelude::*;

use crate::algebra::{lemma_pow_square, lemma_pow_step};
use crate::field::{fmul, is_elem, mul_spec, MODULUS, MULTIPLICATIVE_GENERATOR};
use crate::kzg::pow_spec;
use crate::poly::{eval_spec, evaluate, is_poly};

verus! {

/// The largest domain the field supports: `2^57`, which divides `MODULUS - 1`.
pub const MAX_DOMAIN_SIZE: u64 = 0x200_0000_0000_0000;

/// Raises `b` to the power `e` by square-and-multiply.
pub fn fpow(b: u64, e: u64) -> (r: u64)
    requires
        is_elem(b),
    ensures
        is_elem(r),
        r as int == pow_spec(b as int, e as nat),
{
    let mut acc: u64 = 1;
    let mut base: u64 = b;
    let mut k: u64 = e;
    while k > 0
        invariant
            is_elem(acc),
            is_elem(base),
            mul_spec(acc as int, pow_spec(base as int, k as nat)) == pow_spec(b as int, e as nat),
        decreases k,
    {
        let h: u64 = k / 2;
        proof {
            lemma_pow_square(base as int, h as nat);
        }
        if k % 2 == 1 {
            proof {
                lemma_pow_step(acc as int, base as int, (2 * h) as nat);
            }
            acc = fmul(acc, base);
        }
        base = fmul(base, base);
        k = h;
    }
    proof {
        vstd::arithmetic::div_mod::lemma_small_mod(acc as nat, MODULUS as nat);
    }
    acc
}

/// The smallest power of two that is at least `num`.
pub open spec fn next_pow2_spec(num: nat) -> nat
    decreases num,
{
    if num <= 1 {
        1
    } else {
        2 * next_pow2_spec(((num + 1) / 2) as nat)
    }
}

proof fn lemma_next_pow2_bound(num: nat, bound: nat)
    requires
        num <= bound,
        bound >= 1,
        bound <= MAX_DOMAIN_SIZE,
        exists|k: nat| k <= 57 && bound == vstd::arithmetic::power2::pow2(k),
    ensures
        1 <= next_pow2_spec(num) <= bound,
    decreases num,
{
    if num > 1 {
        let k = choose|k: nat| k <= 57 && bound == vstd::arithmetic::power2::pow2(k);
        vstd::arithmetic::power2::lemma_pow2_pos(k);
        if k == 0 {
            assert(vstd::arithmetic::power2::pow2(0) == 1) by {
                vstd::arithmetic::power2::lemma2_to64();
            }
        } else {
            vstd::arithmetic::power2::lemma_pow2_unfold(k);
            let half = vstd::arithmetic::power2::pow2((k - 1) as nat);
            vstd::arithmetic::power2::lemma_pow2_pos((k - 1) as nat);
            lemma_next_pow2_bound(((num + 1) / 2) as nat, half);
        }
    }
}

/// A multiplicative subgroup of power-of-two size, with its generator and the inverses the
/// Lagrange basis needs.
#[derive(Clone, Copy, Debug, PartialEq, Eq, Structural)]
pub struct EvaluationDomain {
    pub size: u64,
    /// `3^((MODULUS - 1) / size)`: an element of order `size`, as 3 generates the group.
    pub group_gen: u64,
    /// `group_gen^(size - 1)`, the inverse of `group_gen`.
    pub group_gen_inv: u64,
    /// `MODULUS - (MODULUS - 1) / size`, the inverse of `size`.
    pub size_inv: u64,
}

/// The domain for `num_coeffs` coefficients.
pub open spec fn domain_spec(num_coeffs: nat) -> EvaluationDomain {
    let size = next_pow2_spec(num_coeffs);
    let group_gen = pow_spec(MULTIPLICATIVE_GENERATOR as int, ((MODULUS - 1) / (size as int)) as nat);
    EvaluationDomain {
        size: size as u64,
        group_gen: group_gen as u64,
        group_gen_inv: pow_spec(group_gen, (size - 1) as nat) as u64,
        size_inv: (MODULUS as int - (MODULUS as int - 1) / (size as int)) as u64,
    }
}

impl EvaluationDomain {
    pub open spec fn wf(&self) -> bool {
        &&& 1 <= self.size <= MAX_DOMAIN_SIZE
        &&& is_elem(self.group_gen)
        &&& is_elem(self.group_gen_inv)
        &&& is_elem(self.size_inv)
    }

    /// The domain for polynomials of `num_coeffs` coefficients: the smallest power of two that
    /// holds them; `None` where that exceeds the largest size the field supports.
    pub fn new(num_coeffs: u64) -> (r: Option<EvaluationDomain>)
        ensures
            num_coeffs > MAX_DOMAIN_SIZE <==> r is None,
            r matches Some(d) ==> {
                &&& d == domain_spec(num_coeffs as nat)
                &&& d.wf()
                &&& d.size == next_pow2_spec(num_coeffs as nat)
                &&& d.group_gen as int == pow_spec(
                    MULTIPLICATIVE_GENERATOR as int,
                    ((MODULUS - 1) / (d.size as int)) as nat,
                )
                &&& d.group_gen_inv as int == pow_spec(d.group_gen as int, (d.size - 1) as nat)
                &&& d.size_inv as int == MODULUS as int - (MODULUS as int - 1) / (d.size as int)
            },
    {
        if num_coeffs > MAX_DOMAIN_SIZE {
            return None;
        }
        let size = Self::next_pow2(num_coeffs);
        let ghost sz = size as int;
        assert((MODULUS as int - 1) / sz >= 1) by (nonlinear_arith)
            requires
                1 <= sz <= MAX_DOMAIN_SIZE,
        ;
        let group_gen = fpow(MULTIPLICATIVE_GENERATOR, (MODULUS - 1) / size);
        let group_gen_inv = fpow(group_gen, size - 1);
        let size_inv = MODULUS - (MODULUS - 1) / size;
        Some(EvaluationDomain { size, group_gen, group_gen_inv, size_inv })
    }

    fn next_pow2(num: u64) -> (r: u64)
        requires
            num <= MAX_DOMAIN_SIZE,
        ensures
            r == next_pow2_spec(num as nat),
            1 <= r <= MAX_DOMAIN_SIZE,
        decreases num,
    {
        proof {
            vstd::arithmetic::power2::lemma2_to64();
            vstd::arithmetic::power2::lemma2_to64_rest();
            lemma_next_pow2_bound(num as nat, MAX_DOMAIN_SIZE as nat);
        }
        if num <= 1 {
            1
        } else {
            2 * Self::next_pow2((num + 1) / 2)
        }
    }
}

/// The commitment to the `i`-th Lagrange polynomial of a domain:
/// `size^-1 * sum_j powers_j * group_gen^(-i * j)`.
pub open spec fn lagrange_spec(powers: Seq<u64>, d: EvaluationDomain, i: int) -> int {
    mul_spec(
        d.size_inv as int,
        eval_spec(powers.subrange(0, d.size as int), pow_spec(d.group_gen_inv as int, i as nat)),
    )
}

/// The commitments to the domain's Lagrange polynomials, from the powers of the secret.
pub fn lagrange_basis(powers: &[u64], d: &EvaluationDomain) -> (r: Vec<u64>)
    requires
        d.wf(),
        is_poly(powers@),
        d.size <= powers@.len(),
    ensures
        r@.len() == d.size,
        is_poly(r@),
        forall|i: int| 0 <= i < r@.len() ==> #[trigger] r@[i] as int == lagrange_spec(powers@, *d, i),
{
    let plen: usize = powers.len();
    assert(d.size <= plen);
    let n: usize = d.size as usize;
    let mut prefix: Vec<u64> = Vec::new();
    let mut j: usize = 0;
    while j < n
        invariant
            j <= n,
            n == d.size,
            n <= powers@.len(),
            prefix@ == powers@.subrange(0, j as int),
        decreases n - j,
    {
        prefix.push(powers[j]);
        proof {
            assert(powers@.subrange(0, j + 1) =~= powers@.subrange(0, j as int).push(powers@[j as int]));
        }
        j = j + 1;
    }
    assert(is_poly(prefix@));
    let mut out: Vec<u64> = Vec::new();
    let mut x: u64 = 1;
    let mut i: usize = 0;
    while i < n
        invariant
            i <= n,
            n == d.size,
            d.wf(),
            is_poly(powers@),
            prefix@ == powers@.subrange(0, n as int),
            is_poly(prefix@),
            is_elem(x),
            x as int == pow_spec(d.group_gen_inv as int, i as nat),
            out@.len() == i,
            is_poly(out@),
            forall|t: int| 0 <= t < i ==> #[trigger] out@[t] as int == lagrange_spec(powers@, *d, t),
        decreases n - i,
    {
        out.push(fmul(d.size_inv, evaluate(prefix.as_slice(), x)));
        x = fmul(x, d.group_gen_inv);
        i = i + 1;
    }
    out
}

} // verus!
