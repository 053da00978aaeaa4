use vstd::prelude::*;

use crate::field::{add_spec, fadd, fmul, is_elem, mul_spec};
use crate::poly::is_poly;

verus! {

/// The multi-scalar product `sum_i scalars[i] * bases[i]` over the first `n` pairs.
pub open spec fn msm_spec(bases: Seq<u64>, scalars: Seq<u64>, n: int) -> int
    decreases n,
{
    if n <= 0 {
        0
    } else {
        add_spec(msm_spec(bases, scalars, n - 1), mul_spec(scalars[n - 1] as int, bases[n - 1] as int))
    }
}

/// Variable-base multi-scalar multiplication in G1.
pub struct VariableBase;

impl VariableBase {
    /// Computes `sum_i scalars[i] * bases[i]`; the identity for empty input.
    pub fn msm(bases: &[u64], scalars: &[u64]) -> (r: u64)
        requires
            bases@.len() == scalars@.len(),
            is_poly(bases@),
            is_poly(scalars@),
        ensures
            is_elem(r),
            r as int == msm_spec(bases@, scalars@, bases@.len() as int),
    {
        let mut acc: u64 = 0;
        let mut i: usize = 0;
        while i < bases.len()
            invariant
                i <= bases@.len(),
                bases@.len() == scalars@.len(),
                is_poly(bases@),
                is_poly(scalars@),
                is_elem(acc),
                acc as int == msm_spec(bases@, scalars@, i as int),
            decreases bases@.len() - i,
        {
            acc = fadd(acc, fmul(scalars[i], bases[i]));
            i = i + 1;
        }
        acc
    }
}

} // verus!
