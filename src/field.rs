use vstd::prelude::*;

verus! {

/// The order of the scalar field: the prime `29 * 2^57 + 1`.
pub const MODULUS: u64 = 4179340454199820289;

/// The largest `k` with `2^k` dividing `MODULUS - 1`.
pub const TWO_ADICITY: u64 = 57;

/// A generator of the field's multiplicative group.
pub const MULTIPLICATIVE_GENERATOR: u64 = 3;

/// A field element is a `u64` below `MODULUS`.
pub open spec fn is_elem(a: u64) -> bool {
    a < MODULUS
}

/// Addition in the field, on integers.
pub open spec fn add_spec(a: int, b: int) -> int {
    (a + b) % (MODULUS as int)
}

/// Multiplication in the field, on integers.
pub open spec fn mul_spec(a: int, b: int) -> int {
    (a * b) % (MODULUS as int)
}

/// Subtraction in the field, on integers.
pub open spec fn sub_spec(a: int, b: int) -> int {
    (a - b) % (MODULUS as int)
}

pub fn fadd(a: u64, b: u64) -> (r: u64)
    requires
        is_elem(a),
        is_elem(b),
    ensures
        is_elem(r),
        r as int == add_spec(a as int, b as int),
{
    let s: u64 = a + b;
    if s >= MODULUS {
        s - MODULUS
    } else {
        s
    }
}

pub fn fsub(a: u64, b: u64) -> (r: u64)
    requires
        is_elem(a),
        is_elem(b),
    ensures
        is_elem(r),
        r as int == sub_spec(a as int, b as int),
{
    if a >= b {
        a - b
    } else {
        MODULUS - b + a
    }
}

pub fn fmul(a: u64, b: u64) -> (r: u64)
    requires
        is_elem(a),
        is_elem(b),
    ensures
        is_elem(r),
        r as int == mul_spec(a as int, b as int),
{
    proof {
        assert((a as int) * (b as int) <= (MODULUS as int) * (MODULUS as int)) by (nonlinear_arith)
            requires
                a < MODULUS,
                b < MODULUS,
        ;
    }
    let p: u128 = (a as u128) * (b as u128);
    (p % (MODULUS as u128)) as u64
}

} // verus!
