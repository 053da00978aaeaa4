use vstd::arithmetic::div_mod::{lemma_add_mod_noop, lemma_mod_bound};
use vstd::prelude::*;

use crate::field::{fadd, add_spec, is_elem, fmul, mul_spec, MODULUS};

verus! {

/// Every coefficient is a field element.
pub open spec fn is_poly(p: Seq<u64>) -> bool {
    forall|i: int| 0 <= i < p.len() ==> is_elem(#[trigger] p[i])
}

/// The `i`-th coefficient, zero beyond the stored ones.
pub open spec fn coeff(p: Seq<u64>, i: int) -> int {
    if 0 <= i < p.len() {
        p[i] as int
    } else {
        0
    }
}

/// The value of `p` at `z` in the field, by Horner's rule.
pub open spec fn eval_spec(p: Seq<u64>, z: int) -> int
    decreases p.len(),
{
    if p.len() == 0 {
        0
    } else {
        add_spec(p[0] as int, mul_spec(z, eval_spec(p.drop_first(), z)))
    }
}

/// Evaluates `p` at `z`.
pub fn evaluate(p: &[u64], z: u64) -> (r: u64)
    requires
        is_poly(p@),
        is_elem(z),
    ensures
        is_elem(r),
        r as int == eval_spec(p@, z as int),
{
    let mut acc: u64 = 0;
    let mut i: usize = p.len();
    while i > 0
        invariant
            i <= p@.len(),
            is_poly(p@),
            is_elem(z),
            is_elem(acc),
            acc as int == eval_spec(p@.subrange(i as int, p@.len() as int), z as int),
        decreases i,
    {
        i = i - 1;
        proof {
            assert(p@.subrange(i as int, p@.len() as int).drop_first() =~= p@.subrange(
                i + 1,
                p@.len() as int,
            ));
        }
        acc = fadd(p[i], fmul(z, acc));
    }
    assert(p@.subrange(0, p@.len() as int) =~= p@);
    acc
}

/// The coefficient-wise sum of `a` and `b`, as long as the longer of the two.
pub open spec fn add_polys_spec(a: Seq<u64>, b: Seq<u64>) -> Seq<u64> {
    Seq::new(
        if a.len() >= b.len() { a.len() } else { b.len() },
        |k: int| add_spec(coeff(a, k), coeff(b, k)) as u64,
    )
}

/// Every coefficient of `a` multiplied by `s`.
pub open spec fn scale_poly_spec(a: Seq<u64>, s: int) -> Seq<u64> {
    Seq::new(a.len(), |k: int| mul_spec(a[k] as int, s) as u64)
}

/// The product of `a` and `b`; empty when either is.
pub open spec fn mul_polys_spec(a: Seq<u64>, b: Seq<u64>) -> Seq<u64> {
    Seq::new(
        if a.len() == 0 || b.len() == 0 { 0 } else { (a.len() + b.len() - 1) as nat },
        |k: int| product_coeff(a, b, k) as u64,
    )
}

/// The quotient of `p` by `X - z`.
pub open spec fn quotient_spec(p: Seq<u64>, z: int) -> Seq<u64> {
    Seq::new(
        if p.len() == 0 { 0 } else { (p.len() - 1) as nat },
        |k: int| quotient_coeff(p, z, k) as u64,
    )
}

/// Coefficient-wise sum of `a` and `b`.
pub fn add_polys(a: &[u64], b: &[u64]) -> (r: Vec<u64>)
    requires
        is_poly(a@),
        is_poly(b@),
    ensures
        is_poly(r@),
        r@.len() == if a@.len() >= b@.len() { a@.len() } else { b@.len() },
        r@ == add_polys_spec(a@, b@),
{
    let n: usize = if a.len() >= b.len() { a.len() } else { b.len() };
    let mut out: Vec<u64> = Vec::new();
    let mut k: usize = 0;
    while k < n
        invariant
            k <= n,
            n == if a@.len() >= b@.len() { a@.len() } else { b@.len() },
            is_poly(a@),
            is_poly(b@),
            out@.len() == k,
            is_poly(out@),
            forall|j: int|
                0 <= j < k ==> #[trigger] out@[j] as int == add_spec(coeff(a@, j), coeff(b@, j)),
        decreases n - k,
    {
        let x: u64 = if k < a.len() { a[k] } else { 0 };
        let y: u64 = if k < b.len() { b[k] } else { 0 };
        out.push(fadd(x, y));
        k = k + 1;
    }
    assert(out@ =~= add_polys_spec(a@, b@));
    out
}

/// Multiplies every coefficient of `a` by `s`.
pub fn scale_poly(a: &[u64], s: u64) -> (r: Vec<u64>)
    requires
        is_poly(a@),
        is_elem(s),
    ensures
        is_poly(r@),
        r@.len() == a@.len(),
        r@ == scale_poly_spec(a@, s as int),
{
    let mut out: Vec<u64> = Vec::new();
    let mut k: usize = 0;
    while k < a.len()
        invariant
            k <= a@.len(),
            is_poly(a@),
            is_elem(s),
            out@.len() == k,
            is_poly(out@),
            forall|j: int| 0 <= j < k ==> #[trigger] out@[j] as int == mul_spec(a@[j] as int, s as int),
        decreases a@.len() - k,
    {
        out.push(fmul(a[k], s));
        k = k + 1;
    }
    assert(out@ =~= scale_poly_spec(a@, s as int));
    out
}

/// The sum over rows `i < rows` of `a_i * b_(k - i)`, in the field.
pub open spec fn conv_rows(a: Seq<u64>, b: Seq<u64>, rows: int, k: int) -> int
    decreases rows,
{
    if rows <= 0 {
        0
    } else {
        add_spec(conv_rows(a, b, rows - 1, k), coeff(a, rows - 1) * coeff(b, k - (rows - 1)))
    }
}

/// The `k`-th coefficient of the product `a * b`.
pub open spec fn product_coeff(a: Seq<u64>, b: Seq<u64>, k: int) -> int {
    conv_rows(a, b, a.len() as int, k)
}

proof fn lemma_conv_rows_bound(a: Seq<u64>, b: Seq<u64>, rows: int, k: int)
    ensures
        0 <= conv_rows(a, b, rows, k) < MODULUS,
    decreases rows,
{
    if rows > 0 {
        lemma_mod_bound(
            conv_rows(a, b, rows - 1, k) + coeff(a, rows - 1) * coeff(b, k - (rows - 1)),
            MODULUS as int,
        );
    }
}

/// The product of `a` and `b`; empty when either is.
pub fn mul_polys(a: &[u64], b: &[u64]) -> (r: Vec<u64>)
    requires
        is_poly(a@),
        is_poly(b@),
        a@.len() + b@.len() <= usize::MAX,
    ensures
        is_poly(r@),
        r@.len() == if a@.len() == 0 || b@.len() == 0 { 0 } else { (a@.len() + b@.len() - 1) as nat },
        r@ == mul_polys_spec(a@, b@),
{
    if a.len() == 0 || b.len() == 0 {
        let e: Vec<u64> = Vec::new();
        assert(e@ =~= mul_polys_spec(a@, b@));
        return e;
    }
    let n: usize = a.len() + b.len() - 1;
    let mut out: Vec<u64> = Vec::new();
    let mut k: usize = 0;
    while k < n
        invariant
            k <= n,
            out@.len() == k,
            forall|j: int| 0 <= j < k ==> #[trigger] out@[j] == 0,
        decreases n - k,
    {
        out.push(0);
        k = k + 1;
    }
    let mut i: usize = 0;
    while i < a.len()
        invariant
            i <= a@.len(),
            n == a@.len() + b@.len() - 1,
            is_poly(a@),
            is_poly(b@),
            out@.len() == n,
            forall|j: int| 0 <= j < n ==> #[trigger] out@[j] as int == conv_rows(a@, b@, i as int, j),
        decreases a@.len() - i,
    {
        let mut j: usize = 0;
        while j < b.len()
            invariant
                i < a@.len(),
                j <= b@.len(),
                n == a@.len() + b@.len() - 1,
                is_poly(a@),
                is_poly(b@),
                out@.len() == n,
                forall|t: int|
                    0 <= t < n ==> #[trigger] out@[t] as int == if i <= t < i + j {
                        conv_rows(a@, b@, i + 1, t)
                    } else {
                        conv_rows(a@, b@, i as int, t)
                    },
            decreases b@.len() - j,
        {
            let t: usize = i + j;
            proof {
                lemma_conv_rows_bound(a@, b@, i as int, t as int);
            }
            let v = fadd(out[t], fmul(a[i], b[j]));
            proof {
                let c = conv_rows(a@, b@, i as int, t as int);
                let p = a@[i as int] as int * b@[j as int] as int;
                lemma_add_mod_noop(c, p, MODULUS as int);
                lemma_mod_bound(c, MODULUS as int);
                assert(c % (MODULUS as int) == c) by {
                    vstd::arithmetic::div_mod::lemma_small_mod(c as nat, MODULUS as nat);
                };
                assert(coeff(b@, t - i) == b@[j as int] as int);
            }
            out.set(t, v);
            j = j + 1;
        }
        proof {
            assert forall|t: int| 0 <= t < n implies #[trigger] out@[t] as int == conv_rows(
                a@,
                b@,
                i + 1,
                t,
            ) by {
                if !(i <= t < i + b@.len()) {
                    assert(coeff(b@, t - i) == 0);
                    lemma_conv_rows_bound(a@, b@, i as int, t);
                    vstd::arithmetic::div_mod::lemma_small_mod(
                        conv_rows(a@, b@, i as int, t) as nat,
                        MODULUS as nat,
                    );
                }
            }
        }
        i = i + 1;
    }
    proof {
        assert forall|j: int| 0 <= j < out@.len() implies is_elem(#[trigger] out@[j]) by {
            lemma_conv_rows_bound(a@, b@, a@.len() as int, j);
        }
        assert(out@ =~= mul_polys_spec(a@, b@));
    }
    out
}

/// The `k`-th coefficient of the quotient of `p` by `X - z`, computed from the top down.
pub open spec fn quotient_coeff(p: Seq<u64>, z: int, k: int) -> int
    decreases p.len() - 1 - k,
{
    if k < 0 || k >= p.len() - 1 {
        0
    } else {
        add_spec(p[k + 1] as int, mul_spec(z, quotient_coeff(p, z, k + 1)))
    }
}

/// Divides `p` by `X - z` by synthetic division, dropping the remainder `p(z)`.
pub fn divide_by_linear(p: &[u64], z: u64) -> (r: Vec<u64>)
    requires
        is_poly(p@),
        is_elem(z),
    ensures
        is_poly(r@),
        r@.len() == if p@.len() == 0 { 0 } else { (p@.len() - 1) as nat },
        r@ == quotient_spec(p@, z as int),
{
    if p.len() <= 1 {
        let e: Vec<u64> = Vec::new();
        assert(e@ =~= quotient_spec(p@, z as int));
        return e;
    }
    let n: usize = p.len() - 1;
    let mut out: Vec<u64> = Vec::new();
    let mut k: usize = 0;
    while k < n
        invariant
            k <= n,
            out@.len() == k,
            forall|j: int| 0 <= j < k ==> #[trigger] out@[j] == 0,
        decreases n - k,
    {
        out.push(0);
        k = k + 1;
    }
    let mut acc: u64 = 0;
    let mut i: usize = n;
    while i > 0
        invariant
            i <= n,
            n == p@.len() - 1,
            is_poly(p@),
            is_elem(z),
            is_elem(acc),
            acc as int == quotient_coeff(p@, z as int, i as int),
            out@.len() == n,
            forall|j: int| 0 <= j < n ==> is_elem(#[trigger] out@[j]),
            forall|j: int| i <= j < n ==> #[trigger] out@[j] as int == quotient_coeff(p@, z as int, j),
        decreases i,
    {
        i = i - 1;
        acc = fadd(p[i + 1], fmul(z, acc));
        out.set(i, acc);
    }
    assert(out@ =~= quotient_spec(p@, z as int));
    out
}

} // verus!
