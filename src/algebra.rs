use vstd::arithmetic::div_mod::{
    lemma_add_mod_noop, lemma_mod_twice, lemma_mul_mod_noop_left, lemma_mul_mod_noop_right,
    lemma_small_mod, lemma_sub_mod_noop,
};
use vstd::prelude::*;

use crate::field::{add_spec, is_elem, mul_spec, sub_spec, MODULUS};
use crate::kzg::{check_spec, commit_spec, open_spec, pow_spec, VerifyingKey};
use crate::msm::msm_spec;
use crate::poly::{
    add_polys_spec, coeff, conv_rows, eval_spec, is_poly, mul_polys_spec, product_coeff, quotient_coeff,
    quotient_spec, scale_poly_spec,
};

verus! {

/// `a` and `b` are congruent modulo the field order.
pub open spec fn cong(a: int, b: int) -> bool {
    a % (MODULUS as int) == b % (MODULUS as int)
}

proof fn lemma_cong_add_spec(a: int, b: int)
    ensures
        cong(add_spec(a, b), a + b),
{
    lemma_mod_twice(a + b, MODULUS as int);
}

proof fn lemma_cong_mul_spec(a: int, b: int)
    ensures
        cong(mul_spec(a, b), a * b),
{
    lemma_mod_twice(a * b, MODULUS as int);
}

proof fn lemma_cong_sub_spec(a: int, b: int)
    ensures
        cong(sub_spec(a, b), a - b),
{
    lemma_mod_twice(a - b, MODULUS as int);
}

proof fn lemma_cong_add(a: int, a2: int, b: int, b2: int)
    requires
        cong(a, a2),
        cong(b, b2),
    ensures
        cong(a + b, a2 + b2),
{
    let m = MODULUS as int;
    lemma_add_mod_noop(a, b, m);
    lemma_add_mod_noop(a2, b2, m);
}

proof fn lemma_cong_sub(a: int, a2: int, b: int, b2: int)
    requires
        cong(a, a2),
        cong(b, b2),
    ensures
        cong(a - b, a2 - b2),
{
    let m = MODULUS as int;
    lemma_sub_mod_noop(a, b, m);
    lemma_sub_mod_noop(a2, b2, m);
}

proof fn lemma_cong_mul(a: int, a2: int, b: int, b2: int)
    requires
        cong(a, a2),
        cong(b, b2),
    ensures
        cong(a * b, a2 * b2),
{
    let m = MODULUS as int;
    lemma_mul_mod_noop_left(a, b, m);
    lemma_mul_mod_noop_left(a2, b, m);
    lemma_mul_mod_noop_right(a2, b, m);
    lemma_mul_mod_noop_right(a2, b2, m);
}

proof fn lemma_cong_small(a: int, b: int)
    requires
        cong(a, b),
        0 <= a < MODULUS,
        0 <= b < MODULUS,
    ensures
        a == b,
{
    lemma_small_mod(a as nat, MODULUS as nat);
    lemma_small_mod(b as nat, MODULUS as nat);
}

proof fn lemma_eval_bound(p: Seq<u64>, z: int)
    ensures
        0 <= eval_spec(p, z) < MODULUS,
    decreases p.len(),
{
}

/// The quotient's `k`-th coefficient is the value at `z` of the coefficients above `k`.
proof fn lemma_quotient_coeff_suffix(p: Seq<u64>, z: int, k: int)
    requires
        0 <= k < p.len() - 1,
    ensures
        quotient_coeff(p, z, k) == eval_spec(p.subrange(k + 1, p.len() as int), z),
    decreases p.len() - 1 - k,
{
    let s = p.subrange(k + 1, p.len() as int);
    assert(s[0] == p[k + 1]);
    if k + 1 < p.len() - 1 {
        lemma_quotient_coeff_suffix(p, z, k + 1);
        assert(s.drop_first() =~= p.subrange(k + 2, p.len() as int));
    } else {
        assert(s.drop_first() =~= Seq::<u64>::empty());
        assert(eval_spec(s.drop_first(), z) == 0);
        assert(quotient_coeff(p, z, k + 1) == 0);
    }
}

/// Synthetic division: `q(x) * (x - z) == p(x) - p(z)` for the quotient `q` of `p` by `X - z`.
pub proof fn lemma_quotient_identity(p: Seq<u64>, z: int, x: int)
    ensures
        mul_spec(eval_spec(quotient_spec(p, z), x), sub_spec(x, z)) == sub_spec(
            eval_spec(p, x),
            eval_spec(p, z),
        ),
    decreases p.len(),
{
    let q = quotient_spec(p, z);
    let lhs = mul_spec(eval_spec(q, x), sub_spec(x, z));
    let rhs = sub_spec(eval_spec(p, x), eval_spec(p, z));
    if p.len() <= 1 {
        assert(q.len() == 0);
        if p.len() == 1 {
            assert(p.drop_first().len() == 0);
            assert(eval_spec(p.drop_first(), x) == 0);
            assert(eval_spec(p.drop_first(), z) == 0);
            assert(x * 0 == 0 && z * 0 == 0) by (nonlinear_arith);
            assert(eval_spec(p, x) == eval_spec(p, z));
        }
        assert(lhs == 0);
        assert(rhs == 0);
    } else {
        let r = p.drop_first();
        let qr = quotient_spec(r, z);
        lemma_quotient_identity(r, z, x);
        // q = [r(z)] + quotient(r)
        assert forall|k: int| 0 <= k < q.len() - 1 implies #[trigger] q.drop_first()[k] == qr[k] by {
            lemma_quotient_coeff_suffix(p, z, k + 1);
            if k < r.len() - 1 {
                lemma_quotient_coeff_suffix(r, z, k);
            }
            assert(p.subrange(k + 2, p.len() as int) =~= r.subrange(k + 1, r.len() as int));
        }
        assert(q.drop_first() =~= qr);
        lemma_quotient_coeff_suffix(p, z, 0);
        assert(p.subrange(1, p.len() as int) =~= r);
        let a = eval_spec(r, x);
        let b = eval_spec(r, z);
        let qrx = eval_spec(qr, x);
        let c = p[0] as int;
        lemma_eval_bound(r, x);
        lemma_eval_bound(qr, x);
        // eval(q, x) == b + x * qrx
        let qx = eval_spec(q, x);
        assert(qx == add_spec(b, mul_spec(x, qrx)));
        lemma_cong_add_spec(b, mul_spec(x, qrx));
        lemma_cong_mul_spec(x, qrx);
        lemma_cong_add(b, b, mul_spec(x, qrx), x * qrx);
        assert(cong(qx, b + x * qrx));
        // the induction hypothesis, unreduced
        lemma_cong_mul_spec(qrx, sub_spec(x, z));
        lemma_cong_sub_spec(x, z);
        lemma_cong_mul(qrx, qrx, sub_spec(x, z), x - z);
        lemma_cong_sub_spec(a, b);
        assert(cong(qrx * (x - z), a - b));
        // lhs
        lemma_cong_mul_spec(qx, sub_spec(x, z));
        lemma_cong_mul(qx, b + x * qrx, sub_spec(x, z), x - z);
        assert(cong(lhs, (b + x * qrx) * (x - z)));
        lemma_cong_mul(x, x, qrx * (x - z), a - b);
        lemma_cong_add(b * (x - z), b * (x - z), x * (qrx * (x - z)), x * (a - b));
        assert((b + x * qrx) * (x - z) == b * (x - z) + x * (qrx * (x - z))) by (nonlinear_arith);
        assert(b * (x - z) + x * (a - b) == (x * a) - (z * b)) by (nonlinear_arith);
        assert(cong(lhs, x * a - z * b));
        // rhs
        let px = eval_spec(p, x);
        let pz = eval_spec(p, z);
        assert(px == add_spec(c, mul_spec(x, a)));
        assert(pz == add_spec(c, mul_spec(z, b)));
        lemma_cong_add_spec(c, mul_spec(x, a));
        lemma_cong_mul_spec(x, a);
        lemma_cong_add(c, c, mul_spec(x, a), x * a);
        lemma_cong_add_spec(c, mul_spec(z, b));
        lemma_cong_mul_spec(z, b);
        lemma_cong_add(c, c, mul_spec(z, b), z * b);
        lemma_cong_sub(px, c + x * a, pz, c + z * b);
        lemma_cong_sub_spec(px, pz);
        assert(cong(rhs, x * a - z * b));
        lemma_cong_small(lhs, rhs);
    }
}

/// Powers of a field element are field elements.
pub proof fn lemma_pow_bound(beta: int, i: nat)
    requires
        0 <= beta < MODULUS,
    ensures
        0 <= pow_spec(beta, i) < MODULUS,
    decreases i,
{
    if i > 0 {
        lemma_pow_bound(beta, (i - 1) as nat);
    }
}

proof fn lemma_msm_bound(bases: Seq<u64>, scalars: Seq<u64>, n: int)
    ensures
        0 <= msm_spec(bases, scalars, n) < MODULUS,
{
}

proof fn lemma_commit_prefix(powers: Seq<u64>, p: Seq<u64>, beta: int, n: int)
    requires
        0 <= beta < MODULUS,
        0 <= n <= p.len(),
        p.len() <= powers.len(),
        forall|i: int| 0 <= i < powers.len() ==> #[trigger] powers[i] as int == pow_spec(beta, i as nat),
    ensures
        cong(
            msm_spec(powers, p, n) + pow_spec(beta, n as nat) * eval_spec(p.subrange(n, p.len() as int), beta),
            eval_spec(p, beta),
        ),
    decreases n,
{
    let len = p.len() as int;
    if n == 0 {
        assert(p.subrange(0, len) =~= p);
        assert(1 * eval_spec(p, beta) == eval_spec(p, beta));
    } else {
        let k = n - 1;
        lemma_commit_prefix(powers, p, beta, k);
        let t = p.subrange(k, len);
        let t2 = p.subrange(n, len);
        assert(t.drop_first() =~= t2);
        assert(t[0] == p[k]);
        let e = eval_spec(t2, beta);
        let pk = pow_spec(beta, k as nat);
        let mk = msm_spec(powers, p, k);
        let c = p[k] as int;
        // eval(t) == c + beta * e
        lemma_cong_add_spec(c, mul_spec(beta, e));
        lemma_cong_mul_spec(beta, e);
        lemma_cong_add(c, c, mul_spec(beta, e), beta * e);
        assert(cong(eval_spec(t, beta), c + beta * e));
        // msm(n) == mk + c * pk
        lemma_cong_add_spec(mk, mul_spec(c, powers[k] as int));
        lemma_cong_mul_spec(c, pk);
        lemma_cong_add(mk, mk, mul_spec(c, pk), c * pk);
        assert(cong(msm_spec(powers, p, n), mk + c * pk));
        // pow(n) == pk * beta
        lemma_cong_mul_spec(pk, beta);
        lemma_cong_mul(pow_spec(beta, n as nat), pk * beta, e, e);
        lemma_cong_add(msm_spec(powers, p, n), mk + c * pk, pow_spec(beta, n as nat) * e, pk * beta * e);
        assert(mk + c * pk + pk * beta * e == mk + pk * (c + beta * e)) by (nonlinear_arith);
        lemma_cong_mul(pk, pk, eval_spec(t, beta), c + beta * e);
        lemma_cong_add(mk, mk, pk * eval_spec(t, beta), pk * (c + beta * e));
    }
}

/// Committing with the powers of `beta` evaluates the polynomial at `beta`.
pub proof fn lemma_commit_is_eval(powers: Seq<u64>, p: Seq<u64>, beta: int)
    requires
        0 <= beta < MODULUS,
        p.len() <= powers.len(),
        forall|i: int| 0 <= i < powers.len() ==> #[trigger] powers[i] as int == pow_spec(beta, i as nat),
    ensures
        commit_spec(powers, p) == eval_spec(p, beta),
{
    let len = p.len() as int;
    lemma_commit_prefix(powers, p, beta, len);
    assert(p.subrange(len, len).len() == 0);
    assert(pow_spec(beta, len as nat) * 0 == 0) by (nonlinear_arith);
    lemma_msm_bound(powers, p, len);
    lemma_eval_bound(p, beta);
    lemma_cong_small(commit_spec(powers, p), eval_spec(p, beta));
}

/// An honest opening checks: under the keys for a secret `beta`, the opening of any polynomial
/// `p` at any point `z` proves the commitment to `p` opens to `p(z)`.
pub proof fn lemma_honest_opening_checks(powers: Seq<u64>, beta: u64, p: Seq<u64>, z: u64)
    requires
        is_elem(beta),
        is_elem(z),
        p.len() <= powers.len(),
        forall|i: int| 0 <= i < powers.len() ==> #[trigger] powers[i] as int == pow_spec(beta as int, i as nat),
    ensures
        check_spec(
            VerifyingKey { g: 1, gamma_g: 0, h: 1, beta_h: beta },
            commit_spec(powers, p) as u64,
            z as int,
            eval_spec(p, z as int),
            open_spec(powers, p, z as int),
        ),
{
    let q = quotient_spec(p, z as int);
    lemma_commit_is_eval(powers, p, beta as int);
    lemma_commit_is_eval(powers, q, beta as int);
    lemma_eval_bound(p, beta as int);
    lemma_eval_bound(q, beta as int);
    lemma_eval_bound(p, z as int);
    lemma_quotient_identity(p, z as int, beta as int);
    let c = commit_spec(powers, p);
    let v = eval_spec(p, z as int);
    let w = commit_spec(powers, q);
    lemma_small_mod(v as nat, MODULUS as nat);
    lemma_small_mod(z as nat, MODULUS as nat);
    assert(v * 1 == v && (z as int) * 1 == z as int);
    assert(mul_spec(v, 1) == v);
    assert(mul_spec(z as int, 1) == z as int);
    let d = sub_spec(c, v);
    assert(0 <= d < MODULUS);
    lemma_small_mod(d as nat, MODULUS as nat);
    assert(d * 1 == d);
    assert(mul_spec(d, 1) == d);
}

/// Evaluation sees coefficients only up to congruence.
proof fn lemma_eval_cong(s: Seq<u64>, t: Seq<u64>, z: int)
    requires
        s.len() == t.len(),
        forall|k: int| 0 <= k < s.len() ==> cong(#[trigger] s[k] as int, t[k] as int),
    ensures
        eval_spec(s, z) == eval_spec(t, z),
    decreases s.len(),
{
    if s.len() > 0 {
        assert forall|k: int| 0 <= k < s.drop_first().len() implies cong(
            #[trigger] s.drop_first()[k] as int,
            t.drop_first()[k] as int,
        ) by {
            assert(s.drop_first()[k] == s[k + 1]);
            assert(t.drop_first()[k] == t[k + 1]);
        }
        lemma_eval_cong(s.drop_first(), t.drop_first(), z);
        let x = mul_spec(z, eval_spec(s.drop_first(), z));
        assert(cong(s[0] as int, t[0] as int));
        lemma_cong_add(s[0] as int, t[0] as int, x, x);
    }
}

/// Evaluation distributes over the coefficient-wise sum.
pub proof fn lemma_eval_add(u: Seq<u64>, w: Seq<u64>, z: int)
    requires
        is_poly(u),
        is_poly(w),
    ensures
        eval_spec(add_polys_spec(u, w), z) == add_spec(eval_spec(u, z), eval_spec(w, z)),
    decreases u.len() + w.len(),
{
    let s = add_polys_spec(u, w);
    let eu = eval_spec(u, z);
    let ew = eval_spec(w, z);
    lemma_eval_bound(u, z);
    lemma_eval_bound(w, z);
    if u.len() == 0 {
        assert forall|k: int| 0 <= k < s.len() implies cong(#[trigger] s[k] as int, w[k] as int) by {
            lemma_cong_add_spec(0, w[k] as int);
        }
        lemma_eval_cong(s, w, z);
        lemma_small_mod(ew as nat, MODULUS as nat);
    } else if w.len() == 0 {
        assert forall|k: int| 0 <= k < s.len() implies cong(#[trigger] s[k] as int, u[k] as int) by {
            lemma_cong_add_spec(u[k] as int, 0);
        }
        lemma_eval_cong(s, u, z);
        lemma_small_mod(eu as nat, MODULUS as nat);
    } else {
        let u2 = u.drop_first();
        let w2 = w.drop_first();
        assert(s.drop_first() =~= add_polys_spec(u2, w2));
        lemma_eval_add(u2, w2, z);
        let a = eval_spec(u2, z);
        let b = eval_spec(w2, z);
        let u0 = u[0] as int;
        let w0 = w[0] as int;
        assert(s[0] as int == add_spec(u0, w0));
        // eval(s) == (u0 + w0) + z * (a + b)
        lemma_cong_add_spec(s[0] as int, mul_spec(z, eval_spec(s.drop_first(), z)));
        lemma_cong_add_spec(u0, w0);
        lemma_cong_mul_spec(z, add_spec(a, b));
        lemma_cong_add_spec(a, b);
        lemma_cong_mul(z, z, add_spec(a, b), a + b);
        lemma_cong_add(s[0] as int, u0 + w0, mul_spec(z, add_spec(a, b)), z * (a + b));
        // eval(u) + eval(w) == (u0 + z * a) + (w0 + z * b)
        lemma_cong_add_spec(u0, mul_spec(z, a));
        lemma_cong_mul_spec(z, a);
        lemma_cong_add(u0, u0, mul_spec(z, a), z * a);
        lemma_cong_add_spec(w0, mul_spec(z, b));
        lemma_cong_mul_spec(z, b);
        lemma_cong_add(w0, w0, mul_spec(z, b), z * b);
        lemma_cong_add(eu, u0 + z * a, ew, w0 + z * b);
        lemma_cong_add_spec(eu, ew);
        assert(u0 + w0 + z * (a + b) == u0 + z * a + (w0 + z * b)) by (nonlinear_arith);
        lemma_eval_bound(s, z);
        lemma_cong_small(eval_spec(s, z), add_spec(eu, ew));
    }
}

/// Evaluation commutes with scaling.
pub proof fn lemma_eval_scale(b: Seq<u64>, c: int, z: int)
    ensures
        eval_spec(scale_poly_spec(b, c), z) == mul_spec(c, eval_spec(b, z)),
    decreases b.len(),
{
    let s = scale_poly_spec(b, c);
    if b.len() == 0 {
        assert(c * 0 == 0) by (nonlinear_arith);
    } else {
        let b2 = b.drop_first();
        assert(s.drop_first() =~= scale_poly_spec(b2, c));
        lemma_eval_scale(b2, c, z);
        let e2 = eval_spec(b2, z);
        let b0 = b[0] as int;
        // eval(s) == b0 * c + z * (c * e2)
        lemma_cong_mul_spec(b0, c);
        lemma_cong_mul_spec(c, e2);
        lemma_cong_mul(z, z, mul_spec(c, e2), c * e2);
        lemma_cong_mul_spec(z, mul_spec(c, e2));
        lemma_cong_add(s[0] as int, b0 * c, mul_spec(z, mul_spec(c, e2)), z * (c * e2));
        lemma_cong_add_spec(s[0] as int, mul_spec(z, mul_spec(c, e2)));
        // c * eval(b) == c * (b0 + z * e2)
        lemma_cong_add_spec(b0, mul_spec(z, e2));
        lemma_cong_mul_spec(z, e2);
        lemma_cong_add(b0, b0, mul_spec(z, e2), z * e2);
        lemma_cong_mul(c, c, eval_spec(b, z), b0 + z * e2);
        lemma_cong_mul_spec(c, eval_spec(b, z));
        assert(b0 * c + z * (c * e2) == c * (b0 + z * e2)) by (nonlinear_arith);
        lemma_eval_bound(s, z);
        lemma_cong_small(eval_spec(s, z), mul_spec(c, eval_spec(b, z)));
    }
}

proof fn lemma_conv_rows_negative(a: Seq<u64>, b: Seq<u64>, rows: int, k: int)
    requires
        k < 0,
    ensures
        conv_rows(a, b, rows, k) == 0,
    decreases rows,
{
    if rows > 0 {
        lemma_conv_rows_negative(a, b, rows - 1, k);
        assert(coeff(b, k - (rows - 1)) == 0);
        assert(coeff(a, rows - 1) * 0 == 0) by (nonlinear_arith);
    }
}

proof fn lemma_conv_rows_first(a: Seq<u64>, b: Seq<u64>, rows: int, k: int)
    requires
        a.len() >= 1,
        rows >= 1,
    ensures
        cong(
            conv_rows(a, b, rows, k),
            a[0] as int * coeff(b, k) + conv_rows(a.drop_first(), b, rows - 1, k - 1),
        ),
    decreases rows,
{
    let a2 = a.drop_first();
    if rows == 1 {
        assert(conv_rows(a2, b, 0, k - 1) == 0);
        assert(coeff(a, 0) == a[0] as int);
        assert(conv_rows(a, b, 0, k) == 0);
        assert(conv_rows(a, b, 1, k) == add_spec(0, coeff(a, 0) * coeff(b, k)));
        lemma_cong_add_spec(0, coeff(a, 0) * coeff(b, k));
    } else {
        lemma_conv_rows_first(a, b, rows - 1, k);
        let t = coeff(a, rows - 1) * coeff(b, k - (rows - 1));
        assert(coeff(a, rows - 1) == coeff(a2, rows - 2));
        assert(k - (rows - 1) == (k - 1) - (rows - 2));
        let prev = conv_rows(a2, b, rows - 2, k - 1);
        assert(conv_rows(a, b, rows, k) == add_spec(conv_rows(a, b, rows - 1, k), t));
        assert(conv_rows(a2, b, rows - 1, k - 1) == add_spec(prev, t));
        lemma_cong_add_spec(conv_rows(a, b, rows - 1, k), t);
        lemma_cong_add(conv_rows(a, b, rows - 1, k), a[0] as int * coeff(b, k) + prev, t, t);
        lemma_cong_add_spec(prev, t);
        lemma_cong_add(
            a[0] as int * coeff(b, k),
            a[0] as int * coeff(b, k),
            prev + t,
            conv_rows(a2, b, rows - 1, k - 1),
        );
    }
}

proof fn lemma_product_is_poly(a: Seq<u64>, b: Seq<u64>)
    ensures
        is_poly(mul_polys_spec(a, b)),
{
    assert forall|k: int| 0 <= k < mul_polys_spec(a, b).len() implies is_elem(
        #[trigger] mul_polys_spec(a, b)[k],
    ) by {
        if a.len() > 0 {
            lemma_conv_rows_bound_local(a, b, a.len() as int, k);
        }
    }
}

proof fn lemma_conv_rows_bound_local(a: Seq<u64>, b: Seq<u64>, rows: int, k: int)
    ensures
        0 <= conv_rows(a, b, rows, k) < MODULUS,
{
}

/// Evaluation is multiplicative: `(a * b)(z) == a(z) * b(z)`.
pub proof fn lemma_eval_mul(a: Seq<u64>, b: Seq<u64>, z: int)
    requires
        is_poly(a),
        is_poly(b),
    ensures
        eval_spec(mul_polys_spec(a, b), z) == mul_spec(eval_spec(a, z), eval_spec(b, z)),
    decreases a.len(),
{
    let m = mul_polys_spec(a, b);
    let ea = eval_spec(a, z);
    let eb = eval_spec(b, z);
    lemma_eval_bound(a, z);
    lemma_eval_bound(b, z);
    if a.len() == 0 || b.len() == 0 {
        assert(m.len() == 0);
        if a.len() == 0 {
            assert(0 * eb == 0) by (nonlinear_arith);
        } else {
            assert(ea * 0 == 0) by (nonlinear_arith);
        }
    } else {
        let a0 = a[0] as int;
        let a2 = a.drop_first();
        let sc = scale_poly_spec(b, a0);
        if a.len() == 1 {
            assert forall|k: int| 0 <= k < m.len() implies cong(#[trigger] m[k] as int, sc[k] as int) by {
                assert(product_coeff(a, b, k) == conv_rows(a, b, 1, k));
                lemma_conv_rows_bound_local(a, b, 1, k);
                assert(coeff(b, k) == b[k] as int);
                assert(coeff(a, 0) == a0);
                assert(conv_rows(a, b, 0, k) == 0);
                assert(m[k] as int == add_spec(0, coeff(a, 0) * coeff(b, k)));
                lemma_cong_add_spec(0, coeff(a, 0) * coeff(b, k));
                lemma_cong_mul_spec(b[k] as int, a0);
                assert(b[k] as int * a0 == a0 * b[k] as int) by (nonlinear_arith);
            }
            lemma_eval_cong(m, sc, z);
            lemma_eval_scale(b, a0, z);
            assert(eval_spec(a2, z) == 0);
            assert(z * 0 == 0) by (nonlinear_arith);
            lemma_small_mod(a0 as nat, MODULUS as nat);
            assert(ea == a0);
            assert(mul_spec(a0, eb) == mul_spec(ea, eb));
            assert(a0 * eb == eb * a0) by (nonlinear_arith);
        } else {
            let m2 = mul_polys_spec(a2, b);
            let sh = seq![0u64] + m2;
            let t = add_polys_spec(sc, sh);
            lemma_product_is_poly(a2, b);
            assert(is_poly(sh));
            assert(t.len() == m.len());
            assert forall|k: int| 0 <= k < m.len() implies cong(#[trigger] m[k] as int, t[k] as int) by {
                lemma_conv_rows_first(a, b, a.len() as int, k);
                let cb = if k < b.len() { mul_spec(b[k] as int, a0) } else { 0 };
                assert(coeff(sc, k) == cb);
                if k < b.len() {
                    lemma_cong_mul_spec(b[k] as int, a0);
                    assert(coeff(b, k) == b[k] as int);
                    assert(b[k] as int * a0 == a0 * coeff(b, k)) by (nonlinear_arith)
                        requires
                            coeff(b, k) == b[k] as int,
                    ;
                } else {
                    assert(a0 * coeff(b, k) == 0) by (nonlinear_arith)
                        requires
                            coeff(b, k) == 0,
                    ;
                }
                assert(cong(cb, a0 * coeff(b, k)));
                let r = conv_rows(a2, b, a.len() - 1, k - 1);
                if k == 0 {
                    lemma_conv_rows_negative(a2, b, a.len() - 1, k - 1);
                    assert(coeff(sh, k) == 0);
                } else {
                    assert(coeff(sh, k) == m2[k - 1]);
                }
                assert(coeff(sh, k) == r);
                lemma_cong_add(cb, a0 * coeff(b, k), r, r);
                lemma_cong_add_spec(cb, r);
            }
            lemma_eval_cong(m, t, z);
            lemma_eval_add(sc, sh, z);
            lemma_eval_scale(b, a0, z);
            assert(sh.drop_first() =~= m2);
            lemma_eval_mul(a2, b, z);
            let e2 = eval_spec(a2, z);
            let em2 = eval_spec(m2, z);
            let esh = eval_spec(sh, z);
            // eval(sh) == z * e2 * eb
            lemma_cong_add_spec(0, mul_spec(z, em2));
            lemma_cong_mul_spec(z, em2);
            lemma_cong_mul_spec(e2, eb);
            lemma_cong_mul(z, z, em2, e2 * eb);
            assert(cong(esh, z * (e2 * eb)));
            // eval(m) == a0 * eb + z * e2 * eb
            lemma_cong_mul_spec(a0, eb);
            lemma_cong_add(mul_spec(a0, eb), a0 * eb, esh, z * (e2 * eb));
            lemma_cong_add_spec(mul_spec(a0, eb), esh);
            // ea * eb == (a0 + z * e2) * eb
            lemma_cong_add_spec(a0, mul_spec(z, e2));
            lemma_cong_mul_spec(z, e2);
            lemma_cong_add(a0, a0, mul_spec(z, e2), z * e2);
            lemma_cong_mul(ea, a0 + z * e2, eb, eb);
            lemma_cong_mul_spec(ea, eb);
            assert(a0 * eb + z * (e2 * eb) == (a0 + z * e2) * eb) by (nonlinear_arith);
            lemma_eval_bound(m, z);
            lemma_cong_small(eval_spec(m, z), mul_spec(ea, eb));
        }
    }
}

/// Field multiplication commutes.
pub proof fn lemma_mul_spec_commutes(a: int, b: int)
    ensures
        mul_spec(a, b) == mul_spec(b, a),
{
    assert(a * b == b * a) by (nonlinear_arith);
}

/// The product's coefficients are field elements.
pub proof fn lemma_mul_polys_is_poly(a: Seq<u64>, b: Seq<u64>)
    ensures
        is_poly(mul_polys_spec(a, b)),
{
    lemma_product_is_poly(a, b);
}

/// Squaring the base doubles the exponent.
pub proof fn lemma_pow_square(x: int, h: nat)
    requires
        0 <= x < MODULUS,
    ensures
        pow_spec(mul_spec(x, x), h) == pow_spec(x, 2 * h),
    decreases h,
{
    if h > 0 {
        lemma_pow_square(x, (h - 1) as nat);
        let p = pow_spec(x, (2 * h - 2) as nat);
        assert(pow_spec(x, (2 * h - 1) as nat) == mul_spec(p, x));
        assert(pow_spec(x, 2 * h) == mul_spec(mul_spec(p, x), x));
        lemma_cong_mul_spec(p, x);
        lemma_cong_mul(mul_spec(p, x), p * x, x, x);
        lemma_cong_mul_spec(mul_spec(p, x), x);
        lemma_cong_mul_spec(x, x);
        lemma_cong_mul(p, p, mul_spec(x, x), x * x);
        lemma_cong_mul_spec(p, mul_spec(x, x));
        assert(p * x * x == p * (x * x)) by (nonlinear_arith);
        lemma_cong_small(pow_spec(mul_spec(x, x), h), pow_spec(x, 2 * h));
    }
}

/// Multiplying by the base raises the exponent by one, with the factors in either order.
pub proof fn lemma_pow_step(acc: int, x: int, k: nat)
    ensures
        mul_spec(mul_spec(acc, x), pow_spec(x, k)) == mul_spec(acc, pow_spec(x, k + 1)),
{
    let p = pow_spec(x, k);
    lemma_cong_mul_spec(acc, x);
    lemma_cong_mul(mul_spec(acc, x), acc * x, p, p);
    lemma_cong_mul_spec(mul_spec(acc, x), p);
    lemma_cong_mul_spec(p, x);
    lemma_cong_mul(acc, acc, mul_spec(p, x), p * x);
    lemma_cong_mul_spec(acc, mul_spec(p, x));
    assert(acc * x * p == acc * (p * x)) by (nonlinear_arith);
    lemma_cong_small(mul_spec(mul_spec(acc, x), p), mul_spec(acc, pow_spec(x, k + 1)));
}

} // verus!
