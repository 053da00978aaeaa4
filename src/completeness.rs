use vstd::prelude::*;

use crate::algebra::{
    cong, lemma_commit_is_eval, lemma_eval_add, lemma_eval_mul, lemma_eval_scale, lemma_honest_opening_checks,
    lemma_mul_polys_is_poly, lemma_mul_spec_commutes, lemma_pow_bound,
};
use crate::field::{is_elem, mul_spec, MODULUS};
use crate::hash::{hash_commitment_spec, hash_commitments_spec, hash_to_poly_spec};
use crate::kzg::{pow_spec, VerifyingKey, GENERATOR};
use crate::accumulation::retained_all;
use crate::msm::msm_spec;
use crate::poly::{add_polys_spec, eval_spec, is_poly, mul_polys_spec, scale_poly_spec};
use crate::puzzle::{
    accepts_spec, combine_spec, combined_proof_spec, commitments_of, eval_sum_spec, partials_of, polys_of,
    prove_spec, retained_spec, solution_poly_spec, srs_powers_spec, verify_spec, EpochChallenge, EpochInfo,
    ProverPuzzleSolution, ProvingKey,
};

verus! {

/// Expanded coefficients are field elements.
pub proof fn lemma_hash_to_poly_is_poly(input: Seq<u8>, degree: nat)
    ensures
        is_poly(hash_to_poly_spec(input, degree)),
{
}

/// The keys that `trim` makes from the reference string of a secret `beta`.
pub open spec fn keys_for_secret(
    beta: u64,
    max_degree: nat,
    degree: nat,
    pk: ProvingKey,
    vk: VerifyingKey,
) -> bool {
    &&& is_elem(beta)
    &&& degree <= max_degree
    &&& pk.powers_of_beta_g@ == srs_powers_spec(max_degree, beta as int).subrange(0, degree + 1 as int)
    &&& vk == (VerifyingKey {
        g: srs_powers_spec(max_degree, beta as int)[0],
        gamma_g: 0,
        h: GENERATOR,
        beta_h: beta,
    })
    &&& pk.vk == vk
}

proof fn lemma_keys_powers(beta: u64, max_degree: nat, degree: nat, pk: ProvingKey, vk: VerifyingKey)
    requires
        keys_for_secret(beta, max_degree, degree, pk, vk),
    ensures
        forall|i: int|
            0 <= i < pk.powers_of_beta_g@.len() ==> #[trigger] pk.powers_of_beta_g@[i] as int == pow_spec(
                beta as int,
                i as nat,
            ),
        vk == (VerifyingKey { g: 1, gamma_g: 0, h: 1, beta_h: beta }),
        pk.powers_of_beta_g@.len() == degree + 1,
        is_poly(pk.powers_of_beta_g@),
        vk.wf(),
{
    assert forall|i: int| 0 <= i < pk.powers_of_beta_g@.len() implies #[trigger] pk.powers_of_beta_g@[i] as int
        == pow_spec(beta as int, i as nat) by {
        lemma_pow_bound(beta as int, i as nat);
    }
    assert(pow_spec(beta as int, 0) == 1);
}

/// A solution that `prove` makes passes the check that `accumulate` applies to each solution.
pub proof fn lemma_proved_solution_accepted(
    beta: u64,
    max_degree: nat,
    degree: nat,
    pk: ProvingKey,
    vk: VerifyingKey,
    epoch_info: EpochInfo,
    challenge: EpochChallenge,
    s: ProverPuzzleSolution,
)
    requires
        keys_for_secret(beta, max_degree, degree, pk, vk),
        challenge.wf(),
        2 * challenge.epoch_polynomial@.len() - 1 <= degree + 1,
        s == prove_spec(pk, epoch_info, challenge, s.address, s.nonce),
    ensures
        accepts_spec(vk, epoch_info, challenge, s),
{
    lemma_keys_powers(beta, max_degree, degree, pk, vk);
    let c = challenge.epoch_polynomial@;
    let p = solution_poly_spec(challenge, epoch_info, s.address, s.nonce);
    lemma_hash_to_poly_is_poly(
        crate::puzzle::solution_input(epoch_info, s.address, s.nonce),
        challenge.degree_spec(),
    );
    let product = mul_polys_spec(p, c);
    let powers = pk.powers_of_beta_g@;
    let z = hash_commitment_spec(s.commitment.0);
    assert(0 <= z < MODULUS);
    lemma_honest_opening_checks(powers, beta, product, z as u64);
    lemma_eval_mul(p, c, z);
    lemma_mul_spec_commutes(eval_spec(p, z), eval_spec(c, z));
}

/// When every solution passes its check, `accumulate` keeps them all.
pub proof fn lemma_all_accepted_retained(
    vk: VerifyingKey,
    epoch_info: EpochInfo,
    challenge: EpochChallenge,
    sols: Seq<ProverPuzzleSolution>,
    n: int,
)
    requires
        0 <= n <= sols.len(),
        forall|i: int| 0 <= i < sols.len() ==> accepts_spec(vk, epoch_info, challenge, #[trigger] sols[i]),
    ensures
        retained_spec(vk, epoch_info, challenge, sols, n) == sols.subrange(0, n),
    decreases n,
{
    if n > 0 {
        lemma_all_accepted_retained(vk, epoch_info, challenge, sols, n - 1);
        assert(sols.subrange(0, n - 1).push(sols[n - 1]) =~= sols.subrange(0, n));
    } else {
        assert(sols.subrange(0, 0) =~= Seq::<ProverPuzzleSolution>::empty());
    }
}

/// The combination's value is the combination of the values.
proof fn lemma_eval_combine(polys: Seq<Seq<u64>>, alphas: Seq<u64>, n: int, x: int)
    requires
        0 <= n <= polys.len(),
        n <= alphas.len(),
        forall|i: int| 0 <= i < polys.len() ==> is_poly(#[trigger] polys[i]),
    ensures
        eval_spec(combine_spec(polys, alphas, n), x) == eval_sum_spec(polys, alphas, x, n),
        is_poly(combine_spec(polys, alphas, n)),
    decreases n,
{
    if n > 0 {
        lemma_eval_combine(polys, alphas, n - 1, x);
        let prev = combine_spec(polys, alphas, n - 1);
        let sc = scale_poly_spec(polys[n - 1], alphas[n - 1] as int);
        assert(is_poly(sc));
        lemma_eval_add(prev, sc, x);
        lemma_eval_scale(polys[n - 1], alphas[n - 1] as int, x);
        lemma_mul_spec_commutes(alphas[n - 1] as int, eval_spec(polys[n - 1], x));
        assert(is_poly(add_polys_spec(prev, sc)));
    } else {
        assert(is_poly(Seq::<u64>::empty()));
    }
}

/// The product of a combination of the values with a common factor is the MSM of the products.
proof fn lemma_msm_of_products(cs: Seq<u64>, polys: Seq<Seq<u64>>, alphas: Seq<u64>, x: int, ec: int, n: int)
    requires
        0 <= n <= cs.len(),
        cs.len() == polys.len(),
        n <= alphas.len(),
        forall|i: int| 0 <= i < cs.len() ==> #[trigger] cs[i] as int == mul_spec(eval_spec(polys[i], x), ec),
    ensures
        msm_spec(cs, alphas, n) == mul_spec(eval_sum_spec(polys, alphas, x, n), ec),
    decreases n,
{
    if n == 0 {
        assert(0 * ec == 0) by (nonlinear_arith);
    } else {
        lemma_msm_of_products(cs, polys, alphas, x, ec, n - 1);
        let k = n - 1;
        let a = alphas[k] as int;
        let e = eval_spec(polys[k], x);
        let prev = eval_sum_spec(polys, alphas, x, k);
        let m = MODULUS as int;
        // msm(n) == prev * ec + a * (e * ec)
        vstd::arithmetic::div_mod::lemma_mod_twice(a * cs[k] as int, m);
        assert(cong(mul_spec(a, cs[k] as int), a * cs[k] as int));
        vstd::arithmetic::div_mod::lemma_mul_mod_noop_right(a, e * ec, m);
        assert(cong(a * cs[k] as int, a * (e * ec)));
        vstd::arithmetic::div_mod::lemma_mul_mod_noop_left(prev, ec, m);
        vstd::arithmetic::div_mod::lemma_add_mod_noop(msm_spec(cs, alphas, k), mul_spec(a, cs[k] as int), m);
        vstd::arithmetic::div_mod::lemma_add_mod_noop(prev * ec, a * (e * ec), m);
        vstd::arithmetic::div_mod::lemma_mod_twice(prev * ec, m);
        vstd::arithmetic::div_mod::lemma_mod_twice(a * (e * ec), m);
        assert(cong(msm_spec(cs, alphas, n), prev * ec + a * (e * ec)));
        // sum(n) * ec == (prev + e * a) * ec
        let sn = eval_sum_spec(polys, alphas, x, n);
        vstd::arithmetic::div_mod::lemma_mod_twice(e * a, m);
        vstd::arithmetic::div_mod::lemma_add_mod_noop(prev, mul_spec(e, a), m);
        vstd::arithmetic::div_mod::lemma_add_mod_noop(prev, e * a, m);
        assert(cong(sn, prev + e * a));
        vstd::arithmetic::div_mod::lemma_mul_mod_noop_left(sn, ec, m);
        vstd::arithmetic::div_mod::lemma_mul_mod_noop_left(prev + e * a, ec, m);
        vstd::arithmetic::div_mod::lemma_mod_twice(sn * ec, m);
        assert(cong(mul_spec(sn, ec), (prev + e * a) * ec));
        assert(prev * ec + a * (e * ec) == (prev + e * a) * ec) by (nonlinear_arith);
        vstd::arithmetic::div_mod::lemma_small_mod(msm_spec(cs, alphas, n) as nat, MODULUS as nat);
        vstd::arithmetic::div_mod::lemma_small_mod(mul_spec(sn, ec) as nat, MODULUS as nat);
    }
}

/// Completeness: under the keys for any secret, the combination that `accumulate` makes of
/// solutions that `prove` made, for any non-empty list of addresses and nonces, keeps every
/// solution and verifies.
pub proof fn lemma_accumulated_proofs_verify(
    beta: u64,
    max_degree: nat,
    degree: nat,
    pk: ProvingKey,
    vk: VerifyingKey,
    epoch_info: EpochInfo,
    challenge: EpochChallenge,
    sols: Seq<ProverPuzzleSolution>,
)
    requires
        keys_for_secret(beta, max_degree, degree, pk, vk),
        challenge.wf(),
        2 * challenge.epoch_polynomial@.len() - 1 <= degree + 1,
        sols.len() > 0,
        forall|i: int|
            0 <= i < sols.len() ==> #[trigger] sols[i] == prove_spec(
                pk,
                epoch_info,
                challenge,
                sols[i].address,
                sols[i].nonce,
            ),
    ensures
        retained_all(vk, epoch_info, challenge, sols) == sols,
        verify_spec(
            vk,
            epoch_info,
            challenge,
            partials_of(sols),
            combined_proof_spec(pk, epoch_info, challenge, partials_of(sols)),
        ),
{
    lemma_keys_powers(beta, max_degree, degree, pk, vk);
    assert forall|i: int| 0 <= i < sols.len() implies accepts_spec(vk, epoch_info, challenge, #[trigger] sols[i]) by {
        lemma_proved_solution_accepted(beta, max_degree, degree, pk, vk, epoch_info, challenge, sols[i]);
    }
    lemma_all_accepted_retained(vk, epoch_info, challenge, sols, sols.len() as int);
    assert(sols.subrange(0, sols.len() as int) =~= sols);

    let parts = partials_of(sols);
    let m = parts.len() as int;
    let c = challenge.epoch_polynomial@;
    let powers = pk.powers_of_beta_g@;
    let cs = commitments_of(parts);
    let fs = hash_commitments_spec(cs);
    let z = fs[m] as int;
    let polys = polys_of(challenge, epoch_info, parts);
    assert forall|i: int| 0 <= i < polys.len() implies is_poly(#[trigger] polys[i]) by {
        lemma_hash_to_poly_is_poly(
            crate::puzzle::solution_input(epoch_info, parts[i].address, parts[i].nonce),
            challenge.degree_spec(),
        );
    }
    assert forall|i: int| 0 <= i < polys.len() implies (#[trigger] polys[i]).len() == c.len() by {}
    let comb = combine_spec(polys, fs, m);
    let q = mul_polys_spec(comb, c);
    let ec = eval_spec(c, beta as int);
    // each commitment is the value at beta of its product
    assert forall|i: int| 0 <= i < cs.len() implies #[trigger] cs[i] as int == mul_spec(
        eval_spec(polys[i], beta as int),
        ec,
    ) by {
        let p = polys[i];
        lemma_mul_polys_is_poly(p, c);
        lemma_commit_is_eval(powers, mul_polys_spec(p, c), beta as int);
        lemma_eval_mul(p, c, beta as int);
        assert(cs[i] == sols[i].commitment.0);
    }
    assert(is_poly(cs)) by {
        assert forall|i: int| 0 <= i < cs.len() implies is_elem(#[trigger] cs[i]) by {
            assert(cs[i] == sols[i].commitment.0);
        }
    }
    assert(fs.len() == m + 1);
    lemma_hash_to_poly_is_poly(crate::hash::sha256_of(crate::hash::transcript(cs)), cs.len());
    assert(0 <= z < MODULUS);
    lemma_eval_combine(polys, fs, m, beta as int);
    lemma_eval_combine(polys, fs, m, z);
    lemma_eval_mul(comb, c, beta as int);
    lemma_eval_mul(comb, c, z);
    lemma_msm_of_products(cs, polys, fs, beta as int, ec, m);
    // the combination has as many coefficients as the epoch polynomial
    assert(comb.len() <= c.len()) by {
        lemma_combine_len(polys, fs, m, c.len());
    }
    lemma_commit_is_eval(powers, q, beta as int);
    lemma_honest_opening_checks(powers, beta, q, z as u64);
}

proof fn lemma_combine_len(polys: Seq<Seq<u64>>, alphas: Seq<u64>, n: int, len: nat)
    requires
        0 <= n <= polys.len(),
        forall|i: int| 0 <= i < polys.len() ==> (#[trigger] polys[i]).len() == len,
    ensures
        combine_spec(polys, alphas, n).len() <= len,
    decreases n,
{
    if n > 0 {
        lemma_combine_len(polys, alphas, n - 1, len);
    }
}

} // verus!
