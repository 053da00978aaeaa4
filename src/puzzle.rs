use vstd::prelude::*;

use crate::bytes::{le_bytes, push_u64_le};
use crate::field::{add_spec, fadd, fmul, is_elem, mul_spec, MODULUS};
use crate::hash::{
    hash_commitment, hash_commitment_spec, hash_commitments, hash_commitments_spec, hash_to_poly,
    hash_to_poly_spec,
};
use crate::kzg::{
    check, check_spec, commit, commit_spec, open, open_spec, pow_spec, Commitment, Proof, VerifyingKey,
    GENERATOR,
};
use crate::domain::{domain_spec, lagrange_basis, lagrange_spec, next_pow2_spec, EvaluationDomain, MAX_DOMAIN_SIZE};
use crate::msm::{msm_spec, VariableBase};
use crate::poly::{
    add_polys, add_polys_spec, eval_spec, evaluate, is_poly, mul_polys, mul_polys_spec, scale_poly,
    scale_poly_spec,
};

verus! {

/// The descriptor of an epoch.
#[derive(Clone, Copy, Debug, PartialEq, Eq, Structural)]
pub struct EpochInfo {
    pub epoch_number: u64,
}

impl EpochInfo {
    /// The eight little-endian bytes of the epoch number.
    pub fn to_bytes_le(&self) -> (r: Vec<u8>)
        ensures
            r@ == le_bytes(self.epoch_number as nat, 8),
    {
        let mut out: Vec<u8> = Vec::new();
        push_u64_le(&mut out, self.epoch_number);
        assert(out@ =~= le_bytes(self.epoch_number as nat, 8));
        out
    }
}

/// A prover's identity: 32 bytes.
#[derive(Clone, Copy, Debug, PartialEq, Eq)]
pub struct Address {
    pub bytes: [u8; 32],
}

/// The epoch polynomial `C(X)`, as its coefficients from the constant term up.
#[derive(Clone, Debug, PartialEq, Eq)]
pub struct EpochChallenge {
    pub epoch_polynomial: Vec<u64>,
}

impl EpochChallenge {
    /// At least one coefficient, each a field element, and few enough that products fit.
    pub open spec fn wf(&self) -> bool {
        &&& 1 <= self.epoch_polynomial@.len()
        &&& 2 * self.epoch_polynomial@.len() < usize::MAX
        &&& is_poly(self.epoch_polynomial@)
    }

    pub open spec fn degree_spec(&self) -> nat {
        (self.epoch_polynomial@.len() - 1) as nat
    }

    pub fn degree(&self) -> (r: usize)
        requires
            self.wf(),
        ensures
            r == self.degree_spec(),
    {
        self.epoch_polynomial.len() - 1
    }
}

/// The powers `beta^i * g` for `i` in `0..=max_degree`, with `h` and `beta * h`.
#[derive(Clone, Debug, PartialEq, Eq)]
pub struct Srs {
    pub powers_of_beta_g: Vec<u64>,
    pub h: u64,
    pub beta_h: u64,
}

impl Srs {
    pub open spec fn wf(&self) -> bool {
        &&& 1 <= self.powers_of_beta_g@.len()
        &&& is_poly(self.powers_of_beta_g@)
        &&& is_elem(self.h)
        &&& is_elem(self.beta_h)
    }
}

/// The commitments to the Lagrange polynomials of the domain of size `domain_size`.
#[derive(Clone, Debug, PartialEq, Eq)]
pub struct LagrangeBasis {
    pub domain_size: u64,
    pub bases: Vec<u64>,
}

/// The prover's key: a prefix of the powers, the Lagrange bases by domain size, and the
/// verifying key.
#[derive(Clone, Debug, PartialEq, Eq)]
pub struct ProvingKey {
    pub powers_of_beta_g: Vec<u64>,
    pub lagrange_bases_at_beta_g: Vec<LagrangeBasis>,
    pub vk: VerifyingKey,
}

impl ProvingKey {
    pub open spec fn wf(&self) -> bool {
        &&& is_poly(self.powers_of_beta_g@)
        &&& self.vk.wf()
    }
}

/// One prover's solution.
#[derive(Clone, Copy, Debug, PartialEq, Eq)]
pub struct ProverPuzzleSolution {
    pub address: Address,
    pub nonce: u64,
    pub commitment: Commitment,
    pub proof: Proof,
}

/// What a combined solution keeps of each prover's solution.
#[derive(Clone, Copy, Debug, PartialEq, Eq)]
pub struct PartialProverSolution {
    pub address: Address,
    pub nonce: u64,
    pub commitment: Commitment,
}

/// Solutions accumulated under one opening proof.
#[derive(Clone, Debug, PartialEq, Eq)]
pub struct CombinedPuzzleSolution {
    pub individual_puzzle_solutions: Vec<PartialProverSolution>,
    pub proof: Proof,
}

/// The 48 bytes that a solution polynomial is expanded from: epoch, address, nonce.
pub open spec fn solution_input(epoch_info: EpochInfo, address: Address, nonce: u64) -> Seq<u8> {
    le_bytes(epoch_info.epoch_number as nat, 8) + address.bytes@ + le_bytes(nonce as nat, 8)
}

/// The solution polynomial of `(address, nonce)` in an epoch, of the epoch polynomial's degree.
pub open spec fn solution_poly_spec(
    challenge: EpochChallenge,
    epoch_info: EpochInfo,
    address: Address,
    nonce: u64,
) -> Seq<u64> {
    hash_to_poly_spec(solution_input(epoch_info, address, nonce), challenge.degree_spec())
}

/// The epoch polynomial of an epoch.
pub open spec fn epoch_poly_spec(epoch_info: EpochInfo, degree: nat) -> Seq<u64> {
    hash_to_poly_spec(le_bytes(epoch_info.epoch_number as nat, 8), degree)
}

/// The solution that `prove` returns: a commitment to `p * C`, opened at the point that the
/// commitment hashes to.
pub open spec fn prove_spec(
    pk: ProvingKey,
    epoch_info: EpochInfo,
    challenge: EpochChallenge,
    address: Address,
    nonce: u64,
) -> ProverPuzzleSolution {
    let product = mul_polys_spec(
        solution_poly_spec(challenge, epoch_info, address, nonce),
        challenge.epoch_polynomial@,
    );
    let c = commit_spec(pk.powers_of_beta_g@, product) as u64;
    ProverPuzzleSolution {
        address,
        nonce,
        commitment: Commitment(c),
        proof: open_spec(pk.powers_of_beta_g@, product, hash_commitment_spec(c)),
    }
}

/// Whether a single solution's opening checks: at the point that its commitment hashes to,
/// it opens to `C(z) * p(z)`.
pub open spec fn accepts_spec(
    vk: VerifyingKey,
    epoch_info: EpochInfo,
    challenge: EpochChallenge,
    s: ProverPuzzleSolution,
) -> bool {
    let p = solution_poly_spec(challenge, epoch_info, s.address, s.nonce);
    let z = hash_commitment_spec(s.commitment.0);
    let v = mul_spec(eval_spec(challenge.epoch_polynomial@, z), eval_spec(p, z));
    check_spec(vk, s.commitment.0, z, v, s.proof)
}

/// The solutions among the first `n` whose opening checks, in input order.
pub open spec fn retained_spec(
    vk: VerifyingKey,
    epoch_info: EpochInfo,
    challenge: EpochChallenge,
    sols: Seq<ProverPuzzleSolution>,
    n: int,
) -> Seq<ProverPuzzleSolution>
    decreases n,
{
    if n <= 0 {
        Seq::empty()
    } else if accepts_spec(vk, epoch_info, challenge, sols[n - 1]) {
        retained_spec(vk, epoch_info, challenge, sols, n - 1).push(sols[n - 1])
    } else {
        retained_spec(vk, epoch_info, challenge, sols, n - 1)
    }
}

/// What a combined solution keeps of a solution.
pub open spec fn partial_of(s: ProverPuzzleSolution) -> PartialProverSolution {
    PartialProverSolution { address: s.address, nonce: s.nonce, commitment: s.commitment }
}

pub open spec fn partials_of(sols: Seq<ProverPuzzleSolution>) -> Seq<PartialProverSolution> {
    sols.map_values(|s: ProverPuzzleSolution| partial_of(s))
}

/// The commitments of a list of partial solutions, in order.
pub open spec fn commitments_of(parts: Seq<PartialProverSolution>) -> Seq<u64> {
    parts.map_values(|s: PartialProverSolution| s.commitment.0)
}

/// The solution polynomials of a list of partial solutions, in order.
pub open spec fn polys_of(
    challenge: EpochChallenge,
    epoch_info: EpochInfo,
    parts: Seq<PartialProverSolution>,
) -> Seq<Seq<u64>> {
    parts.map_values(
        |s: PartialProverSolution| solution_poly_spec(challenge, epoch_info, s.address, s.nonce),
    )
}

/// `sum_(i < n) alphas_i * polys_i`, folded in order from the empty polynomial.
pub open spec fn combine_spec(polys: Seq<Seq<u64>>, alphas: Seq<u64>, n: int) -> Seq<u64>
    decreases n,
{
    if n <= 0 {
        Seq::empty()
    } else {
        add_polys_spec(
            combine_spec(polys, alphas, n - 1),
            scale_poly_spec(polys[n - 1], alphas[n - 1] as int),
        )
    }
}

/// The combined opening over `parts`: `Q = (sum_i alpha_i * p_i) * C`, opened at the shared
/// point, where the challenges come from the commitments of `parts` in order.
pub open spec fn combined_proof_spec(
    pk: ProvingKey,
    epoch_info: EpochInfo,
    challenge: EpochChallenge,
    parts: Seq<PartialProverSolution>,
) -> Proof {
    let fs = hash_commitments_spec(commitments_of(parts));
    let m = parts.len() as int;
    let combined = combine_spec(polys_of(challenge, epoch_info, parts), fs, m);
    let q = mul_polys_spec(combined, challenge.epoch_polynomial@);
    open_spec(pk.powers_of_beta_g@, q, fs[m] as int)
}

/// `sum_(i < n) p_i(z) * alphas_i`.
pub open spec fn eval_sum_spec(polys: Seq<Seq<u64>>, alphas: Seq<u64>, z: int, n: int) -> int
    decreases n,
{
    if n <= 0 {
        0
    } else {
        add_spec(
            eval_sum_spec(polys, alphas, z, n - 1),
            mul_spec(eval_spec(polys[n - 1], z), alphas[n - 1] as int),
        )
    }
}

/// Whether a combined solution verifies: it is non-empty, its proof is non-hiding, every
/// commitment is a canonical element, and the proof opens `sum_i alpha_i * C_i` at the shared
/// point to `C(z) * sum_i alpha_i * p_i(z)`.
pub open spec fn verify_spec(
    vk: VerifyingKey,
    epoch_info: EpochInfo,
    challenge: EpochChallenge,
    parts: Seq<PartialProverSolution>,
    proof: Proof,
) -> bool {
    let cs = commitments_of(parts);
    let fs = hash_commitments_spec(cs);
    let m = parts.len() as int;
    let z = fs[m] as int;
    let eval = mul_spec(
        eval_sum_spec(polys_of(challenge, epoch_info, parts), fs, z, m),
        eval_spec(challenge.epoch_polynomial@, z),
    );
    &&& m > 0
    &&& proof.random_v.is_none()
    &&& is_poly(cs)
    &&& check_spec(vk, msm_spec(cs, fs, m) as u64, z, eval, proof)
}

/// The structured reference string for a secret `beta`.
pub open spec fn srs_powers_spec(max_degree: nat, beta: int) -> Seq<u64> {
    Seq::new(max_degree + 1, |i: int| pow_spec(beta, i as nat) as u64)
}

/// Relies on `rand::random`: an arbitrary `u64`; nothing is known of its value.
#[verifier::external_body]
fn random_u64() -> (r: u64) {
    rand::random::<u64>()
}

/// The coinbase puzzle.
pub struct CoinbasePuzzle;

impl CoinbasePuzzle {
    /// A reference string of `max_degree + 1` powers, under a secret drawn at random.
    pub fn setup(max_degree: usize) -> (r: Srs)
        requires
            max_degree < usize::MAX,
        ensures
            r.wf(),
            r.powers_of_beta_g@.len() == max_degree + 1,
            r.powers_of_beta_g@ == srs_powers_spec(max_degree as nat, r.beta_h as int),
            r.h == GENERATOR,
    {
        let beta = random_u64() % MODULUS;
        Self::setup_with_secret(max_degree, beta)
    }

    /// The reference string of `max_degree + 1` powers of the secret `beta`.
    pub fn setup_with_secret(max_degree: usize, beta: u64) -> (r: Srs)
        requires
            max_degree < usize::MAX,
            is_elem(beta),
        ensures
            r.wf(),
            r.powers_of_beta_g@ == srs_powers_spec(max_degree as nat, beta as int),
            r.h == GENERATOR,
            r.beta_h == beta,
    {
        let mut powers: Vec<u64> = Vec::new();
        let mut cur: u64 = GENERATOR;
        let mut i: usize = 0;
        while i <= max_degree
            invariant
                i <= max_degree + 1,
                max_degree < usize::MAX,
                is_elem(beta),
                is_elem(cur),
                cur as int == pow_spec(beta as int, i as nat),
                powers@.len() == i,
                forall|k: int| 0 <= k < i ==> #[trigger] powers@[k] == srs_powers_spec(max_degree as nat, beta as int)[k],
                is_poly(powers@),
            decreases max_degree + 1 - i,
        {
            powers.push(cur);
            cur = fmul(cur, beta);
            i = i + 1;
        }
        assert(powers@ =~= srs_powers_spec(max_degree as nat, beta as int));
        Srs { powers_of_beta_g: powers, h: GENERATOR, beta_h: beta }
    }

    /// The keys for polynomials of up to `degree + 1` coefficients, with the Lagrange bases of
    /// the smallest domain that holds them.
    pub fn trim(srs: &Srs, degree: usize) -> (r: (ProvingKey, VerifyingKey))
        requires
            srs.wf(),
            degree < srs.powers_of_beta_g@.len(),
            degree + 1 <= MAX_DOMAIN_SIZE,
            next_pow2_spec((degree + 1) as nat) <= srs.powers_of_beta_g@.len(),
        ensures
            r.0.wf(),
            r.0.lagrange_bases_at_beta_g@.len() == 1,
            r.0.lagrange_bases_at_beta_g@[0].domain_size == next_pow2_spec((degree + 1) as nat),
            r.0.lagrange_bases_at_beta_g@[0].bases@.len() == next_pow2_spec((degree + 1) as nat),
            forall|i: int|
                0 <= i < r.0.lagrange_bases_at_beta_g@[0].bases@.len() ==> #[trigger] r.0.lagrange_bases_at_beta_g@[0].bases@[i]
                    as int == lagrange_spec(srs.powers_of_beta_g@, domain_spec((degree + 1) as nat), i),
            r.0.powers_of_beta_g@ == srs.powers_of_beta_g@.subrange(0, degree + 1),
            r.1 == (VerifyingKey { g: srs.powers_of_beta_g@[0], gamma_g: 0, h: srs.h, beta_h: srs.beta_h }),
            r.0.vk == r.1,
    {
        let vk = VerifyingKey { g: srs.powers_of_beta_g[0], gamma_g: 0, h: srs.h, beta_h: srs.beta_h };
        let mut powers: Vec<u64> = Vec::new();
        let n: usize = srs.powers_of_beta_g.len();
        let mut i: usize = 0;
        while i <= degree
            invariant
                i <= degree + 1,
                n == srs.powers_of_beta_g@.len(),
                degree < srs.powers_of_beta_g@.len(),
                powers@ == srs.powers_of_beta_g@.subrange(0, i as int),
            decreases degree + 1 - i,
        {
            powers.push(srs.powers_of_beta_g[i]);
            proof {
                assert(srs.powers_of_beta_g@.subrange(0, i + 1) =~= srs.powers_of_beta_g@.subrange(
                    0,
                    i as int,
                ).push(srs.powers_of_beta_g@[i as int]));
            }
            i = i + 1;
        }
        let domain = match EvaluationDomain::new((degree + 1) as u64) {
            Some(d) => d,
            None => {
                return (ProvingKey { powers_of_beta_g: powers, lagrange_bases_at_beta_g: Vec::new(), vk }, vk);
            },
        };
        let bases = lagrange_basis(srs.powers_of_beta_g.as_slice(), &domain);
        let mut lagrange_bases_at_beta_g: Vec<LagrangeBasis> = Vec::new();
        lagrange_bases_at_beta_g.push(LagrangeBasis { domain_size: domain.size, bases });
        (ProvingKey { powers_of_beta_g: powers, lagrange_bases_at_beta_g, vk }, vk)
    }

    /// The epoch polynomial of degree `degree`, expanded from the epoch's eight bytes.
    pub fn init_for_epoch(epoch_info: &EpochInfo, degree: usize) -> (r: EpochChallenge)
        requires
            degree < usize::MAX / 2,
        ensures
            r.wf(),
            r.degree_spec() == degree,
            r.epoch_polynomial@ == epoch_poly_spec(*epoch_info, degree as nat),
    {
        let input = epoch_info.to_bytes_le();
        let p = hash_to_poly(input.as_slice(), degree);
        EpochChallenge { epoch_polynomial: p }
    }

    /// The solution polynomial of `(address, nonce)`, expanded from epoch, address and nonce.
    pub fn sample_solution_polynomial(
        epoch_challenge: &EpochChallenge,
        epoch_info: &EpochInfo,
        address: &Address,
        nonce: u64,
    ) -> (r: Vec<u64>)
        requires
            epoch_challenge.wf(),
        ensures
            r@ == solution_poly_spec(*epoch_challenge, *epoch_info, *address, nonce),
            r@.len() == epoch_challenge.epoch_polynomial@.len(),
            is_poly(r@),
    {
        let mut input = epoch_info.to_bytes_le();
        let mut i: usize = 0;
        let ghost start = input@;
        while i < 32
            invariant
                i <= 32,
                input@ == start + address.bytes@.subrange(0, i as int),
            decreases 32 - i,
        {
            input.push(address.bytes[i]);
            proof {
                assert(address.bytes@.subrange(0, i + 1) =~= address.bytes@.subrange(0, i as int).push(
                    address.bytes@[i as int],
                ));
            }
            i = i + 1;
        }
        push_u64_le(&mut input, nonce);
        assert(address.bytes@.subrange(0, 32) =~= address.bytes@);
        assert(input@ =~= solution_input(*epoch_info, *address, nonce));
        hash_to_poly(input.as_slice(), epoch_challenge.degree())
    }

    /// Commits to the product of the solution polynomial and the epoch polynomial, and opens
    /// it at the point that the commitment hashes to.
    pub fn prove(
        pk: &ProvingKey,
        epoch_info: &EpochInfo,
        epoch_challenge: &EpochChallenge,
        address: &Address,
        nonce: u64,
    ) -> (r: ProverPuzzleSolution)
        requires
            pk.wf(),
            epoch_challenge.wf(),
            2 * epoch_challenge.epoch_polynomial@.len() - 1 <= pk.powers_of_beta_g@.len(),
        ensures
            r == prove_spec(*pk, *epoch_info, *epoch_challenge, *address, nonce),
    {
        let p = Self::sample_solution_polynomial(epoch_challenge, epoch_info, address, nonce);
        let product = mul_polys(p.as_slice(), epoch_challenge.epoch_polynomial.as_slice());
        let commitment = commit(pk.powers_of_beta_g.as_slice(), product.as_slice());
        let point = hash_commitment(commitment.0);
        let proof = open(pk.powers_of_beta_g.as_slice(), product.as_slice(), point);
        ProverPuzzleSolution { address: *address, nonce, commitment, proof }
    }

    /// Keeps, in input order, the solutions whose opening checks, and opens the combination
    /// `(sum_i alpha_i * p_i) * C` of the kept ones at the shared point, where the challenges
    /// come from the kept commitments in order.
    pub fn accumulate(
        pk: &ProvingKey,
        epoch_info: &EpochInfo,
        epoch_challenge: &EpochChallenge,
        prover_solutions: &[ProverPuzzleSolution],
    ) -> (r: CombinedPuzzleSolution)
        requires
            pk.wf(),
            epoch_challenge.wf(),
            2 * epoch_challenge.epoch_polynomial@.len() - 1 <= pk.powers_of_beta_g@.len(),
            prover_solutions@.len() < usize::MAX,
        ensures
            r.individual_puzzle_solutions@ == partials_of(
                retained_spec(pk.vk, *epoch_info, *epoch_challenge, prover_solutions@, prover_solutions@.len() as int),
            ),
            r.proof == combined_proof_spec(*pk, *epoch_info, *epoch_challenge, r.individual_puzzle_solutions@),
    {
        let ghost sols = prover_solutions@;
        let ghost ch = *epoch_challenge;
        let ghost ei = *epoch_info;
        let deg_len: usize = epoch_challenge.epoch_polynomial.len();
        let mut polys: Vec<Vec<u64>> = Vec::new();
        let mut parts: Vec<PartialProverSolution> = Vec::new();
        let mut i: usize = 0;
        while i < prover_solutions.len()
            invariant
                i <= sols.len(),
                sols == prover_solutions@,
                sols.len() < usize::MAX,
                parts@.len() <= i,
                ch == *epoch_challenge,
                ei == *epoch_info,
                pk.wf(),
                epoch_challenge.wf(),
                deg_len == epoch_challenge.epoch_polynomial@.len(),
                parts@ == partials_of(retained_spec(pk.vk, ei, ch, sols, i as int)),
                polys@.len() == parts@.len(),
                forall|j: int|
                    0 <= j < polys@.len() ==> (#[trigger] polys@[j])@ == polys_of(ch, ei, parts@)[j]
                        && polys@[j]@.len() == deg_len && is_poly(polys@[j]@),
            decreases sols.len() - i,
        {
            let s: ProverPuzzleSolution = prover_solutions[i];
            let p = Self::sample_solution_polynomial(epoch_challenge, epoch_info, &s.address, s.nonce);
            let z = hash_commitment(s.commitment.0);
            let v = fmul(
                evaluate(epoch_challenge.epoch_polynomial.as_slice(), z),
                evaluate(p.as_slice(), z),
            );
            let ok = check(&pk.vk, s.commitment.0, z, v, &s.proof);
            let ghost old_parts = parts@;
            let ghost old_polys = polys@;
            if ok {
                polys.push(p);
                parts.push(PartialProverSolution { address: s.address, nonce: s.nonce, commitment: s.commitment });
                proof {
                    let prev = retained_spec(pk.vk, ei, ch, sols, i as int);
                    assert(partials_of(prev.push(sols[i as int])) =~= old_parts.push(partial_of(sols[i as int])));
                    assert forall|j: int| 0 <= j < polys@.len() implies (#[trigger] polys@[j])@ == polys_of(
                        ch,
                        ei,
                        parts@,
                    )[j] && polys@[j]@.len() == deg_len && is_poly(polys@[j]@) by {
                        if j < old_polys.len() {
                            assert(polys@[j] == old_polys[j]);
                            assert(parts@[j] == old_parts[j]);
                        }
                    }
                }
            }
            i = i + 1;
        }
        assert(sols.subrange(0, sols.len() as int) =~= sols);
        let m: usize = parts.len();
        let mut cs: Vec<u64> = Vec::new();
        let mut j: usize = 0;
        while j < m
            invariant
                j <= m,
                m == parts@.len(),
                cs@ == commitments_of(parts@).subrange(0, j as int),
            decreases m - j,
        {
            cs.push(parts[j].commitment.0);
            proof {
                assert(commitments_of(parts@).subrange(0, j + 1) =~= commitments_of(parts@).subrange(
                    0,
                    j as int,
                ).push(parts@[j as int].commitment.0));
            }
            j = j + 1;
        }
        assert(cs@ =~= commitments_of(parts@));
        let fs = hash_commitments(cs.as_slice());
        let point = fs[m];
        let mut combined: Vec<u64> = Vec::new();
        let mut k: usize = 0;
        while k < m
            invariant
                k <= m,
                m == parts@.len(),
                m == polys@.len(),
                fs@.len() == m + 1,
                forall|t: int| 0 <= t < fs@.len() ==> is_elem(#[trigger] fs@[t]),
                forall|t: int|
                    0 <= t < polys@.len() ==> (#[trigger] polys@[t])@ == polys_of(ch, ei, parts@)[t]
                        && polys@[t]@.len() == deg_len && is_poly(polys@[t]@),
                combined@ == combine_spec(polys_of(ch, ei, parts@), fs@, k as int),
                is_poly(combined@),
                combined@.len() == if k == 0 { 0 } else { deg_len as int },
            decreases m - k,
        {
            let scaled = scale_poly(polys[k].as_slice(), fs[k]);
            combined = add_polys(combined.as_slice(), scaled.as_slice());
            k = k + 1;
        }
        let q = mul_polys(combined.as_slice(), epoch_challenge.epoch_polynomial.as_slice());
        let proof = open(pk.powers_of_beta_g.as_slice(), q.as_slice(), point);
        CombinedPuzzleSolution { individual_puzzle_solutions: parts, proof }
    }

    /// Checks a combined solution in one opening: rejects an empty list, a hiding proof, or a
    /// non-canonical commitment, and otherwise checks that the proof opens
    /// `sum_i alpha_i * C_i` at the shared point to `C(z) * sum_i alpha_i * p_i(z)`.
    pub fn verify(
        vk: &VerifyingKey,
        epoch_info: &EpochInfo,
        epoch_challenge: &EpochChallenge,
        combined_solution: &CombinedPuzzleSolution,
    ) -> (r: bool)
        requires
            vk.wf(),
            epoch_challenge.wf(),
            combined_solution.individual_puzzle_solutions@.len() < usize::MAX,
        ensures
            r == verify_spec(
                *vk,
                *epoch_info,
                *epoch_challenge,
                combined_solution.individual_puzzle_solutions@,
                combined_solution.proof,
            ),
    {
        let parts = &combined_solution.individual_puzzle_solutions;
        let ghost ch = *epoch_challenge;
        let ghost ei = *epoch_info;
        let m: usize = parts.len();
        if m == 0 {
            return false;
        }
        if combined_solution.proof.is_hiding() {
            return false;
        }
        let mut cs: Vec<u64> = Vec::new();
        let mut j: usize = 0;
        while j < m
            invariant
                j <= m,
                m == parts@.len(),
                parts@ == combined_solution.individual_puzzle_solutions@,
                cs@ == commitments_of(parts@).subrange(0, j as int),
                is_poly(cs@),
            decreases m - j,
        {
            let c = parts[j].commitment.0;
            if c >= MODULUS {
                assert(!is_elem(commitments_of(parts@)[j as int]));
                assert(!is_poly(commitments_of(parts@)));
                return false;
            }
            cs.push(c);
            proof {
                assert(commitments_of(parts@).subrange(0, j + 1) =~= commitments_of(parts@).subrange(
                    0,
                    j as int,
                ).push(parts@[j as int].commitment.0));
            }
            j = j + 1;
        }
        assert(cs@ =~= commitments_of(parts@));
        let fs = hash_commitments(cs.as_slice());
        let point = fs[m];
        let mut sum: u64 = 0;
        let mut alphas: Vec<u64> = Vec::new();
        let mut k: usize = 0;
        while k < m
            invariant
                k <= m,
                m == parts@.len(),
                parts@ == combined_solution.individual_puzzle_solutions@,
                epoch_challenge.wf(),
                ch == *epoch_challenge,
                ei == *epoch_info,
                fs@.len() == m + 1,
                forall|t: int| 0 <= t < fs@.len() ==> is_elem(#[trigger] fs@[t]),
                is_elem(point),
                point == fs@[m as int],
                is_elem(sum),
                sum as int == eval_sum_spec(polys_of(ch, ei, parts@), fs@, point as int, k as int),
                alphas@ == fs@.subrange(0, k as int),
            decreases m - k,
        {
            let p = Self::sample_solution_polynomial(
                epoch_challenge,
                epoch_info,
                &parts[k].address,
                parts[k].nonce,
            );
            sum = fadd(sum, fmul(evaluate(p.as_slice(), point), fs[k]));
            alphas.push(fs[k]);
            proof {
                assert(fs@.subrange(0, k + 1) =~= fs@.subrange(0, k as int).push(fs@[k as int]));
            }
            k = k + 1;
        }
        let eval = fmul(sum, evaluate(epoch_challenge.epoch_polynomial.as_slice(), point));
        proof {
            assert forall|t: int| 0 <= t < alphas@.len() implies is_elem(#[trigger] alphas@[t]) by {
                assert(alphas@[t] == fs@[t]);
            }
        }
        let combined_commitment = VariableBase::msm(cs.as_slice(), alphas.as_slice());
        proof {
            lemma_msm_scalar_prefix(cs@, alphas@, fs@, m as int);
        }
        check(vk, combined_commitment, point, eval, &combined_solution.proof)
    }
}

proof fn lemma_msm_scalar_prefix(bases: Seq<u64>, prefix: Seq<u64>, scalars: Seq<u64>, n: int)
    requires
        0 <= n <= prefix.len(),
        prefix.len() <= scalars.len(),
        forall|i: int| 0 <= i < prefix.len() ==> prefix[i] == scalars[i],
    ensures
        msm_spec(bases, prefix, n) == msm_spec(bases, scalars, n),
    decreases n,
{
    if n > 0 {
        lemma_msm_scalar_prefix(bases, prefix, scalars, n - 1);
    }
}

} // verus!
