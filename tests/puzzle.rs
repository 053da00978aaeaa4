use coinbase_puzzle::combined::PuzzleError;
use coinbase_puzzle::kzg::{Commitment, Proof, VerifyingKey};
use coinbase_puzzle::puzzle::{
    Address, CoinbasePuzzle, CombinedPuzzleSolution, EpochChallenge, EpochInfo, ProverPuzzleSolution,
    ProvingKey,
};

use coinbase_puzzle::domain::EvaluationDomain;
use coinbase_puzzle::field::{fadd, fmul};
use sha2::Digest;

const SECRET: u64 = 0x1234_5678_9abc_def;

fn keys(degree: usize) -> (ProvingKey, VerifyingKey) {
    let srs = CoinbasePuzzle::setup_with_secret(4 * degree, SECRET);
    CoinbasePuzzle::trim(&srs, 2 * degree)
}

fn solutions(
    pk: &ProvingKey,
    ei: &EpochInfo,
    ch: &EpochChallenge,
    nonces: &[u64],
) -> Vec<ProverPuzzleSolution> {
    let address = Address { bytes: [1u8; 32] };
    nonces.iter().map(|n| CoinbasePuzzle::prove(pk, ei, ch, &address, *n)).collect()
}

#[test]
fn single_solution_verifies() {
    let (pk, vk) = keys(16);
    let ei = EpochInfo { epoch_number: 7 };
    let ch = CoinbasePuzzle::init_for_epoch(&ei, 16);
    let sols = solutions(&pk, &ei, &ch, &[0]);
    let combined = CoinbasePuzzle::accumulate(&pk, &ei, &ch, &sols);
    assert_eq!(combined.individual_puzzle_solutions.len(), 1);
    assert!(CoinbasePuzzle::verify(&vk, &ei, &ch, &combined));
}

#[test]
fn flipped_proof_bit_rejected() {
    let (pk, vk) = keys(16);
    let ei = EpochInfo { epoch_number: 7 };
    let ch = CoinbasePuzzle::init_for_epoch(&ei, 16);
    let sols = solutions(&pk, &ei, &ch, &[0]);
    let mut combined = CoinbasePuzzle::accumulate(&pk, &ei, &ch, &sols);
    combined.proof.w ^= 1;
    assert!(!CoinbasePuzzle::verify(&vk, &ei, &ch, &combined));
}

#[test]
fn four_solutions_verify_and_nonce_flip_rejected() {
    let (pk, vk) = keys(16);
    let ei = EpochInfo { epoch_number: 7 };
    let ch = CoinbasePuzzle::init_for_epoch(&ei, 16);
    let sols = solutions(&pk, &ei, &ch, &[0, 1, 2, 3]);
    let mut combined = CoinbasePuzzle::accumulate(&pk, &ei, &ch, &sols);
    assert_eq!(combined.individual_puzzle_solutions.len(), 4);
    assert!(CoinbasePuzzle::verify(&vk, &ei, &ch, &combined));
    assert!(combined.verify(&vk, &ei, &ch));
    combined.individual_puzzle_solutions[2].nonce ^= 1;
    assert!(!CoinbasePuzzle::verify(&vk, &ei, &ch, &combined));
}

#[test]
fn invalid_solution_dropped_by_accumulator() {
    let (pk, vk) = keys(32);
    let ei = EpochInfo { epoch_number: 11 };
    let ch = CoinbasePuzzle::init_for_epoch(&ei, 32);
    let mut sols = solutions(&pk, &ei, &ch, &[0, 1, 2, 3]);
    sols[1].commitment.0 ^= 1;
    let combined = CoinbasePuzzle::accumulate(&pk, &ei, &ch, &sols);
    assert_eq!(combined.individual_puzzle_solutions.len(), 3);
    let nonces: Vec<u64> = combined.individual_puzzle_solutions.iter().map(|s| s.nonce).collect();
    assert_eq!(nonces, vec![0, 2, 3]);
    assert!(CoinbasePuzzle::verify(&vk, &ei, &ch, &combined));
}

#[test]
fn epoch_challenge_is_deterministic() {
    let ei = EpochInfo { epoch_number: 3 };
    let a = CoinbasePuzzle::init_for_epoch(&ei, 8);
    let b = CoinbasePuzzle::init_for_epoch(&ei, 8);
    assert_eq!(a, b);
    assert_eq!(a.epoch_polynomial.len(), 9);
    assert_eq!(a.degree(), 8);
    let c = CoinbasePuzzle::init_for_epoch(&EpochInfo { epoch_number: 4 }, 8);
    assert_ne!(a, c);
}

#[test]
fn prove_is_deterministic() {
    let (pk, _vk) = keys(16);
    let ei = EpochInfo { epoch_number: 7 };
    let ch = CoinbasePuzzle::init_for_epoch(&ei, 16);
    let a = solutions(&pk, &ei, &ch, &[5]);
    let b = solutions(&pk, &ei, &ch, &[5]);
    assert_eq!(a, b);
    assert!(!a[0].proof.is_hiding());
}

#[test]
fn reversed_order_verifies_against_its_own_order() {
    let (pk, vk) = keys(16);
    let ei = EpochInfo { epoch_number: 7 };
    let ch = CoinbasePuzzle::init_for_epoch(&ei, 16);
    let sols = solutions(&pk, &ei, &ch, &[0, 1, 2, 3]);
    let mut reversed = sols.clone();
    reversed.reverse();
    let a = CoinbasePuzzle::accumulate(&pk, &ei, &ch, &sols);
    let b = CoinbasePuzzle::accumulate(&pk, &ei, &ch, &reversed);
    assert_ne!(a, b);
    assert_ne!(a.proof, b.proof);
    let mut a_rev = a.individual_puzzle_solutions.clone();
    a_rev.reverse();
    assert_eq!(a_rev, b.individual_puzzle_solutions);
    assert!(CoinbasePuzzle::verify(&vk, &ei, &ch, &a));
    assert!(CoinbasePuzzle::verify(&vk, &ei, &ch, &b));
}

#[test]
fn swapped_order_without_new_proof_rejected() {
    let (pk, vk) = keys(16);
    let ei = EpochInfo { epoch_number: 7 };
    let ch = CoinbasePuzzle::init_for_epoch(&ei, 16);
    let sols = solutions(&pk, &ei, &ch, &[0, 1, 2]);
    let mut combined = CoinbasePuzzle::accumulate(&pk, &ei, &ch, &sols);
    combined.individual_puzzle_solutions.swap(0, 2);
    assert!(!CoinbasePuzzle::verify(&vk, &ei, &ch, &combined));
}

#[test]
fn empty_accumulation_rejected() {
    let (pk, vk) = keys(16);
    let ei = EpochInfo { epoch_number: 7 };
    let ch = CoinbasePuzzle::init_for_epoch(&ei, 16);
    let combined = CoinbasePuzzle::accumulate(&pk, &ei, &ch, &[]);
    assert!(combined.individual_puzzle_solutions.is_empty());
    assert!(!CoinbasePuzzle::verify(&vk, &ei, &ch, &combined));
}

#[test]
fn other_epoch_rejected() {
    let (pk, vk) = keys(16);
    let e1 = EpochInfo { epoch_number: 1 };
    let e2 = EpochInfo { epoch_number: 2 };
    let c1 = CoinbasePuzzle::init_for_epoch(&e1, 16);
    let c2 = CoinbasePuzzle::init_for_epoch(&e2, 16);
    let sols = solutions(&pk, &e1, &c1, &[0, 1]);
    let combined = CoinbasePuzzle::accumulate(&pk, &e1, &c1, &sols);
    assert!(CoinbasePuzzle::verify(&vk, &e1, &c1, &combined));
    assert!(!CoinbasePuzzle::verify(&vk, &e2, &c2, &combined));
    let mixed = CoinbasePuzzle::accumulate(&pk, &e2, &c2, &sols);
    assert!(mixed.individual_puzzle_solutions.is_empty());
}

#[test]
fn tampered_fields_rejected() {
    let (pk, vk) = keys(16);
    let ei = EpochInfo { epoch_number: 9 };
    let ch = CoinbasePuzzle::init_for_epoch(&ei, 16);
    let sols = solutions(&pk, &ei, &ch, &[0, 1]);
    let combined = CoinbasePuzzle::accumulate(&pk, &ei, &ch, &sols);
    assert!(CoinbasePuzzle::verify(&vk, &ei, &ch, &combined));

    let mut t = combined.clone();
    t.individual_puzzle_solutions[0].address.bytes[31] ^= 0x80;
    assert!(!CoinbasePuzzle::verify(&vk, &ei, &ch, &t));

    let mut t = combined.clone();
    t.individual_puzzle_solutions[1].commitment.0 ^= 4;
    assert!(!CoinbasePuzzle::verify(&vk, &ei, &ch, &t));

    let mut t = combined.clone();
    t.individual_puzzle_solutions[1].nonce ^= 1 << 40;
    assert!(!CoinbasePuzzle::verify(&vk, &ei, &ch, &t));

    let mut t = combined.clone();
    t.proof.random_v = Some(0);
    assert!(!CoinbasePuzzle::verify(&vk, &ei, &ch, &t));
}

#[test]
fn non_canonical_commitment_rejected() {
    let (pk, vk) = keys(16);
    let ei = EpochInfo { epoch_number: 9 };
    let ch = CoinbasePuzzle::init_for_epoch(&ei, 16);
    let sols = solutions(&pk, &ei, &ch, &[0]);
    let mut combined = CoinbasePuzzle::accumulate(&pk, &ei, &ch, &sols);
    combined.individual_puzzle_solutions[0].commitment = Commitment(u64::MAX);
    assert!(!CoinbasePuzzle::verify(&vk, &ei, &ch, &combined));
}

#[test]
fn individual_proof_also_checks() {
    let (pk, vk) = keys(16);
    let ei = EpochInfo { epoch_number: 7 };
    let ch = CoinbasePuzzle::init_for_epoch(&ei, 16);
    let sols = solutions(&pk, &ei, &ch, &[0]);
    let mut bad = sols.clone();
    bad[0].proof = Proof { w: bad[0].proof.w, random_v: Some(1) };
    let combined = CoinbasePuzzle::accumulate(&pk, &ei, &ch, &bad);
    assert!(combined.individual_puzzle_solutions.is_empty());
    let rebuilt = CombinedPuzzleSolution::new(
        CoinbasePuzzle::accumulate(&pk, &ei, &ch, &sols).individual_puzzle_solutions,
        CoinbasePuzzle::accumulate(&pk, &ei, &ch, &sols).proof,
    );
    let again: CombinedPuzzleSolution = CoinbasePuzzle::accumulate(&pk, &ei, &ch, &sols);
    assert_eq!(rebuilt, again);
    assert!(rebuilt.verify(&vk, &ei, &ch));
}

#[test]
fn keys_from_random_setup_work() {
    let srs = CoinbasePuzzle::setup(64);
    assert_eq!(srs.powers_of_beta_g.len(), 65);
    assert_eq!(srs.powers_of_beta_g[0], 1);
    assert_eq!(srs.powers_of_beta_g[1], srs.beta_h);
    let (pk, vk) = CoinbasePuzzle::trim(&srs, 32);
    assert_eq!(pk.powers_of_beta_g.len(), 33);
    assert_eq!(vk.gamma_g, 0);
    assert_eq!(pk.lagrange_bases_at_beta_g.len(), 1);
    assert_eq!(pk.lagrange_bases_at_beta_g[0].domain_size, 64);
    let ei = EpochInfo { epoch_number: 1 };
    let ch = CoinbasePuzzle::init_for_epoch(&ei, 16);
    let sols = solutions(&pk, &ei, &ch, &[0, 1]);
    let combined = CoinbasePuzzle::accumulate(&pk, &ei, &ch, &sols);
    assert!(CoinbasePuzzle::verify(&vk, &ei, &ch, &combined));
}

#[test]
fn cumulative_difficulty_sums_saturating() {
    let (pk, _vk) = keys(16);
    let ei = EpochInfo { epoch_number: 7 };
    let ch = CoinbasePuzzle::init_for_epoch(&ei, 16);
    let sols = solutions(&pk, &ei, &ch, &[0, 1, 2]);
    let combined = CoinbasePuzzle::accumulate(&pk, &ei, &ch, &sols);
    let mut expected: u64 = 0;
    for s in &combined.individual_puzzle_solutions {
        let t = s.to_difficulty_target();
        assert!(t > 0);
        expected = expected.saturating_add(u64::MAX / t);
    }
    let got: Result<u64, PuzzleError> = combined.to_cumulative_difficulty();
    assert_eq!(got, Ok(expected));
    let empty = CombinedPuzzleSolution::new(Vec::new(), combined.proof);
    assert_eq!(empty.to_cumulative_difficulty(), Ok(0));
}

#[test]
fn difficulty_target_reads_double_digest() {
    let p = coinbase_puzzle::puzzle::PartialProverSolution {
        address: Address { bytes: [0u8; 32] },
        nonce: 0,
        commitment: Commitment(42),
    };
    let once = sha2::Sha256::digest(42u64.to_le_bytes());
    let twice = sha2::Sha256::digest(once);
    let mut head = [0u8; 8];
    head.copy_from_slice(&twice[..8]);
    assert_eq!(p.to_difficulty_target(), u64::from_le_bytes(head));
}

#[test]
fn lagrange_bases_sum_to_generator() {
    let (pk, _vk) = keys(16);
    assert_eq!(pk.lagrange_bases_at_beta_g.len(), 1);
    let basis = &pk.lagrange_bases_at_beta_g[0];
    assert_eq!(basis.domain_size, 64);
    assert_eq!(basis.bases.len(), 64);
    let sum = basis.bases.iter().fold(0u64, |acc, b| fadd(acc, *b));
    assert_eq!(sum, 1);
}

#[test]
fn lagrange_basis_at_domain_point_is_unit_vector() {
    let d = EvaluationDomain::new(4).unwrap();
    let beta = fmul(d.group_gen, d.group_gen);
    let srs = CoinbasePuzzle::setup_with_secret(8, beta);
    let (pk, _vk) = CoinbasePuzzle::trim(&srs, 3);
    assert_eq!(pk.lagrange_bases_at_beta_g[0].bases, vec![0, 0, 1, 0]);
}

#[test]
fn solution_from_other_epoch_mixed_in_rejected() {
    let (pk, vk) = keys(16);
    let e1 = EpochInfo { epoch_number: 1 };
    let e2 = EpochInfo { epoch_number: 2 };
    let c1 = CoinbasePuzzle::init_for_epoch(&e1, 16);
    let c2 = CoinbasePuzzle::init_for_epoch(&e2, 16);
    let mut sols = solutions(&pk, &e2, &c2, &[0, 1]);
    sols.push(solutions(&pk, &e1, &c1, &[2])[0]);
    let mut combined = CoinbasePuzzle::accumulate(&pk, &e2, &c2, &sols);
    assert_eq!(combined.individual_puzzle_solutions.len(), 2);
    assert!(CoinbasePuzzle::verify(&vk, &e2, &c2, &combined));
    let foreign = sols[2];
    combined.individual_puzzle_solutions.push(coinbase_puzzle::puzzle::PartialProverSolution {
        address: foreign.address,
        nonce: foreign.nonce,
        commitment: foreign.commitment,
    });
    assert!(!CoinbasePuzzle::verify(&vk, &e2, &c2, &combined));
}
