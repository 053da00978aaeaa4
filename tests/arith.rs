use coinbase_puzzle::domain::{fpow, EvaluationDomain, MAX_DOMAIN_SIZE};
use coinbase_puzzle::field::{fadd, fmul, fsub, MODULUS, MULTIPLICATIVE_GENERATOR};
use coinbase_puzzle::hash::{bytes_to_field, hash_commitments, hash_to_field, hash_to_poly};
use coinbase_puzzle::kzg::{check, commit, open, VerifyingKey};
use coinbase_puzzle::msm::VariableBase;
use coinbase_puzzle::poly::{add_polys, divide_by_linear, evaluate, mul_polys, scale_poly};
use coinbase_puzzle::puzzle::EpochInfo;
use sha2::Digest;

#[test]
fn field_ops_wrap() {
    assert_eq!(fadd(MODULUS - 1, 2), 1);
    assert_eq!(fsub(1, 2), MODULUS - 1);
    assert_eq!(fmul(MODULUS - 1, MODULUS - 1), 1);
    assert_eq!(fmul(3, 5), 15);
}

#[test]
fn polynomial_ops() {
    // (1 + 2X) * (3 + X) = 3 + 7X + 2X^2
    assert_eq!(mul_polys(&[1, 2], &[3, 1]), vec![3, 7, 2]);
    assert_eq!(mul_polys(&[], &[3, 1]), Vec::<u64>::new());
    assert_eq!(add_polys(&[1, 2], &[3, 4, 5]), vec![4, 6, 5]);
    assert_eq!(scale_poly(&[1, 2], 3), vec![3, 6]);
    assert_eq!(evaluate(&[3, 7, 2], 2), 3 + 14 + 8);
    assert_eq!(evaluate(&[], 5), 0);
    // (X^2 - 1) / (X - 1) = X + 1
    assert_eq!(divide_by_linear(&[MODULUS - 1, 0, 1], 1), vec![1, 1]);
}

#[test]
fn msm_sums_products() {
    assert_eq!(VariableBase::msm(&[], &[]), 0);
    assert_eq!(VariableBase::msm(&[2, 3, 5], &[7, 11, 13]), 14 + 33 + 65);
}

#[test]
fn kzg_opening_checks() {
    let beta: u64 = 10;
    let powers: Vec<u64> = vec![1, 10, 100, 1000];
    let vk = VerifyingKey { g: 1, gamma_g: 0, h: 1, beta_h: beta };
    let p = vec![3, 7, 2];
    let c = commit(&powers, &p);
    assert_eq!(c.0, 3 + 70 + 200);
    let z: u64 = 4;
    let v = evaluate(&p, z);
    let proof = open(&powers, &p, z);
    assert!(check(&vk, c.0, z, v, &proof));
    assert!(!check(&vk, c.0, z, v + 1, &proof));
}

#[test]
fn hash_reduces_sha256_digest() {
    // SHA-256 of the empty string.
    let digest =
        hex::decode("e3b0c44298fc1c149afbf4c8996fb92427ae41e4649b934ca495991b7852b855").unwrap();
    let expected = bytes_to_field(&digest);
    assert_eq!(hash_to_field(&[]), expected);
    assert_ne!(hash_to_field(&[]), bytes_to_field(&[]));
    let mut acc: u128 = 0;
    for b in digest.iter().rev() {
        acc = (acc * 256 + *b as u128) % MODULUS as u128;
    }
    assert_eq!(expected as u128, acc);
}

#[test]
fn bytes_reduce_little_endian() {
    assert_eq!(bytes_to_field(&[1, 2]), 0x0201);
    assert_eq!(bytes_to_field(&[0xff; 8]), (u64::MAX % MODULUS));
}

#[test]
fn hash_to_poly_counter_mode() {
    let p = hash_to_poly(b"abc", 3);
    assert_eq!(p.len(), 4);
    let mut input = b"abc".to_vec();
    input.extend_from_slice(&2u64.to_le_bytes());
    assert_eq!(p[2], hash_to_field(&input));
    assert!(p.iter().all(|c| *c < MODULUS));
}

#[test]
fn commitment_challenges() {
    let fs = hash_commitments(&[5, 6]);
    assert_eq!(fs.len(), 3);
    let mut transcript = 5u64.to_le_bytes().to_vec();
    transcript.extend_from_slice(&6u64.to_le_bytes());
    let state = hex::decode(sha_hex(&transcript)).unwrap();
    assert_eq!(fs, hash_to_poly(&state, 2));
    assert_ne!(hash_commitments(&[6, 5]), fs);
}

fn sha_hex(data: &[u8]) -> String {
    hex::encode(sha2::Sha256::digest(data))
}

#[test]
fn epoch_bytes_little_endian() {
    let ei = EpochInfo { epoch_number: 0x0102 };
    assert_eq!(ei.to_bytes_le(), vec![2, 1, 0, 0, 0, 0, 0, 0]);
}

#[test]
fn fpow_matches_repeated_products() {
    assert_eq!(fpow(3, 0), 1);
    assert_eq!(fpow(3, 5), 243);
    assert_eq!(fpow(MULTIPLICATIVE_GENERATOR, MODULUS - 1), 1);
    assert_ne!(fpow(MULTIPLICATIVE_GENERATOR, (MODULUS - 1) / 2), 1);
}

#[test]
fn domain_sizes_and_roots() {
    let d = EvaluationDomain::new(5).unwrap();
    assert_eq!(d.size, 8);
    assert_eq!(fpow(d.group_gen, 8), 1);
    assert_ne!(fpow(d.group_gen, 4), 1);
    assert_eq!(fmul(d.group_gen, d.group_gen_inv), 1);
    assert_eq!(fmul(d.size_inv, 8), 1);
    assert_eq!(EvaluationDomain::new(1).unwrap().size, 1);
    assert_eq!(EvaluationDomain::new(16).unwrap().size, 16);
    assert!(EvaluationDomain::new(MAX_DOMAIN_SIZE + 1).is_none());
}
