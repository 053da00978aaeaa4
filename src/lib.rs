//! A coinbase puzzle: provers commit to the product of a solution polynomial and an epoch
//! polynomial with KZG10 and open it at a Fiat-Shamir point; an accumulator batches the valid
//! solutions under one opening, which a verifier checks with one MSM and one pairing equation.
use vstd::prelude::*;

pub mod accumulation;
pub mod algebra;
pub mod bytes;
pub mod combined;
pub mod completeness;
pub mod domain;
pub mod field;
pub mod hash;
pub mod kzg;
pub mod merkle;
pub mod msm;
pub mod poly;
pub mod puzzle;

verus! {

} // verus!
