use vstd::prelude::*;

use crate::bytes::{le_bytes, le_value, push_u64_le, u64_from_le};
use crate::hash::{sha256, sha256_of};
use crate::kzg::{Proof, VerifyingKey};
use crate::puzzle::{
    verify_spec, CoinbasePuzzle, CombinedPuzzleSolution, EpochChallenge, EpochInfo, PartialProverSolution,
};

verus! {

/// Why a cumulative difficulty cannot be computed.
#[derive(Clone, Copy, Debug, PartialEq, Eq, Structural)]
pub enum PuzzleError {
    /// A solution's difficulty target is zero, so its difficulty is undefined.
    ZeroDifficultyTarget,
}

/// A solution's difficulty target: the first eight bytes, read little-endian, of the double
/// SHA-256 digest of its commitment's encoding.
pub open spec fn difficulty_target_spec(c: u64) -> nat {
    le_value(sha256_of(sha256_of(le_bytes(c as nat, 8))).subrange(0, 8))
}

/// `a + b`, saturating at `u64::MAX`.
pub open spec fn saturating_add_spec(a: int, b: int) -> int {
    if a + b > u64::MAX {
        u64::MAX as int
    } else {
        a + b
    }
}

/// The saturating sum of `u64::MAX / target` over the first `n` solutions.
pub open spec fn cumulative_difficulty_spec(parts: Seq<PartialProverSolution>, n: int) -> int
    decreases n,
{
    if n <= 0 {
        0
    } else {
        saturating_add_spec(
            cumulative_difficulty_spec(parts, n - 1),
            u64::MAX as int / difficulty_target_spec(parts[n - 1].commitment.0) as int,
        )
    }
}

impl PartialProverSolution {
    pub fn to_difficulty_target(&self) -> (r: u64)
        ensures
            r as nat == difficulty_target_spec(self.commitment.0),
    {
        let mut buf: Vec<u8> = Vec::new();
        push_u64_le(&mut buf, self.commitment.0);
        assert(buf@ =~= le_bytes(self.commitment.0 as nat, 8));
        let once = sha256(buf.as_slice());
        let twice = sha256(once.as_slice());
        let mut head: Vec<u8> = Vec::new();
        let mut i: usize = 0;
        while i < 8
            invariant
                i <= 8,
                twice@.len() == 32,
                head@ == twice@.subrange(0, i as int),
            decreases 8 - i,
        {
            head.push(twice[i]);
            proof {
                assert(twice@.subrange(0, i + 1) =~= twice@.subrange(0, i as int).push(twice@[i as int]));
            }
            i = i + 1;
        }
        u64_from_le(head.as_slice())
    }
}

impl CombinedPuzzleSolution {
    pub fn new(individual_puzzle_solutions: Vec<PartialProverSolution>, proof: Proof) -> (r: Self)
        ensures
            r.individual_puzzle_solutions == individual_puzzle_solutions,
            r.proof == proof,
    {
        CombinedPuzzleSolution { individual_puzzle_solutions, proof }
    }

    /// Checks this combined solution against an epoch; see `CoinbasePuzzle::verify`.
    pub fn verify(&self, vk: &VerifyingKey, epoch_info: &EpochInfo, epoch_challenge: &EpochChallenge) -> (r: bool)
        requires
            vk.wf(),
            epoch_challenge.wf(),
            self.individual_puzzle_solutions@.len() < usize::MAX,
        ensures
            r == verify_spec(*vk, *epoch_info, *epoch_challenge, self.individual_puzzle_solutions@, self.proof),
    {
        CoinbasePuzzle::verify(vk, epoch_info, epoch_challenge, self)
    }

    /// The saturating sum of `u64::MAX / target` over the solutions; an error where a target
    /// is zero.
    pub fn to_cumulative_difficulty(&self) -> (r: Result<u64, PuzzleError>)
        ensures
            r is Err <==> exists|i: int|
                0 <= i < self.individual_puzzle_solutions@.len() && difficulty_target_spec(
                    #[trigger] self.individual_puzzle_solutions@[i].commitment.0,
                ) == 0,
            r matches Ok(d) ==> d as int == cumulative_difficulty_spec(
                self.individual_puzzle_solutions@,
                self.individual_puzzle_solutions@.len() as int,
            ),
    {
        let parts = &self.individual_puzzle_solutions;
        let mut total: u64 = 0;
        let mut i: usize = 0;
        while i < parts.len()
            invariant
                i <= parts@.len(),
                parts@ == self.individual_puzzle_solutions@,
                total as int == cumulative_difficulty_spec(parts@, i as int),
                forall|j: int| 0 <= j < i ==> difficulty_target_spec(#[trigger] parts@[j].commitment.0) != 0,
            decreases parts@.len() - i,
        {
            let target = parts[i].to_difficulty_target();
            if target == 0 {
                return Err(PuzzleError::ZeroDifficultyTarget);
            }
            total = total.saturating_add(u64::MAX / target);
            i = i + 1;
        }
        Ok(total)
    }
}

} // verus!
