use vstd::prelude::*;

use crate::kzg::{Proof, VerifyingKey};
use crate::puzzle::{
    partials_of, retained_spec, verify_spec, EpochChallenge, EpochInfo, ProverPuzzleSolution,
};

verus! {

/// The solutions of `sols` that `accumulate` keeps, in order.
pub open spec fn retained_all(
    vk: VerifyingKey,
    epoch_info: EpochInfo,
    challenge: EpochChallenge,
    sols: Seq<ProverPuzzleSolution>,
) -> Seq<ProverPuzzleSolution> {
    retained_spec(vk, epoch_info, challenge, sols, sols.len() as int)
}

/// Accumulating no solutions yields an empty combined solution, and no proof makes an empty
/// combined solution verify.
pub proof fn lemma_empty_accumulation_rejected(
    vk: VerifyingKey,
    epoch_info: EpochInfo,
    challenge: EpochChallenge,
    proof: Proof,
)
    ensures
        partials_of(retained_all(vk, epoch_info, challenge, Seq::empty())).len() == 0,
        !verify_spec(
            vk,
            epoch_info,
            challenge,
            partials_of(retained_all(vk, epoch_info, challenge, Seq::empty())),
            proof,
        ),
{
}

/// Which of the first `n` solutions are kept depends on those `n` alone.
pub proof fn lemma_retained_prefix(
    vk: VerifyingKey,
    epoch_info: EpochInfo,
    challenge: EpochChallenge,
    sols: Seq<ProverPuzzleSolution>,
    n: int,
)
    requires
        0 <= n <= sols.len(),
    ensures
        retained_spec(vk, epoch_info, challenge, sols, n) == retained_spec(
            vk,
            epoch_info,
            challenge,
            sols.subrange(0, n),
            n,
        ),
    decreases n,
{
    if n > 0 {
        lemma_retained_prefix(vk, epoch_info, challenge, sols, n - 1);
        lemma_retained_prefix(vk, epoch_info, challenge, sols.subrange(0, n), n - 1);
        assert(sols.subrange(0, n).subrange(0, n - 1) =~= sols.subrange(0, n - 1));
    }
}

/// Accumulation keeps order: the solutions kept from a concatenation are those kept from the
/// first part followed by those kept from the second.
pub proof fn lemma_retained_concat(
    vk: VerifyingKey,
    epoch_info: EpochInfo,
    challenge: EpochChallenge,
    s1: Seq<ProverPuzzleSolution>,
    s2: Seq<ProverPuzzleSolution>,
)
    ensures
        retained_all(vk, epoch_info, challenge, s1 + s2) == retained_all(vk, epoch_info, challenge, s1)
            + retained_all(vk, epoch_info, challenge, s2),
    decreases s2.len(),
{
    if s2.len() == 0 {
        assert(s1 + s2 =~= s1);
        assert(retained_all(vk, epoch_info, challenge, s2) =~= Seq::empty());
        assert(retained_all(vk, epoch_info, challenge, s1) + Seq::empty() =~= retained_all(
            vk,
            epoch_info,
            challenge,
            s1,
        ));
    } else {
        let t2 = s2.drop_last();
        let x = s2.last();
        lemma_retained_concat(vk, epoch_info, challenge, s1, t2);
        let whole = s1 + s2;
        assert(whole.subrange(0, whole.len() - 1) =~= s1 + t2);
        assert(s2.subrange(0, s2.len() - 1) =~= t2);
        lemma_retained_prefix(vk, epoch_info, challenge, whole, whole.len() - 1);
        lemma_retained_prefix(vk, epoch_info, challenge, s2, s2.len() - 1);
        assert(whole[whole.len() - 1] == x);
        let r1 = retained_all(vk, epoch_info, challenge, s1);
        let rt = retained_all(vk, epoch_info, challenge, t2);
        assert((r1 + rt).push(x) =~= r1 + rt.push(x));
    }
}

/// Accumulating the solutions in reverse order keeps the same solutions, in reverse order.
pub proof fn lemma_retained_reverse(
    vk: VerifyingKey,
    epoch_info: EpochInfo,
    challenge: EpochChallenge,
    sols: Seq<ProverPuzzleSolution>,
)
    ensures
        retained_all(vk, epoch_info, challenge, sols.reverse()) == retained_all(
            vk,
            epoch_info,
            challenge,
            sols,
        ).reverse(),
    decreases sols.len(),
{
    if sols.len() == 0 {
        assert(sols.reverse() =~= sols);
        assert(retained_all(vk, epoch_info, challenge, sols).reverse() =~= Seq::empty());
    } else {
        let t = sols.drop_last();
        let x = sols.last();
        lemma_retained_reverse(vk, epoch_info, challenge, t);
        assert(sols.reverse() =~= seq![x] + t.reverse());
        lemma_retained_concat(vk, epoch_info, challenge, seq![x], t.reverse());
        assert(sols.subrange(0, sols.len() - 1) =~= t);
        lemma_retained_prefix(vk, epoch_info, challenge, sols, sols.len() - 1);
        let rt = retained_all(vk, epoch_info, challenge, t);
        assert(seq![x].subrange(0, 0) =~= Seq::<ProverPuzzleSolution>::empty());
        lemma_retained_prefix(vk, epoch_info, challenge, seq![x], 0);
        assert(rt.push(x).reverse() =~= seq![x] + rt.reverse());
    }
}

} // verus!
