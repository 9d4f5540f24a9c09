//! The random source of the engine. Nothing is known of what it draws beyond
//! what is stated here; the rest of the engine is verified for every draw.

use vstd::prelude::*;
use rand::rngs::ThreadRng;
use rand::seq::SliceRandom;
use rand::Rng;

verus! {

/// `rand::rngs::ThreadRng`, the handle of the generator of the running
/// thread. Nothing of its state is visible here.
#[verifier::external_type_specification]
#[verifier::external_body]
pub struct ExThreadRng(ThreadRng);

/// Calls `rand::thread_rng`. Nothing is stated of the generator. The call
/// fails only where the system cannot seed the generator.
#[verifier::external_body]
pub(crate) fn random_source() -> ThreadRng {
    rand::thread_rng()
}

/// Calls `rand::seq::index::sample`, which draws `amount` of the positions
/// `0..length` without repetition. Trusted: the result holds `amount`
/// positions below `length`, no two of them equal. The call panics where
/// `amount` exceeds `length`, which the precondition rules out.
#[verifier::external_body]
pub(crate) fn sample_positions(
    rng: &mut ThreadRng,
    length: usize,
    amount: usize,
) -> (res: Vec<usize>)
    requires
        amount <= length,
    ensures
        res.len() == amount,
        forall|i: int| 0 <= i < res.len() ==> res[i] < length,
        forall|i: int, j: int| 0 <= i < j < res.len() ==> res[i] != res[j],
{
    rand::seq::index::sample(rng, length, amount).into_vec()
}

/// Calls `SliceRandom::shuffle`, which permutes a slice in place by swaps.
/// Trusted: the names afterwards are the names before in some order.
#[verifier::external_body]
pub(crate) fn shuffle_names(rng: &mut ThreadRng, names: &mut Vec<String>)
    ensures
        final(names).deep_view().to_multiset() == old(names).deep_view().to_multiset(),
{
    names.shuffle(rng);
}

/// Calls `Rng::gen_ratio`, which gives `true` with a chance of `numerator`
/// in `denominator`. Trusted: a ratio of one always gives `true`, a ratio of
/// zero always gives `false`; nothing else is stated of the result. The call
/// panics on a ratio above one or a denominator of zero, which the
/// precondition rules out.
#[verifier::external_body]
pub(crate) fn roll_ratio(rng: &mut ThreadRng, numerator: u32, denominator: u32) -> (res: bool)
    requires
        denominator > 0,
        numerator <= denominator,
    ensures
        numerator == denominator ==> res,
        numerator == 0 ==> !res,
{
    rng.gen_ratio(numerator, denominator)
}

} // verus!
