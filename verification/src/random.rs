//! The random source: the only place where the library touches `rand`.
//! Nothing here is proved; each item states what it takes on trust.

use vstd::prelude::*;
use rand::rngs::ThreadRng;
use rand::seq::SliceRandom;
use rand::Rng;

verus! {

/// `rand::rngs::ThreadRng`, the handle to the thread-local generator. It is
/// carried around and handed back to `rand`; nothing is known of its state.
#[verifier::external_type_specification]
#[verifier::external_body]
pub struct ExThreadRng(rand::rngs::ThreadRng);

/// `rand::thread_rng`: a handle to the lazily seeded thread-local generator.
/// Nothing is claimed of the handle. `rand` gives up with a panic where the
/// operating system cannot seed the generator; no argument could prevent
/// that.
#[verifier::external_body]
pub(crate) fn thread_rng() -> ThreadRng {
    rand::thread_rng()
}

/// `rand::seq::SliceRandom::shuffle` on the items of a vector. It swaps items in
/// place, so all that is claimed is that the items afterwards are the items
/// before, each as often as before; nothing is claimed of their order.
#[verifier::external_body]
pub(crate) fn shuffle<T>(items: &mut Vec<T>, rng: &mut ThreadRng)
    ensures
        final(items)@.to_multiset() == old(items)@.to_multiset(),
{
    items.shuffle(rng);
}

/// `rand::seq::SliceRandom::choose` on the items of a vector: `None` for an
/// empty vector, otherwise a reference to one of its items. Which one is not
/// stated.
#[verifier::external_body]
pub(crate) fn pick<'a, T>(items: &'a Vec<T>, rng: &mut ThreadRng) -> (picked: Option<&'a T>)
    ensures
        picked is Some <==> items@.len() > 0,
        picked matches Some(item) ==> items@.contains(*item),
{
    items.choose(rng)
}

/// `rand::Rng::gen_ratio`: `true` with a chance of `numerator` in
/// `denominator`. `rand` panics on a zero denominator and on a numerator above
/// the denominator, so both are excluded. Only the two certain outcomes are
/// stated.
#[verifier::external_body]
pub(crate) fn gen_ratio(rng: &mut ThreadRng, numerator: u32, denominator: u32) -> (hit: bool)
    requires
        denominator > 0,
        numerator <= denominator,
    ensures
        numerator == denominator ==> hit,
        numerator == 0 ==> !hit,
{
    rng.gen_ratio(numerator, denominator)
}

} // verus!
