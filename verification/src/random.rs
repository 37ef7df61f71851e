//! Random numbers and the digests that seed them.
use rand::rngs::ChaCha8Rng;
use rand::seq::SliceRandom;
use rand::{RngExt, SeedableRng};
use sha2::{Digest, Sha256};
use vstd::prelude::*;

verus! {

/// A ChaCha generator with eight rounds.
#[verifier::external_type_specification]
#[verifier::external_body]
pub struct ExChaCha8Rng(ChaCha8Rng);

/// What a generator still has to give: for each sequence of one or more upper bounds, the number
/// that comes last when numbers from 0 up to these bounds are drawn in turn.
pub uninterp spec fn generator_numbers(rng: ChaCha8Rng) -> Map<Seq<usize>, usize>;

/// What a generator has to give that was just made from `seed`.
pub uninterp spec fn chacha8_numbers(seed: Seq<u8>) -> Map<Seq<usize>, usize>;

/// What a generator that had `numbers` to give still has to give after a draw under the bound
/// `max`.
pub open spec fn numbers_after(numbers: Map<Seq<usize>, usize>, max: usize) -> Map<
    Seq<usize>,
    usize,
> {
    Map::new(
        |later: Seq<usize>| later.len() > 0,
        |later: Seq<usize>| numbers[seq![max] + later],
    )
}

/// The SHA-256 digest of `data`.
pub uninterp spec fn sha256_digest(data: Seq<u8>) -> Seq<u8>;

/// Digests `data` with `sha2::Sha256::digest`. The digest depends on `data` alone.
#[verifier::external_body]
pub(crate) fn sha256(data: &[u8]) -> (digest: [u8; 32])
    ensures
        digest@ == sha256_digest(data@),
{
    Sha256::digest(data).into()
}

/// Takes a seed from `rand::random`, which reads the operating system's entropy. Any seed may
/// come back.
#[verifier::external_body]
pub(crate) fn random_seed() -> (seed: [u8; 32]) {
    rand::random()
}

/// Makes a generator with `ChaCha8Rng::from_seed`. What it gives depends on `seed` alone.
#[verifier::external_body]
pub(crate) fn seeded_generator(seed: [u8; 32]) -> (rng: ChaCha8Rng)
    ensures
        generator_numbers(rng) == chacha8_numbers(seed@),
{
    ChaCha8Rng::from_seed(seed)
}

/// Makes a generator with `rand::make_rng`, which seeds it from the operating system's entropy.
/// Any generator may come back.
#[verifier::external_body]
pub(crate) fn entropy_generator() -> (rng: ChaCha8Rng) {
    rand::make_rng()
}

/// Draws a number from 0 to `max`, both included, with `RngExt::random_range`. It is the next
/// number that the generator has to give under that bound, and the draw uses it up.
#[verifier::external_body]
pub(crate) fn draw(rng: &mut ChaCha8Rng, max: usize) -> (number: usize)
    ensures
        number <= max,
        number == generator_numbers(*old(rng))[seq![max]],
        generator_numbers(*final(rng)) == numbers_after(generator_numbers(*old(rng)), max),
{
    rng.random_range(0..=max)
}

/// Whether `order` lists the positions from 0 up to `n`, each once.
pub open spec fn is_ordering(order: Seq<int>, n: nat) -> bool {
    &&& order.len() == n
    &&& forall|i: int| 0 <= i < n ==> 0 <= #[trigger] order[i] < n
    &&& order.no_duplicates()
}

/// `items` in another order.
pub open spec fn reordered<T>(items: Seq<T>, order: Seq<int>) -> Seq<T> {
    Seq::new(items.len(), |i: int| items[order[i]])
}

/// The order in which a list of `n` items comes out of a shuffle with a generator that has
/// `numbers` to give: where each item stood before.
pub uninterp spec fn shuffled_order(numbers: Map<Seq<usize>, usize>, n: nat) -> Seq<int>;

/// Reorders `items` with `SliceRandom::shuffle`. The order depends on what the generator has to
/// give and on the number of items alone; each item stays, and none is added. The generator is not
/// used again.
#[verifier::external_body]
pub(crate) fn shuffle(items: &mut Vec<String>, mut rng: ChaCha8Rng)
    ensures
        final(items)@ == reordered(
            old(items)@,
            shuffled_order(generator_numbers(rng), old(items)@.len()),
        ),
        is_ordering(
            shuffled_order(generator_numbers(rng), final(items)@.len()),
            final(items)@.len(),
        ),
{
    items.shuffle(&mut rng)
}

} // verus!
