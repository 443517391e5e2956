//! The generators of the `rand` crate: the seeded one that picks the
//! frontier cell of each draw, and the thread-local one that makes up a
//! string. What this module says of them is taken on trust from that crate;
//! the rest of the library is proved against it.

use rand::{Rng, SeedableRng, StdRng, ThreadRng};
use vstd::prelude::*;

verus! {

/// `rand::StdRng`, carried through as an opaque value.
#[verifier::external_type_specification]
#[verifier::external_body]
pub struct ExStdRng(StdRng);

/// The words of a generator's internal state. Nothing else decides what a
/// generator returns next. Which generator `StdRng` is depends on the width
/// of a pointer, so a state belongs to the target that the library is
/// built for.
pub uninterp spec fn rng_state(rng: StdRng) -> Seq<u64>;

/// The state in which `StdRng::from_seed` leaves a generator that it makes
/// from the one-word seed `[seed]`.
pub uninterp spec fn seeded_state(seed: usize) -> Seq<u64>;

/// What `Rng::gen_range(0, bound)` does to a generator in a given state: the
/// index that it returns, and the state in which it leaves the generator.
pub uninterp spec fn range_draw(state: Seq<u64>, bound: usize) -> (usize, Seq<u64>);

/// Calls `StdRng::from_seed` on the one-word seed `[seed]`. Trusted: the
/// state of the generator is a function of the seed alone, so that equal
/// seeds make generators that behave alike.
#[verifier::external_body]
pub(crate) fn seeded(seed: usize) -> (rng: StdRng)
    ensures
        rng_state(rng) == seeded_state(seed),
{
    let words: &[usize] = &[seed];
    SeedableRng::from_seed(words)
}

/// Calls `Rng::gen_range(0, bound)`, which panics for a `bound` of zero.
/// It takes words from the generator until one falls into the part of
/// their range that `bound` divides evenly, and returns that word modulo
/// `bound`. Trusted: the index is below `bound`, and both the index and
/// the state that the generator is left in are functions of the state it
/// was in and of `bound`.
#[verifier::external_body]
pub(crate) fn next_index(rng: &mut StdRng, bound: usize) -> (index: usize)
    requires
        bound > 0,
    ensures
        index < bound,
        index == range_draw(rng_state(*old(rng)), bound).0,
        rng_state(*final(rng)) == range_draw(rng_state(*old(rng)), bound).1,
{
    rng.gen_range(0, bound)
}

/// `rand::ThreadRng`, carried through as an opaque value.
#[verifier::external_type_specification]
#[verifier::external_body]
pub struct ExThreadRng(ThreadRng);

/// The letters and digits of ASCII.
pub open spec fn is_ascii_alphanumeric(c: char) -> bool {
    ||| 'A' <= c <= 'Z'
    ||| 'a' <= c <= 'z'
    ||| '0' <= c <= '9'
}

/// `rand::thread_rng` hands out the generator of the current thread, which
/// the system seeds; it panics where the system has no entropy to give.
/// Nothing is claimed of the generator.
pub assume_specification[ rand::thread_rng ]() -> (rng: ThreadRng)
;

/// Calls `Rng::gen_ascii_chars` and takes one character from the iterator
/// that it returns. Trusted: the iterator never ends, and each of its
/// characters is a letter or a digit of ASCII.
#[verifier::external_body]
pub(crate) fn next_ascii_char(rng: &mut ThreadRng) -> (c: Option<char>)
    ensures
        c is Some,
        is_ascii_alphanumeric(c->0),
{
    rng.gen_ascii_chars().next()
}

} // verus!
