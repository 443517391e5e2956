//! Six-fold symmetric point patterns grown on a triangular lattice from the
//! bytes of a text string.

pub mod bit;
pub mod bitstr;
pub mod growth;
pub mod point;
pub mod rng;

use crate::bitstr::{bits_of, BitStr};
use crate::growth::{extension, Growth, GrowthView};
use crate::point::{adjacent_fits, coords, in_domain, Point};
use crate::rng::{
    is_ascii_alphanumeric, next_ascii_char, next_index, range_draw, rng_state, seeded, seeded_state,
};
use rand::thread_rng;
use vstd::prelude::*;
use vstd::string::StringSliceAdditionalSpecFns;

verus! {

/// The sum of the values of a byte sequence.
pub open spec fn byte_sum(bytes: Seq<u8>) -> nat
    decreases bytes.len(),
{
    if bytes.len() == 0 {
        0
    } else {
        byte_sum(bytes.drop_last()) + bytes.last() as nat
    }
}

/// The sum over a prefix is no more than the sum over the whole.
proof fn lemma_byte_sum_prefix(bytes: Seq<u8>, n: int)
    requires
        0 <= n <= bytes.len(),
    ensures
        byte_sum(bytes.take(n)) <= byte_sum(bytes),
    decreases bytes.len() - n,
{
    if n == bytes.len() {
        assert(bytes.take(n) =~= bytes);
    } else {
        lemma_byte_sum_prefix(bytes, n + 1);
        assert(bytes.take(n + 1).drop_last() =~= bytes.take(n));
    }
}

/// A byte is at most 255, so the sum is at most 255 times the length.
pub proof fn lemma_byte_sum_bound(bytes: Seq<u8>)
    ensures
        byte_sum(bytes) <= 255 * bytes.len(),
    decreases bytes.len(),
{
    if bytes.len() > 0 {
        lemma_byte_sum_bound(bytes.drop_last());
    }
}

/// The seed of a string: the sum of the values of its bytes.
pub fn hash_sum(hash: &str) -> (seed: usize)
    requires
        byte_sum(hash.spec_bytes()) <= usize::MAX,
    ensures
        seed == byte_sum(hash.spec_bytes()),
{
    let bytes = hash.as_bytes();
    let mut seed: usize = 0;
    let mut i: usize = 0;
    while i < bytes.len()
        invariant
            i <= bytes@.len(),
            seed == byte_sum(bytes@.take(i as int)),
            byte_sum(bytes@) <= usize::MAX,
        decreases bytes@.len() - i,
    {
        proof {
            lemma_byte_sum_prefix(bytes@, i + 1);
            assert(bytes@.take(i + 1).drop_last() =~= bytes@.take(i as int));
        }
        seed = seed + bytes[i] as usize;
        i = i + 1;
    }
    assert(bytes@.take(i as int) =~= bytes@);
    seed
}

/// Whether a point lies in the fundamental domain.
pub fn in_slice(point: &Point) -> (b: bool)
    ensures
        b == in_domain(point@),
{
    point.x() >= point.y() && point.y() >= 0
}

/// Whether a point is among `closed`.
fn is_closed(point: &Point, closed: &Vec<Point>) -> (b: bool)
    ensures
        b == coords(closed@).contains(point@),
{
    let mut i: usize = 0;
    while i < closed.len()
        invariant
            i <= closed@.len(),
            forall|j: int| 0 <= j < i ==> coords(closed@)[j] != point@,
        decreases closed@.len() - i,
    {
        if closed[i] == *point {
            assert(coords(closed@)[i as int] == point@);
            return true;
        }
        proof {
            Point::lemma_view_injective(closed@[i as int], *point);
        }
        i = i + 1;
    }
    false
}

/// The neighbours of a point that the growth may still visit: those in the
/// fundamental domain that are not among `closed`, in the order in which
/// `neighbours` lists them.
pub fn extend(point: &Point, closed: &Vec<Point>) -> (fresh: Vec<Point>)
    requires
        adjacent_fits(point@),
    ensures
        coords(fresh@) == extension(point@, coords(closed@)),
{
    let around = point.neighbours();
    let mut fresh: Vec<Point> = Vec::new();
    let ghost pred = |q: (int, int)| in_domain(q) && !coords(closed@).contains(q);
    let mut i: usize = 0;
    assert(coords(around@).take(0) =~= Seq::empty());
    while i < around.len()
        invariant
            i <= around@.len(),
            coords(fresh@) == coords(around@).take(i as int).filter(pred),
            pred == |q: (int, int)| in_domain(q) && !coords(closed@).contains(q),
        decreases around@.len() - i,
    {
        let candidate = around[i];
        proof {
            let seen = coords(around@).take(i as int);
            assert(coords(around@).take(i + 1) =~= seen.push(candidate@));
            seen.lemma_filter_push(candidate@, pred);
        }
        if in_slice(&candidate) && !is_closed(&candidate, closed) {
            fresh.push(candidate);
            assert(coords(fresh@) =~= coords(around@).take(i as int).filter(pred).push(
                candidate@,
            ));
        }
        i = i + 1;
    }
    assert(coords(around@).take(i as int) =~= coords(around@));
    fresh
}

/// The longest string, in bytes, that a pattern can be grown from: it has
/// a bit for each of at most [`growth::MAX_STEPS`] draws.
pub const MAX_HASH_LEN: usize = 0x0fff_ffff;

/// The state that a growth reaches from `g`, with a generator in `state`,
/// after one draw for each of `bits`: each draw asks the generator for an
/// index into the frontier as it then stands.
pub open spec fn grow(g: GrowthView, state: Seq<u64>, bits: Seq<bool>) -> GrowthView
    decreases bits.len(),
{
    if bits.len() == 0 {
        g
    } else {
        let draw = range_draw(state, g.open.len() as usize);
        grow(g.step(draw.0 as int, bits[0]), draw.1, bits.drop_first())
    }
}

/// The pattern of a byte sequence: what a growth from the start state has
/// filled after one draw for each bit, with a generator seeded by the sum
/// of the bytes.
pub open spec fn flake(bytes: Seq<u8>) -> Seq<(int, int)> {
    grow(GrowthView::start(), seeded_state(byte_sum(bytes) as usize), bits_of(bytes)).filled
}

/// The pattern of a string: the cells that its growth fills, in the order
/// in which it fills them. Every bit of the string gets its draw: the
/// frontier never runs dry before the bits do.
pub fn generate(hash: &str) -> (filled: Vec<Point>)
    requires
        hash.spec_bytes().len() <= MAX_HASH_LEN,
        byte_sum(hash.spec_bytes()) <= usize::MAX,
    ensures
        coords(filled@) == flake(hash.spec_bytes()),
{
    let seed = hash_sum(hash);
    let mut rng = seeded(seed);
    let mut growth = Growth::new();
    let mut bits = BitStr::from_str(hash);
    let ghost bytes = hash.spec_bytes();
    loop
        invariant
            bytes.len() <= MAX_HASH_LEN,
            growth@.inv(),
            growth@.closed.len() + bits@.len() == 8 * bytes.len(),
            grow(growth@, rng_state(rng), bits@).filled == flake(bytes),
        ensures
            bits@.len() == 0,
        decreases bits@.len(),
    {
        match bits.next() {
            None => {
                break ;
            },
            Some(bit) => {
                proof {
                    growth@.lemma_frontier_nonempty();
                }
                let index = next_index(&mut rng, growth.open().len());
                growth.step(index, bit);
            },
        }
    }
    growth.into_filled()
}

/// Any two results that [`generate`] can return for one string are the
/// same sequence of points: the pattern depends on the string alone.
pub proof fn lemma_generate_deterministic(bytes: Seq<u8>, first: Seq<Point>, second: Seq<Point>)
    requires
        coords(first) == flake(bytes),
        coords(second) == flake(bytes),
    ensures
        first == second,
{
    assert(first.len() == coords(first).len());
    assert(second.len() == coords(second).len());
    assert forall|i: int| 0 <= i < first.len() implies first[i] == second[i] by {
        assert(coords(first)[i] == first[i]@);
        assert(coords(second)[i] == second[i]@);
        Point::lemma_view_injective(first[i], second[i]);
    }
    assert(first =~= second);
}

/// The pattern of the empty string is empty.
pub proof fn lemma_flake_empty()
    ensures
        flake(Seq::empty()) == Seq::<(int, int)>::empty(),
{
    assert(bits_of(Seq::empty()).len() == 0);
}

/// Calls `String::push`. Trusted: the character is appended to the text.
#[verifier::external_body]
fn push_char(text: &mut String, c: char)
    ensures
        final(text)@ == old(text)@.push(c),
{
    text.push(c)
}

/// A string of `len` characters, each a letter or a digit of ASCII picked
/// by the generator of the current thread.
pub fn create_hash(len: usize) -> (hash: String)
    ensures
        hash@.len() == len,
        forall|i: int| 0 <= i < len ==> is_ascii_alphanumeric(#[trigger] hash@[i]),
{
    let mut rng = thread_rng();
    let mut hash = String::new();
    let mut n: usize = 0;
    while n < len
        invariant
            n <= len,
            hash@.len() == n,
            forall|i: int| 0 <= i < n ==> is_ascii_alphanumeric(#[trigger] hash@[i]),
        decreases len - n,
    {
        if let Some(c) = next_ascii_char(&mut rng) {
            push_char(&mut hash, c);
        }
        n = n + 1;
    }
    hash
}

} // verus!
