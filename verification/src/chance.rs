//! The random draws the simulation makes, each stated as what holds of every
//! outcome. The contracts of the five draws are taken on trust: their bodies
//! call the `rand` crate.

use rand::rngs::ThreadRng;
use rand::seq::SliceRandom;
use rand::Rng;
use vstd::prelude::*;

verus! {

/// `rand::rngs::ThreadRng`, the generator threaded through every draw.
#[verifier::external_type_specification]
#[verifier::external_body]
pub struct ExThreadRng(ThreadRng);

/// Sum of the weights of a list of weighted items.
pub open spec fn total_weight<T>(items: Seq<(T, u32)>) -> nat
    decreases items.len(),
{
    if items.len() == 0 {
        0
    } else {
        total_weight(items.drop_last()) + items.last().1 as nat
    }
}

/// `Rng::gen_range` on a half-open range of `u32`: the draw lies in the range.
/// The outside function panics on an empty range, which `requires` excludes.
#[verifier::external_body]
pub(crate) fn draw_range(rng: &mut ThreadRng, low: u32, high: u32) -> (r: u32)
    requires
        low < high,
    ensures
        low <= r < high,
{
    rng.gen_range(low..high)
}

/// `Rng::gen_ratio`: true with chance `numerator` in `denominator`; always
/// true when the two are equal and never true when the numerator is zero.
/// The outside function panics on a zero denominator or a ratio above one.
#[verifier::external_body]
pub(crate) fn draw_ratio(rng: &mut ThreadRng, numerator: u32, denominator: u32) -> (r: bool)
    requires
        denominator > 0,
        numerator <= denominator,
    ensures
        numerator == denominator ==> r,
        numerator == 0 ==> !r,
{
    rng.gen_ratio(numerator, denominator)
}

/// `SliceRandom::shuffle`: the slice is permuted in place by swaps, so it
/// holds the same items as before.
#[verifier::external_body]
pub(crate) fn shuffle<T>(rng: &mut ThreadRng, items: &mut Vec<T>)
    ensures
        final(items)@.to_multiset() == old(items)@.to_multiset(),
        final(items)@.len() == old(items)@.len(),
{
    items.shuffle(rng)
}

/// `SliceRandom::choose`: nothing from an empty slice, else one of its items.
#[verifier::external_body]
pub(crate) fn pick_one<T: Copy>(rng: &mut ThreadRng, items: &Vec<T>) -> (r: Option<T>)
    ensures
        r is None <==> items@.len() == 0,
        r matches Some(x) ==> items@.contains(x),
{
    items.choose(rng).copied()
}

/// `SliceRandom::choose_weighted` with the second component as the weight:
/// fails when the list is empty or every weight is zero, else gives the first
/// component of an item whose weight is positive. The outside function adds
/// the weights up in `u32`, so `requires` keeps the sum in range.
#[verifier::external_body]
pub(crate) fn pick_weighted<T: Copy>(rng: &mut ThreadRng, items: &Vec<(T, u32)>) -> (r: Option<T>)
    requires
        total_weight(items@) <= u32::MAX,
    ensures
        r is None <==> total_weight(items@) == 0,
        r matches Some(x) ==> exists|i: int|
            0 <= i < items@.len() && #[trigger] items@[i].0 == x && items@[i].1 > 0,
{
    match items.choose_weighted(rng, |o| o.1) {
        Ok(o) => Some(o.0),
        Err(_) => None,
    }
}

/// The weights of a list add up to the weights of its first items plus the
/// next.
pub proof fn lemma_total_weight_step<T>(items: Seq<(T, u32)>, i: int)
    requires
        0 <= i < items.len(),
    ensures
        total_weight(items.take(i + 1)) == total_weight(items.take(i)) + items[i].1,
{
    assert(items.take(i + 1).drop_last() =~= items.take(i));
}

/// No part of a list weighs more than the whole.
pub proof fn lemma_total_weight_bounds<T>(items: Seq<(T, u32)>, i: int)
    requires
        0 <= i <= items.len(),
    ensures
        total_weight(items.take(i)) <= total_weight(items),
        i < items.len() ==> total_weight(items.take(i)) + items[i].1 <= total_weight(items),
    decreases items.len() - i,
{
    if i < items.len() {
        lemma_total_weight_step(items, i);
        lemma_total_weight_bounds(items, i + 1);
    } else {
        assert(items.take(i) =~= items);
    }
}

/// Tells whether the weights of a list can be added up in `u32`, as a draw
/// by weight needs.
pub fn can_draw<T>(items: &Vec<(T, u32)>) -> (b: bool)
    ensures
        b == (total_weight(items@) <= u32::MAX),
{
    let mut sum: u32 = 0;
    let mut i: usize = 0;
    assert(items@.take(0) =~= Seq::empty());
    while i < items.len()
        invariant
            i <= items.len(),
            sum == total_weight(items@.take(i as int)),
        decreases items.len() - i,
    {
        proof {
            lemma_total_weight_step(items@, i as int);
            lemma_total_weight_bounds(items@, i as int);
        }
        if items[i].1 > u32::MAX - sum {
            return false;
        }
        sum += items[i].1;
        i += 1;
    }
    assert(items@.take(items@.len() as int) =~= items@);
    true
}

} // verus!
