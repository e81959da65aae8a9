//! The arithmetic of bit reversal: which index trades places with which
//! when the indices below a power of two are written in binary and read
//! backwards.

use vstd::prelude::*;
use vstd::arithmetic::power2::is_pow2;
use crate::power::lemma_half_is_pow2;

verus! {

/// `index` with its binary digits in reverse order, as one of `count`
/// indices, `count` being a power of two.
pub open spec fn reversed(index: int, count: int) -> int
    decreases count,
{
    if count <= 1 {
        0
    } else {
        (if index % 2 == 1 {
            count / 2
        } else {
            0
        }) + reversed(index / 2, count / 2)
    }
}

/// A reversed index is an index.
pub proof fn lemma_reversed_bounds(index: int, count: int)
    requires
        is_pow2(count),
        0 <= index < count,
    ensures
        0 <= reversed(index, count) < count,
    decreases count,
{
    reveal(is_pow2);
    if count > 1 {
        lemma_reversed_bounds(index / 2, count / 2);
    }
}

/// Zero reversed is zero.
pub proof fn lemma_reversed_zero(count: int)
    ensures
        reversed(0, count) == 0,
    decreases count,
{
    if count > 1 {
        lemma_reversed_zero(count / 2);
    }
}

/// Reversal read from the other end: the lowest digit of the result is the
/// highest digit of the index.
pub proof fn lemma_reversed_from_top(index: int, count: int)
    requires
        is_pow2(count),
        count >= 2,
        0 <= index < count,
    ensures
        reversed(index, count) == if index >= count / 2 {
            2 * reversed(index - count / 2, count / 2) + 1
        } else {
            2 * reversed(index, count / 2)
        },
    decreases count,
{
    reveal(is_pow2);
    if count == 2 {
        assert(reversed(index / 2, 1) == 0);
        assert(reversed(index - 1, 1) == 0);
        assert(reversed(index, 1) == 0);
    } else {
        let half = count / 2;
        lemma_half_is_pow2(count);
        lemma_half_is_pow2(half);
        lemma_reversed_from_top(index / 2, half);
        if index >= half {
            assert((index - half) / 2 == index / 2 - half / 2);
            assert((index - half) % 2 == index % 2);
        }
    }
}

/// Reversing twice gives the index back.
pub proof fn lemma_reversed_involution(index: int, count: int)
    requires
        is_pow2(count),
        0 <= index < count,
    ensures
        reversed(reversed(index, count), count) == index,
    decreases count,
{
    reveal(is_pow2);
    if count >= 2 {
        let half = count / 2;
        lemma_half_is_pow2(count);
        let low = reversed(index / 2, half);
        lemma_reversed_bounds(index / 2, half);
        lemma_reversed_bounds(index, count);
        lemma_reversed_from_top(reversed(index, count), count);
        lemma_reversed_involution(index / 2, half);
    }
}

/// Reversal turns counting down from the top into counting down from the
/// top: the mirror image of an index reverses to the mirror image of its
/// reversal.
pub proof fn lemma_reversed_mirror(index: int, count: int)
    requires
        is_pow2(count),
        0 <= index < count,
    ensures
        reversed(count - 1 - index, count) == count - 1 - reversed(index, count),
    decreases count,
{
    reveal(is_pow2);
    if count >= 2 {
        let half = count / 2;
        lemma_half_is_pow2(count);
        lemma_reversed_mirror(index / 2, half);
        assert((count - 1 - index) / 2 == half - 1 - index / 2);
    }
}

/// The reversal of the index after an even one sets the top digit.
pub proof fn lemma_reversed_after_even(index: int, count: int)
    requires
        count >= 2,
        index % 2 == 0,
        0 <= index,
    ensures
        reversed(index + 1, count) == count / 2 + reversed(index, count),
{
    assert((index + 1) / 2 == index / 2);
}

/// The reversal of the index after an odd one is found one digit down.
pub proof fn lemma_reversed_after_odd(index: int, count: int)
    requires
        count >= 2,
        index % 2 == 1,
        0 <= index,
    ensures
        reversed(index + 1, count) == reversed(index / 2 + 1, count / 2),
        reversed(index, count) == count / 2 + reversed(index / 2, count / 2),
{
    assert((index + 1) / 2 == index / 2 + 1);
}

} // verus!

verus! {

/// The real and the imaginary slot of the pair `index` of an interleaved
/// sequence.
pub open spec fn pair_at<T>(slots: Seq<T>, index: int) -> (T, T) {
    (slots[2 * index], slots[2 * index + 1])
}

/// The slot whose value bit reversal of the pairs brings to `slot`, in an
/// interleaved sequence of `length` slots.
pub open spec fn reversed_slot(slot: int, length: int) -> int {
    if length < 2 {
        slot
    } else {
        2 * reversed(slot / 2, length / 2) + slot % 2
    }
}

/// An interleaved sequence with its pairs in bit-reversed order.
pub open spec fn bit_reversed<T>(slots: Seq<T>) -> Seq<T> {
    Seq::new(slots.len(), |slot: int| slots[reversed_slot(slot, slots.len() as int)])
}

/// Whether the pair `index` has traded places with its reversal once the
/// walk over the lower half has dealt with the pairs below `done`: either
/// the smaller of the two lies below `done`, or both lie in the upper half
/// and the mirror image of the larger lies below `done`.
pub open spec fn settled(index: int, done: int, count: int) -> bool {
    let partner = reversed(index, count);
    let low = if index < partner { index } else { partner };
    let high = if index < partner { partner } else { index };
    index != partner && (low < done || (low >= count / 2 && count - 1 - high < done))
}

/// The pair whose content the walk's step at `step` brings to `index`: the
/// step trades `step` with its reversal where that is larger, and then their
/// mirror images too where the reversal lies in the lower half.
pub open spec fn exchanged(index: int, step: int, count: int) -> int {
    let partner = reversed(step, count);
    if partner > step {
        if index == step {
            partner
        } else if index == partner {
            step
        } else if partner < count / 2 && index == count - 1 - step {
            count - 1 - partner
        } else if partner < count / 2 && index == count - 1 - partner {
            count - 1 - step
        } else {
            index
        }
    } else {
        index
    }
}

/// One step of the walk keeps the account that `settled` gives of it.
pub proof fn lemma_walk_step<T>(
    initial: Seq<T>,
    before: Seq<T>,
    after: Seq<T>,
    step: int,
    count: int,
)
    requires
        is_pow2(count),
        count >= 2,
        0 <= step < count / 2,
        forall|x: int|
            0 <= x < count ==> #[trigger] pair_at(before, x) == if settled(x, step, count) {
                pair_at(initial, reversed(x, count))
            } else {
                pair_at(initial, x)
            },
        forall|x: int|
            0 <= x < count ==> #[trigger] pair_at(after, x) == pair_at(
                before,
                exchanged(x, step, count),
            ),
    ensures
        forall|x: int|
            0 <= x < count ==> #[trigger] pair_at(after, x) == if settled(x, step + 1, count) {
                pair_at(initial, reversed(x, count))
            } else {
                pair_at(initial, x)
            },
{
    let partner = reversed(step, count);
    lemma_reversed_bounds(step, count);
    lemma_reversed_involution(step, count);
    lemma_reversed_mirror(step, count);
    lemma_reversed_mirror(partner, count);
    assert forall|x: int| 0 <= x < count implies #[trigger] pair_at(after, x) == if settled(
        x,
        step + 1,
        count,
    ) {
        pair_at(initial, reversed(x, count))
    } else {
        pair_at(initial, x)
    } by {
        let y = exchanged(x, step, count);
        lemma_reversed_bounds(x, count);
        lemma_reversed_involution(x, count);
        lemma_reversed_mirror(x, count);
        lemma_reversed_mirror(reversed(x, count), count);
        lemma_reversed_bounds(y, count);
        lemma_reversed_involution(y, count);
        assert(pair_at(after, x) == pair_at(before, y));
        assert(pair_at(before, y) == if settled(y, step, count) {
            pair_at(initial, reversed(y, count))
        } else {
            pair_at(initial, y)
        });
    }
}

/// Before the walk has begun no pair has traded places.
pub proof fn lemma_walk_start(index: int, count: int)
    requires
        is_pow2(count),
        0 <= index < count,
    ensures
        !settled(index, 0, count),
{
    lemma_reversed_bounds(index, count);
}

/// When the walk has dealt with the whole lower half, every pair that is
/// not its own reversal has traded places with it.
pub proof fn lemma_walk_end(index: int, count: int)
    requires
        is_pow2(count),
        count >= 2,
        0 <= index < count,
    ensures
        settled(index, count / 2, count) <==> index != reversed(index, count),
{
    lemma_reversed_bounds(index, count);
    reveal(is_pow2);
}

} // verus!
