//! What a butterfly pass does to an interleaved buffer, stated butterfly by
//! butterfly.
//!
//! A pass of span `span` (in slots) cuts the buffer into blocks of twice
//! the span. In each block the pair at slot `2 * turn` meets the pair
//! `span` slots further on, for every `turn` below half the span, and the
//! two are combined under the rotation of that turn.

use vstd::prelude::*;
use vstd::arithmetic::div_mod::lemma_fundamental_div_mod;
use vstd::arithmetic::power2::{is_pow2, lemma2_to64, lemma_pow2_pos, lemma_pow2_unfold, pow2};
use crate::equalizer::dsp::reversal::bit_reversed;
use crate::power::lemma_half_is_pow2;

verus! {

/// The slot where the upper pair of a butterfly begins.
pub open spec fn upper_slot(turn: int, block: int, span: int) -> int {
    2 * turn + block * (2 * span)
}

/// The rotations of a pass: the first comes from `start`, each later one
/// from `next` applied to the one before it.
pub open spec fn rotations<W, S: Fn(usize) -> W, N: Fn(W) -> W>(
    start: S,
    next: N,
    span: usize,
    twiddles: Seq<W>,
) -> bool {
    &&& twiddles.len() == span / 2
    &&& twiddles.len() > 0 ==> start.ensures((span,), twiddles[0])
    &&& forall|turn: int|
        1 <= turn < twiddles.len() ==> next.ensures((twiddles[turn - 1],), #[trigger] twiddles[turn])
}

/// The butterfly whose upper pair begins at `upper` has been done: the two
/// pairs of `output` are what `butterfly` made of the two pairs of `input`
/// under the rotation `twiddle`.
pub open spec fn combined<T, W, B: Fn(W, T, T, T, T) -> (T, T, T, T)>(
    butterfly: B,
    twiddle: W,
    input: Seq<T>,
    output: Seq<T>,
    upper: int,
    span: int,
) -> bool {
    let lower = upper + span;
    butterfly.ensures(
        (twiddle, input[upper], input[upper + 1], input[lower], input[lower + 1]),
        (output[upper], output[upper + 1], output[lower], output[lower + 1]),
    )
}

/// The butterfly whose upper pair begins at `upper` has not been done: its
/// two pairs are as they came in.
pub open spec fn untouched<T>(input: Seq<T>, current: Seq<T>, upper: int, span: int) -> bool {
    let lower = upper + span;
    &&& current[upper] == input[upper]
    &&& current[upper + 1] == input[upper + 1]
    &&& current[lower] == input[lower]
    &&& current[lower + 1] == input[lower + 1]
}

/// What one pass with the given rotations makes of `input`: every
/// butterfly of every block has been done.
pub open spec fn pass_with<T, W, B: Fn(W, T, T, T, T) -> (T, T, T, T)>(
    butterfly: B,
    twiddles: Seq<W>,
    span: int,
    input: Seq<T>,
    output: Seq<T>,
) -> bool {
    &&& output.len() == input.len()
    &&& forall|turn: int, block: int|
        0 <= turn && 2 * turn < span && 0 <= block && #[trigger] upper_slot(turn, block, span)
            + span + 1 < input.len() ==> combined(
            butterfly,
            twiddles[turn],
            input,
            output,
            upper_slot(turn, block, span),
            span,
        )
}

/// What one pass of span `span` makes of `input`, for some rotations that
/// `start` and `next` may give.
pub open spec fn pass_relates<
    T,
    W,
    S: Fn(usize) -> W,
    N: Fn(W) -> W,
    B: Fn(W, T, T, T, T) -> (T, T, T, T),
>(start: S, next: N, butterfly: B, span: usize, input: Seq<T>, output: Seq<T>) -> bool {
    exists|twiddles: Seq<W>|
        #[trigger] rotations(start, next, span, twiddles) && pass_with(
            butterfly,
            twiddles,
            span as int,
            input,
            output,
        )
}

/// The number of butterfly passes over a buffer of `length` slots: one for
/// each span from two up to half the length.
pub open spec fn passes(length: int) -> nat
    decreases length,
{
    if length < 4 {
        0
    } else {
        1 + passes(length / 2)
    }
}

/// The buffers that the transform of `input` goes through: the pairs in
/// bit-reversed order first, then what each pass makes of the one before
/// it, pass `pass` having the span two to the power `pass`.
pub open spec fn transform_trace<
    T,
    W,
    S: Fn(usize) -> W,
    N: Fn(W) -> W,
    B: Fn(W, T, T, T, T) -> (T, T, T, T),
>(start: S, next: N, butterfly: B, input: Seq<T>, stages: Seq<Seq<T>>) -> bool {
    &&& stages.len() == passes(input.len() as int) + 1
    &&& stages[0] == bit_reversed(input)
    &&& forall|pass: int|
        1 <= pass < stages.len() ==> pass_relates(
            start,
            next,
            butterfly,
            pow2(pass as nat) as usize,
            stages[pass - 1],
            #[trigger] stages[pass],
        )
}

/// `output` is a transform of `input`: the last of the buffers of some
/// trace that the three functions allow.
pub open spec fn transformed<
    T,
    W,
    S: Fn(usize) -> W,
    N: Fn(W) -> W,
    B: Fn(W, T, T, T, T) -> (T, T, T, T),
>(start: S, next: N, butterfly: B, input: Seq<T>, output: Seq<T>) -> bool {
    exists|stages: Seq<Seq<T>>|
        #[trigger] transform_trace(start, next, butterfly, input, stages) && stages.last()
            == output
}

/// A buffer of two to the power `exponent` slots takes one pass less than
/// its exponent.
pub proof fn lemma_passes_of_pow2(exponent: nat)
    requires
        exponent >= 1,
    ensures
        passes(pow2(exponent) as int) == exponent - 1,
    decreases exponent,
{
    lemma2_to64();
    if exponent > 1 {
        lemma_pow2_unfold(exponent);
        lemma_pow2_unfold((exponent - 1) as nat);
        lemma_pow2_pos((exponent - 2) as nat);
        lemma_passes_of_pow2((exponent - 1) as nat);
    }
}

/// The account of a pass under way: the butterflies before (`turn`,
/// `block`), turn by turn and block by block, have been done, the others
/// have not.
pub open spec fn pass_so_far<T, W, B: Fn(W, T, T, T, T) -> (T, T, T, T)>(
    butterfly: B,
    twiddles: Seq<W>,
    span: int,
    input: Seq<T>,
    current: Seq<T>,
    turn: int,
    block: int,
) -> bool {
    &&& current.len() == input.len()
    &&& forall|t: int, k: int|
        0 <= t && 2 * t < span && 0 <= k && #[trigger] upper_slot(t, k, span) + span + 1
            < input.len() ==> if t < turn || (t == turn && k < block) {
            combined(butterfly, twiddles[t], input, current, upper_slot(t, k, span), span)
        } else {
            untouched(input, current, upper_slot(t, k, span), span)
        }
}

/// Where the butterflies of one turn lie.
pub proof fn lemma_upper_slot(turn: int, block: int, span: int)
    ensures
        upper_slot(turn, 0, span) == 2 * turn,
        upper_slot(turn, block + 1, span) == upper_slot(turn, block, span) + 2 * span,
{
    assert((block + 1) * (2 * span) == block * (2 * span) + 2 * span) by (nonlinear_arith);
}

/// Two different butterflies of a pass share no slot.
pub proof fn lemma_butterflies_apart(turn: int, block: int, other_turn: int, other_block: int, span: int)
    requires
        span >= 2,
        0 <= turn,
        2 * turn < span,
        0 <= other_turn,
        2 * other_turn < span,
        span % 2 == 0,
        turn != other_turn || block != other_block,
    ensures
        ({
            let gap = upper_slot(turn, block, span) - upper_slot(other_turn, other_block, span);
            (2 <= gap <= span - 2) || (2 - span <= gap <= -2) || gap >= span + 2 || gap <= -span - 2
        }),
{
    let step = 2 * span;
    if block > other_block {
        assert(block * step - other_block * step >= step) by (nonlinear_arith)
            requires
                block > other_block,
                step >= 0,
        ;
    } else if block < other_block {
        assert(other_block * step - block * step >= step) by (nonlinear_arith)
            requires
                block < other_block,
                step >= 0,
        ;
    }
}

/// A block that begins inside a buffer made of whole blocks ends inside it.
pub proof fn lemma_block_fits(turn: int, block: int, span: int, blocks: int, length: int)
    requires
        span >= 2,
        0 <= turn,
        2 * turn < span,
        span % 2 == 0,
        0 <= block,
        length == blocks * (2 * span),
    ensures
        upper_slot(turn, block, span) < length <==> block < blocks,
        block < blocks ==> upper_slot(turn, block, span) + span + 1 < length,
        block >= blocks ==> upper_slot(turn, block, span) >= length,
{
    let step = 2 * span;
    if block < blocks {
        assert(block * step + step <= blocks * step) by (nonlinear_arith)
            requires
                block < blocks,
                step >= 0,
        ;
    } else {
        assert(block * step >= blocks * step) by (nonlinear_arith)
            requires
                block >= blocks,
                step >= 0,
        ;
    }
}

/// Every slot of a buffer made of whole blocks lies in one butterfly of the
/// pass: in its upper pair or, `span` slots further on, in its lower one.
pub proof fn lemma_slot_in_butterfly(slot: int, span: int, blocks: int, length: int) -> (found: (
    int,
    int,
))
    requires
        span >= 2,
        span % 2 == 0,
        length == blocks * (2 * span),
        0 <= slot < length,
    ensures
        0 <= found.0,
        2 * found.0 < span,
        0 <= found.1,
        upper_slot(found.0, found.1, span) + span + 1 < length,
        ({
            let upper = upper_slot(found.0, found.1, span);
            slot == upper || slot == upper + 1 || slot == upper + span || slot == upper + span + 1
        }),
{
    let step = 2 * span;
    lemma_fundamental_div_mod(slot, step);
    let block = slot / step;
    let offset = slot % step;
    assert(0 <= block < blocks) by (nonlinear_arith)
        requires
            slot == step * block + offset,
            0 <= offset < step,
            0 <= slot < blocks * step,
            step > 0,
    ;
    assert(block * step + step <= blocks * step) by (nonlinear_arith)
        requires
            block < blocks,
            step >= 0,
    ;
    assert(block * step == step * block) by (nonlinear_arith);
    let turn = if offset < span {
        offset / 2
    } else {
        (offset - span) / 2
    };
    (turn, block)
}

/// The spans of the passes are powers of two that divide the length.
pub proof fn lemma_span_of_pass(length: int, pass: int) -> (blocks: int)
    requires
        is_pow2(length),
        1 <= pass <= passes(length),
    ensures
        pow2(pass as nat) >= 2,
        pow2(pass as nat) % 2 == 0,
        length == blocks * (2 * pow2(pass as nat)),
        2 * pow2(pass as nat) <= length,
    decreases length,
{
    reveal(is_pow2);
    lemma_pow2_unfold(pass as nat);
    lemma_pow2_pos((pass - 1) as nat);
    let span = pow2(pass as nat) as int;
    if pass == 1 {
        lemma2_to64();
        lemma_half_is_pow2(length);
        lemma_half_is_pow2(length / 2);
        assert(length == (length / 4) * 4);
        length / 4
    } else {
        let blocks = lemma_span_of_pass(length / 2, pass - 1);
        let below = pow2((pass - 1) as nat) as int;
        assert(length == blocks * (2 * span)) by (nonlinear_arith)
            requires
                length / 2 == blocks * (2 * below),
                length == 2 * (length / 2),
                span == 2 * below,
        ;
        blocks
    }
}

/// Every stage of a trace has the length of the input.
pub proof fn lemma_trace_lengths<
    T,
    W,
    S: Fn(usize) -> W,
    N: Fn(W) -> W,
    B: Fn(W, T, T, T, T) -> (T, T, T, T),
>(start: S, next: N, butterfly: B, input: Seq<T>, stages: Seq<Seq<T>>, pass: int)
    requires
        transform_trace(start, next, butterfly, input, stages),
        0 <= pass < stages.len(),
    ensures
        stages[pass].len() == input.len(),
    decreases pass,
{
    if pass > 0 {
        lemma_trace_lengths(start, next, butterfly, input, stages, pass - 1);
        assert(pass_relates(
            start,
            next,
            butterfly,
            pow2(pass as nat) as usize,
            stages[pass - 1],
            stages[pass],
        ));
    }
}

} // verus!
