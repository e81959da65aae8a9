//! That the contracts of the signal path leave nothing open: where each of
//! the functions handed in allows one result for each argument, the
//! prepared buffer, the transform and the snapshot are determined.

use vstd::prelude::*;
use vstd::arithmetic::power2::{is_pow2, pow2};
use crate::equalizer::dsp::bins::{bin_entry, bin_sum, bin_width, snapshot_of, SAMPLE_RATE};
use crate::equalizer::dsp::butterfly::{combined, lemma_slot_in_butterfly,
    lemma_span_of_pass, lemma_trace_lengths, pass_relates, pass_with, rotations, transform_trace,
    transformed, upper_slot};
use crate::equalizer::dsp::fft::{is_prepared_len, prepared};
use crate::equalizer::dsp::processed;
use crate::defaults::{default_determined, is_default};
use crate::power::lemma_pow2_below;

verus! {

/// The window allows one result for each argument.
pub open spec fn window_determined<T, Win: Fn(T, usize, usize) -> T>(window: Win) -> bool {
    forall|sample: T, index: usize, length: usize, one: T, other: T|
        #[trigger] window.ensures((sample, index, length), one) && #[trigger] window.ensures(
            (sample, index, length),
            other,
        ) ==> one == other
}

/// The rotations are determined: `start` and `next` allow one result for
/// each argument.
pub open spec fn rotation_determined<W, S: Fn(usize) -> W, N: Fn(W) -> W>(start: S, next: N) -> bool {
    &&& forall|span: usize, one: W, other: W|
        #[trigger] start.ensures((span,), one) && #[trigger] start.ensures((span,), other) ==> one
            == other
    &&& forall|w: W, one: W, other: W|
        #[trigger] next.ensures((w,), one) && #[trigger] next.ensures((w,), other) ==> one == other
}

/// The butterfly allows one result for each argument.
pub open spec fn butterfly_determined<T, W, B: Fn(W, T, T, T, T) -> (T, T, T, T)>(
    butterfly: B,
) -> bool {
    forall|w: W, a: T, b: T, c: T, d: T, one: (T, T, T, T), other: (T, T, T, T)|
        #[trigger] butterfly.ensures((w, a, b, c, d), one) && #[trigger] butterfly.ensures(
            (w, a, b, c, d),
            other,
        ) ==> one == other
}

/// Summing is determined: `accumulate` and `truncate` allow one result for
/// each argument.
pub open spec fn sum_determined<T, A, Acc: Fn(A, T, T) -> A, Tr: Fn(A) -> usize>(
    accumulate: Acc,
    truncate: Tr,
) -> bool {
    &&& forall|sum: A, re: T, im: T, one: A, other: A|
        #[trigger] accumulate.ensures((sum, re, im), one) && #[trigger] accumulate.ensures(
            (sum, re, im),
            other,
        ) ==> one == other
    &&& forall|sum: A, one: usize, other: usize|
        #[trigger] truncate.ensures((sum,), one) && #[trigger] truncate.ensures((sum,), other)
            ==> one == other
}

/// A frame has one prepared length.
pub proof fn law_prepared_len_is_determined(one: int, other: int, frame: int)
    requires
        is_prepared_len(one, frame),
        is_prepared_len(other, frame),
    ensures
        one == other,
{
    if one < other {
        lemma_pow2_below(one, other);
    } else if other < one {
        lemma_pow2_below(other, one);
    }
}

/// A frame has one prepared buffer.
pub proof fn law_prepared_is_determined<T: Default, Win: Fn(T, usize, usize) -> T>(
    window: Win,
    frame: Seq<T>,
    one: Seq<T>,
    other: Seq<T>,
)
    requires
        prepared(window, frame, one),
        prepared(window, frame, other),
        window_determined(window),
        default_determined::<T>(),
    ensures
        one == other,
{
    law_prepared_len_is_determined(one.len() as int, other.len() as int, frame.len() as int);
    assert forall|slot: int| 0 <= slot < one.len() implies one[slot] == other[slot] by {
        if slot < 2 * frame.len() {
            let sample = slot / 2;
            assert(window.ensures(
                (frame[sample], sample as usize, frame.len() as usize),
                one[2 * sample],
            ));
            assert(window.ensures(
                (frame[sample], sample as usize, frame.len() as usize),
                other[2 * sample],
            ));
            assert(is_default(one[2 * sample + 1]) && is_default(other[2 * sample + 1]));
        } else {
            assert(is_default(one[slot]) && is_default(other[slot]));
        }
    }
    assert(one =~= other);
}

/// A pass has one sequence of rotations.
proof fn lemma_rotations_determined<W, S: Fn(usize) -> W, N: Fn(W) -> W>(
    start: S,
    next: N,
    span: usize,
    one: Seq<W>,
    other: Seq<W>,
    turn: int,
)
    requires
        rotations(start, next, span, one),
        rotations(start, next, span, other),
        rotation_determined(start, next),
        0 <= turn < one.len(),
    ensures
        one[turn] == other[turn],
    decreases turn,
{
    if turn > 0 {
        lemma_rotations_determined(start, next, span, one, other, turn - 1);
        assert(next.ensures((one[turn - 1],), one[turn]));
        assert(next.ensures((other[turn - 1],), other[turn]));
    }
}

/// A pass has one result.
pub proof fn law_pass_is_determined<
    T,
    W,
    S: Fn(usize) -> W,
    N: Fn(W) -> W,
    B: Fn(W, T, T, T, T) -> (T, T, T, T),
>(start: S, next: N, butterfly: B, span: usize, blocks: int, input: Seq<T>, one: Seq<T>, other: Seq<T>)
    requires
        span >= 2,
        span % 2 == 0,
        input.len() == blocks * (2 * span),
        pass_relates(start, next, butterfly, span, input, one),
        pass_relates(start, next, butterfly, span, input, other),
        rotation_determined(start, next),
        butterfly_determined::<T, W, B>(butterfly),
    ensures
        one == other,
{
    let first = choose|twiddles: Seq<W>|
        #[trigger] rotations(start, next, span, twiddles) && pass_with(
            butterfly,
            twiddles,
            span as int,
            input,
            one,
        );
    let second = choose|twiddles: Seq<W>|
        #[trigger] rotations(start, next, span, twiddles) && pass_with(
            butterfly,
            twiddles,
            span as int,
            input,
            other,
        );
    assert forall|slot: int| 0 <= slot < one.len() implies one[slot] == other[slot] by {
        let (turn, block) = lemma_slot_in_butterfly(slot, span as int, blocks, input.len() as int);
        let upper = upper_slot(turn, block, span as int);
        let lower = upper + span;
        lemma_rotations_determined(start, next, span, first, second, turn);
        assert(combined(butterfly, first[turn], input, one, upper, span as int));
        assert(combined(butterfly, second[turn], input, other, upper, span as int));
        let left = (one[upper], one[upper + 1], one[lower], one[lower + 1]);
        let right = (other[upper], other[upper + 1], other[lower], other[lower + 1]);
        assert(butterfly.ensures(
            (first[turn], input[upper], input[upper + 1], input[lower], input[lower + 1]),
            left,
        ));
        assert(butterfly.ensures(
            (first[turn], input[upper], input[upper + 1], input[lower], input[lower + 1]),
            right,
        ));
        assert(left == right);
    }
    assert(one =~= other);
}

/// Two traces of one input agree stage by stage.
proof fn lemma_trace_determined<
    T,
    W,
    S: Fn(usize) -> W,
    N: Fn(W) -> W,
    B: Fn(W, T, T, T, T) -> (T, T, T, T),
>(
    start: S,
    next: N,
    butterfly: B,
    input: Seq<T>,
    one: Seq<Seq<T>>,
    other: Seq<Seq<T>>,
    pass: int,
)
    requires
        is_pow2(input.len() as int),
        input.len() <= usize::MAX,
        transform_trace(start, next, butterfly, input, one),
        transform_trace(start, next, butterfly, input, other),
        rotation_determined(start, next),
        butterfly_determined::<T, W, B>(butterfly),
        0 <= pass < one.len(),
    ensures
        one[pass] == other[pass],
    decreases pass,
{
    if pass > 0 {
        lemma_trace_determined(start, next, butterfly, input, one, other, pass - 1);
        lemma_trace_lengths(start, next, butterfly, input, one, pass - 1);
        let blocks = lemma_span_of_pass(input.len() as int, pass);
        let span = pow2(pass as nat) as usize;
        assert(pass_relates(start, next, butterfly, span, one[pass - 1], one[pass]));
        assert(pass_relates(start, next, butterfly, span, other[pass - 1], other[pass]));
        law_pass_is_determined(
            start,
            next,
            butterfly,
            span,
            blocks,
            one[pass - 1],
            one[pass],
            other[pass],
        );
    }
}

/// A buffer has one transform.
pub proof fn law_transform_is_determined<
    T,
    W,
    S: Fn(usize) -> W,
    N: Fn(W) -> W,
    B: Fn(W, T, T, T, T) -> (T, T, T, T),
>(start: S, next: N, butterfly: B, input: Seq<T>, one: Seq<T>, other: Seq<T>)
    requires
        is_pow2(input.len() as int),
        input.len() <= usize::MAX,
        transformed(start, next, butterfly, input, one),
        transformed(start, next, butterfly, input, other),
        rotation_determined(start, next),
        butterfly_determined::<T, W, B>(butterfly),
    ensures
        one == other,
{
    let first = choose|stages: Seq<Seq<T>>|
        #[trigger] transform_trace(start, next, butterfly, input, stages) && stages.last() == one;
    let second = choose|stages: Seq<Seq<T>>|
        #[trigger] transform_trace(start, next, butterfly, input, stages) && stages.last()
            == other;
    lemma_trace_determined(start, next, butterfly, input, first, second, first.len() - 1);
}

/// A bin has one sum.
proof fn lemma_bin_sum_determined<T, A, Acc: Fn(A, T, T) -> A, Tr: Fn(A) -> usize>(
    accumulate: Acc,
    truncate: Tr,
    data: Seq<T>,
    width: int,
    bin: int,
    upto: int,
    zero: A,
    one: A,
    other: A,
)
    requires
        sum_determined::<T, A, Acc, Tr>(accumulate, truncate),
        bin_sum(accumulate, data, width, bin, upto, zero, one),
        bin_sum(accumulate, data, width, bin, upto, zero, other),
    ensures
        one == other,
    decreases upto,
{
    if upto > 1 {
        if (upto - 1) / width == bin {
            let first = choose|before: A|
                bin_sum(accumulate, data, width, bin, upto - 1, zero, before)
                    && #[trigger] accumulate.ensures(
                    (before, data[2 * (upto - 1)], data[2 * (upto - 1) + 1]),
                    one,
                );
            let second = choose|before: A|
                bin_sum(accumulate, data, width, bin, upto - 1, zero, before)
                    && #[trigger] accumulate.ensures(
                    (before, data[2 * (upto - 1)], data[2 * (upto - 1) + 1]),
                    other,
                );
            lemma_bin_sum_determined(
                accumulate,
                truncate,
                data,
                width,
                bin,
                upto - 1,
                zero,
                first,
                second,
            );
        } else {
            lemma_bin_sum_determined(
                accumulate,
                truncate,
                data,
                width,
                bin,
                upto - 1,
                zero,
                one,
                other,
            );
        }
    }
}

/// A buffer has one snapshot.
pub proof fn law_snapshot_is_determined<T, A, Acc: Fn(A, T, T) -> A, Tr: Fn(A) -> usize>(
    accumulate: Acc,
    truncate: Tr,
    zero: A,
    data: Seq<T>,
    bins: int,
    one: Seq<usize>,
    other: Seq<usize>,
)
    requires
        0 <= bins,
        snapshot_of(accumulate, truncate, zero, data, bins, one),
        snapshot_of(accumulate, truncate, zero, data, bins, other),
        sum_determined::<T, A, Acc, Tr>(accumulate, truncate),
    ensures
        one == other,
{
    if data.len() <= SAMPLE_RATE {
        let width = bin_width(data.len() as int, bins);
        assert forall|bin: int| 0 <= bin < one.len() implies one[bin] == other[bin] by {
            assert(bin_entry(accumulate, truncate, zero, data, bins, bin, one[bin]));
            assert(bin_entry(accumulate, truncate, zero, data, bins, bin, other[bin]));
            if width != 0 {
                let (first, whole) = choose|sum: A, whole: usize|
                    #[trigger] bin_sum(
                        accumulate,
                        data,
                        width,
                        bin,
                        data.len() as int / 4,
                        zero,
                        sum,
                    ) && #[trigger] truncate.ensures((sum,), whole) && one[bin] == whole / (
                    width as usize);
                let (second, cut) = choose|sum: A, whole: usize|
                    #[trigger] bin_sum(
                        accumulate,
                        data,
                        width,
                        bin,
                        data.len() as int / 4,
                        zero,
                        sum,
                    ) && #[trigger] truncate.ensures((sum,), whole) && other[bin] == whole / (
                    width as usize);
                lemma_bin_sum_determined(
                    accumulate,
                    truncate,
                    data,
                    width,
                    bin,
                    data.len() as int / 4,
                    zero,
                    first,
                    second,
                );
            }
        }
    }
    assert(one =~= other);
}

/// A frame has one snapshot.
pub proof fn law_processed_is_determined<
    T: Default,
    W,
    A,
    Win: Fn(T, usize, usize) -> T,
    S: Fn(usize) -> W,
    N: Fn(W) -> W,
    B: Fn(W, T, T, T, T) -> (T, T, T, T),
    Acc: Fn(A, T, T) -> A,
    Tr: Fn(A) -> usize,
>(
    window: Win,
    start: S,
    next: N,
    butterfly: B,
    zero: A,
    accumulate: Acc,
    truncate: Tr,
    frame: Seq<T>,
    bins: int,
    one: Seq<usize>,
    other: Seq<usize>,
)
    requires
        0 <= bins,
        4 * frame.len() <= usize::MAX + 1,
        processed(window, start, next, butterfly, zero, accumulate, truncate, frame, bins, one),
        processed(window, start, next, butterfly, zero, accumulate, truncate, frame, bins, other),
        default_determined::<T>(),
        window_determined(window),
        rotation_determined(start, next),
        butterfly_determined::<T, W, B>(butterfly),
        sum_determined::<T, A, Acc, Tr>(accumulate, truncate),
    ensures
        one == other,
{
    let (first_buffer, first_spectrum) = choose|buffer: Seq<T>, spectrum: Seq<T>|
        #![trigger prepared(window, frame, buffer), transformed(start, next, butterfly, buffer, spectrum)]
        prepared(window, frame, buffer) && transformed(start, next, butterfly, buffer, spectrum)
            && snapshot_of(accumulate, truncate, zero, spectrum, bins, one);
    let (second_buffer, second_spectrum) = choose|buffer: Seq<T>, spectrum: Seq<T>|
        #![trigger prepared(window, frame, buffer), transformed(start, next, butterfly, buffer, spectrum)]
        prepared(window, frame, buffer) && transformed(start, next, butterfly, buffer, spectrum)
            && snapshot_of(accumulate, truncate, zero, spectrum, bins, other);
    law_prepared_is_determined(window, frame, first_buffer, second_buffer);
    reveal(is_pow2);
    law_transform_is_determined(
        start,
        next,
        butterfly,
        first_buffer,
        first_spectrum,
        second_spectrum,
    );
    law_snapshot_is_determined(accumulate, truncate, zero, first_spectrum, bins, one, other);
}

} // verus!
