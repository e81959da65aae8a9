//! Silence and signal along the signal path.
//!
//! Where the butterfly makes silence out of silence alone, a buffer that is
//! not silent has a transform that is not silent. Where window, butterfly
//! and summing keep silence silent, a silent frame gives a snapshot of
//! zeros.

use vstd::prelude::*;
use vstd::arithmetic::power2::{is_pow2, pow2};
use crate::equalizer::dsp::bins::{bin_entry, bin_sum, bin_width, snapshot_of, SAMPLE_RATE};
use crate::equalizer::dsp::butterfly::{combined, lemma_slot_in_butterfly, lemma_span_of_pass,
    lemma_trace_lengths, pass_relates, pass_with, rotations, transform_trace, transformed,
    upper_slot};
use crate::equalizer::dsp::fft::prepared;
use crate::equalizer::dsp::processed;
use crate::defaults::is_default;
use crate::power::lemma_half_is_pow2;
use crate::equalizer::dsp::reversal::{bit_reversed, lemma_reversed_bounds,
    lemma_reversed_involution, reversed, reversed_slot};

verus! {

/// Every slot of `slots` is silent.
pub open spec fn all_silent<T>(silent: spec_fn(T) -> bool, slots: Seq<T>) -> bool {
    forall|slot: int| 0 <= slot < slots.len() ==> silent(#[trigger] slots[slot])
}

/// The butterfly makes silence out of silence alone: where both pairs that
/// come out are silent, both pairs that went in were.
pub open spec fn keeps_signal<T, W, B: Fn(W, T, T, T, T) -> (T, T, T, T)>(
    butterfly: B,
    silent: spec_fn(T) -> bool,
) -> bool {
    forall|w: W, a: T, b: T, c: T, d: T, out: (T, T, T, T)|
        #[trigger] butterfly.ensures((w, a, b, c, d), out) && silent(out.0) && silent(out.1)
            && silent(out.2) && silent(out.3) ==> silent(a) && silent(b) && silent(c) && silent(d)
}

/// A pass that ends in silence began in silence.
pub proof fn lemma_pass_from_silence<T, W, B: Fn(W, T, T, T, T) -> (T, T, T, T)>(
    butterfly: B,
    twiddles: Seq<W>,
    span: int,
    blocks: int,
    input: Seq<T>,
    output: Seq<T>,
    silent: spec_fn(T) -> bool,
)
    requires
        span >= 2,
        span % 2 == 0,
        input.len() == blocks * (2 * span),
        pass_with(butterfly, twiddles, span, input, output),
        keeps_signal::<T, W, B>(butterfly, silent),
        all_silent(silent, output),
    ensures
        all_silent(silent, input),
{
    assert forall|slot: int| 0 <= slot < input.len() implies silent(#[trigger] input[slot]) by {
        let (turn, block) = lemma_slot_in_butterfly(slot, span, blocks, input.len() as int);
        let upper = upper_slot(turn, block, span);
        let lower = upper + span;
        assert(combined(butterfly, twiddles[turn], input, output, upper, span));
        let out = (output[upper], output[upper + 1], output[lower], output[lower + 1]);
        assert(butterfly.ensures(
            (twiddles[turn], input[upper], input[upper + 1], input[lower], input[lower + 1]),
            out,
        ));
        assert(silent(out.0) && silent(out.1) && silent(out.2) && silent(out.3));
    }
}

/// A buffer whose pairs in bit-reversed order are silent is silent.
pub proof fn lemma_reversal_from_silence<T>(input: Seq<T>, silent: spec_fn(T) -> bool)
    requires
        is_pow2(input.len() as int),
        all_silent(silent, bit_reversed(input)),
    ensures
        all_silent(silent, input),
{
    let length = input.len() as int;
    assert forall|slot: int| 0 <= slot < length implies silent(#[trigger] input[slot]) by {
        let from = reversed_slot(slot, length);
        if length >= 2 {
            lemma_half_is_pow2(length);
            lemma_reversed_bounds(slot / 2, length / 2);
            lemma_reversed_involution(slot / 2, length / 2);
        }
        assert(0 <= from < length);
        assert(reversed_slot(from, length) == slot);
        assert(bit_reversed(input)[from] == input[slot]);
    }
}

/// The stages of a trace that ends in silence are all silent.
proof fn lemma_trace_from_silence<
    T,
    W,
    S: Fn(usize) -> W,
    N: Fn(W) -> W,
    B: Fn(W, T, T, T, T) -> (T, T, T, T),
>(
    start: S,
    next: N,
    butterfly: B,
    input: Seq<T>,
    stages: Seq<Seq<T>>,
    silent: spec_fn(T) -> bool,
    pass: int,
)
    requires
        is_pow2(input.len() as int),
        input.len() <= usize::MAX,
        transform_trace(start, next, butterfly, input, stages),
        keeps_signal::<T, W, B>(butterfly, silent),
        all_silent(silent, stages.last()),
        0 <= pass < stages.len(),
    ensures
        all_silent(silent, stages[pass]),
        stages[pass].len() == input.len(),
    decreases stages.len() - pass,
{
    if pass == stages.len() - 1 {
        if pass > 0 {
            lemma_trace_lengths(start, next, butterfly, input, stages, pass);
        }
    } else {
        lemma_trace_from_silence(start, next, butterfly, input, stages, silent, pass + 1);
        lemma_trace_lengths(start, next, butterfly, input, stages, pass);
        let blocks = lemma_span_of_pass(input.len() as int, pass + 1);
        let span = pow2((pass + 1) as nat) as usize;
        assert(span == pow2((pass + 1) as nat));
        assert(pass_relates(start, next, butterfly, span, stages[pass], stages[pass + 1]));
        let twiddles = choose|twiddles: Seq<W>|
            #[trigger] rotations(start, next, span, twiddles) && pass_with(
                butterfly,
                twiddles,
                span as int,
                stages[pass],
                stages[pass + 1],
            );
        lemma_pass_from_silence(
            butterfly,
            twiddles,
            span as int,
            blocks,
            stages[pass],
            stages[pass + 1],
            silent,
        );
    }
}

/// A transform has the length of its input.
pub proof fn law_transform_keeps_length<
    T,
    W,
    S: Fn(usize) -> W,
    N: Fn(W) -> W,
    B: Fn(W, T, T, T, T) -> (T, T, T, T),
>(start: S, next: N, butterfly: B, input: Seq<T>, output: Seq<T>)
    requires
        transformed(start, next, butterfly, input, output),
    ensures
        output.len() == input.len(),
{
    let stages = choose|stages: Seq<Seq<T>>|
        #[trigger] transform_trace(start, next, butterfly, input, stages) && stages.last()
            == output;
    lemma_trace_lengths(start, next, butterfly, input, stages, stages.len() - 1);
}

/// A transform of a buffer that is not silent is not silent, where the
/// butterfly makes silence out of silence alone.
pub proof fn law_transform_keeps_signal<
    T,
    W,
    S: Fn(usize) -> W,
    N: Fn(W) -> W,
    B: Fn(W, T, T, T, T) -> (T, T, T, T),
>(start: S, next: N, butterfly: B, input: Seq<T>, output: Seq<T>, silent: spec_fn(T) -> bool)
    requires
        is_pow2(input.len() as int),
        input.len() <= usize::MAX,
        transformed(start, next, butterfly, input, output),
        keeps_signal::<T, W, B>(butterfly, silent),
        !all_silent(silent, input),
    ensures
        !all_silent(silent, output),
{
    if all_silent(silent, output) {
        let stages = choose|stages: Seq<Seq<T>>|
            #[trigger] transform_trace(start, next, butterfly, input, stages) && stages.last()
                == output;
        lemma_trace_from_silence(start, next, butterfly, input, stages, silent, 0);
        lemma_reversal_from_silence(input, silent);
    }
}

/// The butterfly keeps silence: silent pairs come out silent.
pub open spec fn keeps_silence<T, W, B: Fn(W, T, T, T, T) -> (T, T, T, T)>(
    butterfly: B,
    silent: spec_fn(T) -> bool,
) -> bool {
    forall|w: W, a: T, b: T, c: T, d: T, out: (T, T, T, T)|
        #[trigger] butterfly.ensures((w, a, b, c, d), out) && silent(a) && silent(b) && silent(c)
            && silent(d) ==> silent(out.0) && silent(out.1) && silent(out.2) && silent(out.3)
}

/// The window keeps silence, and default values are silent.
pub open spec fn window_keeps_silence<T: Default, Win: Fn(T, usize, usize) -> T>(
    window: Win,
    silent: spec_fn(T) -> bool,
) -> bool {
    &&& forall|sample: T, index: usize, length: usize, weighted: T|
        #[trigger] window.ensures((sample, index, length), weighted) && silent(sample) ==> silent(
            weighted,
        )
    &&& forall|value: T| #[trigger] is_default(value) ==> silent(value)
}

/// Summing keeps silence: a silent pair leaves the empty sum as it is, and
/// the empty sum is cut to zero.
pub open spec fn sum_keeps_silence<T, A, Acc: Fn(A, T, T) -> A, Tr: Fn(A) -> usize>(
    accumulate: Acc,
    truncate: Tr,
    zero: A,
    silent: spec_fn(T) -> bool,
) -> bool {
    &&& forall|re: T, im: T, sum: A|
        #[trigger] accumulate.ensures((zero, re, im), sum) && silent(re) && silent(im) ==> sum
            == zero
    &&& forall|whole: usize| #[trigger] truncate.ensures((zero,), whole) ==> whole == 0
}

/// A pass that begins in silence ends in silence.
pub proof fn lemma_pass_keeps_silence<T, W, B: Fn(W, T, T, T, T) -> (T, T, T, T)>(
    butterfly: B,
    twiddles: Seq<W>,
    span: int,
    blocks: int,
    input: Seq<T>,
    output: Seq<T>,
    silent: spec_fn(T) -> bool,
)
    requires
        span >= 2,
        span % 2 == 0,
        input.len() == blocks * (2 * span),
        pass_with(butterfly, twiddles, span, input, output),
        keeps_silence::<T, W, B>(butterfly, silent),
        all_silent(silent, input),
    ensures
        all_silent(silent, output),
{
    assert forall|slot: int| 0 <= slot < output.len() implies silent(#[trigger] output[slot]) by {
        let (turn, block) = lemma_slot_in_butterfly(slot, span, blocks, input.len() as int);
        let upper = upper_slot(turn, block, span);
        let lower = upper + span;
        assert(combined(butterfly, twiddles[turn], input, output, upper, span));
        let out = (output[upper], output[upper + 1], output[lower], output[lower + 1]);
        assert(butterfly.ensures(
            (twiddles[turn], input[upper], input[upper + 1], input[lower], input[lower + 1]),
            out,
        ));
        assert(silent(input[upper]) && silent(input[upper + 1]) && silent(input[lower]) && silent(
            input[lower + 1],
        ));
    }
}

/// The stages of a trace that begins in silence are all silent.
proof fn lemma_trace_keeps_silence<
    T,
    W,
    S: Fn(usize) -> W,
    N: Fn(W) -> W,
    B: Fn(W, T, T, T, T) -> (T, T, T, T),
>(
    start: S,
    next: N,
    butterfly: B,
    input: Seq<T>,
    stages: Seq<Seq<T>>,
    silent: spec_fn(T) -> bool,
    pass: int,
)
    requires
        is_pow2(input.len() as int),
        input.len() <= usize::MAX,
        transform_trace(start, next, butterfly, input, stages),
        keeps_silence::<T, W, B>(butterfly, silent),
        all_silent(silent, input),
        0 <= pass < stages.len(),
    ensures
        all_silent(silent, stages[pass]),
    decreases pass,
{
    let length = input.len() as int;
    if pass == 0 {
        assert forall|slot: int| 0 <= slot < length implies silent(
            #[trigger] bit_reversed(input)[slot],
        ) by {
            if length >= 2 {
                lemma_half_is_pow2(length);
                lemma_reversed_bounds(slot / 2, length / 2);
            }
            assert(silent(input[reversed_slot(slot, length)]));
        }
    } else {
        lemma_trace_keeps_silence(start, next, butterfly, input, stages, silent, pass - 1);
        lemma_trace_lengths(start, next, butterfly, input, stages, pass - 1);
        let blocks = lemma_span_of_pass(length, pass);
        let span = pow2(pass as nat) as usize;
        assert(pass_relates(start, next, butterfly, span, stages[pass - 1], stages[pass]));
        let twiddles = choose|twiddles: Seq<W>|
            #[trigger] rotations(start, next, span, twiddles) && pass_with(
                butterfly,
                twiddles,
                span as int,
                stages[pass - 1],
                stages[pass],
            );
        lemma_pass_keeps_silence(
            butterfly,
            twiddles,
            span as int,
            blocks,
            stages[pass - 1],
            stages[pass],
            silent,
        );
    }
}

/// The sum of a bin over silent pairs is the empty sum.
proof fn lemma_silent_bin_sum<T, A, Acc: Fn(A, T, T) -> A, Tr: Fn(A) -> usize>(
    accumulate: Acc,
    truncate: Tr,
    zero: A,
    silent: spec_fn(T) -> bool,
    data: Seq<T>,
    width: int,
    bin: int,
    upto: int,
    sum: A,
)
    requires
        sum_keeps_silence::<T, A, Acc, Tr>(accumulate, truncate, zero, silent),
        all_silent(silent, data),
        bin_sum(accumulate, data, width, bin, upto, zero, sum),
        2 * upto <= data.len(),
    ensures
        sum == zero,
    decreases upto,
{
    if upto > 1 {
        if (upto - 1) / width == bin {
            let before = choose|before: A|
                bin_sum(accumulate, data, width, bin, upto - 1, zero, before)
                    && #[trigger] accumulate.ensures(
                    (before, data[2 * (upto - 1)], data[2 * (upto - 1) + 1]),
                    sum,
                );
            lemma_silent_bin_sum(
                accumulate,
                truncate,
                zero,
                silent,
                data,
                width,
                bin,
                upto - 1,
                before,
            );
            assert(silent(data[2 * (upto - 1)]) && silent(data[2 * (upto - 1) + 1]));
        } else {
            lemma_silent_bin_sum(
                accumulate,
                truncate,
                zero,
                silent,
                data,
                width,
                bin,
                upto - 1,
                sum,
            );
        }
    }
}

/// A transform of a silent buffer is silent, where the butterfly keeps
/// silence.
pub proof fn law_transform_keeps_silence<
    T,
    W,
    S: Fn(usize) -> W,
    N: Fn(W) -> W,
    B: Fn(W, T, T, T, T) -> (T, T, T, T),
>(start: S, next: N, butterfly: B, input: Seq<T>, output: Seq<T>, silent: spec_fn(T) -> bool)
    requires
        is_pow2(input.len() as int),
        input.len() <= usize::MAX,
        transformed(start, next, butterfly, input, output),
        keeps_silence::<T, W, B>(butterfly, silent),
        all_silent(silent, input),
    ensures
        all_silent(silent, output),
{
    let stages = choose|stages: Seq<Seq<T>>|
        #[trigger] transform_trace(start, next, butterfly, input, stages) && stages.last()
            == output;
    lemma_trace_keeps_silence(start, next, butterfly, input, stages, silent, stages.len() - 1);
}

/// The snapshot of a silent buffer holds zeros alone, where summing keeps
/// silence.
pub proof fn law_silent_bins_are_zero<T, A, Acc: Fn(A, T, T) -> A, Tr: Fn(A) -> usize>(
    accumulate: Acc,
    truncate: Tr,
    zero: A,
    data: Seq<T>,
    bins: int,
    snapshot: Seq<usize>,
    silent: spec_fn(T) -> bool,
)
    requires
        snapshot_of(accumulate, truncate, zero, data, bins, snapshot),
        sum_keeps_silence::<T, A, Acc, Tr>(accumulate, truncate, zero, silent),
        all_silent(silent, data),
    ensures
        forall|bin: int| 0 <= bin < snapshot.len() ==> #[trigger] snapshot[bin] == 0,
{
    if data.len() <= SAMPLE_RATE {
        let width = bin_width(data.len() as int, bins);
        assert forall|bin: int| 0 <= bin < snapshot.len() implies #[trigger] snapshot[bin]
            == 0 by {
            assert(bin_entry(accumulate, truncate, zero, data, bins, bin, snapshot[bin]));
            if width != 0 {
                let (sum, whole) = choose|sum: A, whole: usize|
                    #[trigger] bin_sum(
                        accumulate,
                        data,
                        width,
                        bin,
                        data.len() as int / 4,
                        zero,
                        sum,
                    ) && #[trigger] truncate.ensures((sum,), whole) && snapshot[bin] == whole / (
                    width as usize);
                lemma_silent_bin_sum(
                    accumulate,
                    truncate,
                    zero,
                    silent,
                    data,
                    width,
                    bin,
                    data.len() as int / 4,
                    sum,
                );
                assert(whole == 0);
                assert(0usize / (width as usize) == 0) by (nonlinear_arith)
                    requires
                        width as usize != 0,
                ;
            }
        }
    }
}

/// A silent frame gives a snapshot of zeros, where window, butterfly and
/// summing keep silence.
pub proof fn law_silence_gives_zeros<
    T: Default,
    W,
    A,
    Win: Fn(T, usize, usize) -> T,
    S: Fn(usize) -> W,
    N: Fn(W) -> W,
    B: Fn(W, T, T, T, T) -> (T, T, T, T),
    Acc: Fn(A, T, T) -> A,
    Tr: Fn(A) -> usize,
>(
    window: Win,
    start: S,
    next: N,
    butterfly: B,
    zero: A,
    accumulate: Acc,
    truncate: Tr,
    frame: Seq<T>,
    bins: int,
    snapshot: Seq<usize>,
    silent: spec_fn(T) -> bool,
)
    requires
        processed(window, start, next, butterfly, zero, accumulate, truncate, frame, bins, snapshot),
        4 * frame.len() <= usize::MAX + 1,
        window_keeps_silence::<T, Win>(window, silent),
        keeps_silence::<T, W, B>(butterfly, silent),
        sum_keeps_silence::<T, A, Acc, Tr>(accumulate, truncate, zero, silent),
        all_silent(silent, frame),
    ensures
        forall|bin: int| 0 <= bin < snapshot.len() ==> #[trigger] snapshot[bin] == 0,
{
    let (buffer, spectrum) = choose|buffer: Seq<T>, spectrum: Seq<T>|
        #![trigger prepared(window, frame, buffer), transformed(start, next, butterfly, buffer, spectrum)]
        prepared(window, frame, buffer) && transformed(start, next, butterfly, buffer, spectrum)
            && snapshot_of(accumulate, truncate, zero, spectrum, bins, snapshot);
    assert forall|slot: int| 0 <= slot < buffer.len() implies silent(#[trigger] buffer[slot]) by {
        if slot < 2 * frame.len() {
            let sample = slot / 2;
            assert(window.ensures(
                (frame[sample], sample as usize, frame.len() as usize),
                buffer[2 * sample],
            ));
            assert(is_default(buffer[2 * sample + 1]));
        } else {
            assert(is_default(buffer[slot]));
        }
    }
    reveal(is_pow2);
    assert(buffer.len() <= usize::MAX);
    law_transform_keeps_silence(start, next, butterfly, buffer, spectrum, silent);
    law_silent_bins_are_zero(accumulate, truncate, zero, spectrum, bins, snapshot, silent);
}

} // verus!
