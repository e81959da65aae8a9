//! The transform of a prepared buffer and what comes before and after it:
//! preparing a frame, reordering the pairs, the butterfly passes and the
//! reduction of the result to frequency bins.
//!
//! Samples are of any copyable type. What is done to them (windowing, the
//! rotation and the combination of two pairs, the summing of magnitudes) is
//! handed in as functions; the contracts speak of what those functions
//! ensure.

use vstd::prelude::*;
use vstd::arithmetic::power2::{is_pow2, lemma2_to64, lemma_pow2_unfold, pow2};
use crate::equalizer::dsp::butterfly::{combined, lemma_block_fits, lemma_butterflies_apart,
    lemma_passes_of_pow2, lemma_upper_slot, pass_relates, pass_so_far, pass_with,
    passes, rotations, transform_trace, transformed, untouched, upper_slot};
use crate::equalizer::dsp::bins::{bin_entry, bin_sum, bin_width, lemma_bin_in_range, snapshot_of,
    SAMPLE_RATE};
use crate::power::{lemma_double_fits, lemma_double_is_pow2, lemma_half_is_pow2, lemma_pow2_below};
use crate::defaults::is_default;
use crate::equalizer::dsp::reversal::{bit_reversed, exchanged, lemma_reversed_after_even, lemma_reversed_after_odd, lemma_reversed_bounds,
    lemma_reversed_zero, lemma_walk_end, lemma_walk_start, lemma_walk_step, pair_at, reversed,
    settled};

verus! {

/// Trades the pair that starts at slot `first` with the one that starts at
/// slot `second`.
fn swap_pairs<T: Copy>(data: &mut Vec<T>, first: usize, second: usize)
    requires
        first % 2 == 0,
        second % 2 == 0,
        first + 1 < old(data).len(),
        second + 1 < old(data).len(),
    ensures
        final(data).len() == old(data).len(),
        forall|x: int|
            0 <= x && 2 * x + 1 < old(data).len() ==> #[trigger] pair_at(final(data)@, x) == pair_at(
                old(data)@,
                if x == first / 2 {
                    second as int / 2
                } else if x == second / 2 {
                    first as int / 2
                } else {
                    x
                },
            ),
{
    let re = data[first];
    let im = data[first + 1];
    data[first] = data[second];
    data[first + 1] = data[second + 1];
    data[second] = re;
    data[second + 1] = im;
}

/// Puts the pairs of an interleaved buffer in bit-reversed order.
///
/// The walk goes over the lower half of the pairs with the reversal of the
/// running index kept beside it. Where the reversal is the larger, the two
/// pairs trade places; where it also lies in the lower half, their mirror
/// images near the tail trade places with them.
pub fn bit_reverse<T: Copy>(data: &mut Vec<T>)
    requires
        is_pow2(old(data).len() as int),
    ensures
        final(data)@ == bit_reversed(old(data)@),
{
    let n: usize = data.len();
    if n < 4 {
        proof {
            reveal_with_fuel(is_pow2, 3);
            assert forall|slot: int| 0 <= slot < n implies data@[slot] == bit_reversed(
                data@,
            )[slot] by {
                assert(reversed(slot / 2, 1) == 0);
            }
            assert(data@ =~= bit_reversed(data@));
        }
        return ;
    }
    let half: usize = n / 2;
    let quarter: usize = n / 4;
    let ghost initial = data@;
    proof {
        lemma_half_is_pow2(n as int);
        lemma_half_is_pow2(half as int);
        lemma_reversed_zero(half as int);
        assert forall|x: int| 0 <= x < half implies !settled(x, 0, half as int) by {
            lemma_walk_start(x, half as int);
        }
    }
    let mut i: usize = 0;
    let mut j: usize = 0;
    while i < half
        invariant
            n == data.len(),
            n == initial.len(),
            n >= 4,
            is_pow2(n as int),
            is_pow2(half as int),
            half == n / 2,
            quarter == n / 4,
            n % 4 == 0,
            i % 2 == 0,
            i <= half,
            j == 2 * reversed(i as int / 2, half as int),
            forall|x: int|
                0 <= x < half ==> #[trigger] pair_at(data@, x) == if settled(
                    x,
                    i as int / 2,
                    half as int,
                ) {
                    pair_at(initial, reversed(x, half as int))
                } else {
                    pair_at(initial, x)
                },
        decreases half - i,
    {
        let ghost before = data@;
        proof {
            lemma_reversed_bounds(i as int / 2, half as int);
        }
        if j > i {
            swap_pairs(data, i, j);
            if j / 2 < quarter {
                let ghost between = data@;
                swap_pairs(data, n - (i + 2), n - (j + 2));
                proof {
                    assert forall|x: int| 0 <= x < half implies #[trigger] pair_at(data@, x)
                        == pair_at(before, exchanged(x, i as int / 2, half as int)) by {
                        let y = if x == (n - (i + 2)) / 2 {
                            (n - (j + 2)) as int / 2
                        } else if x == (n - (j + 2)) / 2 {
                            (n - (i + 2)) as int / 2
                        } else {
                            x
                        };
                        assert(pair_at(data@, x) == pair_at(between, y));
                        assert(pair_at(between, y) == pair_at(
                            before,
                            if y == i / 2 {
                                j as int / 2
                            } else if y == j / 2 {
                                i as int / 2
                            } else {
                                y
                            },
                        ));
                    }
                }
            }
        }
        proof {
            assert forall|x: int| 0 <= x < half implies #[trigger] pair_at(data@, x) == pair_at(
                before,
                exchanged(x, i as int / 2, half as int),
            ) by {}
            lemma_walk_step(initial, before, data@, i as int / 2, half as int);
        }
        // advance the reversal: clear the digits that are set from the top
        // down, then set the first that is clear
        let mut m: usize = half;
        let ghost mut rest: int = i as int / 2;
        while m >= 2 && j >= m
            invariant
                is_pow2(m as int),
                2 <= m <= half,
                0 <= rest,
                rest + 1 < m,
                j == 2 * reversed(rest, m as int),
                reversed(rest + 1, m as int) == reversed(i as int / 2 + 1, half as int),
            decreases m,
        {
            proof {
                lemma_half_is_pow2(m as int);
                lemma_reversed_bounds(rest / 2, m as int / 2);
                lemma_reversed_after_odd(rest, m as int);
                rest = rest / 2;
            }
            j -= m;
            m /= 2;
        }
        proof {
            lemma_half_is_pow2(m as int);
            lemma_reversed_bounds(rest / 2, m as int / 2);
            lemma_reversed_after_even(rest, m as int);
        }
        j += m;
        i += 2;
    }
    proof {
        assert forall|slot: int| 0 <= slot < n implies data@[slot] == bit_reversed(
            initial,
        )[slot] by {
            let x = slot / 2;
            lemma_walk_end(x, half as int);
            assert(pair_at(data@, x) == pair_at(initial, reversed(x, half as int)));
        }
        assert(data@ =~= bit_reversed(initial));
    }
}

/// One butterfly pass of span `span` over an interleaved buffer.
///
/// The rotation of the first turn comes from `start`; after each turn
/// `next` advances it. Within a turn the butterflies of all blocks share
/// the rotation. The three functions must take every argument.
pub fn butterfly_pass<T: Copy, W: Copy, S, N, B>(
    data: &mut Vec<T>,
    span: usize,
    start: &S,
    next: &N,
    butterfly: &B,
) where S: Fn(usize) -> W, N: Fn(W) -> W, B: Fn(W, T, T, T, T) -> (T, T, T, T)
    requires
        is_pow2(old(data).len() as int),
        is_pow2(span as int),
        2 <= span < old(data).len(),
        forall|s: usize| start.requires((s,)),
        forall|w: W| next.requires((w,)),
        forall|w: W, a: T, b: T, c: T, d: T| butterfly.requires((w, a, b, c, d)),
    ensures
        pass_relates(*start, *next, *butterfly, span, old(data)@, final(data)@),
{
    let n: usize = data.len();
    let ghost input = data@;
    let ghost blocks: int;
    proof {
        lemma_double_fits(n);
        lemma_double_is_pow2(span as int);
        lemma_half_is_pow2(span as int);
        lemma_pow2_below(span as int, n as int);
        blocks = lemma_pow2_below(2 * span, n as int);
    }
    let istep: usize = span * 2;
    let mut w = start(span);
    let ghost mut twiddles: Seq<W> = seq![w];
    let mut m: usize = 0;
    proof {
        assert forall|t: int, k: int|
            0 <= t && 2 * t < span && 0 <= k && #[trigger] upper_slot(t, k, span as int) + span + 1
                < input.len() implies untouched(
            input,
            data@,
            upper_slot(t, k, span as int),
            span as int,
        ) by {}
    }
    while m < span
        invariant
            n == data.len(),
            n == input.len(),
            span >= 2,
            span % 2 == 0,
            istep == 2 * span,
            n == blocks * (2 * span),
            2 * n <= usize::MAX + 1,
            m % 2 == 0,
            m <= span,
            twiddles.len() == m / 2 + 1,
            twiddles[m as int / 2] == w,
            start.ensures((span,), twiddles[0]),
            forall|turn: int|
                1 <= turn < twiddles.len() ==> next.ensures(
                    (twiddles[turn - 1],),
                    #[trigger] twiddles[turn],
                ),
            pass_so_far(*butterfly, twiddles, span as int, input, data@, m as int / 2, 0),
            forall|w: W| next.requires((w,)),
            forall|w: W, a: T, b: T, c: T, d: T| butterfly.requires((w, a, b, c, d)),
        decreases span - m,
    {
        let mut i: usize = m;
        let ghost mut block: int = 0;
        proof {
            lemma_upper_slot(m as int / 2, 0, span as int);
        }
        while i < n
            invariant
                n == data.len(),
                n == input.len(),
                span >= 2,
                span % 2 == 0,
                istep == 2 * span,
                n == blocks * (2 * span),
                2 * n <= usize::MAX + 1,
                m % 2 == 0,
                m < span,
                twiddles.len() == m / 2 + 1,
                twiddles[m as int / 2] == w,
                0 <= block,
                i == upper_slot(m as int / 2, block, span as int),
                pass_so_far(*butterfly, twiddles, span as int, input, data@, m as int / 2, block),
                forall|w: W, a: T, b: T, c: T, d: T| butterfly.requires((w, a, b, c, d)),
            decreases blocks - block,
        {
            proof {
                lemma_block_fits(m as int / 2, block, span as int, blocks, n as int);
                lemma_upper_slot(m as int / 2, block, span as int);
            }
            let j: usize = i + span;
            let ghost before = data@;
            assert(untouched(input, before, upper_slot(m as int / 2, block, span as int), span as int));
            let (upper_re, upper_im, lower_re, lower_im) = butterfly(
                w,
                data[i],
                data[i + 1],
                data[j],
                data[j + 1],
            );
            data[i] = upper_re;
            data[i + 1] = upper_im;
            data[j] = lower_re;
            data[j + 1] = lower_im;
            proof {
                assert forall|t: int, k: int|
                    0 <= t && 2 * t < span && 0 <= k && #[trigger] upper_slot(t, k, span as int)
                        + span + 1 < input.len() implies if t < m as int / 2 || (t == m as int / 2
                    && k < block + 1) {
                    combined(
                        *butterfly,
                        twiddles[t],
                        input,
                        data@,
                        upper_slot(t, k, span as int),
                        span as int,
                    )
                } else {
                    untouched(input, data@, upper_slot(t, k, span as int), span as int)
                } by {
                    if t == m as int / 2 && k == block {
                    } else {
                        lemma_butterflies_apart(t, k, m as int / 2, block, span as int);
                        if t < m as int / 2 || (t == m as int / 2 && k < block) {
                            assert(combined(
                                *butterfly,
                                twiddles[t],
                                input,
                                before,
                                upper_slot(t, k, span as int),
                                span as int,
                            ));
                        } else {
                            assert(untouched(
                                input,
                                before,
                                upper_slot(t, k, span as int),
                                span as int,
                            ));
                        }
                    }
                }
                block = block + 1;
            }
            i += istep;
        }
        proof {
            assert forall|t: int, k: int|
                0 <= t && 2 * t < span && 0 <= k && #[trigger] upper_slot(t, k, span as int) + span
                    + 1 < input.len() implies if t < m as int / 2 + 1 {
                combined(
                    *butterfly,
                    twiddles[t],
                    input,
                    data@,
                    upper_slot(t, k, span as int),
                    span as int,
                )
            } else {
                untouched(input, data@, upper_slot(t, k, span as int), span as int)
            } by {
                lemma_block_fits(t, k, span as int, blocks, n as int);
                lemma_block_fits(m as int / 2, block, span as int, blocks, n as int);
            }
        }
        let ghost earlier = twiddles;
        w = next(w);
        proof {
            twiddles = twiddles.push(w);
            assert forall|t: int, k: int|
                0 <= t && 2 * t < span && 0 <= k && #[trigger] upper_slot(t, k, span as int) + span
                    + 1 < input.len() implies if t < m as int / 2 + 1 {
                combined(
                    *butterfly,
                    twiddles[t],
                    input,
                    data@,
                    upper_slot(t, k, span as int),
                    span as int,
                )
            } else {
                untouched(input, data@, upper_slot(t, k, span as int), span as int)
            } by {
                if t < m as int / 2 + 1 {
                    assert(twiddles[t] == earlier[t]);
                }
            }
        }
        m += 2;
    }
    proof {
        let used = twiddles.take(span as int / 2);
        assert(rotations(*start, *next, span, used)) by {
            assert forall|turn: int| 1 <= turn < used.len() implies next.ensures(
                (used[turn - 1],),
                #[trigger] used[turn],
            ) by {
                assert(used[turn] == twiddles[turn]);
                assert(used[turn - 1] == twiddles[turn - 1]);
            }
        }
        assert(pass_with(*butterfly, used, span as int, input, data@)) by {
            assert forall|turn: int, block: int|
                0 <= turn && 2 * turn < span && 0 <= block && #[trigger] upper_slot(
                    turn,
                    block,
                    span as int,
                ) + span + 1 < input.len() implies combined(
                *butterfly,
                used[turn],
                input,
                data@,
                upper_slot(turn, block, span as int),
                span as int,
            ) by {
                assert(used[turn] == twiddles[turn]);
            }
        }
    }
}

/// The unnormalized forward transform of an interleaved buffer whose
/// length is a power of two.
///
/// The pairs are put in bit-reversed order; then one butterfly pass follows
/// for each span from two up to half the length, each span twice the one
/// before. The result has the layout of the input: real parts in the even
/// slots, imaginary parts in the odd ones, the zero frequency first. The
/// three functions must take every argument.
pub fn fft<T: Copy, W: Copy, S, N, B>(data: Vec<T>, start: S, next: N, butterfly: B) -> (out: Vec<
    T,
>) where S: Fn(usize) -> W, N: Fn(W) -> W, B: Fn(W, T, T, T, T) -> (T, T, T, T)
    requires
        is_pow2(data.len() as int),
        forall|s: usize| start.requires((s,)),
        forall|w: W| next.requires((w,)),
        forall|w: W, a: T, b: T, c: T, d: T| butterfly.requires((w, a, b, c, d)),
    ensures
        out.len() == data.len(),
        transformed(start, next, butterfly, data@, out@),
{
    let ghost input = data@;
    let mut buffer = data;
    let n: usize = buffer.len();
    bit_reverse(&mut buffer);
    let ghost mut stages: Seq<Seq<T>> = seq![buffer@];
    let ghost mut done: nat = 0;
    let mut mmax: usize = 2;
    proof {
        lemma2_to64();
        reveal_with_fuel(is_pow2, 2);
    }
    while n > mmax
        invariant
            n == buffer.len(),
            n == input.len(),
            is_pow2(n as int),
            is_pow2(mmax as int),
            mmax >= 2,
            mmax == pow2(done + 1),
            mmax <= n || done == 0,
            stages.len() == done + 1,
            stages[0] == bit_reversed(input),
            stages[done as int] == buffer@,
            forall|pass: int|
                1 <= pass < stages.len() ==> pass_relates(
                    start,
                    next,
                    butterfly,
                    pow2(pass as nat) as usize,
                    stages[pass - 1],
                    #[trigger] stages[pass],
                ),
            forall|s: usize| start.requires((s,)),
            forall|w: W| next.requires((w,)),
            forall|w: W, a: T, b: T, c: T, d: T| butterfly.requires((w, a, b, c, d)),
        decreases n - mmax,
    {
        proof {
            lemma_pow2_below(mmax as int, n as int);
            lemma_double_is_pow2(mmax as int);
            lemma_pow2_unfold(done + 2);
        }
        let ghost earlier = stages;
        butterfly_pass(&mut buffer, mmax, &start, &next, &butterfly);
        proof {
            stages = stages.push(buffer@);
            done = done + 1;
            assert forall|pass: int| 1 <= pass < stages.len() implies pass_relates(
                start,
                next,
                butterfly,
                pow2(pass as nat) as usize,
                stages[pass - 1],
                #[trigger] stages[pass],
            ) by {
                if pass < done {
                    assert(stages[pass] == earlier[pass]);
                    assert(stages[pass - 1] == earlier[pass - 1]);
                }
            }
        }
        mmax = mmax * 2;
    }
    proof {
        if n >= 2 {
            reveal(is_pow2);
            if mmax > n {
                assert(n == 1) by {
                    lemma_pow2_below(n as int, mmax as int);
                }
            }
            lemma_passes_of_pow2(done + 1);
        } else {
            assert(passes(n as int) == 0);
        }
        assert(transform_trace(start, next, butterfly, input, stages));
        assert(stages.last() == buffer@);
    }
    buffer
}

/// `length` is the length of the buffer prepared for a frame of `frame`
/// samples: the smallest power of two that is at least twice `frame`.
pub open spec fn is_prepared_len(length: int, frame: int) -> bool {
    &&& is_pow2(length)
    &&& length >= 2 * frame
    &&& length == 1 || length / 2 < 2 * frame
}

/// `out` is the buffer prepared for `frame`: the windowed samples in the
/// even slots, a default value in each odd slot and in every slot behind
/// the frame's pairs.
pub open spec fn prepared<T: Default, F: Fn(T, usize, usize) -> T>(
    window_func: F,
    frame: Seq<T>,
    out: Seq<T>,
) -> bool {
    &&& is_prepared_len(out.len() as int, frame.len() as int)
    &&& forall|i: int|
        0 <= i < frame.len() ==> {
            &&& window_func.ensures(
                (#[trigger] frame[i], i as usize, frame.len() as usize),
                out[2 * i],
            )
            &&& is_default(out[2 * i + 1])
        }
    &&& forall|k: int| 2 * frame.len() <= k < out.len() ==> is_default(#[trigger] out[k])
}

/// Lays the first `len` samples of `data` out for the transform: each
/// sample windowed, with a default value for its imaginary part, and the
/// rest of the buffer filled with default values up to the smallest power
/// of two that is at least twice `len`.
pub fn prepare_data<T>(data: &[T], len: usize, window_func: impl Fn(T, usize, usize) -> T) -> (out:
    Vec<T>) where T: Copy + Default
    requires
        len <= data@.len(),
        4 * len <= usize::MAX + 1,
        forall|i: int|
            0 <= i < len ==> window_func.requires((#[trigger] data@[i], i as usize, len)),
    ensures
        prepared(window_func, data@.take(len as int), out@),
        is_pow2(out.len() as int),
        out.len() >= 2 * len,
{
    let mut new_len: usize = 1;
    proof {
        reveal_with_fuel(is_pow2, 2);
    }
    while new_len < 2 * len
        invariant
            4 * len <= usize::MAX + 1,
            is_pow2(new_len as int),
            new_len >= 1,
            new_len == 1 || new_len / 2 < 2 * len,
        decreases
                if new_len < 2 * len {
                    2 * len - new_len
                } else {
                    0
                },
    {
        proof {
            lemma_double_is_pow2(new_len as int);
        }
        new_len = new_len * 2;
    }
    let mut extended: Vec<T> = Vec::with_capacity(new_len);
    let ghost frame = data@.take(len as int);
    let mut i: usize = 0;
    while i < len
        invariant
            i <= len,
            len <= data@.len(),
            frame == data@.take(len as int),
            extended.len() == 2 * i,
            forall|i: int|
                0 <= i < len ==> window_func.requires((#[trigger] data@[i], i as usize, len)),
            forall|k: int|
                0 <= k < i ==> {
                    &&& window_func.ensures((#[trigger] frame[k], k as usize, len), extended@[2 * k])
                    &&& is_default(extended@[2 * k + 1])
                },
        decreases len - i,
    {
        let windowed = window_func(data[i], i, len);
        extended.push(windowed);
        extended.push(T::default());
        i += 1;
    }
    let mut filled: usize = 2 * len;
    while filled < new_len
        invariant
            2 * len <= filled <= new_len,
            extended.len() == filled,
            frame.len() == len,
            forall|k: int|
                0 <= k < len ==> {
                    &&& window_func.ensures((#[trigger] frame[k], k as usize, len), extended@[2 * k])
                    &&& is_default(extended@[2 * k + 1])
                },
            forall|k: int| 2 * len <= k < filled ==> is_default(#[trigger] extended@[k]),
        decreases new_len - filled,
    {
        extended.push(T::default());
        filled += 1;
    }
    extended
}

/// Reduces a transformed buffer to `num_bins` frequency bins.
///
/// A buffer longer than [`SAMPLE_RATE`] gives the empty snapshot, which
/// stands for a tick to be thrown away. Otherwise each bin starts from
/// `zero`; `accumulate` adds the squared magnitude of a pair to the sum of
/// its bin, and `truncate` cuts a finished sum to a whole number, which is
/// then divided by the bin width. Both functions must take every argument.
pub fn to_bins<T: Copy, A: Copy, Acc, Tr>(
    data: Vec<T>,
    num_bins: usize,
    zero: A,
    accumulate: Acc,
    truncate: Tr,
) -> (snapshot: Vec<usize>) where Acc: Fn(A, T, T) -> A, Tr: Fn(A) -> usize
    requires
        forall|sum: A, re: T, im: T| accumulate.requires((sum, re, im)),
        forall|sum: A| truncate.requires((sum,)),
    ensures
        snapshot_of(accumulate, truncate, zero, data@, num_bins as int, snapshot@),
        data.len() > SAMPLE_RATE ==> snapshot@.len() == 0,
        data.len() <= SAMPLE_RATE ==> snapshot@.len() == num_bins,
{
    let mut normalized: Vec<usize> = Vec::new();
    if data.len() > SAMPLE_RATE || num_bins == 0 {
        return normalized;
    }
    let quarter: usize = data.len() / 4;
    let per_bin: usize = if quarter % num_bins == 0 {
        quarter / num_bins
    } else {
        quarter / num_bins + 1
    };
    if per_bin == 0 {
        let mut bin: usize = 0;
        while bin < num_bins
            invariant
                bin <= num_bins,
                normalized.len() == bin,
                forall|k: int| 0 <= k < bin ==> normalized@[k] == 0,
            decreases num_bins - bin,
        {
            normalized.push(0);
            bin += 1;
        }
        return normalized;
    }
    let ghost width = per_bin as int;
    let mut bins: Vec<A> = Vec::with_capacity(num_bins);
    let mut bin: usize = 0;
    while bin < num_bins
        invariant
            bin <= num_bins,
            bins.len() == bin,
            forall|k: int| 0 <= k < bin ==> bins@[k] == zero,
        decreases num_bins - bin,
    {
        bins.push(zero);
        bin += 1;
    }
    let mut pair: usize = 1;
    while pair < quarter
        invariant
            1 <= pair,
            pair <= quarter || pair == 1,
            quarter == data.len() / 4,
            width == bin_width(data.len() as int, num_bins as int),
            width == per_bin,
            width > 0,
            num_bins > 0,
            bins.len() == num_bins,
            forall|k: int|
                0 <= k < num_bins ==> bin_sum(
                    accumulate,
                    data@,
                    width,
                    k,
                    pair as int,
                    zero,
                    #[trigger] bins@[k],
                ),
            forall|sum: A, re: T, im: T| accumulate.requires((sum, re, im)),
        decreases quarter - pair,
    {
        proof {
            lemma_bin_in_range(data.len() as int, num_bins as int, pair as int);
        }
        let bin: usize = pair / per_bin;
        let ghost before = bins@;
        let sum = accumulate(bins[bin], data[2 * pair], data[2 * pair + 1]);
        bins[bin] = sum;
        proof {
            assert forall|k: int| 0 <= k < num_bins implies bin_sum(
                accumulate,
                data@,
                width,
                k,
                pair as int + 1,
                zero,
                #[trigger] bins@[k],
            ) by {
                // the sum so far, under the index that the next sum is built on
                let upto = pair as int + 1;
                assert(bin_sum(accumulate, data@, width, k, upto - 1, zero, before[k]));
                if k == bin {
                    assert(accumulate.ensures(
                        (before[k], data@[2 * (upto - 1)], data@[2 * (upto - 1) + 1]),
                        bins@[k],
                    ));
                }
            }
        }
        pair += 1;
    }
    let mut bin: usize = 0;
    while bin < num_bins
        invariant
            bin <= num_bins,
            bins.len() == num_bins,
            normalized.len() == bin,
            data.len() <= SAMPLE_RATE,
            width == bin_width(data.len() as int, num_bins as int),
            width == per_bin,
            width > 0,
            pair >= 1,
            pair == data.len() / 4 || (pair == 1 && data.len() / 4 <= 1),
            forall|k: int|
                0 <= k < num_bins ==> bin_sum(
                    accumulate,
                    data@,
                    width,
                    k,
                    pair as int,
                    zero,
                    #[trigger] bins@[k],
                ),
            forall|k: int|
                0 <= k < bin ==> bin_entry(
                    accumulate,
                    truncate,
                    zero,
                    data@,
                    num_bins as int,
                    k,
                    #[trigger] normalized@[k],
                ),
            forall|sum: A| truncate.requires((sum,)),
        decreases num_bins - bin,
    {
        let whole: usize = truncate(bins[bin]);
        normalized.push(whole / per_bin);
        proof {
            let sum = bins@[bin as int];
            let quarter = data@.len() as int / 4;
            assert(bin_sum(accumulate, data@, width, bin as int, quarter, zero, sum));
            assert(truncate.ensures((sum,), whole));
        }
        bin += 1;
    }
    normalized
}

} // verus!
