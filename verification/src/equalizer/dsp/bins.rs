//! What the reduction of a transformed buffer to frequency bins computes.
//!
//! Only the first quarter of the pairs is looked at, and the pair of the
//! zero frequency is passed over. The pair `p` counts for the bin `p`
//! divided by the bin width; a bin's entry is its sum, cut to a whole
//! number, divided by the bin width.

use vstd::prelude::*;
use vstd::arithmetic::div_mod::lemma_fundamental_div_mod;

verus! {

/// Buffers longer than one second of samples are taken for a corrupted
/// capture.
pub const SAMPLE_RATE: usize = 44100;

/// The number of pairs that one bin takes in: the quarter of the buffer's
/// length divided by the number of bins, rounded up.
pub open spec fn bin_width(length: int, bins: int) -> int {
    let quarter = length / 4;
    if bins <= 0 {
        0
    } else if quarter % bins == 0 {
        quarter / bins
    } else {
        quarter / bins + 1
    }
}

/// `sum` is what `accumulate` may make of `zero` and the pairs below
/// `upto` that count for the bin `bin`, taken in order, the first pair
/// left out.
pub open spec fn bin_sum<T, A, Acc: Fn(A, T, T) -> A>(
    accumulate: Acc,
    data: Seq<T>,
    width: int,
    bin: int,
    upto: int,
    zero: A,
    sum: A,
) -> bool
    decreases upto,
{
    if upto <= 1 {
        sum == zero
    } else if (upto - 1) / width == bin {
        exists|before: A|
            bin_sum(accumulate, data, width, bin, upto - 1, zero, before)
                && #[trigger] accumulate.ensures(
                (before, data[2 * (upto - 1)], data[2 * (upto - 1) + 1]),
                sum,
            )
    } else {
        bin_sum(accumulate, data, width, bin, upto - 1, zero, sum)
    }
}

/// `entry` is the entry of the bin `bin`: zero where the bins are empty
/// because the buffer has less than four slots, else the bin's sum, cut to
/// a whole number by `truncate`, divided by the bin width.
pub open spec fn bin_entry<T, A, Acc: Fn(A, T, T) -> A, Tr: Fn(A) -> usize>(
    accumulate: Acc,
    truncate: Tr,
    zero: A,
    data: Seq<T>,
    bins: int,
    bin: int,
    entry: usize,
) -> bool {
    let width = bin_width(data.len() as int, bins);
    if width == 0 {
        entry == 0
    } else {
        exists|sum: A, whole: usize|
            #[trigger] bin_sum(accumulate, data, width, bin, data.len() as int / 4, zero, sum)
                && #[trigger] truncate.ensures((sum,), whole) && entry == whole / (
            width as usize)
    }
}

/// `snapshot` is the snapshot of `data` in `bins` bins.
pub open spec fn binned<T, A, Acc: Fn(A, T, T) -> A, Tr: Fn(A) -> usize>(
    accumulate: Acc,
    truncate: Tr,
    zero: A,
    data: Seq<T>,
    bins: int,
    snapshot: Seq<usize>,
) -> bool {
    &&& snapshot.len() == bins
    &&& forall|bin: int|
        0 <= bin < bins ==> bin_entry(
            accumulate,
            truncate,
            zero,
            data,
            bins,
            bin,
            #[trigger] snapshot[bin],
        )
}

/// `snapshot` is what the reduction makes of `data`: nothing where the
/// buffer is longer than [`SAMPLE_RATE`], else the snapshot in `bins` bins.
pub open spec fn snapshot_of<T, A, Acc: Fn(A, T, T) -> A, Tr: Fn(A) -> usize>(
    accumulate: Acc,
    truncate: Tr,
    zero: A,
    data: Seq<T>,
    bins: int,
    snapshot: Seq<usize>,
) -> bool {
    if data.len() > SAMPLE_RATE {
        snapshot.len() == 0
    } else {
        binned(accumulate, truncate, zero, data, bins, snapshot)
    }
}

/// The bins cover the quarter of the buffer: every pair below the quarter
/// counts for one of them.
pub proof fn lemma_bin_in_range(length: int, bins: int, pair: int)
    requires
        0 <= length,
        0 < bins,
        0 <= pair < length / 4,
    ensures
        bin_width(length, bins) > 0,
        0 <= pair / bin_width(length, bins) < bins,
{
    let quarter = length / 4;
    let width = bin_width(length, bins);
    lemma_fundamental_div_mod(quarter, bins);
    assert(quarter / bins >= 0) by (nonlinear_arith)
        requires
            quarter >= 0,
            bins > 0,
    ;
    assert(quarter <= width * bins && width > 0) by (nonlinear_arith)
        requires
            quarter == bins * (quarter / bins) + quarter % bins,
            0 <= quarter % bins < bins,
            quarter / bins >= 0,
            quarter > 0,
            width == if quarter % bins == 0 {
                quarter / bins
            } else {
                quarter / bins + 1
            },
    ;
    assert(0 <= pair / width < bins) by (nonlinear_arith)
        requires
            0 <= pair < quarter,
            quarter <= width * bins,
            width > 0,
    ;
}

} // verus!
