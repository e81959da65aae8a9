//! The signal path, and the worker that owns it.
//!
//! The worker takes one message at a time. A frame is windowed and padded,
//! transformed and reduced to bins, and answered with one snapshot; any
//! other message ends the worker.

pub mod bins;
pub mod butterfly;
pub mod determined;
pub mod fft;
pub mod reversal;
pub mod signal;
pub mod window;

use vstd::prelude::*;
use crate::equalizer::dsp::bins::snapshot_of;
use crate::equalizer::dsp::butterfly::transformed;
use crate::equalizer::dsp::fft::{fft, prepare_data, prepared, to_bins};

verus! {

/// The number of bins where none is asked for.
pub const DEFAULT_BINS: usize = 31;

/// What travels between the owner and the worker.
pub enum Message<T> {
    /// A frame of samples, towards the worker.
    Raw(Vec<T>),
    /// A snapshot, from the worker.
    Processed(Vec<usize>),
    /// The request to stop, towards the worker.
    Terminate,
}

/// `snapshot` is what the signal path makes of `frame`: the reduction of a
/// transform of the buffer prepared for it.
pub open spec fn processed<
    T: Default,
    W,
    A,
    Win: Fn(T, usize, usize) -> T,
    S: Fn(usize) -> W,
    N: Fn(W) -> W,
    B: Fn(W, T, T, T, T) -> (T, T, T, T),
    Acc: Fn(A, T, T) -> A,
    Tr: Fn(A) -> usize,
>(
    window: Win,
    start: S,
    next: N,
    butterfly: B,
    zero: A,
    accumulate: Acc,
    truncate: Tr,
    frame: Seq<T>,
    bins: int,
    snapshot: Seq<usize>,
) -> bool {
    exists|buffer: Seq<T>, spectrum: Seq<T>|
        #![trigger prepared(window, frame, buffer), transformed(start, next, butterfly, buffer, spectrum)]
        prepared(window, frame, buffer) && transformed(start, next, butterfly, buffer, spectrum)
            && snapshot_of(accumulate, truncate, zero, spectrum, bins, snapshot)
}

/// The number of bins asked for, or the default.
pub fn bin_count(bins: Option<usize>) -> (count: usize)
    ensures
        count == match bins {
            Some(asked) => asked,
            None => DEFAULT_BINS,
        },
{
    match bins {
        Some(asked) => asked,
        None => DEFAULT_BINS,
    }
}

/// Takes one frame through the signal path: window and pad, transform,
/// reduce to `bins` bins.
pub fn process_frame<T, W, A, Win, S, N, B, Acc, Tr>(
    frame: &[T],
    bins: usize,
    window: Win,
    start: S,
    next: N,
    butterfly: B,
    zero: A,
    accumulate: Acc,
    truncate: Tr,
) -> (snapshot: Vec<usize>) where
    T: Copy + Default,
    W: Copy,
    A: Copy,
    Win: Fn(T, usize, usize) -> T,
    S: Fn(usize) -> W,
    N: Fn(W) -> W,
    B: Fn(W, T, T, T, T) -> (T, T, T, T),
    Acc: Fn(A, T, T) -> A,
    Tr: Fn(A) -> usize,

    requires
        4 * frame@.len() <= usize::MAX + 1,
        forall|sample: T, index: usize, length: usize| window.requires((sample, index, length)),
        forall|span: usize| start.requires((span,)),
        forall|w: W| next.requires((w,)),
        forall|w: W, a: T, b: T, c: T, d: T| butterfly.requires((w, a, b, c, d)),
        forall|sum: A, re: T, im: T| accumulate.requires((sum, re, im)),
        forall|sum: A| truncate.requires((sum,)),
    ensures
        processed(
            window,
            start,
            next,
            butterfly,
            zero,
            accumulate,
            truncate,
            frame@,
            bins as int,
            snapshot@,
        ),
{
    let buffer = prepare_data(frame, frame.len(), window);
    let ghost laid_out = buffer@;
    proof {
        assert(frame@.take(frame@.len() as int) =~= frame@);
    }
    let spectrum = fft(buffer, start, next, butterfly);
    let ghost turned = spectrum@;
    let snapshot = to_bins(spectrum, bins, zero, accumulate, truncate);
    proof {
        assert(prepared(window, frame@, laid_out) && transformed(
            start,
            next,
            butterfly,
            laid_out,
            turned,
        ));
    }
    snapshot
}

/// What the worker does with one message: a frame is answered with its
/// snapshot, anything else with nothing, and the worker then stops.
pub fn worker_step<T, W, A, Win, S, N, B, Acc, Tr>(
    message: Message<T>,
    bins: usize,
    window: Win,
    start: S,
    next: N,
    butterfly: B,
    zero: A,
    accumulate: Acc,
    truncate: Tr,
) -> (reply: Option<Message<T>>) where
    T: Copy + Default,
    W: Copy,
    A: Copy,
    Win: Fn(T, usize, usize) -> T,
    S: Fn(usize) -> W,
    N: Fn(W) -> W,
    B: Fn(W, T, T, T, T) -> (T, T, T, T),
    Acc: Fn(A, T, T) -> A,
    Tr: Fn(A) -> usize,

    requires
        message matches Message::Raw(frame) ==> 4 * frame@.len() <= usize::MAX + 1,
        forall|sample: T, index: usize, length: usize| window.requires((sample, index, length)),
        forall|span: usize| start.requires((span,)),
        forall|w: W| next.requires((w,)),
        forall|w: W, a: T, b: T, c: T, d: T| butterfly.requires((w, a, b, c, d)),
        forall|sum: A, re: T, im: T| accumulate.requires((sum, re, im)),
        forall|sum: A| truncate.requires((sum,)),
    ensures
        match message {
            Message::Raw(frame) => reply matches Some(Message::Processed(snapshot)) && processed(
                window,
                start,
                next,
                butterfly,
                zero,
                accumulate,
                truncate,
                frame@,
                bins as int,
                snapshot@,
            ),
            Message::Processed(_) | Message::Terminate => reply is None,
        },
{
    match message {
        Message::Raw(frame) => {
            let snapshot = process_frame(
                frame.as_slice(),
                bins,
                window,
                start,
                next,
                butterfly,
                zero,
                accumulate,
                truncate,
            );
            Some(Message::Processed(snapshot))
        },
        Message::Processed(_) | Message::Terminate => None,
    }
}

/// What the owner makes of a message from the worker: a snapshot with
/// entries is handed on; an empty one stands for a tick to be thrown away,
/// and any other message carries none.
pub fn received<T>(message: Message<T>) -> (snapshot: Option<Vec<usize>>)
    ensures
        snapshot == match message {
            Message::Processed(payload) => if payload@.len() > 0 {
                Some(payload)
            } else {
                None
            },
            Message::Raw(_) | Message::Terminate => None,
        },
{
    match message {
        Message::Processed(payload) => {
            if payload.len() > 0 {
                Some(payload)
            } else {
                None
            }
        },
        Message::Raw(_) | Message::Terminate => None,
    }
}

} // verus!
