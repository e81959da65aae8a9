//! Error taxonomy of the analyzer.
//!
//! The library reports every failure through [`Error`]. Variants that stand
//! for a failure of the audio host, the terminal or a channel carry no
//! payload here: the caller that met the failure keeps its cause.

use vstd::prelude::*;

verus! {

/// The stream lifecycle operation that was refused.
#[derive(Debug, Clone, Copy, PartialEq, Eq, Structural)]
pub enum StreamOp {
    Play,
    Pause,
}

/// The ring buffer operation that was refused.
#[derive(Debug, Clone, Copy, PartialEq, Eq, Structural)]
pub enum BufferOp {
    Push,
    Pop,
}

/// Everything that can go wrong between the audio callback and the display.
#[derive(Debug, Clone, Copy, PartialEq, Eq, Structural)]
pub enum Error {
    /// No input device matched the selector.
    NoCpalDevice,
    /// The audio host refused to build the input stream.
    BuildStream,
    /// The audio host refused to start the stream.
    PlayStream,
    /// The audio host refused to pause the stream.
    PauseStream,
    /// Play or pause was asked for before a stream was connected.
    StreamOperation(StreamOp),
    /// Push on a full ring buffer, or pop on an empty one.
    BufferOperation(BufferOp),
    /// The transformed buffer was longer than the sampling rate allows.
    FFTOperation,
    /// The terminal backend could not be created.
    IO,
    /// The worker's channel was closed.
    MPSCRecv,
    /// The terminal toolkit failed.
    Crossterm,
}

impl Error {
    /// The text shown to the operator for this error.
    pub open spec fn message_text(self) -> Seq<char> {
        match self {
            Error::NoCpalDevice => "No cpal device available"@,
            Error::BuildStream => "Could not create build stream"@,
            Error::PlayStream => "Could not play stream"@,
            Error::PauseStream => "Could not pause stream"@,
            Error::StreamOperation(StreamOp::Play) =>
                "Cannot play because no stream set! Run connect first!"@,
            Error::StreamOperation(StreamOp::Pause) =>
                "Cannot pause because no stream set! Run connect first!"@,
            Error::BufferOperation(BufferOp::Push) => "Push failed! The RingBuffer is full!"@,
            Error::BufferOperation(BufferOp::Pop) => "Pop failed! The RingBuffer is empty!"@,
            Error::FFTOperation =>
                "The input data was greater than the sampling rate, probably CPAL hiccup - ignoring"@,
            Error::IO => "Could not create terminal backend!"@,
            Error::MPSCRecv => "The receiver queue is empty!"@,
            Error::Crossterm => "Could not create TUI"@,
        }
    }

    /// Renders the error as the text shown to the operator.
    pub fn message(&self) -> (text: String)
        ensures
            text@ == self.message_text(),
    {
        let literal = match self {
            Error::NoCpalDevice => "No cpal device available",
            Error::BuildStream => "Could not create build stream",
            Error::PlayStream => "Could not play stream",
            Error::PauseStream => "Could not pause stream",
            Error::StreamOperation(StreamOp::Play) =>
                "Cannot play because no stream set! Run connect first!",
            Error::StreamOperation(StreamOp::Pause) =>
                "Cannot pause because no stream set! Run connect first!",
            Error::BufferOperation(BufferOp::Push) => "Push failed! The RingBuffer is full!",
            Error::BufferOperation(BufferOp::Pop) => "Pop failed! The RingBuffer is empty!",
            Error::FFTOperation =>
                "The input data was greater than the sampling rate, probably CPAL hiccup - ignoring",
            Error::IO => "Could not create terminal backend!",
            Error::MPSCRecv => "The receiver queue is empty!",
            Error::Crossterm => "Could not create TUI",
        };
        literal.to_owned()
    }
}

} // verus!
