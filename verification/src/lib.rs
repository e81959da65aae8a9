//! Spectrum analysis core: a power-of-two ring buffer, frame preparation,
//! a radix-2 transform and frequency binning, with their contracts.

pub mod defaults;
pub mod display;
pub mod equalizer;
pub mod errors;
pub mod power;
pub mod ring_buffer;
