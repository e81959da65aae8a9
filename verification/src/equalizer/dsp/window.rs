//! The windows that a frame can be weighted with before the transform.

use vstd::prelude::*;

verus! {

/// Which window weights the samples of a frame. The weight of a sample
/// depends on its index and on the frame's length alone.
#[derive(Debug, Clone, Copy, PartialEq, Eq, Structural)]
pub enum WindowType {
    /// Half of one less the cosine of the sample's angle in the frame.
    Hann,
}

} // verus!
