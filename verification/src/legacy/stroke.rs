//! Strokes as the first generation reads them.
use vstd::prelude::*;

verus! {

/// Whether a stroke read from the machine holds anything
pub fn is_valid_stroke(stroke: &str) -> (b: bool)
    ensures
        b == (stroke@.len() > 0),
{
    !stroke.is_empty()
}

} // verus!
