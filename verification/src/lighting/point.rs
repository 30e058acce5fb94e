//! The header of the point-light storage buffer.

use vstd::prelude::*;

verus! {

/// Header at the start of the light storage buffer: the number of lights
/// that follow, padded to 16 bytes.
#[derive(Clone, Copy, Debug)]
pub struct PointLightHeader {
    /// Number of active point lights in the buffer.
    pub count: u32,
    /// Padding to align to 16 bytes.
    pub _pad: [u32; 3],
}

} // verus!
