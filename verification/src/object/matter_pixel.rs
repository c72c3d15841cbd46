//! One cell of a pixel object.
use vstd::prelude::*;

verus! {

/// Pixel consisting of matter & its corresponding color
/// Object's pixel part may be of wood, but color could vary...
#[derive(Debug, Clone, Copy, Hash, Ord, PartialOrd, Eq, PartialEq, Structural)]
pub struct MatterPixel {
    pub matter: u32,
    pub color_index: usize,
    pub is_alive: bool,
}

impl MatterPixel {
    /// A dead pixel of the empty matter.
    pub fn zero(empty_matter: u32) -> (pixel: MatterPixel)
        ensures
            pixel == (MatterPixel { matter: empty_matter, color_index: 0, is_alive: false }),
    {
        MatterPixel { matter: empty_matter, color_index: 0, is_alive: false }
    }
}

} // verus!
