//! The grid state of the two shaded 3D scenes (the spinning torus and the
//! endless helix). Their frames are computed with floating-point projection
//! by the host; here they hold the grid size they draw into.

use vstd::prelude::*;

verus! {

/// The spinning ASCII torus.
#[derive(Clone, Copy, Debug, PartialEq, Eq, Structural)]
pub struct DonutScene {
    pub width: usize,
    pub height: usize,
}

impl DonutScene {
    /// A torus on a 10 × 10 grid.
    pub fn new() -> (s: DonutScene)
        ensures
            s.width == 10,
            s.height == 10,
    {
        DonutScene { width: 10, height: 10 }
    }

    /// Resize the grid; a zero size is ignored.
    pub fn set_grid(&mut self, width: usize, height: usize)
        ensures
            width > 0 && height > 0 ==> final(self).width == width && final(self).height == height,
            !(width > 0 && height > 0) ==> *final(self) == *old(self),
    {
        if width > 0 && height > 0 {
            self.width = width;
            self.height = height;
        }
    }
}

/// The endless helix flown down from above.
#[derive(Clone, Copy, Debug, PartialEq, Eq, Structural)]
pub struct HelixScene {
    pub width: usize,
    pub height: usize,
}

impl HelixScene {
    /// A helix on a 10 × 10 grid.
    pub fn new() -> (s: HelixScene)
        ensures
            s.width == 10,
            s.height == 10,
    {
        HelixScene { width: 10, height: 10 }
    }

    /// Resize the grid; a zero size is ignored.
    pub fn set_grid(&mut self, width: usize, height: usize)
        ensures
            width > 0 && height > 0 ==> final(self).width == width && final(self).height == height,
            !(width > 0 && height > 0) ==> *final(self) == *old(self),
    {
        if width > 0 && height > 0 {
            self.width = width;
            self.height = height;
        }
    }
}

} // verus!
