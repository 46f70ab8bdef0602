//! Egui integration helpers — viewport sizes of editor panels.

use vstd::prelude::*;

verus! {

/// Viewport dimensions for egui render callbacks.
#[derive(Debug, Clone, Copy)]
pub struct ViewportSize {
    pub width: u32,
    pub height: u32,
}

impl ViewportSize {
    pub fn new(width: u32, height: u32) -> (v: Self)
        ensures
            v.width == width,
            v.height == height,
    {
        ViewportSize { width, height }
    }

    /// Check if the viewport needs a resize (dimensions changed).
    pub fn needs_resize(&self, new_width: u32, new_height: u32) -> (r: bool)
        ensures
            r == (self.width != new_width || self.height != new_height),
    {
        self.width != new_width || self.height != new_height
    }
}

} // verus!
