//! Window configuration.

use vstd::prelude::*;

verus! {

/// Window configuration.
#[derive(Debug, Clone, PartialEq)]
pub struct WindowConfig {
    pub width: u32,
    pub height: u32,
    pub title: String,
    pub vsync: bool,
    pub fullscreen: bool,
    pub resizable: bool,
}

impl Default for WindowConfig {
    /// 1280 × 720, titled "Soorat", vsync on, windowed, resizable.
    fn default() -> (c: Self)
        ensures
            c.width == 1280,
            c.height == 720,
            c.title@ == "Soorat"@,
            c.vsync,
            !c.fullscreen,
            c.resizable,
    {
        WindowConfig {
            width: 1280,
            height: 720,
            title: String::from_str("Soorat"),
            vsync: true,
            fullscreen: false,
            resizable: true,
        }
    }
}

impl WindowConfig {
    /// A default configuration with the given title and size.
    pub fn new(title: &str, width: u32, height: u32) -> (c: Self)
        ensures
            c.title@ == title@,
            c.width == width,
            c.height == height,
            c.vsync,
            !c.fullscreen,
            c.resizable,
    {
        WindowConfig { title: String::from_str(title), width, height, ..Default::default() }
    }
}

} // verus!
