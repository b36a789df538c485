//! Window configuration.

use vstd::prelude::*;

verus! {

/// Window configuration.
#[derive(Debug, Clone)]
pub struct WindowConfig {
    /// Window title.
    pub title: String,
    /// Initial width in pixels; zero to take the display's.
    pub width: u32,
    /// Initial height in pixels; zero to take the display's.
    pub height: u32,
    /// Whether the window is resizable.
    pub resizable: bool,
    /// Whether to start in fullscreen mode.
    pub fullscreen: bool,
    /// Whether VSync is enabled.
    pub vsync: bool,
    /// Target refresh rate (0 for unlimited).
    pub target_fps: u32,
}

impl WindowConfig {
    /// Create a mobile-optimized window config: fullscreen at the display's
    /// size, not resizable.
    pub fn mobile() -> (c: WindowConfig)
        ensures
            c.title@ == "Odeza"@,
            c.width == 0,
            c.height == 0,
            !c.resizable,
            c.fullscreen,
            c.vsync,
            c.target_fps == 60,
    {
        WindowConfig {
            title: "Odeza".to_string(),
            width: 0,
            height: 0,
            resizable: false,
            fullscreen: true,
            vsync: true,
            target_fps: 60,
        }
    }

    /// Create a desktop window config: a resizable window of 1280 by 720
    /// pixels.
    pub fn desktop() -> (c: WindowConfig)
        ensures
            c.title@ == "Odeza Engine"@,
            c.width == 1280,
            c.height == 720,
            c.resizable,
            !c.fullscreen,
            c.vsync,
            c.target_fps == 60,
    {
        WindowConfig {
            title: "Odeza Engine".to_string(),
            width: 1280,
            height: 720,
            resizable: true,
            fullscreen: false,
            vsync: true,
            target_fps: 60,
        }
    }
}

impl Default for WindowConfig {
    /// The default configuration is the desktop one.
    fn default() -> (c: WindowConfig)
        ensures
            c.title@ == "Odeza Engine"@,
            c.width == 1280,
            c.height == 720,
            c.resizable,
            !c.fullscreen,
            c.vsync,
            c.target_fps == 60,
    {
        WindowConfig::desktop()
    }
}

} // verus!
