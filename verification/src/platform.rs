//! Platform layer: what the engine knows of the device it runs on, and the
//! choices that follow from it.

pub mod audio;
pub mod device;
pub mod filesystem;
pub mod input;
pub mod timer;
pub mod window;

pub use device::{DeviceCapabilities, GraphicsBackend, Platform, PlatformError};
