//! Platforms, graphics backends and device capabilities.

use crate::tier::PerformanceTier;
use vstd::prelude::*;

verus! {

/// Platform-specific errors.
#[derive(Debug)]
pub enum PlatformError {
    /// Window creation failed.
    WindowCreation(String),
    /// File input or output failed.
    FileIO(String),
    /// The graphics backend is not supported.
    GraphicsNotSupported(String),
    /// The audio backend failed.
    AudioError(String),
    /// The platform is not supported.
    NotSupported(String),
}

/// Platform identification.
#[derive(Debug, Clone, Copy, PartialEq, Eq, Hash, Structural)]
pub enum Platform {
    /// Android (arm64).
    Android,
    /// iOS (arm64).
    Ios,
    /// Windows (x64).
    Windows,
    /// Linux (x64).
    Linux,
    /// macOS (for development).
    MacOs,
    /// Unknown platform.
    Unknown,
}

impl Platform {
    /// Whether this is a mobile platform: Android or iOS.
    pub open spec fn spec_is_mobile(self) -> bool {
        self == Platform::Android || self == Platform::Ios
    }

    /// Whether this is a desktop platform: Windows, Linux or macOS.
    pub open spec fn spec_is_desktop(self) -> bool {
        self == Platform::Windows || self == Platform::Linux || self == Platform::MacOs
    }

    /// The graphics backend recommended for a platform: Metal on Apple
    /// platforms, OpenGL where the platform is unknown, Vulkan elsewhere.
    pub open spec fn spec_recommended_backend(self) -> GraphicsBackend {
        match self {
            Platform::Ios | Platform::MacOs => GraphicsBackend::Metal,
            Platform::Unknown => GraphicsBackend::OpenGL,
            _ => GraphicsBackend::Vulkan,
        }
    }

    /// Check if this is a mobile platform.
    pub fn is_mobile(&self) -> (b: bool)
        ensures
            b == self.spec_is_mobile(),
    {
        match self {
            Platform::Android | Platform::Ios => true,
            _ => false,
        }
    }

    /// Check if this is a desktop platform.
    pub fn is_desktop(&self) -> (b: bool)
        ensures
            b == self.spec_is_desktop(),
    {
        match self {
            Platform::Windows | Platform::Linux | Platform::MacOs => true,
            _ => false,
        }
    }

    /// Check if touch input is the primary input method, which it is on
    /// mobile platforms.
    pub fn is_touch_primary(&self) -> (b: bool)
        ensures
            b == self.spec_is_mobile(),
    {
        self.is_mobile()
    }

    /// Get the recommended graphics backend.
    pub fn recommended_graphics_backend(&self) -> (backend: GraphicsBackend)
        ensures
            backend == self.spec_recommended_backend(),
    {
        match self {
            Platform::Android => GraphicsBackend::Vulkan,
            Platform::Ios => GraphicsBackend::Metal,
            Platform::Windows => GraphicsBackend::Vulkan,
            Platform::Linux => GraphicsBackend::Vulkan,
            Platform::MacOs => GraphicsBackend::Metal,
            Platform::Unknown => GraphicsBackend::OpenGL,
        }
    }

}

/// Graphics backend selection.
#[derive(Debug, Clone, Copy, PartialEq, Eq, Hash, Structural)]
pub enum GraphicsBackend {
    /// Vulkan (Android, Windows, Linux).
    Vulkan,
    /// Metal (iOS, macOS).
    Metal,
    /// DirectX 12 (Windows).
    DirectX12,
    /// OpenGL ES (fallback for older devices).
    OpenGL,
    /// WebGPU.
    WebGPU,
}

impl GraphicsBackend {
    /// Whether the backend may support ray tracing: Vulkan, Metal and
    /// DirectX 12 may.
    pub open spec fn spec_supports_raytracing(self) -> bool {
        self == GraphicsBackend::Vulkan || self == GraphicsBackend::Metal || self
            == GraphicsBackend::DirectX12
    }

    /// Check if ray tracing is potentially supported.
    pub fn supports_raytracing(&self) -> (b: bool)
        ensures
            b == self.spec_supports_raytracing(),
    {
        match self {
            GraphicsBackend::Vulkan | GraphicsBackend::Metal | GraphicsBackend::DirectX12 => true,
            _ => false,
        }
    }
}

/// Bytes of memory from which a mobile device with ray tracing counts as
/// high-end: 8 GiB.
pub const HIGH_END_RAM: u64 = 8 * 1024 * 1024 * 1024;

/// Device capabilities detected at runtime.
#[derive(Debug, Clone)]
pub struct DeviceCapabilities {
    /// Platform.
    pub platform: Platform,
    /// Graphics backend.
    pub graphics_backend: GraphicsBackend,
    /// Number of CPU cores.
    pub cpu_cores: usize,
    /// Total system RAM in bytes.
    pub total_ram: u64,
    /// GPU name.
    pub gpu_name: String,
    /// Whether ray tracing is available.
    pub raytracing_available: bool,
    /// Whether hardware tessellation is available.
    pub tessellation_available: bool,
    /// Maximum texture size.
    pub max_texture_size: u32,
    /// Whether compute shaders are available.
    pub compute_available: bool,
}

impl DeviceCapabilities {
    /// The tier that fits the device: a handheld PC where the platform is
    /// not mobile; on mobile, high-end with at least 8 GiB of memory and ray
    /// tracing, the mobile baseline otherwise.
    pub open spec fn spec_recommended_tier(&self) -> PerformanceTier {
        if self.platform.spec_is_mobile() {
            if self.total_ram >= HIGH_END_RAM && self.raytracing_available {
                PerformanceTier::HighEnd
            } else {
                PerformanceTier::Mobile
            }
        } else {
            PerformanceTier::HandheldPC
        }
    }

    /// Get recommended performance tier based on capabilities.
    pub fn recommended_tier(&self) -> (tier: PerformanceTier)
        ensures
            tier == self.spec_recommended_tier(),
    {
        if self.platform.is_mobile() {
            if self.total_ram >= HIGH_END_RAM && self.raytracing_available {
                PerformanceTier::HighEnd
            } else {
                PerformanceTier::Mobile
            }
        } else {
            PerformanceTier::HandheldPC
        }
    }
}

} // verus!
