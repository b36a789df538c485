use odeza::platform::audio::{AudioBackend, AudioConfig, ChannelLayout, SampleFormat};
use odeza::platform::filesystem::FileMode;
use odeza::platform::input::{KeyCode, MouseButton, TouchPhase};
use odeza::platform::timer::{truncate_nanos, PerfCounter, Timestamp};
use odeza::platform::window::WindowConfig;
use odeza::platform::{DeviceCapabilities, GraphicsBackend, Platform};
use odeza::tier::PerformanceTier;
use std::time::Duration;

#[test]
fn test_performance_tiers() {
    assert_eq!(PerformanceTier::default(), PerformanceTier::Mobile);
}

#[test]
fn test_audio_config_default() {
    let config = AudioConfig::default();
    assert_eq!(config.sample_rate, 48000);
    assert_eq!(config.channels, ChannelLayout::Stereo);
}

#[test]
fn test_channel_layout_count() {
    assert_eq!(ChannelLayout::Mono.channel_count(), 1);
    assert_eq!(ChannelLayout::Stereo.channel_count(), 2);
    assert_eq!(ChannelLayout::Surround51.channel_count(), 6);
    assert_eq!(ChannelLayout::Surround71.channel_count(), 8);
}

#[test]
fn test_platform_characteristics() {
    assert!(Platform::Android.is_mobile());
    assert!(Platform::Ios.is_mobile());
    assert!(Platform::Windows.is_desktop());
    assert!(Platform::Linux.is_desktop());
}

#[test]
fn test_graphics_backend() {
    let android_backend = Platform::Android.recommended_graphics_backend();
    assert_eq!(android_backend, GraphicsBackend::Vulkan);

    let ios_backend = Platform::Ios.recommended_graphics_backend();
    assert_eq!(ios_backend, GraphicsBackend::Metal);
}

#[test]
fn test_window_config_default() {
    let config = WindowConfig::default();
    assert_eq!(config.width, 1280);
    assert_eq!(config.height, 720);
    assert!(config.resizable);
}

#[test]
fn audio_config_default_in_full() {
    let config = AudioConfig::default();
    assert_eq!(config.format, SampleFormat::F32);
    assert_eq!(config.buffer_size, 512);
    assert!(config.spatial_audio);
    assert!(!config.hrtf_enabled);
    assert_ne!(AudioBackend::Native, AudioBackend::Null);
}

#[test]
fn every_platform_is_classified() {
    let all = [
        (Platform::Android, true, false, GraphicsBackend::Vulkan),
        (Platform::Ios, true, false, GraphicsBackend::Metal),
        (Platform::Windows, false, true, GraphicsBackend::Vulkan),
        (Platform::Linux, false, true, GraphicsBackend::Vulkan),
        (Platform::MacOs, false, true, GraphicsBackend::Metal),
        (Platform::Unknown, false, false, GraphicsBackend::OpenGL),
    ];
    for (platform, mobile, desktop, backend) in all {
        assert_eq!(platform.is_mobile(), mobile);
        assert_eq!(platform.is_desktop(), desktop);
        assert_eq!(platform.is_touch_primary(), mobile);
        assert_eq!(platform.recommended_graphics_backend(), backend);
    }
    assert!(GraphicsBackend::Vulkan.supports_raytracing());
    assert!(GraphicsBackend::Metal.supports_raytracing());
    assert!(GraphicsBackend::DirectX12.supports_raytracing());
    assert!(!GraphicsBackend::OpenGL.supports_raytracing());
    assert!(!GraphicsBackend::WebGPU.supports_raytracing());
}

fn device(platform: Platform, total_ram: u64, raytracing_available: bool) -> DeviceCapabilities {
    DeviceCapabilities {
        platform,
        graphics_backend: platform.recommended_graphics_backend(),
        cpu_cores: 8,
        total_ram,
        gpu_name: String::from("Unknown"),
        raytracing_available,
        tessellation_available: true,
        max_texture_size: 8192,
        compute_available: true,
    }
}

#[test]
fn recommended_tier_by_platform_memory_and_ray_tracing() {
    let gib = 1024 * 1024 * 1024u64;
    assert_eq!(device(Platform::Android, 8 * gib, true).recommended_tier(), PerformanceTier::HighEnd);
    assert_eq!(device(Platform::Ios, 16 * gib, true).recommended_tier(), PerformanceTier::HighEnd);
    assert_eq!(device(Platform::Android, 8 * gib - 1, true).recommended_tier(), PerformanceTier::Mobile);
    assert_eq!(device(Platform::Android, 8 * gib, false).recommended_tier(), PerformanceTier::Mobile);
    assert_eq!(device(Platform::Linux, 4 * gib, false).recommended_tier(), PerformanceTier::HandheldPC);
    assert_eq!(device(Platform::Unknown, 0, false).recommended_tier(), PerformanceTier::HandheldPC);
}

#[test]
fn window_configs() {
    let mobile = WindowConfig::mobile();
    assert_eq!(mobile.title, "Odeza");
    assert_eq!((mobile.width, mobile.height), (0, 0));
    assert!(!mobile.resizable);
    assert!(mobile.fullscreen);
    assert!(mobile.vsync);
    assert_eq!(mobile.target_fps, 60);
    let desktop = WindowConfig::desktop();
    assert_eq!(desktop.title, "Odeza Engine");
    assert_eq!((desktop.width, desktop.height), (1280, 720));
    assert!(!desktop.fullscreen);
    assert!(desktop.vsync);
    assert_eq!(desktop.target_fps, 60);
}

#[test]
fn file_modes() {
    assert!(FileMode::Read.reads());
    assert!(!FileMode::Read.writes());
    assert!(!FileMode::Write.reads());
    assert!(FileMode::Write.writes());
    assert!(FileMode::ReadWrite.reads());
    assert!(FileMode::ReadWrite.writes());
    assert!(!FileMode::Append.reads());
    assert!(FileMode::Append.writes());
}

#[test]
fn input_names_are_distinct() {
    assert_ne!(KeyCode::A, KeyCode::B);
    assert_ne!(KeyCode::Left, KeyCode::Right);
    assert_ne!(MouseButton::Left, MouseButton::Right);
    assert_eq!(TouchPhase::Started, TouchPhase::Started);
}

#[test]
fn timestamp_units() {
    let t = Timestamp(1_234_567_890_123);
    assert_eq!(t.as_nanos(), 1_234_567_890_123);
    assert_eq!(t.as_micros(), 1_234_567_890);
    assert_eq!(t.as_millis(), 1_234_567);
    assert_eq!(Timestamp(999).as_micros(), 0);
    assert_eq!(Timestamp(999_999).as_millis(), 0);
    assert_eq!(Timestamp(10).until(Timestamp(25)), Duration::from_nanos(15));
    assert_eq!(Timestamp(25).until(Timestamp(10)), Duration::ZERO);
    assert_eq!(Timestamp(0).until(Timestamp(u64::MAX)), Duration::from_nanos(u64::MAX));
    assert!(Timestamp(1) < Timestamp(2));
    let now = Timestamp::now();
    // The clock stands well after the year 2001.
    assert!(now.as_nanos() > 1_000_000_000_000_000_000);
    assert!(Timestamp(0).elapsed() >= Duration::from_nanos(now.as_nanos()));
    assert_eq!(truncate_nanos(5), 5);
    assert_eq!(truncate_nanos(u64::MAX as u128 + 6), 5);
}

#[test]
fn perf_counter_counts_and_sums() {
    let mut counter = PerfCounter::new("test");
    assert_eq!(counter.name(), "test");
    assert_eq!(counter.count(), 0);
    assert_eq!(counter.total_nanos(), 0);
    counter.record(Duration::from_nanos(40));
    counter.record(Duration::from_micros(2));
    assert_eq!(counter.count(), 2);
    assert_eq!(counter.total_nanos(), 2040);
    // The total wraps around at the top.
    counter.record(Duration::from_nanos(u64::MAX));
    assert_eq!(counter.count(), 3);
    assert_eq!(counter.total_nanos(), 2039);
    let answer = counter.time(|| 6 * 7);
    assert_eq!(answer, 42);
    assert_eq!(counter.count(), 4);
    assert!(counter.total_nanos() >= 2039);
    counter.reset();
    assert_eq!(counter.count(), 0);
    assert_eq!(counter.total_nanos(), 0);
    assert_eq!(counter.name(), "test");
}

#[test]
fn timestamp_of_a_clock_reading() {
    assert_eq!(Timestamp::of_reading(None), Timestamp(0));
    assert_eq!(Timestamp::of_reading(Some(Duration::ZERO)), Timestamp(0));
    assert_eq!(Timestamp::of_reading(Some(Duration::from_nanos(1_500))), Timestamp(1_500));
    assert_eq!(Timestamp::of_reading(Some(Duration::new(2, 7))), Timestamp(2_000_000_007));
    // Beyond 64 bits of nanoseconds the high bits are dropped.
    assert_eq!(
        Timestamp::of_reading(Some(Duration::new(18_446_744_073, 709_551_616 + 5))),
        Timestamp(5)
    );
}
