//! Audio configuration.

use vstd::prelude::*;

verus! {

/// Audio backend selection.
#[derive(Debug, Clone, Copy, PartialEq, Eq, Hash, Structural)]
pub enum AudioBackend {
    /// Platform-native audio.
    Native,
    /// OpenAL-based audio.
    OpenAL,
    /// Web Audio API.
    WebAudio,
    /// Null audio (no sound).
    Null,
}

/// Audio sample format.
#[derive(Debug, Clone, Copy, PartialEq, Eq, Structural)]
pub enum SampleFormat {
    /// 16-bit signed integer.
    I16,
    /// 32-bit floating point.
    F32,
}

/// Audio channel layout.
#[derive(Debug, Clone, Copy, PartialEq, Eq, Structural)]
pub enum ChannelLayout {
    /// One channel.
    Mono,
    /// Two channels.
    Stereo,
    /// Five channels and a subwoofer.
    Surround51,
    /// Seven channels and a subwoofer.
    Surround71,
}

impl ChannelLayout {
    /// The number of channels of a layout.
    pub open spec fn spec_channel_count(self) -> usize {
        match self {
            ChannelLayout::Mono => 1,
            ChannelLayout::Stereo => 2,
            ChannelLayout::Surround51 => 6,
            ChannelLayout::Surround71 => 8,
        }
    }

    /// Get the number of channels.
    pub fn channel_count(&self) -> (n: usize)
        ensures
            n == self.spec_channel_count(),
    {
        match self {
            ChannelLayout::Mono => 1,
            ChannelLayout::Stereo => 2,
            ChannelLayout::Surround51 => 6,
            ChannelLayout::Surround71 => 8,
        }
    }
}

/// Audio configuration.
#[derive(Debug, Clone)]
pub struct AudioConfig {
    /// Sample rate in Hz.
    pub sample_rate: u32,
    /// Channel layout.
    pub channels: ChannelLayout,
    /// Sample format.
    pub format: SampleFormat,
    /// Buffer size in samples.
    pub buffer_size: usize,
    /// Enable spatial audio.
    pub spatial_audio: bool,
    /// Enable head-related transfer functions for binaural audio.
    pub hrtf_enabled: bool,
}

impl Default for AudioConfig {
    /// Stereo floating-point samples at 48 kHz in buffers of 512 samples,
    /// with spatial audio.
    fn default() -> (c: AudioConfig)
        ensures
            c.sample_rate == 48000,
            c.channels == ChannelLayout::Stereo,
            c.format == SampleFormat::F32,
            c.buffer_size == 512,
            c.spatial_audio,
            !c.hrtf_enabled,
    {
        AudioConfig {
            sample_rate: 48000,
            channels: ChannelLayout::Stereo,
            format: SampleFormat::F32,
            buffer_size: 512,
            spatial_audio: true,
            hrtf_enabled: false,
        }
    }
}

} // verus!
