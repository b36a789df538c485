//! Assets: content-addressed identifiers, asset kinds, import settings and
//! the choices that depend on the target platform.

use std::collections::hash_map::DefaultHasher;
use std::hash::BuildHasher;
use std::hash::BuildHasherDefault;
use std::path::PathBuf;
use vstd::prelude::*;

verus! {

/// Asset errors.
#[derive(Debug)]
pub enum AssetError {
    /// The asset was not found.
    NotFound(String),
    /// Importing the asset failed.
    ImportFailed(String),
    /// Cooking the asset failed.
    CookFailed(String),
    /// Reading or writing a file failed.
    IoError(String),
    /// Reading or writing the asset's data failed.
    SerializationError(String),
}

/// The hash of a sequence of bytes: what the standard library's default
/// hasher, freshly made, gives for a byte slice.
pub uninterp spec fn content_hash(bytes: Seq<u8>) -> u64;

/// `BuildHasher::hash_one` with the standard library's default hasher: the
/// hash of the bytes. The hasher is not seeded, so the same bytes always
/// give the same hash.
#[verifier::external_body]
fn hash_bytes(content: &[u8]) -> (hash: u64)
    ensures
        hash == content_hash(content@),
{
    BuildHasherDefault::<DefaultHasher>::default().hash_one(content)
}

/// Content-addressed asset ID (hash-based).
#[derive(Debug, Clone, Copy, PartialEq, Eq, Hash, Structural)]
pub struct AssetId(pub u64);

impl AssetId {
    /// Create an asset ID from a hash.
    pub fn from_hash(hash: u64) -> (id: AssetId)
        ensures
            id.0 == hash,
    {
        AssetId(hash)
    }

    /// Create an asset ID from content bytes: the hash of the bytes. The
    /// same content always gets the same ID.
    pub fn from_content(content: &[u8]) -> (id: AssetId)
        ensures
            id.0 == content_hash(content@),
    {
        AssetId(hash_bytes(content))
    }

    /// Get the raw ID value.
    pub fn value(&self) -> (v: u64)
        ensures
            v == self.0,
    {
        self.0
    }
}

/// Asset type categories.
#[derive(Debug, Clone, Copy, PartialEq, Eq, Hash, Structural)]
pub enum AssetType {
    /// Images.
    Texture,
    /// Geometry.
    Mesh,
    /// Animation clips.
    Animation,
    /// Sounds.
    Audio,
    /// Materials.
    Material,
    /// Shader sources.
    Shader,
    /// Prefabs.
    Prefab,
    /// Scenes.
    Scene,
    /// Fonts.
    Font,
    /// Scripts.
    Script,
    /// Plain data.
    Data,
}

impl AssetType {
    /// The number of file extensions known for each asset type.
    pub open spec fn extension_count(self) -> nat {
        match self {
            AssetType::Texture => 6,
            AssetType::Mesh => 4,
            AssetType::Animation => 3,
            AssetType::Audio => 4,
            AssetType::Material => 1,
            AssetType::Shader => 3,
            AssetType::Prefab => 1,
            AssetType::Scene => 1,
            AssetType::Font => 2,
            AssetType::Script => 2,
            AssetType::Data => 3,
        }
    }

    /// Get file extensions for this asset type.
    pub fn extensions(&self) -> (list: Vec<&'static str>)
        ensures
            list@.len() == self.extension_count(),
            *self == AssetType::Texture ==> list@ == seq!["png", "jpg", "jpeg", "tga", "exr", "hdr"],
            *self == AssetType::Mesh ==> list@ == seq!["gltf", "glb", "fbx", "obj"],
            *self == AssetType::Animation ==> list@ == seq!["gltf", "glb", "fbx"],
            *self == AssetType::Audio ==> list@ == seq!["wav", "ogg", "mp3", "flac"],
            *self == AssetType::Material ==> list@ == seq!["omat"],
            *self == AssetType::Shader ==> list@ == seq!["wgsl", "glsl", "hlsl"],
            *self == AssetType::Prefab ==> list@ == seq!["opfb"],
            *self == AssetType::Scene ==> list@ == seq!["oscn"],
            *self == AssetType::Font ==> list@ == seq!["ttf", "otf"],
            *self == AssetType::Script ==> list@ == seq!["wasm", "lua"],
            *self == AssetType::Data ==> list@ == seq!["json", "toml", "yaml"],
    {
        match self {
            AssetType::Texture => vec!["png", "jpg", "jpeg", "tga", "exr", "hdr"],
            AssetType::Mesh => vec!["gltf", "glb", "fbx", "obj"],
            AssetType::Animation => vec!["gltf", "glb", "fbx"],
            AssetType::Audio => vec!["wav", "ogg", "mp3", "flac"],
            AssetType::Material => vec!["omat"],
            AssetType::Shader => vec!["wgsl", "glsl", "hlsl"],
            AssetType::Prefab => vec!["opfb"],
            AssetType::Scene => vec!["oscn"],
            AssetType::Font => vec!["ttf", "otf"],
            AssetType::Script => vec!["wasm", "lua"],
            AssetType::Data => vec!["json", "toml", "yaml"],
        }
    }
}

/// Asset metadata.
#[derive(Debug, Clone)]
pub struct AssetMeta {
    /// Asset ID.
    pub id: AssetId,
    /// Asset name.
    pub name: String,
    /// Asset type.
    pub asset_type: AssetType,
    /// Source file path (relative to project).
    pub source_path: PathBuf,
    /// Content hash for change detection.
    pub content_hash: u64,
    /// Dependencies (other asset IDs).
    pub dependencies: Vec<AssetId>,
    /// Last modification time.
    pub modified_time: u64,
    /// Import settings hash.
    pub settings_hash: u64,
}

/// Texture compression formats.
#[derive(Debug, Clone, Copy, PartialEq, Eq, Structural)]
pub enum TextureCompression {
    /// Chosen by the cooker.
    Auto,
    /// No compression.
    Uncompressed,
    /// BC7, for desktop GPUs.
    BC7,
    /// ASTC, for mobile GPUs.
    ASTC,
    /// ETC2, for older mobile GPUs.
    ETC2,
}

impl Default for TextureCompression {
    /// The default is `Auto`.
    fn default() -> (c: TextureCompression)
        ensures
            c == TextureCompression::Auto,
    {
        TextureCompression::Auto
    }
}

/// Import settings for textures.
#[derive(Debug, Clone)]
pub struct TextureImportSettings {
    /// Generate mipmaps.
    pub generate_mips: bool,
    /// Compression format.
    pub compression: TextureCompression,
    /// sRGB color space.
    pub srgb: bool,
    /// Max resolution (0 = unlimited).
    pub max_size: u32,
}

impl Default for TextureImportSettings {
    /// Mipmapped sRGB textures of at most 4096 pixels, compressed as the
    /// cooker sees fit.
    fn default() -> (s: TextureImportSettings)
        ensures
            s.generate_mips,
            s.compression == TextureCompression::Auto,
            s.srgb,
            s.max_size == 4096,
    {
        TextureImportSettings {
            generate_mips: true,
            compression: TextureCompression::Auto,
            srgb: true,
            max_size: 4096,
        }
    }
}

/// Target platforms for cooking.
#[derive(Debug, Clone, Copy, PartialEq, Eq, Structural)]
pub enum TargetPlatform {
    /// Android.
    Android,
    /// iOS.
    Ios,
    /// Windows.
    Windows,
    /// Linux.
    Linux,
}

impl TargetPlatform {
    /// The texture compression preferred on a platform: ASTC on the mobile
    /// platforms, BC7 on the desktop ones.
    pub open spec fn spec_texture_compression(self) -> TextureCompression {
        match self {
            TargetPlatform::Android | TargetPlatform::Ios => TextureCompression::ASTC,
            TargetPlatform::Windows | TargetPlatform::Linux => TextureCompression::BC7,
        }
    }

    /// Get preferred texture compression for platform.
    pub fn texture_compression(&self) -> (c: TextureCompression)
        ensures
            c == self.spec_texture_compression(),
    {
        match self {
            TargetPlatform::Android => TextureCompression::ASTC,
            TargetPlatform::Ios => TextureCompression::ASTC,
            TargetPlatform::Windows => TextureCompression::BC7,
            TargetPlatform::Linux => TextureCompression::BC7,
        }
    }
}

/// Asset cooker for platform-specific compilation.
pub struct AssetCooker {
    /// Target platform.
    pub platform: TargetPlatform,
    /// Output directory.
    pub output_dir: PathBuf,
    /// Compression enabled.
    pub compress: bool,
}

impl AssetCooker {
    /// Create a new asset cooker, with compression on.
    pub fn new(platform: TargetPlatform, output_dir: PathBuf) -> (c: AssetCooker)
        ensures
            c.platform == platform,
            c.output_dir == output_dir,
            c.compress,
    {
        AssetCooker { platform, output_dir, compress: true }
    }

    /// Cook an asset. No asset type has a cooking step yet: the cooked data
    /// is empty.
    pub fn cook(&self, _meta: &AssetMeta, _source_data: &[u8]) -> (cooked: Result<
        Vec<u8>,
        AssetError,
    >)
        ensures
            cooked matches Ok(data) && data@.len() == 0,
    {
        Ok(Vec::new())
    }
}

} // verus!
