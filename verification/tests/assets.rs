use odeza::assets::{
    AssetCooker, AssetId, AssetMeta, AssetType, TargetPlatform, TextureCompression,
    TextureImportSettings,
};
use std::path::PathBuf;

#[test]
fn test_asset_id() {
    let id1 = AssetId::from_content(b"test content");
    let id2 = AssetId::from_content(b"test content");
    let id3 = AssetId::from_content(b"different content");

    assert_eq!(id1, id2);
    assert_ne!(id1, id3);
}

#[test]
fn test_target_platform() {
    assert_eq!(TargetPlatform::Android.texture_compression(), TextureCompression::ASTC);
    assert_eq!(TargetPlatform::Windows.texture_compression(), TextureCompression::BC7);
}

#[test]
fn texture_compression_of_every_platform() {
    assert_eq!(TargetPlatform::Ios.texture_compression(), TextureCompression::ASTC);
    assert_eq!(TargetPlatform::Linux.texture_compression(), TextureCompression::BC7);
    assert_eq!(TextureCompression::default(), TextureCompression::Auto);
}

#[test]
fn asset_id_holds_its_hash() {
    assert_eq!(AssetId::from_hash(12345).value(), 12345);
    assert_eq!(AssetId::from_hash(0), AssetId(0));
    assert_eq!(AssetId::from_hash(u64::MAX).value(), u64::MAX);
    // The content decides, not the buffer it sits in.
    let owned: Vec<u8> = b"test content".to_vec();
    assert_eq!(AssetId::from_content(&owned), AssetId::from_content(b"test content"));
    assert_ne!(AssetId::from_content(b""), AssetId::from_content(b"\0"));
    // An identifier is a hash of the content, not the content.
    assert_ne!(AssetId::from_content(&7u64.to_le_bytes()).value(), 7);
}

#[test]
fn extensions_of_every_asset_type() {
    assert_eq!(AssetType::Texture.extensions(), vec!["png", "jpg", "jpeg", "tga", "exr", "hdr"]);
    assert_eq!(AssetType::Mesh.extensions(), vec!["gltf", "glb", "fbx", "obj"]);
    assert_eq!(AssetType::Animation.extensions(), vec!["gltf", "glb", "fbx"]);
    assert_eq!(AssetType::Audio.extensions(), vec!["wav", "ogg", "mp3", "flac"]);
    assert_eq!(AssetType::Material.extensions(), vec!["omat"]);
    assert_eq!(AssetType::Shader.extensions(), vec!["wgsl", "glsl", "hlsl"]);
    assert_eq!(AssetType::Prefab.extensions(), vec!["opfb"]);
    assert_eq!(AssetType::Scene.extensions(), vec!["oscn"]);
    assert_eq!(AssetType::Font.extensions(), vec!["ttf", "otf"]);
    assert_eq!(AssetType::Script.extensions(), vec!["wasm", "lua"]);
    assert_eq!(AssetType::Data.extensions(), vec!["json", "toml", "yaml"]);
}

#[test]
fn cooker_and_settings() {
    let cooker = AssetCooker::new(TargetPlatform::Android, PathBuf::from("out"));
    assert_eq!(cooker.platform, TargetPlatform::Android);
    assert_eq!(cooker.output_dir, PathBuf::from("out"));
    assert!(cooker.compress);
    let meta = AssetMeta {
        id: AssetId(12345),
        name: String::from("Test"),
        asset_type: AssetType::Texture,
        source_path: PathBuf::from("textures/test.png"),
        content_hash: 0,
        dependencies: Vec::new(),
        modified_time: 0,
        settings_hash: 0,
    };
    let cooked = cooker.cook(&meta, b"pixels");
    assert!(matches!(cooked, Ok(ref data) if data.is_empty()));
    let copy = meta.clone();
    assert_eq!(copy.source_path, meta.source_path);
    let settings = TextureImportSettings::default();
    assert!(settings.generate_mips);
    assert!(settings.srgb);
    assert_eq!(settings.compression, TextureCompression::Auto);
    assert_eq!(settings.max_size, 4096);
}
