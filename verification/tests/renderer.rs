use odeza::animation::CompareOp;
use odeza::editor::{BuildConfiguration, DebugView, GizmoMode, GizmoSpace};
use odeza::physics::RigidBodyType;
use odeza::renderer::lighting::LightingConfig;
use odeza::renderer::material::{AlphaMode, ShaderType};
use odeza::renderer::pipeline::{
    BlendState, CompareFunction, CullMode, DepthState, FillMode, FrontFace, PipelineState,
    RasterizerState,
};
use odeza::renderer::post::ToneMapper;
use odeza::renderer::raytracing::{reflection_fallback, shadow_fallback, FallbackMode};
use odeza::renderer::texture::{StreamingPriority, VirtualTextureConfig};
use odeza::renderer::volumetric::{VolumeBlendMode, VolumetricShadowQuality};

#[test]
fn test_pipeline_state_default() {
    let state = PipelineState::default();
    assert_eq!(state.blend, BlendState::Opaque);
    assert!(state.depth.test);
}

#[test]
fn test_rt_fallbacks() {
    assert_eq!(reflection_fallback(false, true), FallbackMode::ScreenSpace);
    assert_eq!(reflection_fallback(false, false), FallbackMode::Probes);
}

#[test]
fn test_vt_config() {
    let config = VirtualTextureConfig::default();
    assert_eq!(config.page_size, 128);
}

#[test]
fn fallbacks_with_ray_tracing() {
    assert_eq!(reflection_fallback(true, true), FallbackMode::ScreenSpace);
    assert_eq!(reflection_fallback(true, false), FallbackMode::ScreenSpace);
    assert_eq!(shadow_fallback(true), FallbackMode::ShadowMaps);
    assert_eq!(shadow_fallback(false), FallbackMode::ShadowMaps);
}

#[test]
fn pipeline_defaults_in_full() {
    let state = PipelineState::default();
    assert!(state.depth.write);
    assert_eq!(state.depth.compare, CompareFunction::Less);
    assert_eq!(state.rasterizer.cull_mode, CullMode::Back);
    assert_eq!(state.rasterizer.fill_mode, FillMode::Solid);
    assert_eq!(state.rasterizer.front_face, FrontFace::CounterClockwise);
    assert_eq!(BlendState::default(), BlendState::Opaque);
    assert_eq!(CompareFunction::default(), CompareFunction::Less);
    assert_eq!(CullMode::default(), CullMode::Back);
    assert_eq!(FillMode::default(), FillMode::Solid);
    assert_eq!(FrontFace::default(), FrontFace::CounterClockwise);
    assert!(DepthState::default().test);
    assert_eq!(RasterizerState::default().cull_mode, CullMode::Back);
}

#[test]
fn virtual_texture_and_lighting_defaults() {
    let vt = VirtualTextureConfig::default();
    assert_eq!((vt.cache_size, vt.max_mip, vt.feedback_divisor), (1024, 12, 8));
    assert!(StreamingPriority::Low < StreamingPriority::Critical);
    let lighting = LightingConfig::default();
    assert_eq!(lighting.max_lights_per_cluster, 32);
    assert_eq!(lighting.max_volumetric_lights, 4);
    assert_eq!(lighting.cluster_grid, [16, 8, 24]);
    assert!(lighting.clustered);
}

#[test]
fn shadow_ray_counts() {
    assert_eq!(VolumetricShadowQuality::Off.ray_count(), 0);
    assert_eq!(VolumetricShadowQuality::Low.ray_count(), 4);
    assert_eq!(VolumetricShadowQuality::Medium.ray_count(), 8);
    assert_eq!(VolumetricShadowQuality::High.ray_count(), 16);
}

#[test]
fn enum_defaults() {
    assert_eq!(VolumeBlendMode::default(), VolumeBlendMode::Additive);
    assert_eq!(AlphaMode::default(), AlphaMode::Opaque);
    assert_eq!(ToneMapper::default(), ToneMapper::ACES);
    assert_eq!(RigidBodyType::default(), RigidBodyType::Dynamic);
    assert_eq!(GizmoMode::default(), GizmoMode::Translate);
    assert_eq!(GizmoSpace::default(), GizmoSpace::World);
    assert_eq!(DebugView::default(), DebugView::Off);
    assert_eq!(BuildConfiguration::default(), BuildConfiguration::Development);
    assert_ne!(ShaderType::Custom(1), ShaderType::Custom(2));
    assert_ne!(CompareOp::Less, CompareOp::LessEqual);
}
