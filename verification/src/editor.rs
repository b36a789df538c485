//! Editor: panes, gizmos, debug views and build settings.

use vstd::prelude::*;
use std::path::PathBuf;

verus! {

/// The panes of the editor.
#[derive(Debug, Clone, Copy, PartialEq, Eq, Hash, Structural)]
pub enum PaneType {
    Viewport,
    Outliner,
    Inspector,
    ContentBrowser,
    Console,
    Profiler,
    MaterialEditor,
    AnimationGraph,
    BuildWindow,
}

/// What the transform gizmo changes.
#[derive(Debug, Clone, Copy, PartialEq, Eq, Structural)]
pub enum GizmoMode {
    Translate,
    Rotate,
    Scale,
}

impl Default for GizmoMode {
    /// The default is `Translate`.
    fn default() -> (v: GizmoMode)
        ensures
            v == GizmoMode::Translate,
    {
        GizmoMode::Translate
    }
}

/// The space in which the gizmo works.
#[derive(Debug, Clone, Copy, PartialEq, Eq, Structural)]
pub enum GizmoSpace {
    World,
    Local,
}

impl Default for GizmoSpace {
    /// The default is `World`.
    fn default() -> (v: GizmoSpace)
        ensures
            v == GizmoSpace::World,
    {
        GizmoSpace::World
    }
}

/// Debug visualisations of the viewport.
#[derive(Debug, Clone, Copy, PartialEq, Eq, Structural)]
pub enum DebugView {
    /// No debug view.
    Off,
    Wireframe,
    Overdraw,
    LightingOnly,
    RayTracingDebug,
    VirtualTextureTiles,
    StreamingCells,
}

impl Default for DebugView {
    /// The default is `Off`.
    fn default() -> (v: DebugView)
        ensures
            v == DebugView::Off,
    {
        DebugView::Off
    }
}

/// Platforms that a project can be built for.
#[derive(Debug, Clone, Copy, PartialEq, Eq, Structural)]
pub enum TargetPlatform {
    Android,
    Ios,
    Windows,
    Linux,
}

/// Build configurations.
#[derive(Debug, Clone, Copy, PartialEq, Eq, Structural)]
pub enum BuildConfiguration {
    Debug,
    Development,
    Shipping,
}

impl Default for BuildConfiguration {
    /// The default is `Development`.
    fn default() -> (v: BuildConfiguration)
        ensures
            v == BuildConfiguration::Development,
    {
        BuildConfiguration::Development
    }
}

/// A project opened in the editor.
#[derive(Debug, Clone)]
pub struct EditorProject {
    /// Project name.
    pub name: String,
    /// Project directory.
    pub path: PathBuf,
    /// The platforms the project is built for.
    pub target_platforms: Vec<TargetPlatform>,
}

/// Settings of one build.
#[derive(Debug, Clone)]
pub struct BuildConfig {
    /// Platform to build for.
    pub platform: TargetPlatform,
    /// Build configuration.
    pub configuration: BuildConfiguration,
    /// Where the build goes.
    pub output_path: PathBuf,
    /// Whether assets are compressed.
    pub compress_assets: bool,
    /// Whether debug information is stripped.
    pub strip_debug: bool,
}

} // verus!
