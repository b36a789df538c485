//! Render pipeline state.

use vstd::prelude::*;

verus! {

/// Pipeline state.
#[derive(Debug, Clone)]
pub struct PipelineState {
    /// Blend state.
    pub blend: BlendState,
    /// Depth state.
    pub depth: DepthState,
    /// Rasterizer state.
    pub rasterizer: RasterizerState,
}

/// Blend state.
#[derive(Debug, Clone, Copy, PartialEq, Eq, Structural)]
pub enum BlendState {
    Opaque,
    AlphaBlend,
    Additive,
    Multiply,
}

impl Default for BlendState {
    /// The default is `Opaque`.
    fn default() -> (v: BlendState)
        ensures
            v == BlendState::Opaque,
    {
        BlendState::Opaque
    }
}

/// Depth state.
#[derive(Debug, Clone)]
pub struct DepthState {
    /// Whether the depth test is on.
    pub test: bool,
    /// Whether depth is written.
    pub write: bool,
    /// The comparison of the depth test.
    pub compare: CompareFunction,
}

impl Default for DepthState {
    /// Test and write depth, nearer fragments win.
    fn default() -> (d: DepthState)
        ensures
            d.test,
            d.write,
            d.compare == CompareFunction::Less,
    {
        DepthState { test: true, write: true, compare: CompareFunction::Less }
    }
}

/// Compare function.
#[derive(Debug, Clone, Copy, PartialEq, Eq, Structural)]
pub enum CompareFunction {
    Never,
    Less,
    Equal,
    LessEqual,
    Greater,
    NotEqual,
    GreaterEqual,
    Always,
}

impl Default for CompareFunction {
    /// The default is `Less`.
    fn default() -> (v: CompareFunction)
        ensures
            v == CompareFunction::Less,
    {
        CompareFunction::Less
    }
}

/// Rasterizer state.
#[derive(Debug, Clone)]
pub struct RasterizerState {
    /// Which faces are culled.
    pub cull_mode: CullMode,
    /// How triangles are filled.
    pub fill_mode: FillMode,
    /// Which winding is the front.
    pub front_face: FrontFace,
}

impl Default for RasterizerState {
    /// Cull back faces of solid, counter-clockwise triangles.
    fn default() -> (r: RasterizerState)
        ensures
            r.cull_mode == CullMode::Back,
            r.fill_mode == FillMode::Solid,
            r.front_face == FrontFace::CounterClockwise,
    {
        RasterizerState {
            cull_mode: CullMode::Back,
            fill_mode: FillMode::Solid,
            front_face: FrontFace::CounterClockwise,
        }
    }
}

/// Cull mode.
#[derive(Debug, Clone, Copy, PartialEq, Eq, Structural)]
pub enum CullMode {
    /// No face is culled.
    Off,
    Front,
    Back,
}

impl Default for CullMode {
    /// The default is `Back`.
    fn default() -> (v: CullMode)
        ensures
            v == CullMode::Back,
    {
        CullMode::Back
    }
}

/// Fill mode.
#[derive(Debug, Clone, Copy, PartialEq, Eq, Structural)]
pub enum FillMode {
    Solid,
    Wireframe,
}

impl Default for FillMode {
    /// The default is `Solid`.
    fn default() -> (v: FillMode)
        ensures
            v == FillMode::Solid,
    {
        FillMode::Solid
    }
}

/// Front face winding.
#[derive(Debug, Clone, Copy, PartialEq, Eq, Structural)]
pub enum FrontFace {
    Clockwise,
    CounterClockwise,
}

impl Default for FrontFace {
    /// The default is `CounterClockwise`.
    fn default() -> (v: FrontFace)
        ensures
            v == FrontFace::CounterClockwise,
    {
        FrontFace::CounterClockwise
    }
}

impl Default for PipelineState {
    /// Opaque blending with the default depth and rasterizer states.
    fn default() -> (s: PipelineState)
        ensures
            s.blend == BlendState::Opaque,
            s.depth.test,
            s.depth.write,
            s.depth.compare == CompareFunction::Less,
            s.rasterizer.cull_mode == CullMode::Back,
            s.rasterizer.fill_mode == FillMode::Solid,
            s.rasterizer.front_face == FrontFace::CounterClockwise,
    {
        PipelineState {
            blend: BlendState::default(),
            depth: DepthState::default(),
            rasterizer: RasterizerState::default(),
        }
    }
}

} // verus!
