//! Typed parameter values and the generic (identifier, value) pair.
//!
//! Float-valued fields hold the IEEE 754 bit pattern of the 32-bit float as
//! a `u32`, so every value is plain data; callers convert with
//! `f32::to_bits` and `f32::from_bits` at the boundary.

use vstd::prelude::*;

verus! {

/// Bit pattern of the 32-bit float 1.0.
pub const F32_ONE_BITS: u32 = 0x3F80_0000;

/// Bit pattern of the 32-bit float 0.4.
pub const F32_ZERO_POINT_FOUR_BITS: u32 = 0x3ECC_CCCD;

/// A source or destination factor of the blending equation.
#[derive(Debug, Clone, Copy, PartialEq, Eq)]
pub enum BlendFactor {
    Zero,
    One,
    SourceAlpha,
    DestinationAlpha,
    SourceColor,
    DestinationColor,
    OneMinusSourceAlpha,
    OneMinusDestinationAlpha,
    OneMinusSourceColor,
    OneMinusDestinationColor,
    SourceAlphaSaturate,
}

/// How source and destination are combined when blending.
#[derive(Debug, Clone, Copy, PartialEq, Eq)]
pub enum BlendOperation {
    Add,
    Subtract,
    ReverseSubtract,
    Minimum,
    Maximum,
}

/// How texture coordinates outside the 0 to 1 range are sampled.
#[derive(Debug, Clone, Copy, PartialEq, Eq)]
pub enum WrapMode {
    Repeat,
    ClampToEdge,
    MirroredRepeat,
    ClampToBorder,
}

/// The minification filter of a sampler.
#[derive(Debug, Clone, Copy, PartialEq, Eq)]
pub enum MinFilter {
    Nearest,
    LinearMipmapLinear,
    LinearMipmapLinear2,
}

/// The magnification filter of a sampler.
#[derive(Debug, Clone, Copy, PartialEq, Eq)]
pub enum MagFilter {
    Nearest,
    Linear,
    Linear2,
}

/// The amount of anisotropic filtering of a sampler.
#[derive(Debug, Clone, Copy, PartialEq, Eq)]
pub enum MaxAnisotropy {
    One,
    Two,
    Four,
    Eight,
    Sixteen,
}

/// Whether polygons are drawn filled or as wireframe.
#[derive(Debug, Clone, Copy, PartialEq, Eq)]
pub enum FillMode {
    Line,
    Solid,
}

/// Which faces are culled before rasterization.
#[derive(Debug, Clone, Copy, PartialEq, Eq)]
pub enum CullMode {
    Back,
    Front,
    Disabled,
}

/// An RGBA color; each channel holds the bit pattern of a 32-bit float.
#[derive(Debug, Clone, Copy, PartialEq, Eq)]
pub struct Color4f {
    pub r: u32,
    pub g: u32,
    pub b: u32,
    pub a: u32,
}

/// A four-component vector; each component holds the bit pattern of a
/// 32-bit float.
#[derive(Debug, Clone, Copy, PartialEq, Eq)]
pub struct Vector4 {
    pub x: u32,
    pub y: u32,
    pub z: u32,
    pub w: u32,
}

/// The value of a blend state parameter.
#[derive(Debug, Clone, Copy, PartialEq, Eq)]
pub struct BlendStateData {
    pub source_color: BlendFactor,
    pub color_operation: BlendOperation,
    pub destination_color: BlendFactor,
    pub source_alpha: BlendFactor,
    pub alpha_operation: BlendOperation,
    pub destination_alpha: BlendFactor,
    pub alpha_sample_to_coverage: bool,
}

/// The value of a rasterizer state parameter. `depth_bias` holds the bit
/// pattern of a 32-bit float.
#[derive(Debug, Clone, Copy, PartialEq, Eq)]
pub struct RasterizerStateData {
    pub fill_mode: FillMode,
    pub cull_mode: CullMode,
    pub depth_bias: u32,
}

/// The value of a sampler parameter. `lod_bias` holds the bit pattern of a
/// 32-bit float.
#[derive(Debug, Clone, Copy, PartialEq, Eq)]
pub struct SamplerData {
    pub wraps: WrapMode,
    pub wrapt: WrapMode,
    pub wrapr: WrapMode,
    pub min_filter: MinFilter,
    pub mag_filter: MagFilter,
    pub border_color: Color4f,
    pub lod_bias: u32,
    pub max_anisotropy: MaxAnisotropy,
}

/// The zero vector.
pub open spec fn vector4_default() -> Vector4 {
    Vector4 { x: 0, y: 0, z: 0, w: 0 }
}

/// The vector with every component 1.0.
pub open spec fn vector4_one() -> Vector4 {
    Vector4 { x: F32_ONE_BITS, y: F32_ONE_BITS, z: F32_ONE_BITS, w: F32_ONE_BITS }
}

/// The vector with every component 1.0.
pub fn vector4_one_exec() -> (r: Vector4)
    ensures
        r == vector4_one(),
{
    Vector4 { x: F32_ONE_BITS, y: F32_ONE_BITS, z: F32_ONE_BITS, w: F32_ONE_BITS }
}

/// The fully transparent black border color.
pub open spec fn color4f_default() -> Color4f {
    Color4f { r: 0, g: 0, b: 0, a: 0 }
}

/// The blend state with no alpha blending.
pub open spec fn blend_state_default() -> BlendStateData {
    BlendStateData {
        source_color: BlendFactor::One,
        color_operation: BlendOperation::Add,
        destination_color: BlendFactor::Zero,
        source_alpha: BlendFactor::One,
        alpha_operation: BlendOperation::Add,
        destination_alpha: BlendFactor::Zero,
        alpha_sample_to_coverage: false,
    }
}

/// The rasterizer state for solid shading with back-face culling.
pub open spec fn rasterizer_state_default() -> RasterizerStateData {
    RasterizerStateData { fill_mode: FillMode::Solid, cull_mode: CullMode::Back, depth_bias: 0 }
}

/// The sampler with standard filtering, edge clamping and no anisotropy.
pub open spec fn sampler_default() -> SamplerData {
    SamplerData {
        wraps: WrapMode::ClampToEdge,
        wrapt: WrapMode::ClampToEdge,
        wrapr: WrapMode::ClampToEdge,
        min_filter: MinFilter::LinearMipmapLinear,
        mag_filter: MagFilter::Linear,
        border_color: color4f_default(),
        lod_bias: 0,
        max_anisotropy: MaxAnisotropy::One,
    }
}

impl Default for Vector4 {
    /// The zero vector.
    fn default() -> (r: Self)
        ensures
            r == vector4_default(),
    {
        Vector4 { x: 0, y: 0, z: 0, w: 0 }
    }
}

impl Default for Color4f {
    /// The fully transparent black color.
    fn default() -> (r: Self)
        ensures
            r == color4f_default(),
    {
        Color4f { r: 0, g: 0, b: 0, a: 0 }
    }
}

impl Default for BlendStateData {
    /// No alpha blending.
    fn default() -> (r: Self)
        ensures
            r == blend_state_default(),
    {
        BlendStateData {
            source_color: BlendFactor::One,
            color_operation: BlendOperation::Add,
            destination_color: BlendFactor::Zero,
            source_alpha: BlendFactor::One,
            alpha_operation: BlendOperation::Add,
            destination_alpha: BlendFactor::Zero,
            alpha_sample_to_coverage: false,
        }
    }
}

impl Default for RasterizerStateData {
    /// Solid shading with back-face culling.
    fn default() -> (r: Self)
        ensures
            r == rasterizer_state_default(),
    {
        RasterizerStateData {
            fill_mode: FillMode::Solid,
            cull_mode: CullMode::Back,
            depth_bias: 0,
        }
    }
}

impl Default for SamplerData {
    /// Standard filtering with edge clamping, no anisotropic filtering.
    fn default() -> (r: Self)
        ensures
            r == sampler_default(),
    {
        SamplerData {
            wraps: WrapMode::ClampToEdge,
            wrapt: WrapMode::ClampToEdge,
            wrapr: WrapMode::ClampToEdge,
            min_filter: MinFilter::LinearMipmapLinear,
            mag_filter: MagFilter::Linear,
            border_color: Color4f { r: 0, g: 0, b: 0, a: 0 },
            lod_bias: 0,
            max_anisotropy: MaxAnisotropy::One,
        }
    }
}

/// One material parameter: a slot identifier paired with its value.
#[derive(Debug, Clone, Copy, PartialEq)]
pub struct Param<T> {
    pub param_id: crate::param_id::ParamId,
    pub data: T,
}

/// A blend state parameter.
pub type BlendStateParam = Param<BlendStateData>;

/// A float parameter; the value holds the bit pattern of a 32-bit float.
pub type FloatParam = Param<u32>;

/// A boolean parameter.
pub type BooleanParam = Param<bool>;

/// A four-component vector parameter.
pub type Vector4Param = Param<Vector4>;

/// A rasterizer state parameter.
pub type RasterizerStateParam = Param<RasterizerStateData>;

/// A sampler parameter.
pub type SamplerParam = Param<SamplerData>;

/// A texture parameter; the value is the texture path.
pub type TextureParam = Param<String>;

} // verus!
