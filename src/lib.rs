use vstd::prelude::*;

pub mod diagnostic;
pub mod filter;
pub mod keyed;
pub mod sampling;
pub mod source;
pub mod stage;
pub mod view;

pub use diagnostic::{parse_error_message, ShaderDiagnostic, ShaderKind};
pub use filter::{Filter, ShaderFragment, StageInput, UniformSource};
pub use sampling::{BufferFormat, BufferPrecision, InputSampler, MagnifyFilter, MinifyFilter, SamplerFilters};
pub use stage::{RenderStageConfig, Stage, VariableBinding};
pub use view::{DrawPlan, RenderBuffer, ShaderView};

verus! {

/// Pixels read back from a texture, row by row, with their dimensions.
pub struct RGBAImageData {
    pub data: Vec<(u8, u8, u8, u8)>,
    pub width: u32,
    pub height: u32,
}

impl RGBAImageData {
    /// Wraps pixel data read back from the GPU.
    pub fn from_raw(data: Vec<(u8, u8, u8, u8)>, width: u32, height: u32) -> (r: Self)
        ensures
            r.data@ == data@,
            r.width == width,
            r.height == height,
    {
        RGBAImageData { data, width, height }
    }
}

} // verus!
