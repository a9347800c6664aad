use vstd::prelude::*;

verus! {

/// Filter used when a texture is sampled at a smaller size than it has.
#[derive(Clone, Copy, Debug, PartialEq, Eq, Structural)]
pub enum MinifyFilter {
    Nearest,
    Linear,
    LinearMipmapLinear,
}

/// Filter used when a texture is sampled at a larger size than it has.
#[derive(Clone, Copy, Debug, PartialEq, Eq, Structural)]
pub enum MagnifyFilter {
    Nearest,
    Linear,
}

/// The pair of filters a sampler is bound with.
#[derive(Clone, Copy, Debug, PartialEq, Eq, Structural)]
pub struct SamplerFilters {
    pub minify: MinifyFilter,
    pub magnify: MagnifyFilter,
}

/// How a named input of a stage is sampled, together with the name of its source.
#[derive(Clone, Debug)]
pub enum InputSampler {
    Nearest(String),
    Linear(String),
    Mipmaps(String),
}

impl InputSampler {
    pub open spec fn source(&self) -> Seq<char> {
        match self {
            InputSampler::Nearest(n) => n@,
            InputSampler::Linear(n) => n@,
            InputSampler::Mipmaps(n) => n@,
        }
    }

    pub open spec fn spec_filters(&self) -> SamplerFilters {
        match self {
            InputSampler::Nearest(_) => SamplerFilters {
                minify: MinifyFilter::Nearest,
                magnify: MagnifyFilter::Nearest,
            },
            InputSampler::Linear(_) => SamplerFilters {
                minify: MinifyFilter::Linear,
                magnify: MagnifyFilter::Linear,
            },
            InputSampler::Mipmaps(_) => SamplerFilters {
                minify: MinifyFilter::LinearMipmapLinear,
                magnify: MagnifyFilter::Linear,
            },
        }
    }

    /// The name of the stage output or environment value this input reads.
    pub fn source_name(&self) -> (r: &String)
        ensures
            r@ == self.source(),
    {
        match self {
            InputSampler::Nearest(n) => n,
            InputSampler::Linear(n) => n,
            InputSampler::Mipmaps(n) => n,
        }
    }

    /// The minify and magnify filters this sampling mode stands for.
    pub fn filters(&self) -> (r: SamplerFilters)
        ensures
            r == self.spec_filters(),
    {
        match self {
            InputSampler::Nearest(_) => SamplerFilters {
                minify: MinifyFilter::Nearest,
                magnify: MagnifyFilter::Nearest,
            },
            InputSampler::Linear(_) => SamplerFilters {
                minify: MinifyFilter::Linear,
                magnify: MagnifyFilter::Linear,
            },
            InputSampler::Mipmaps(_) => SamplerFilters {
                minify: MinifyFilter::LinearMipmapLinear,
                magnify: MagnifyFilter::Linear,
            },
        }
    }

    /// Whether the source must carry mipmaps to be sampled this way.
    pub fn uses_mipmaps(&self) -> (r: bool)
        ensures
            r == (self is Mipmaps),
    {
        matches!(self, InputSampler::Mipmaps(_))
    }
}

/// Precision of the channels of a stage's render buffers.
#[derive(Clone, Copy, Debug, PartialEq, Eq, Structural)]
pub enum BufferPrecision {
    U8,
    F16,
    F32,
}

/// Texture format a render buffer is allocated with.
#[derive(Clone, Copy, Debug, PartialEq, Eq, Structural)]
pub enum BufferFormat {
    U8U8U8U8,
    F16F16F16F16,
    F32F32F32F32,
}

pub open spec fn spec_format_of(precision: BufferPrecision) -> BufferFormat {
    match precision {
        BufferPrecision::U8 => BufferFormat::U8U8U8U8,
        BufferPrecision::F16 => BufferFormat::F16F16F16F16,
        BufferPrecision::F32 => BufferFormat::F32F32F32F32,
    }
}

/// The four-channel format that holds channels of the given precision.
pub fn buffer_format_of(precision: BufferPrecision) -> (r: BufferFormat)
    ensures
        r == spec_format_of(precision),
{
    match precision {
        BufferPrecision::U8 => BufferFormat::U8U8U8U8,
        BufferPrecision::F16 => BufferFormat::F16F16F16F16,
        BufferPrecision::F32 => BufferFormat::F32F32F32F32,
    }
}

} // verus!
