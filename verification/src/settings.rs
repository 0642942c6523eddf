//! From the options of a run to the settings that the encoders take.

use vstd::prelude::*;
use caesium::parameters::ChromaSubsampling as JpegSampling;
use caesium::parameters::TiffCompression as TiffPacking;
use caesium::parameters::TiffDeflateLevel as TiffEffort;
use caesium::parameters::{
    CSParameters, GifParameters, JpegParameters, PngParameters, TiffParameters, WebPParameters,
};
use caesium::SupportedFileTypes;
use crate::codec::default_parameters;
use crate::options::{
    ChromaSubsampling, CliOptions, GifParams, JpegParams, OutputFormatTypes, PngParams,
    TiffCompression, TiffDeflateLevel, TiffParams, WebPParams,
};

verus! {

/// The format of the encoders that stands for `v`.
pub open spec fn file_type_of(v: OutputFormatTypes) -> SupportedFileTypes {
    match v {
        OutputFormatTypes::Jpeg => SupportedFileTypes::Jpeg,
        OutputFormatTypes::Png => SupportedFileTypes::Png,
        OutputFormatTypes::Gif => SupportedFileTypes::Gif,
        OutputFormatTypes::WebP => SupportedFileTypes::WebP,
        OutputFormatTypes::Tiff => SupportedFileTypes::Tiff,
    }
}

/// The sampling of the JPEG encoder that stands for `v`.
pub open spec fn sampling_of(v: ChromaSubsampling) -> JpegSampling {
    match v {
        ChromaSubsampling::CS444 => JpegSampling::CS444,
        ChromaSubsampling::CS422 => JpegSampling::CS422,
        ChromaSubsampling::CS420 => JpegSampling::CS420,
        ChromaSubsampling::CS411 => JpegSampling::CS411,
        ChromaSubsampling::Auto => JpegSampling::Auto,
    }
}

/// The packing of the TIFF encoder that stands for `v`.
pub open spec fn packing_of(v: TiffCompression) -> TiffPacking {
    match v {
        TiffCompression::Uncompressed => TiffPacking::Uncompressed,
        TiffCompression::Lzw => TiffPacking::Lzw,
        TiffCompression::Deflate => TiffPacking::Deflate,
        TiffCompression::Packbits => TiffPacking::Packbits,
    }
}

/// The deflate level of the TIFF encoder that stands for `v`.
pub open spec fn effort_of(v: TiffDeflateLevel) -> TiffEffort {
    match v {
        TiffDeflateLevel::Fast => TiffEffort::Fast,
        TiffDeflateLevel::Balanced => TiffEffort::Balanced,
        TiffDeflateLevel::Best => TiffEffort::Best,
    }
}

pub open spec fn jpeg_of(v: JpegParams) -> JpegParameters {
    JpegParameters {
        quality: v.quality,
        chroma_subsampling: sampling_of(v.chroma_subsampling),
        progressive: v.progressive,
    }
}

pub open spec fn png_of(v: PngParams) -> PngParameters {
    PngParameters {
        quality: v.quality,
        force_zopfli: v.force_zopfli,
        optimization_level: v.optimization_level,
    }
}

pub open spec fn tiff_of(v: TiffParams) -> TiffParameters {
    TiffParameters { algorithm: packing_of(v.algorithm), deflate_level: effort_of(v.deflate_level) }
}

/// The settings of the encoders for a run with the options `o`: what the options
/// give for a format replaces what the encoder would take by itself, `keep_metadata`
/// and `lossless` are handed on, and no target size is set.
pub open spec fn parameters_of(o: CliOptions) -> CSParameters {
    CSParameters {
        jpeg: match o.jpeg_params {
            Some(p) => jpeg_of(p),
            None => default_parameters().jpeg,
        },
        png: match o.png_params {
            Some(p) => png_of(p),
            None => default_parameters().png,
        },
        gif: match o.gif_params {
            Some(p) => GifParameters { quality: p.quality },
            None => default_parameters().gif,
        },
        webp: match o.webp_params {
            Some(p) => WebPParameters { quality: p.quality },
            None => default_parameters().webp,
        },
        tiff: match o.tiff_params {
            Some(p) => tiff_of(p),
            None => default_parameters().tiff,
        },
        keep_metadata: o.keep_metadata,
        optimize: o.lossless,
        width: 0,
        height: 0,
    }
}

impl OutputFormatTypes {
    /// The format as the encoders name it.
    pub fn file_type(self) -> (r: SupportedFileTypes)
        ensures
            r == file_type_of(self),
    {
        match self {
            OutputFormatTypes::Jpeg => SupportedFileTypes::Jpeg,
            OutputFormatTypes::Png => SupportedFileTypes::Png,
            OutputFormatTypes::Gif => SupportedFileTypes::Gif,
            OutputFormatTypes::WebP => SupportedFileTypes::WebP,
            OutputFormatTypes::Tiff => SupportedFileTypes::Tiff,
        }
    }
}

impl ChromaSubsampling {
    /// The sampling as the JPEG encoder names it.
    pub fn sampling(self) -> (r: JpegSampling)
        ensures
            r == sampling_of(self),
    {
        match self {
            ChromaSubsampling::CS444 => JpegSampling::CS444,
            ChromaSubsampling::CS422 => JpegSampling::CS422,
            ChromaSubsampling::CS420 => JpegSampling::CS420,
            ChromaSubsampling::CS411 => JpegSampling::CS411,
            ChromaSubsampling::Auto => JpegSampling::Auto,
        }
    }
}

impl TiffCompression {
    /// The packing as the TIFF encoder names it.
    pub fn packing(self) -> (r: TiffPacking)
        ensures
            r == packing_of(self),
    {
        match self {
            TiffCompression::Uncompressed => TiffPacking::Uncompressed,
            TiffCompression::Lzw => TiffPacking::Lzw,
            TiffCompression::Deflate => TiffPacking::Deflate,
            TiffCompression::Packbits => TiffPacking::Packbits,
        }
    }
}

impl TiffDeflateLevel {
    /// The level as the TIFF encoder names it.
    pub fn effort(self) -> (r: TiffEffort)
        ensures
            r == effort_of(self),
    {
        match self {
            TiffDeflateLevel::Fast => TiffEffort::Fast,
            TiffDeflateLevel::Balanced => TiffEffort::Balanced,
            TiffDeflateLevel::Best => TiffEffort::Best,
        }
    }
}

impl JpegParams {
    /// The settings as the JPEG encoder takes them.
    pub fn parameters(&self) -> (r: JpegParameters)
        ensures
            r == jpeg_of(*self),
    {
        JpegParameters {
            quality: self.quality,
            chroma_subsampling: self.chroma_subsampling.sampling(),
            progressive: self.progressive,
        }
    }
}

impl PngParams {
    /// The settings as the PNG encoder takes them.
    pub fn parameters(&self) -> (r: PngParameters)
        ensures
            r == png_of(*self),
    {
        PngParameters {
            quality: self.quality,
            force_zopfli: self.force_zopfli,
            optimization_level: self.optimization_level,
        }
    }
}

impl GifParams {
    /// The settings as the GIF encoder takes them.
    pub fn parameters(&self) -> (r: GifParameters)
        ensures
            r == (GifParameters { quality: self.quality }),
    {
        GifParameters { quality: self.quality }
    }
}

impl WebPParams {
    /// The settings as the WebP encoder takes them.
    pub fn parameters(&self) -> (r: WebPParameters)
        ensures
            r == (WebPParameters { quality: self.quality }),
    {
        WebPParameters { quality: self.quality }
    }
}

impl TiffParams {
    /// The settings as the TIFF encoder takes them.
    pub fn parameters(&self) -> (r: TiffParameters)
        ensures
            r == tiff_of(*self),
    {
        TiffParameters {
            algorithm: self.algorithm.packing(),
            deflate_level: self.deflate_level.effort(),
        }
    }
}

impl CliOptions {
    /// The settings of the encoders for a run with these options.
    pub fn parameters(&self) -> (r: CSParameters)
        ensures
            r == parameters_of(*self),
    {
        let mut cs_params = CSParameters::new();
        if let Some(params) = &self.jpeg_params {
            cs_params.jpeg = params.parameters();
        }
        if let Some(params) = &self.png_params {
            cs_params.png = params.parameters();
        }
        if let Some(params) = &self.gif_params {
            cs_params.gif = params.parameters();
        }
        if let Some(params) = &self.webp_params {
            cs_params.webp = params.parameters();
        }
        if let Some(params) = &self.tiff_params {
            cs_params.tiff = params.parameters();
        }
        cs_params.keep_metadata = self.keep_metadata;
        cs_params.optimize = self.lossless;
        cs_params
    }
}

} // verus!
