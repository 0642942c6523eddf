//! What the library takes from the crates it is linked with: the encoders of
//! `caesium` with their settings and their error, and the size probe of `imagesize`.
//!
//! The settings and the error are plain data with public fields only. They are
//! declared here as they are declared there, fields and variants included, so
//! that what the library hands to an encoder and reads of its error is proved.

use vstd::prelude::*;
use caesium::error::CaesiumError;
use caesium::parameters::ChromaSubsampling as JpegSampling;
use caesium::parameters::TiffCompression as TiffPacking;
use caesium::parameters::TiffDeflateLevel as TiffEffort;
use caesium::parameters::{
    CSParameters, GifParameters, JpegParameters, PngParameters, TiffParameters, WebPParameters,
};
use caesium::SupportedFileTypes;
use crate::error::ImageProcessError;
use crate::number::decimal;
use crate::resize::NaturalSize;

verus! {

/// `SupportedFileTypes` of `caesium`: the formats that its encoders know, and one
/// variant for data of no known format.
#[verifier::external_type_specification]
pub struct ExSupportedFileTypes(SupportedFileTypes);

/// `parameters::ChromaSubsampling` of `caesium`.
#[verifier::external_type_specification]
pub struct ExJpegSampling(JpegSampling);

/// `parameters::TiffCompression` of `caesium`.
#[verifier::external_type_specification]
pub struct ExTiffPacking(TiffPacking);

/// `parameters::TiffDeflateLevel` of `caesium`.
#[verifier::external_type_specification]
pub struct ExTiffEffort(TiffEffort);

/// `parameters::JpegParameters` of `caesium`, with its public fields.
#[verifier::external_type_specification]
pub struct ExJpegParameters(JpegParameters);

/// `parameters::PngParameters` of `caesium`, with its public fields.
#[verifier::external_type_specification]
pub struct ExPngParameters(PngParameters);

/// `parameters::GifParameters` of `caesium`, with its public field.
#[verifier::external_type_specification]
pub struct ExGifParameters(GifParameters);

/// `parameters::WebPParameters` of `caesium`, with its public field.
#[verifier::external_type_specification]
pub struct ExWebPParameters(WebPParameters);

/// `parameters::TiffParameters` of `caesium`, with its public fields.
#[verifier::external_type_specification]
pub struct ExTiffParameters(TiffParameters);

/// `parameters::CSParameters` of `caesium`, with its public fields: the settings
/// of each encoder, two switches, and the target size, where 0 leaves a side open.
#[verifier::external_type_specification]
pub struct ExCSParameters(CSParameters);

/// `error::CaesiumError` of `caesium`, with its public fields: a message and a
/// code.
#[verifier::external_type_specification]
pub struct ExCaesiumError(CaesiumError);

/// The code with which a conversion is refused because the image has the format
/// already.
pub const SAME_FORMAT: u32 = 10407;

/// The settings that `CSParameters::new` gives.
pub open spec fn default_parameters() -> CSParameters {
    CSParameters {
        jpeg: JpegParameters {
            quality: 80,
            chroma_subsampling: JpegSampling::Auto,
            progressive: true,
        },
        png: PngParameters { quality: 80, force_zopfli: false, optimization_level: 3 },
        gif: GifParameters { quality: 80 },
        webp: WebPParameters { quality: 80 },
        tiff: TiffParameters {
            algorithm: TiffPacking::Deflate,
            deflate_level: TiffEffort::Balanced,
        },
        keep_metadata: false,
        optimize: false,
        width: 0,
        height: 0,
    }
}

/// `CSParameters::new` of `caesium`. The contract states the value of each field as
/// the function sets it: quality 80 for every format, automatic chroma
/// subsampling, progressive JPEG, PNG optimisation level 3 without zopfli, TIFF
/// with balanced deflate, no metadata, no lossless mode, and no target size.
pub assume_specification[ CSParameters::new ]() -> (parameters: CSParameters)
    ensures
        parameters == default_parameters(),
;

/// The longest side that is asked of an encoder. The encoders resize an image
/// in buffers of up to sixteen bytes for a pixel, one of them as wide as the
/// image was and as high as it is to be, and give up where the length of such a
/// buffer is beyond what a vector holds, with addresses of 64 bits. Below this
/// length no side brings that about, not even with the other side left open.
pub const MAX_SIDE: u32 = 0x7ff_ffff;

/// Whether the target size of the settings is within `MAX_SIDE` on both sides.
pub open spec fn sides_within(parameters: CSParameters) -> bool {
    parameters.width <= MAX_SIDE && parameters.height <= MAX_SIDE
}

/// The longest side of an image that the WebP encoder takes.
pub const WEBP_MAX_SIDE: u32 = 16383;

/// The mark by which the encoders take data for a WebP image: the letters `WEBP`
/// from the ninth byte on.
pub open spec fn has_webp_mark(data: Seq<u8>) -> bool {
    data.len() > 11 && data[8] == 0x57 && data[9] == 0x45 && data[10] == 0x42 && data[11] == 0x50
}

/// Whether a side is one that the WebP encoder takes.
pub open spec fn is_webp_side(side: u32) -> bool {
    1 <= side <= WEBP_MAX_SIDE
}

/// `compress_in_memory` of `caesium`. Nothing is claimed of the bytes or of the
/// error that it gives. A target size beyond `MAX_SIDE` is left out, and so is
/// all data with the mark of WebP: for such data the function decodes the frames
/// of the image in a loop that does not end where a frame cannot be decoded, and
/// encodes with an encoder that gives up, rather than return an error, on sides
/// that the decoder still takes.
pub assume_specification[ caesium::compress_in_memory ](
    in_file: Vec<u8>,
    parameters: &CSParameters,
) -> caesium::error::Result<Vec<u8>>
    requires
        sides_within(*parameters),
        !has_webp_mark(in_file@),
;

/// `convert_in_memory` of `caesium`. Nothing is claimed of the bytes or of the
/// error that it gives. A target size beyond `MAX_SIDE` is left out. With WebP as
/// the target the function writes the image as WebP and then runs the WebP
/// encoder on that, which gives up, rather than return an error, on a quality
/// above 100 and on a side of 0 or above `WEBP_MAX_SIDE`. For that target the
/// quality must be at most 100 and both sides of the target must be given as
/// sides that the encoder takes: the image is then resized to just these sides,
/// whatever sides it had.
pub assume_specification[ caesium::convert_in_memory ](
    in_file: Vec<u8>,
    parameters: &CSParameters,
    format: SupportedFileTypes,
) -> Result<Vec<u8>, CaesiumError>
    requires
        sides_within(*parameters),
        format == SupportedFileTypes::WebP ==> parameters.webp.quality <= 100 && is_webp_side(
            parameters.width,
        ) && is_webp_side(parameters.height),
;

/// Whether `data` has the mark of a WebP image.
pub fn webp_marked(data: &Vec<u8>) -> (r: bool)
    ensures
        r == has_webp_mark(data@),
{
    data.len() > 11 && data[8] == 0x57 && data[9] == 0x45 && data[10] == 0x42 && data[11] == 0x50
}

/// How an error of the encoders reads: its message, then its code in square
/// brackets.
pub open spec fn error_text(message: Seq<char>, code: u32) -> Seq<char> {
    message + " ["@ + decimal(code as nat) + "]"@
}

/// The `Display` of `CaesiumError`, which writes the message, a space, and the code
/// as a decimal number in square brackets.
#[verifier::external_body]
fn display_error(err: &CaesiumError) -> (text: String)
    ensures
        text@ == error_text(err.message@, err.code),
{
    err.to_string()
}

/// The failure that an error of the encoders becomes.
pub fn encoder_failure(err: &CaesiumError) -> (e: ImageProcessError)
    ensures
        e@ == error_text(err.message@, err.code),
{
    ImageProcessError::new(display_error(err))
}

/// What `blob_size` of `imagesize` finds in `data`: width and height, or the text
/// of its error.
pub uninterp spec fn probed_size(data: Seq<u8>) -> Result<(usize, usize), Seq<char>>;

/// `blob_size` of `imagesize`, which reads the size of an image from the head of
/// its data. The result is a function of the bytes alone and is only named here;
/// an error is handed on as the text that its `Display` writes.
#[verifier::external_body]
fn blob_size(data: &[u8]) -> (r: Result<(usize, usize), String>)
    ensures
        match r {
            Ok(size) => probed_size(data@) == Ok::<(usize, usize), Seq<char>>(size),
            Err(text) => probed_size(data@) == Err::<(usize, usize), Seq<char>>(text@),
        },
{
    match imagesize::blob_size(data) {
        Ok(size) => Ok((size.width, size.height)),
        Err(err) => Err(err.to_string()),
    }
}

/// The size that the image in `data` has, as `probed_size` names it.
pub open spec fn natural_size(data: Seq<u8>) -> Result<NaturalSize, Seq<char>> {
    match probed_size(data) {
        Ok(size) => Ok(NaturalSize { width: size.0, height: size.1 }),
        Err(text) => Err(text),
    }
}

/// Reads the size of the image from the head of its data.
pub fn probe(data: &Vec<u8>) -> (r: Result<NaturalSize, ImageProcessError>)
    ensures
        match r {
            Ok(size) => natural_size(data@) == Ok::<NaturalSize, Seq<char>>(size),
            Err(e) => natural_size(data@) == Err::<NaturalSize, Seq<char>>(e@),
        },
{
    match blob_size(data.as_slice()) {
        Ok(size) => Ok(NaturalSize { width: size.0, height: size.1 }),
        Err(text) => Err(ImageProcessError::new(text)),
    }
}

} // verus!
