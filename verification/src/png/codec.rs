//! The PNG stream itself, written by the `png` crate.

use vstd::prelude::*;

verus! {

/// The error of the `png` crate's encoder. Nothing is read from it here.
#[verifier::external_type_specification]
#[verifier::external_body]
pub struct ExEncodingError(::png::EncodingError);

/// Why a buffer could not be encoded.
#[derive(Debug)]
pub enum EncodeError {
    /// The buffer does not hold the samples of an image of the encoder's
    /// width and height.
    BufferSize,
    /// The codec refused the image.
    Codec(::png::EncodingError),
}

/// The PNG colour type of one grey sample per pixel.
pub const GRAYSCALE: u8 = 0;

/// The PNG colour type of a red, a green and a blue sample per pixel.
pub const RGB: u8 = 2;

/// The samples that a pixel of colour type `color` has.
pub open spec fn samples_of(color: u8) -> int {
    if color == RGB {
        3
    } else {
        1
    }
}

/// The bytes of one row of `width` pixels of `bits` bits each: rows start on
/// a byte.
pub open spec fn row_bytes(width: u32, bits: int) -> int {
    (width * bits + 7) / 8
}

/// The stream that the `png` crate writes for an image of 8-bit samples of
/// colour type `color`, with the transparency chunk `alpha` and the sample
/// bytes `pixels`, at its best compression and without a row filter; `None`
/// where it refuses the image.
pub uninterp spec fn png_plain_image(
    width: u32,
    height: u32,
    color: u8,
    alpha: Seq<u8>,
    pixels: Seq<u8>,
) -> Option<Seq<u8>>;

/// The stream that the `png` crate writes for a palette image of `depth`
/// bits per pixel, with the palette chunk `palette`, the transparency chunk
/// `alpha` and the packed rows `pixels`, at its best compression and without
/// a row filter; `None` where it refuses the image.
pub uninterp spec fn png_indexed_image(
    width: u32,
    height: u32,
    depth: u8,
    palette: Seq<u8>,
    alpha: Seq<u8>,
    pixels: Seq<u8>,
) -> Option<Seq<u8>>;

/// Runs the `png` crate's `Encoder` and `Writer` over a grey or RGB image of
/// 8-bit samples. Trusted: what comes back is a function of the arguments
/// alone, named `png_plain_image`. The sample bytes must be as many as the
/// image has, so that the crate's own size arithmetic stays in range.
#[verifier::external_body]
pub(crate) fn write_plain(width: u32, height: u32, color: u8, alpha: &[u8], pixels: &[u8]) -> (r:
    Result<Vec<u8>, ::png::EncodingError>)
    requires
        color == GRAYSCALE || color == RGB,
        pixels@.len() == width * samples_of(color) * height,
    ensures
        match r {
            Ok(image) => png_plain_image(width, height, color, alpha@, pixels@) == Some(image@),
            Err(_) => png_plain_image(width, height, color, alpha@, pixels@) is None,
        },
{
    let mut image: Vec<u8> = Vec::new();
    let mut encoder = ::png::Encoder::new(&mut image, width, height);
    encoder.set_color(::png::ColorType::from_u8(color).unwrap());
    encoder.set_depth(::png::BitDepth::Eight);
    encoder.set_compression(::png::Compression::Best);
    encoder.set_filter(::png::FilterType::NoFilter);
    encoder.set_trns(alpha);
    let mut writer = encoder.write_header()?;
    writer.write_image_data(pixels)?;
    writer.finish()?;
    Ok(image)
}

/// Runs the `png` crate's `Encoder` and `Writer` over a palette image.
/// Trusted: what comes back is a function of the arguments alone, named
/// `png_indexed_image`. The packed rows must be as many bytes as the image
/// has, so that the crate's own size arithmetic stays in range.
#[verifier::external_body]
pub(crate) fn write_indexed(
    width: u32,
    height: u32,
    depth: u8,
    palette: &[u8],
    alpha: &[u8],
    pixels: &[u8],
) -> (r: Result<Vec<u8>, ::png::EncodingError>)
    requires
        depth == 1 || depth == 2 || depth == 4 || depth == 8,
        pixels@.len() == row_bytes(width, depth as int) * height,
    ensures
        match r {
            Ok(image) => png_indexed_image(width, height, depth, palette@, alpha@, pixels@)
                == Some(image@),
            Err(_) => png_indexed_image(width, height, depth, palette@, alpha@, pixels@) is None,
        },
{
    let mut image: Vec<u8> = Vec::new();
    let mut encoder = ::png::Encoder::new(&mut image, width, height);
    encoder.set_color(::png::ColorType::Indexed);
    encoder.set_depth(::png::BitDepth::from_u8(depth).unwrap());
    encoder.set_compression(::png::Compression::Best);
    encoder.set_filter(::png::FilterType::NoFilter);
    encoder.set_palette(palette);
    encoder.set_trns(alpha);
    let mut writer = encoder.write_header()?;
    writer.write_image_data(pixels)?;
    writer.finish()?;
    Ok(image)
}

/// The product of two 32-bit numbers fits in 64 bits.
pub proof fn lemma_product_fits(a: u32, b: u32)
    ensures
        0 <= a * b <= 0xffff_fffe_0000_0001,
{
    assert(0 <= a * b <= 0xffff_ffff * 0xffff_ffff) by (nonlinear_arith)
        requires
            0 <= a <= 0xffff_ffff,
            0 <= b <= 0xffff_ffff,
    ;
}

/// Whether `r` is the outcome owed for a buffer: `BufferSize` where the
/// buffer does not fit the image, else the codec's stream, or its refusal.
pub open spec fn encoded_as(r: Result<Vec<u8>, EncodeError>, fits: bool, image: Option<Seq<u8>>) -> bool {
    match r {
        Ok(bytes) => fits && image == Some(bytes@),
        Err(EncodeError::BufferSize) => !fits,
        Err(EncodeError::Codec(_)) => fits && image is None,
    }
}

/// What an encoder returns for what the codec gave: the stream as it is, an
/// error as `EncodeError::Codec`.
pub fn surfaced(outcome: Result<Vec<u8>, ::png::EncodingError>) -> (r: Result<Vec<u8>, EncodeError>)
    ensures
        match outcome {
            Ok(image) => r == Ok::<Vec<u8>, EncodeError>(image),
            Err(e) => r == Err::<Vec<u8>, EncodeError>(EncodeError::Codec(e)),
        },
{
    match outcome {
        Ok(image) => Ok(image),
        Err(e) => Err(EncodeError::Codec(e)),
    }
}

} // verus!
