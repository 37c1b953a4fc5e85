//! 8-bit greyscale images with one transparent grey.

use crate::png::codec::{
    encoded_as, lemma_product_fits, png_plain_image, surfaced, write_plain, EncodeError,
    GRAYSCALE,
};
use crate::png::Encode;
use vstd::prelude::*;

verus! {

/// Encodes 8-bit samples as greys; the grey of "no data" is transparent.
#[derive(Debug)]
pub struct GrayscaleEncoder {
    width: u32,
    height: u32,
    nodata: u8,
}

impl GrayscaleEncoder {
    /// The width of the images, in pixels.
    pub closed spec fn width(&self) -> u32 {
        self.width
    }

    /// The height of the images, in pixels.
    pub closed spec fn height(&self) -> u32 {
        self.height
    }

    /// The sample that stands for "no data".
    pub closed spec fn nodata(&self) -> u8 {
        self.nodata
    }

    /// The transparency chunk: the transparent grey as a 16-bit number, the
    /// sample in its low byte.
    pub open spec fn alpha(&self) -> Seq<u8> {
        seq![0u8, self.nodata()]
    }

    /// Whether `buffer` holds one sample for each pixel.
    pub open spec fn fits_8bit(&self, buffer: Seq<u8>) -> bool {
        buffer.len() == self.width() * self.height()
    }

    /// The image of `buffer`; `None` where the codec refuses it.
    pub open spec fn image_8bit(&self, buffer: Seq<u8>) -> Option<Seq<u8>> {
        png_plain_image(self.width(), self.height(), GRAYSCALE, self.alpha(), buffer)
    }

    /// An encoder of images of `width` by `height` pixels in which the grey
    /// `nodata` is transparent.
    pub fn new(width: u32, height: u32, nodata: u8) -> (encoder: GrayscaleEncoder)
        ensures
            encoder.width() == width,
            encoder.height() == height,
            encoder.nodata() == nodata,
    {
        GrayscaleEncoder { width, height, nodata }
    }

    /// Encodes one image, a byte per pixel, row by row.
    pub fn encode_8bit(&self, buffer: &[u8]) -> (r: Result<Vec<u8>, EncodeError>)
        ensures
            encoded_as(r, self.fits_8bit(buffer@), self.image_8bit(buffer@)),
    {
        proof {
            lemma_product_fits(self.width, self.height);
        }
        let pixels: u64 = self.width as u64 * self.height as u64;
        if buffer.len() as u64 != pixels {
            return Err(EncodeError::BufferSize);
        }
        let mut alpha: Vec<u8> = Vec::new();
        alpha.push(0u8);
        alpha.push(self.nodata);
        proof {
            assert(alpha@ =~= self.alpha());
            assert(self.width * 1 * self.height == self.width * self.height) by (nonlinear_arith);
        }
        surfaced(write_plain(self.width, self.height, GRAYSCALE, alpha.as_slice(), buffer))
    }
}

impl Encode<u8> for GrayscaleEncoder {
    open spec fn wf(&self) -> bool {
        true
    }

    open spec fn fits(&self, buffer: Seq<u8>) -> bool {
        self.fits_8bit(buffer)
    }

    open spec fn image(&self, buffer: Seq<u8>) -> Option<Seq<u8>> {
        self.image_8bit(buffer)
    }

    fn encode(&self, buffer: &[u8]) -> (r: Result<Vec<u8>, EncodeError>) {
        self.encode_8bit(buffer)
    }
}

} // verus!
