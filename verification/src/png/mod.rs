//! Encoders from pixel buffers to PNG images.

use self::codec::encoded_as;
use vstd::prelude::*;

pub mod codec;
pub mod color;
pub mod colormap;
pub mod grayscale;
pub mod rgb;
pub mod util;

pub use self::codec::EncodeError;
pub use self::color::{ColormapRgb8, Palette, Rgb8};
pub use self::colormap::ColormapEncoder;
pub use self::grayscale::GrayscaleEncoder;
pub use self::rgb::RGBEncoder;
pub use self::util::{pack_8u_1bit, pack_8u_2bit, pack_8u_4bit};

verus! {

/// A sample type that a band can have: an unsigned integer of at most 32
/// bits.
pub trait PixelValue: Ord + Copy + From<u8> {
    /// The sample as a number.
    spec fn number(self) -> u32;

    /// The sample as a number.
    fn to_u32(self) -> (n: u32)
        ensures
            n == self.number(),
    ;

    /// Different samples are different numbers.
    proof fn lemma_number_injective(a: Self, b: Self)
        ensures
            a.number() == b.number() ==> a == b,
    ;
}

impl PixelValue for u8 {
    open spec fn number(self) -> u32 {
        self as u32
    }

    fn to_u32(self) -> (n: u32) {
        self as u32
    }

    proof fn lemma_number_injective(a: Self, b: Self) {
    }
}

impl PixelValue for u16 {
    open spec fn number(self) -> u32 {
        self as u32
    }

    fn to_u32(self) -> (n: u32) {
        self as u32
    }

    proof fn lemma_number_injective(a: Self, b: Self) {
    }
}

impl PixelValue for u32 {
    open spec fn number(self) -> u32 {
        self
    }

    fn to_u32(self) -> (n: u32) {
        self
    }

    proof fn lemma_number_injective(a: Self, b: Self) {
    }
}

/// An encoder of buffers of `T` samples into images.
pub trait Encode<T> {
    /// Whether the encoder is well formed.
    spec fn wf(&self) -> bool;

    /// Whether `buffer` holds the samples of one image of the encoder's
    /// size.
    spec fn fits(&self, buffer: Seq<T>) -> bool;

    /// The image of `buffer`; `None` where the codec refuses it.
    spec fn image(&self, buffer: Seq<T>) -> Option<Seq<u8>>;

    /// Encodes `buffer`.
    fn encode(&self, buffer: &[T]) -> (r: Result<Vec<u8>, EncodeError>)
        requires
            self.wf(),
        ensures
            encoded_as(r, self.fits(buffer@), self.image(buffer@)),
    ;
}

} // verus!
