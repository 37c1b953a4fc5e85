//! Palette images of 1, 2, 4 or 8 bits per pixel.

use crate::colorspec::{entries_of, ColormapError, Rgb};
use crate::png::codec::{
    encoded_as, lemma_product_fits, png_indexed_image, row_bytes, surfaced, write_indexed,
    EncodeError,
};
use crate::png::color::{limit_of, ColormapRgb8, Palette, MAX_COLORS};
use crate::png::util::{
    is_depth, lemma_pack_round_trip, pack_8u_1bit, pack_8u_2bit, pack_8u_4bit, packed,
    samples_per_byte, unpacked, values_of,
};
use crate::png::{Encode, PixelValue};
use vstd::prelude::*;
use vstd::string::StringSliceAdditionalSpecFns;

verus! {

/// The bit depth for a palette of `n` colours: the least of 1, 2, 4 and 8
/// bits whose samples can name them all.
pub open spec fn depth_for(n: nat) -> u8 {
    if n <= 2 {
        1
    } else if n <= 4 {
        2
    } else if n <= 16 {
        4
    } else {
        8
    }
}

/// The bit depth for a palette of `n` colours.
pub fn bit_depth(n: usize) -> (depth: u8)
    ensures
        depth == depth_for(n as nat),
        is_depth(depth),
{
    if n <= 2 {
        1
    } else if n <= 4 {
        2
    } else if n <= 16 {
        4
    } else {
        8
    }
}

/// The depth chosen for a palette of at most 256 colours has room for them,
/// and no smaller depth has.
pub proof fn lemma_depth_is_least(n: nat, other: u8)
    requires
        n <= 256,
        is_depth(other),
    ensures
        is_depth(depth_for(n)),
        n <= values_of(depth_for(n)),
        n <= values_of(other) ==> depth_for(n) <= other,
{
}

/// The palette index of each sample of `buffer`.
pub open spec fn indexed<T: PixelValue>(palette: Palette, buffer: Seq<T>) -> Seq<u8> {
    Seq::new(buffer.len(), |i: int| palette.index_of(buffer[i].number()))
}

/// What is read back from the packed indices of a buffer, at the depth
/// chosen for the palette, is the indices: for a well-formed palette and a
/// buffer of a whole number of groups.
pub proof fn lemma_packed_indices_round_trip<T: PixelValue>(
    palette: Palette,
    nodata: u32,
    buffer: Seq<T>,
)
    requires
        palette.wf(nodata),
        buffer.len() % (samples_per_byte(depth_for(palette.len())) as nat) == 0,
    ensures
        unpacked(packed(indexed(palette, buffer), depth_for(palette.len())), depth_for(palette.len()))
            == indexed(palette, buffer),
{
    let depth = depth_for(palette.len());
    let samples = indexed(palette, buffer);
    lemma_depth_is_least(palette.len(), 8);
    assert forall|i: int| 0 <= i < samples.len() implies (#[trigger] samples[i]) < values_of(
        depth,
    ) by {
        let v = buffer[i].number();
        if palette.indices.contains_key(v) {
            assert(palette.indices[v] < palette.len());
        }
    }
    lemma_pack_round_trip(samples, depth);
}

/// Encodes samples as indices into a palette.
#[derive(Debug)]
pub struct ColormapEncoder<T: PixelValue> {
    pub width: u32,
    pub height: u32,
    pub colormap: ColormapRgb8<T>,
}

impl<T: PixelValue> ColormapEncoder<T> {
    /// The bit depth of the images, chosen from the palette's size.
    pub open spec fn depth(&self) -> u8 {
        depth_for(self.colormap@.len())
    }

    /// The rows of an image of `buffer`: the palette indices of its samples,
    /// packed.
    pub open spec fn rows(&self, buffer: Seq<T>) -> Seq<u8> {
        packed(indexed(self.colormap@, buffer), self.depth())
    }

    /// Whether `buffer` packs into exactly the bytes of the rows of one
    /// image.
    pub open spec fn fits_image(&self, buffer: Seq<T>) -> bool {
        &&& buffer.len() % (samples_per_byte(self.depth()) as nat) == 0
        &&& buffer.len() / (samples_per_byte(self.depth()) as nat) == row_bytes(
            self.width,
            self.depth() as int,
        ) * self.height
    }

    /// The image of `buffer`; `None` where the codec refuses it.
    pub open spec fn image_of(&self, buffer: Seq<T>) -> Option<Seq<u8>> {
        png_indexed_image(
            self.width,
            self.height,
            self.depth(),
            self.colormap@.colors,
            seq![0u8],
            self.rows(buffer),
        )
    }

    /// An encoder with a palette that holds "no data" alone and has room for
    /// `palette_size` colours besides.
    pub fn with_palette(width: u32, height: u32, nodata: T, palette_size: usize) -> (encoder:
        ColormapEncoder<T>)
        ensures
            encoder.width == width,
            encoder.height == height,
            encoder.colormap.wf(),
            encoder.colormap@ == Palette::fresh(nodata.number()),
            encoder.colormap.nodata() == nodata,
            encoder.colormap.limit() == limit_of(palette_size),
    {
        ColormapEncoder { width, height, colormap: ColormapRgb8::new(palette_size, nodata) }
    }

    /// As `with_palette`; never an error.
    pub fn new(width: u32, height: u32, nodata: T, palette_size: usize) -> (r: Result<
        ColormapEncoder<T>,
        ColormapError,
    >)
        ensures
            r matches Ok(encoder) && encoder.width == width && encoder.height == height
                && encoder.colormap.wf() && encoder.colormap@ == Palette::fresh(nodata.number())
                && encoder.colormap.nodata() == nodata && encoder.colormap.limit() == limit_of(
                palette_size,
            ),
    {
        Ok(ColormapEncoder::with_palette(width, height, nodata, palette_size))
    }

    /// The palette indices of `buffer`, eight to a byte.
    pub fn pack_1bit(&self, buffer: &[T]) -> (pixels: Vec<u8>)
        requires
            self.colormap.wf(),
            buffer@.len() % 8 == 0,
        ensures
            pixels@ == packed(indexed(self.colormap@, buffer@), 1),
    {
        let n = buffer.len();
        let mut pixels: Vec<u8> = Vec::with_capacity(n / 8);
        let ghost samples = indexed(self.colormap@, buffer@);
        let mut i: usize = 0;
        while i < n
            invariant
                n == buffer@.len(),
                n % 8 == 0,
                i % 8 == 0,
                i <= n,
                self.colormap.wf(),
                samples == indexed(self.colormap@, buffer@),
                pixels@.len() == i / 8,
                forall|k: int| 0 <= k < pixels@.len() ==> pixels@[k] == packed(samples, 1)[k],
            decreases n - i,
        {
            pixels.push(
                pack_8u_1bit(
                    self.colormap.get_index(buffer[i]),
                    self.colormap.get_index(buffer[i + 1]),
                    self.colormap.get_index(buffer[i + 2]),
                    self.colormap.get_index(buffer[i + 3]),
                    self.colormap.get_index(buffer[i + 4]),
                    self.colormap.get_index(buffer[i + 5]),
                    self.colormap.get_index(buffer[i + 6]),
                    self.colormap.get_index(buffer[i + 7]),
                ),
            );
            i += 8;
        }
        proof {
            assert(pixels@ =~= packed(samples, 1));
        }
        pixels
    }

    /// The palette indices of `buffer`, four to a byte.
    pub fn pack_2bit(&self, buffer: &[T]) -> (pixels: Vec<u8>)
        requires
            self.colormap.wf(),
            buffer@.len() % 4 == 0,
        ensures
            pixels@ == packed(indexed(self.colormap@, buffer@), 2),
    {
        let n = buffer.len();
        let mut pixels: Vec<u8> = Vec::with_capacity(n / 4);
        let ghost samples = indexed(self.colormap@, buffer@);
        let mut i: usize = 0;
        while i < n
            invariant
                n == buffer@.len(),
                n % 4 == 0,
                i % 4 == 0,
                i <= n,
                self.colormap.wf(),
                samples == indexed(self.colormap@, buffer@),
                pixels@.len() == i / 4,
                forall|k: int| 0 <= k < pixels@.len() ==> pixels@[k] == packed(samples, 2)[k],
            decreases n - i,
        {
            pixels.push(
                pack_8u_2bit(
                    self.colormap.get_index(buffer[i]),
                    self.colormap.get_index(buffer[i + 1]),
                    self.colormap.get_index(buffer[i + 2]),
                    self.colormap.get_index(buffer[i + 3]),
                ),
            );
            i += 4;
        }
        proof {
            assert(pixels@ =~= packed(samples, 2));
        }
        pixels
    }

    /// The palette indices of `buffer`, two to a byte.
    pub fn pack_4bit(&self, buffer: &[T]) -> (pixels: Vec<u8>)
        requires
            self.colormap.wf(),
            buffer@.len() % 2 == 0,
        ensures
            pixels@ == packed(indexed(self.colormap@, buffer@), 4),
    {
        let n = buffer.len();
        let mut pixels: Vec<u8> = Vec::with_capacity(n / 2);
        let ghost samples = indexed(self.colormap@, buffer@);
        let mut i: usize = 0;
        while i < n
            invariant
                n == buffer@.len(),
                n % 2 == 0,
                i % 2 == 0,
                i <= n,
                self.colormap.wf(),
                samples == indexed(self.colormap@, buffer@),
                pixels@.len() == i / 2,
                forall|k: int| 0 <= k < pixels@.len() ==> pixels@[k] == packed(samples, 4)[k],
            decreases n - i,
        {
            pixels.push(
                pack_8u_4bit(
                    self.colormap.get_index(buffer[i]),
                    self.colormap.get_index(buffer[i + 1]),
                ),
            );
            i += 2;
        }
        proof {
            assert(pixels@ =~= packed(samples, 4));
        }
        pixels
    }

    /// The palette indices of `buffer`, one to a byte.
    pub fn pack_8bit(&self, buffer: &[T]) -> (pixels: Vec<u8>)
        requires
            self.colormap.wf(),
        ensures
            pixels@ == packed(indexed(self.colormap@, buffer@), 8),
    {
        let n = buffer.len();
        let mut pixels: Vec<u8> = Vec::with_capacity(n);
        let mut i: usize = 0;
        while i < n
            invariant
                n == buffer@.len(),
                i <= n,
                self.colormap.wf(),
                pixels@.len() == i,
                forall|k: int|
                    0 <= k < i ==> pixels@[k] == indexed(self.colormap@, buffer@)[k],
            decreases n - i,
        {
            pixels.push(self.colormap.get_index(buffer[i]));
            i += 1;
        }
        proof {
            assert(pixels@ =~= indexed(self.colormap@, buffer@));
        }
        pixels
    }

    /// Encodes one image: the palette index of each sample, packed at the
    /// depth that the palette's size calls for.
    pub fn encode_indexed(&self, buffer: &[T]) -> (r: Result<Vec<u8>, EncodeError>)
        requires
            self.colormap.wf(),
        ensures
            encoded_as(r, self.fits_image(buffer@), self.image_of(buffer@)),
    {
        let depth = bit_depth(self.colormap.len());
        let group: usize = if depth == 1 {
            8
        } else if depth == 2 {
            4
        } else if depth == 4 {
            2
        } else {
            1
        };
        if buffer.len() % group != 0 {
            return Err(EncodeError::BufferSize);
        }
        proof {
            lemma_product_fits(self.width, depth as u32);
            assert(self.width * depth <= 0xffff_ffff * 8) by (nonlinear_arith)
                requires
                    0 <= self.width <= 0xffff_ffff,
                    0 <= depth <= 8,
            ;
        }
        let row: u64 = (self.width as u64 * depth as u64 + 7) / 8;
        proof {
            lemma_product_fits(row as u32, self.height);
        }
        if (buffer.len() / group) as u64 != row * self.height as u64 {
            return Err(EncodeError::BufferSize);
        }
        let pixels = if depth == 1 {
            self.pack_1bit(buffer)
        } else if depth == 2 {
            self.pack_2bit(buffer)
        } else if depth == 4 {
            self.pack_4bit(buffer)
        } else {
            self.pack_8bit(buffer)
        };
        let alpha = self.colormap.get_transparency();
        surfaced(
            write_indexed(
                self.width,
                self.height,
                depth,
                self.colormap.get_colors().as_slice(),
                alpha,
                pixels.as_slice(),
            ),
        )
    }
}

impl ColormapEncoder<u8> {
    /// An encoder with the palette that `colormap_str` writes, behind the
    /// colour of `nodata`.
    pub fn from_str(width: u32, height: u32, colormap_str: &str, nodata: u8) -> (r: Result<
        ColormapEncoder<u8>,
        ColormapError,
    >)
        ensures
            match r {
                Ok(encoder) => {
                    &&& entries_of(colormap_str.spec_bytes()) is Ok
                    &&& encoder.width == width
                    &&& encoder.height == height
                    &&& encoder.colormap.wf()
                    &&& encoder.colormap.nodata() == nodata
                    &&& encoder.colormap@ == Palette::fresh(nodata as u32).with_entries(
                        entries_of(colormap_str.spec_bytes())->Ok_0,
                        MAX_COLORS as nat,
                    )
                },
                Err(e) => entries_of(colormap_str.spec_bytes()) == Err::<
                    Seq<(u8, Rgb)>,
                    ColormapError,
                >(e),
            },
    {
        match ColormapRgb8::parse(colormap_str, nodata) {
            Ok(colormap) => Ok(ColormapEncoder { width, height, colormap }),
            Err(e) => Err(e),
        }
    }
}

impl<T: PixelValue> Encode<T> for ColormapEncoder<T> {
    open spec fn wf(&self) -> bool {
        self.colormap.wf()
    }

    open spec fn fits(&self, buffer: Seq<T>) -> bool {
        self.fits_image(buffer)
    }

    open spec fn image(&self, buffer: Seq<T>) -> Option<Seq<u8>> {
        self.image_of(buffer)
    }

    fn encode(&self, buffer: &[T]) -> (r: Result<Vec<u8>, EncodeError>) {
        self.encode_indexed(buffer)
    }
}

} // verus!
