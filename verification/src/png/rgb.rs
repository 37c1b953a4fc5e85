//! 24-bit RGB images, with a palette image in their place where the colours
//! of a tile are few.

use crate::png::codec::{
    encoded_as, lemma_product_fits, png_plain_image, surfaced, write_plain, EncodeError, RGB,
};
use crate::png::color::{
    distinct_values, lemma_holds_all_iff_fits, ColormapRgb8, Palette, Rgb8,
};
use crate::png::colormap::ColormapEncoder;
use crate::png::Encode;
use vstd::prelude::*;

verus! {

/// Encodes red, green and blue bytes; the colour of "no data" is
/// transparent.
#[derive(Debug)]
pub struct RGBEncoder {
    width: u32,
    height: u32,
    nodata_color: Rgb8,
}

impl RGBEncoder {
    /// The width of the images, in pixels.
    pub closed spec fn width(&self) -> u32 {
        self.width
    }

    /// The height of the images, in pixels.
    pub closed spec fn height(&self) -> u32 {
        self.height
    }

    /// The colour that stands for "no data".
    pub closed spec fn nodata_color(&self) -> Rgb8 {
        self.nodata_color
    }

    /// The transparency chunk: the transparent colour as three 16-bit
    /// numbers, each channel in the low byte of its number.
    pub open spec fn alpha(&self) -> Seq<u8> {
        seq![
            0u8,
            self.nodata_color().r,
            0u8,
            self.nodata_color().g,
            0u8,
            self.nodata_color().b,
        ]
    }

    /// Whether `buffer` holds three bytes for each pixel.
    pub open spec fn fits_8bit(&self, buffer: Seq<u8>) -> bool {
        buffer.len() == self.width() * 3 * self.height()
    }

    /// The image of `buffer`; `None` where the codec refuses it.
    pub open spec fn image_8bit(&self, buffer: Seq<u8>) -> Option<Seq<u8>> {
        png_plain_image(self.width(), self.height(), RGB, self.alpha(), buffer)
    }

    /// An encoder of images of `width` by `height` pixels in which the
    /// colour that `nodata` holds is transparent.
    pub fn new(width: u32, height: u32, nodata: u32) -> (encoder: RGBEncoder)
        ensures
            encoder.width() == width,
            encoder.height() == height,
            encoder.nodata_color() == Rgb8::of_u32(nodata),
    {
        RGBEncoder { width, height, nodata_color: Rgb8::from_u32(nodata) }
    }

    /// Encodes one image, three bytes per pixel, row by row.
    pub fn encode_8bit(&self, buffer: &[u8]) -> (r: Result<Vec<u8>, EncodeError>)
        ensures
            encoded_as(r, self.fits_8bit(buffer@), self.image_8bit(buffer@)),
    {
        proof {
            lemma_product_fits(self.width, self.height);
        }
        let pixels: u64 = self.width as u64 * self.height as u64;
        proof {
            assert(self.width * 3 * self.height == 3 * (self.width * self.height))
                by (nonlinear_arith);
        }
        if buffer.len() % 3 != 0 || (buffer.len() / 3) as u64 != pixels {
            return Err(EncodeError::BufferSize);
        }
        let mut alpha: Vec<u8> = Vec::new();
        alpha.push(0u8);
        alpha.push(self.nodata_color.r);
        alpha.push(0u8);
        alpha.push(self.nodata_color.g);
        alpha.push(0u8);
        alpha.push(self.nodata_color.b);
        proof {
            assert(alpha@ =~= self.alpha());
        }
        surfaced(write_plain(self.width, self.height, RGB, alpha.as_slice(), buffer))
    }
}

/// The red, green and blue bytes of the colours that `buffer` holds, sample
/// after sample.
pub open spec fn rgb_bytes(buffer: Seq<u32>) -> Seq<u8> {
    Seq::new(
        3 * buffer.len(),
        |j: int|
            if j % 3 == 0 {
                Rgb8::of_u32(buffer[j / 3]).r
            } else if j % 3 == 1 {
                Rgb8::of_u32(buffer[j / 3]).g
            } else {
                Rgb8::of_u32(buffer[j / 3]).b
            },
    )
}

/// Rebuilds `rgb_buffer` and `colormap` from the samples of one tile: the
/// buffer gets the three colour bytes of each sample, and the palette, begun
/// anew, gets the samples in the order in which they are first seen, for as
/// long as it has room. Returns whether the palette holds every sample, that
/// is, whether the tile can be written with it.
pub fn rgb_and_palette(
    buffer: &[u32],
    rgb_buffer: &mut Vec<u8>,
    colormap: &mut ColormapRgb8<u32>,
) -> (use_palette: bool)
    requires
        old(colormap).wf(),
    ensures
        final(colormap).wf(),
        final(colormap).nodata() == old(colormap).nodata(),
        final(colormap).limit() == old(colormap).limit(),
        final(colormap)@ == Palette::fresh(old(colormap).nodata()).with_samples(
            buffer@,
            old(colormap).limit(),
        ),
        final(rgb_buffer)@ == rgb_bytes(buffer@),
        use_palette == final(colormap)@.holds_all(buffer@),
        use_palette <==> distinct_values(old(colormap).nodata(), buffer@).len() <= old(
            colormap,
        ).limit(),
{
    let n = buffer.len();
    colormap.clear();
    rgb_buffer.clear();
    let mut use_palette = true;
    let ghost limit = colormap.limit();
    let ghost nodata = colormap.nodata();
    let ghost mut missing: int = 0;
    let mut i: usize = 0;
    proof {
        assert(buffer@.take(0) =~= Seq::<u32>::empty());
        assert(rgb_buffer@ =~= rgb_bytes(buffer@.take(0)));
    }
    while i < n
        invariant
            n == buffer@.len(),
            i <= n,
            colormap.wf(),
            colormap.nodata() == nodata,
            colormap.limit() == limit,
            colormap@ == Palette::fresh(nodata).with_samples(buffer@.take(i as int), limit),
            rgb_buffer@ == rgb_bytes(buffer@.take(i as int)),
            use_palette ==> colormap@.holds_all(buffer@.take(i as int)),
            !use_palette ==> 0 <= missing < i && !colormap@.indices.contains_key(buffer@[missing])
                && !colormap@.has_room(limit),
        decreases n - i,
    {
        let value = buffer[i];
        let color = Rgb8::from_u32(value);
        let ghost before = colormap@;
        let ghost bytes = rgb_buffer@;
        let ghost seen = buffer@.take(i as int);
        let ghost more = buffer@.take(i + 1);
        proof {
            assert(more.drop_last() =~= seen);
            assert(more.last() == value);
        }
        rgb_buffer.push(color.r);
        rgb_buffer.push(color.g);
        rgb_buffer.push(color.b);
        let held = colormap.add_color(value, color);
        proof {
            assert(rgb_buffer@ =~= rgb_bytes(more)) by {
                assert(rgb_buffer@ == bytes.push(color.r).push(color.g).push(color.b));
                assert forall|j: int| 0 <= j < 3 * more.len() implies rgb_buffer@[j] == rgb_bytes(
                    more,
                )[j] by {
                    if j < 3 * seen.len() {
                        assert(rgb_bytes(seen)[j] == rgb_bytes(more)[j]);
                    }
                }
            }
            if use_palette && held {
                assert forall|k: int| 0 <= k < more.len() implies colormap@.indices.contains_key(
                    #[trigger] more[k],
                ) by {
                    if k < seen.len() {
                        assert(seen[k] == more[k]);
                    }
                }
            }
            if use_palette && !held {
                missing = i as int;
            }
        }
        if !held {
            use_palette = false;
        }
        i += 1;
    }
    proof {
        assert(buffer@.take(n as int) =~= buffer@);
        if !use_palette {
            assert(!colormap@.indices.contains_key(buffer@[missing]));
        }
        lemma_holds_all_iff_fits(nodata, buffer@, limit);
    }
    use_palette
}

impl RGBEncoder {
    /// Encodes one tile of packed colours. The palette of `palette_encoder`
    /// and `rgb_buffer` are rebuilt from the tile. Where the palette has
    /// room for every colour of the tile, the tile is written as a palette
    /// image by `palette_encoder`; where it has not, as an RGB image by this
    /// encoder.
    pub fn encode_tile(
        &self,
        palette_encoder: &mut ColormapEncoder<u32>,
        buffer: &[u32],
        rgb_buffer: &mut Vec<u8>,
    ) -> (r: Result<Vec<u8>, EncodeError>)
        requires
            old(palette_encoder).colormap.wf(),
        ensures
            final(palette_encoder).width == old(palette_encoder).width,
            final(palette_encoder).height == old(palette_encoder).height,
            final(palette_encoder).colormap.wf(),
            final(palette_encoder).colormap.nodata() == old(palette_encoder).colormap.nodata(),
            final(palette_encoder).colormap.limit() == old(palette_encoder).colormap.limit(),
            final(palette_encoder).colormap@ == Palette::fresh(
                old(palette_encoder).colormap.nodata(),
            ).with_samples(buffer@, old(palette_encoder).colormap.limit()),
            final(rgb_buffer)@ == rgb_bytes(buffer@),
            if final(palette_encoder).colormap@.holds_all(buffer@) {
                encoded_as(
                    r,
                    final(palette_encoder).fits_image(buffer@),
                    final(palette_encoder).image_of(buffer@),
                )
            } else {
                encoded_as(
                    r,
                    self.fits_8bit(rgb_bytes(buffer@)),
                    self.image_8bit(rgb_bytes(buffer@)),
                )
            },
    {
        let use_palette = rgb_and_palette(buffer, rgb_buffer, &mut palette_encoder.colormap);
        if use_palette {
            palette_encoder.encode_indexed(buffer)
        } else {
            self.encode_8bit(rgb_buffer.as_slice())
        }
    }
}

impl Encode<u8> for RGBEncoder {
    open spec fn wf(&self) -> bool {
        true
    }

    open spec fn fits(&self, buffer: Seq<u8>) -> bool {
        self.fits_8bit(buffer)
    }

    open spec fn image(&self, buffer: Seq<u8>) -> Option<Seq<u8>> {
        self.image_8bit(buffer)
    }

    fn encode(&self, buffer: &[u8]) -> (r: Result<Vec<u8>, EncodeError>) {
        self.encode_8bit(buffer)
    }
}

} // verus!
