//! What one worker holds for the length of a job: the encoder that fits the
//! band, and the scratch space that it reuses from tile to tile.

use crate::colorspec::{entries_of, ColormapError, Rgb};
use crate::png::codec::{encoded_as, EncodeError};
use crate::png::color::{limit_of, Palette, MAX_COLORS};
use crate::png::colormap::ColormapEncoder;
use crate::png::grayscale::GrayscaleEncoder;
use crate::png::rgb::{rgb_bytes, RGBEncoder};
use crate::png::Rgb8;
use vstd::prelude::*;
use vstd::string::StringSliceAdditionalSpecFns;

verus! {

/// The encoder of a worker on a band of 8-bit samples: through the colormap
/// where the job has one, else as greys.
#[derive(Debug)]
pub enum ByteWorker {
    Grayscale(GrayscaleEncoder),
    Colormap(ColormapEncoder<u8>),
}

impl ByteWorker {
    /// Whether the worker is well formed.
    pub open spec fn wf(&self) -> bool {
        match self {
            ByteWorker::Grayscale(_) => true,
            ByteWorker::Colormap(encoder) => encoder.colormap.wf(),
        }
    }

    /// Whether `buffer` holds the samples of one tile.
    pub open spec fn fits(&self, buffer: Seq<u8>) -> bool {
        match self {
            ByteWorker::Grayscale(encoder) => encoder.fits_8bit(buffer),
            ByteWorker::Colormap(encoder) => encoder.fits_image(buffer),
        }
    }

    /// The image of `buffer`; `None` where the codec refuses it.
    pub open spec fn image(&self, buffer: Seq<u8>) -> Option<Seq<u8>> {
        match self {
            ByteWorker::Grayscale(encoder) => encoder.image_8bit(buffer),
            ByteWorker::Colormap(encoder) => encoder.image_of(buffer),
        }
    }

    /// The worker for square tiles of `tilesize` pixels a side, with the
    /// colormap that `colormap_str` writes where there is one.
    pub fn new(tilesize: u16, colormap_str: Option<&str>, nodata: u8) -> (r: Result<
        ByteWorker,
        ColormapError,
    >)
        ensures
            match colormap_str {
                None => r matches Ok(ByteWorker::Grayscale(encoder)) && encoder.width() == tilesize
                    && encoder.height() == tilesize && encoder.nodata() == nodata,
                Some(text) => match r {
                    Ok(worker) => {
                        &&& worker matches ByteWorker::Colormap(encoder)
                        &&& entries_of(text.spec_bytes()) is Ok
                        &&& encoder.width == tilesize
                        &&& encoder.height == tilesize
                        &&& encoder.colormap.wf()
                        &&& encoder.colormap.nodata() == nodata
                        &&& encoder.colormap@ == Palette::fresh(nodata as u32).with_entries(
                            entries_of(text.spec_bytes())->Ok_0,
                            MAX_COLORS as nat,
                        )
                    },
                    Err(e) => entries_of(text.spec_bytes()) == Err::<Seq<(u8, Rgb)>, ColormapError>(
                        e,
                    ),
                },
            },
    {
        let side = tilesize as u32;
        match colormap_str {
            Some(text) => match ColormapEncoder::from_str(side, side, text, nodata) {
                Ok(encoder) => Ok(ByteWorker::Colormap(encoder)),
                Err(e) => Err(e),
            },
            None => Ok(ByteWorker::Grayscale(GrayscaleEncoder::new(side, side, nodata))),
        }
    }

    /// Encodes one tile.
    pub fn encode(&self, buffer: &[u8]) -> (r: Result<Vec<u8>, EncodeError>)
        requires
            self.wf(),
        ensures
            encoded_as(r, self.fits(buffer@), self.image(buffer@)),
    {
        match self {
            ByteWorker::Grayscale(encoder) => encoder.encode_8bit(buffer),
            ByteWorker::Colormap(encoder) => encoder.encode_indexed(buffer),
        }
    }
}

/// The encoders and the scratch space of a worker on a band of 32-bit
/// samples that hold packed colours.
#[derive(Debug)]
pub struct ColorWorker {
    /// Writes the tiles that have many colours.
    pub rgb: RGBEncoder,
    /// Writes the tiles that have few colours; its palette is rebuilt for
    /// every tile.
    pub palette: ColormapEncoder<u32>,
    /// The colour bytes of the last tile.
    pub rgb_buffer: Vec<u8>,
}

impl ColorWorker {
    /// Whether the worker is well formed.
    pub open spec fn wf(&self) -> bool {
        self.palette.colormap.wf()
    }

    /// The palette of a tile: "no data", then the tile's colours in the
    /// order in which they are first seen, as long as there is room.
    pub open spec fn palette_of(&self, buffer: Seq<u32>) -> Palette {
        Palette::fresh(self.palette.colormap.nodata()).with_samples(
            buffer,
            self.palette.colormap.limit(),
        )
    }

    /// The worker for square tiles of `tilesize` pixels a side. Its palette
    /// takes 256 colours, that of "no data" among them.
    pub fn new(tilesize: u16, nodata: u32) -> (worker: ColorWorker)
        ensures
            worker.wf(),
            worker.rgb.width() == tilesize,
            worker.rgb.height() == tilesize,
            worker.rgb.nodata_color() == Rgb8::of_u32(nodata),
            worker.palette.width == tilesize,
            worker.palette.height == tilesize,
            worker.palette.colormap.nodata() == nodata,
            worker.palette.colormap.limit() == limit_of(MAX_COLORS),
            worker.palette.colormap@ == Palette::fresh(nodata),
            worker.rgb_buffer@ == Seq::<u8>::empty(),
    {
        let side = tilesize as u32;
        ColorWorker {
            rgb: RGBEncoder::new(side, side, nodata),
            palette: ColormapEncoder::with_palette(side, side, nodata, MAX_COLORS),
            rgb_buffer: Vec::new(),
        }
    }

    /// Encodes one tile: as a palette image where the palette has room for
    /// all its colours, else as an RGB image. The choice is made for each
    /// tile anew.
    pub fn encode(&mut self, buffer: &[u32]) -> (r: Result<Vec<u8>, EncodeError>)
        requires
            old(self).wf(),
        ensures
            final(self).wf(),
            final(self).rgb == old(self).rgb,
            final(self).palette.width == old(self).palette.width,
            final(self).palette.height == old(self).palette.height,
            final(self).palette.colormap.nodata() == old(self).palette.colormap.nodata(),
            final(self).palette.colormap.limit() == old(self).palette.colormap.limit(),
            final(self).palette.colormap@ == old(self).palette_of(buffer@),
            final(self).rgb_buffer@ == rgb_bytes(buffer@),
            if old(self).palette_of(buffer@).holds_all(buffer@) {
                encoded_as(
                    r,
                    final(self).palette.fits_image(buffer@),
                    final(self).palette.image_of(buffer@),
                )
            } else {
                encoded_as(
                    r,
                    old(self).rgb.fits_8bit(rgb_bytes(buffer@)),
                    old(self).rgb.image_8bit(rgb_bytes(buffer@)),
                )
            },
    {
        self.rgb.encode_tile(&mut self.palette, buffer, &mut self.rgb_buffer)
    }
}

} // verus!
