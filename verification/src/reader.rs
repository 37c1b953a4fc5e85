//! Reading one tile: what to read from the raster, and where the samples
//! that were read belong in the tile's buffer.
//!
//! The raster itself is read elsewhere. A read goes in three steps:
//! `TileRead::new` decides whether there is anything to read, `prepare`
//! readies the buffer, and once the caller has read the raster into the head
//! of the buffer, `finish` moves the samples to their place.

use crate::array::{all_equals, set_all, shift, shift_fits, shifted, source_of};
use vstd::prelude::*;
use vstd::std_specs::cmp::PartialEqSpec;

verus! {

/// How many pixels of a tile's extent lie outside the raster on each side.
#[derive(Debug, Clone, Copy, PartialEq, Eq, Structural)]
pub struct ClipMargins {
    pub left: usize,
    pub right: usize,
    pub bottom: usize,
    pub top: usize,
}

/// The rectangle of the raster that a tile covers, cut to the raster: its
/// corner and its size in raster pixels.
#[derive(Debug, Clone, Copy, PartialEq, Eq, Structural)]
pub struct ReadWindow {
    pub x_offset: isize,
    pub y_offset: isize,
    pub read_width: usize,
    pub read_height: usize,
}

/// `a - b - c`, or 0 where that is negative.
pub open spec fn remaining(a: int, b: int, c: int) -> int {
    if a - b - c > 0 {
        a - b - c
    } else {
        0
    }
}

/// The plan of one read: the rectangle to read and the block of the tile
/// that receives it.
#[derive(Debug, Clone, Copy, PartialEq, Eq, Structural)]
pub struct TileRead {
    /// The side of the tile, in pixels.
    pub tile_size: u16,
    /// The rectangle of the raster to read.
    pub window: ReadWindow,
    /// The width of the block of the tile that the raster covers.
    pub width: usize,
    /// The height of that block.
    pub height: usize,
    /// The column of the tile at which the block starts.
    pub left: usize,
    /// The row of the tile at which the block starts.
    pub top: usize,
}

impl TileRead {
    /// Whether the plan is one that `new` can have made.
    pub open spec fn wf(&self) -> bool {
        &&& self.window.read_width > 0
        &&& self.window.read_height > 0
        &&& self.width <= self.tile_size
        &&& self.height <= self.tile_size
        &&& self.width > 0 ==> self.left + self.width <= self.tile_size
        &&& self.height > 0 ==> self.top + self.height <= self.tile_size
    }

    /// Whether the raster covers less than the whole tile.
    pub open spec fn partial(&self) -> bool {
        self.left > 0 || self.top > 0 || self.width < self.tile_size || self.height
            < self.tile_size
    }

    /// The number of samples that the raster is read into, at the head of
    /// the buffer.
    pub open spec fn block_len(&self) -> int {
        self.width * self.height
    }

    /// The buffer after the block at its head was moved to its place.
    pub open spec fn placed<T>(&self, buffer: Seq<T>, nodata: T) -> Seq<T> {
        shifted(
            buffer,
            (self.width, self.height),
            (self.tile_size as usize, self.tile_size as usize),
            (self.left, self.top),
            nodata,
        )
    }

    /// The plan for a tile of `tile_size` pixels a side with the clip
    /// margins `margins`, whose extent covers `window` of the raster; `None`
    /// where the window is empty, and so there is nothing to read.
    pub fn new(tile_size: u16, margins: ClipMargins, window: ReadWindow) -> (r: Option<TileRead>)
        ensures
            r is None <==> (window.read_width == 0 || window.read_height == 0),
            r matches Some(plan) ==> {
                &&& plan.wf()
                &&& plan.tile_size == tile_size
                &&& plan.window == window
                &&& plan.width == remaining(tile_size as int, margins.left as int, margins.right as int)
                &&& plan.height == remaining(tile_size as int, margins.top as int, margins.bottom as int)
                &&& plan.left == margins.left
                &&& plan.top == margins.top
            },
    {
        if window.read_width == 0 || window.read_height == 0 {
            return None;
        }
        let size = tile_size as usize;
        let width = size.saturating_sub(margins.left).saturating_sub(margins.right);
        let height = size.saturating_sub(margins.top).saturating_sub(margins.bottom);
        Some(
            TileRead { tile_size, window, width, height, left: margins.left, top: margins.top },
        )
    }

    /// Fills the buffer with `nodata`, so that what the raster does not
    /// cover is defined.
    pub fn prepare<T: Copy>(&self, buffer: &mut [T], nodata: T)
        ensures
            final(buffer)@ == Seq::new(old(buffer)@.len(), |i: int| nodata),
    {
        set_all(buffer, nodata);
    }

    /// The number of samples that the raster is read into, at the head of
    /// the buffer.
    pub fn block_size(&self) -> (n: usize)
        requires
            self.wf(),
        ensures
            n == self.block_len(),
            n <= self.tile_size * self.tile_size,
    {
        proof {
            assert(0 <= self.width * self.height <= self.tile_size * self.tile_size)
                by (nonlinear_arith)
                requires
                    0 <= self.width <= self.tile_size,
                    0 <= self.height <= self.tile_size,
            ;
            assert(self.tile_size * self.tile_size <= 0xffff * 0xffff) by (nonlinear_arith)
                requires
                    0 <= self.tile_size <= 0xffff,
            ;
        }
        self.width * self.height
    }

    /// Whether the raster covers less than the whole tile.
    pub fn is_partial(&self) -> (r: bool)
        ensures
            r == self.partial(),
    {
        let size = self.tile_size as usize;
        self.left > 0 || self.top > 0 || self.width < size || self.height < size
    }

    /// Finishes a read: reports whether the buffer holds any sample other
    /// than `nodata`, and if so, and the raster covers less than the whole
    /// tile, moves the block that was read from the head of the buffer to
    /// its place. A buffer without data is left as it is.
    pub fn finish<T: Copy + PartialEq>(&self, buffer: &mut [T], nodata: T) -> (has_data: bool)
        requires
            self.wf(),
            old(buffer)@.len() == self.tile_size * self.tile_size,
        ensures
            T::obeys_eq_spec() ==> (has_data <==> exists|i: int|
                0 <= i < old(buffer)@.len() && !(#[trigger] old(buffer)@[i]).eq_spec(&nodata)),
            final(buffer)@ == if has_data && self.partial() {
                self.placed(old(buffer)@, nodata)
            } else {
                old(buffer)@
            },
    {
        if all_equals(buffer, nodata) {
            return false;
        }
        if self.is_partial() {
            if self.width > 0 && self.height > 0 {
                let size = self.tile_size as usize;
                shift(buffer, (self.width, self.height), (size, size), (self.left, self.top), nodata);
            } else {
                proof {
                    lemma_empty_block_stays(
                        buffer@,
                        (self.width, self.height),
                        (self.tile_size as usize, self.tile_size as usize),
                        (self.left, self.top),
                        nodata,
                    );
                }
            }
        }
        true
    }
}

/// Moving a block without samples changes nothing.
pub proof fn lemma_empty_block_stays<T>(
    buffer: Seq<T>,
    size: (usize, usize),
    target_size: (usize, usize),
    offset: (usize, usize),
    fill: T,
)
    requires
        size.0 == 0 || size.1 == 0,
    ensures
        shifted(buffer, size, target_size, offset, fill) == buffer,
{
    assert(size.0 * size.1 == 0) by (nonlinear_arith)
        requires
            size.0 == 0 || size.1 == 0,
    ;
    assert forall|j: int| 0 <= j < buffer.len() implies source_of(j, size, target_size, offset)
        is None by {}
    assert(shifted(buffer, size, target_size, offset, fill) =~= buffer);
}

} // verus!
