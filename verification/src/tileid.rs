//! Tiles of the power-of-two grid, and the boxes of tiles that cover an
//! extent at one zoom level.

use vstd::arithmetic::div_mod::{
    lemma_fundamental_div_mod, lemma_fundamental_div_mod_converse, lemma_mod_bound,
};
use vstd::arithmetic::power2::{lemma2_to64, lemma_pow2_strictly_increases, pow2};
use vstd::bits::lemma_u32_shl_is_mul;
use vstd::prelude::*;

verus! {

/// The deepest zoom level.
pub const MAX_ZOOM: u8 = 24;

/// The number of tiles on each side of the grid at `zoom`.
pub open spec fn tiles_per_side(zoom: u8) -> int {
    pow2(zoom as nat) as int
}

/// The grid of a zoom level up to `MAX_ZOOM` has between 1 and 2^24 tiles a
/// side.
pub proof fn lemma_tiles_per_side_bounds(zoom: u8)
    requires
        zoom <= MAX_ZOOM,
    ensures
        1 <= tiles_per_side(zoom) <= 0x100_0000,
{
    lemma2_to64();
    if zoom < 24 {
        lemma_pow2_strictly_increases(zoom as nat, 24);
    }
    vstd::arithmetic::power2::lemma_pow2_pos(zoom as nat);
}

/// The number of tiles on each side of the grid at `zoom`.
pub fn side(zoom: u8) -> (n: u32)
    requires
        zoom <= MAX_ZOOM,
    ensures
        n == tiles_per_side(zoom),
        1 <= n <= 0x100_0000,
{
    proof {
        lemma_tiles_per_side_bounds(zoom);
        lemma_u32_shl_is_mul(1u32, zoom as u32);
    }
    1u32 << (zoom as u32)
}

/// The address of a tile: its zoom level, its column counted from the west
/// and its row counted from the north.
#[derive(Debug, Eq, PartialEq, Copy, Clone, Structural)]
pub struct TileID {
    pub zoom: u8,
    pub x: u32,
    pub y: u32,
}

impl TileID {
    /// Whether the tile lies in the grid of a zoom level up to `MAX_ZOOM`.
    pub open spec fn valid(&self) -> bool {
        &&& self.zoom <= MAX_ZOOM
        &&& self.x < tiles_per_side(self.zoom)
        &&& self.y < tiles_per_side(self.zoom)
    }

    /// The row of the tile counted from the south.
    pub open spec fn row_from_south(&self) -> int {
        tiles_per_side(self.zoom) - 1 - self.y
    }

    /// The tile at column `x` and row `y` of zoom level `zoom`. Nothing is
    /// checked: see `is_valid`.
    pub fn new(zoom: u8, x: u32, y: u32) -> (tile: TileID)
        ensures
            tile == (TileID { zoom, x, y }),
    {
        TileID { zoom, x, y }
    }

    /// Whether the tile lies in the grid of a zoom level up to `MAX_ZOOM`.
    pub fn is_valid(&self) -> (r: bool)
        ensures
            r == self.valid(),
    {
        if self.zoom > MAX_ZOOM {
            return false;
        }
        let n = side(self.zoom);
        self.x < n && self.y < n
    }

    /// The row of the tile counted from the south.
    pub fn flipped_row(&self) -> (row: u32)
        requires
            self.valid(),
        ensures
            row == self.row_from_south(),
            (TileID { zoom: self.zoom, x: self.x, y: row }).valid(),
    {
        side(self.zoom) - 1 - self.y
    }
}

/// Counting a row from the other side twice gives the row back.
pub proof fn lemma_flip_twice(tile: TileID)
    requires
        tile.valid(),
    ensures
        (TileID { zoom: tile.zoom, x: tile.x, y: tile.row_from_south() as u32 }).row_from_south()
            == tile.y,
{
    lemma_tiles_per_side_bounds(tile.zoom);
}

/// `v` moved into the index range of the grid at `zoom`.
pub open spec fn clamped(v: i64, zoom: u8) -> u32 {
    if v < 0 {
        0
    } else if v > tiles_per_side(zoom) - 1 {
        (tiles_per_side(zoom) - 1) as u32
    } else {
        v as u32
    }
}

/// A box of tiles at one zoom level, its four edges included.
#[derive(Debug, Eq, PartialEq, Copy, Clone, Structural)]
pub struct TileRange {
    pub zoom: u8,
    pub xmin: u32,
    pub ymin: u32,
    pub xmax: u32,
    pub ymax: u32,
}

impl TileRange {
    /// Whether every index of the box lies in the grid of its zoom level.
    pub open spec fn in_grid(&self) -> bool {
        &&& self.zoom <= MAX_ZOOM
        &&& self.xmin < tiles_per_side(self.zoom)
        &&& self.ymin < tiles_per_side(self.zoom)
        &&& self.xmax < tiles_per_side(self.zoom)
        &&& self.ymax < tiles_per_side(self.zoom)
    }

    /// The number of columns; none where the edges are crossed.
    pub open spec fn columns(&self) -> int {
        if self.xmax >= self.xmin {
            self.xmax - self.xmin + 1
        } else {
            0
        }
    }

    /// The number of rows; none where the edges are crossed.
    pub open spec fn rows(&self) -> int {
        if self.ymax >= self.ymin {
            self.ymax - self.ymin + 1
        } else {
            0
        }
    }

    /// The number of tiles: columns times rows.
    pub open spec fn tile_count(&self) -> int {
        self.columns() * self.rows()
    }

    /// The `i`-th tile of the box: column after column from the west, and
    /// within a column row after row from the north.
    pub open spec fn tile_at(&self, i: int) -> TileID {
        TileID {
            zoom: self.zoom,
            x: (self.xmin + i / self.rows()) as u32,
            y: (self.ymin + i % self.rows()) as u32,
        }
    }

    /// The tiles of the box in the order in which they are enumerated.
    pub open spec fn tiles(&self) -> Seq<TileID> {
        Seq::new(self.tile_count() as nat, |i: int| self.tile_at(i))
    }

    /// Whether `tile` lies in the box.
    pub open spec fn contains(&self, tile: TileID) -> bool {
        &&& tile.zoom == self.zoom
        &&& self.xmin <= tile.x <= self.xmax
        &&& self.ymin <= tile.y <= self.ymax
    }

    /// The box of the tiles between the given grid coordinates, each moved
    /// into the grid where it lies outside. The coordinates are the floors
    /// of an extent's edges in tile units: `xmin` and `ymin` of its west and
    /// north edges, `xmax` and `ymax` of its east and south edges.
    pub fn new(zoom: u8, xmin: i64, ymin: i64, xmax: i64, ymax: i64) -> (range: TileRange)
        requires
            zoom <= MAX_ZOOM,
        ensures
            range.zoom == zoom,
            range.xmin == clamped(xmin, zoom),
            range.ymin == clamped(ymin, zoom),
            range.xmax == clamped(xmax, zoom),
            range.ymax == clamped(ymax, zoom),
            range.in_grid(),
    {
        let n = side(zoom);
        TileRange {
            zoom,
            xmin: clamp(xmin, n),
            ymin: clamp(ymin, n),
            xmax: clamp(xmax, n),
            ymax: clamp(ymax, n),
        }
    }

    /// The number of tiles in the box.
    pub fn count(&self) -> (n: usize)
        requires
            self.tile_count() <= usize::MAX,
        ensures
            n == self.tile_count(),
    {
        if self.xmax < self.xmin || self.ymax < self.ymin {
            proof {
                assert(self.columns() * self.rows() == 0) by (nonlinear_arith)
                    requires
                        self.columns() == 0 || self.rows() == 0,
                ;
            }
            return 0;
        }
        let columns: u64 = (self.xmax - self.xmin) as u64 + 1;
        let rows: u64 = (self.ymax - self.ymin) as u64 + 1;
        (columns * rows) as usize
    }

    /// An enumeration of the tiles of the box, from its first tile.
    pub fn iter(&self) -> (it: TileIter)
        ensures
            it.wf(),
            it.range() == *self,
            it.position() == 0,
    {
        let done = self.xmax < self.xmin || self.ymax < self.ymin;
        proof {
            if done {
                assert(self.columns() * self.rows() == 0) by (nonlinear_arith)
                    requires
                        self.columns() == 0 || self.rows() == 0,
                ;
            } else {
                assert(0 * self.rows() == 0) by (nonlinear_arith);
                assert(self.columns() * self.rows() >= 1) by (nonlinear_arith)
                    requires
                        self.columns() >= 1,
                        self.rows() >= 1,
                ;
            }
        }
        TileIter { range: *self, x: self.xmin, y: self.ymin, done }
    }
}

/// `v` moved into the indices below `n`.
fn clamp(v: i64, n: u32) -> (r: u32)
    requires
        n >= 1,
    ensures
        r == if v < 0 {
            0
        } else if v > n - 1 {
            (n - 1) as u32
        } else {
            v as u32
        },
{
    if v < 0 {
        0
    } else if v > (n - 1) as i64 {
        n - 1
    } else {
        v as u32
    }
}

/// A place in the enumeration of the tiles of a box. It can be started anew
/// from the box at any time.
#[derive(Debug, Clone, Copy)]
pub struct TileIter {
    range: TileRange,
    x: u32,
    y: u32,
    done: bool,
}

impl TileIter {
    /// The box whose tiles are enumerated.
    pub closed spec fn range(&self) -> TileRange {
        self.range
    }

    /// The number of tiles that were given out.
    pub closed spec fn position(&self) -> int {
        if self.done {
            self.range.tile_count()
        } else {
            (self.x - self.range.xmin) * self.range.rows() + (self.y - self.range.ymin)
        }
    }

    /// Whether the place lies in the box or at its end.
    pub closed spec fn wf(&self) -> bool {
        &&& 0 <= self.position() <= self.range.tile_count()
        &&& !self.done ==> {
            &&& self.range.xmin <= self.x <= self.range.xmax
            &&& self.range.ymin <= self.y <= self.range.ymax
        }
    }

    /// The next tile of the box, or `None` when all were given out.
    pub fn next(&mut self) -> (r: Option<TileID>)
        requires
            old(self).wf(),
        ensures
            final(self).wf(),
            final(self).range() == old(self).range(),
            match r {
                Some(tile) => {
                    &&& old(self).position() < old(self).range().tile_count()
                    &&& tile == old(self).range().tiles()[old(self).position()]
                    &&& final(self).position() == old(self).position() + 1
                },
                None => {
                    &&& old(self).position() == old(self).range().tile_count()
                    &&& final(self).position() == old(self).position()
                },
            },
    {
        if self.done {
            return None;
        }
        let tile = TileID { zoom: self.range.zoom, x: self.x, y: self.y };
        let ghost rows = self.range.rows();
        let ghost columns = self.range.columns();
        let ghost p = self.position();
        let ghost dx = self.x - self.range.xmin;
        let ghost dy = self.y - self.range.ymin;
        proof {
            lemma_fundamental_div_mod_converse(p, rows, dx, dy);
            assert(dx * rows + rows <= columns * rows) by (nonlinear_arith)
                requires
                    0 <= dx < columns,
                    rows >= 0,
            ;
        }
        if self.y < self.range.ymax {
            self.y = self.y + 1;
        } else if self.x < self.range.xmax {
            self.x = self.x + 1;
            self.y = self.range.ymin;
            proof {
                assert((dx + 1) * rows == dx * rows + rows) by (nonlinear_arith);
            }
        } else {
            self.done = true;
            proof {
                assert(columns * rows == dx * rows + rows) by (nonlinear_arith)
                    requires
                        columns == dx + 1,
                ;
            }
        }
        Some(tile)
    }
}

/// Every tile of the box is enumerated, at the place that its column and row
/// give, and only tiles of the box are.
pub proof fn lemma_tiles_cover(range: TileRange, tile: TileID)
    requires
        range.contains(tile),
    ensures
        0 <= (tile.x - range.xmin) * range.rows() + (tile.y - range.ymin) < range.tile_count(),
        range.tiles()[(tile.x - range.xmin) * range.rows() + (tile.y - range.ymin)] == tile,
{
    let rows = range.rows();
    let dx = tile.x - range.xmin;
    let dy = tile.y - range.ymin;
    lemma_fundamental_div_mod_converse(dx * rows + dy, rows, dx, dy);
    assert(0 <= dx * rows && dx * rows + rows <= range.columns() * rows) by (nonlinear_arith)
        requires
            0 <= dx < range.columns(),
            rows >= 0,
    ;
}

/// Every enumerated tile lies in the box, and no tile is enumerated twice.
pub proof fn lemma_tiles_distinct(range: TileRange, i: int, j: int)
    requires
        0 <= i < range.tile_count(),
        0 <= j < range.tile_count(),
    ensures
        range.contains(range.tiles()[i]),
        range.tiles()[i] == range.tiles()[j] ==> i == j,
{
    let rows = range.rows();
    let columns = range.columns();
    assert(rows > 0 && columns > 0) by (nonlinear_arith)
        requires
            columns * rows > 0,
            rows >= 0,
            columns >= 0,
    ;
    lemma_index_in_box(range, i);
    lemma_index_in_box(range, j);
    lemma_fundamental_div_mod(i, rows);
    lemma_fundamental_div_mod(j, rows);
}

/// The column and row offsets of the `i`-th tile lie in the box.
proof fn lemma_index_in_box(range: TileRange, i: int)
    requires
        0 <= i < range.tile_count(),
        range.rows() > 0,
    ensures
        0 <= i / range.rows() < range.columns(),
        0 <= i % range.rows() < range.rows(),
{
    let rows = range.rows();
    let columns = range.columns();
    lemma_fundamental_div_mod(i, rows);
    lemma_mod_bound(i, rows);
    assert(0 <= i / rows < columns) by (nonlinear_arith)
        requires
            i == rows * (i / rows) + i % rows,
            0 <= i % rows < rows,
            0 <= i < columns * rows,
    ;
}

/// The box between a tile's own column and row is that tile alone.
pub proof fn lemma_range_of_one_tile(tile: TileID)
    requires
        tile.valid(),
    ensures
        clamped(tile.x as i64, tile.zoom) == tile.x,
        clamped(tile.y as i64, tile.zoom) == tile.y,
        (TileRange {
            zoom: tile.zoom,
            xmin: tile.x,
            ymin: tile.y,
            xmax: tile.x,
            ymax: tile.y,
        }).tiles() == seq![tile],
{
    let range = TileRange {
        zoom: tile.zoom,
        xmin: tile.x,
        ymin: tile.y,
        xmax: tile.x,
        ymax: tile.y,
    };
    lemma_tiles_per_side_bounds(tile.zoom);
    assert(range.columns() == 1 && range.rows() == 1);
    assert(range.tile_count() == 1) by (nonlinear_arith)
        requires
            range.tile_count() == range.columns() * range.rows(),
            range.columns() == 1,
            range.rows() == 1,
    ;
    assert(range.tile_at(0) == tile);
    assert(range.tiles() =~= seq![tile]);
}

} // verus!
