//! The rows that a tile contributes to a content-addressed tile store.
//!
//! An image is kept under a key made from its bytes alone, so that equal
//! images share one row; a tile's coordinates point at that key.

use crate::tileid::{lemma_tiles_per_side_bounds, TileID};
use vstd::prelude::*;

verus! {

/// The SeaHash of `data`, with the seed that the `seahash` crate has
/// chosen.
pub uninterp spec fn seahash_of(data: Seq<u8>) -> u64;

/// Calls `seahash::hash`. Trusted: the hash is a function of the bytes
/// alone.
#[verifier::external_body]
pub(crate) fn hash_bytes(data: &[u8]) -> (h: u64)
    ensures
        h == seahash_of(data@),
{
    ::seahash::hash(data)
}

/// The key under which the image `data` is kept: its hash, read as a signed
/// number of the same 64 bits.
pub open spec fn content_key(data: Seq<u8>) -> i64 {
    seahash_of(data) as i64
}

/// What one tile adds to the store: a row of the index, which names the
/// tile by zoom level, column and row counted from the south, and the key
/// of its image.
#[derive(Debug, Clone, Copy, PartialEq, Eq, Structural)]
pub struct StoredTile {
    pub zoom_level: u8,
    pub tile_column: u32,
    pub tile_row: u32,
    pub tile_id: i64,
}

impl StoredTile {
    /// The coordinates under which the index holds the tile.
    pub open spec fn coordinates(&self) -> (u8, u32, u32) {
        (self.zoom_level, self.tile_column, self.tile_row)
    }

    /// The entry for `tile` with an image whose hash is `hash`.
    pub open spec fn of(tile: TileID, hash: u64) -> StoredTile {
        StoredTile {
            zoom_level: tile.zoom,
            tile_column: tile.x,
            tile_row: tile.row_from_south() as u32,
            tile_id: hash as i64,
        }
    }

    /// The entry for `tile_id` with an image whose hash is `hash`.
    pub fn with_hash(tile_id: &TileID, hash: u64) -> (entry: StoredTile)
        requires
            tile_id.valid(),
        ensures
            entry == StoredTile::of(*tile_id, hash),
    {
        StoredTile {
            zoom_level: tile_id.zoom,
            tile_column: tile_id.x,
            tile_row: tile_id.flipped_row(),
            tile_id: #[verifier::truncate]
            (hash as i64),
        }
    }

    /// The entry for `tile_id` with the image `png_data`.
    pub fn new(tile_id: &TileID, png_data: &[u8]) -> (entry: StoredTile)
        requires
            tile_id.valid(),
        ensures
            entry == StoredTile::of(*tile_id, seahash_of(png_data@)),
            entry.tile_id == content_key(png_data@),
    {
        StoredTile::with_hash(tile_id, hash_bytes(png_data))
    }
}

/// The same image under two different tiles: the two entries share their
/// key, and differ in their coordinates.
pub proof fn lemma_same_image_two_tiles(a: TileID, b: TileID, data: Seq<u8>)
    requires
        a.valid(),
        b.valid(),
        a != b,
    ensures
        StoredTile::of(a, seahash_of(data)).tile_id == StoredTile::of(b, seahash_of(data)).tile_id,
        StoredTile::of(a, seahash_of(data)).coordinates() != StoredTile::of(
            b,
            seahash_of(data),
        ).coordinates(),
{
    lemma_tiles_per_side_bounds(a.zoom);
    lemma_tiles_per_side_bounds(b.zoom);
}

} // verus!
