use rastertiler::store::StoredTile;
use rastertiler::tileid::TileID;

#[test]
fn stored_tile_key_is_seahash() {
    let data: Vec<u8> = vec![137, 80, 78, 71, 1, 2, 3];
    let entry = StoredTile::new(&TileID::new(4, 3, 7), &data);
    assert_eq!(entry.tile_id, seahash::hash(&data) as i64);
    assert_eq!(entry.zoom_level, 4);
    assert_eq!(entry.tile_column, 3);
    assert_eq!(entry.tile_row, 8);
}

#[test]
fn stored_tile_known_hash() {
    // the value that the hash's own documentation gives
    let entry = StoredTile::new(&TileID::new(0, 0, 0), b"to be or not to be");
    assert_eq!(entry.tile_id, 1988685042348123509);
    assert_eq!(entry.tile_row, 0);
}

#[test]
fn stored_tile_with_hash_reads_high_bit_as_sign() {
    let tile = TileID::new(1, 1, 0);
    assert_eq!(StoredTile::with_hash(&tile, u64::MAX).tile_id, -1);
    assert_eq!(StoredTile::with_hash(&tile, 1 << 63).tile_id, i64::MIN);
    assert_eq!(StoredTile::with_hash(&tile, 5).tile_id, 5);
    assert_eq!(StoredTile::with_hash(&tile, 5).tile_row, 1);
}

#[test]
fn same_image_two_tiles_share_the_key() {
    let data: Vec<u8> = vec![9, 9, 9];
    let a = StoredTile::new(&TileID::new(5, 1, 2), &data);
    let b = StoredTile::new(&TileID::new(5, 2, 2), &data);
    assert_eq!(a.tile_id, b.tile_id);
    assert_ne!(
        (a.zoom_level, a.tile_column, a.tile_row),
        (b.zoom_level, b.tile_column, b.tile_row)
    );
    let other = StoredTile::new(&TileID::new(5, 1, 2), &[9, 9, 8]);
    assert_ne!(a.tile_id, other.tile_id);
}
