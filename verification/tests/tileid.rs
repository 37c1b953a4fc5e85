use rastertiler::tileid::{side, TileID, TileRange, MAX_ZOOM};

const RE: f64 = 6378137.0;
const ORIGIN: f64 = RE * std::f64::consts::PI;
const CE: f64 = 2.0 * ORIGIN;

fn geo_to_mercator(lon: f64, lat: f64) -> (f64, f64) {
    let lon = lon.max(-180.0).min(180.0);
    let lat = lat.max(-85.051129).min(85.051129);
    let x = lon * (ORIGIN / 180.0);
    let y = RE
        * ((std::f64::consts::PI * 0.25) + (0.5 * (std::f64::consts::PI / 180.0) * lat))
            .tan()
            .ln();
    (x, y)
}

/// The box that covers geographic bounds: the floors are taken here, the
/// library moves them into the grid.
fn range_for(zoom: u8, lon_min: f64, lat_min: f64, lon_max: f64, lat_max: f64) -> TileRange {
    let (xmin, ymin) = geo_to_mercator(lon_min, lat_min);
    let (xmax, ymax) = geo_to_mercator(lon_max, lat_max);
    let z = (1u32 << zoom) as f64;
    let eps = 1e-11;
    let origin = -ORIGIN;
    TileRange::new(
        zoom,
        (((xmin - origin) / CE) * z).floor() as i64,
        ((1.0 - ((ymax - origin) / CE)) * z).floor() as i64,
        ((((xmax - origin) / CE) - eps) * z).floor() as i64,
        ((1.0 - (((ymin - origin) / CE) + eps)) * z).floor() as i64,
    )
}

fn collect(range: &TileRange) -> Vec<TileID> {
    let mut tiles = Vec::new();
    let mut it = range.iter();
    while let Some(tile) = it.next() {
        tiles.push(tile);
    }
    tiles
}

#[test]
fn new_tileid() {
    let t = TileID::new(4, 0, 1);
    assert_eq!(
        t,
        TileID {
            zoom: 4,
            x: 0,
            y: 1
        }
    )
}

#[test]
fn tileid_validity() {
    assert!(TileID::new(0, 0, 0).is_valid());
    assert!(!TileID::new(0, 1, 0).is_valid());
    assert!(TileID::new(4, 15, 15).is_valid());
    assert!(!TileID::new(4, 15, 16).is_valid());
    assert!(TileID::new(24, (1 << 24) - 1, 0).is_valid());
    assert!(!TileID::new(25, 0, 0).is_valid());
}

#[test]
fn side_is_power_of_two() {
    assert_eq!(side(0), 1);
    assert_eq!(side(1), 2);
    assert_eq!(side(10), 1024);
    assert_eq!(side(MAX_ZOOM), 1 << 24);
}

#[test]
fn flipped_row() {
    assert_eq!(TileID::new(0, 0, 0).flipped_row(), 0);
    assert_eq!(TileID::new(4, 3, 0).flipped_row(), 15);
    assert_eq!(TileID::new(4, 3, 15).flipped_row(), 0);
    assert_eq!(TileID::new(10, 20, 30).flipped_row(), 993);
}

#[test]
fn tile_range_world_zoom0() {
    assert_eq!(
        range_for(0, -180.0, -90.0, 180.0, 90.0),
        TileRange { zoom: 0, xmin: 0, ymin: 0, xmax: 0, ymax: 0 }
    );
}

#[test]
fn tile_range_zoom1() {
    assert_eq!(
        range_for(1, -180.0, -90.0, 90.0, 90.0),
        TileRange { zoom: 1, xmin: 0, ymin: 0, xmax: 1, ymax: 1 }
    );
    assert_eq!(
        range_for(1, -180.0, -90.0, 0.0, 90.0),
        TileRange { zoom: 1, xmin: 0, ymin: 0, xmax: 0, ymax: 1 }
    );
}

#[test]
fn tile_range_zoom4() {
    let range = range_for(4, -100.0, -20.0, -20.0, 20.0);
    assert_eq!(range, TileRange { zoom: 4, xmin: 3, ymin: 7, xmax: 7, ymax: 8 });
    assert_eq!(range.count(), 10);
    let tiles = collect(&range);
    assert_eq!(tiles.len(), 10);
    assert_eq!(*tiles.first().unwrap(), TileID { zoom: 4, x: 3, y: 7 });
    assert_eq!(*tiles.last().unwrap(), TileID { zoom: 4, x: 7, y: 8 });
}

#[test]
fn tile_range_around_origin() {
    let range = range_for(4, -1e-6, -1e-6, 1e-6, 1e-6);
    assert_eq!(range, TileRange { zoom: 4, xmin: 7, ymin: 7, xmax: 8, ymax: 8 });
    assert_eq!(range.count(), 4);
}

#[test]
fn tile_range_clamps_far_outside() {
    let range = TileRange::new(3, i64::MIN, -5, i64::MAX, 1000);
    assert_eq!(range, TileRange { zoom: 3, xmin: 0, ymin: 0, xmax: 7, ymax: 7 });
    assert_eq!(range.count(), 64);
    let left = TileRange::new(3, -9, -9, -1, -1);
    assert_eq!(left, TileRange { zoom: 3, xmin: 0, ymin: 0, xmax: 0, ymax: 0 });
    let right = TileRange::new(3, 8, 8, 9, 9);
    assert_eq!(right, TileRange { zoom: 3, xmin: 7, ymin: 7, xmax: 7, ymax: 7 });
}

#[test]
fn tile_range_of_one_tile() {
    let tile = TileID::new(10, 20, 30);
    let range = TileRange::new(10, 20, 30, 20, 30);
    assert_eq!(range.count(), 1);
    assert_eq!(collect(&range), vec![tile]);
}

#[test]
fn tile_range_order_is_column_by_column() {
    let range = TileRange { zoom: 2, xmin: 1, ymin: 0, xmax: 2, ymax: 2 };
    assert_eq!(range.count(), 6);
    assert_eq!(
        collect(&range),
        vec![
            TileID::new(2, 1, 0),
            TileID::new(2, 1, 1),
            TileID::new(2, 1, 2),
            TileID::new(2, 2, 0),
            TileID::new(2, 2, 1),
            TileID::new(2, 2, 2),
        ]
    );
    // the enumeration can be started anew
    assert_eq!(collect(&range), collect(&range));
}

#[test]
fn tile_range_crossed_edges_is_empty() {
    let range = TileRange { zoom: 2, xmin: 2, ymin: 0, xmax: 1, ymax: 3 };
    assert_eq!(range.count(), 0);
    assert_eq!(collect(&range), vec![]);
}

#[test]
fn tile_range_at_the_end_of_u32() {
    let range = TileRange { zoom: 0, xmin: u32::MAX, ymin: u32::MAX - 1, xmax: u32::MAX, ymax: u32::MAX };
    assert_eq!(range.count(), 2);
    assert_eq!(
        collect(&range),
        vec![TileID::new(0, u32::MAX, u32::MAX - 1), TileID::new(0, u32::MAX, u32::MAX)]
    );
}

#[test]
fn iter_ends_and_stays_ended() {
    let range = TileRange::new(1, 0, 0, 0, 0);
    let mut it = range.iter();
    assert_eq!(it.next(), Some(TileID::new(1, 0, 0)));
    assert_eq!(it.next(), None);
    assert_eq!(it.next(), None);
}
