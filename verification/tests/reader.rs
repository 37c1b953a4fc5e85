use rastertiler::reader::{ClipMargins, ReadWindow, TileRead};

fn window(read_width: usize, read_height: usize) -> ReadWindow {
    ReadWindow { x_offset: 3, y_offset: 4, read_width, read_height }
}

fn margins(left: usize, right: usize, bottom: usize, top: usize) -> ClipMargins {
    ClipMargins { left, right, bottom, top }
}

#[test]
fn empty_window_is_no_read() {
    assert_eq!(TileRead::new(4, margins(0, 0, 0, 0), window(0, 5)), None);
    assert_eq!(TileRead::new(4, margins(0, 0, 0, 0), window(5, 0)), None);
    assert_eq!(TileRead::new(4, margins(1, 1, 1, 1), window(0, 0)), None);
}

#[test]
fn plan_of_full_tile() {
    let plan = TileRead::new(4, margins(0, 0, 0, 0), window(9, 9)).unwrap();
    assert_eq!(plan.width, 4);
    assert_eq!(plan.height, 4);
    assert_eq!(plan.left, 0);
    assert_eq!(plan.top, 0);
    assert_eq!(plan.window, window(9, 9));
    assert!(!plan.is_partial());
    assert_eq!(plan.block_size(), 16);
}

#[test]
fn plan_of_clipped_tile() {
    let plan = TileRead::new(4, margins(2, 1, 0, 1), window(1, 2)).unwrap();
    assert_eq!((plan.width, plan.height, plan.left, plan.top), (1, 3, 2, 1));
    assert!(plan.is_partial());
    assert_eq!(plan.block_size(), 3);
    let over = TileRead::new(4, margins(3, 3, 9, 0), window(1, 1)).unwrap();
    assert_eq!((over.width, over.height), (0, 0));
    assert_eq!(over.block_size(), 0);
}

#[test]
fn prepare_fills_with_nodata() {
    let plan = TileRead::new(2, margins(0, 0, 0, 0), window(1, 1)).unwrap();
    let mut buffer = [1u8, 2, 3, 4];
    plan.prepare(&mut buffer, 255);
    assert_eq!(buffer, [255, 255, 255, 255]);
}

#[test]
fn finish_full_tile_is_left_alone() {
    let plan = TileRead::new(2, margins(0, 0, 0, 0), window(2, 2)).unwrap();
    let mut buffer = [1u8, 2, 3, 4];
    assert!(plan.finish(&mut buffer, 0));
    assert_eq!(buffer, [1, 2, 3, 4]);
}

#[test]
fn finish_without_data() {
    let plan = TileRead::new(2, margins(1, 0, 0, 0), window(2, 2)).unwrap();
    let mut buffer = [7u8, 7, 7, 7];
    assert!(!plan.finish(&mut buffer, 7));
    assert_eq!(buffer, [7, 7, 7, 7]);
}

#[test]
fn finish_moves_the_block() {
    // a tile of 4 x 4 whose left two columns and top row lie outside the
    // raster: the block of 2 x 3 that was read goes to column 2, row 1
    let plan = TileRead::new(4, margins(2, 0, 0, 1), window(2, 3)).unwrap();
    let mut buffer = [0u8; 16];
    plan.prepare(&mut buffer, 9);
    let block = plan.block_size();
    assert_eq!(block, 6);
    for i in 0..block {
        buffer[i] = i as u8 + 1;
    }
    assert!(plan.finish(&mut buffer, 9));
    assert_eq!(buffer, [9, 9, 9, 9, 9, 9, 1, 2, 9, 9, 3, 4, 9, 9, 5, 6]);
}

#[test]
fn finish_clipped_on_the_right_keeps_first_row() {
    let plan = TileRead::new(3, margins(0, 1, 1, 0), window(2, 2)).unwrap();
    let mut buffer = [1u8, 2, 3, 4, 0, 0, 0, 0, 0];
    assert!(plan.finish(&mut buffer, 0));
    assert_eq!(buffer, [1, 2, 0, 3, 4, 0, 0, 0, 0]);
}

#[test]
fn finish_clipped_at_the_bottom_only() {
    let plan = TileRead::new(2, margins(0, 0, 1, 0), window(2, 1)).unwrap();
    assert!(plan.is_partial());
    let mut buffer = [5u32, 6, 0, 0];
    assert!(plan.finish(&mut buffer, 0));
    assert_eq!(buffer, [5, 6, 0, 0]);
}
