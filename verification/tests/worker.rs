use rastertiler::colorspec::ColormapError;
use rastertiler::png::{EncodeError, GrayscaleEncoder};
use rastertiler::worker::{ByteWorker, ColorWorker};

fn color_type(image: &[u8]) -> u8 {
    // the header chunk follows the signature: length, type, then 13 bytes
    // of which the tenth is the colour type
    assert_eq!(&image[12..16], b"IHDR");
    image[25]
}

fn bit_depth(image: &[u8]) -> u8 {
    image[24]
}

#[test]
fn byte_worker_without_colormap_is_grayscale() {
    let worker = ByteWorker::new(2, None, 9).unwrap();
    assert!(matches!(worker, ByteWorker::Grayscale(_)));
    let image = worker.encode(&[1, 2, 3, 9]).unwrap();
    assert_eq!(color_type(&image), 0);
    assert_eq!(image, GrayscaleEncoder::new(2, 2, 9).encode_8bit(&[1, 2, 3, 9]).unwrap());
}

#[test]
fn byte_worker_with_colormap_is_indexed() {
    let worker = ByteWorker::new(8, Some("1:#ff0000,2:#00ff00"), 0).unwrap();
    assert!(matches!(worker, ByteWorker::Colormap(_)));
    let image = worker.encode(&[1u8; 64]).unwrap();
    assert_eq!(color_type(&image), 3);
    assert_eq!(bit_depth(&image), 2);
    assert!(matches!(worker.encode(&[1u8; 63]), Err(EncodeError::BufferSize)));
}

#[test]
fn byte_worker_with_bad_colormap() {
    assert_eq!(
        ByteWorker::new(8, Some("1:#ff000"), 0).err(),
        Some(ColormapError::UnsupportedHexFormat)
    );
    assert_eq!(ByteWorker::new(8, Some("one:#ff0000"), 0).err(), Some(ColormapError::InvalidValue));
}

#[test]
fn color_worker_decides_tile_by_tile() {
    let mut worker = ColorWorker::new(32, 0);
    let few: Vec<u32> = (0..1024u32).map(|i| i % 200).collect();
    let image = worker.encode(&few).unwrap();
    assert_eq!(color_type(&image), 3);
    assert_eq!(bit_depth(&image), 8);
    assert_eq!(worker.palette.colormap.len(), 200);

    let many: Vec<u32> = (0..1024u32).collect();
    let image = worker.encode(&many).unwrap();
    assert_eq!(color_type(&image), 2);
    assert_eq!(worker.rgb_buffer.len(), 1024 * 3);
    assert_eq!(&worker.rgb_buffer[3..6], &[0, 0, 1]);

    let two: Vec<u32> = (0..1024u32).map(|i| i % 2).collect();
    let image = worker.encode(&two).unwrap();
    assert_eq!(color_type(&image), 3);
    assert_eq!(bit_depth(&image), 1);
    assert_eq!(worker.palette.colormap.len(), 2);
}

#[test]
fn color_worker_exactly_256_colors_still_fit() {
    let mut worker = ColorWorker::new(16, 7);
    // 255 values besides "no data"
    let tile: Vec<u32> = (0..256u32).map(|i| if i == 0 { 7 } else { 1000 + i }).collect();
    let image = worker.encode(&tile).unwrap();
    assert_eq!(color_type(&image), 3);
    // 256 values besides "no data"
    let tile: Vec<u32> = (0..256u32).map(|i| 1000 + i).collect();
    let image = worker.encode(&tile).unwrap();
    assert_eq!(color_type(&image), 2);
}

#[test]
fn color_worker_wrong_size() {
    let mut worker = ColorWorker::new(4, 0);
    assert!(matches!(worker.encode(&[0u32; 15]), Err(EncodeError::BufferSize)));
    let many: Vec<u32> = (0..300u32).collect();
    assert!(matches!(worker.encode(&many), Err(EncodeError::BufferSize)));
}
