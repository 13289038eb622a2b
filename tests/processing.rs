use distiller_display_sdk::image_processing::{DitherMode, GrayImage, ImageProcessor};
use distiller_display_sdk::DisplaySpec;

fn processor() -> ImageProcessor {
    ImageProcessor::new(DisplaySpec {
        width: 8,
        height: 2,
        name: "t".to_string(),
        description: String::new(),
    })
}

fn bit(buf: &[u8], p: usize) -> bool {
    (buf[p / 8] >> (7 - p % 8)) & 1 == 1
}

#[test]
fn rotate_moves_each_pixel() {
    // 8 wide, 2 tall: pixel (x=1, y=0) and (x=7, y=1) set.
    let data = vec![0b0100_0000, 0b0000_0001];
    let out = processor().rotate_1bit_90(&data, 8, 2);
    assert_eq!(out.len(), 2);
    // Result is 2 wide, 8 tall: (x, y) goes to (1 - y, x).
    assert!(bit(&out, 1 * 2 + 1));
    assert!(bit(&out, 7 * 2 + 0));
    assert_eq!(out.iter().map(|b| b.count_ones()).sum::<u32>(), 2);
}

#[test]
fn flips_mirror_rows_and_columns() {
    let p = processor();
    let data = vec![0b1100_0000, 0b0000_0010];
    assert_eq!(p.flip_horizontal_1bit(&data, 8, 2), vec![0b0000_0011, 0b0100_0000]);
    assert_eq!(p.flip_vertical_1bit(&data, 8, 2), vec![0b0000_0010, 0b1100_0000]);
    let twice = p.rotate_1bit_90(&p.rotate_1bit_90(&data, 8, 2), 2, 8);
    assert_eq!(twice, p.flip_vertical_1bit(&p.flip_horizontal_1bit(&data, 8, 2), 8, 2));
}

#[test]
fn gray_image_checks_size() {
    assert!(GrayImage::from_raw(4, 2, vec![0; 7]).is_none());
    let g = GrayImage::from_raw(4, 2, vec![0; 8]).unwrap();
    assert_eq!(g.dimensions(), (4, 2));
    assert_eq!(g.as_raw().len(), 8);
}

#[test]
fn threshold_dither_packs_at_128() {
    let g = GrayImage::from_raw(8, 1, vec![0, 128, 129, 255, 10, 200, 128, 130]).unwrap();
    assert_eq!(processor().dither(&g, DitherMode::Threshold), vec![0b0011_0101]);
}

#[test]
fn ordered_dither_uses_bayer_thresholds() {
    // Row 0 thresholds: 0, 128, 32, 160, 0, 128, 32, 160.
    let g = GrayImage::from_raw(8, 1, vec![1, 128, 33, 161, 0, 129, 32, 160]).unwrap();
    assert_eq!(processor().dither(&g, DitherMode::Ordered), vec![0b1011_0100]);
}

#[test]
fn floyd_steinberg_diffuses_error() {
    let g = GrayImage::from_raw(8, 1, vec![100; 8]).unwrap();
    // 100 -> 0 (error 100, 43 passed right), 143 -> 255 (error -112, -49 right),
    // 51 -> 0 (22 right), 122 -> 0 (53 right), 153 -> 255 (-102 -> -44), 56 -> 0 (24),
    // 124 -> 0 (54), 154 -> 255.
    assert_eq!(processor().dither(&g, DitherMode::FloydSteinberg), vec![0b0100_1001]);
    let flat = GrayImage::from_raw(8, 2, vec![255; 16]).unwrap();
    assert_eq!(processor().dither(&flat, DitherMode::FloydSteinberg), vec![0xFF, 0xFF]);
}
