use distiller_display_sdk::image::{
    convert_image_to_1bit_with_spec, convert_png_to_1bit_with_spec, convert_rgba_to_1bit_with_spec,
};
use distiller_display_sdk::image_processing::ShapeDrawer;
use distiller_display_sdk::DisplayError;
use distiller_display_sdk::DisplaySpec;

fn bit(buf: &[u8], p: usize) -> bool {
    (buf[p / 8] >> (7 - p % 8)) & 1 == 1
}

#[test]
fn set_pixel_sets_one_bit() {
    let d = ShapeDrawer::new(16, 2);
    let mut buf = vec![0u8; 4];
    d.set_pixel(&mut buf, 3, 1, true);
    assert_eq!(buf, vec![0, 0, 0b0001_0000, 0]);
    d.set_pixel(&mut buf, 16, 0, true);
    d.set_pixel(&mut buf, 0, 2, true);
    assert_eq!(buf, vec![0, 0, 0b0001_0000, 0]);
    d.set_pixel(&mut buf, 3, 1, false);
    assert_eq!(buf, vec![0; 4]);
}

#[test]
fn filled_rect_is_clipped() {
    let d = ShapeDrawer::new(8, 4);
    let mut buf = vec![0u8; 4];
    d.draw_rect_filled(&mut buf, 6, 2, 10, 10, true);
    assert_eq!(buf, vec![0, 0, 0b0000_0011, 0b0000_0011]);
}

#[test]
fn lines_and_outline() {
    let d = ShapeDrawer::new(8, 4);
    let mut buf = vec![0u8; 4];
    d.draw_line_horizontal(&mut buf, 1, 0, 3, true);
    d.draw_line_vertical(&mut buf, 7, 1, 5, true);
    assert_eq!(buf, vec![0b0111_0000, 0b0000_0001, 0b0000_0001, 0b0000_0001]);
    let mut buf = vec![0u8; 4];
    d.draw_rect_outline(&mut buf, 0, 0, 8, 4, 1, true);
    assert_eq!(buf, vec![0xFF, 0b1000_0001, 0b1000_0001, 0xFF]);
    let mut buf = vec![0xFFu8; 4];
    d.draw_rect_outline(&mut buf, 2, 1, 4, 2, 1, false);
    assert_eq!(buf, vec![0xFF, 0b1100_0011, 0b1100_0011, 0xFF]);
}

fn spec8x2() -> DisplaySpec {
    DisplaySpec { width: 8, height: 2, name: "t".to_string(), description: String::new() }
}

#[test]
fn rgba_conversion_thresholds_channel_mean() {
    let mut px = vec![(0u8, 0u8, 0u8, 255u8); 16];
    px[0] = (255, 255, 255, 255);
    px[1] = (129, 129, 129, 0);
    px[2] = (128, 128, 130, 255);
    px[9] = (200, 100, 150, 255);
    let out = convert_rgba_to_1bit_with_spec(8, 2, &px, &spec8x2()).unwrap();
    assert_eq!(out, vec![0b1100_0000, 0b0100_0000]);
    assert!(bit(&out, 9));
}

#[test]
fn rgba_conversion_rejects_wrong_geometry() {
    let px = vec![(0u8, 0u8, 0u8, 0u8); 16];
    assert!(matches!(
        convert_rgba_to_1bit_with_spec(16, 1, &px, &spec8x2()),
        Err(DisplayError::Png(_))
    ));
    assert!(matches!(
        convert_rgba_to_1bit_with_spec(8, 2, &px[..15], &spec8x2()),
        Err(DisplayError::Png(_))
    ));
}

#[test]
fn png_decodes_and_packs() {
    let mut rgba = vec![0u8; 8 * 2 * 4];
    for p in [0usize, 3, 15] {
        rgba[p * 4..p * 4 + 4].copy_from_slice(&[255, 255, 255, 255]);
    }
    let png = lodepng::encode32(&rgba, 8, 2).unwrap();
    let out = convert_png_to_1bit_with_spec(&png, &spec8x2()).unwrap();
    assert_eq!(out, vec![0b1001_0000, 0b0000_0001]);
    let out = convert_image_to_1bit_with_spec(&png, &spec8x2()).unwrap();
    assert_eq!(out, vec![0b1001_0000, 0b0000_0001]);
    assert!(matches!(
        convert_png_to_1bit_with_spec(&[1, 2, 3], &spec8x2()),
        Err(DisplayError::Png(_))
    ));
    assert!(matches!(
        convert_image_to_1bit_with_spec(&[1, 2, 3], &spec8x2()),
        Err(DisplayError::Png(_))
    ));
}
