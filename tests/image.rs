use distiller_display_sdk::config::{init_config, set_default_firmware, FirmwareType};
use distiller_display_sdk::image::{
    create_black_image, create_black_image_with_spec, create_white_image,
    create_white_image_with_spec, get_dimensions, get_dimensions_from_spec,
};
use distiller_display_sdk::image_processing::ImageProcessor;
use distiller_display_sdk::DisplaySpec;

fn test_spec() -> DisplaySpec {
    DisplaySpec {
        width: 128,
        height: 250,
        name: "Test".to_string(),
        description: "Test display".to_string(),
    }
}

#[test]
fn test_image_creation() {
    let config = init_config();
    let white = create_white_image(&config);
    let black = create_black_image(&config);

    assert_eq!(white.len(), black.len());
    assert!(white.len() > 0);
    assert!(white.iter().all(|&b| b == 0xFF));
    assert!(black.iter().all(|&b| b == 0x00));
}

#[test]
fn test_dimensions() {
    let config = init_config();
    let dims = get_dimensions(&config);
    assert!(dims.0 > 0);
    assert!(dims.1 > 0);
    let supported = [(128, 250), (240, 416)];
    assert!(supported.contains(&dims));
}

#[test]
fn test_pack_unpack_1bit() {
    let processor = ImageProcessor::new(test_spec());
    let original = vec![0, 255, 0, 255, 255, 0, 255, 0];
    let packed = processor.pack_1bit(&original);
    let unpacked = processor.unpack_1bit(&packed);
    assert_eq!(original, unpacked);
}

#[test]
fn test_invert_1bit() {
    let processor = ImageProcessor::new(test_spec());
    let data = vec![0b1010_1010, 0b1111_0000];
    let inverted = processor.invert_1bit(&data);
    assert_eq!(inverted, vec![0b0101_0101, 0b0000_1111]);
}

#[test]
fn pack_thresholds_at_128_msb_first() {
    let processor = ImageProcessor::new(test_spec());
    assert_eq!(processor.pack_1bit(&[128, 129, 0, 0, 0, 0, 0, 255]), vec![0b0100_0001]);
    assert_eq!(processor.pack_1bit(&[200, 200, 200]), vec![0b1110_0000]);
    assert_eq!(processor.pack_1bit(&[]), Vec::<u8>::new());
    assert_eq!(processor.pack_1bit(&[255; 9]), vec![0xFF, 0x80]);
}

#[test]
fn pack_unpack_round_trip_thresholds() {
    let processor = ImageProcessor::new(test_spec());
    let original: Vec<u8> = vec![3, 130, 128, 200, 0, 129, 77, 250, 90, 140, 255, 1, 128, 129, 60, 61];
    let unpacked = processor.unpack_1bit(&processor.pack_1bit(&original));
    let expected: Vec<u8> = original.iter().map(|&v| if v > 128 { 255 } else { 0 }).collect();
    assert_eq!(unpacked, expected);
}

#[test]
fn unpack_expands_each_bit() {
    let processor = ImageProcessor::new(test_spec());
    assert_eq!(processor.unpack_1bit(&[0b1000_0001]), vec![255, 0, 0, 0, 0, 0, 0, 255]);
    assert_eq!(processor.unpack_1bit(&[]), Vec::<u8>::new());
}

#[test]
fn frames_follow_spec_and_config() {
    let spec = test_spec();
    assert_eq!(create_white_image_with_spec(&spec), vec![0xFF; 4000]);
    assert_eq!(create_black_image_with_spec(&spec), vec![0x00; 4000]);
    assert_eq!(get_dimensions_from_spec(&spec), (128, 250));
    let mut config = init_config();
    set_default_firmware(&mut config, FirmwareType::EPD240x416).unwrap();
    assert_eq!(get_dimensions(&config), (240, 416));
    assert_eq!(create_white_image(&config).len(), 12480);
}
