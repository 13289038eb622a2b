use distiller_display_sdk::config::{
    legacy_firmware_setting, parse_ini_config, parse_u32, FirmwareType,
};
use distiller_display_sdk::DisplayError;

#[test]
fn ini_overrides_defaults() {
    let text = "# platform file\n[display]\nfirmware = EPD240x416\n\n[hardware]\nplatform = radxa-zero3\nspi_device = /dev/spidev3.0\ngpio_chip=/dev/gpiochip3\n[gpio_pins]\ndc_pin = 8\nrst_pin=2\nbusy_pin = 1\n";
    let c = parse_ini_config(text).unwrap();
    assert_eq!(c.default_firmware, FirmwareType::EPD240x416);
    assert_eq!(c.hardware.platform, "radxa-zero3");
    assert_eq!(c.hardware.spi_device, "/dev/spidev3.0");
    assert_eq!(c.hardware.gpio_chip, "/dev/gpiochip3");
    assert_eq!((c.hardware.dc_pin, c.hardware.rst_pin, c.hardware.busy_pin), (8, 2, 1));
}

#[test]
fn ini_empty_gives_defaults() {
    let c = parse_ini_config("").unwrap();
    assert_eq!(c.default_firmware, FirmwareType::EPD128x250);
    assert_eq!(c.hardware.platform, "cm5");
    assert_eq!((c.hardware.dc_pin, c.hardware.rst_pin, c.hardware.busy_pin), (7, 13, 9));
}

#[test]
fn ini_ignores_unknown_keys_sections_and_lines() {
    let text = "[other]\ndc_pin = 99\n[gpio_pins]\nnoise\ncolour = blue\n  [display]  \r\n  firmware = 128x250  \r\n";
    let c = parse_ini_config(text).unwrap();
    assert_eq!(c.hardware.dc_pin, 7);
    assert_eq!(c.default_firmware, FirmwareType::EPD128x250);
}

#[test]
fn ini_rejects_bad_pin() {
    match parse_ini_config("[gpio_pins]\ndc_pin = seven\n") {
        Err(DisplayError::Config(m)) => assert_eq!(m, "Invalid dc_pin: seven"),
        other => panic!("unexpected {:?}", other.map(|c| c.hardware.dc_pin)),
    }
    assert!(parse_ini_config("[gpio_pins]\nrst_pin = -1\n").is_err());
    assert!(parse_ini_config("[gpio_pins]\nbusy_pin = 4294967296\n").is_err());
    assert_eq!(parse_ini_config("[gpio_pins]\nbusy_pin = +12\n").unwrap().hardware.busy_pin, 12);
}

#[test]
fn ini_rejects_unknown_firmware() {
    assert!(matches!(
        parse_ini_config("[display]\nfirmware = EPD999\n"),
        Err(DisplayError::Config(_))
    ));
}

#[test]
fn legacy_firmware_line() {
    assert_eq!(
        legacy_firmware_setting("# old\nFIRMWARE= 240x416 \nfirmware=128x250\n"),
        Some("240x416".to_string())
    );
    assert_eq!(legacy_firmware_setting("firmware=\nfirmware=EPD128x250=x\n"), Some("EPD128x250".to_string()));
    assert_eq!(legacy_firmware_setting("model=240x416\n"), None);
}

#[test]
fn decimal_u32_parsing() {
    assert_eq!(parse_u32("0"), Some(0));
    assert_eq!(parse_u32("+7"), Some(7));
    assert_eq!(parse_u32("4294967295"), Some(u32::MAX));
    assert_eq!(parse_u32("4294967296"), None);
    assert_eq!(parse_u32("99999999999999999999"), None);
    assert_eq!(parse_u32(""), None);
    assert_eq!(parse_u32("+"), None);
    assert_eq!(parse_u32("12a"), None);
    assert_eq!(parse_u32("-0"), None);
}
