use std::str::FromStr;

use distiller_display_sdk::config::{
    create_default_firmware, get_default_spec, get_hardware_config, init_config,
    model_from_lowercase, set_default_firmware, set_default_firmware_from_str, DisplayConfig,
    FirmwareType,
};
use distiller_display_sdk::config::get_default_firmware;
use distiller_display_sdk::firmware::DisplayFirmware;
use distiller_display_sdk::DisplayError;

#[test]
fn test_config_system() {
    assert!(FirmwareType::from_str("EPD128x250").is_ok());
    assert!(FirmwareType::from_str("EPD240x416").is_ok());
    assert!(FirmwareType::from_str("invalid").is_err());
}

#[test]
fn config_test_firmware_type_parsing() {
    assert_eq!(FirmwareType::parse("EPD128x250").unwrap(), FirmwareType::EPD128x250);
    assert_eq!(FirmwareType::parse("128x250").unwrap(), FirmwareType::EPD128x250);
    assert_eq!(FirmwareType::parse("EPD240x416").unwrap(), FirmwareType::EPD240x416);
    assert_eq!(FirmwareType::parse("240x416").unwrap(), FirmwareType::EPD240x416);
    assert!(FirmwareType::parse("invalid").is_err());
    assert_eq!("EPD128x250".parse::<FirmwareType>().unwrap(), FirmwareType::EPD128x250);
}

#[test]
fn config_test_config_default() {
    let config = DisplayConfig::default();
    assert_eq!(config.default_firmware, FirmwareType::EPD128x250);
}

#[test]
fn config_test_set_get_firmware() {
    let mut config = init_config();
    set_default_firmware(&mut config, FirmwareType::EPD240x416).unwrap();
    assert_eq!(get_default_firmware(&config).unwrap(), FirmwareType::EPD240x416);

    set_default_firmware(&mut config, FirmwareType::EPD128x250).unwrap();
    assert_eq!(get_default_firmware(&config).unwrap(), FirmwareType::EPD128x250);
}

#[test]
fn parse_ignores_letter_case() {
    assert_eq!(FirmwareType::parse("epd240X416").unwrap(), FirmwareType::EPD240x416);
    assert_eq!(FirmwareType::parse("Epd128X250").unwrap(), FirmwareType::EPD128x250);
}

#[test]
fn parse_error_names_the_input() {
    match FirmwareType::parse("bogus") {
        Err(DisplayError::Config(m)) => assert_eq!(
            m,
            "Unknown firmware type: bogus. Supported types: EPD128x250, EPD240x416"
        ),
        other => panic!("unexpected {:?}", other),
    }
}

#[test]
fn lowercase_names_select_models() {
    assert_eq!(model_from_lowercase(&"epd128x250".to_string()), Some(FirmwareType::EPD128x250));
    assert_eq!(model_from_lowercase(&"240x416".to_string()), Some(FirmwareType::EPD240x416));
    assert_eq!(model_from_lowercase(&"EPD128x250".to_string()), None);
    assert_eq!(model_from_lowercase(&"".to_string()), None);
}

#[test]
fn canonical_names() {
    assert_eq!(FirmwareType::EPD128x250.as_str(), "EPD128x250");
    assert_eq!(FirmwareType::EPD240x416.to_string(), "EPD240x416");
}

#[test]
fn set_from_str_keeps_config_on_error() {
    let mut config = init_config();
    set_default_firmware_from_str(&mut config, "240x416").unwrap();
    assert_eq!(config.default_firmware, FirmwareType::EPD240x416);
    assert!(set_default_firmware_from_str(&mut config, "nope").is_err());
    assert_eq!(config.default_firmware, FirmwareType::EPD240x416);
}

#[test]
fn default_hardware_is_cm5() {
    let config = init_config();
    let hw = get_hardware_config(&config).unwrap();
    assert_eq!(hw.platform, "cm5");
    assert_eq!(hw.spi_device, "/dev/spidev0.0");
    assert_eq!(hw.gpio_chip, "/dev/gpiochip0");
    assert_eq!((hw.dc_pin, hw.rst_pin, hw.busy_pin), (7, 13, 9));
}

#[test]
fn default_spec_follows_selection() {
    let mut config = init_config();
    let s = get_default_spec(&config).unwrap();
    assert_eq!((s.width, s.height, s.array_size()), (128, 250, 4000));
    set_default_firmware(&mut config, FirmwareType::EPD240x416).unwrap();
    let s = get_default_spec(&config).unwrap();
    assert_eq!((s.width, s.height, s.array_size()), (240, 416, 12480));
    let f = create_default_firmware(&config).unwrap();
    assert_eq!(f.get_write_ram_command(), 0x13);
}

#[test]
fn supported_models_are_byte_aligned() {
    for t in [FirmwareType::EPD128x250, FirmwareType::EPD240x416] {
        let s = t.get_spec();
        assert_eq!(s.width % 8, 0);
        assert_eq!(s.array_size(), (s.width * s.height / 8) as usize);
        assert_eq!(s.name, t.as_str());
    }
}

#[test]
fn error_codes() {
    assert_eq!(DisplayError::Gpio("x".to_string()).code(), -1);
    assert_eq!(DisplayError::Spi("x".to_string()).code(), -2);
    assert_eq!(DisplayError::Config("x".to_string()).code(), -3);
    assert_eq!(DisplayError::Timeout.code(), -4);
    assert_eq!(DisplayError::NotInitialized.code(), -5);
    assert_eq!(DisplayError::InvalidDataSize { expected: 1, actual: 2 }.code(), -6);
    assert_eq!(DisplayError::Png("x".to_string()).code(), -7);
    assert_eq!(DisplayError::Io("x".to_string()).code(), -8);
}

#[test]
fn test_firmware_type_parsing() {
    assert_eq!(FirmwareType::parse("EPD128x250").unwrap(), FirmwareType::EPD128x250);
    assert_eq!(FirmwareType::parse("128x250").unwrap(), FirmwareType::EPD128x250);
    assert_eq!(FirmwareType::parse("EPD240x416").unwrap(), FirmwareType::EPD240x416);
    assert_eq!(FirmwareType::parse("240x416").unwrap(), FirmwareType::EPD240x416);
    assert!(FirmwareType::parse("invalid").is_err());
    assert_eq!("EPD128x250".parse::<FirmwareType>().unwrap(), FirmwareType::EPD128x250);
}

#[test]
fn test_config_default() {
    let config = DisplayConfig::default();
    assert_eq!(config.default_firmware, FirmwareType::EPD128x250);
}

#[test]
fn test_set_get_firmware() {
    let mut config = init_config();
    set_default_firmware(&mut config, FirmwareType::EPD240x416).unwrap();
    assert_eq!(get_default_firmware(&config).unwrap(), FirmwareType::EPD240x416);

    set_default_firmware(&mut config, FirmwareType::EPD128x250).unwrap();
    assert_eq!(get_default_firmware(&config).unwrap(), FirmwareType::EPD128x250);
}
