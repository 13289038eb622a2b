//! Driver library for SPI/GPIO e-ink panels: per-model command choreography,
//! a protocol engine that replays it against the hardware, display sessions,
//! and 1-bit image utilities.
pub mod error;
pub mod firmware;
pub mod hardware;
pub mod protocol;
pub mod config;
pub mod display;
pub mod image;
pub mod image_processing;

pub use config::{
    get_default_firmware, init_config, set_default_firmware, set_default_firmware_from_str,
    DisplayConfig, FirmwareType, HardwareConfig,
};
pub use display::{DefaultDisplay, DisplayDriver, GenericDisplay};
pub use error::DisplayError;
pub use firmware::{Command, CommandSequence, DisplayFirmware, DisplaySpec};
pub use hardware::{DelayController, GpioController, HardwareInterface, SpiController};
pub use image::{create_black_image, create_white_image, get_dimensions};
pub use image_processing::ImageProcessor;
pub use protocol::{DisplayMode, EinkProtocol};
