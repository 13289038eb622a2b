//! Worked examples of driving the supported models through a session.
use vstd::prelude::*;

use crate::display::{DisplayDriver, GenericDisplay};
use crate::error::DisplayError;
use crate::firmware::{EPD128x250Firmware, EPD240x416Firmware};
use crate::hardware::{DelayController, GpioController, SpiController};
use crate::protocol::create_protocol_with_firmware;

verus! {

/// The 240x416 panel: open, initialise, clear, close.
pub fn example_240x416_4gray<G: GpioController, S: SpiController, D: DelayController>() -> (r:
    Result<(), DisplayError>) {
    let firmware = EPD240x416Firmware::new();
    let protocol = create_protocol_with_firmware::<G, S, D, EPD240x416Firmware>(firmware)?;
    let mut display = GenericDisplay::new(protocol);
    display.init()?;
    display.clear()?;
    display.cleanup()?;
    Ok(())
}

/// The 240x416 panel: open, initialise, close.
pub fn example_240x416_fast<G: GpioController, S: SpiController, D: DelayController>() -> (r:
    Result<(), DisplayError>) {
    let firmware = EPD240x416Firmware::new();
    let protocol = create_protocol_with_firmware::<G, S, D, EPD240x416Firmware>(firmware)?;
    let mut display = GenericDisplay::new(protocol);
    display.init()?;
    display.cleanup()?;
    Ok(())
}

/// A model chosen at compile time (here the 128x250 panel): open,
/// initialise, clear, close.
pub fn example_compile_time_switch<G: GpioController, S: SpiController, D: DelayController>() -> (r:
    Result<(), DisplayError>) {
    let firmware = EPD128x250Firmware::new();
    let protocol = create_protocol_with_firmware::<G, S, D, EPD128x250Firmware>(firmware)?;
    let mut display = GenericDisplay::new(protocol);
    display.init()?;
    display.clear()?;
    display.cleanup()?;
    Ok(())
}

/// A model chosen at run time by its size (`240x416` or `128x250`): open,
/// initialise, close. Any other name is refused before touching hardware.
pub fn example_runtime_switch<G: GpioController, S: SpiController, D: DelayController>(
    display_type: &str,
) -> (r: Result<(), DisplayError>)
    ensures
        display_type@ != "240x416"@ && display_type@ != "128x250"@ ==> r matches Err(
            DisplayError::Png(_),
        ),
{
    let name = String::from_str(display_type);
    if name == String::from_str("240x416") {
        let firmware = EPD240x416Firmware::new();
        let protocol = create_protocol_with_firmware::<G, S, D, EPD240x416Firmware>(firmware)?;
        let mut display = GenericDisplay::new(protocol);
        display.init()?;
        display.cleanup()?;
    } else if name == String::from_str("128x250") {
        let firmware = EPD128x250Firmware::new();
        let protocol = create_protocol_with_firmware::<G, S, D, EPD128x250Firmware>(firmware)?;
        let mut display = GenericDisplay::new(protocol);
        display.init()?;
        display.cleanup()?;
    } else {
        return Err(DisplayError::Png(String::from_str("Unknown display type")));
    }
    Ok(())
}

/// A new model is added by writing its spec and its sequences as a
/// `DisplayFirmware` (see the two supported models), then binding it with
/// `create_protocol_with_firmware` like any other.
pub fn example_custom_firmware() {
}

} // verus!
