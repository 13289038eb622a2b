//! Firmware for the 128x250 panel.
//!
//! The controller is natively 128 pixels wide and 250 tall (portrait); the
//! panel is usually mounted rotated to read as 250x128 landscape. Bit packing
//! always follows the native orientation: rotating for the mounted view is the
//! caller's business.
use vstd::prelude::*;

use crate::firmware::{
    default_reset_commands, default_reset_sequence, Command, CommandSequence, DisplayFirmware,
    DisplaySpec, FirmwareModel,
};

verus! {

/// Controller data for the 128x250 panel.
pub struct EPD128x250Firmware {
    spec: DisplaySpec,
}

/// Low byte of the last gate line.
pub open spec fn last_line_lo(height: u32) -> u8 {
    ((height - 1) % 256) as u8
}

/// High byte of the last gate line.
pub open spec fn last_line_hi(height: u32) -> u8 {
    ((height - 1) / 256) as u8
}

/// Software reset, gate and RAM window set-up for a panel of the given size.
pub open spec fn init_commands_128x250(width: u32, height: u32) -> Seq<Command> {
    seq![
        Command::WriteCommand(0x12),
        Command::CheckStatus,
        Command::WriteCommand(0x01),
        Command::WriteData(last_line_lo(height)),
        Command::WriteData(last_line_hi(height)),
        Command::WriteData(0x00),
        Command::WriteCommand(0x11),
        Command::WriteData(0x01),
        Command::WriteCommand(0x44),
        Command::WriteData(0x00),
        Command::WriteData((width / 8 - 1) as u8),
        Command::WriteCommand(0x45),
        Command::WriteData(last_line_lo(height)),
        Command::WriteData(last_line_hi(height)),
        Command::WriteData(0x00),
        Command::WriteData(0x00),
        Command::WriteCommand(0x3C),
        Command::WriteData(0x05),
        Command::WriteCommand(0x21),
        Command::WriteData(0x00),
        Command::WriteData(0x80),
        Command::WriteCommand(0x18),
        Command::WriteData(0x80),
        Command::WriteCommand(0x4E),
        Command::WriteData(0x00),
        Command::WriteCommand(0x4F),
        Command::WriteData(last_line_lo(height)),
        Command::WriteData(last_line_hi(height)),
        Command::CheckStatus,
    ]
}

/// Border setting for partial refresh.
pub open spec fn partial_init_commands_128x250() -> Seq<Command> {
    seq![Command::WriteCommand(0x3C), Command::WriteData(0x80)]
}

/// Refresh trigger: update control value, activate, wait.
pub open spec fn update_commands_128x250(is_partial: bool) -> Seq<Command> {
    seq![
        Command::WriteCommand(0x22),
        Command::WriteData(if is_partial { 0xFF } else { 0xF7 }),
        Command::WriteCommand(0x20),
        Command::CheckStatus,
    ]
}

/// Deep sleep, then settle.
pub open spec fn sleep_commands_128x250() -> Seq<Command> {
    seq![Command::WriteCommand(0x10), Command::WriteData(0x01), Command::Delay(100)]
}

/// The spec record of this model.
pub open spec fn spec_128x250(s: DisplaySpec) -> bool {
    &&& s.width == 128
    &&& s.height == 250
    &&& s.name@ == "EPD128x250"@
}

/// The full data of this model.
pub open spec fn is_128x250_model(m: FirmwareModel) -> bool {
    &&& spec_128x250(m.spec)
    &&& m.reset == default_reset_commands()
    &&& m.init == init_commands_128x250(128, 250)
    &&& m.partial_init == partial_init_commands_128x250()
    &&& m.full_update == update_commands_128x250(false)
    &&& m.partial_update == update_commands_128x250(true)
    &&& m.sleep == sleep_commands_128x250()
    &&& m.write_ram == 0x24
}

impl EPD128x250Firmware {
    #[verifier::type_invariant]
    spec fn geometry(&self) -> bool {
        spec_128x250(self.spec)
    }

    /// Create a new firmware instance (native 128 wide, 250 tall).
    pub fn new() -> (r: Self)
        ensures
            is_128x250_model(r.model()),
    {
        proof {
            reveal_strlit("EPD128x250");
        }
        EPD128x250Firmware {
            spec: DisplaySpec {
                width: 128,
                height: 250,
                name: String::from_str("EPD128x250"),
                description: String::from_str(
                    "EPD128x250 E-ink display (native: 128x250 portrait, mounted: 250x128 landscape)",
                ),
            },
        }
    }
}

impl DisplayFirmware for EPD128x250Firmware {
    closed spec fn model(&self) -> FirmwareModel {
        FirmwareModel {
            spec: self.spec,
            reset: default_reset_commands(),
            init: init_commands_128x250(self.spec.width, self.spec.height),
            partial_init: partial_init_commands_128x250(),
            full_update: update_commands_128x250(false),
            partial_update: update_commands_128x250(true),
            sleep: sleep_commands_128x250(),
            write_ram: 0x24,
        }
    }

    fn get_spec(&self) -> (r: &DisplaySpec) {
        proof {
            use_type_invariant(self);
        }
        &self.spec
    }

    fn get_init_sequence(&self) -> (r: CommandSequence) {
        proof {
            use_type_invariant(self);
        }
        let height = self.spec.height;
        let width = self.spec.width;
        let lo = ((height - 1) % 256) as u8;
        let hi = ((height - 1) / 256) as u8;
        let r = CommandSequence::new()
            .cmd(0x12)
            .check_status()
            .cmd(0x01)
            .data(lo)
            .data(hi)
            .data(0x00)
            .cmd(0x11)
            .data(0x01)
            .cmd(0x44)
            .data(0x00)
            .data((width / 8 - 1) as u8)
            .cmd(0x45)
            .data(lo)
            .data(hi)
            .data(0x00)
            .data(0x00)
            .cmd(0x3C)
            .data(0x05)
            .cmd(0x21)
            .data(0x00)
            .data(0x80)
            .cmd(0x18)
            .data(0x80)
            .cmd(0x4E)
            .data(0x00)
            .cmd(0x4F)
            .data(lo)
            .data(hi)
            .check_status();
        assert(r@ =~= init_commands_128x250(width, height));
        r
    }

    fn get_partial_init_sequence(&self) -> (r: CommandSequence) {
        let r = CommandSequence::new().cmd(0x3C).data(0x80);
        assert(r@ =~= partial_init_commands_128x250());
        r
    }

    fn get_update_sequence(&self, is_partial: bool) -> (r: CommandSequence) {
        let r = if is_partial {
            CommandSequence::new().cmd(0x22).data(0xFF).cmd(0x20).check_status()
        } else {
            CommandSequence::new().cmd(0x22).data(0xF7).cmd(0x20).check_status()
        };
        assert(r@ =~= update_commands_128x250(is_partial));
        r
    }

    fn get_sleep_sequence(&self) -> (r: CommandSequence) {
        let r = CommandSequence::new().cmd(0x10).data(0x01).delay(100);
        assert(r@ =~= sleep_commands_128x250());
        r
    }

    fn get_write_ram_command(&self) -> (r: u8) {
        0x24
    }

    fn get_reset_sequence(&self) -> (r: CommandSequence) {
        default_reset_sequence()
    }
}

impl Default for EPD128x250Firmware {
    fn default() -> (r: Self)
        ensures
            is_128x250_model(r.model()),
    {
        Self::new()
    }
}

} // verus!
