//! Firmware for the 240x416 panel, with basic, fast, partial-refresh,
//! custom-LUT and 4-gray initialisation choreographies.
use vstd::prelude::*;

use crate::firmware::{
    append_data, data_run, Command, CommandSequence, DisplayFirmware, DisplaySpec, FirmwareModel,
};

verus! {

/// The 4-gray waveform table: five 42-byte register LUTs, then frame rate,
/// gate/source voltages and VCOM.
#[verifier::opaque]
pub open spec fn four_gray_lut_table() -> Seq<u8> {
    seq![
        0x01, 0x05, 0x20, 0x19, 0x0A, 0x01, 0x01, 0x05, 0x0A, 0x01, 0x0A, 0x01,
        0x01, 0x01, 0x05, 0x09, 0x02, 0x03, 0x04, 0x01, 0x01, 0x01, 0x04, 0x04,
        0x02, 0x00, 0x01, 0x01, 0x01, 0x00, 0x00, 0x00, 0x00, 0x01, 0x01, 0x01,
        0x00, 0x00, 0x00, 0x00, 0x01, 0x01, 0x01, 0x05, 0x20, 0x19, 0x0A, 0x01,
        0x01, 0x05, 0x4A, 0x01, 0x8A, 0x01, 0x01, 0x01, 0x05, 0x49, 0x02, 0x83,
        0x84, 0x01, 0x01, 0x01, 0x84, 0x84, 0x82, 0x00, 0x01, 0x01, 0x01, 0x00,
        0x00, 0x00, 0x00, 0x01, 0x01, 0x01, 0x00, 0x00, 0x00, 0x00, 0x01, 0x01,
        0x01, 0x05, 0x20, 0x99, 0x8A, 0x01, 0x01, 0x05, 0x4A, 0x01, 0x8A, 0x01,
        0x01, 0x01, 0x05, 0x49, 0x82, 0x03, 0x04, 0x01, 0x01, 0x01, 0x04, 0x04,
        0x02, 0x00, 0x01, 0x01, 0x01, 0x00, 0x00, 0x00, 0x00, 0x01, 0x01, 0x01,
        0x00, 0x00, 0x00, 0x00, 0x01, 0x01, 0x01, 0x85, 0x20, 0x99, 0x0A, 0x01,
        0x01, 0x05, 0x4A, 0x01, 0x8A, 0x01, 0x01, 0x01, 0x05, 0x49, 0x02, 0x83,
        0x04, 0x01, 0x01, 0x01, 0x04, 0x04, 0x02, 0x00, 0x01, 0x01, 0x01, 0x00,
        0x00, 0x00, 0x00, 0x01, 0x01, 0x01, 0x00, 0x00, 0x00, 0x00, 0x01, 0x01,
        0x01, 0x85, 0xA0, 0x99, 0x0A, 0x01, 0x01, 0x05, 0x4A, 0x01, 0x8A, 0x01,
        0x01, 0x01, 0x05, 0x49, 0x02, 0x43, 0x04, 0x01, 0x01, 0x01, 0x04, 0x04,
        0x42, 0x00, 0x01, 0x01, 0x01, 0x00, 0x00, 0x00, 0x00, 0x01, 0x01, 0x01,
        0x00, 0x00, 0x00, 0x00, 0x01, 0x01, 0x09, 0x10, 0x3F, 0x3F, 0x00, 0x0B,
    ]
}

/// VCOM waveform for partial refresh.
#[verifier::opaque]
pub open spec fn vcom_lut_table() -> Seq<u8> {
    seq![
        0x01, 0x0A, 0x0A, 0x0A, 0x0A, 0x01, 0x01, 0x02, 0x0F, 0x01, 0x0F, 0x01,
        0x01, 0x01, 0x01, 0x0A, 0x00, 0x0A, 0x00, 0x01, 0x01, 0x01, 0x00, 0x00,
        0x00, 0x00, 0x01, 0x01, 0x00, 0x00, 0x00, 0x00, 0x00, 0x00, 0x00, 0x00,
        0x00, 0x00, 0x00, 0x00, 0x00, 0x00,
    ]
}

/// White-to-white waveform for partial refresh.
#[verifier::opaque]
pub open spec fn ww_lut_table() -> Seq<u8> {
    seq![
        0x01, 0x4A, 0x4A, 0x0A, 0x0A, 0x01, 0x01, 0x02, 0x8F, 0x01, 0x4F, 0x01,
        0x01, 0x01, 0x01, 0x8A, 0x00, 0x8A, 0x00, 0x01, 0x01, 0x01, 0x80, 0x00,
        0x80, 0x00, 0x01, 0x01, 0x00, 0x00, 0x00, 0x00, 0x00, 0x00, 0x00, 0x00,
        0x00, 0x00, 0x00, 0x00, 0x00, 0x00,
    ]
}

/// Black-to-white waveform for partial refresh.
#[verifier::opaque]
pub open spec fn bw_lut_table() -> Seq<u8> {
    seq![
        0x01, 0x4A, 0x4A, 0x0A, 0x0A, 0x01, 0x01, 0x02, 0x8F, 0x01, 0x4F, 0x01,
        0x01, 0x01, 0x01, 0x8A, 0x00, 0x8A, 0x00, 0x01, 0x01, 0x01, 0x80, 0x00,
        0x80, 0x00, 0x01, 0x01, 0x00, 0x00, 0x00, 0x00, 0x00, 0x00, 0x00, 0x00,
        0x00, 0x00, 0x00, 0x00, 0x00, 0x00,
    ]
}

/// White-to-black waveform for partial refresh.
#[verifier::opaque]
pub open spec fn wb_lut_table() -> Seq<u8> {
    seq![
        0x01, 0x0A, 0x0A, 0x8A, 0x8A, 0x01, 0x01, 0x02, 0x8F, 0x01, 0x4F, 0x01,
        0x01, 0x01, 0x01, 0x4A, 0x00, 0x4A, 0x00, 0x01, 0x01, 0x01, 0x40, 0x00,
        0x40, 0x00, 0x01, 0x01, 0x00, 0x00, 0x00, 0x00, 0x00, 0x00, 0x00, 0x00,
        0x00, 0x00, 0x00, 0x00, 0x00, 0x00,
    ]
}

/// Black-to-black waveform for partial refresh.
#[verifier::opaque]
pub open spec fn bb_lut_table() -> Seq<u8> {
    seq![
        0x01, 0x0A, 0x0A, 0x8A, 0x8A, 0x01, 0x01, 0x02, 0x8F, 0x01, 0x4F, 0x01,
        0x01, 0x01, 0x01, 0x4A, 0x00, 0x4A, 0x00, 0x01, 0x01, 0x01, 0x40, 0x00,
        0x40, 0x00, 0x01, 0x01, 0x00, 0x00, 0x00, 0x00, 0x00, 0x00, 0x00, 0x00,
        0x00, 0x00, 0x00, 0x00, 0x00, 0x00,
    ]
}

/// Controller data for the 240x416 panel.
pub struct EPD240x416Firmware {
    spec: DisplaySpec,
    lut_4g: [u8; 216],
    lut_vcom: [u8; 42],
    lut_ww: [u8; 42],
    lut_bw: [u8; 42],
    lut_wb: [u8; 42],
    lut_bb: [u8; 42],
}

/// The spec record of this model.
pub open spec fn spec_240x416(s: DisplaySpec) -> bool {
    &&& s.width == 240
    &&& s.height == 416
    &&& s.name@ == "EPD240x416"@
}

/// Basic initialisation: power on, wait, VCOM and data interval.
pub open spec fn init_commands_240x416() -> Seq<Command> {
    seq![
        Command::WriteCommand(0x04),
        Command::CheckStatus,
        Command::WriteCommand(0x50),
        Command::WriteData(0x97),
    ]
}

/// Fast-mode initialisation, also used before a partial refresh.
pub open spec fn fast_init_commands_240x416() -> Seq<Command> {
    seq![
        Command::WriteCommand(0x04),
        Command::CheckStatus,
        Command::WriteCommand(0xE0),
        Command::WriteData(0x02),
        Command::WriteCommand(0xE5),
        Command::WriteData(0x5A),
    ]
}

/// Partial-update-mode initialisation.
pub open spec fn partial_update_init_commands_240x416() -> Seq<Command> {
    seq![
        Command::WriteCommand(0x04),
        Command::CheckStatus,
        Command::WriteCommand(0xE0),
        Command::WriteData(0x02),
        Command::WriteCommand(0xE5),
        Command::WriteData(0x6E),
        Command::WriteCommand(0x50),
        Command::WriteData(0xD7),
    ]
}

/// Refresh: the same trigger serves full and partial mode.
pub open spec fn update_commands_240x416() -> Seq<Command> {
    seq![Command::WriteCommand(0x12), Command::Delay(1), Command::CheckStatus]
}

/// Power off, wait, deep sleep.
pub open spec fn sleep_commands_240x416() -> Seq<Command> {
    seq![
        Command::WriteCommand(0x02),
        Command::CheckStatus,
        Command::WriteCommand(0x07),
        Command::WriteData(0xA5),
    ]
}

/// Reset with longer settle times than the default.
pub open spec fn reset_commands_240x416() -> Seq<Command> {
    seq![Command::Delay(100), Command::Reset, Command::Delay(20)]
}

/// 4-gray register set-up, with voltages and frame rate taken from the table.
pub open spec fn four_gray_init_commands(lut: Seq<u8>) -> Seq<Command> {
    seq![
        Command::WriteCommand(0x00),
        Command::WriteData(0xFF),
        Command::WriteData(0x0D),
        Command::WriteCommand(0x01),
        Command::WriteData(0x03),
        Command::WriteData(lut[211]),
        Command::WriteData(lut[212]),
        Command::WriteData(lut[213]),
        Command::WriteData(lut[214]),
        Command::WriteCommand(0x06),
        Command::WriteData(0xD7),
        Command::WriteData(0xD7),
        Command::WriteData(0x27),
        Command::WriteCommand(0x30),
        Command::WriteData(lut[210]),
        Command::WriteCommand(0x50),
        Command::WriteData(0x57),
        Command::WriteCommand(0x60),
        Command::WriteData(0x22),
        Command::WriteCommand(0x61),
        Command::WriteData(0xF0),
        Command::WriteData(0x01),
        Command::WriteData(0xA0),
        Command::WriteCommand(0x65),
        Command::WriteData(0x00),
        Command::WriteCommand(0x82),
        Command::WriteData(lut[215]),
        Command::WriteCommand(0xE3),
        Command::WriteData(0x88),
    ]
}

/// The five 42-byte register LUTs of the 4-gray table, each after its
/// register opcode (0x20 to 0x24).
pub open spec fn four_gray_lut_commands(lut: Seq<u8>) -> Seq<Command> {
    seq![Command::WriteCommand(0x20)] + data_run(lut.subrange(0, 42))
        + seq![Command::WriteCommand(0x21)] + data_run(lut.subrange(42, 84))
        + seq![Command::WriteCommand(0x22)] + data_run(lut.subrange(84, 126))
        + seq![Command::WriteCommand(0x23)] + data_run(lut.subrange(126, 168))
        + seq![Command::WriteCommand(0x24)] + data_run(lut.subrange(168, 210))
}

/// Register set-up for refresh driven by custom LUTs.
pub open spec fn lut_init_prefix_commands() -> Seq<Command> {
    seq![
        Command::WriteCommand(0x04),
        Command::CheckStatus,
        Command::WriteCommand(0x00),
        Command::WriteData(0xF7),
        Command::WriteCommand(0x09),
        Command::WriteCommand(0x01),
        Command::WriteData(0x03),
        Command::WriteData(0x10),
        Command::WriteData(0x3F),
        Command::WriteData(0x3F),
        Command::WriteData(0x3F),
        Command::WriteCommand(0x06),
        Command::WriteData(0xD7),
        Command::WriteData(0xD7),
        Command::WriteData(0x33),
        Command::WriteCommand(0x30),
        Command::WriteData(0x09),
        Command::WriteCommand(0x50),
        Command::WriteData(0xD7),
        Command::WriteCommand(0x61),
        Command::WriteData(0xF0),
        Command::WriteData(0x01),
        Command::WriteData(0xA0),
        Command::WriteCommand(0x2A),
        Command::WriteData(0x80),
        Command::WriteData(0x00),
        Command::WriteData(0x00),
        Command::WriteData(0xFF),
        Command::WriteData(0x00),
        Command::WriteCommand(0x82),
        Command::WriteData(0x0F),
    ]
}

/// Custom-LUT initialisation: register set-up, then the five partial-refresh
/// LUTs, each after its register opcode (0x20 to 0x24).
pub open spec fn lut_init_commands(
    vcom: Seq<u8>,
    ww: Seq<u8>,
    bw: Seq<u8>,
    wb: Seq<u8>,
    bb: Seq<u8>,
) -> Seq<Command> {
    lut_init_prefix_commands()
        + seq![Command::WriteCommand(0x20)] + data_run(vcom)
        + seq![Command::WriteCommand(0x21)] + data_run(ww)
        + seq![Command::WriteCommand(0x22)] + data_run(bw)
        + seq![Command::WriteCommand(0x23)] + data_run(wb)
        + seq![Command::WriteCommand(0x24)] + data_run(bb)
}

/// The full data of this model.
pub open spec fn is_240x416_model(m: FirmwareModel) -> bool {
    &&& spec_240x416(m.spec)
    &&& m.reset == reset_commands_240x416()
    &&& m.init == init_commands_240x416()
    &&& m.partial_init == fast_init_commands_240x416()
    &&& m.full_update == update_commands_240x416()
    &&& m.partial_update == update_commands_240x416()
    &&& m.sleep == sleep_commands_240x416()
    &&& m.write_ram == 0x13
}

impl EPD240x416Firmware {
    #[verifier::type_invariant]
    spec fn tables(&self) -> bool {
        &&& spec_240x416(self.spec)
        &&& self.lut_4g@ == four_gray_lut_table()
        &&& self.lut_vcom@ == vcom_lut_table()
        &&& self.lut_ww@ == ww_lut_table()
        &&& self.lut_bw@ == bw_lut_table()
        &&& self.lut_wb@ == wb_lut_table()
        &&& self.lut_bb@ == bb_lut_table()
    }

    /// Create a new firmware instance.
    pub fn new() -> (r: Self)
        ensures
            is_240x416_model(r.model()),
    {
        proof {
            reveal_strlit("EPD240x416");
        }
        let lut_4g: [u8; 216] = [
                0x01, 0x05, 0x20, 0x19, 0x0A, 0x01, 0x01, 0x05, 0x0A, 0x01, 0x0A, 0x01,
                0x01, 0x01, 0x05, 0x09, 0x02, 0x03, 0x04, 0x01, 0x01, 0x01, 0x04, 0x04,
                0x02, 0x00, 0x01, 0x01, 0x01, 0x00, 0x00, 0x00, 0x00, 0x01, 0x01, 0x01,
                0x00, 0x00, 0x00, 0x00, 0x01, 0x01, 0x01, 0x05, 0x20, 0x19, 0x0A, 0x01,
                0x01, 0x05, 0x4A, 0x01, 0x8A, 0x01, 0x01, 0x01, 0x05, 0x49, 0x02, 0x83,
                0x84, 0x01, 0x01, 0x01, 0x84, 0x84, 0x82, 0x00, 0x01, 0x01, 0x01, 0x00,
                0x00, 0x00, 0x00, 0x01, 0x01, 0x01, 0x00, 0x00, 0x00, 0x00, 0x01, 0x01,
                0x01, 0x05, 0x20, 0x99, 0x8A, 0x01, 0x01, 0x05, 0x4A, 0x01, 0x8A, 0x01,
                0x01, 0x01, 0x05, 0x49, 0x82, 0x03, 0x04, 0x01, 0x01, 0x01, 0x04, 0x04,
                0x02, 0x00, 0x01, 0x01, 0x01, 0x00, 0x00, 0x00, 0x00, 0x01, 0x01, 0x01,
                0x00, 0x00, 0x00, 0x00, 0x01, 0x01, 0x01, 0x85, 0x20, 0x99, 0x0A, 0x01,
                0x01, 0x05, 0x4A, 0x01, 0x8A, 0x01, 0x01, 0x01, 0x05, 0x49, 0x02, 0x83,
                0x04, 0x01, 0x01, 0x01, 0x04, 0x04, 0x02, 0x00, 0x01, 0x01, 0x01, 0x00,
                0x00, 0x00, 0x00, 0x01, 0x01, 0x01, 0x00, 0x00, 0x00, 0x00, 0x01, 0x01,
                0x01, 0x85, 0xA0, 0x99, 0x0A, 0x01, 0x01, 0x05, 0x4A, 0x01, 0x8A, 0x01,
                0x01, 0x01, 0x05, 0x49, 0x02, 0x43, 0x04, 0x01, 0x01, 0x01, 0x04, 0x04,
                0x42, 0x00, 0x01, 0x01, 0x01, 0x00, 0x00, 0x00, 0x00, 0x01, 0x01, 0x01,
                0x00, 0x00, 0x00, 0x00, 0x01, 0x01, 0x09, 0x10, 0x3F, 0x3F, 0x00, 0x0B,
        ];
        let lut_vcom: [u8; 42] = [
                0x01, 0x0A, 0x0A, 0x0A, 0x0A, 0x01, 0x01, 0x02, 0x0F, 0x01, 0x0F, 0x01,
                0x01, 0x01, 0x01, 0x0A, 0x00, 0x0A, 0x00, 0x01, 0x01, 0x01, 0x00, 0x00,
                0x00, 0x00, 0x01, 0x01, 0x00, 0x00, 0x00, 0x00, 0x00, 0x00, 0x00, 0x00,
                0x00, 0x00, 0x00, 0x00, 0x00, 0x00,
        ];
        let lut_ww: [u8; 42] = [
                0x01, 0x4A, 0x4A, 0x0A, 0x0A, 0x01, 0x01, 0x02, 0x8F, 0x01, 0x4F, 0x01,
                0x01, 0x01, 0x01, 0x8A, 0x00, 0x8A, 0x00, 0x01, 0x01, 0x01, 0x80, 0x00,
                0x80, 0x00, 0x01, 0x01, 0x00, 0x00, 0x00, 0x00, 0x00, 0x00, 0x00, 0x00,
                0x00, 0x00, 0x00, 0x00, 0x00, 0x00,
        ];
        let lut_bw: [u8; 42] = [
                0x01, 0x4A, 0x4A, 0x0A, 0x0A, 0x01, 0x01, 0x02, 0x8F, 0x01, 0x4F, 0x01,
                0x01, 0x01, 0x01, 0x8A, 0x00, 0x8A, 0x00, 0x01, 0x01, 0x01, 0x80, 0x00,
                0x80, 0x00, 0x01, 0x01, 0x00, 0x00, 0x00, 0x00, 0x00, 0x00, 0x00, 0x00,
                0x00, 0x00, 0x00, 0x00, 0x00, 0x00,
        ];
        let lut_wb: [u8; 42] = [
                0x01, 0x0A, 0x0A, 0x8A, 0x8A, 0x01, 0x01, 0x02, 0x8F, 0x01, 0x4F, 0x01,
                0x01, 0x01, 0x01, 0x4A, 0x00, 0x4A, 0x00, 0x01, 0x01, 0x01, 0x40, 0x00,
                0x40, 0x00, 0x01, 0x01, 0x00, 0x00, 0x00, 0x00, 0x00, 0x00, 0x00, 0x00,
                0x00, 0x00, 0x00, 0x00, 0x00, 0x00,
        ];
        let lut_bb: [u8; 42] = [
                0x01, 0x0A, 0x0A, 0x8A, 0x8A, 0x01, 0x01, 0x02, 0x8F, 0x01, 0x4F, 0x01,
                0x01, 0x01, 0x01, 0x4A, 0x00, 0x4A, 0x00, 0x01, 0x01, 0x01, 0x40, 0x00,
                0x40, 0x00, 0x01, 0x01, 0x00, 0x00, 0x00, 0x00, 0x00, 0x00, 0x00, 0x00,
                0x00, 0x00, 0x00, 0x00, 0x00, 0x00,
        ];
        reveal(four_gray_lut_table);
        reveal(vcom_lut_table);
        reveal(ww_lut_table);
        reveal(bw_lut_table);
        reveal(wb_lut_table);
        reveal(bb_lut_table);
        assert(lut_4g@ =~= four_gray_lut_table());
        assert(lut_vcom@ =~= vcom_lut_table());
        assert(lut_ww@ =~= ww_lut_table());
        assert(lut_bw@ =~= bw_lut_table());
        assert(lut_wb@ =~= wb_lut_table());
        assert(lut_bb@ =~= bb_lut_table());
        EPD240x416Firmware {
            spec: DisplaySpec {
                width: 240,
                height: 416,
                name: String::from_str("EPD240x416"),
                description: String::from_str(
                    "240x416 E-ink display with 4-gray and partial update support",
                ),
            },
            lut_4g,
            lut_vcom,
            lut_ww,
            lut_bw,
            lut_wb,
            lut_bb,
        }
    }

    /// Initialisation sequence for 4-gray mode.
    pub fn get_4g_init_sequence(&self) -> (r: CommandSequence)
        ensures
            r@ == four_gray_init_commands(four_gray_lut_table()),
    {
        proof {
            use_type_invariant(self);
        }
        let r = CommandSequence::new()
            .cmd(0x00)
            .data(0xFF)
            .data(0x0D)
            .cmd(0x01)
            .data(0x03)
            .data(self.lut_4g[211])
            .data(self.lut_4g[212])
            .data(self.lut_4g[213])
            .data(self.lut_4g[214])
            .cmd(0x06)
            .data(0xD7)
            .data(0xD7)
            .data(0x27)
            .cmd(0x30)
            .data(self.lut_4g[210])
            .cmd(0x50)
            .data(0x57)
            .cmd(0x60)
            .data(0x22)
            .cmd(0x61)
            .data(0xF0)
            .data(0x01)
            .data(0xA0)
            .cmd(0x65)
            .data(0x00)
            .cmd(0x82)
            .data(self.lut_4g[215])
            .cmd(0xE3)
            .data(0x88);
        assert(r@ =~= four_gray_init_commands(four_gray_lut_table()));
        r
    }

    /// The 4-gray LUT upload sequence.
    pub fn get_4g_lut_sequence(&self) -> (r: CommandSequence)
        ensures
            r@ == four_gray_lut_commands(four_gray_lut_table()),
    {
        proof {
            use_type_invariant(self);
        }
        let lut = self.lut_4g.as_slice();
        let mut s = CommandSequence::new();
        s = s.cmd(0x20);
        s = append_data(s, lut, 0, 42);
        s = s.cmd(0x21);
        s = append_data(s, lut, 42, 84);
        s = s.cmd(0x22);
        s = append_data(s, lut, 84, 126);
        s = s.cmd(0x23);
        s = append_data(s, lut, 126, 168);
        s = s.cmd(0x24);
        s = append_data(s, lut, 168, 210);
        assert(s@ =~= four_gray_lut_commands(four_gray_lut_table()));
        s
    }

    /// Initialisation sequence for fast mode.
    pub fn get_fast_init_sequence(&self) -> (r: CommandSequence)
        ensures
            r@ == fast_init_commands_240x416(),
    {
        let r = CommandSequence::new().cmd(0x04).check_status().cmd(0xE0).data(0x02).cmd(0xE5).data(
            0x5A,
        );
        assert(r@ =~= fast_init_commands_240x416());
        r
    }

    /// Initialisation sequence for partial update mode.
    pub fn get_partial_update_init_sequence(&self) -> (r: CommandSequence)
        ensures
            r@ == partial_update_init_commands_240x416(),
    {
        let r = CommandSequence::new()
            .cmd(0x04)
            .check_status()
            .cmd(0xE0)
            .data(0x02)
            .cmd(0xE5)
            .data(0x6E)
            .cmd(0x50)
            .data(0xD7);
        assert(r@ =~= partial_update_init_commands_240x416());
        r
    }

    /// Initialisation sequence for custom-LUT mode.
    pub fn get_lut_init_sequence(&self) -> (r: CommandSequence)
        ensures
            r@ == lut_init_commands(
                vcom_lut_table(),
                ww_lut_table(),
                bw_lut_table(),
                wb_lut_table(),
                bb_lut_table(),
            ),
    {
        proof {
            use_type_invariant(self);
        }
        let mut s = CommandSequence::new()
            .cmd(0x04)
            .check_status()
            .cmd(0x00)
            .data(0xF7)
            .cmd(0x09)
            .cmd(0x01)
            .data(0x03)
            .data(0x10)
            .data(0x3F)
            .data(0x3F)
            .data(0x3F)
            .cmd(0x06)
            .data(0xD7)
            .data(0xD7)
            .data(0x33)
            .cmd(0x30)
            .data(0x09)
            .cmd(0x50)
            .data(0xD7)
            .cmd(0x61)
            .data(0xF0)
            .data(0x01)
            .data(0xA0)
            .cmd(0x2A)
            .data(0x80)
            .data(0x00)
            .data(0x00)
            .data(0xFF)
            .data(0x00)
            .cmd(0x82)
            .data(0x0F);
        assert(s@ =~= lut_init_prefix_commands());
        s = s.cmd(0x20);
        s = append_data(s, self.lut_vcom.as_slice(), 0, 42);
        s = s.cmd(0x21);
        s = append_data(s, self.lut_ww.as_slice(), 0, 42);
        s = s.cmd(0x22);
        s = append_data(s, self.lut_bw.as_slice(), 0, 42);
        s = s.cmd(0x23);
        s = append_data(s, self.lut_wb.as_slice(), 0, 42);
        s = s.cmd(0x24);
        s = append_data(s, self.lut_bb.as_slice(), 0, 42);
        assert(vcom_lut_table().subrange(0, 42) =~= vcom_lut_table());
        assert(ww_lut_table().subrange(0, 42) =~= ww_lut_table());
        assert(bw_lut_table().subrange(0, 42) =~= bw_lut_table());
        assert(wb_lut_table().subrange(0, 42) =~= wb_lut_table());
        assert(bb_lut_table().subrange(0, 42) =~= bb_lut_table());
        assert(s@ =~= lut_init_commands(
            vcom_lut_table(),
            ww_lut_table(),
            bw_lut_table(),
            wb_lut_table(),
            bb_lut_table(),
        ));
        s
    }
}

impl DisplayFirmware for EPD240x416Firmware {
    closed spec fn model(&self) -> FirmwareModel {
        FirmwareModel {
            spec: self.spec,
            reset: reset_commands_240x416(),
            init: init_commands_240x416(),
            partial_init: fast_init_commands_240x416(),
            full_update: update_commands_240x416(),
            partial_update: update_commands_240x416(),
            sleep: sleep_commands_240x416(),
            write_ram: 0x13,
        }
    }

    fn get_spec(&self) -> (r: &DisplaySpec) {
        proof {
            use_type_invariant(self);
        }
        &self.spec
    }

    fn get_init_sequence(&self) -> (r: CommandSequence) {
        let r = CommandSequence::new().cmd(0x04).check_status().cmd(0x50).data(0x97);
        assert(r@ =~= init_commands_240x416());
        r
    }

    fn get_partial_init_sequence(&self) -> (r: CommandSequence) {
        self.get_fast_init_sequence()
    }

    fn get_update_sequence(&self, is_partial: bool) -> (r: CommandSequence) {
        let r = CommandSequence::new().cmd(0x12).delay(1).check_status();
        assert(r@ =~= update_commands_240x416());
        r
    }

    fn get_sleep_sequence(&self) -> (r: CommandSequence) {
        let r = CommandSequence::new().cmd(0x02).check_status().cmd(0x07).data(0xA5);
        assert(r@ =~= sleep_commands_240x416());
        r
    }

    fn get_write_ram_command(&self) -> (r: u8) {
        0x13
    }

    fn get_reset_sequence(&self) -> (r: CommandSequence) {
        let r = CommandSequence::new().delay(100).reset().delay(20);
        assert(r@ =~= reset_commands_240x416());
        r
    }
}

impl Default for EPD240x416Firmware {
    fn default() -> (r: Self)
        ensures
            is_240x416_model(r.model()),
    {
        Self::new()
    }
}

} // verus!
