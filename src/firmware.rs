//! Per-model controller data: panel geometry and the command sequences that
//! drive each controller, as plain replayable data.
use vstd::prelude::*;

use crate::error::DisplayError;

pub mod epd128x250;
pub mod epd240x416;
pub mod examples;

pub use epd128x250::EPD128x250Firmware;
pub use epd240x416::EPD240x416Firmware;

verus! {

/// Geometry and identity of one panel model.
#[derive(Debug, Clone)]
pub struct DisplaySpec {
    /// Width in pixels, in the controller's native orientation.
    pub width: u32,
    /// Height in pixels, in the controller's native orientation.
    pub height: u32,
    /// Model name.
    pub name: String,
    /// Free-form description.
    pub description: String,
}

impl DisplaySpec {
    /// Bytes in one frame of packed 1-bit image data.
    pub open spec fn frame_bytes(&self) -> int {
        (self.width * self.height) / 8
    }

    /// Rows can be packed into whole bytes.
    pub open spec fn byte_aligned(&self) -> bool {
        self.width % 8 == 0
    }

    /// Calculate the required array size in bytes for 1-bit image data.
    pub fn array_size(&self) -> (r: usize)
        requires
            self.frame_bytes() <= usize::MAX,
        ensures
            r == self.frame_bytes(),
    {
        let w = self.width as u64;
        let h = self.height as u64;
        assert(w * h <= 0xffff_ffffu64 * 0xffff_ffffu64) by (nonlinear_arith)
            requires
                w <= 0xffff_ffffu64,
                h <= 0xffff_ffffu64,
        ;
        ((w * h) / 8) as usize
    }

    /// A copy of this record.
    pub fn duplicate(&self) -> (r: DisplaySpec)
        ensures
            r == *self,
    {
        DisplaySpec {
            width: self.width,
            height: self.height,
            name: self.name.clone(),
            description: self.description.clone(),
        }
    }
}

/// One abstract operation of a controller choreography.
#[derive(Debug, Clone, Copy, PartialEq, Eq, Structural)]
pub enum Command {
    /// Write a command byte (data/command line low).
    WriteCommand(u8),
    /// Write a data byte (data/command line high).
    WriteData(u8),
    /// Block for this many milliseconds.
    Delay(u64),
    /// Poll the busy line until it clears.
    CheckStatus,
    /// Pulse the reset line.
    Reset,
}

/// An ordered list of commands, built once and replayed.
#[derive(Debug, Clone)]
pub struct CommandSequence {
    /// The commands, in execution order.
    pub commands: Vec<Command>,
}

impl View for CommandSequence {
    type V = Seq<Command>;

    open spec fn view(&self) -> Seq<Command> {
        self.commands@
    }
}

impl Default for CommandSequence {
    fn default() -> (r: Self)
        ensures
            r@ == Seq::<Command>::empty(),
    {
        CommandSequence { commands: Vec::new() }
    }
}

impl CommandSequence {
    /// Create a new empty command sequence.
    pub fn new() -> (r: Self)
        ensures
            r@ == Seq::<Command>::empty(),
    {
        CommandSequence { commands: Vec::new() }
    }

    /// Append a command byte.
    pub fn cmd(self, command: u8) -> (r: Self)
        ensures
            r@ == self@.push(Command::WriteCommand(command)),
    {
        let mut s = self;
        s.commands.push(Command::WriteCommand(command));
        s
    }

    /// Append a data byte.
    pub fn data(self, data: u8) -> (r: Self)
        ensures
            r@ == self@.push(Command::WriteData(data)),
    {
        let mut s = self;
        s.commands.push(Command::WriteData(data));
        s
    }

    /// Append a delay in milliseconds.
    pub fn delay(self, ms: u64) -> (r: Self)
        ensures
            r@ == self@.push(Command::Delay(ms)),
    {
        let mut s = self;
        s.commands.push(Command::Delay(ms));
        s
    }

    /// Append a busy-line poll.
    pub fn check_status(self) -> (r: Self)
        ensures
            r@ == self@.push(Command::CheckStatus),
    {
        let mut s = self;
        s.commands.push(Command::CheckStatus);
        s
    }

    /// Append a reset pulse.
    pub fn reset(self) -> (r: Self)
        ensures
            r@ == self@.push(Command::Reset),
    {
        let mut s = self;
        s.commands.push(Command::Reset);
        s
    }
}

/// Data-byte commands for each byte, in order.
pub open spec fn data_run(bytes: Seq<u8>) -> Seq<Command> {
    bytes.map_values(|b: u8| Command::WriteData(b))
}

/// Append a data-byte command for each byte of `bytes[lo..hi]`, in order.
pub fn append_data(base: CommandSequence, bytes: &[u8], lo: usize, hi: usize) -> (r:
    CommandSequence)
    requires
        lo <= hi <= bytes@.len(),
    ensures
        r@ == base@ + data_run(bytes@.subrange(lo as int, hi as int)),
{
    let mut s = base;
    let mut i: usize = lo;
    assert(data_run(bytes@.subrange(lo as int, lo as int)) =~= Seq::<Command>::empty());
    assert(base@ + Seq::<Command>::empty() =~= base@);
    while i < hi
        invariant
            lo <= i <= hi,
            hi <= bytes@.len(),
            s@ == base@ + data_run(bytes@.subrange(lo as int, i as int)),
        decreases hi - i,
    {
        let b = bytes[i];
        s = s.data(b);
        assert(data_run(bytes@.subrange(lo as int, i + 1)) =~= data_run(
            bytes@.subrange(lo as int, i as int),
        ).push(Command::WriteData(b)));
        assert(s@ =~= base@ + data_run(bytes@.subrange(lo as int, i + 1)));
        i = i + 1;
    }
    s
}

/// Everything a protocol engine needs from a firmware model, as values.
pub ghost struct FirmwareModel {
    pub spec: DisplaySpec,
    pub reset: Seq<Command>,
    pub init: Seq<Command>,
    pub partial_init: Seq<Command>,
    pub full_update: Seq<Command>,
    pub partial_update: Seq<Command>,
    pub sleep: Seq<Command>,
    pub write_ram: u8,
}

impl FirmwareModel {
    /// The refresh choreography for one mode.
    pub open spec fn update(self, is_partial: bool) -> Seq<Command> {
        if is_partial {
            self.partial_update
        } else {
            self.full_update
        }
    }
}

/// The reset choreography used by models that do not override it: pulse the
/// reset line, then settle for 10 ms.
pub open spec fn default_reset_commands() -> Seq<Command> {
    seq![Command::Reset, Command::Delay(10)]
}

/// Build the default reset choreography.
pub fn default_reset_sequence() -> (r: CommandSequence)
    ensures
        r@ == default_reset_commands(),
{
    let r = CommandSequence::new().reset().delay(10);
    assert(r@ =~= default_reset_commands());
    r
}

/// A controller model: its geometry and the command sequences it needs.
pub trait DisplayFirmware {
    /// This model's data, as values.
    spec fn model(&self) -> FirmwareModel;

    /// Get the display specifications.
    fn get_spec(&self) -> (r: &DisplaySpec)
        ensures
            *r == self.model().spec,
            r.frame_bytes() <= usize::MAX,
    ;

    /// Get the initialization command sequence.
    fn get_init_sequence(&self) -> (r: CommandSequence)
        ensures
            r@ == self.model().init,
    ;

    /// Get the partial update initialization sequence.
    fn get_partial_init_sequence(&self) -> (r: CommandSequence)
        ensures
            r@ == self.model().partial_init,
    ;

    /// Get the display update sequence.
    fn get_update_sequence(&self, is_partial: bool) -> (r: CommandSequence)
        ensures
            r@ == self.model().update(is_partial),
    ;

    /// Get the sleep mode sequence.
    fn get_sleep_sequence(&self) -> (r: CommandSequence)
        ensures
            r@ == self.model().sleep,
    ;

    /// Get the write RAM command byte.
    fn get_write_ram_command(&self) -> (r: u8)
        ensures
            r == self.model().write_ram,
    ;

    /// Get the hardware reset sequence.
    fn get_reset_sequence(&self) -> (r: CommandSequence)
        ensures
            r@ == self.model().reset,
    ;

    /// Check that image data holds exactly one packed frame.
    fn validate_image_size(&self, data: &[u8]) -> (r: Result<(), DisplayError>)
        ensures
            data@.len() == self.model().spec.frame_bytes() ==> r is Ok,
            data@.len() != self.model().spec.frame_bytes() ==> r == Err::<(), DisplayError>(
                DisplayError::InvalidDataSize {
                    expected: self.model().spec.frame_bytes() as usize,
                    actual: data@.len() as usize,
                },
            ),
    {
        let expected_size = self.get_spec().array_size();
        if data.len() != expected_size {
            return Err(DisplayError::InvalidDataSize { expected: expected_size, actual: data.len() });
        }
        Ok(())
    }
}

} // verus!
