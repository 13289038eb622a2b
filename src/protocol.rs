//! The protocol engine: replays command sequences against the hardware and
//! provides the steps that a display session composes (hardware init,
//! partial-mode init, image write, refresh, sleep).
use vstd::prelude::*;

use crate::config::{model_of_kind, FirmwareType};
use crate::error::DisplayError;
use crate::firmware::{
    Command, CommandSequence, DisplayFirmware, DisplaySpec, EPD128x250Firmware, EPD240x416Firmware,
    FirmwareModel,
};
use crate::hardware::{
    accepted, accepted_send_succeeds, all_accepted, lemma_send_extend, send_parse, shifted,
    DelayController, GpioController, HardwareInterface, Op, SpiController,
};

verus! {

/// Most busy-line reads that are followed by a wait before giving up.
pub const BUSY_POLL_LIMIT: u32 = 1000;

/// Wait between two busy-line reads, in milliseconds.
pub const BUSY_POLL_INTERVAL_MS: u64 = 10;

/// Settle time before each command or data byte, in microseconds.
pub const BYTE_SETTLE_US: u64 = 10;

/// Settle time after each edge of the reset pulse, in milliseconds.
pub const RESET_SETTLE_MS: u64 = 10;

/// Refresh modes.
#[derive(Debug, Clone, Copy, PartialEq, Eq, Structural)]
pub enum DisplayMode {
    /// Full refresh (slow, high quality).
    Full,
    /// Partial refresh (fast, may accumulate ghosting).
    Partial,
}

impl DisplayMode {
    /// Whether this mode is a partial refresh.
    pub open spec fn partial(self) -> bool {
        self is Partial
    }
}

/// One step that the engine performs: a command, or the transfer of a
/// frame of image data.
pub ghost enum Act {
    Cmd(Command),
    Image(Seq<u8>),
}

/// The steps of a command sequence.
pub open spec fn acts_of(cmds: Seq<Command>) -> Seq<Act> {
    cmds.map_values(|c: Command| Act::Cmd(c))
}

/// Reads a status check from the front of `ops`, `k` waits into it: each
/// busy read is followed by one poll interval, until a read sees the line
/// idle (success), a read fails (its error), or a read after
/// `BUSY_POLL_LIMIT` waits still sees it busy (timeout).
pub open spec fn busy_parse(ops: Seq<Op>, k: nat) -> Option<(nat, Result<(), DisplayError>)>
    decreases ops.len(),
{
    if ops.len() == 0 || !(ops[0] is Busy) {
        None
    } else {
        match ops[0]->Busy_0 {
            Err(e) => Some((1, Err(e))),
            Ok(busy) => if !busy {
                Some((1, Ok(())))
            } else if k >= BUSY_POLL_LIMIT {
                Some((1, Err(DisplayError::Timeout)))
            } else if ops.len() >= 2 && ops[1] == Op::Wait((BUSY_POLL_INTERVAL_MS * 1000) as nat) {
                match busy_parse(ops.skip(2), k + 1) {
                    Some(t) => Some(((t.0 + 2) as nat, t.1)),
                    None => None,
                }
            } else {
                None
            },
        }
    }
}

/// Reads one byte write from the front of `ops`: the settle pause, the
/// data/command line (high for data), then the byte, up to the first failure.
pub open spec fn byte_parse(is_data: bool, b: u8, ops: Seq<Op>) -> Option<(nat, Result<(), DisplayError>)> {
    if ops.len() >= 2 && ops[0] == Op::Wait(BYTE_SETTLE_US as nat) && ops[1] is Dc && ops[1]->Dc_0
        == is_data {
        if ops[1]->Dc_1 is Err {
            Some((2, ops[1]->Dc_1))
        } else if ops.len() >= 3 && ops[2] is Bytes && ops[2]->Bytes_0 == seq![b] {
            Some((3, ops[2]->Bytes_1))
        } else {
            None
        }
    } else {
        None
    }
}

/// Reads a reset pulse from the front of `ops`: reset low, settle, high,
/// settle, up to the first failure.
pub open spec fn reset_parse(ops: Seq<Op>) -> Option<(nat, Result<(), DisplayError>)> {
    let settle = Op::Wait((RESET_SETTLE_MS * 1000) as nat);
    if ops.len() >= 1 && ops[0] is Rst && !ops[0]->Rst_0 {
        if ops[0]->Rst_1 is Err {
            Some((1, ops[0]->Rst_1))
        } else if ops.len() >= 3 && ops[1] == settle && ops[2] is Rst && ops[2]->Rst_0 {
            if ops[2]->Rst_1 is Err {
                Some((3, ops[2]->Rst_1))
            } else if ops.len() >= 4 && ops[3] == settle {
                Some((4, Ok(())))
            } else {
                None
            }
        } else {
            None
        }
    } else {
        None
    }
}

/// Reads one step from the front of `ops`: the number of operations it took
/// and its outcome. A frame transfer drives the data/command line high, then
/// sends the payload.
pub open spec fn step_parse(a: Act, ops: Seq<Op>) -> Option<(nat, Result<(), DisplayError>)> {
    match a {
        Act::Cmd(Command::WriteCommand(b)) => byte_parse(false, b, ops),
        Act::Cmd(Command::WriteData(b)) => byte_parse(true, b, ops),
        Act::Cmd(Command::Delay(ms)) => if ops.len() >= 1 && ops[0] == Op::Wait((ms as nat) * 1000) {
            Some((1, Ok(())))
        } else {
            None
        },
        Act::Cmd(Command::CheckStatus) => busy_parse(ops, 0),
        Act::Cmd(Command::Reset) => reset_parse(ops),
        Act::Image(data) => if ops.len() >= 1 && ops[0] is Dc && ops[0]->Dc_0 {
            if ops[0]->Dc_1 is Err {
                Some((1, ops[0]->Dc_1))
            } else {
                match send_parse(data, ops.skip(1)) {
                    Some(t) => Some(((t.0 + 1) as nat, t.1)),
                    None => None,
                }
            }
        } else {
            None
        },
    }
}

/// Reads the steps `acts` from the front of `ops`, in order, stopping at the
/// first failed step: the number of operations taken and the outcome.
pub open spec fn run_parse(acts: Seq<Act>, ops: Seq<Op>) -> Option<(nat, Result<(), DisplayError>)>
    decreases acts.len(),
{
    if acts.len() == 0 {
        Some((0, Ok(())))
    } else {
        match step_parse(acts[0], ops) {
            None => None,
            Some(t) => if t.1 is Err || t.0 > ops.len() {
                Some(t)
            } else {
                match run_parse(acts.skip(1), ops.skip(t.0 as int)) {
                    Some(u) => Some(((t.0 + u.0) as nat, u.1)),
                    None => None,
                }
            },
        }
    }
}

/// The log went from `before` to `after` by performing `acts` in order with
/// result `r`: each step issued exactly its operations, the run stopped at
/// the first step that failed, and `r` is that step's error, or `Ok` when
/// every step succeeded.
pub open spec fn ran(acts: Seq<Act>, before: Seq<Op>, after: Seq<Op>, r: Result<(), DisplayError>) -> bool {
    &&& before.is_prefix_of(after)
    &&& run_parse(acts, after.skip(before.len() as int)) == Some(
        ((after.len() - before.len()) as nat, r),
    )
}

proof fn lemma_busy_extend(ops: Seq<Op>, k: nat, more: Seq<Op>)
    requires
        busy_parse(ops, k) is Some,
        (busy_parse(ops, k)->0).0 <= ops.len(),
    ensures
        busy_parse(ops + more, k) == busy_parse(ops, k),
    decreases ops.len(),
{
    assert((ops + more)[0] == ops[0]);
    if ops[0]->Busy_0 == Ok::<bool, DisplayError>(true) && k < BUSY_POLL_LIMIT {
        assert((ops + more)[1] == ops[1]);
        assert((ops + more).skip(2) =~= ops.skip(2) + more);
        lemma_busy_extend(ops.skip(2), k + 1, more);
    }
}

proof fn lemma_step_extend(a: Act, ops: Seq<Op>, more: Seq<Op>)
    requires
        step_parse(a, ops) is Some,
        (step_parse(a, ops)->0).0 <= ops.len(),
    ensures
        step_parse(a, ops + more) == step_parse(a, ops),
{
    match a {
        Act::Cmd(Command::CheckStatus) => lemma_busy_extend(ops, 0, more),
        Act::Image(data) => {
            assert((ops + more)[0] == ops[0]);
            if ops[0]->Dc_1 is Ok {
                assert((ops + more).skip(1) =~= ops.skip(1) + more);
                lemma_send_extend(data, ops.skip(1), more);
            }
        },
        Act::Cmd(Command::Reset) => {
            assert((ops + more)[0] == ops[0]);
            if ops[0]->Rst_1 is Ok {
                assert((ops + more)[1] == ops[1]);
                assert((ops + more)[2] == ops[2]);
                if ops[2]->Rst_1 is Ok {
                    assert((ops + more)[3] == ops[3]);
                }
            }
        },
        _ => {
            assert((ops + more)[0] == ops[0]);
            if ops.len() >= 2 {
                assert((ops + more)[1] == ops[1]);
            }
            if ops.len() >= 3 {
                assert((ops + more)[2] == ops[2]);
            }
        },
    }
}

/// Every `Ok` of a unit result is `Ok(())`.
pub proof fn lemma_unit_ok(r: Result<(), DisplayError>)
    ensures
        r is Ok ==> r == Ok::<(), DisplayError>(()),
{
    if let Ok(u) = r {
        assert(u == ());
    }
}

proof fn lemma_run_concat(a: Seq<Act>, b: Seq<Act>, d: Seq<Op>, e: Seq<Op>, r: Result<(), DisplayError>)
    requires
        run_parse(a, d) matches Some(t) && t.0 == d.len() && t.1 is Ok,
        run_parse(b, e) == Some((e.len(), r)),
    ensures
        run_parse(a + b, d + e) == Some(((d.len() + e.len()) as nat, r)),
    decreases a.len(),
{
    if a.len() == 0 {
        lemma_unit_ok(r);
        assert(a + b =~= b);
        assert(d =~= Seq::<Op>::empty()) by {
            assert(d.len() == 0);
        }
        assert(d + e =~= e);
    } else {
        let t = step_parse(a[0], d)->0;
        lemma_step_extend(a[0], d, e);
        assert((a + b)[0] == a[0]);
        assert((a + b).skip(1) =~= a.skip(1) + b);
        assert((d + e).skip(t.0 as int) =~= d.skip(t.0 as int) + e);
        lemma_run_concat(a.skip(1), b, d.skip(t.0 as int), e, r);
    }
}

proof fn lemma_run_stop(a: Seq<Act>, b: Seq<Act>, d: Seq<Op>, r: Result<(), DisplayError>)
    requires
        run_parse(a, d) == Some((d.len(), r)),
        r is Err,
    ensures
        run_parse(a + b, d) == Some((d.len(), r)),
    decreases a.len(),
{
    if a.len() > 0 {
        let t = step_parse(a[0], d)->0;
        assert((a + b)[0] == a[0]);
        assert((a + b).skip(1) =~= a.skip(1) + b);
        if t.1 is Ok && t.0 <= d.len() {
            lemma_run_stop(a.skip(1), b, d.skip(t.0 as int), r);
        }
    }
}

proof fn lemma_run_single(a: Act, d: Seq<Op>, r: Result<(), DisplayError>)
    requires
        step_parse(a, d) == Some((d.len(), r)),
    ensures
        run_parse(seq![a], d) == Some((d.len(), r)),
{
    let s = seq![a];
    lemma_unit_ok(r);
    assert(s[0] == a);
    assert(run_parse(s.skip(1), d.skip(d.len() as int)) == Some((0nat, Ok::<(), DisplayError>(()))));
    assert(s.skip(1) =~= Seq::<Act>::empty());
    assert(d.skip(d.len() as int) =~= Seq::<Op>::empty());
}

/// Two runs in a row, the first of them successful, make one run of both.
pub proof fn lemma_ran_seq(
    a: Seq<Act>,
    b: Seq<Act>,
    l0: Seq<Op>,
    l1: Seq<Op>,
    l2: Seq<Op>,
    r1: Result<(), DisplayError>,
    r: Result<(), DisplayError>,
)
    requires
        ran(a, l0, l1, r1),
        r1 is Ok,
        ran(b, l1, l2, r),
    ensures
        ran(a + b, l0, l2, r),
{
    let d = l1.skip(l0.len() as int);
    let e = l2.skip(l1.len() as int);
    lemma_run_concat(a, b, d, e, r);
    assert(l2.skip(l0.len() as int) =~= d + e);
    assert(l0 =~= l2.subrange(0, l0.len() as int));
}

/// A run that failed is a failed run of anything that extends its steps.
pub proof fn lemma_ran_stop(a: Seq<Act>, b: Seq<Act>, l0: Seq<Op>, l1: Seq<Op>, r: Result<(), DisplayError>)
    requires
        ran(a, l0, l1, r),
        r is Err,
    ensures
        ran(a + b, l0, l1, r),
{
    lemma_run_stop(a, b, l1.skip(l0.len() as int), r);
}

/// A single step is a run of one step.
pub proof fn lemma_ran_single(a: Act, l0: Seq<Op>, l1: Seq<Op>, r: Result<(), DisplayError>)
    requires
        l0.is_prefix_of(l1),
        step_parse(a, l1.skip(l0.len() as int)) == Some(((l1.len() - l0.len()) as nat, r)),
    ensures
        ran(seq![a], l0, l1, r),
{
    lemma_run_single(a, l1.skip(l0.len() as int), r);
}

/// No steps: nothing issued.
pub proof fn lemma_ran_empty(l0: Seq<Op>)
    ensures
        ran(Seq::empty(), l0, l0, Ok(())),
{
    assert(l0 =~= l0.subrange(0, l0.len() as int));
}

/// The steps of two command sequences in a row.
pub proof fn lemma_acts_concat(a: Seq<Command>, b: Seq<Command>)
    ensures
        acts_of(a + b) == acts_of(a) + acts_of(b),
{
    assert(acts_of(a + b) =~= acts_of(a) + acts_of(b));
}

proof fn lemma_busy_accepted(ops: Seq<Op>, k: nat)
    requires
        busy_parse(ops, k) is Some,
        all_accepted(ops),
    ensures
        busy_parse(ops, k) == Some((1nat, Ok::<(), DisplayError>(()))),
{
    assert(accepted(ops[0]));
}

proof fn lemma_run_accepted(acts: Seq<Act>, ops: Seq<Op>, r: Result<(), DisplayError>)
    requires
        run_parse(acts, ops) == Some((ops.len(), r)),
        all_accepted(ops),
    ensures
        r is Ok,
    decreases acts.len(),
{
    if acts.len() > 0 {
        let t = step_parse(acts[0], ops)->0;
        assert(t.1 is Ok) by {
            match acts[0] {
                Act::Cmd(Command::CheckStatus) => lemma_busy_accepted(ops, 0),
                Act::Image(data) => {
                    assert(accepted(ops[0]));
                    let rest = ops.skip(1);
                    let u = send_parse(data, rest)->0;
                    assert forall|i: int| 0 <= i < rest.len() implies accepted(#[trigger] rest[i]) by {
                        assert(rest[i] == ops[i + 1]);
                    }
                    if t.1 is Err {
                        accepted_send_succeeds(data, rest, u.1);
                    }
                },
                Act::Cmd(Command::Reset) => {
                    assert(accepted(ops[0]));
                    if ops.len() >= 3 {
                        assert(accepted(ops[2]));
                    }
                },
                Act::Cmd(Command::Delay(_)) => {},
                _ => {
                    assert(accepted(ops[1]));
                    if ops.len() >= 3 {
                        assert(accepted(ops[2]));
                    }
                },
            }
        }
        let rest = ops.skip(t.0 as int);
        assert forall|i: int| 0 <= i < rest.len() implies accepted(#[trigger] rest[i]) by {
            assert(rest[i] == ops[i + t.0]);
        }
        lemma_run_accepted(acts.skip(1), rest, r);
    }
}

/// On hardware that accepts every write and always reads the busy line
/// idle, every run succeeds.
pub proof fn accepting_hardware_succeeds(acts: Seq<Act>, l0: Seq<Op>, l1: Seq<Op>, r: Result<(), DisplayError>)
    requires
        ran(acts, l0, l1, r),
        all_accepted(l1.skip(l0.len() as int)),
    ensures
        r is Ok,
{
    lemma_run_accepted(acts, l1.skip(l0.len() as int), r);
}

/// A busy line that never clears ends a status check in `Timeout`, after
/// `BUSY_POLL_LIMIT` + 1 reads with one poll interval after each but the
/// last: ten seconds of waiting, not less, and not forever.
pub proof fn busy_wait_is_bounded(ops: Seq<Op>, k: nat, n: nat, r: Result<(), DisplayError>)
    requires
        k <= BUSY_POLL_LIMIT,
        busy_parse(ops, k) == Some((n, r)),
        n <= ops.len(),
        forall|i: int| 0 <= i < n && ops[i] is Busy ==> #[trigger] ops[i] == Op::Busy(Ok(true)),
    ensures
        r == Err::<(), DisplayError>(DisplayError::Timeout),
        n == 2 * (BUSY_POLL_LIMIT - k) + 1,
        forall|i: int| 0 <= i < n ==> #[trigger] ops[i] == if i % 2 == 0 {
            Op::Busy(Ok(true))
        } else {
            Op::Wait((BUSY_POLL_INTERVAL_MS * 1000) as nat)
        },
    decreases BUSY_POLL_LIMIT - k,
{
    assert(ops[0] is Busy);
    assert(ops[0] == Op::Busy(Ok(true)));
    if k < BUSY_POLL_LIMIT {
        let t = busy_parse(ops.skip(2), k + 1)->0;
        assert forall|i: int| 0 <= i < t.0 && ops.skip(2)[i] is Busy implies #[trigger] ops.skip(2)[i]
            == Op::Busy(Ok(true)) by {
            assert(ops.skip(2)[i] == ops[i + 2]);
            assert(i + 2 < n);
        }
        busy_wait_is_bounded(ops.skip(2), k + 1, t.0, t.1);
        assert forall|i: int| 0 <= i < n implies #[trigger] ops[i] == if i % 2 == 0 {
            Op::Busy(Ok(true))
        } else {
            Op::Wait((BUSY_POLL_INTERVAL_MS * 1000) as nat)
        } by {
            if i >= 2 {
                assert(ops[i] == ops.skip(2)[i - 2]);
                assert((i - 2) % 2 == i % 2);
            }
        }
    }
}

/// The operations of a protocol engine bound to one controller model.
pub trait EinkProtocol: Sized {
    /// Every hardware operation issued so far, with its outcome.
    spec fn trace(&self) -> Seq<Op>;

    /// The bound controller model.
    spec fn model(&self) -> FirmwareModel;

    /// Run the model's reset sequence, then its init sequence.
    fn init_hardware(&mut self) -> (r: Result<(), DisplayError>)
        ensures
            final(self).model() == old(self).model(),
            ran(
                acts_of(old(self).model().reset + old(self).model().init),
                old(self).trace(),
                final(self).trace(),
                r,
            ),
    ;

    /// Run the model's partial-refresh set-up sequence.
    fn init_partial(&mut self) -> (r: Result<(), DisplayError>)
        ensures
            final(self).model() == old(self).model(),
            ran(acts_of(old(self).model().partial_init), old(self).trace(), final(self).trace(), r),
    ;

    /// Write a command byte.
    fn write_cmd(&mut self, cmd: u8) -> (r: Result<(), DisplayError>)
        ensures
            final(self).model() == old(self).model(),
            ran(
                seq![Act::Cmd(Command::WriteCommand(cmd))],
                old(self).trace(),
                final(self).trace(),
                r,
            ),
    ;

    /// Write a data byte.
    fn write_data(&mut self, data: u8) -> (r: Result<(), DisplayError>)
        ensures
            final(self).model() == old(self).model(),
            ran(
                seq![Act::Cmd(Command::WriteData(data))],
                old(self).trace(),
                final(self).trace(),
                r,
            ),
    ;

    /// Write one frame of image data: checks its size first, then drives the
    /// data/command line high and transfers the payload.
    fn write_image_data(&mut self, data: &[u8]) -> (r: Result<(), DisplayError>)
        ensures
            data@.len() != old(self).model().spec.frame_bytes() ==> {
                &&& r == Err::<(), DisplayError>(
                    DisplayError::InvalidDataSize {
                        expected: old(self).model().spec.frame_bytes() as usize,
                        actual: data@.len() as usize,
                    },
                )
                &&& *final(self) == *old(self)
            },
            final(self).model() == old(self).model(),
            data@.len() == old(self).model().spec.frame_bytes() ==> ran(
                seq![Act::Image(data@)],
                old(self).trace(),
                final(self).trace(),
                r,
            ),
    ;

    /// Wait for the busy line to clear, polling every
    /// `BUSY_POLL_INTERVAL_MS`, and give up with `Timeout` after
    /// `BUSY_POLL_LIMIT` waits.
    fn check_status(&mut self) -> (r: Result<(), DisplayError>)
        ensures
            final(self).model() == old(self).model(),
            ran(
                seq![Act::Cmd(Command::CheckStatus)],
                old(self).trace(),
                final(self).trace(),
                r,
            ),
    ;

    /// Run the model's refresh sequence for this mode.
    fn update_display(&mut self, mode: DisplayMode) -> (r: Result<(), DisplayError>)
        ensures
            final(self).model() == old(self).model(),
            ran(
                acts_of(old(self).model().update(mode.partial())),
                old(self).trace(),
                final(self).trace(),
                r,
            ),
    ;

    /// Run the model's deep-sleep sequence.
    fn sleep(&mut self) -> (r: Result<(), DisplayError>)
        ensures
            final(self).model() == old(self).model(),
            ran(acts_of(old(self).model().sleep), old(self).trace(), final(self).trace(), r),
    ;

    /// Get the display specifications.
    fn get_spec(&self) -> (r: &DisplaySpec)
        ensures
            *r == self.model().spec,
            r.frame_bytes() <= usize::MAX,
    ;

    /// Get the write RAM command byte.
    fn get_write_ram_command(&self) -> (r: u8)
        ensures
            r == self.model().write_ram,
    ;
}

/// A protocol engine over one hardware interface and one firmware model.
pub struct GenericEinkProtocol<G, S, D, F> {
    hardware: HardwareInterface<G, S, D>,
    firmware: F,
}

impl<
    G: GpioController,
    S: SpiController,
    D: DelayController,
    F: DisplayFirmware,
> GenericEinkProtocol<G, S, D, F> {
    /// The hardware interface.
    pub closed spec fn hardware(&self) -> HardwareInterface<G, S, D> {
        self.hardware
    }

    /// The firmware model.
    pub closed spec fn firmware(&self) -> F {
        self.firmware
    }

    /// The hardware interface.
    pub fn hardware_interface(&self) -> (r: &HardwareInterface<G, S, D>)
        ensures
            *r == self.hardware(),
    {
        &self.hardware
    }

    /// Create a new protocol engine with the given hardware and firmware.
    pub fn new(hardware: HardwareInterface<G, S, D>, firmware: F) -> (r: Self)
        ensures
            r.hardware() == hardware,
            r.firmware() == firmware,
    {
        GenericEinkProtocol { hardware, firmware }
    }

    fn send_byte(&mut self, is_data: bool, byte: u8) -> (r: Result<(), DisplayError>)
        ensures
            final(self).firmware() == old(self).firmware(),
            ran(
                seq![
                    Act::Cmd(
                        if is_data {
                            Command::WriteData(byte)
                        } else {
                            Command::WriteCommand(byte)
                        },
                    ),
                ],
                old(self).hardware().trace(),
                final(self).hardware().trace(),
                r,
            ),
    {
        let ghost l0 = self.hardware.trace();
        let ghost a = Act::Cmd(
            if is_data {
                Command::WriteData(byte)
            } else {
                Command::WriteCommand(byte)
            },
        );
        self.hardware.delay_us(BYTE_SETTLE_US);
        let r1 = self.hardware.write_dc(is_data);
        if let Err(e) = r1 {
            proof {
                let d = self.hardware.trace().skip(l0.len() as int);
                assert(d =~= seq![Op::Wait(BYTE_SETTLE_US as nat), Op::Dc(is_data, r1)]);
                assert(l0 =~= self.hardware.trace().subrange(0, l0.len() as int));
                lemma_ran_single(a, l0, self.hardware.trace(), r1);
            }
            return Err(e);
        }
        let ghost l1 = self.hardware.trace();
        let buf: [u8; 1] = [byte];
        let r2 = self.hardware.spi_write_all(buf.as_slice());
        proof {
            assert(buf@ =~= seq![byte]);
            let l2 = self.hardware.trace();
            let e = l2.skip(l1.len() as int);
            assert(e.len() == 1);
            assert(l1.skip(l0.len() as int) =~= seq![Op::Wait(BYTE_SETTLE_US as nat), Op::Dc(is_data, r1)]);
            assert(l1 =~= l2.subrange(0, l1.len() as int));
            let d = l2.skip(l0.len() as int);
            assert(d =~= seq![Op::Wait(BYTE_SETTLE_US as nat), Op::Dc(is_data, r1)] + e);
            assert(d[2] == e[0]);
            assert(l0 =~= l2.subrange(0, l0.len() as int)) by {
                assert(l0 =~= l1.subrange(0, l0.len() as int));
            }
            lemma_ran_single(a, l0, l2, r2);
        }
        r2
    }

    fn busy_poll(&mut self) -> (r: Result<(), DisplayError>)
        ensures
            final(self).firmware() == old(self).firmware(),
            ran(
                seq![Act::Cmd(Command::CheckStatus)],
                old(self).hardware().trace(),
                final(self).hardware().trace(),
                r,
            ),
    {
        let ghost l0 = self.hardware.trace();
        let mut watchdog_counter: u32 = 0;
        proof {
            assert(l0 =~= l0.subrange(0, l0.len() as int));
            assert forall|tail: Seq<Op>|
                busy_parse(self.hardware.trace().skip(l0.len() as int) + tail, 0) == shifted(
                    #[trigger] busy_parse(tail, 0),
                    0,
                ) by {
                assert(self.hardware.trace().skip(l0.len() as int) + tail =~= tail);
                if let Some(t) = busy_parse(tail, 0) {
                    assert((t.0 + 0) as nat == t.0);
                }
            }
        }
        loop
            invariant
                watchdog_counter <= BUSY_POLL_LIMIT,
                self.firmware() == old(self).firmware(),
                l0 == old(self).hardware().trace(),
                l0.is_prefix_of(self.hardware().trace()),
                forall|tail: Seq<Op>|
                    busy_parse(self.hardware().trace().skip(l0.len() as int) + tail, 0) == shifted(
                        #[trigger] busy_parse(tail, watchdog_counter as nat),
                        (self.hardware().trace().len() - l0.len()) as nat,
                    ),
            decreases BUSY_POLL_LIMIT - watchdog_counter,
        {
            let ghost before = self.hardware.trace();
            let busy = self.hardware.read_busy();
            let ghost after = self.hardware.trace();
            proof {
                assert(l0 =~= after.subrange(0, l0.len() as int));
                assert(after.skip(l0.len() as int) =~= before.skip(l0.len() as int) + seq![
                    Op::Busy(busy),
                ]);
            }
            let finished: Option<Result<(), DisplayError>> = match busy {
                Err(e) => Some(Err(e)),
                Ok(level) => if !level {
                    Some(Ok(()))
                } else if watchdog_counter >= BUSY_POLL_LIMIT {
                    Some(Err(DisplayError::Timeout))
                } else {
                    None
                },
            };
            if let Some(res) = finished {
                proof {
                    let one = seq![Op::Busy(busy)];
                    assert(busy_parse(one, watchdog_counter as nat) == Some((1nat, res)));
                    assert(after.skip(l0.len() as int) + Seq::<Op>::empty() =~= after.skip(
                        l0.len() as int,
                    ));
                    assert(busy_parse(before.skip(l0.len() as int) + one, 0) == shifted(
                        busy_parse(one, watchdog_counter as nat),
                        (before.len() - l0.len()) as nat,
                    ));
                    lemma_ran_single(Act::Cmd(Command::CheckStatus), l0, after, res);
                }
                return res;
            }
            self.hardware.delay_ms(BUSY_POLL_INTERVAL_MS);
            proof {
                let now = self.hardware.trace();
                let two = seq![Op::Busy(busy), Op::Wait((BUSY_POLL_INTERVAL_MS * 1000) as nat)];
                assert(now.skip(l0.len() as int) =~= before.skip(l0.len() as int) + two);
                assert(l0 =~= now.subrange(0, l0.len() as int));
                assert forall|tail: Seq<Op>|
                    busy_parse(now.skip(l0.len() as int) + tail, 0) == shifted(
                        #[trigger] busy_parse(tail, (watchdog_counter + 1) as nat),
                        (now.len() - l0.len()) as nat,
                    ) by {
                    let full = two + tail;
                    assert(full.skip(2) =~= tail);
                    assert(full[0] == Op::Busy(busy));
                    assert(full[1] == Op::Wait((BUSY_POLL_INTERVAL_MS * 1000) as nat));
                    assert(busy == Ok::<bool, DisplayError>(true));
                    assert(busy_parse(full, watchdog_counter as nat) == shifted(
                        busy_parse(tail, (watchdog_counter + 1) as nat),
                        2,
                    ));
                    assert(busy_parse(before.skip(l0.len() as int) + full, 0) == shifted(
                        busy_parse(full, watchdog_counter as nat),
                        (before.len() - l0.len()) as nat,
                    ));
                    assert(before.skip(l0.len() as int) + full =~= now.skip(l0.len() as int) + tail);
                }
            }
            watchdog_counter = watchdog_counter + 1;
        }
    }

    fn step(&mut self, command: Command) -> (r: Result<(), DisplayError>)
        ensures
            final(self).firmware() == old(self).firmware(),
            ran(
                seq![Act::Cmd(command)],
                old(self).hardware().trace(),
                final(self).hardware().trace(),
                r,
            ),
    {
        let ghost l0 = self.hardware.trace();
        let ghost a = Act::Cmd(command);
        match command {
            Command::WriteCommand(cmd) => self.send_byte(false, cmd),
            Command::WriteData(data) => self.send_byte(true, data),
            Command::Delay(ms) => {
                self.hardware.delay_ms(ms);
                proof {
                    let l1 = self.hardware.trace();
                    assert(l1.skip(l0.len() as int) =~= seq![Op::Wait((ms as nat) * 1000)]);
                    assert(l0 =~= l1.subrange(0, l0.len() as int));
                    lemma_ran_single(a, l0, l1, Ok(()));
                }
                Ok(())
            },
            Command::CheckStatus => self.busy_poll(),
            Command::Reset => {
                let r1 = self.hardware.write_rst(false);
                if let Err(e) = r1 {
                    proof {
                        let l1 = self.hardware.trace();
                        assert(l1.skip(l0.len() as int) =~= seq![Op::Rst(false, r1)]);
                        assert(l0 =~= l1.subrange(0, l0.len() as int));
                        lemma_ran_single(a, l0, l1, r1);
                    }
                    return Err(e);
                }
                self.hardware.delay_ms(RESET_SETTLE_MS);
                let r2 = self.hardware.write_rst(true);
                if let Err(e) = r2 {
                    proof {
                        let l1 = self.hardware.trace();
                        assert(l1.skip(l0.len() as int) =~= seq![
                            Op::Rst(false, r1),
                            Op::Wait((RESET_SETTLE_MS * 1000) as nat),
                            Op::Rst(true, r2),
                        ]);
                        assert(l0 =~= l1.subrange(0, l0.len() as int));
                        lemma_ran_single(a, l0, l1, r2);
                    }
                    return Err(e);
                }
                self.hardware.delay_ms(RESET_SETTLE_MS);
                proof {
                    let l1 = self.hardware.trace();
                    assert(l1.skip(l0.len() as int) =~= seq![
                        Op::Rst(false, r1),
                        Op::Wait((RESET_SETTLE_MS * 1000) as nat),
                        Op::Rst(true, r2),
                        Op::Wait((RESET_SETTLE_MS * 1000) as nat),
                    ]);
                    assert(l0 =~= l1.subrange(0, l0.len() as int));
                    lemma_ran_single(a, l0, l1, Ok(()));
                }
                Ok(())
            },
        }
    }

    /// Execute a command sequence in order, stopping at the first failure
    /// and returning its error.
    pub fn execute_sequence(&mut self, sequence: CommandSequence) -> (r: Result<(), DisplayError>)
        ensures
            final(self).firmware() == old(self).firmware(),
            ran(acts_of(sequence@), old(self).hardware().trace(), final(self).hardware().trace(), r),
    {
        let ghost l0 = self.hardware.trace();
        let n = sequence.commands.len();
        let mut i: usize = 0;
        proof {
            lemma_ran_empty(l0);
            assert(acts_of(sequence@.subrange(0, 0)) =~= Seq::<Act>::empty());
        }
        while i < n
            invariant
                n == sequence@.len(),
                i <= n,
                self.firmware() == old(self).firmware(),
                l0 == old(self).hardware().trace(),
                ran(acts_of(sequence@.subrange(0, i as int)), l0, self.hardware().trace(), Ok(())),
            decreases n - i,
        {
            let command = sequence.commands[i];
            let ghost l1 = self.hardware.trace();
            let r = self.step(command);
            proof {
                let done = acts_of(sequence@.subrange(0, i as int));
                assert(acts_of(sequence@.subrange(0, i + 1)) =~= done + seq![Act::Cmd(command)]);
                lemma_ran_seq(done, seq![Act::Cmd(command)], l0, l1, self.hardware().trace(), Ok(()), r);
                if r is Err {
                    assert(acts_of(sequence@) =~= acts_of(sequence@.subrange(0, i + 1)) + acts_of(
                        sequence@.subrange(i + 1, n as int),
                    ));
                    lemma_ran_stop(
                        acts_of(sequence@.subrange(0, i + 1)),
                        acts_of(sequence@.subrange(i + 1, n as int)),
                        l0,
                        self.hardware().trace(),
                        r,
                    );
                }
            }
            if let Err(e) = r {
                return Err(e);
            }
            proof {
                lemma_unit_ok(r);
            }
            i = i + 1;
        }
        assert(sequence@.subrange(0, n as int) =~= sequence@);
        Ok(())
    }
}

impl<
    G: GpioController,
    S: SpiController,
    D: DelayController,
    F: DisplayFirmware,
> EinkProtocol for GenericEinkProtocol<G, S, D, F> {
    closed spec fn trace(&self) -> Seq<Op> {
        self.hardware.trace()
    }

    closed spec fn model(&self) -> FirmwareModel {
        self.firmware.model()
    }

    fn init_hardware(&mut self) -> (r: Result<(), DisplayError>) {
        let ghost l0 = self.hardware.trace();
        let ghost m = self.firmware.model();
        proof {
            lemma_acts_concat(m.reset, m.init);
        }
        let reset_sequence = self.firmware.get_reset_sequence();
        let r1 = self.execute_sequence(reset_sequence);
        if let Err(e) = r1 {
            proof {
                lemma_ran_stop(acts_of(m.reset), acts_of(m.init), l0, self.hardware.trace(), r1);
            }
            return Err(e);
        }
        let ghost l1 = self.hardware.trace();
        let init_sequence = self.firmware.get_init_sequence();
        let r2 = self.execute_sequence(init_sequence);
        proof {
            lemma_ran_seq(acts_of(m.reset), acts_of(m.init), l0, l1, self.hardware.trace(), r1, r2);
        }
        r2
    }

    fn init_partial(&mut self) -> (r: Result<(), DisplayError>) {
        let partial_sequence = self.firmware.get_partial_init_sequence();
        self.execute_sequence(partial_sequence)
    }

    fn write_cmd(&mut self, cmd: u8) -> (r: Result<(), DisplayError>) {
        self.send_byte(false, cmd)
    }

    fn write_data(&mut self, data: u8) -> (r: Result<(), DisplayError>) {
        self.send_byte(true, data)
    }

    fn write_image_data(&mut self, data: &[u8]) -> (r: Result<(), DisplayError>) {
        self.firmware.validate_image_size(data)?;
        let ghost l0 = self.hardware.trace();
        let ghost a = Act::Image(data@);
        let r1 = self.hardware.write_dc(true);
        if let Err(e) = r1 {
            proof {
                let l1 = self.hardware.trace();
                assert(l1.skip(l0.len() as int) =~= seq![Op::Dc(true, r1)]);
                assert(l0 =~= l1.subrange(0, l0.len() as int));
                lemma_ran_single(a, l0, l1, r1);
            }
            return Err(e);
        }
        let ghost l1 = self.hardware.trace();
        let r2 = self.hardware.spi_write_all(data);
        proof {
            let l2 = self.hardware.trace();
            let d = l2.skip(l0.len() as int);
            assert(d.skip(1) =~= l2.skip(l1.len() as int));
            assert(d[0] == Op::Dc(true, r1));
            assert(l0 =~= l2.subrange(0, l0.len() as int)) by {
                assert(l0 =~= l1.subrange(0, l0.len() as int));
                assert(l1 =~= l2.subrange(0, l1.len() as int));
            }
            lemma_ran_single(a, l0, l2, r2);
        }
        r2
    }

    fn check_status(&mut self) -> (r: Result<(), DisplayError>) {
        self.busy_poll()
    }

    fn update_display(&mut self, mode: DisplayMode) -> (r: Result<(), DisplayError>) {
        let is_partial = match mode {
            DisplayMode::Partial => true,
            DisplayMode::Full => false,
        };
        let update_sequence = self.firmware.get_update_sequence(is_partial);
        self.execute_sequence(update_sequence)
    }

    fn sleep(&mut self) -> (r: Result<(), DisplayError>) {
        let sleep_sequence = self.firmware.get_sleep_sequence();
        self.execute_sequence(sleep_sequence)
    }

    fn get_spec(&self) -> (r: &DisplaySpec) {
        self.firmware.get_spec()
    }

    fn get_write_ram_command(&self) -> (r: u8) {
        self.firmware.get_write_ram_command()
    }
}

/// Runtime model selection over the supported models.
pub enum ConfigurableProtocol<G, S, D> {
    /// 128x250 display protocol.
    EPD128x250(Box<GenericEinkProtocol<G, S, D, EPD128x250Firmware>>),
    /// 240x416 display protocol.
    EPD240x416(Box<GenericEinkProtocol<G, S, D, EPD240x416Firmware>>),
}

impl<G: GpioController, S: SpiController, D: DelayController> EinkProtocol for ConfigurableProtocol<
    G,
    S,
    D,
> {
    open spec fn trace(&self) -> Seq<Op> {
        match self {
            ConfigurableProtocol::EPD128x250(p) => p.trace(),
            ConfigurableProtocol::EPD240x416(p) => p.trace(),
        }
    }

    open spec fn model(&self) -> FirmwareModel {
        match self {
            ConfigurableProtocol::EPD128x250(p) => p.model(),
            ConfigurableProtocol::EPD240x416(p) => p.model(),
        }
    }

    fn init_hardware(&mut self) -> (r: Result<(), DisplayError>) {
        match self {
            ConfigurableProtocol::EPD128x250(p) => p.init_hardware(),
            ConfigurableProtocol::EPD240x416(p) => p.init_hardware(),
        }
    }

    fn init_partial(&mut self) -> (r: Result<(), DisplayError>) {
        match self {
            ConfigurableProtocol::EPD128x250(p) => p.init_partial(),
            ConfigurableProtocol::EPD240x416(p) => p.init_partial(),
        }
    }

    fn write_cmd(&mut self, cmd: u8) -> (r: Result<(), DisplayError>) {
        match self {
            ConfigurableProtocol::EPD128x250(p) => p.write_cmd(cmd),
            ConfigurableProtocol::EPD240x416(p) => p.write_cmd(cmd),
        }
    }

    fn write_data(&mut self, data: u8) -> (r: Result<(), DisplayError>) {
        match self {
            ConfigurableProtocol::EPD128x250(p) => p.write_data(data),
            ConfigurableProtocol::EPD240x416(p) => p.write_data(data),
        }
    }

    fn write_image_data(&mut self, data: &[u8]) -> (r: Result<(), DisplayError>) {
        match self {
            ConfigurableProtocol::EPD128x250(p) => p.write_image_data(data),
            ConfigurableProtocol::EPD240x416(p) => p.write_image_data(data),
        }
    }

    fn check_status(&mut self) -> (r: Result<(), DisplayError>) {
        match self {
            ConfigurableProtocol::EPD128x250(p) => p.check_status(),
            ConfigurableProtocol::EPD240x416(p) => p.check_status(),
        }
    }

    fn update_display(&mut self, mode: DisplayMode) -> (r: Result<(), DisplayError>) {
        match self {
            ConfigurableProtocol::EPD128x250(p) => p.update_display(mode),
            ConfigurableProtocol::EPD240x416(p) => p.update_display(mode),
        }
    }

    fn sleep(&mut self) -> (r: Result<(), DisplayError>) {
        match self {
            ConfigurableProtocol::EPD128x250(p) => p.sleep(),
            ConfigurableProtocol::EPD240x416(p) => p.sleep(),
        }
    }

    fn get_spec(&self) -> (r: &DisplaySpec) {
        match self {
            ConfigurableProtocol::EPD128x250(p) => p.get_spec(),
            ConfigurableProtocol::EPD240x416(p) => p.get_spec(),
        }
    }

    fn get_write_ram_command(&self) -> (r: u8) {
        match self {
            ConfigurableProtocol::EPD128x250(p) => p.get_write_ram_command(),
            ConfigurableProtocol::EPD240x416(p) => p.get_write_ram_command(),
        }
    }
}

/// Open the hardware and bind it to the given model.
pub fn create_default_protocol<G: GpioController, S: SpiController, D: DelayController>(
    firmware_type: FirmwareType,
) -> (r: Result<ConfigurableProtocol<G, S, D>, DisplayError>)
    ensures
        r matches Ok(p) ==> {
            &&& p.trace().len() == 0
            &&& model_of_kind(firmware_type, p.model())
        },
{
    let hardware = HardwareInterface::<G, S, D>::new()?;
    match firmware_type {
        FirmwareType::EPD128x250 => {
            let firmware = EPD128x250Firmware::new();
            let protocol = GenericEinkProtocol::new(hardware, firmware);
            Ok(ConfigurableProtocol::EPD128x250(Box::new(protocol)))
        },
        FirmwareType::EPD240x416 => {
            let firmware = EPD240x416Firmware::new();
            let protocol = GenericEinkProtocol::new(hardware, firmware);
            Ok(ConfigurableProtocol::EPD240x416(Box::new(protocol)))
        },
    }
}

/// Open the hardware and bind it to the given firmware.
pub fn create_protocol_with_firmware<
    G: GpioController,
    S: SpiController,
    D: DelayController,
    F: DisplayFirmware,
>(firmware: F) -> (r: Result<GenericEinkProtocol<G, S, D, F>, DisplayError>)
    ensures
        r matches Ok(p) ==> p.trace() == Seq::<Op>::empty() && p.firmware() == firmware && p.model()
            == firmware.model(),
{
    let hardware = HardwareInterface::<G, S, D>::new()?;
    Ok(GenericEinkProtocol::new(hardware, firmware))
}

} // verus!
