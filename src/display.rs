//! Display sessions: initialise-before-use, frame-size validation, and the
//! "draw one frame" choreography (write-RAM command, pixel payload, refresh).
use vstd::prelude::*;

use crate::config::{model_of_kind, spec_of_model, DisplayConfig, FirmwareType};
use crate::error::DisplayError;
use crate::firmware::{Command, DisplayFirmware, DisplaySpec, FirmwareModel};
use crate::hardware::{all_accepted, DelayController, GpioController, Op, SpiController};
use crate::image::{
    conversion, convert_image_to_1bit_with_spec, convert_png_to_1bit_with_spec,
    create_white_image_with_spec, get_dimensions, image_rgba_of, png_rgba_of, white_frame,
};
use crate::protocol::{
    accepting_hardware_succeeds, acts_of, create_default_protocol, create_protocol_with_firmware, lemma_ran_empty,
    lemma_ran_seq, lemma_ran_stop, lemma_unit_ok, ran, run_parse, Act, ConfigurableProtocol, DisplayMode,
    EinkProtocol,
};

verus! {

/// The steps of one frame: partial-mode set-up when asked for, the
/// write-RAM command, the payload, then the refresh choreography.
pub open spec fn frame_acts(m: FirmwareModel, data: Seq<u8>, mode: DisplayMode) -> Seq<Act> {
    acts_of(
        if mode.partial() {
            m.partial_init
        } else {
            Seq::empty()
        },
    ) + seq![Act::Cmd(Command::WriteCommand(m.write_ram))] + seq![Act::Image(data)] + acts_of(
        m.update(mode.partial()),
    )
}

/// The log went from `before` to `after` by running `acts` in order, to
/// their end or to the first failed step, whatever the result.
pub open spec fn ran_to_end(acts: Seq<Act>, before: Seq<Op>, after: Seq<Op>) -> bool {
    &&& before.is_prefix_of(after)
    &&& run_parse(acts, after.skip(before.len() as int)) matches Some(t)
    &&& t.0 == after.len() - before.len()
}

/// What drawing `data` in `mode` does to a session that was in state
/// (`was_init`, `m`, `w0`) and is now in (`is_init`, `m1`, `w1`), where
/// `unchanged` says whether it is exactly as before, with result `r`.
pub open spec fn draw_outcome(
    was_init: bool,
    m: FirmwareModel,
    w0: Seq<Op>,
    is_init: bool,
    m1: FirmwareModel,
    w1: Seq<Op>,
    unchanged: bool,
    data: Seq<u8>,
    mode: DisplayMode,
    r: Result<(), DisplayError>,
) -> bool {
    if !was_init {
        r == Err::<(), DisplayError>(DisplayError::NotInitialized) && unchanged
    } else if data.len() != m.spec.frame_bytes() {
        &&& r == Err::<(), DisplayError>(
            DisplayError::InvalidDataSize {
                expected: m.spec.frame_bytes() as usize,
                actual: data.len() as usize,
            },
        )
        &&& unchanged
    } else {
        &&& is_init
        &&& m1 == m
        &&& ran(frame_acts(m, data, mode), w0, w1, r)
    }
}

/// Two successful clears in a row each run the same steps: the write-RAM
/// command, the all-white frame of the model and a full refresh; the session
/// stays initialised on the same model.
pub proof fn clear_twice_repeats_frame(
    m: FirmwareModel,
    w0: Seq<Op>,
    i1: bool,
    m1: FirmwareModel,
    w1: Seq<Op>,
    u1: bool,
    i2: bool,
    m2: FirmwareModel,
    w2: Seq<Op>,
    u2: bool,
)
    requires
        draw_outcome(
            true,
            m,
            w0,
            i1,
            m1,
            w1,
            u1,
            white_frame(m.spec.frame_bytes() as nat),
            DisplayMode::Full,
            Ok(()),
        ),
        draw_outcome(
            i1,
            m1,
            w1,
            i2,
            m2,
            w2,
            u2,
            white_frame(m1.spec.frame_bytes() as nat),
            DisplayMode::Full,
            Ok(()),
        ),
    ensures
        i1 && i2 && m1 == m && m2 == m,
        ran(
            frame_acts(m, white_frame(m.spec.frame_bytes() as nat), DisplayMode::Full),
            w0,
            w1,
            Ok(()),
        ),
        ran(
            frame_acts(m, white_frame(m.spec.frame_bytes() as nat), DisplayMode::Full),
            w1,
            w2,
            Ok(()),
        ),
{
}

/// On hardware that accepts every write and always reads the busy line
/// idle, drawing a frame of the right size on an initialised session
/// succeeds.
pub proof fn draw_on_accepting_hardware_succeeds(
    m: FirmwareModel,
    w0: Seq<Op>,
    i1: bool,
    m1: FirmwareModel,
    w1: Seq<Op>,
    unchanged: bool,
    data: Seq<u8>,
    mode: DisplayMode,
    r: Result<(), DisplayError>,
)
    requires
        draw_outcome(true, m, w0, i1, m1, w1, unchanged, data, mode, r),
        data.len() == m.spec.frame_bytes(),
        all_accepted(w1.skip(w0.len() as int)),
    ensures
        r is Ok,
        i1,
{
    accepting_hardware_succeeds(frame_acts(m, data, mode), w0, w1, r);
}

/// The client-facing operations of one display session.
pub trait DisplayDriver: Sized {
    /// Whether the hardware has been initialised.
    spec fn initialized(&self) -> bool;

    /// Every hardware operation issued so far, with its outcome.
    spec fn trace(&self) -> Seq<Op>;

    /// The bound controller model.
    spec fn model(&self) -> FirmwareModel;

    /// Initialise the hardware: a no-op when already done; else the model's
    /// reset and init sequences. A failed init leaves the session
    /// uninitialised.
    fn init(&mut self) -> (r: Result<(), DisplayError>)
        ensures
            old(self).initialized() ==> r is Ok && *final(self) == *old(self),
            !old(self).initialized() ==> {
                &&& final(self).initialized() == r is Ok
                &&& final(self).model() == old(self).model()
                &&& ran(
                    acts_of(old(self).model().reset + old(self).model().init),
                    old(self).trace(),
                    final(self).trace(),
                    r,
                )
            },
    ;

    /// Draw one packed 1-bit frame.
    fn display_image_raw(&mut self, data: &[u8], mode: DisplayMode) -> (r: Result<(), DisplayError>)
        ensures
            draw_outcome(
                old(self).initialized(),
                old(self).model(),
                old(self).trace(),
                final(self).initialized(),
                final(self).model(),
                final(self).trace(),
                *final(self) == *old(self),
                data@,
                mode,
                r,
            ),
    ;

    /// Draw an all-white frame with a full refresh, through the same path as
    /// a supplied frame.
    fn clear(&mut self) -> (r: Result<(), DisplayError>)
        ensures
            draw_outcome(
                old(self).initialized(),
                old(self).model(),
                old(self).trace(),
                final(self).initialized(),
                final(self).model(),
                final(self).trace(),
                *final(self) == *old(self),
                white_frame(old(self).model().spec.frame_bytes() as nat),
                DisplayMode::Full,
                r,
            ),
    ;

    /// Put the panel into deep sleep.
    fn sleep(&mut self) -> (r: Result<(), DisplayError>)
        ensures
            final(self).initialized() == old(self).initialized(),
            final(self).model() == old(self).model(),
            ran(acts_of(old(self).model().sleep), old(self).trace(), final(self).trace(), r),
    ;

    /// End the session: when initialised, put the panel to sleep (best
    /// effort: a failure there is not reported, since release must not be
    /// blocked) and mark it uninitialised. Calling it again is a no-op.
    fn cleanup(&mut self) -> (r: Result<(), DisplayError>)
        ensures
            r is Ok,
            !final(self).initialized(),
            !old(self).initialized() ==> *final(self) == *old(self),
            old(self).initialized() ==> {
                &&& final(self).model() == old(self).model()
                &&& ran_to_end(
                    acts_of(old(self).model().sleep),
                    old(self).trace(),
                    final(self).trace(),
                )
            },
    ;

    /// Get the display specifications.
    fn get_spec(&self) -> (r: &DisplaySpec)
        ensures
            *r == self.model().spec,
            r.frame_bytes() <= usize::MAX,
    ;
}

/// A display session over one protocol engine.
pub struct GenericDisplay<P> {
    protocol: P,
    initialized: bool,
}

impl<P: EinkProtocol> GenericDisplay<P> {
    /// The protocol engine.
    pub closed spec fn protocol(&self) -> P {
        self.protocol
    }

    /// The protocol engine.
    pub fn protocol_engine(&self) -> (r: &P)
        ensures
            *r == self.protocol(),
    {
        &self.protocol
    }

    /// Create an uninitialised session over the given protocol engine.
    pub fn new(protocol: P) -> (r: Self)
        ensures
            r.protocol() == protocol,
            !r.initialized(),
            r.trace() == protocol.trace(),
            r.model() == protocol.model(),
    {
        GenericDisplay { protocol, initialized: false }
    }
}

impl<P: EinkProtocol> DisplayDriver for GenericDisplay<P> {
    closed spec fn initialized(&self) -> bool {
        self.initialized
    }

    closed spec fn trace(&self) -> Seq<Op> {
        self.protocol.trace()
    }

    closed spec fn model(&self) -> FirmwareModel {
        self.protocol.model()
    }

    fn init(&mut self) -> (r: Result<(), DisplayError>) {
        if self.initialized {
            return Ok(());
        }
        self.protocol.init_hardware()?;
        self.initialized = true;
        Ok(())
    }

    fn display_image_raw(&mut self, data: &[u8], mode: DisplayMode) -> (r: Result<(), DisplayError>) {
        if !self.initialized {
            return Err(DisplayError::NotInitialized);
        }
        let size = self.protocol.get_spec().array_size();
        if data.len() != size {
            return Err(DisplayError::InvalidDataSize { expected: size, actual: data.len() });
        }
        let ghost m = self.protocol.model();
        let ghost w0 = self.protocol.trace();
        let ghost setup = acts_of(
            if mode.partial() {
                m.partial_init
            } else {
                Seq::empty()
            },
        );
        let ghost ram = seq![Act::Cmd(Command::WriteCommand(m.write_ram))];
        let ghost img = seq![Act::Image(data@)];
        let ghost update = acts_of(m.update(mode.partial()));
        proof {
            assert(frame_acts(m, data@, mode) =~= setup + (ram + (img + update)));
            assert(frame_acts(m, data@, mode) =~= (setup + ram) + (img + update));
            assert(frame_acts(m, data@, mode) =~= ((setup + ram) + img) + update);
        }
        match mode {
            DisplayMode::Partial => {
                let r = self.protocol.init_partial();
                if let Err(e) = r {
                    proof {
                        lemma_ran_stop(setup, ram + (img + update), w0, self.protocol.trace(), r);
                    }
                    return Err(e);
                }
                proof {
                    lemma_unit_ok(r);
                }
            },
            DisplayMode::Full => {
                proof {
                    assert(setup =~= Seq::<Act>::empty());
                    lemma_ran_empty(w0);
                }
            },
        }
        let ghost w1 = self.protocol.trace();
        let write_ram_cmd = self.protocol.get_write_ram_command();
        let r = self.protocol.write_cmd(write_ram_cmd);
        let ghost w2 = self.protocol.trace();
        proof {
            lemma_ran_seq(setup, ram, w0, w1, w2, Ok(()), r);
        }
        if let Err(e) = r {
            proof {
                lemma_ran_stop(setup + ram, img + update, w0, w2, r);
            }
            return Err(e);
        }
        proof {
            lemma_unit_ok(r);
        }
        let r = self.protocol.write_image_data(data);
        let ghost w3 = self.protocol.trace();
        proof {
            lemma_ran_seq(setup + ram, img, w0, w2, w3, Ok(()), r);
        }
        if let Err(e) = r {
            proof {
                lemma_ran_stop((setup + ram) + img, update, w0, w3, r);
            }
            return Err(e);
        }
        proof {
            lemma_unit_ok(r);
        }
        let r = self.protocol.update_display(mode);
        proof {
            lemma_ran_seq((setup + ram) + img, update, w0, w3, self.protocol.trace(), Ok(()), r);
        }
        r
    }

    fn clear(&mut self) -> (r: Result<(), DisplayError>) {
        let white_data = create_white_image_with_spec(self.protocol.get_spec());
        self.display_image_raw(white_data.as_slice(), DisplayMode::Full)
    }

    fn sleep(&mut self) -> (r: Result<(), DisplayError>) {
        self.protocol.sleep()
    }

    fn cleanup(&mut self) -> (r: Result<(), DisplayError>) {
        if self.initialized {
            let ghost before = *self;
            let r = self.sleep();
            self.initialized = false;
            proof {
                assert(ran(acts_of(before.model().sleep), before.trace(), self.trace(), r));
            }
        }
        Ok(())
    }

    fn get_spec(&self) -> (r: &DisplaySpec) {
        self.protocol.get_spec()
    }
}

/// A session over the runtime-selected protocol engine.
pub type DefaultDisplay<G, S, D> = GenericDisplay<ConfigurableProtocol<G, S, D>>;

/// Open the hardware for the given model and initialise it, unless a
/// session is already open (then nothing happens). A failed attempt leaves
/// no session.
pub fn display_init<G: GpioController, S: SpiController, D: DelayController>(
    state: &mut Option<DefaultDisplay<G, S, D>>,
    firmware_type: FirmwareType,
) -> (r: Result<(), DisplayError>)
    ensures
        (*old(state)) is Some ==> r is Ok && *final(state) == *old(state),
        (*old(state)) is None ==> (r is Ok <==> (*final(state)) is Some),
        (*old(state)) is None ==> ((*final(state)) matches Some(d) ==> {
            &&& d.initialized()
            &&& model_of_kind(firmware_type, d.model())
            &&& ran(acts_of(d.model().reset + d.model().init), Seq::empty(), d.trace(), Ok(()))
        }),
{
    if state.is_none() {
        let protocol = create_default_protocol::<G, S, D>(firmware_type)?;
        let mut display = GenericDisplay::new(protocol);
        display.init()?;
        *state = Some(display);
    }
    Ok(())
}

/// Draw a packed 1-bit frame on the open session.
pub fn display_image_raw<G: GpioController, S: SpiController, D: DelayController>(
    state: &mut Option<DefaultDisplay<G, S, D>>,
    data: &[u8],
    mode: DisplayMode,
) -> (r: Result<(), DisplayError>)
    ensures
        (*old(state)) is None ==> r == Err::<(), DisplayError>(DisplayError::NotInitialized)
            && *final(state) == *old(state),
        (*old(state)) matches Some(d0) ==> (*final(state)) matches Some(d1) && draw_outcome(
            d0.initialized(),
            d0.model(),
            d0.trace(),
            d1.initialized(),
            d1.model(),
            d1.trace(),
            d1 == d0,
            data@,
            mode,
            r,
        ),
{
    match state {
        Some(display) => display.display_image_raw(data, mode),
        None => Err(DisplayError::NotInitialized),
    }
}

/// Clear the open session's panel to white.
pub fn display_clear<G: GpioController, S: SpiController, D: DelayController>(
    state: &mut Option<DefaultDisplay<G, S, D>>,
) -> (r: Result<(), DisplayError>)
    ensures
        (*old(state)) is None ==> r == Err::<(), DisplayError>(DisplayError::NotInitialized)
            && *final(state) == *old(state),
        (*old(state)) matches Some(d0) ==> (*final(state)) matches Some(d1) && draw_outcome(
            d0.initialized(),
            d0.model(),
            d0.trace(),
            d1.initialized(),
            d1.model(),
            d1.trace(),
            d1 == d0,
            white_frame(d0.model().spec.frame_bytes() as nat),
            DisplayMode::Full,
            r,
        ),
{
    match state {
        Some(display) => display.clear(),
        None => Err(DisplayError::NotInitialized),
    }
}

/// Put the open session's panel to sleep.
pub fn display_sleep<G: GpioController, S: SpiController, D: DelayController>(
    state: &mut Option<DefaultDisplay<G, S, D>>,
) -> (r: Result<(), DisplayError>)
    ensures
        (*old(state)) is None ==> r == Err::<(), DisplayError>(DisplayError::NotInitialized)
            && *final(state) == *old(state),
        (*old(state)) matches Some(d0) ==> (*final(state)) matches Some(d1) && d1.initialized()
            == d0.initialized() && ran(acts_of(d0.model().sleep), d0.trace(), d1.trace(), r),
{
    match state {
        Some(display) => display.sleep(),
        None => Err(DisplayError::NotInitialized),
    }
}

/// Close the session, if one is open: sleep best-effort, then release the
/// hardware. Safe to call at any time, and again. Also gives, as a ghost
/// value, the log of the released session at its release.
pub fn display_cleanup<G: GpioController, S: SpiController, D: DelayController>(
    state: &mut Option<DefaultDisplay<G, S, D>>,
) -> (r: (Result<(), DisplayError>, Ghost<Seq<Op>>))
    ensures
        r.0 is Ok,
        (*final(state)) is None,
        (*old(state)) matches Some(d0) ==> if d0.initialized() {
            ran_to_end(acts_of(d0.model().sleep), d0.trace(), r.1@)
        } else {
            r.1@ == d0.trace()
        },
{
    let mut released: Ghost<Seq<Op>> = Ghost(Seq::empty());
    if let Some(display) = state {
        let _ = display.cleanup();
        released = Ghost(display.trace());
    }
    *state = None;
    (Ok(()), released)
}

/// Open the hardware with a custom firmware and initialise it, when no
/// session is open; the engine is released afterwards, since the session
/// holds only the supported models. Also gives, as a ghost value, the log of
/// that engine at its release (empty where the hardware could not be
/// opened).
pub fn display_init_with_firmware<
    G: GpioController,
    S: SpiController,
    D: DelayController,
    F: DisplayFirmware,
>(state: &Option<DefaultDisplay<G, S, D>>, firmware: F) -> (r: (
    Result<(), DisplayError>,
    Ghost<Seq<Op>>,
))
    ensures
        state is Some ==> r.0 is Ok && r.1@ == Seq::<Op>::empty(),
        state is None ==> r.0 is Err || ran(
            acts_of(firmware.model().reset + firmware.model().init),
            Seq::empty(),
            r.1@,
            r.0,
        ),
        state is None && r.0 is Ok ==> ran(
            acts_of(firmware.model().reset + firmware.model().init),
            Seq::empty(),
            r.1@,
            Ok(()),
        ),
{
    if state.is_none() {
        let ghost m = firmware.model();
        let protocol = match create_protocol_with_firmware::<G, S, D, F>(firmware) {
            Ok(p) => p,
            Err(e) => return (Err(e), Ghost(Seq::empty())),
        };
        let mut display = GenericDisplay::new(protocol);
        let r = display.init();
        proof {
            lemma_unit_ok(r);
        }
        return (r, Ghost(display.trace()));
    }
    (Ok(()), Ghost(Seq::empty()))
}

/// Decode PNG bytes and draw them on the open session.
pub fn display_image_png<G: GpioController, S: SpiController, D: DelayController>(
    state: &mut Option<DefaultDisplay<G, S, D>>,
    png: &[u8],
    mode: DisplayMode,
) -> (r: Result<(), DisplayError>)
    ensures
        (*old(state)) is None ==> r == Err::<(), DisplayError>(DisplayError::NotInitialized)
            && *final(state) == *old(state),
        (*old(state)) matches Some(d0) ==> (*final(state)) matches Some(d1) && if !d0.model().spec.byte_aligned() {
            r matches Err(DisplayError::Config(_)) && d1 == d0
        } else { match png_rgba_of(
            png@,
        ) {
            None => r matches Err(DisplayError::Png(_)) && d1 == d0,
            Some(img) => exists|frame: Result<Vec<u8>, DisplayError>|
                conversion(img.0, img.1, img.2, d0.model().spec, frame) && match frame {
                    Err(e) => r == Err::<(), DisplayError>(e) && d1 == d0,
                    Ok(f) => draw_outcome(
                        d0.initialized(),
                        d0.model(),
                        d0.trace(),
                        d1.initialized(),
                        d1.model(),
                        d1.trace(),
                        d1 == d0,
                        f@,
                        mode,
                        r,
                    ),
                },
        } },
{
    match state {
        Some(display) => {
            let spec = display.get_spec();
            if spec.width % 8 != 0 {
                return Err(DisplayError::Config(String::from_str("Panel width is not byte-aligned")));
            }
            let frame = convert_png_to_1bit_with_spec(png, spec);
            match frame {
                Ok(f) => display.display_image_raw(f.as_slice(), mode),
                Err(e) => Err(e),
            }
        },
        None => Err(DisplayError::NotInitialized),
    }
}

/// Decode an image (in the formats that the `image` crate is built with:
/// PNG) and draw it on the open session.
pub fn display_image_file<G: GpioController, S: SpiController, D: DelayController>(
    state: &mut Option<DefaultDisplay<G, S, D>>,
    data: &[u8],
    mode: DisplayMode,
) -> (r: Result<(), DisplayError>)
    ensures
        (*old(state)) is None ==> r == Err::<(), DisplayError>(DisplayError::NotInitialized)
            && *final(state) == *old(state),
        (*old(state)) matches Some(d0) ==> (*final(state)) matches Some(d1) && if !d0.model().spec.byte_aligned() {
            r matches Err(DisplayError::Config(_)) && d1 == d0
        } else { match image_rgba_of(
            data@,
        ) {
            None => r matches Err(DisplayError::Png(_)) && d1 == d0,
            Some(img) => exists|frame: Result<Vec<u8>, DisplayError>|
                conversion(img.0, img.1, img.2, d0.model().spec, frame) && match frame {
                    Err(e) => r == Err::<(), DisplayError>(e) && d1 == d0,
                    Ok(f) => draw_outcome(
                        d0.initialized(),
                        d0.model(),
                        d0.trace(),
                        d1.initialized(),
                        d1.model(),
                        d1.trace(),
                        d1 == d0,
                        f@,
                        mode,
                        r,
                    ),
                },
        } },
{
    match state {
        Some(display) => {
            let spec = display.get_spec();
            if spec.width % 8 != 0 {
                return Err(DisplayError::Config(String::from_str("Panel width is not byte-aligned")));
            }
            let frame = convert_image_to_1bit_with_spec(data, spec);
            match frame {
                Ok(f) => display.display_image_raw(f.as_slice(), mode),
                Err(e) => Err(e),
            }
        },
        None => Err(DisplayError::NotInitialized),
    }
}

/// Width and height of the open session's model, or of the configured
/// model when no session is open.
pub fn display_get_dimensions<G: GpioController, S: SpiController, D: DelayController>(
    state: &Option<DefaultDisplay<G, S, D>>,
    config: &DisplayConfig,
) -> (r: (u32, u32))
    ensures
        state matches Some(d) ==> r == (d.model().spec.width, d.model().spec.height),
        state is None ==> exists|s: DisplaySpec|
            spec_of_model(config.default_firmware, s) && r == (s.width, s.height),
{
    match state {
        Some(display) => {
            let spec = display.get_spec();
            (spec.width, spec.height)
        },
        None => get_dimensions(config),
    }
}

} // verus!
