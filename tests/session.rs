use std::cell::{Cell, RefCell};

use distiller_display_sdk::display::{
    display_cleanup, display_clear, display_image_raw, display_init, display_sleep,
    DefaultDisplay, DisplayDriver, GenericDisplay,
};
use distiller_display_sdk::firmware::{Command, DisplayFirmware, EPD128x250Firmware};
use distiller_display_sdk::hardware::{
    DelayController, GpioController, HardwareInterface, SpiController,
};
use distiller_display_sdk::protocol::{
    ConfigurableProtocol, DisplayMode, EinkProtocol, GenericEinkProtocol,
};
use distiller_display_sdk::{DisplayError, FirmwareType};

/// GPIO lines whose busy input is always idle; records every output.
struct IdleGpio {
    dc: RefCell<Vec<bool>>,
    rst: RefCell<Vec<bool>>,
    reads: Cell<u32>,
}

impl GpioController for IdleGpio {
    fn new() -> Result<Self, DisplayError> {
        Ok(IdleGpio { dc: RefCell::new(Vec::new()), rst: RefCell::new(Vec::new()), reads: Cell::new(0) })
    }
    fn write_dc(&self, value: bool) -> Result<(), DisplayError> {
        self.dc.borrow_mut().push(value);
        Ok(())
    }
    fn write_rst(&self, value: bool) -> Result<(), DisplayError> {
        self.rst.borrow_mut().push(value);
        Ok(())
    }
    fn read_busy(&self) -> Result<bool, DisplayError> {
        self.reads.set(self.reads.get() + 1);
        Ok(false)
    }
}

/// GPIO lines whose busy input never clears.
struct StuckGpio {
    reads: Cell<u32>,
}

impl GpioController for StuckGpio {
    fn new() -> Result<Self, DisplayError> {
        Ok(StuckGpio { reads: Cell::new(0) })
    }
    fn write_dc(&self, _value: bool) -> Result<(), DisplayError> {
        Ok(())
    }
    fn write_rst(&self, _value: bool) -> Result<(), DisplayError> {
        Ok(())
    }
    fn read_busy(&self) -> Result<bool, DisplayError> {
        self.reads.set(self.reads.get() + 1);
        Ok(true)
    }
}

/// GPIO lines that cannot be requested.
struct MissingGpio;

impl GpioController for MissingGpio {
    fn new() -> Result<Self, DisplayError> {
        Err(DisplayError::Gpio("no chip".to_string()))
    }
    fn write_dc(&self, _value: bool) -> Result<(), DisplayError> {
        Ok(())
    }
    fn write_rst(&self, _value: bool) -> Result<(), DisplayError> {
        Ok(())
    }
    fn read_busy(&self) -> Result<bool, DisplayError> {
        Ok(false)
    }
}

/// SPI device that records each transfer.
struct RecordingSpi {
    transfers: Vec<Vec<u8>>,
}

impl SpiController for RecordingSpi {
    fn new() -> Result<Self, DisplayError> {
        Ok(RecordingSpi { transfers: Vec::new() })
    }
    fn write_all(&mut self, data: &[u8]) -> Result<(), DisplayError> {
        self.transfers.push(data.to_vec());
        Ok(())
    }
}

/// Pauses that only add up the time asked for.
struct CountingDelay {
    total_us: u64,
}

impl DelayController for CountingDelay {
    fn new() -> Self {
        CountingDelay { total_us: 0 }
    }
    fn delay_ms(&mut self, ms: u64) {
        self.total_us += ms * 1000;
    }
    fn delay_us(&mut self, us: u64) {
        self.total_us += us;
    }
}

type Engine<G> = GenericEinkProtocol<G, RecordingSpi, CountingDelay, EPD128x250Firmware>;

fn engine<G: GpioController>() -> Engine<G> {
    let hw = HardwareInterface::<G, RecordingSpi, CountingDelay>::new().unwrap();
    GenericEinkProtocol::new(hw, EPD128x250Firmware::new())
}

fn transfers<G: GpioController>(d: &GenericDisplay<Engine<G>>) -> Vec<Vec<u8>> {
    d.protocol_engine().hardware_interface().spi_controller().transfers.clone()
}

#[test]
fn init_draw_sleep_cleanup_on_idle_hardware() {
    let mut state: Option<DefaultDisplay<IdleGpio, RecordingSpi, CountingDelay>> = None;
    display_init(&mut state, FirmwareType::EPD128x250).unwrap();
    display_image_raw(&mut state, &vec![0xFF; 4000], DisplayMode::Full).unwrap();
    display_sleep(&mut state).unwrap();
    display_cleanup(&mut state).0.unwrap();
    assert!(state.is_none());
    assert!(display_cleanup(&mut state).0.is_ok());
}

#[test]
fn wrong_length_frame_is_rejected_and_session_stays_initialized() {
    let mut d = GenericDisplay::new(engine::<IdleGpio>());
    d.init().unwrap();
    let before = transfers(&d).len();
    match d.display_image_raw(&[0u8; 10], DisplayMode::Full) {
        Err(DisplayError::InvalidDataSize { expected, actual }) => {
            assert_eq!(expected, 4000);
            assert_eq!(actual, 10);
        },
        other => panic!("unexpected {:?}", other),
    }
    assert_eq!(transfers(&d).len(), before);
    d.display_image_raw(&[0u8; 4000], DisplayMode::Full).unwrap();
}

#[test]
fn second_init_does_not_reset_again() {
    let mut d = GenericDisplay::new(engine::<IdleGpio>());
    d.init().unwrap();
    d.init().unwrap();
    let gpio = d.protocol_engine().hardware_interface().gpio_controller();
    assert_eq!(*gpio.rst.borrow(), vec![false, true]);
}

#[test]
fn session_init_is_idempotent() {
    let mut state: Option<DefaultDisplay<IdleGpio, RecordingSpi, CountingDelay>> = None;
    display_init(&mut state, FirmwareType::EPD240x416).unwrap();
    display_init(&mut state, FirmwareType::EPD128x250).unwrap();
    let d = state.as_ref().unwrap();
    assert_eq!(d.get_spec().width, 240);
    match d.protocol_engine() {
        ConfigurableProtocol::EPD240x416(p) => {
            assert_eq!(*p.hardware_interface().gpio_controller().rst.borrow(), vec![false, true]);
        },
        ConfigurableProtocol::EPD128x250(_) => panic!("wrong model"),
    }
}

#[test]
fn draw_before_init_is_refused_without_io() {
    let mut d = GenericDisplay::new(engine::<IdleGpio>());
    assert!(matches!(
        d.display_image_raw(&[0u8; 4000], DisplayMode::Full),
        Err(DisplayError::NotInitialized)
    ));
    assert!(transfers(&d).is_empty());
    assert!(d.protocol_engine().hardware_interface().gpio_controller().dc.borrow().is_empty());
    let mut state: Option<DefaultDisplay<IdleGpio, RecordingSpi, CountingDelay>> = None;
    assert!(matches!(
        display_image_raw(&mut state, &[0u8; 4000], DisplayMode::Full),
        Err(DisplayError::NotInitialized)
    ));
    assert!(matches!(display_clear(&mut state), Err(DisplayError::NotInitialized)));
    assert!(matches!(display_sleep(&mut state), Err(DisplayError::NotInitialized)));
}

#[test]
fn full_frame_choreography() {
    let mut d = GenericDisplay::new(engine::<IdleGpio>());
    d.init().unwrap();
    let before = transfers(&d).len();
    d.display_image_raw(&vec![0xAA; 4000], DisplayMode::Full).unwrap();
    let t = transfers(&d)[before..].to_vec();
    assert_eq!(t[0], vec![0x24]);
    assert_eq!(t[1], vec![0xAA; 4000]);
    assert_eq!(t[2..], [vec![0x22], vec![0xF7], vec![0x20]]);
}

#[test]
fn partial_frame_runs_partial_setup_first() {
    let mut d = GenericDisplay::new(engine::<IdleGpio>());
    d.init().unwrap();
    let before = transfers(&d).len();
    d.display_image_raw(&vec![0x00; 4000], DisplayMode::Partial).unwrap();
    let t = transfers(&d)[before..].to_vec();
    assert_eq!(t[0..3], [vec![0x3C], vec![0x80], vec![0x24]]);
    assert_eq!(t[4..], [vec![0x22], vec![0xFF], vec![0x20]]);
}

#[test]
fn clear_twice_sends_white_frame_each_time() {
    let mut d = GenericDisplay::new(engine::<IdleGpio>());
    d.init().unwrap();
    let start = transfers(&d).len();
    d.clear().unwrap();
    let mid = transfers(&d).len();
    d.clear().unwrap();
    let t = transfers(&d);
    assert_eq!(t[start..mid], t[mid..]);
    assert_eq!(t[start + 1], vec![0xFF; 4000]);
}

#[test]
fn busy_line_that_never_clears_times_out_after_ten_seconds() {
    let mut p = engine::<StuckGpio>();
    assert!(matches!(p.check_status(), Err(DisplayError::Timeout)));
    let hw = p.hardware_interface();
    assert_eq!(hw.gpio_controller().reads.get(), 1001);
    assert_eq!(hw.delay_controller().total_us, 10_000_000);
}

/// GPIO lines whose busy input clears on the read after the last wait.
struct LateGpio {
    reads: Cell<u32>,
}

impl GpioController for LateGpio {
    fn new() -> Result<Self, DisplayError> {
        Ok(LateGpio { reads: Cell::new(0) })
    }
    fn write_dc(&self, _value: bool) -> Result<(), DisplayError> {
        Ok(())
    }
    fn write_rst(&self, _value: bool) -> Result<(), DisplayError> {
        Ok(())
    }
    fn read_busy(&self) -> Result<bool, DisplayError> {
        self.reads.set(self.reads.get() + 1);
        Ok(self.reads.get() <= 1000)
    }
}

#[test]
fn busy_line_clearing_at_the_ceiling_is_not_a_timeout() {
    let mut p = engine::<LateGpio>();
    p.check_status().unwrap();
    let hw = p.hardware_interface();
    assert_eq!(hw.gpio_controller().reads.get(), 1001);
    assert_eq!(hw.delay_controller().total_us, 10_000_000);
}

#[test]
fn idle_busy_line_is_read_once() {
    let mut p = engine::<IdleGpio>();
    p.check_status().unwrap();
    let hw = p.hardware_interface();
    assert_eq!(hw.gpio_controller().reads.get(), 1);
    assert_eq!(hw.delay_controller().total_us, 0);
}

#[test]
fn large_payload_goes_out_in_chunks() {
    let mut hw = HardwareInterface::<IdleGpio, RecordingSpi, CountingDelay>::new().unwrap();
    let payload: Vec<u8> = (0..10000u32).map(|i| (i % 251) as u8).collect();
    hw.spi_write_all(&payload).unwrap();
    let t = &hw.spi_controller().transfers;
    assert_eq!(t.iter().map(|c| c.len()).collect::<Vec<_>>(), vec![4096, 4096, 1808]);
    assert_eq!(t.concat(), payload);
    assert_eq!(hw.delay_controller().total_us, 300);
}

#[test]
fn small_payload_is_one_transfer() {
    let mut hw = HardwareInterface::<IdleGpio, RecordingSpi, CountingDelay>::new().unwrap();
    hw.spi_write_all(&[7u8; 4096]).unwrap();
    hw.spi_write_all(&[]).unwrap();
    let t = &hw.spi_controller().transfers;
    assert_eq!(t.len(), 2);
    assert_eq!(t[0].len(), 4096);
    assert!(t[1].is_empty());
    assert_eq!(hw.delay_controller().total_us, 0);
}

#[test]
fn reset_then_init_sequence_on_wire() {
    let mut p = engine::<IdleGpio>();
    p.init_hardware().unwrap();
    let hw = p.hardware_interface();
    let t = &hw.spi_controller().transfers;
    assert_eq!(t.len(), 27);
    assert_eq!(t[0], vec![0x12]);
    assert_eq!(t[2..4], [vec![0xF9], vec![0x00]]);
    assert_eq!(*hw.gpio_controller().rst.borrow(), vec![false, true]);
    assert_eq!(hw.gpio_controller().dc.borrow()[0], false);
}

#[test]
fn missing_hardware_leaves_no_session() {
    let mut state: Option<DefaultDisplay<MissingGpio, RecordingSpi, CountingDelay>> = None;
    assert!(matches!(
        display_init(&mut state, FirmwareType::EPD128x250),
        Err(DisplayError::Gpio(_))
    ));
    assert!(state.is_none());
}

#[test]
fn cleanup_marks_uninitialized() {
    let mut d = GenericDisplay::new(engine::<IdleGpio>());
    d.init().unwrap();
    d.cleanup().unwrap();
    assert!(matches!(
        d.display_image_raw(&[0u8; 4000], DisplayMode::Full),
        Err(DisplayError::NotInitialized)
    ));
    let t = transfers(&d);
    assert_eq!(t[t.len() - 2..], [vec![0x10], vec![0x01]]);
}

#[test]
fn model_sequences() {
    let f = EPD128x250Firmware::new();
    assert_eq!(
        f.get_sleep_sequence().commands,
        vec![Command::WriteCommand(0x10), Command::WriteData(0x01), Command::Delay(100)]
    );
    assert_eq!(f.get_reset_sequence().commands, vec![Command::Reset, Command::Delay(10)]);
    assert!(f.validate_image_size(&[0u8; 4000]).is_ok());
    assert!(matches!(
        f.validate_image_size(&[0u8; 3]),
        Err(DisplayError::InvalidDataSize { expected: 4000, actual: 3 })
    ));
}

/// SPI device whose transfers all fail.
struct BrokenSpi {
    attempts: usize,
}

impl SpiController for BrokenSpi {
    fn new() -> Result<Self, DisplayError> {
        Ok(BrokenSpi { attempts: 0 })
    }
    fn write_all(&mut self, _data: &[u8]) -> Result<(), DisplayError> {
        self.attempts += 1;
        Err(DisplayError::Spi("bus error".to_string()))
    }
}

#[test]
fn first_transfer_failure_stops_the_sequence() {
    let hw = HardwareInterface::<IdleGpio, BrokenSpi, CountingDelay>::new().unwrap();
    let mut p = GenericEinkProtocol::new(hw, EPD128x250Firmware::new());
    assert!(matches!(p.init_hardware(), Err(DisplayError::Spi(_))));
    let hw = p.hardware_interface();
    assert_eq!(hw.spi_controller().attempts, 1);
    assert_eq!(*hw.gpio_controller().dc.borrow(), vec![false]);
    assert_eq!(*hw.gpio_controller().rst.borrow(), vec![false, true]);
    let mut d = GenericDisplay::new(p);
    assert!(d.init().is_err());
    assert!(matches!(
        d.display_image_raw(&[0u8; 4000], DisplayMode::Full),
        Err(DisplayError::NotInitialized)
    ));
}

#[test]
fn chunked_write_stops_at_failed_chunk() {
    let mut hw = HardwareInterface::<IdleGpio, BrokenSpi, CountingDelay>::new().unwrap();
    assert!(hw.spi_write_all(&vec![1u8; 9000]).is_err());
    assert_eq!(hw.spi_controller().attempts, 1);
}
