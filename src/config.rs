//! Model selection and platform configuration, held as plain values.
use vstd::prelude::*;
use vstd::std_specs::iter::IteratorSpec;

use crate::error::DisplayError;
use crate::firmware::epd128x250::{is_128x250_model, spec_128x250};
use crate::firmware::epd240x416::{is_240x416_model, spec_240x416};
use crate::firmware::{
    CommandSequence, DisplayFirmware, DisplaySpec, EPD128x250Firmware, EPD240x416Firmware,
    FirmwareModel,
};

verus! {

/// Supported firmware types.
#[derive(Debug, Clone, Copy, PartialEq, Eq, Structural)]
pub enum FirmwareType {
    /// 128x250 pixel e-ink display firmware.
    EPD128x250,
    /// 240x416 pixel e-ink display firmware.
    EPD240x416,
}

/// Lower-case form of a string, as the standard library computes it.
pub uninterp spec fn lowercase_of(s: Seq<char>) -> Seq<char>;

/// Relies on `str::to_lowercase`: the result depends on the characters alone.
#[verifier::external_body]
fn to_lowercase(s: &str) -> (r: String)
    ensures
        r@ == lowercase_of(s@),
{
    s.to_lowercase()
}

/// The model that a lower-case name designates.
pub open spec fn model_named(l: Seq<char>) -> Option<FirmwareType> {
    if l == "epd128x250"@ || l == "128x250"@ {
        Some(FirmwareType::EPD128x250)
    } else if l == "epd240x416"@ || l == "240x416"@ {
        Some(FirmwareType::EPD240x416)
    } else {
        None
    }
}

/// The message for a name that designates no model.
pub open spec fn unknown_model_message(s: Seq<char>) -> Seq<char> {
    "Unknown firmware type: "@ + s + ". Supported types: EPD128x250, EPD240x416"@
}

fn same_text(a: &String, b: &str) -> (r: bool)
    ensures
        r == (a@ == b@),
{
    let bs = String::from_str(b);
    *a == bs
}

/// The model that a lower-case name designates: `epd128x250` or `128x250`,
/// `epd240x416` or `240x416`.
pub fn model_from_lowercase(l: &String) -> (r: Option<FirmwareType>)
    ensures
        r == model_named(l@),
{
    if same_text(l, "epd128x250") || same_text(l, "128x250") {
        Some(FirmwareType::EPD128x250)
    } else if same_text(l, "epd240x416") || same_text(l, "240x416") {
        Some(FirmwareType::EPD240x416)
    } else {
        None
    }
}

/// The display spec that each model reports.
pub open spec fn spec_of_model(t: FirmwareType, s: DisplaySpec) -> bool {
    match t {
        FirmwareType::EPD128x250 => spec_128x250(s),
        FirmwareType::EPD240x416 => spec_240x416(s),
    }
}

/// The full data of each model.
pub open spec fn model_of_kind(t: FirmwareType, m: FirmwareModel) -> bool {
    match t {
        FirmwareType::EPD128x250 => is_128x250_model(m),
        FirmwareType::EPD240x416 => is_240x416_model(m),
    }
}

/// The firmware of one of the supported models.
pub enum SupportedFirmware {
    /// The 128x250 model.
    EPD128x250(EPD128x250Firmware),
    /// The 240x416 model.
    EPD240x416(EPD240x416Firmware),
}

impl SupportedFirmware {
    /// The model this firmware belongs to.
    pub open spec fn kind(&self) -> FirmwareType {
        match self {
            SupportedFirmware::EPD128x250(_) => FirmwareType::EPD128x250,
            SupportedFirmware::EPD240x416(_) => FirmwareType::EPD240x416,
        }
    }
}

impl DisplayFirmware for SupportedFirmware {
    open spec fn model(&self) -> FirmwareModel {
        match self {
            SupportedFirmware::EPD128x250(f) => f.model(),
            SupportedFirmware::EPD240x416(f) => f.model(),
        }
    }

    fn get_spec(&self) -> (r: &DisplaySpec) {
        match self {
            SupportedFirmware::EPD128x250(f) => f.get_spec(),
            SupportedFirmware::EPD240x416(f) => f.get_spec(),
        }
    }

    fn get_init_sequence(&self) -> (r: CommandSequence) {
        match self {
            SupportedFirmware::EPD128x250(f) => f.get_init_sequence(),
            SupportedFirmware::EPD240x416(f) => f.get_init_sequence(),
        }
    }

    fn get_partial_init_sequence(&self) -> (r: CommandSequence) {
        match self {
            SupportedFirmware::EPD128x250(f) => f.get_partial_init_sequence(),
            SupportedFirmware::EPD240x416(f) => f.get_partial_init_sequence(),
        }
    }

    fn get_update_sequence(&self, is_partial: bool) -> (r: CommandSequence) {
        match self {
            SupportedFirmware::EPD128x250(f) => f.get_update_sequence(is_partial),
            SupportedFirmware::EPD240x416(f) => f.get_update_sequence(is_partial),
        }
    }

    fn get_sleep_sequence(&self) -> (r: CommandSequence) {
        match self {
            SupportedFirmware::EPD128x250(f) => f.get_sleep_sequence(),
            SupportedFirmware::EPD240x416(f) => f.get_sleep_sequence(),
        }
    }

    fn get_write_ram_command(&self) -> (r: u8) {
        match self {
            SupportedFirmware::EPD128x250(f) => f.get_write_ram_command(),
            SupportedFirmware::EPD240x416(f) => f.get_write_ram_command(),
        }
    }

    fn get_reset_sequence(&self) -> (r: CommandSequence) {
        match self {
            SupportedFirmware::EPD128x250(f) => f.get_reset_sequence(),
            SupportedFirmware::EPD240x416(f) => f.get_reset_sequence(),
        }
    }
}

impl FirmwareType {
    /// Create a firmware instance for this type.
    pub fn create_firmware(&self) -> (r: SupportedFirmware)
        ensures
            r.kind() == *self,
            model_of_kind(*self, r.model()),
    {
        match self {
            FirmwareType::EPD128x250 => SupportedFirmware::EPD128x250(EPD128x250Firmware::new()),
            FirmwareType::EPD240x416 => SupportedFirmware::EPD240x416(EPD240x416Firmware::new()),
        }
    }

    /// Get the display spec for this firmware type.
    pub fn get_spec(&self) -> (r: DisplaySpec)
        ensures
            spec_of_model(*self, r),
    {
        let f = self.create_firmware();
        f.get_spec().duplicate()
    }

    /// Parse a firmware type from its name, in any letter case: `EPD128x250`
    /// or `128x250`, `EPD240x416` or `240x416`.
    pub fn parse(s: &str) -> (r: Result<Self, DisplayError>)
        ensures
            r matches Ok(t) ==> model_named(lowercase_of(s@)) == Some(t),
            r is Err ==> model_named(lowercase_of(s@)) is None,
            r matches Err(e) ==> e matches DisplayError::Config(m) && m@ == unknown_model_message(
                s@,
            ),
    {
        let l = to_lowercase(s);
        match model_from_lowercase(&l) {
            Some(t) => Ok(t),
            None => {
                let mut m = String::from_str("Unknown firmware type: ");
                m.append(s);
                m.append(". Supported types: EPD128x250, EPD240x416");
                Err(DisplayError::Config(m))
            },
        }
    }

    /// Get the canonical name.
    pub fn as_str(&self) -> (r: &'static str)
        ensures
            r@ == model_name(*self),
    {
        match self {
            FirmwareType::EPD128x250 => "EPD128x250",
            FirmwareType::EPD240x416 => "EPD240x416",
        }
    }

    /// Get the canonical name as an owned string.
    pub fn to_string(&self) -> (r: String)
        ensures
            r@ == model_name(*self),
    {
        String::from_str(self.as_str())
    }
}

/// The canonical name of each model.
pub open spec fn model_name(t: FirmwareType) -> Seq<char> {
    match t {
        FirmwareType::EPD128x250 => "EPD128x250"@,
        FirmwareType::EPD240x416 => "EPD240x416"@,
    }
}

impl std::str::FromStr for FirmwareType {
    type Err = DisplayError;

    fn from_str(s: &str) -> Result<Self, Self::Err> {
        Self::parse(s)
    }
}

/// GPIO and SPI resources of one platform.
#[derive(Debug, Clone)]
pub struct HardwareConfig {
    /// Platform identifier (cm5, radxa-zero3, ...).
    pub platform: String,
    /// SPI device path.
    pub spi_device: String,
    /// GPIO chip device path.
    pub gpio_chip: String,
    /// Data/Command GPIO line offset.
    pub dc_pin: u32,
    /// Reset GPIO line offset.
    pub rst_pin: u32,
    /// Busy GPIO line offset.
    pub busy_pin: u32,
}

/// The resources of the default platform (CM5).
pub open spec fn default_hardware(h: HardwareConfig) -> bool {
    &&& h.platform@ == "cm5"@
    &&& h.spi_device@ == "/dev/spidev0.0"@
    &&& h.gpio_chip@ == "/dev/gpiochip0"@
    &&& h.dc_pin == 7
    &&& h.rst_pin == 13
    &&& h.busy_pin == 9
}

impl HardwareConfig {
    /// A copy of this record.
    pub fn duplicate(&self) -> (r: HardwareConfig)
        ensures
            r == *self,
    {
        HardwareConfig {
            platform: self.platform.clone(),
            spi_device: self.spi_device.clone(),
            gpio_chip: self.gpio_chip.clone(),
            dc_pin: self.dc_pin,
            rst_pin: self.rst_pin,
            busy_pin: self.busy_pin,
        }
    }
}

impl Default for HardwareConfig {
    fn default() -> (r: Self)
        ensures
            default_hardware(r),
    {
        HardwareConfig {
            platform: String::from_str("cm5"),
            spi_device: String::from_str("/dev/spidev0.0"),
            gpio_chip: String::from_str("/dev/gpiochip0"),
            dc_pin: 7,
            rst_pin: 13,
            busy_pin: 9,
        }
    }
}

/// Model selection and platform resources.
#[derive(Debug, Clone)]
pub struct DisplayConfig {
    /// Default firmware type for the display.
    pub default_firmware: FirmwareType,
    /// Hardware configuration.
    pub hardware: HardwareConfig,
}

impl Default for DisplayConfig {
    fn default() -> (r: Self)
        ensures
            r.default_firmware == FirmwareType::EPD128x250,
            default_hardware(r.hardware),
    {
        DisplayConfig { default_firmware: FirmwareType::EPD128x250, hardware: HardwareConfig::default() }
    }
}

/// A fresh configuration: the 128x250 model on the default platform.
pub fn init_config() -> (r: DisplayConfig)
    ensures
        r.default_firmware == FirmwareType::EPD128x250,
        default_hardware(r.hardware),
{
    DisplayConfig::default()
}

/// Set the default firmware type.
pub fn set_default_firmware(config: &mut DisplayConfig, firmware_type: FirmwareType) -> (r: Result<
    (),
    DisplayError,
>)
    ensures
        r is Ok,
        final(config).default_firmware == firmware_type,
        final(config).hardware == old(config).hardware,
{
    config.default_firmware = firmware_type;
    Ok(())
}

/// Set the default firmware type from its name; an unknown name leaves the
/// configuration as it was.
pub fn set_default_firmware_from_str(config: &mut DisplayConfig, firmware_str: &str) -> (r: Result<
    (),
    DisplayError,
>)
    ensures
        final(config).hardware == old(config).hardware,
        match model_named(lowercase_of(firmware_str@)) {
            Some(t) => r is Ok && final(config).default_firmware == t,
            None => r matches Err(DisplayError::Config(_)) && *final(config) == *old(config),
        },
{
    let firmware_type = FirmwareType::parse(firmware_str)?;
    set_default_firmware(config, firmware_type)
}

/// Get the current default firmware type.
pub fn get_default_firmware(config: &DisplayConfig) -> (r: Result<FirmwareType, DisplayError>)
    ensures
        r == Ok::<FirmwareType, DisplayError>(config.default_firmware),
{
    Ok(config.default_firmware)
}

/// Create a firmware instance of the default firmware type.
pub fn create_default_firmware(config: &DisplayConfig) -> (r: Result<SupportedFirmware, DisplayError>)
    ensures
        r matches Ok(f) && f.kind() == config.default_firmware && model_of_kind(
            config.default_firmware,
            f.model(),
        ),
{
    let firmware_type = get_default_firmware(config)?;
    Ok(firmware_type.create_firmware())
}

/// Get the display spec of the default firmware type.
pub fn get_default_spec(config: &DisplayConfig) -> (r: Result<DisplaySpec, DisplayError>)
    ensures
        r matches Ok(s) && spec_of_model(config.default_firmware, s),
{
    let firmware_type = get_default_firmware(config)?;
    Ok(firmware_type.get_spec())
}

/// Get the hardware configuration.
pub fn get_hardware_config(config: &DisplayConfig) -> (r: Result<HardwareConfig, DisplayError>)
    ensures
        r == Ok::<HardwareConfig, DisplayError>(config.hardware),
{
    Ok(config.hardware.duplicate())
}

/// The lines of a text, as `str::lines` splits it.
pub uninterp spec fn lines_of(s: Seq<char>) -> Seq<Seq<char>>;

/// A text without its leading and trailing whitespace, as `str::trim` cuts
/// it.
pub uninterp spec fn trimmed(s: Seq<char>) -> Seq<char>;

/// Relies on `str::lines`: the lines depend on the text alone.
#[verifier::external_body]
fn split_lines(s: &str) -> (r: Vec<String>)
    ensures
        r@.len() == lines_of(s@).len(),
        forall|i: int| 0 <= i < r@.len() ==> #[trigger] r@[i]@ == lines_of(s@)[i],
{
    s.lines().map(|l| l.to_string()).collect()
}

/// Relies on `str::trim`: the result depends on the text alone.
#[verifier::external_body]
fn trim(s: &str) -> (r: String)
    ensures
        r@ == trimmed(s@),
{
    s.trim().to_string()
}

broadcast use {vstd::string::axiom_spec_iter, vstd::string::next_postcondition};

/// The characters of a text, in order.
fn chars_of(s: &str) -> (r: Vec<char>)
    ensures
        r@ == s@,
{
    let mut it = s.chars();
    let mut v: Vec<char> = Vec::new();
    loop
        invariant
            it.obeys_prophetic_iter_laws(),
            it.decrease() is Some,
            v@ + it.remaining() == s@,
        decreases it.decrease()->0,
    {
        match it.next() {
            Some(c) => {
                v.push(c);
                assert(v@ + it.remaining() =~= s@);
            },
            None => {
                assert(v@ =~= s@);
                return v;
            },
        }
    }
}

/// Relies on `String::from_iter`: the text of these characters, in order.
#[verifier::external_body]
fn text_of(cs: &[char]) -> (r: String)
    ensures
        r@ == cs@,
{
    String::from_iter(cs.iter())
}

/// The value of a string of decimal digits.
pub open spec fn digits_value(s: Seq<char>) -> int
    decreases s.len(),
{
    if s.len() == 0 {
        0
    } else {
        digits_value(s.drop_last()) * 10 + (s.last() as int - '0' as int)
    }
}

/// The text after an optional leading `+`.
pub open spec fn unsigned_part(s: Seq<char>) -> Seq<char> {
    if s.len() > 0 && s[0] == '+' {
        s.skip(1)
    } else {
        s
    }
}

/// Every character is a decimal digit.
pub open spec fn all_digits(d: Seq<char>) -> bool {
    forall|i: int| 0 <= i < d.len() ==> '0' <= #[trigger] d[i] <= '9'
}

/// What `u32::from_str` accepts: an optional `+`, then one or more decimal
/// digits whose value fits in `u32`.
pub open spec fn decimal_u32(s: Seq<char>) -> Option<u32> {
    let d = unsigned_part(s);
    if d.len() > 0 && all_digits(d) && digits_value(d) <= u32::MAX {
        Some(digits_value(d) as u32)
    } else {
        None
    }
}

proof fn lemma_digits_grow(d: Seq<char>, i: int, j: int)
    requires
        0 <= i <= j <= d.len(),
        forall|k: int| 0 <= k < d.len() ==> '0' <= #[trigger] d[k] <= '9',
    ensures
        digits_value(d.take(i)) <= digits_value(d.take(j)),
        digits_value(d.take(i)) >= 0,
    decreases j - i,
{
    if i == 0 {
        lemma_digits_nonneg(d.take(j));
        assert(d.take(0) =~= Seq::<char>::empty());
    } else if i < j {
        lemma_digits_grow(d, i, j - 1);
        assert(d.take(j).drop_last() =~= d.take(j - 1));
        lemma_digits_nonneg(d.take(j - 1));
    } else {
        lemma_digits_nonneg(d.take(i));
    }
}

proof fn lemma_digits_nonneg(d: Seq<char>)
    requires
        forall|k: int| 0 <= k < d.len() ==> '0' <= #[trigger] d[k] <= '9',
    ensures
        digits_value(d) >= 0,
    decreases d.len(),
{
    if d.len() > 0 {
        lemma_digits_nonneg(d.drop_last());
    }
}

/// Parse a decimal `u32`: an optional `+`, then one or more decimal digits
/// whose value fits in `u32`.
pub fn parse_u32(s: &str) -> (r: Option<u32>)
    ensures
        r == decimal_u32(s@),
{
    let cs = chars_of(s);
    let n = cs.len();
    let start: usize = if n > 0 && cs[0] == '+' {
        1
    } else {
        0
    };
    let ghost d = cs@.skip(start as int);
    proof {
        assert(cs@.skip(0) =~= cs@);
        assert(d == unsigned_part(s@));
    }
    if start == n {
        return None;
    }
    let mut value: u64 = 0;
    let mut i: usize = start;
    assert(d.take(0) =~= Seq::<char>::empty());
    while i < n
        invariant
            cs@ == s@,
            n == cs@.len(),
            start <= i <= n,
            d == cs@.skip(start as int),
            d == unsigned_part(s@),
            d.len() > 0,
            forall|k: int| 0 <= k < i - start ==> '0' <= #[trigger] d[k] <= '9',
            value == digits_value(d.take(i - start)),
            value <= u32::MAX,
        decreases n - i,
    {
        let c = cs[i];
        if !('0' <= c && c <= '9') {
            proof {
                assert(d[i - start] == c);
                assert(!('0' <= d[i - start] <= '9'));
                assert(!all_digits(d));
                assert(decimal_u32(s@) is None);
            }
            return None;
        }
        let digit = (c as u32 - '0' as u32) as u64;
        proof {
            assert(d.take(i - start + 1).drop_last() =~= d.take(i - start));
            assert(d.take(i - start + 1).last() == c);
        }
        let next = value * 10 + digit;
        if next > 0xffff_ffffu64 {
            proof {
                assert(digits_value(d.take(i - start + 1)) == next);
                if all_digits(d) {
                    lemma_digits_grow(d, i - start + 1, d.len() as int);
                    assert(d.take(d.len() as int) =~= d);
                    assert(digits_value(d) > u32::MAX);
                }
                assert(decimal_u32(s@) is None);
            }
            return None;
        }
        proof {
            assert(digits_value(d.take(i - start + 1)) == next);
        }
        value = next;
        i = i + 1;
    }
    proof {
        assert(d.take(n - start) =~= d);
    }
    Some(value as u32)
}

/// The configuration as values.
pub ghost struct ConfigView {
    pub firmware: FirmwareType,
    pub platform: Seq<char>,
    pub spi_device: Seq<char>,
    pub gpio_chip: Seq<char>,
    pub dc_pin: u32,
    pub rst_pin: u32,
    pub busy_pin: u32,
}

impl View for DisplayConfig {
    type V = ConfigView;

    open spec fn view(&self) -> ConfigView {
        ConfigView {
            firmware: self.default_firmware,
            platform: self.hardware.platform@,
            spi_device: self.hardware.spi_device@,
            gpio_chip: self.hardware.gpio_chip@,
            dc_pin: self.hardware.dc_pin,
            rst_pin: self.hardware.rst_pin,
            busy_pin: self.hardware.busy_pin,
        }
    }
}

/// The default configuration, as values.
pub open spec fn default_config_view() -> ConfigView {
    ConfigView {
        firmware: FirmwareType::EPD128x250,
        platform: "cm5"@,
        spi_device: "/dev/spidev0.0"@,
        gpio_chip: "/dev/gpiochip0"@,
        dc_pin: 7,
        rst_pin: 13,
        busy_pin: 9,
    }
}

/// The reading position of an INI text: the current section and the
/// configuration so far.
pub ghost struct IniState {
    pub section: Seq<char>,
    pub config: ConfigView,
}

/// The first position of `c` in `s`.
pub open spec fn first_index(s: Seq<char>, c: char) -> Option<int> {
    if exists|i: int| 0 <= i < s.len() && s[i] == c {
        let i = choose|i: int|
            0 <= i < s.len() && s[i] == c && forall|j: int| 0 <= j < i ==> s[j] != c;
        Some(i)
    } else {
        None
    }
}

/// A `key = value` setting applied in a section; `None` for a value that is
/// refused (an unknown firmware name, a pin that is not a `u32`).
pub open spec fn ini_setting(st: IniState, key: Seq<char>, value: Seq<char>) -> Option<IniState> {
    let c = st.config;
    if st.section == "display"@ {
        if key == "firmware"@ {
            match model_named(lowercase_of(value)) {
                Some(t) => Some(IniState { config: ConfigView { firmware: t, ..c }, ..st }),
                None => None,
            }
        } else {
            Some(st)
        }
    } else if st.section == "hardware"@ {
        if key == "platform"@ {
            Some(IniState { config: ConfigView { platform: value, ..c }, ..st })
        } else if key == "spi_device"@ {
            Some(IniState { config: ConfigView { spi_device: value, ..c }, ..st })
        } else if key == "gpio_chip"@ {
            Some(IniState { config: ConfigView { gpio_chip: value, ..c }, ..st })
        } else {
            Some(st)
        }
    } else if st.section == "gpio_pins"@ {
        if key == "dc_pin"@ {
            match decimal_u32(value) {
                Some(v) => Some(IniState { config: ConfigView { dc_pin: v, ..c }, ..st }),
                None => None,
            }
        } else if key == "rst_pin"@ {
            match decimal_u32(value) {
                Some(v) => Some(IniState { config: ConfigView { rst_pin: v, ..c }, ..st }),
                None => None,
            }
        } else if key == "busy_pin"@ {
            match decimal_u32(value) {
                Some(v) => Some(IniState { config: ConfigView { busy_pin: v, ..c }, ..st }),
                None => None,
            }
        } else {
            Some(st)
        }
    } else {
        Some(st)
    }
}

/// One line of an INI text, trimmed: blank lines and `#` comments are
/// skipped, `[name]` opens a section, `key = value` is a setting, anything
/// else is ignored.
pub open spec fn ini_line(st: IniState, raw: Seq<char>) -> Option<IniState> {
    let line = trimmed(raw);
    if line.len() == 0 || line[0] == '#' {
        Some(st)
    } else if line[0] == '[' && line.last() == ']' {
        Some(IniState { section: line.subrange(1, line.len() - 1), ..st })
    } else {
        match first_index(line, '=') {
            None => Some(st),
            Some(e) => ini_setting(st, trimmed(line.take(e)), trimmed(line.skip(e + 1))),
        }
    }
}

/// The lines of an INI text read in order from `st`; `None` at the first
/// refused value.
pub open spec fn ini_read(lines: Seq<Seq<char>>, st: IniState) -> Option<IniState>
    decreases lines.len(),
{
    if lines.len() == 0 {
        Some(st)
    } else {
        match ini_read(lines.drop_last(), st) {
            None => None,
            Some(s) => ini_line(s, lines.last()),
        }
    }
}

fn find_char(cs: &Vec<char>, c: char) -> (r: Option<usize>)
    ensures
        r matches Some(i) ==> first_index(cs@, c) == Some(i as int) && i < cs@.len(),
        r is None ==> first_index(cs@, c) is None,
{
    let mut i: usize = 0;
    while i < cs.len()
        invariant
            i <= cs@.len(),
            forall|j: int| 0 <= j < i ==> cs@[j] != c,
        decreases cs@.len() - i,
    {
        if cs[i] == c {
            proof {
                let k = choose|k: int|
                    0 <= k < cs@.len() && cs@[k] == c && forall|j: int| 0 <= j < k ==> cs@[j] != c;
                assert(k == i as int) by {
                    if k < i {
                    } else if k > i {
                        assert(cs@[i as int] == c);
                    }
                }
            }
            return Some(i);
        }
        i = i + 1;
    }
    None
}

fn apply_setting(config: &mut DisplayConfig, section: &String, key: &String, value: &String) -> (r:
    Result<(), DisplayError>)
    ensures
        match ini_setting(IniState { section: section@, config: old(config)@ }, key@, value@) {
            Some(st) => r is Ok && final(config)@ == st.config,
            None => r matches Err(DisplayError::Config(_)),
        },
{
    if same_text(section, "display") {
        if same_text(key, "firmware") {
            config.default_firmware = FirmwareType::parse(value.as_str())?;
        }
    } else if same_text(section, "hardware") {
        if same_text(key, "platform") {
            config.hardware.platform = value.clone();
        } else if same_text(key, "spi_device") {
            config.hardware.spi_device = value.clone();
        } else if same_text(key, "gpio_chip") {
            config.hardware.gpio_chip = value.clone();
        }
    } else if same_text(section, "gpio_pins") {
        let is_dc = same_text(key, "dc_pin");
        let is_rst = same_text(key, "rst_pin");
        let is_busy = same_text(key, "busy_pin");
        if is_dc || is_rst || is_busy {
            match parse_u32(value.as_str()) {
                Some(v) => {
                    if is_dc {
                        config.hardware.dc_pin = v;
                    } else if is_rst {
                        config.hardware.rst_pin = v;
                    } else {
                        config.hardware.busy_pin = v;
                    }
                },
                None => {
                    let mut m = String::from_str("Invalid ");
                    m.append(key.as_str());
                    m.append(": ");
                    m.append(value.as_str());
                    return Err(DisplayError::Config(m));
                },
            }
        }
    }
    Ok(())
}

/// Parse an INI-style configuration: `[display]` `firmware`, `[hardware]`
/// `platform`, `spi_device`, `gpio_chip`, and `[gpio_pins]` `dc_pin`,
/// `rst_pin`, `busy_pin`, over the defaults. Fails on an unknown firmware
/// name or a pin that is not a `u32`.
pub fn parse_ini_config(content: &str) -> (r: Result<DisplayConfig, DisplayError>)
    ensures
        match ini_read(
            lines_of(content@),
            IniState { section: Seq::empty(), config: default_config_view() },
        ) {
            Some(st) => r matches Ok(c) && c@ == st.config,
            None => r matches Err(DisplayError::Config(_)),
        },
{
    let mut config = DisplayConfig::default();
    let mut section = String::new();
    let lines = split_lines(content);
    let ghost all = lines_of(content@);
    let ghost init = IniState { section: Seq::empty(), config: default_config_view() };
    proof {
        reveal_strlit("cm5");
        reveal_strlit("/dev/spidev0.0");
        reveal_strlit("/dev/gpiochip0");
        assert(config@ == default_config_view());
        assert(all.subrange(0, 0) =~= Seq::<Seq<char>>::empty());
    }
    let mut k: usize = 0;
    while k < lines.len()
        invariant
            all == lines_of(content@),
            init == (IniState { section: Seq::empty(), config: default_config_view() }),
            lines@.len() == all.len(),
            forall|i: int| 0 <= i < lines@.len() ==> #[trigger] lines@[i]@ == all[i],
            k <= lines@.len(),
            ini_read(all.subrange(0, k as int), init) == Some(
                IniState { section: section@, config: config@ },
            ),
        decreases lines@.len() - k,
    {
        let ghost st = IniState { section: section@, config: config@ };
        proof {
            assert(all.subrange(0, k + 1).drop_last() =~= all.subrange(0, k as int));
            assert(all.subrange(0, k + 1).last() == all[k as int]);
        }
        let line = trim(lines[k].as_str());
        let cs = chars_of(line.as_str());
        let n = cs.len();
        if n == 0 || cs[0] == '#' {
            k = k + 1;
            continue;
        }
        if cs[0] == '[' && cs[n - 1] == ']' {
            section = text_of(vstd::slice::slice_subrange(cs.as_slice(), 1, n - 1));
            k = k + 1;
            continue;
        }
        match find_char(&cs, '=') {
            None => {},
            Some(e) => {
                let key = trim(text_of(vstd::slice::slice_subrange(cs.as_slice(), 0, e)).as_str());
                let value = trim(
                    text_of(vstd::slice::slice_subrange(cs.as_slice(), e + 1, n)).as_str(),
                );
                proof {
                    assert(cs@.subrange(0, e as int) =~= cs@.take(e as int));
                    assert(cs@.subrange(e + 1, n as int) =~= cs@.skip(e + 1));
                }
                let r = apply_setting(&mut config, &section, &key, &value);
                if let Err(err) = r {
                    proof {
                        assert(line@ == trimmed(all[k as int]));
                        assert(ini_line(st, all[k as int]) == ini_setting(st, key@, value@));
                        assert(ini_setting(st, key@, value@) is None);
                        assert(ini_read(all.subrange(0, k + 1), init) is None);
                        lemma_ini_read_stops(all, init, k + 1);
                    }
                    return Err(err);
                }
            },
        }
        k = k + 1;
    }
    proof {
        assert(all.subrange(0, lines@.len() as int) =~= all);
    }
    Ok(config)
}

/// The firmware value of a line in the legacy format: the trimmed line starts
/// with `firmware=` or `FIRMWARE=`, and the text up to the next `=`, trimmed,
/// is not empty.
pub open spec fn legacy_value(raw: Seq<char>) -> Option<Seq<char>> {
    let t = trimmed(raw);
    if t.len() >= 9 && (t.take(9) == "firmware="@ || t.take(9) == "FIRMWARE="@) {
        let rest = t.skip(9);
        let segment = match first_index(rest, '=') {
            Some(e) => rest.take(e),
            None => rest,
        };
        if trimmed(segment).len() > 0 {
            Some(trimmed(segment))
        } else {
            None
        }
    } else {
        None
    }
}

/// The legacy firmware value of the first line that has one.
pub open spec fn legacy_in(lines: Seq<Seq<char>>) -> Option<Seq<char>>
    decreases lines.len(),
{
    if lines.len() == 0 {
        None
    } else {
        match legacy_value(lines[0]) {
            Some(v) => Some(v),
            None => legacy_in(lines.skip(1)),
        }
    }
}

fn starts_with_text(cs: &Vec<char>, prefix: &str) -> (r: bool)
    ensures
        r == (cs@.len() >= prefix@.len() && cs@.take(prefix@.len() as int) == prefix@),
{
    let p = chars_of(prefix);
    if cs.len() < p.len() {
        return false;
    }
    let mut i: usize = 0;
    while i < p.len()
        invariant
            p@ == prefix@,
            p@.len() <= cs@.len(),
            i <= p@.len(),
            forall|j: int| 0 <= j < i ==> cs@[j] == p@[j],
        decreases p@.len() - i,
    {
        if cs[i] != p[i] {
            proof {
                assert(cs@.take(p@.len() as int)[i as int] != prefix@[i as int]);
            }
            return false;
        }
        i = i + 1;
    }
    assert(cs@.take(p@.len() as int) =~= prefix@);
    true
}

/// The firmware name in a legacy configuration text: from the first
/// `firmware=` or `FIRMWARE=` line with a non-empty value, the text after
/// the first `=` up to the next one, trimmed.
pub fn legacy_firmware_setting(content: &str) -> (r: Option<String>)
    ensures
        match legacy_in(lines_of(content@)) {
            Some(v) => r matches Some(s) && s@ == v,
            None => r is None,
        },
{
    let lines = split_lines(content);
    let ghost all = lines_of(content@);
    let mut k: usize = 0;
    assert(all.skip(0) =~= all);
    while k < lines.len()
        invariant
            all == lines_of(content@),
            lines@.len() == all.len(),
            forall|i: int| 0 <= i < lines@.len() ==> #[trigger] lines@[i]@ == all[i],
            k <= lines@.len(),
            legacy_in(all) == legacy_in(all.skip(k as int)),
        decreases lines@.len() - k,
    {
        proof {
            assert(all.skip(k as int)[0] == all[k as int]);
            assert(all.skip(k as int).skip(1) =~= all.skip(k + 1));
        }
        let line = trim(lines[k].as_str());
        let cs = chars_of(line.as_str());
        if starts_with_text(&cs, "firmware=") || starts_with_text(&cs, "FIRMWARE=") {
            proof {
                reveal_strlit("firmware=");
                reveal_strlit("FIRMWARE=");
            }
            let rest_slice = vstd::slice::slice_subrange(cs.as_slice(), 9, cs.len());
            let rest: Vec<char> = chars_of(text_of(rest_slice).as_str());
            let end = match find_char(&rest, '=') {
                Some(e) => e,
                None => rest.len(),
            };
            let segment = trim(text_of(vstd::slice::slice_subrange(rest.as_slice(), 0, end)).as_str());
            proof {
                assert(rest@ =~= line@.skip(9));
                assert(rest@.subrange(0, end as int) =~= rest@.take(end as int));
                assert(rest@.take(rest@.len() as int) =~= rest@);
            }
            if !segment.as_str().is_empty() {
                return Some(segment);
            }
        }
        k = k + 1;
    }
    proof {
        assert(all.skip(k as int) =~= Seq::<Seq<char>>::empty());
    }
    None
}

proof fn lemma_ini_read_stops(all: Seq<Seq<char>>, init: IniState, k: int)
    requires
        0 <= k <= all.len(),
        ini_read(all.subrange(0, k), init) is None,
    ensures
        ini_read(all, init) is None,
    decreases all.len() - k,
{
    if k < all.len() {
        assert(all.subrange(0, k + 1).drop_last() =~= all.subrange(0, k));
        lemma_ini_read_stops(all, init, k + 1);
    } else {
        assert(all.subrange(0, k) =~= all);
    }
}

/// Every supported model packs whole bytes per row, and one frame takes
/// `width * height / 8` bytes.
pub proof fn supported_models_are_byte_aligned(t: FirmwareType, s: DisplaySpec)
    requires
        spec_of_model(t, s),
    ensures
        s.byte_aligned(),
        s.frame_bytes() == (s.width * s.height) / 8,
        s.frame_bytes() <= usize::MAX,
{
}

} // verus!
