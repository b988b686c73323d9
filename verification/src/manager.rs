//! The ports that are open: their settings, their buffers, and what is going on with them.
//!
//! Several ports can be open at a time; a port's name is its handle. The manager holds no device.
//! The caller opens and closes devices, runs the readers, and performs what the operations ask for
//! one operation at a time.

use vstd::prelude::*;
use vstd::string::StringExecFns;

use crate::io;
use crate::io::Io;
use crate::io::Next;
use crate::io::NextView;
use crate::ring;
use crate::ring::RingBuf;
use crate::ring::RingView;
use crate::text;

pub use crate::ring::MAX_BUFFER_SIZE;
pub use crate::ring::MAX_PATTERN_SIZE;

verus! {

/// The baud rate of a port unless the caller says otherwise.
pub const DEFAULT_BAUDRATE: u32 = 115200;

/// The read timeout of a port, in milliseconds: an upper bound for one read of the device. It does
/// not delay anything.
pub const DEFAULT_READ_TIMEOUT_MS: u64 = 500;

/// The size of a port's buffer.
pub const DEFAULT_BUFFER_SIZE: usize = 1024 * 1024;

/// How long no byte must have come in for a response to count as ended, in milliseconds.
pub const DEFAULT_IDLE_MS: u64 = 300;

/// How many unread bytes end a read at once.
pub const DEFAULT_MAX_BYTES: usize = 64 * 1024;

/// How long an operation waits at most, in milliseconds.
pub const DEFAULT_TIMEOUT_MS: u64 = 5000;

/// The longest wait that a read or an exchange accepts, in milliseconds.
pub const MAX_READ_TIMEOUT_MS: u64 = 300_000;

/// The longest wait that an expectation accepts, in milliseconds.
pub const MAX_EXPECT_TIMEOUT_MS: u64 = 300_000;

/// The longest pause between the chunks of a file, in milliseconds.
pub const MAX_SEND_GAP_MS: u64 = 60_000;

/// How long a caller waits for new bytes before it looks again, in milliseconds.
pub const POLL_INTERVAL_MS: u64 = 10;

/// How long closing a port waits for a file transfer to stop, in milliseconds.
pub const CLOSE_WAIT_MS: u64 = 30_000;

/// The number of data bits of a character.
#[derive(Debug, Clone, Copy, PartialEq, Eq, Structural)]
pub enum DataBits {
    Five,
    Six,
    Seven,
    Eight,
}

/// The parity of a character.
#[derive(Debug, Clone, Copy, PartialEq, Eq, Structural)]
pub enum Parity {
    Off,
    Odd,
    Even,
}

/// The number of stop bits of a character.
#[derive(Debug, Clone, Copy, PartialEq, Eq, Structural)]
pub enum StopBits {
    One,
    Two,
}

/// The flow control of a port.
#[derive(Debug, Clone, Copy, PartialEq, Eq, Structural)]
pub enum FlowControl {
    Off,
    Software,
    Hardware,
}

/// The settings of a port.
#[derive(Debug, Clone, Copy, PartialEq, Eq, Structural)]
pub struct PortConfig {
    /// The baud rate.
    pub baudrate: u32,
    /// The data bits.
    pub data_bits: DataBits,
    /// The parity.
    pub parity: Parity,
    /// The stop bits.
    pub stop_bits: StopBits,
    /// The flow control.
    pub flow_control: FlowControl,
    /// The upper bound for one read of the device, in milliseconds.
    pub read_timeout_ms: u64,
    /// The size of the buffer.
    pub buffer_size: usize,
}

/// The settings of a port unless the caller says otherwise.
pub open spec fn default_config() -> PortConfig {
    PortConfig {
        baudrate: DEFAULT_BAUDRATE,
        data_bits: DataBits::Eight,
        parity: Parity::Off,
        stop_bits: StopBits::One,
        flow_control: FlowControl::Off,
        read_timeout_ms: DEFAULT_READ_TIMEOUT_MS,
        buffer_size: DEFAULT_BUFFER_SIZE,
    }
}

impl Default for PortConfig {
    fn default() -> (r: Self)
        ensures
            r == default_config(),
    {
        PortConfig {
            baudrate: DEFAULT_BAUDRATE,
            data_bits: DataBits::Eight,
            parity: Parity::Off,
            stop_bits: StopBits::One,
            flow_control: FlowControl::Off,
            read_timeout_ms: DEFAULT_READ_TIMEOUT_MS,
            buffer_size: DEFAULT_BUFFER_SIZE,
        }
    }
}

/// The data bits that a number stands for.
pub open spec fn data_bits_of(v: u8) -> Option<DataBits> {
    if v == 5 {
        Some(DataBits::Five)
    } else if v == 6 {
        Some(DataBits::Six)
    } else if v == 7 {
        Some(DataBits::Seven)
    } else if v == 8 {
        Some(DataBits::Eight)
    } else {
        None
    }
}

/// Parses a number of data bits.
pub fn parse_data_bits(v: u8) -> (r: Result<DataBits, String>)
    ensures
        match r {
            Ok(d) => data_bits_of(v) == Some(d),
            Err(e) => data_bits_of(v) is None && e@ == "data_bits 仅支持 5-8，收到 "@
                + text::decimal(v as nat),
        },
{
    match v {
        5 => Ok(DataBits::Five),
        6 => Ok(DataBits::Six),
        7 => Ok(DataBits::Seven),
        8 => Ok(DataBits::Eight),
        _ => Err(
            io::caused("data_bits 仅支持 5-8，收到 ", text::decimal_text(v as u64).as_str()),
        ),
    }
}

/// The stop bits that a number stands for.
pub open spec fn stop_bits_of(v: u8) -> Option<StopBits> {
    if v == 1 {
        Some(StopBits::One)
    } else if v == 2 {
        Some(StopBits::Two)
    } else {
        None
    }
}

/// Parses a number of stop bits.
pub fn parse_stop_bits(v: u8) -> (r: Result<StopBits, String>)
    ensures
        match r {
            Ok(d) => stop_bits_of(v) == Some(d),
            Err(e) => stop_bits_of(v) is None && e@ == "stop_bits 仅支持 1 或 2，收到 "@
                + text::decimal(v as nat),
        },
{
    match v {
        1 => Ok(StopBits::One),
        2 => Ok(StopBits::Two),
        _ => Err(
            io::caused("stop_bits 仅支持 1 或 2，收到 ", text::decimal_text(v as u64).as_str()),
        ),
    }
}

/// The parity that a name stands for, in upper or lower case.
pub open spec fn parity_of(s: Seq<char>) -> Option<Parity> {
    if text::lower(s) == "none"@ {
        Some(Parity::Off)
    } else if text::lower(s) == "even"@ {
        Some(Parity::Even)
    } else if text::lower(s) == "odd"@ {
        Some(Parity::Odd)
    } else {
        None
    }
}

/// Parses the name of a parity.
pub fn parse_parity(s: &str) -> (r: Result<Parity, String>)
    ensures
        match r {
            Ok(p) => parity_of(s@) == Some(p),
            Err(e) => parity_of(s@) is None && e@ == "parity 仅支持 none/even/odd，收到 "@
                + text::str_debug(s@),
        },
{
    let folded = text::ascii_lower(s);
    if text::same(folded.as_str(), "none") {
        Ok(Parity::Off)
    } else if text::same(folded.as_str(), "even") {
        Ok(Parity::Even)
    } else if text::same(folded.as_str(), "odd") {
        Ok(Parity::Odd)
    } else {
        Err(io::caused("parity 仅支持 none/even/odd，收到 ", text::debug_str(s).as_str()))
    }
}

/// The flow control that a name stands for, in upper or lower case.
pub open spec fn flow_control_of(s: Seq<char>) -> Option<FlowControl> {
    let folded = text::lower(s);
    if folded == "none"@ {
        Some(FlowControl::Off)
    } else if folded == "software"@ || folded == "xon_xoff"@ || folded == "xon/xoff"@ {
        Some(FlowControl::Software)
    } else if folded == "hardware"@ || folded == "rts_cts"@ || folded == "rts/cts"@ {
        Some(FlowControl::Hardware)
    } else {
        None
    }
}

/// Parses the name of a flow control.
pub fn parse_flow_control(s: &str) -> (r: Result<FlowControl, String>)
    ensures
        match r {
            Ok(f) => flow_control_of(s@) == Some(f),
            Err(e) => flow_control_of(s@) is None && e@
                == "flow_control 仅支持 none/software/hardware，收到 "@ + text::str_debug(s@),
        },
{
    let folded = text::ascii_lower(s);
    let f = folded.as_str();
    if text::same(f, "none") {
        Ok(FlowControl::Off)
    } else if text::same(f, "software") || text::same(f, "xon_xoff") || text::same(f, "xon/xoff") {
        Ok(FlowControl::Software)
    } else if text::same(f, "hardware") || text::same(f, "rts_cts") || text::same(f, "rts/cts") {
        Ok(FlowControl::Hardware)
    } else {
        Err(
            io::caused(
                "flow_control 仅支持 none/software/hardware，收到 ",
                text::debug_str(s).as_str(),
            ),
        )
    }
}

/// Checks a baud rate.
pub fn parse_baudrate(v: u32) -> (r: Result<u32, String>)
    ensures
        match r {
            Ok(b) => b == v && 50 <= v <= 4_000_000,
            Err(e) => !(50 <= v <= 4_000_000) && e@
                == "baudrate 超出合理范围 (50-4,000,000)，收到 "@ + text::decimal(v as nat),
        },
{
    if v < 50 || v > 4_000_000 {
        return Err(
            io::caused(
                "baudrate 超出合理范围 (50-4,000,000)，收到 ",
                text::decimal_text(v as u64).as_str(),
            ),
        );
    }
    Ok(v)
}

/// The number that data bits stand for.
pub open spec fn data_bits_number(v: DataBits) -> u8 {
    match v {
        DataBits::Five => 5,
        DataBits::Six => 6,
        DataBits::Seven => 7,
        DataBits::Eight => 8,
    }
}

fn data_bits_to_u8(v: DataBits) -> (r: u8)
    ensures
        r == data_bits_number(v),
{
    match v {
        DataBits::Five => 5,
        DataBits::Six => 6,
        DataBits::Seven => 7,
        DataBits::Eight => 8,
    }
}

/// The number that stop bits stand for.
pub open spec fn stop_bits_number(v: StopBits) -> u8 {
    match v {
        StopBits::One => 1,
        StopBits::Two => 2,
    }
}

fn stop_bits_to_u8(v: StopBits) -> (r: u8)
    ensures
        r == stop_bits_number(v),
{
    match v {
        StopBits::One => 1,
        StopBits::Two => 2,
    }
}

/// The name of a parity.
pub open spec fn parity_name(v: Parity) -> Seq<char> {
    match v {
        Parity::Off => "none"@,
        Parity::Odd => "odd"@,
        Parity::Even => "even"@,
    }
}

fn parity_to_str(v: Parity) -> (r: &'static str)
    ensures
        r@ == parity_name(v),
{
    match v {
        Parity::Off => "none",
        Parity::Odd => "odd",
        Parity::Even => "even",
    }
}

/// The name of a flow control.
pub open spec fn flow_control_name(v: FlowControl) -> Seq<char> {
    match v {
        FlowControl::Off => "none"@,
        FlowControl::Software => "software"@,
        FlowControl::Hardware => "hardware"@,
    }
}

fn flow_control_to_str(v: FlowControl) -> (r: &'static str)
    ensures
        r@ == flow_control_name(v),
{
    match v {
        FlowControl::Off => "none",
        FlowControl::Software => "software",
        FlowControl::Hardware => "hardware",
    }
}

/// What a name or a number says of a setting is what the status reports of it.
pub proof fn law_settings_round_trip(d: DataBits, s: StopBits, p: Parity, f: FlowControl)
    ensures
        data_bits_of(data_bits_number(d)) == Some(d),
        stop_bits_of(stop_bits_number(s)) == Some(s),
        parity_of(parity_name(p)) == Some(p),
        flow_control_of(flow_control_name(f)) == Some(f),
{
    reveal_strlit("none");
    reveal_strlit("even");
    reveal_strlit("odd");
    reveal_strlit("software");
    reveal_strlit("hardware");
    reveal_strlit("xon_xoff");
    reveal_strlit("xon/xoff");
    reveal_strlit("rts_cts");
    reveal_strlit("rts/cts");
    assert(text::lower("none"@) =~= "none"@);
    assert(text::lower("even"@) =~= "even"@);
    assert(text::lower("odd"@) =~= "odd"@);
    assert(text::lower("software"@) =~= "software"@);
    assert(text::lower("hardware"@) =~= "hardware"@);
    assert("even"@[0] != "none"@[0]);
    assert("odd"@.len() != "none"@.len());
    assert("odd"@.len() != "even"@.len());
    assert("software"@.len() != "none"@.len());
    assert("hardware"@.len() != "none"@.len());
    assert("hardware"@[0] != "software"@[0]);
    assert("hardware"@[0] != "xon_xoff"@[0]);
    assert("hardware"@[0] != "xon/xoff"@[0]);
}

/// What kind of port the system reports.
#[derive(Debug)]
pub enum PortKind {
    /// A USB port, with what is known of the device.
    Usb { vid: u16, pid: u16, serial_number: Option<String>, product: Option<String> },
    /// A Bluetooth port.
    Bluetooth,
    /// A port on the PCI bus.
    Pci,
    /// Some other port.
    Unknown,
}

/// A port that the system reports.
#[derive(Debug)]
pub struct DetectedPort {
    /// The port's name.
    pub name: String,
    /// Its kind.
    pub kind: PortKind,
}

/// A port in the list of ports.
#[derive(Debug)]
pub struct PortInfo {
    /// The port's name, such as `COM3` or `/dev/ttyUSB0`.
    pub name: String,
    /// `usb`, `bluetooth`, `pci` or `unknown`.
    pub port_type: String,
    /// Of a USB port: vendor, product, serial number and product name. Else empty.
    pub description: String,
}

/// The name of a kind of port.
pub open spec fn kind_name(kind: PortKind) -> Seq<char> {
    match kind {
        PortKind::Usb { .. } => "usb"@,
        PortKind::Bluetooth => "bluetooth"@,
        PortKind::Pci => "pci"@,
        PortKind::Unknown => "unknown"@,
    }
}

/// A text, or none.
pub open spec fn text_or_empty(s: Option<String>) -> Seq<char> {
    match s {
        Some(t) => t@,
        None => seq![],
    }
}

/// The description of a port.
pub open spec fn kind_description(kind: PortKind) -> Seq<char> {
    match kind {
        PortKind::Usb { vid, pid, serial_number, product } => "vid="@ + text::hex4(vid) + " pid="@
            + text::hex4(pid) + " serial="@ + text_or_empty(serial_number) + " product="@
            + text_or_empty(product),
        _ => seq![],
    }
}

/// How a port that the system reports stands in the list.
pub open spec fn info_of(port: DetectedPort, info: PortInfo) -> bool {
    &&& info.name@ == port.name@
    &&& info.port_type@ == kind_name(port.kind)
    &&& info.description@ == kind_description(port.kind)
}

/// Describes a port that the system reports.
fn describe(port: &DetectedPort) -> (r: PortInfo)
    ensures
        info_of(*port, r),
{
    let (port_type, description) = match &port.kind {
        PortKind::Usb { vid, pid, serial_number, product } => {
            let mut out = "vid=".to_owned();
            out.append(text::hex4_text(*vid).as_str());
            out.append(" pid=");
            out.append(text::hex4_text(*pid).as_str());
            out.append(" serial=");
            match serial_number {
                Some(s) => {
                    out.append(s.as_str());
                },
                None => {},
            }
            out.append(" product=");
            match product {
                Some(s) => {
                    out.append(s.as_str());
                },
                None => {},
            }
            assert(out@ =~= kind_description(port.kind));
            ("usb".to_owned(), out)
        },
        PortKind::Bluetooth => ("bluetooth".to_owned(), String::new()),
        PortKind::Pci => ("pci".to_owned(), String::new()),
        PortKind::Unknown => ("unknown".to_owned(), String::new()),
    };
    PortInfo { name: port.name.clone(), port_type, description }
}

/// What a read gave.
#[derive(Debug)]
pub struct ReadOutcome {
    /// All bytes that were unread.
    pub data: Vec<u8>,
    /// Why the read ended.
    pub reason: ReadReason,
    /// How many bytes were lost since the last time that this was reported.
    pub overflow_delta: u64,
    /// How many bytes were lost since the port was opened.
    pub overflow_total: u64,
    /// How many bytes are unread now.
    pub buffered: usize,
    /// Whether bytes came in after the read began.
    pub new_data_observed: bool,
}

/// What a read gave, as values.
#[verifier::ext_equal]
pub struct ReadOutcomeView {
    pub data: Seq<u8>,
    pub reason: ReadReason,
    pub overflow_delta: u64,
    pub overflow_total: u64,
    pub buffered: int,
    pub new_data_observed: bool,
}

impl View for ReadOutcome {
    type V = ReadOutcomeView;

    open spec fn view(&self) -> ReadOutcomeView {
        ReadOutcomeView {
            data: self.data@,
            reason: self.reason,
            overflow_delta: self.overflow_delta,
            overflow_total: self.overflow_total,
            buffered: self.buffered as int,
            new_data_observed: self.new_data_observed,
        }
    }
}

/// Why a read ended.
#[derive(Debug, Clone, Copy, PartialEq, Eq, Structural)]
pub enum ReadReason {
    /// Bytes came in, and then none for a while.
    Idle,
    /// Enough bytes were there.
    MaxBytes,
    /// The time was up.
    Timeout,
}

/// Which bytes an expectation looks at.
#[derive(Debug, Clone, Copy, PartialEq, Eq, Structural)]
pub enum MatchScope {
    /// All unread bytes.
    Buffer,
    /// Only bytes that come in after the expectation began.
    New,
}

/// What an expectation gave.
#[derive(Debug)]
pub struct ExpectOutcome {
    /// Whether the pattern was found.
    pub matched: bool,
    /// The bytes up to the end of the pattern, if they were to be taken; else none.
    pub data: Vec<u8>,
    /// How many bytes were written.
    pub written: usize,
    /// Why the expectation ended.
    pub reason: ExpectReason,
    /// How many bytes were lost since the last time that this was reported; always 0 if no bytes
    /// were to be taken.
    pub overflow_delta: u64,
    /// How many bytes were lost since the port was opened.
    pub overflow_total: u64,
    /// How many bytes are unread now.
    pub buffered: usize,
}

/// What an expectation gave, as values.
#[verifier::ext_equal]
pub struct ExpectOutcomeView {
    pub matched: bool,
    pub data: Seq<u8>,
    pub written: usize,
    pub reason: ExpectReason,
    pub overflow_delta: u64,
    pub overflow_total: u64,
    pub buffered: int,
}

impl View for ExpectOutcome {
    type V = ExpectOutcomeView;

    open spec fn view(&self) -> ExpectOutcomeView {
        ExpectOutcomeView {
            matched: self.matched,
            data: self.data@,
            written: self.written,
            reason: self.reason,
            overflow_delta: self.overflow_delta,
            overflow_total: self.overflow_total,
            buffered: self.buffered as int,
        }
    }
}

/// Why an expectation ended.
#[derive(Debug, Clone, Copy, PartialEq, Eq, Structural)]
pub enum ExpectReason {
    /// The pattern was found.
    Matched,
    /// The time was up. Nothing was taken.
    Timeout,
}

/// What came of a file transfer.
#[derive(Debug)]
pub struct SendFileOutcome {
    /// How it ended: completed, cancelled, duration_limit or device_error.
    pub reason: String,
    /// The size of the file.
    pub raw_bytes: u64,
    /// How many bytes were written.
    pub sent_bytes: u64,
    /// How many chunks were written.
    pub chunks: u64,
    /// How long it took, in milliseconds.
    pub elapsed_ms: u64,
    /// How many received bytes were lost meanwhile.
    pub overflow_delta: u64,
    /// How many received bytes were lost since the port was opened.
    pub overflow_total: u64,
    /// Why the reader gave up, if that ended the transfer.
    pub device_error: Option<String>,
}

/// What came of a file transfer, as values.
#[verifier::ext_equal]
pub struct SendFileOutcomeView {
    pub reason: Seq<char>,
    pub raw_bytes: u64,
    pub sent_bytes: u64,
    pub chunks: u64,
    pub elapsed_ms: u64,
    pub overflow_delta: u64,
    pub overflow_total: u64,
    pub device_error: Option<Seq<char>>,
}

impl View for SendFileOutcome {
    type V = SendFileOutcomeView;

    open spec fn view(&self) -> SendFileOutcomeView {
        SendFileOutcomeView {
            reason: self.reason@,
            raw_bytes: self.raw_bytes,
            sent_bytes: self.sent_bytes,
            chunks: self.chunks,
            elapsed_ms: self.elapsed_ms,
            overflow_delta: self.overflow_delta,
            overflow_total: self.overflow_total,
            device_error: text_view(self.device_error),
        }
    }
}

/// How many bytes were lost since the last report.
pub open spec fn lost_since(total: u64, last: u64) -> u64 {
    if total < last {
        0
    } else {
        (total - last) as u64
    }
}

/// How long ago a time was; nothing if it is still to come.
pub open spec fn elapsed(since: u128, now: u128) -> int {
    if now < since {
        0
    } else {
        now - since
    }
}

/// Milliseconds as nanoseconds.
pub open spec fn nanos(ms: u64) -> int {
    ms * 1_000_000
}

/// Whether a time is so many milliseconds ago.
pub(crate) fn is_over(since: u128, ms: u64, now: u128) -> (r: bool)
    ensures
        r == (elapsed(since, now) >= nanos(ms)),
{
    now.saturating_sub(since) >= (ms as u128) * 1_000_000
}

/// A text, or none, as values.
pub open spec fn text_view(s: Option<String>) -> Option<Seq<char>> {
    match s {
        Some(t) => Some(t@),
        None => None,
    }
}

/// A copy of a text, or none.
pub(crate) fn copy_text(s: &Option<String>) -> (r: Option<String>)
    ensures
        text_view(r) == text_view(*s),
{
    match s {
        Some(t) => Some(t.clone()),
        None => None,
    }
}

/// How far a file transfer has come.
#[derive(Debug)]
pub struct SendProgress {
    /// Whether a file is being sent.
    pub active: bool,
    /// How the last transfer ended; none if there was none or one is going on.
    pub last_reason: Option<String>,
    /// How many bytes were written.
    pub sent_bytes: u64,
    /// The size of the file.
    pub total_bytes: u64,
    /// How many chunks were written.
    pub chunks: u64,
}

/// The progress as values.
#[verifier::ext_equal]
pub struct ProgressView {
    pub active: bool,
    pub last_reason: Option<Seq<char>>,
    pub sent_bytes: u64,
    pub total_bytes: u64,
    pub chunks: u64,
}

/// Nothing was ever sent.
pub open spec fn no_progress() -> ProgressView {
    ProgressView { active: false, last_reason: None, sent_bytes: 0, total_bytes: 0, chunks: 0 }
}

impl View for SendProgress {
    type V = ProgressView;

    open spec fn view(&self) -> ProgressView {
        ProgressView {
            active: self.active,
            last_reason: text_view(self.last_reason),
            sent_bytes: self.sent_bytes,
            total_bytes: self.total_bytes,
            chunks: self.chunks,
        }
    }
}

impl Default for SendProgress {
    fn default() -> (r: Self)
        ensures
            r@ == no_progress(),
    {
        SendProgress { active: false, last_reason: None, sent_bytes: 0, total_bytes: 0, chunks: 0 }
    }
}

/// A port's file transfer: its progress, and whether it is to stop.
#[derive(Debug)]
pub struct SendState {
    /// How far it has come.
    pub progress: SendProgress,
    /// It is to stop at the next opportunity.
    pub cancel: bool,
}

impl SendState {
    /// No transfer yet.
    pub fn new() -> (r: Self)
        ensures
            r.progress@ == no_progress(),
            !r.cancel,
    {
        SendState { progress: SendProgress::default(), cancel: false }
    }

    /// The progress at this moment.
    pub fn snapshot(&self) -> (r: SendProgress)
        ensures
            r@ == self.progress@,
    {
        SendProgress {
            active: self.progress.active,
            last_reason: copy_text(&self.progress.last_reason),
            sent_bytes: self.progress.sent_bytes,
            total_bytes: self.progress.total_bytes,
            chunks: self.progress.chunks,
        }
    }

    /// A transfer begins. A request to stop an earlier one is forgotten.
    pub fn begin(&mut self, total_bytes: u64)
        ensures
            !final(self).cancel,
            final(self).progress@ == (ProgressView {
                active: true,
                last_reason: None,
                sent_bytes: 0,
                total_bytes,
                chunks: 0,
            }),
    {
        self.cancel = false;
        self.progress.active = true;
        self.progress.last_reason = None;
        self.progress.sent_bytes = 0;
        self.progress.total_bytes = total_bytes;
        self.progress.chunks = 0;
    }

    /// The transfer has come further.
    pub fn update(&mut self, sent_bytes: u64, chunks: u64)
        ensures
            final(self).cancel == old(self).cancel,
            final(self).progress@ == (ProgressView { sent_bytes, chunks, ..old(self).progress@ }),
    {
        self.progress.sent_bytes = sent_bytes;
        self.progress.chunks = chunks;
    }

    /// The transfer has ended.
    pub fn finish(&mut self, reason: &str, sent_bytes: u64, chunks: u64)
        ensures
            final(self).cancel == old(self).cancel,
            final(self).progress@ == (ProgressView {
                active: false,
                last_reason: Some(reason@),
                sent_bytes,
                chunks,
                ..old(self).progress@
            }),
    {
        self.progress.active = false;
        self.progress.last_reason = Some(reason.to_owned());
        self.progress.sent_bytes = sent_bytes;
        self.progress.chunks = chunks;
    }
}

/// An open port.
#[derive(Debug)]
pub struct ActivePort {
    /// Its name.
    pub name: String,
    /// Its settings.
    pub config: PortConfig,
    /// The bytes received.
    pub buffer: RingBuf,
    /// Why its reader gave up, if it did.
    pub read_error: Option<String>,
    /// The count of lost bytes that was last reported.
    pub last_overflow: u64,
    /// Its file transfer.
    pub send: SendState,
    /// It is being closed.
    pub closing: bool,
}

/// An open port as values.
#[verifier::ext_equal]
pub struct PortView {
    pub config: PortConfig,
    pub buffer: RingView,
    pub read_error: Option<Seq<char>>,
    pub last_overflow: u64,
    pub send: ProgressView,
    pub cancel: bool,
    pub closing: bool,
}

impl View for ActivePort {
    type V = PortView;

    open spec fn view(&self) -> PortView {
        PortView {
            config: self.config,
            buffer: self.buffer@,
            read_error: text_view(self.read_error),
            last_overflow: self.last_overflow,
            send: self.send.progress@,
            cancel: self.send.cancel,
            closing: self.closing,
        }
    }
}

/// The open ports, by name.
pub type Ports = Map<Seq<char>, PortView>;

/// The message for a port that is not open.
pub open spec fn not_open(name: Seq<char>) -> Seq<char> {
    "端口 "@ + name + " 未打开，请先调用 uart_open"@
}

/// The message for a port that is open already.
pub open spec fn already_open(name: Seq<char>) -> Seq<char> {
    "端口 "@ + name + " 已打开，请先调用 uart_close"@
}

/// The message for a port that is being closed.
pub open spec fn being_closed(name: Seq<char>) -> Seq<char> {
    "端口 "@ + name + " 正在关闭，请等待关闭完成"@
}

/// The message for a file transfer that does not stop.
pub open spec fn close_given_up(name: Seq<char>) -> Seq<char> {
    "端口 "@ + name + " 的文件发送未在 30s 内退出，关闭中止"@
}

/// A port that is being closed.
#[derive(Debug)]
pub struct CloseOp {
    port: String,
    start: u128,
}

/// A port that is being closed, as values.
#[verifier::ext_equal]
pub struct CloseView {
    /// The port.
    pub port: Seq<char>,
    /// When closing began.
    pub start: u128,
}

impl View for CloseOp {
    type V = CloseView;

    closed spec fn view(&self) -> CloseView {
        CloseView { port: self.port@, start: self.start }
    }
}

/// How closing goes on: it waits as long as a file is being sent, but not for ever.
pub open spec fn close_next(ports: Ports, op: CloseView, now: u128) -> NextView<()> {
    if !ports.contains_key(op.port) {
        NextView::Fail(not_open(op.port))
    } else if !ports[op.port].send.active {
        NextView::Done(())
    } else if elapsed(op.start, now) >= nanos(CLOSE_WAIT_MS) {
        NextView::Fail(close_given_up(op.port))
    } else {
        NextView::Do(Io::Wait)
    }
}

/// The ports after a step of closing.
pub open spec fn close_stepped(ports: Ports, op: CloseView, now: u128) -> Ports {
    if ports.contains_key(op.port) && close_next(ports, op, now) is Fail {
        ports.insert(op.port, PortView { closing: false, ..ports[op.port] })
    } else {
        ports
    }
}

/// A message about a port.
pub(crate) fn about_port(name: &str, what: &str) -> (r: String)
    ensures
        r@ == "端口 "@ + name@ + what@,
{
    let mut out = "端口 ".to_owned();
    out.append(name);
    out.append(what);
    out
}

/// Why an operation on a port is refused, if it is: the port is not open, or is being closed.
pub open spec fn refused(ports: Ports, name: Seq<char>) -> Option<Seq<char>> {
    if !ports.contains_key(name) {
        Some(not_open(name))
    } else if ports[name].closing {
        Some(being_closed(name))
    } else {
        None
    }
}

/// A port that was just opened.
pub open spec fn opened(config: PortConfig, now: u128) -> PortView {
    PortView {
        config,
        buffer: RingView {
            unread: seq![],
            capacity: if config.buffer_size < 1 {
                1
            } else if config.buffer_size > MAX_BUFFER_SIZE {
                MAX_BUFFER_SIZE as int
            } else {
                config.buffer_size as int
            },
            overflow_total: 0,
            last_write: now,
            revision: 0,
            position: 0,
        },
        read_error: None,
        last_overflow: 0,
        send: no_progress(),
        cancel: false,
        closing: false,
    }
}

/// A port whose unread bytes were dropped.
pub open spec fn cleared(p: PortView) -> PortView {
    PortView { buffer: RingView { unread: seq![], ..p.buffer }, ..p }
}

/// A port whose file transfer, if there is one, is to stop.
pub open spec fn cancel_asked(p: PortView) -> PortView {
    PortView { cancel: p.cancel || p.send.active, ..p }
}

/// A port that is being closed from now on.
pub open spec fn close_begun(p: PortView) -> PortView {
    PortView { closing: true, ..cancel_asked(p) }
}

/// What went wrong when a device was opened.
#[derive(Debug, Clone, Copy, PartialEq, Eq, Structural)]
pub enum OpenStage {
    /// The device could not be opened.
    Device,
    /// It could not be opened a second time, for its reader.
    Handle,
    /// The reader could not be set up.
    Reader,
    /// The reader could not be started.
    Thread,
}

/// The message for a device that could not be opened.
pub open spec fn open_failed(name: Seq<char>, stage: OpenStage, e: Seq<char>) -> Seq<char> {
    match stage {
        OpenStage::Device => "打开 "@ + name + " 失败: "@ + e,
        OpenStage::Handle => "克隆串口读句柄失败: "@ + e,
        OpenStage::Reader => "初始化读线程失败: "@ + e,
        OpenStage::Thread => "启动读线程失败: "@ + e,
    }
}

/// The state of a port.
#[derive(Debug)]
pub struct AvailableInfo {
    /// Whether it is open.
    pub open: bool,
    /// Its name, if it is open.
    pub port: Option<String>,
    /// The baud rate.
    pub baudrate: Option<u32>,
    /// The data bits, 5 to 8.
    pub data_bits: Option<u8>,
    /// The parity: none, even or odd.
    pub parity: Option<String>,
    /// The stop bits, 1 or 2.
    pub stop_bits: Option<u8>,
    /// The flow control: none, software or hardware.
    pub flow_control: Option<String>,
    /// The read timeout, in milliseconds.
    pub read_timeout_ms: Option<u64>,
    /// The size of the buffer.
    pub buffer_size: Option<usize>,
    /// How many bytes are unread.
    pub buffered_bytes: usize,
    /// Whether bytes are unread.
    pub pending: bool,
    /// How many bytes were lost because the buffer was full.
    pub overflow_total: u64,
    /// Why the reader gave up, if it did.
    pub read_error: Option<String>,
    /// The file transfer.
    pub send: SendProgress,
}

/// What the state of a port says.
pub open spec fn available_is(ports: Ports, name: Seq<char>, info: AvailableInfo) -> bool {
    if !ports.contains_key(name) {
        &&& !info.open
        &&& info.port is None
        &&& info.baudrate is None
        &&& info.data_bits is None
        &&& info.parity is None
        &&& info.stop_bits is None
        &&& info.flow_control is None
        &&& info.read_timeout_ms is None
        &&& info.buffer_size is None
        &&& info.buffered_bytes == 0
        &&& !info.pending
        &&& info.overflow_total == 0
        &&& info.read_error is None
        &&& info.send@ == no_progress()
    } else {
        let p = ports[name];
        &&& info.open
        &&& text_view(info.port) == Some(name)
        &&& info.baudrate == Some(p.config.baudrate)
        &&& info.data_bits == Some(data_bits_number(p.config.data_bits))
        &&& text_view(info.parity) == Some(parity_name(p.config.parity))
        &&& info.stop_bits == Some(stop_bits_number(p.config.stop_bits))
        &&& text_view(info.flow_control) == Some(flow_control_name(p.config.flow_control))
        &&& info.read_timeout_ms == Some(p.config.read_timeout_ms)
        &&& info.buffer_size == Some(p.config.buffer_size)
        &&& info.buffered_bytes == p.buffer.unread.len()
        &&& info.pending == (p.buffer.unread.len() > 0)
        &&& info.overflow_total == p.buffer.overflow_total
        &&& text_view(info.read_error) == p.read_error
        &&& info.send@ == p.send
    }
}

/// A setting that is to be changed.
#[derive(Debug, Clone, Copy, PartialEq, Eq, Structural)]
pub enum Setting {
    Baudrate(u32),
    DataBits(DataBits),
    Parity(Parity),
    StopBits(StopBits),
    FlowControl(FlowControl),
    ReadTimeout(u64),
}

/// The message for a setting that the device refuses.
pub open spec fn setting_failed(setting: Setting, e: Seq<char>) -> Seq<char> {
    match setting {
        Setting::Baudrate(_) => "设置波特率失败: "@ + e,
        Setting::DataBits(_) => "设置数据位失败: "@ + e,
        Setting::Parity(_) => "设置校验位失败: "@ + e,
        Setting::StopBits(_) => "设置停止位失败: "@ + e,
        Setting::FlowControl(_) => "设置流控失败: "@ + e,
        Setting::ReadTimeout(_) => "设置读超时失败: "@ + e,
    }
}

/// The settings with one of them changed.
pub open spec fn changed(config: PortConfig, setting: Setting) -> PortConfig {
    match setting {
        Setting::Baudrate(v) => PortConfig { baudrate: v, ..config },
        Setting::DataBits(v) => PortConfig { data_bits: v, ..config },
        Setting::Parity(v) => PortConfig { parity: v, ..config },
        Setting::StopBits(v) => PortConfig { stop_bits: v, ..config },
        Setting::FlowControl(v) => PortConfig { flow_control: v, ..config },
        Setting::ReadTimeout(v) => PortConfig { read_timeout_ms: v, ..config },
    }
}

/// The settings with several of them changed, one after the other.
pub open spec fn changed_all(config: PortConfig, settings: Seq<Setting>) -> PortConfig
    decreases settings.len(),
{
    if settings.len() == 0 {
        config
    } else {
        changed(changed_all(config, settings.drop_last()), settings.last())
    }
}

/// One setting, or none.
pub open spec fn one_or_none(setting: Option<Setting>) -> Seq<Setting> {
    match setting {
        Some(s) => seq![s],
        None => seq![],
    }
}

/// The settings that are to be changed, in the order in which the device gets them.
pub open spec fn settings_of(
    baudrate: Option<u32>,
    data_bits: Option<DataBits>,
    parity: Option<Parity>,
    stop_bits: Option<StopBits>,
    flow_control: Option<FlowControl>,
    read_timeout_ms: Option<u64>,
) -> Seq<Setting> {
    one_or_none(
        match baudrate {
            Some(v) => Some(Setting::Baudrate(v)),
            None => None,
        },
    ) + one_or_none(
        match data_bits {
            Some(v) => Some(Setting::DataBits(v)),
            None => None,
        },
    ) + one_or_none(
        match parity {
            Some(v) => Some(Setting::Parity(v)),
            None => None,
        },
    ) + one_or_none(
        match stop_bits {
            Some(v) => Some(Setting::StopBits(v)),
            None => None,
        },
    ) + one_or_none(
        match flow_control {
            Some(v) => Some(Setting::FlowControl(v)),
            None => None,
        },
    ) + one_or_none(
        match read_timeout_ms {
            Some(v) => Some(Setting::ReadTimeout(v)),
            None => None,
        },
    )
}

/// Adds a setting, or none, to a list.
fn add_setting(list: &mut Vec<Setting>, setting: Option<Setting>)
    ensures
        final(list)@ == old(list)@ + one_or_none(setting),
{
    let ghost before = list@;
    match setting {
        Some(s) => {
            list.push(s);
        },
        None => {},
    }
    assert(list@ =~= before + one_or_none(setting));
}

/// The open ports.
#[derive(Debug)]
pub struct SerialManager {
    ports: Vec<ActivePort>,
}

impl View for SerialManager {
    type V = Ports;

    closed spec fn view(&self) -> Ports {
        Map::new(|n: Seq<char>| self.has(n), |n: Seq<char>| self.ports@[self.place(n)]@)
    }
}

impl Default for SerialManager {
    fn default() -> (r: Self)
        ensures
            r.wf(),
            r@ == Ports::empty(),
    {
        SerialManager::new()
    }
}

impl SerialManager {
    spec fn has(&self, n: Seq<char>) -> bool {
        exists|i: int| 0 <= i < self.ports@.len() && #[trigger] self.ports@[i].name@ == n
    }

    spec fn place(&self, n: Seq<char>) -> int {
        choose|i: int| 0 <= i < self.ports@.len() && #[trigger] self.ports@[i].name@ == n
    }

    /// The manager is valid: no port is there twice, and every buffer is valid.
    pub closed spec fn wf(&self) -> bool {
        &&& forall|i: int, j: int|
            0 <= i < j < self.ports@.len() ==> (#[trigger] self.ports@[i]).name@ != (
            #[trigger] self.ports@[j]).name@
        &&& forall|i: int| 0 <= i < self.ports@.len() ==> (#[trigger] self.ports@[i]).buffer.wf()
    }

    proof fn lemma_place(&self, i: int)
        requires
            self.wf(),
            0 <= i < self.ports@.len(),
        ensures
            self.place(self.ports@[i].name@) == i,
            self@.contains_key(self.ports@[i].name@),
            self@[self.ports@[i].name@] == self.ports@[i]@,
    {
        let n = self.ports@[i].name@;
        assert(self.has(n));
        let k = self.place(n);
        assert(self.ports@[k].name@ == n);
    }

    /// A manager without any port.
    pub fn new() -> (r: Self)
        ensures
            r.wf(),
            r@ == Ports::empty(),
    {
        let r = SerialManager { ports: Vec::new() };
        assert(r@ =~= Ports::empty());
        r
    }

    /// Where a port is.
    fn index_of(&self, name: &str) -> (r: Option<usize>)
        requires
            self.wf(),
        ensures
            match r {
                Some(i) => i < self.ports@.len() && self.ports@[i as int].name@ == name@
                    && self@.contains_key(name@) && self@[name@] == self.ports@[i as int]@,
                None => !self@.contains_key(name@),
            },
    {
        let mut i: usize = 0;
        while i < self.ports.len()
            invariant
                self.wf(),
                i <= self.ports@.len(),
                forall|k: int| 0 <= k < i ==> #[trigger] self.ports@[k].name@ != name@,
            decreases self.ports@.len() - i,
        {
            if text::same(self.ports[i].name.as_str(), name) {
                proof {
                    self.lemma_place(i as int);
                }
                return Some(i);
            }
            i += 1;
        }
        assert(!self.has(name@));
        None
    }

    /// Looks at a port.
    pub(crate) fn port(&self, name: &str) -> (r: Option<&ActivePort>)
        requires
            self.wf(),
        ensures
            match r {
                Some(p) => self@.contains_key(name@) && p.name@ == name@ && p@ == self@[name@]
                    && p.buffer.wf(),
                None => !self@.contains_key(name@),
            },
    {
        match self.index_of(name) {
            None => None,
            Some(i) => Some(&self.ports[i]),
        }
    }

    /// Takes a port out.
    pub(crate) fn take_port(&mut self, name: &str) -> (r: Option<ActivePort>)
        requires
            old(self).wf(),
        ensures
            final(self).wf(),
            match r {
                Some(p) => {
                    &&& old(self)@.contains_key(name@)
                    &&& p.name@ == name@
                    &&& p@ == old(self)@[name@]
                    &&& p.buffer.wf()
                    &&& final(self)@ == old(self)@.remove(name@)
                },
                None => !old(self)@.contains_key(name@) && final(self)@ == old(self)@,
            },
    {
        let ghost before = *self;
        match self.index_of(name) {
            None => None,
            Some(i) => {
                let p = self.ports.remove(i);
                proof {
                    let after = before@.remove(name@);
                    assert forall|n: Seq<char>| #[trigger]
                        self@.dom().contains(n) == after.dom().contains(n) by {
                        self.lemma_removed(before, i as int, n);
                    }
                    assert forall|n: Seq<char>| self@.dom().contains(n) implies #[trigger] self@[n]
                        == after[n] by {
                        self.lemma_removed(before, i as int, n);
                    }
                    assert(self@ =~= before@.remove(name@));
                }
                Some(p)
            },
        }
    }

    proof fn lemma_removed(&self, before: SerialManager, i: int, n: Seq<char>)
        requires
            before.wf(),
            self.wf(),
            0 <= i < before.ports@.len(),
            self.ports@ == before.ports@.remove(i),
        ensures
            self@.contains_key(n) == (before@.contains_key(n) && n != before.ports@[i].name@),
            self@.contains_key(n) ==> self@[n] == before@[n],
    {
        if self@.contains_key(n) {
            let k = self.place(n);
            let old_k = if k < i {
                k
            } else {
                k + 1
            };
            assert(before.ports@[old_k] == self.ports@[k]);
            before.lemma_place(old_k);
            self.lemma_place(k);
            before.lemma_place(i);
        }
        if before@.contains_key(n) && n != before.ports@[i].name@ {
            let k = before.place(n);
            let new_k = if k < i {
                k
            } else {
                k - 1
            };
            assert(self.ports@[new_k] == before.ports@[k]);
            self.lemma_place(new_k);
        }
    }

    proof fn lemma_added(&self, before: SerialManager, n: Seq<char>)
        requires
            before.wf(),
            self.wf(),
            self.ports@.len() == before.ports@.len() + 1,
            self.ports@ == before.ports@.push(self.ports@.last()),
        ensures
            self@.contains_key(n) == (before@.contains_key(n) || n == self.ports@.last().name@),
            self@.contains_key(n) ==> self@[n] == if n == self.ports@.last().name@ {
                self.ports@.last()@
            } else {
                before@[n]
            },
    {
        let last = before.ports@.len() as int;
        self.lemma_place(last);
        if before@.contains_key(n) {
            let k = before.place(n);
            assert(self.ports@[k] == before.ports@[k]);
            self.lemma_place(k);
        }
        if self@.contains_key(n) {
            let k = self.place(n);
            self.lemma_place(k);
            if k < last {
                assert(self.ports@[k] == before.ports@[k]);
                before.lemma_place(k);
            }
        }
    }

    /// Puts a port in that is not there.
    pub(crate) fn put_port(&mut self, p: ActivePort)
        requires
            old(self).wf(),
            !old(self)@.contains_key(p.name@),
            p.buffer.wf(),
        ensures
            final(self).wf(),
            final(self)@ == old(self)@.insert(p.name@, p@),
    {
        let ghost before = *self;
        proof {
            assert forall|i: int| 0 <= i < self.ports@.len() implies #[trigger] self.ports@[i].name@
                != p.name@ by {
                self.lemma_place(i);
            }
        }
        self.ports.push(p);
        proof {
            let last = before.ports@.len() as int;
            self.lemma_place(last);
            let after = before@.insert(p.name@, p@);
            assert forall|n: Seq<char>| #[trigger]
                self@.dom().contains(n) == after.dom().contains(n) by {
                self.lemma_added(before, n);
            }
            assert forall|n: Seq<char>| self@.dom().contains(n) implies #[trigger] self@[n]
                == after[n] by {
                self.lemma_added(before, n);
            }
            assert(self@ =~= before@.insert(p.name@, p@));
        }
    }

    /// Lists the ports that the system reports.
    pub fn list_ports(&self, detected: Result<Vec<DetectedPort>, String>) -> (r: Result<
        Vec<PortInfo>,
        String,
    >)
        ensures
            match (detected, r) {
                (Ok(found), Ok(list)) => {
                    &&& list@.len() == found@.len()
                    &&& forall|i: int|
                        0 <= i < found@.len() ==> info_of(#[trigger] found@[i], list@[i])
                },
                (Err(e), Err(m)) => m@ == "枚举串口失败: "@ + e@,
                _ => false,
            },
    {
        match detected {
            Err(e) => Err(io::caused("枚举串口失败: ", e.as_str())),
            Ok(found) => {
                let mut list: Vec<PortInfo> = Vec::new();
                let mut i: usize = 0;
                while i < found.len()
                    invariant
                        i <= found@.len(),
                        list@.len() == i,
                        forall|k: int| 0 <= k < i ==> info_of(#[trigger] found@[k], list@[k]),
                    decreases found@.len() - i,
                {
                    list.push(describe(&found[i]));
                    i += 1;
                }
                Ok(list)
            },
        }
    }

    /// Checks that an operation may be done on a port.
    pub fn check(&self, port_name: &str) -> (r: Result<(), String>)
        requires
            self.wf(),
        ensures
            match r {
                Ok(_) => refused(self@, port_name@) is None,
                Err(e) => refused(self@, port_name@) == Some(e@),
            },
    {
        match self.index_of(port_name) {
            None => Err(about_port(port_name, " 未打开，请先调用 uart_open")),
            Some(i) => if self.ports[i].closing {
                Err(about_port(port_name, " 正在关闭，请等待关闭完成"))
            } else {
                Ok(())
            },
        }
    }

    /// Checks that a port may be opened. The caller checks this before it opens the device.
    pub fn may_open(&self, port_name: &str) -> (r: Result<(), String>)
        requires
            self.wf(),
        ensures
            match r {
                Ok(_) => !self@.contains_key(port_name@),
                Err(e) => self@.contains_key(port_name@) && e@ == already_open(port_name@),
            },
    {
        match self.index_of(port_name) {
            None => Ok(()),
            Some(_) => Err(about_port(port_name, " 已打开，请先调用 uart_close")),
        }
    }

    /// Opens a port, given what came of opening its device. The same port cannot be opened twice.
    pub fn open(
        &mut self,
        port_name: &str,
        baudrate: u32,
        data_bits: DataBits,
        parity: Parity,
        stop_bits: StopBits,
        flow_control: FlowControl,
        read_timeout_ms: u64,
        buffer_size: usize,
        device: Result<(), (OpenStage, String)>,
        now: u128,
    ) -> (r: Result<(), String>)
        requires
            old(self).wf(),
        ensures
            final(self).wf(),
            ({
                let config = PortConfig {
                    baudrate,
                    data_bits,
                    parity,
                    stop_bits,
                    flow_control,
                    read_timeout_ms,
                    buffer_size,
                };
                if old(self)@.contains_key(port_name@) {
                    &&& final(self)@ == old(self)@
                    &&& r matches Err(m) && m@ == already_open(port_name@)
                } else {
                    match device {
                        Err((stage, e)) => {
                            &&& final(self)@ == old(self)@
                            &&& r matches Err(m) && m@ == open_failed(port_name@, stage, e@)
                        },
                        Ok(_) => {
                            &&& r is Ok
                            &&& final(self)@ == old(self)@.insert(port_name@, opened(config, now))
                        },
                    }
                }
            }),
    {
        match self.may_open(port_name) {
            Err(e) => {
                return Err(e);
            },
            Ok(_) => {},
        }
        match device {
            Err((stage, e)) => {
                let m = match stage {
                    OpenStage::Device => {
                        let mut m = "打开 ".to_owned();
                        m.append(port_name);
                        m.append(" 失败: ");
                        m.append(e.as_str());
                        m
                    },
                    OpenStage::Handle => io::caused("克隆串口读句柄失败: ", e.as_str()),
                    OpenStage::Reader => io::caused("初始化读线程失败: ", e.as_str()),
                    OpenStage::Thread => io::caused("启动读线程失败: ", e.as_str()),
                };
                Err(m)
            },
            Ok(_) => {
                let p = ActivePort {
                    name: port_name.to_owned(),
                    config: PortConfig {
                        baudrate,
                        data_bits,
                        parity,
                        stop_bits,
                        flow_control,
                        read_timeout_ms,
                        buffer_size,
                    },
                    buffer: RingBuf::new(buffer_size, now),
                    read_error: None,
                    last_overflow: 0,
                    send: SendState::new(),
                    closing: false,
                };
                self.put_port(p);
                Ok(())
            },
        }
    }

    /// Begins to change settings of a port: those that are given. The caller hands them to the
    /// device in this order, and reports each with `apply`.
    pub fn configure(
        &self,
        port_name: &str,
        baudrate: Option<u32>,
        data_bits: Option<DataBits>,
        parity: Option<Parity>,
        stop_bits: Option<StopBits>,
        flow_control: Option<FlowControl>,
        read_timeout_ms: Option<u64>,
    ) -> (r: Result<Vec<Setting>, String>)
        requires
            self.wf(),
        ensures
            match r {
                Ok(list) => refused(self@, port_name@) is None && list@ == settings_of(
                    baudrate,
                    data_bits,
                    parity,
                    stop_bits,
                    flow_control,
                    read_timeout_ms,
                ),
                Err(e) => refused(self@, port_name@) == Some(e@),
            },
    {
        match self.check(port_name) {
            Err(e) => {
                return Err(e);
            },
            Ok(_) => {},
        }
        let mut list: Vec<Setting> = Vec::new();
        add_setting(
            &mut list,
            match baudrate {
                Some(v) => Some(Setting::Baudrate(v)),
                None => None,
            },
        );
        add_setting(
            &mut list,
            match data_bits {
                Some(v) => Some(Setting::DataBits(v)),
                None => None,
            },
        );
        add_setting(
            &mut list,
            match parity {
                Some(v) => Some(Setting::Parity(v)),
                None => None,
            },
        );
        add_setting(
            &mut list,
            match stop_bits {
                Some(v) => Some(Setting::StopBits(v)),
                None => None,
            },
        );
        add_setting(
            &mut list,
            match flow_control {
                Some(v) => Some(Setting::FlowControl(v)),
                None => None,
            },
        );
        add_setting(
            &mut list,
            match read_timeout_ms {
                Some(v) => Some(Setting::ReadTimeout(v)),
                None => None,
            },
        );
        assert(list@ =~= settings_of(
            baudrate,
            data_bits,
            parity,
            stop_bits,
            flow_control,
            read_timeout_ms,
        ));
        Ok(list)
    }

    /// Records a setting that the device was given, with what came of it. What the device refuses
    /// is not recorded.
    pub fn apply(
        &mut self,
        port_name: &str,
        setting: Setting,
        device: Result<(), String>,
    ) -> (r: Result<(), String>)
        requires
            old(self).wf(),
        ensures
            final(self).wf(),
            if !old(self)@.contains_key(port_name@) {
                &&& final(self)@ == old(self)@
                &&& r matches Err(m) && m@ == not_open(port_name@)
            } else {
                match device {
                    Err(e) => {
                        &&& final(self)@ == old(self)@
                        &&& r matches Err(m) && m@ == setting_failed(setting, e@)
                    },
                    Ok(_) => {
                        let p = old(self)@[port_name@];
                        &&& r is Ok
                        &&& final(self)@ == old(self)@.insert(
                            port_name@,
                            (PortView { config: changed(p.config, setting), ..p }),
                        )
                    },
                }
            },
    {
        let ghost before = self@;
        match self.take_port(port_name) {
            None => Err(about_port(port_name, " 未打开，请先调用 uart_open")),
            Some(p) => {
                let mut p = p;
                let r = match device {
                    Err(e) => Err(
                        match setting {
                            Setting::Baudrate(_) => io::caused("设置波特率失败: ", e.as_str()),
                            Setting::DataBits(_) => io::caused("设置数据位失败: ", e.as_str()),
                            Setting::Parity(_) => io::caused("设置校验位失败: ", e.as_str()),
                            Setting::StopBits(_) => io::caused("设置停止位失败: ", e.as_str()),
                            Setting::FlowControl(_) => io::caused("设置流控失败: ", e.as_str()),
                            Setting::ReadTimeout(_) => io::caused("设置读超时失败: ", e.as_str()),
                        },
                    ),
                    Ok(_) => {
                        match setting {
                            Setting::Baudrate(v) => {
                                p.config.baudrate = v;
                            },
                            Setting::DataBits(v) => {
                                p.config.data_bits = v;
                            },
                            Setting::Parity(v) => {
                                p.config.parity = v;
                            },
                            Setting::StopBits(v) => {
                                p.config.stop_bits = v;
                            },
                            Setting::FlowControl(v) => {
                                p.config.flow_control = v;
                            },
                            Setting::ReadTimeout(v) => {
                                p.config.read_timeout_ms = v;
                            },
                        }
                        Ok(())
                    },
                };
                self.put_port(p);
                assert(self@ =~= before.insert(port_name@, p@));
                assert(before =~= before.insert(port_name@, before[port_name@]));
                r
            },
        }
    }

    /// The state of a port.
    pub fn available(&self, port_name: &str) -> (r: AvailableInfo)
        requires
            self.wf(),
        ensures
            available_is(self@, port_name@, r),
    {
        match self.index_of(port_name) {
            None => AvailableInfo {
                open: false,
                port: None,
                baudrate: None,
                data_bits: None,
                parity: None,
                stop_bits: None,
                flow_control: None,
                read_timeout_ms: None,
                buffer_size: None,
                buffered_bytes: 0,
                pending: false,
                overflow_total: 0,
                read_error: None,
                send: SendProgress::default(),
            },
            Some(i) => {
                let p = &self.ports[i];
                let (buffered, overflow_total) = p.buffer.stats();
                AvailableInfo {
                    open: true,
                    port: Some(p.name.clone()),
                    baudrate: Some(p.config.baudrate),
                    data_bits: Some(data_bits_to_u8(p.config.data_bits)),
                    parity: Some(parity_to_str(p.config.parity).to_owned()),
                    stop_bits: Some(stop_bits_to_u8(p.config.stop_bits)),
                    flow_control: Some(flow_control_to_str(p.config.flow_control).to_owned()),
                    read_timeout_ms: Some(p.config.read_timeout_ms),
                    buffer_size: Some(p.config.buffer_size),
                    buffered_bytes: buffered,
                    pending: buffered > 0,
                    overflow_total,
                    read_error: copy_text(&p.read_error),
                    send: p.send.snapshot(),
                }
            },
        }
    }

    /// Drops the unread bytes of a port. Returns how many there were.
    pub fn clear(&mut self, port_name: &str) -> (r: Result<usize, String>)
        requires
            old(self).wf(),
        ensures
            final(self).wf(),
            if !old(self)@.contains_key(port_name@) {
                &&& final(self)@ == old(self)@
                &&& r matches Err(m) && m@ == not_open(port_name@)
            } else {
                let p = old(self)@[port_name@];
                &&& r matches Ok(n) && n == p.buffer.unread.len()
                &&& final(self)@ == old(self)@.insert(
                    port_name@,
                    cleared(p),
                )
            },
    {
        let ghost before = self@;
        match self.take_port(port_name) {
            None => Err(about_port(port_name, " 未打开，请先调用 uart_open")),
            Some(p) => {
                let mut p = p;
                let (bytes, _) = p.buffer.stats();
                p.buffer.clear();
                self.put_port(p);
                assert(self@ =~= before.insert(port_name@, p@));
                Ok(bytes)
            },
        }
    }

    /// Bytes have come in on a port.
    pub fn receive(&mut self, port_name: &str, data: &[u8], now: u128) -> (r: Result<(), String>)
        requires
            old(self).wf(),
            old(self)@.contains_key(port_name@) ==> old(self)@[port_name@].buffer.overflow_total
                + ring::lost(old(self)@[port_name@].buffer, data@) <= u64::MAX,
        ensures
            final(self).wf(),
            if !old(self)@.contains_key(port_name@) {
                &&& final(self)@ == old(self)@
                &&& r matches Err(m) && m@ == not_open(port_name@)
            } else {
                let p = old(self)@[port_name@];
                &&& r is Ok
                &&& final(self)@ == old(self)@.insert(
                    port_name@,
                    (PortView { buffer: ring::pushed(p.buffer, data@, now), ..p }),
                )
            },
    {
        let ghost before = self@;
        match self.take_port(port_name) {
            None => Err(about_port(port_name, " 未打开，请先调用 uart_open")),
            Some(p) => {
                let mut p = p;
                p.buffer.push(data, now);
                self.put_port(p);
                assert(self@ =~= before.insert(port_name@, p@));
                Ok(())
            },
        }
    }

    /// The reader of a port has given up.
    pub fn reader_failed(&mut self, port_name: &str, error: String) -> (r: Result<(), String>)
        requires
            old(self).wf(),
        ensures
            final(self).wf(),
            if !old(self)@.contains_key(port_name@) {
                &&& final(self)@ == old(self)@
                &&& r matches Err(m) && m@ == not_open(port_name@)
            } else {
                let p = old(self)@[port_name@];
                &&& r is Ok
                &&& final(self)@ == old(self)@.insert(
                    port_name@,
                    (PortView { read_error: Some(error@), ..p }),
                )
            },
    {
        let ghost before = self@;
        match self.take_port(port_name) {
            None => Err(about_port(port_name, " 未打开，请先调用 uart_open")),
            Some(p) => {
                let mut p = p;
                p.read_error = Some(error);
                self.put_port(p);
                assert(self@ =~= before.insert(port_name@, p@));
                Ok(())
            },
        }
    }

    /// Asks the file transfer of a port to stop, if there is one. Returns its progress before.
    pub fn cancel_send(&mut self, port_name: &str) -> (r: Result<SendProgress, String>)
        requires
            old(self).wf(),
        ensures
            final(self).wf(),
            if !old(self)@.contains_key(port_name@) {
                &&& final(self)@ == old(self)@
                &&& r matches Err(m) && m@ == not_open(port_name@)
            } else {
                let p = old(self)@[port_name@];
                &&& r matches Ok(s) && s@ == p.send
                &&& final(self)@ == old(self)@.insert(
                    port_name@,
                    cancel_asked(p),
                )
            },
    {
        let ghost before = self@;
        match self.take_port(port_name) {
            None => Err(about_port(port_name, " 未打开，请先调用 uart_open")),
            Some(p) => {
                let mut p = p;
                let snapshot = p.send.snapshot();
                if snapshot.active {
                    p.send.cancel = true;
                }
                self.put_port(p);
                assert(self@ =~= before.insert(port_name@, p@));
                Ok(snapshot)
            },
        }
    }

    /// Begins to close a port. From now on new operations on it are refused, and a file transfer is
    /// asked to stop.
    pub fn close(&mut self, port_name: &str, now: u128) -> (r: Result<CloseOp, String>)
        requires
            old(self).wf(),
        ensures
            final(self).wf(),
            match refused(old(self)@, port_name@) {
                Some(e) => {
                    &&& final(self)@ == old(self)@
                    &&& r matches Err(m) && m@ == e
                },
                None => {
                    let p = old(self)@[port_name@];
                    &&& r matches Ok(op) && op@ == (CloseView { port: port_name@, start: now })
                    &&& final(self)@ == old(self)@.insert(
                        port_name@,
                        close_begun(p),
                    )
                },
            },
    {
        let ghost before = self@;
        match self.check(port_name) {
            Err(e) => {
                return Err(e);
            },
            Ok(_) => {},
        }
        match self.take_port(port_name) {
            None => Err(about_port(port_name, " 未打开，请先调用 uart_open")),
            Some(p) => {
                let mut p = p;
                if p.send.progress.active {
                    p.send.cancel = true;
                }
                p.closing = true;
                self.put_port(p);
                assert(self@ =~= before.insert(port_name@, p@));
                Ok(CloseOp { port: port_name.to_owned(), start: now })
            },
        }
    }

    /// Goes on with closing: waits for the file transfer to stop. If it does not in time, the port
    /// stays open. Once this is done the caller closes the device and calls `close_finished`.
    pub fn close_step(&mut self, op: &CloseOp, now: u128) -> (r: Next<()>)
        requires
            old(self).wf(),
        ensures
            final(self).wf(),
            r@ == close_next(old(self)@, op@, now),
            final(self)@ == close_stepped(old(self)@, op@, now),
    {
        let ghost before = self@;
        match self.take_port(op.port.as_str()) {
            None => Next::Fail(about_port(op.port.as_str(), " 未打开，请先调用 uart_open")),
            Some(p) => {
                let mut p = p;
                let ghost there = p@;
                let r = if !p.send.progress.active {
                    Next::Done(())
                } else if is_over(op.start, CLOSE_WAIT_MS, now) {
                    p.closing = false;
                    Next::Fail(
                        about_port(
                            op.port.as_str(),
                            " 的文件发送未在 30s 内退出，关闭中止",
                        ),
                    )
                } else {
                    Next::Do(Io::Wait)
                };
                self.put_port(p);
                assert(self@ =~= before.insert(op@.port, p@));
                assert(before.insert(op@.port, there) =~= before);
                r
            },
        }
    }

    /// The device of a port is closed: the port is gone.
    pub fn close_finished(&mut self, port_name: &str) -> (r: Result<(), String>)
        requires
            old(self).wf(),
        ensures
            final(self).wf(),
            final(self)@ == old(self)@.remove(port_name@),
            match r {
                Ok(_) => old(self)@.contains_key(port_name@),
                Err(e) => !old(self)@.contains_key(port_name@) && e@ == not_open(port_name@),
            },
    {
        let ghost before = self@;
        match self.take_port(port_name) {
            None => {
                assert(before =~= before.remove(port_name@));
                Err(about_port(port_name, " 未打开，请先调用 uart_open"))
            },
            Some(_) => Ok(()),
        }
    }
}

/// Changing settings changes those that are given and leaves the others.
pub proof fn law_configured(
    config: PortConfig,
    baudrate: Option<u32>,
    data_bits: Option<DataBits>,
    parity: Option<Parity>,
    stop_bits: Option<StopBits>,
    flow_control: Option<FlowControl>,
    read_timeout_ms: Option<u64>,
)
    ensures
        changed_all(
            config,
            settings_of(
                baudrate,
                data_bits,
                parity,
                stop_bits,
                flow_control,
                read_timeout_ms,
            ),
        ) == (PortConfig {
            baudrate: baudrate.unwrap_or(config.baudrate),
            data_bits: data_bits.unwrap_or(config.data_bits),
            parity: parity.unwrap_or(config.parity),
            stop_bits: stop_bits.unwrap_or(config.stop_bits),
            flow_control: flow_control.unwrap_or(config.flow_control),
            read_timeout_ms: read_timeout_ms.unwrap_or(config.read_timeout_ms),
            buffer_size: config.buffer_size,
        }),
{
    let o0 = match baudrate {
        Some(v) => Some(Setting::Baudrate(v)),
        None => None,
    };
    let o1 = match data_bits {
        Some(v) => Some(Setting::DataBits(v)),
        None => None,
    };
    let o2 = match parity {
        Some(v) => Some(Setting::Parity(v)),
        None => None,
    };
    let o3 = match stop_bits {
        Some(v) => Some(Setting::StopBits(v)),
        None => None,
    };
    let o4 = match flow_control {
        Some(v) => Some(Setting::FlowControl(v)),
        None => None,
    };
    let o5 = match read_timeout_ms {
        Some(v) => Some(Setting::ReadTimeout(v)),
        None => None,
    };
    let s0 = one_or_none(o0);
    let s1 = s0 + one_or_none(o1);
    let s2 = s1 + one_or_none(o2);
    let s3 = s2 + one_or_none(o3);
    let s4 = s3 + one_or_none(o4);
    let s5 = s4 + one_or_none(o5);
    assert(Seq::<Setting>::empty() + one_or_none(o0) =~= s0);
    lemma_changed_more(config, seq![], o0);
    lemma_changed_more(config, s0, o1);
    lemma_changed_more(config, s1, o2);
    lemma_changed_more(config, s2, o3);
    lemma_changed_more(config, s3, o4);
    lemma_changed_more(config, s4, o5);
}

proof fn lemma_changed_more(config: PortConfig, list: Seq<Setting>, more: Option<Setting>)
    ensures
        changed_all(config, list + one_or_none(more)) == match more {
            Some(s) => changed(changed_all(config, list), s),
            None => changed_all(config, list),
        },
{
    let longer = list + one_or_none(more);
    if more is Some {
        assert(longer.drop_last() =~= list);
    } else {
        assert(longer =~= list);
    }
}

/// Once closing a port has begun, every operation on it is refused, and it cannot be opened; once
/// it is closed, operations on it are refused until it is opened again. Other ports are not
/// affected.
pub proof fn law_closing_refuses(ports: Ports, name: Seq<char>, other: Seq<char>)
    requires
        ports.contains_key(name),
        name != other,
    ensures
        ({
            let p = ports[name];
            let closing = ports.insert(name, PortView { closing: true, ..p });
            &&& refused(closing, name) == Some(being_closed(name))
            &&& closing.contains_key(name)
            &&& refused(closing, other) == refused(ports, other)
            &&& refused(closing.remove(name), name) == Some(not_open(name))
            &&& refused(closing.remove(name), other) == refused(ports, other)
        }),
{
}

/// Closing never waits longer than it may, and only for a file transfer; when it gives up, the port
/// is as usable as before.
pub proof fn law_closing_ends(ports: Ports, op: CloseView, now: u128)
    requires
        ports.contains_key(op.port),
    ensures
        close_next(ports, op, now) == NextView::<()>::Do(Io::Wait) ==> ports[op.port].send.active
            && elapsed(op.start, now) < nanos(CLOSE_WAIT_MS),
        close_next(ports, op, now) is Fail ==> refused(
            close_stepped(ports, op, now),
            op.port,
        ) is None,
        close_next(ports, op, now) is Done ==> !ports[op.port].send.active,
{
}

/// Opening a port and closing it again leaves the other ports as they were.
pub proof fn law_open_close(ports: Ports, name: Seq<char>, p: PortView)
    requires
        !ports.contains_key(name),
    ensures
        ports.insert(name, p).remove(name) == ports,
{
    assert(ports.insert(name, p).remove(name) =~= ports);
}

/// The losses reported one after the other add up: nothing is reported twice, and nothing is left
/// out.
pub proof fn law_losses_add_up(last: u64, first: u64, second: u64)
    requires
        last <= first <= second,
    ensures
        lost_since(first, last) + lost_since(second, first) == second - last,
{
}

/// The defaults and the limits.
pub proof fn law_defaults_and_limits()
    ensures
        DEFAULT_BAUDRATE == 115_200,
        DEFAULT_READ_TIMEOUT_MS == 500,
        DEFAULT_BUFFER_SIZE == 1_048_576,
        DEFAULT_IDLE_MS == 300,
        DEFAULT_MAX_BYTES == 65_536,
        DEFAULT_TIMEOUT_MS == 5_000,
        MAX_READ_TIMEOUT_MS == 300_000,
        MAX_EXPECT_TIMEOUT_MS == 300_000,
        MAX_SEND_GAP_MS == 60_000,
        POLL_INTERVAL_MS == 10,
        CLOSE_WAIT_MS == 30_000,
        MAX_BUFFER_SIZE == 16_777_216,
        MAX_PATTERN_SIZE == 65_536,
        default_config().baudrate == 115_200,
        default_config().data_bits == DataBits::Eight,
        default_config().parity == Parity::Off,
        default_config().stop_bits == StopBits::One,
        default_config().flow_control == FlowControl::Off,
        default_config().read_timeout_ms == 500,
        default_config().buffer_size == 1_048_576,
{
}

/// Numbers of bits that are known mean what they say, and no others are.
pub proof fn law_numbers_of_bits(v: u8)
    ensures
        data_bits_of(v) is Some == (5 <= v <= 8),
        data_bits_of(v) matches Some(d) ==> data_bits_number(d) == v,
        stop_bits_of(v) is Some == (1 <= v <= 2),
        stop_bits_of(v) matches Some(d) ==> stop_bits_number(d) == v,
        data_bits_number(DataBits::Five) == 5,
        data_bits_number(DataBits::Six) == 6,
        data_bits_number(DataBits::Seven) == 7,
        data_bits_number(DataBits::Eight) == 8,
        stop_bits_number(StopBits::One) == 1,
        stop_bits_number(StopBits::Two) == 2,
{
}

/// Names of settings that are known mean what they say, in upper or lower case, and no others are.
pub proof fn law_names_of_settings(s: Seq<char>)
    ensures
        text::lower(s) == "none"@ ==> parity_of(s) == Some(Parity::Off) && flow_control_of(s) == Some(
            FlowControl::Off,
        ),
        text::lower(s) == "even"@ ==> parity_of(s) == Some(Parity::Even),
        text::lower(s) == "odd"@ ==> parity_of(s) == Some(Parity::Odd),
        text::lower(s) == "software"@ || text::lower(s) == "xon_xoff"@ || text::lower(s)
            == "xon/xoff"@ ==> flow_control_of(s) == Some(FlowControl::Software),
        text::lower(s) == "hardware"@ || text::lower(s) == "rts_cts"@ || text::lower(s) == "rts/cts"@
            ==> flow_control_of(s) == Some(FlowControl::Hardware),
        text::lower(s) != "none"@ && text::lower(s) != "even"@ && text::lower(s) != "odd"@
            ==> parity_of(s) is None,
        text::lower(s) != "none"@ && text::lower(s) != "software"@ && text::lower(s) != "xon_xoff"@
            && text::lower(s) != "xon/xoff"@ && text::lower(s) != "hardware"@ && text::lower(s)
            != "rts_cts"@ && text::lower(s) != "rts/cts"@ ==> flow_control_of(s) is None,
        parity_name(Parity::Off) == "none"@,
        parity_name(Parity::Even) == "even"@,
        parity_name(Parity::Odd) == "odd"@,
        flow_control_name(FlowControl::Off) == "none"@,
        flow_control_name(FlowControl::Software) == "software"@,
        flow_control_name(FlowControl::Hardware) == "hardware"@,
{
    reveal_strlit("none");
    reveal_strlit("even");
    reveal_strlit("odd");
    reveal_strlit("software");
    reveal_strlit("hardware");
    reveal_strlit("xon_xoff");
    reveal_strlit("xon/xoff");
    reveal_strlit("rts_cts");
    reveal_strlit("rts/cts");
    assert("even"@[0] != "none"@[0]);
    assert("odd"@.len() != "none"@.len());
    assert("odd"@.len() != "even"@.len());
    assert("software"@.len() != "none"@.len());
    assert("xon_xoff"@.len() != "none"@.len());
    assert("xon/xoff"@.len() != "none"@.len());
    assert("hardware"@.len() != "none"@.len());
    assert("rts_cts"@.len() != "none"@.len());
    assert("rts/cts"@.len() != "none"@.len());
    assert("hardware"@[0] != "software"@[0]);
    assert("hardware"@[0] != "xon_xoff"@[0]);
    assert("hardware"@[0] != "xon/xoff"@[0]);
    assert("rts_cts"@.len() != "software"@.len());
    assert("rts_cts"@.len() != "xon_xoff"@.len());
    assert("rts_cts"@.len() != "xon/xoff"@.len());
    assert("rts/cts"@.len() != "software"@.len());
    assert("rts/cts"@.len() != "xon_xoff"@.len());
    assert("rts/cts"@.len() != "xon/xoff"@.len());
}

/// How a port that the system reports is listed: under its name, with its kind, and a USB port with
/// what is known of the device.
pub proof fn law_listing(port: DetectedPort, info: PortInfo)
    requires
        info_of(port, info),
    ensures
        info.name@ == port.name@,
        port.kind is Bluetooth ==> info.port_type@ == "bluetooth"@ && info.description@.len() == 0,
        port.kind is Pci ==> info.port_type@ == "pci"@ && info.description@.len() == 0,
        port.kind is Unknown ==> info.port_type@ == "unknown"@ && info.description@.len() == 0,
        port.kind matches PortKind::Usb { vid, pid, serial_number, product } ==> {
            &&& info.port_type@ == "usb"@
            &&& info.description@ == "vid="@ + text::hex4(vid) + " pid="@ + text::hex4(pid)
                + " serial="@ + (match serial_number {
                Some(s) => s@,
                None => seq![],
            }) + " product="@ + (match product {
                Some(s) => s@,
                None => seq![],
            })
        },
{
}

/// Times are told in nanoseconds, limits in milliseconds; a time that is still to come is no time
/// ago.
pub proof fn law_times(since: u128, now: u128, ms: u64)
    ensures
        nanos(ms) == ms * 1_000_000,
        since <= now ==> elapsed(since, now) == now - since,
        now < since ==> elapsed(since, now) == 0,
{
}

/// The losses since the last report are what was lost in between.
pub proof fn law_losses_since(total: u64, last: u64)
    ensures
        last <= total ==> lost_since(total, last) == total - last,
        total < last ==> lost_since(total, last) == 0,
{
}

/// A port that was just opened has the settings that were asked for and an empty buffer of the size
/// asked for, and nothing has happened on it.
pub proof fn law_port_opens_fresh(config: PortConfig, now: u128)
    ensures
        ({
            let p = opened(config, now);
            &&& p.config == config
            &&& p.buffer == ring::empty_ring(config.buffer_size, now)
            &&& p.read_error is None
            &&& p.last_overflow == 0
            &&& !p.send.active
            &&& p.send.last_reason is None
            &&& p.send.sent_bytes == 0
            &&& p.send.total_bytes == 0
            &&& p.send.chunks == 0
            &&& !p.cancel
            &&& !p.closing
        }),
{
    assert(opened(config, now).buffer.unread =~= ring::empty_ring(config.buffer_size, now).unread);
}

/// An operation on a port is refused exactly if the port is not open, or is being closed, and is told
/// which.
pub proof fn law_refusals(ports: Ports, name: Seq<char>)
    ensures
        !ports.contains_key(name) ==> refused(ports, name) == Some(
            "端口 "@ + name + " 未打开，请先调用 uart_open"@,
        ),
        ports.contains_key(name) && ports[name].closing ==> refused(ports, name) == Some(
            "端口 "@ + name + " 正在关闭，请等待关闭完成"@,
        ),
        ports.contains_key(name) && !ports[name].closing ==> refused(ports, name) is None,
        not_open(name) == "端口 "@ + name + " 未打开，请先调用 uart_open"@,
        already_open(name) == "端口 "@ + name + " 已打开，请先调用 uart_close"@,
{
}

/// What goes wrong with a device is told with what was being done.
pub proof fn law_device_messages(name: Seq<char>, e: Seq<char>, setting: Setting)
    ensures
        open_failed(name, OpenStage::Device, e) == "打开 "@ + name + " 失败: "@ + e,
        open_failed(name, OpenStage::Handle, e) == "克隆串口读句柄失败: "@ + e,
        open_failed(name, OpenStage::Reader, e) == "初始化读线程失败: "@ + e,
        open_failed(name, OpenStage::Thread, e) == "启动读线程失败: "@ + e,
        setting is Baudrate ==> setting_failed(setting, e) == "设置波特率失败: "@ + e,
        setting is DataBits ==> setting_failed(setting, e) == "设置数据位失败: "@ + e,
        setting is Parity ==> setting_failed(setting, e) == "设置校验位失败: "@ + e,
        setting is StopBits ==> setting_failed(setting, e) == "设置停止位失败: "@ + e,
        setting is FlowControl ==> setting_failed(setting, e) == "设置流控失败: "@ + e,
        setting is ReadTimeout ==> setting_failed(setting, e) == "设置读超时失败: "@ + e,
{
}

/// Changing a setting changes that one, and no other.
pub proof fn law_one_setting_changes(config: PortConfig, setting: Setting)
    ensures
        ({
            let c = changed(config, setting);
            &&& c.baudrate == (match setting {
                Setting::Baudrate(v) => v,
                _ => config.baudrate,
            })
            &&& c.data_bits == (match setting {
                Setting::DataBits(v) => v,
                _ => config.data_bits,
            })
            &&& c.parity == (match setting {
                Setting::Parity(v) => v,
                _ => config.parity,
            })
            &&& c.stop_bits == (match setting {
                Setting::StopBits(v) => v,
                _ => config.stop_bits,
            })
            &&& c.flow_control == (match setting {
                Setting::FlowControl(v) => v,
                _ => config.flow_control,
            })
            &&& c.read_timeout_ms == (match setting {
                Setting::ReadTimeout(v) => v,
                _ => config.read_timeout_ms,
            })
            &&& c.buffer_size == config.buffer_size
        }),
{
}

/// The place of a setting in the order in which a device gets them.
pub open spec fn turn(setting: Setting) -> int {
    match setting {
        Setting::Baudrate(_) => 0,
        Setting::DataBits(_) => 1,
        Setting::Parity(_) => 2,
        Setting::StopBits(_) => 3,
        Setting::FlowControl(_) => 4,
        Setting::ReadTimeout(_) => 5,
    }
}

proof fn lemma_next_turn(list: Seq<Setting>, more: Option<Setting>, t: int)
    requires
        forall|i: int| 0 <= i < list.len() ==> turn(#[trigger] list[i]) < t,
        forall|i: int, j: int| 0 <= i < j < list.len() ==> turn(list[i]) < turn(list[j]),
        more matches Some(s) ==> turn(s) == t,
    ensures
        ({
            let longer = list + one_or_none(more);
            &&& forall|i: int| 0 <= i < longer.len() ==> turn(#[trigger] longer[i]) < t + 1
            &&& forall|i: int, j: int|
                0 <= i < j < longer.len() ==> turn(longer[i]) < turn(longer[j])
            &&& forall|s: Setting| #[trigger]
                longer.contains(s) <==> list.contains(s) || more == Some(s)
        }),
{
    let longer = list + one_or_none(more);
    assert forall|s: Setting| #[trigger] longer.contains(s) implies list.contains(s) || more == Some(
        s,
    ) by {
        let k = choose|k: int| 0 <= k < longer.len() && longer[k] == s;
        if k < list.len() {
            assert(list[k] == s);
        }
    }
    assert forall|s: Setting| list.contains(s) || more == Some(s) implies #[trigger] longer.contains(
        s,
    ) by {
        if list.contains(s) {
            let k = choose|k: int| 0 <= k < list.len() && list[k] == s;
            assert(longer[k] == s);
        } else {
            assert(longer[list.len() as int] == s);
        }
    }
}

/// A device gets exactly the settings that are given, each once: baud rate, data bits, parity, stop
/// bits, flow control and read timeout, in this order.
#[verifier::rlimit(30)]
pub proof fn law_settings_in_turn(
    baudrate: Option<u32>,
    data_bits: Option<DataBits>,
    parity: Option<Parity>,
    stop_bits: Option<StopBits>,
    flow_control: Option<FlowControl>,
    read_timeout_ms: Option<u64>,
    s: Setting,
)
    ensures
        ({
            let list = settings_of(
                baudrate,
                data_bits,
                parity,
                stop_bits,
                flow_control,
                read_timeout_ms,
            );
            &&& forall|i: int, j: int| 0 <= i < j < list.len() ==> turn(list[i]) < turn(list[j])
            &&& list.contains(s) == match s {
                Setting::Baudrate(v) => baudrate == Some(v),
                Setting::DataBits(v) => data_bits == Some(v),
                Setting::Parity(v) => parity == Some(v),
                Setting::StopBits(v) => stop_bits == Some(v),
                Setting::FlowControl(v) => flow_control == Some(v),
                Setting::ReadTimeout(v) => read_timeout_ms == Some(v),
            }
        }),
{
    let o0 = match baudrate {
        Some(v) => Some(Setting::Baudrate(v)),
        None => None,
    };
    let o1 = match data_bits {
        Some(v) => Some(Setting::DataBits(v)),
        None => None,
    };
    let o2 = match parity {
        Some(v) => Some(Setting::Parity(v)),
        None => None,
    };
    let o3 = match stop_bits {
        Some(v) => Some(Setting::StopBits(v)),
        None => None,
    };
    let o4 = match flow_control {
        Some(v) => Some(Setting::FlowControl(v)),
        None => None,
    };
    let o5 = match read_timeout_ms {
        Some(v) => Some(Setting::ReadTimeout(v)),
        None => None,
    };
    let none = Seq::<Setting>::empty();
    let s0 = one_or_none(o0);
    let s1 = s0 + one_or_none(o1);
    let s2 = s1 + one_or_none(o2);
    let s3 = s2 + one_or_none(o3);
    let s4 = s3 + one_or_none(o4);
    assert(none + one_or_none(o0) =~= s0);
    lemma_next_turn(none, o0, 0);
    lemma_next_turn(s0, o1, 1);
    lemma_next_turn(s1, o2, 2);
    lemma_next_turn(s2, o3, 3);
    lemma_next_turn(s3, o4, 4);
    lemma_next_turn(s4, o5, 5);
    assert(!none.contains(s));
}

/// Clearing a port drops its unread bytes and changes nothing else, not even what was counted. A
/// request to stop a transfer counts if there is one. Closing asks for that, too, and from then on
/// the port is being closed.
pub proof fn law_clear_cancel_close(p: PortView)
    ensures
        cleared(p).buffer.unread.len() == 0,
        cleared(p) == (PortView {
            buffer: RingView { unread: cleared(p).buffer.unread, ..p.buffer },
            ..p
        }),
        cancel_asked(p) == (PortView { cancel: cancel_asked(p).cancel, ..p }),
        p.send.active ==> cancel_asked(p).cancel,
        !p.send.active ==> cancel_asked(p).cancel == p.cancel,
        close_begun(p).closing,
        close_begun(p) == (PortView { closing: true, cancel: close_begun(p).cancel, ..p }),
        p.send.active ==> close_begun(p).cancel,
        !p.send.active ==> close_begun(p).cancel == p.cancel,
{
}

/// Closing is done as soon as no file is being sent. Until then it waits, for thirty seconds; then it
/// gives up, says so, and the port is open as before.
pub proof fn law_closing_decides(ports: Ports, op: CloseView, now: u128)
    ensures
        !ports.contains_key(op.port) ==> (close_next(ports, op, now) matches NextView::Fail(m) && m
            == "端口 "@ + op.port + " 未打开，请先调用 uart_open"@) && close_stepped(ports, op, now)
            == ports,
        ports.contains_key(op.port) && !ports[op.port].send.active ==> close_next(ports, op, now)
            is Done && close_stepped(ports, op, now) == ports,
        ports.contains_key(op.port) && ports[op.port].send.active && now - op.start
            >= 30_000_000_000 ==> {
            &&& close_next(ports, op, now) matches NextView::Fail(m) && m == "端口 "@ + op.port
                + " 的文件发送未在 30s 内退出，关闭中止"@
            &&& close_stepped(ports, op, now) == ports.insert(
                op.port,
                (PortView { closing: false, ..ports[op.port] }),
            )
        },
        ports.contains_key(op.port) && ports[op.port].send.active && now - op.start
            < 30_000_000_000 ==> (close_next(ports, op, now) matches NextView::Do(io) && io
            == Io::Wait) && close_stepped(ports, op, now) == ports,
{
}

/// The status of a port tells its settings, its buffer, its reader and its file transfer; that of a
/// port that is not open tells only that.
pub proof fn law_status(ports: Ports, name: Seq<char>, info: AvailableInfo)
    requires
        available_is(ports, name, info),
    ensures
        info.open == ports.contains_key(name),
        ports.contains_key(name) ==> {
            let p = ports[name];
            &&& info.port matches Some(n) && n@ == name
            &&& info.baudrate == Some(p.config.baudrate)
            &&& info.data_bits matches Some(d) && data_bits_of(d) == Some(p.config.data_bits)
            &&& info.parity matches Some(s) && parity_of(s@) == Some(p.config.parity)
            &&& info.stop_bits matches Some(d) && stop_bits_of(d) == Some(p.config.stop_bits)
            &&& info.flow_control matches Some(s) && flow_control_of(s@) == Some(
                p.config.flow_control,
            )
            &&& info.read_timeout_ms == Some(p.config.read_timeout_ms)
            &&& info.buffer_size == Some(p.config.buffer_size)
            &&& info.buffered_bytes == p.buffer.unread.len()
            &&& info.pending == (p.buffer.unread.len() > 0)
            &&& info.overflow_total == p.buffer.overflow_total
            &&& info.read_error is Some == p.read_error is Some
            &&& info.read_error matches Some(e) ==> p.read_error == Some(e@)
            &&& info.send.active == p.send.active
            &&& info.send.sent_bytes == p.send.sent_bytes
            &&& info.send.total_bytes == p.send.total_bytes
            &&& info.send.chunks == p.send.chunks
            &&& info.send.last_reason is Some == p.send.last_reason is Some
            &&& info.send.last_reason matches Some(r) ==> p.send.last_reason == Some(r@)
        },
        !ports.contains_key(name) ==> {
            &&& info.port is None && info.baudrate is None && info.data_bits is None
            &&& info.parity is None && info.stop_bits is None && info.flow_control is None
            &&& info.read_timeout_ms is None && info.buffer_size is None && info.read_error is None
            &&& info.buffered_bytes == 0 && !info.pending && info.overflow_total == 0
            &&& !info.send.active && info.send.last_reason is None && info.send.sent_bytes == 0
            &&& info.send.total_bytes == 0 && info.send.chunks == 0
        },
{
    if ports.contains_key(name) {
        let c = ports[name].config;
        law_settings_round_trip(c.data_bits, c.stop_bits, c.parity, c.flow_control);
    }
}

}
