//! The state of the application and its reactions to user interaction and
//! to the results of background work. Everything here is plain data; the
//! serial handle, measured values and the window itself are kept by the
//! program that drives this state.

use vstd::prelude::*;

use crate::scpi::{check_frequency_range, frequency_range_message, IdnResponse};
use crate::serial::{ConnectionState, PortInfo};
use crate::text::{
    append_chars, append_str, chars_of, dec_chars, dec_digits, has_infix, string_of, sub_chars,
    trim, trim_chars,
};
use crate::ui::Panel;

verus! {

// ---------------------------------------------------------------------------
// Log entry
// ---------------------------------------------------------------------------

#[derive(Debug, Clone)]
pub struct LogEntry {
    pub timestamp: String,
    pub level: LogLevel,
    pub message: String,
}

#[derive(Debug, Clone, Copy, PartialEq, Eq, Structural)]
pub enum LogLevel {
    Info,
    Warn,
    Error,
}

// ---------------------------------------------------------------------------
// Motor direction
// ---------------------------------------------------------------------------

#[derive(Debug, Clone, Copy, PartialEq, Eq, Structural)]
pub enum Direction {
    Forward,
    Reverse,
}

/// The name of a direction.
pub open spec fn direction_name(d: Direction) -> Seq<char> {
    match d {
        Direction::Forward => "Forward"@,
        Direction::Reverse => "Reverse"@,
    }
}

impl Direction {
    /// The name of the direction, as it is shown.
    pub fn name(&self) -> (r: String)
        ensures
            r@ == direction_name(*self),
    {
        match self {
            Direction::Forward => string_of(&chars_of("Forward")),
            Direction::Reverse => string_of(&chars_of("Reverse")),
        }
    }
}

// ---------------------------------------------------------------------------
// Clock text of log entries
// ---------------------------------------------------------------------------

/// A number below one hundred in two decimal digits (`{:02}`).
pub open spec fn two_digits(n: nat) -> Seq<char> {
    if n < 10 {
        seq!['0'] + dec_digits(n)
    } else {
        dec_digits(n)
    }
}

/// The time of day `HH:MM:SS` (UTC) of `secs` seconds since the Unix epoch.
pub open spec fn clock_text(secs: nat) -> Seq<char> {
    two_digits((secs / 3600) % 24) + ":"@ + two_digits((secs / 60) % 60) + ":"@ + two_digits(
        secs % 60,
    )
}

fn two_digit_chars(n: u64) -> (r: Vec<char>)
    ensures
        r@ == two_digits(n as nat),
{
    let d = dec_chars(n);
    if n < 10 {
        let mut r = Vec::new();
        r.push('0');
        append_chars(&mut r, &d);
        assert(r@ =~= seq!['0'] + dec_digits(n as nat));
        r
    } else {
        d
    }
}

/// The time of day of `secs` (see [`clock_text`]).
pub fn clock_string(secs: u64) -> (r: String)
    ensures
        r@ == clock_text(secs as nat),
{
    let mut v = two_digit_chars((secs / 3600) % 24);
    append_str(&mut v, ":");
    append_chars(&mut v, &two_digit_chars((secs / 60) % 60));
    append_str(&mut v, ":");
    append_chars(&mut v, &two_digit_chars(secs % 60));
    string_of(&v)
}

// ---------------------------------------------------------------------------
// Application state
// ---------------------------------------------------------------------------

/// The plain-valued state of the application.
pub struct NevcApp {
    pub active_panel: Panel,
    // Serial / connection
    pub connection: ConnectionState,
    /// Whether the program holds an open port (set when the port was
    /// opened, cleared when disconnecting).
    pub port_open: bool,
    pub available_ports: Vec<PortInfo>,
    pub selected_port: Option<String>,
    pub status_message: String,
    // Firmware info (populated after *IDN?)
    pub firmware_version: Option<String>,
    pub idn_manufacturer: Option<String>,
    pub idn_model: Option<String>,
    pub idn_serial: Option<String>,
    // Motor control state (write-side)
    pub motor_enabled: bool,
    pub motor_frequency_input: String,
    pub motor_direction: Direction,
    // Measured direction (None until first poll)
    pub measured_direction: Option<String>,
    // Event log (shown in Log panel)
    pub log: Vec<LogEntry>,
    // Firmware panel
    pub flash_log: Vec<String>,
}

/// What a frequency input gave when it was read as a number.
#[derive(Debug, Clone, Copy, PartialEq, Eq, Structural)]
pub enum FrequencyEntry {
    /// The input is not a number.
    NotANumber,
    /// The number is negative or not finite.
    NotPositive,
    /// The number, rounded to whole hertz.
    Whole(u32),
}

/// Every user interaction and every result of background work.
pub enum Event {
    // Navigation
    TabSelected(Panel),
    // Connection panel
    RefreshPorts,
    PortsRefreshed(Vec<PortInfo>),
    PortSelected(String),
    ConnectPressed,
    DisconnectPressed,
    /// The port was opened.
    Connected,
    /// The port could not be opened.
    ConnectFailed(String),
    IdnReceived(Result<IdnResponse, String>),
    ErrorsChecked(String),
    // Motor control
    EnableChanged(bool),
    FrequencyInputChanged(String),
    FrequencySubmit(FrequencyEntry),
    DirectionChanged(Direction),
    // Measurements
    QueryMeasurements,
    MeasuredDirection(Option<String>),
    // Firmware
    FlashFirmwarePressed,
    FlashLogEntry(String),
    // Generic status
    StatusMessage(String),
    ClearLog,
}

/// Background work that an event calls for.
#[derive(Debug, Clone, PartialEq, Eq)]
pub enum Action {
    Nothing,
    /// Enumerate the serial ports.
    ListPorts,
    /// Open the named port.
    OpenPort(String),
    /// Ask the board for its identification (`*IDN?`).
    QueryIdn,
    /// Read the board's error queue.
    CheckErrorQueue,
    /// Use the given gate switching frequency.
    SetFrequency(u32),
}

/// `new` is `old` with one entry appended: at the clock time of `now`, of
/// the given level and message.
pub open spec fn log_appended(
    old: Seq<LogEntry>,
    new: Seq<LogEntry>,
    level: LogLevel,
    msg: Seq<char>,
    now: u64,
) -> bool {
    &&& new.len() == old.len() + 1
    &&& new.take(old.len() as int) == old
    &&& new.last().level == level
    &&& new.last().message@ == msg
    &&& new.last().timestamp@ == clock_text(now as nat)
}

/// The status line after logging `msg` at `level`: warnings and errors are
/// mirrored there.
pub open spec fn status_after_log(old: Seq<char>, level: LogLevel, msg: Seq<char>) -> Seq<char> {
    match level {
        LogLevel::Info => old,
        _ => msg,
    }
}

/// The initial status line.
pub open spec fn initial_status() -> Seq<char> {
    "Not connected. Select a COM port and click Connect."@
}

/// The port name in a label of the port picker: the text before the first
/// ` —`, trimmed.
pub open spec fn label_port_name(label: Seq<char>) -> Seq<char> {
    trim(before_first(label, " —"@))
}

/// The first occurrence of `p` in `s` at or after `k`, or `-1`.
pub open spec fn find_from(s: Seq<char>, p: Seq<char>, k: int) -> int
    decreases s.len() - k,
{
    if k < 0 || k + p.len() > s.len() {
        -1
    } else if s.subrange(k, k + p.len()) == p {
        k
    } else {
        proof {
            if p.len() == 0 {
                assert(s.subrange(k, k + p.len()) =~= p);
            }
        }
        find_from(s, p, k + 1)
    }
}

/// The text of `s` before the first occurrence of `p` (all of `s` when
/// there is none), as the first piece of `str::split(p)`.
pub open spec fn before_first(s: Seq<char>, p: Seq<char>) -> Seq<char> {
    let k = find_from(s, p, 0);
    if k < 0 {
        s
    } else {
        s.take(k)
    }
}

/// The selection after the port list became `ports`: the previous one if a
/// listed port still has that name, otherwise the first listed port, or
/// none when the list is empty.
pub open spec fn selection_after_refresh(prev: Option<String>, ports: Seq<PortInfo>) -> Option<
    Seq<char>,
> {
    match prev {
        Some(p) if exists|i: int| 0 <= i < ports.len() && (#[trigger] ports[i]).name@ == p@ => Some(
            p@,
        ),
        _ => if ports.len() > 0 {
            Some(ports[0].name@)
        } else {
            None
        },
    }
}

/// The view of an optional string.
pub open spec fn opt_view(o: Option<String>) -> Option<Seq<char>> {
    match o {
        Some(s) => Some(s@),
        None => None,
    }
}

/// The state's fields other than the status line and the log are those of
/// `old`.
pub open spec fn same_but_status_and_log(old: NevcApp, new: NevcApp) -> bool {
    new == NevcApp { status_message: new.status_message, log: new.log, ..old }
}

fn find_from_exec(s: &Vec<char>, p: &Vec<char>) -> (k: Option<usize>)
    ensures
        match k {
            Some(i) => find_from(s@, p@, 0) == i as int && i + p.len() <= s.len(),
            None => find_from(s@, p@, 0) < 0,
        },
{
    if p.len() == 0 {
        assert(s@.subrange(0, 0) =~= p@);
        return Some(0);
    }
    let mut k: usize = 0;
    while k <= s.len() && p.len() <= s.len() - k
        invariant
            k <= s.len() + 1,
            p.len() > 0,
            find_from(s@, p@, 0) == find_from(s@, p@, k as int),
        decreases s.len() + 1 - k,
    {
        let piece = sub_chars(s, k, k + p.len());
        if crate::text::chars_eq(&piece, p) {
            return Some(k);
        }
        k = k + 1;
    }
    None
}

fn message2(a: &str, b: &str) -> (r: String)
    ensures
        r@ == a@ + b@,
{
    let mut v = chars_of(a);
    append_str(&mut v, b);
    string_of(&v)
}

fn message3(a: &str, b: &str, c: &str) -> (r: String)
    ensures
        r@ == a@ + b@ + c@,
{
    let mut v = chars_of(a);
    append_str(&mut v, b);
    append_str(&mut v, c);
    string_of(&v)
}

/// The outcome of a frequency input that was read as `e`: the status line
/// it leaves, and the frequency it selects.
pub open spec fn frequency_outcome(e: FrequencyEntry) -> (Seq<char>, Option<u32>) {
    match e {
        FrequencyEntry::NotANumber => ("Invalid frequency value — enter a number."@, None),
        FrequencyEntry::NotPositive => ("Frequency must be a positive number."@, None),
        FrequencyEntry::Whole(h) => if crate::scpi::FREQ_MIN_HZ <= h <= crate::scpi::FREQ_MAX_HZ {
            ("Frequency set to "@ + dec_digits(h as nat) + " Hz"@, Some(h))
        } else {
            (frequency_range_message(), None)
        },
    }
}

/// How the state `old` becomes `new`, and which background work is called
/// for, when `event` arrives at time `now` (seconds since the Unix epoch).
pub open spec fn transition(old: NevcApp, new: NevcApp, event: Event, now: u64, action: Action) -> bool {
    match event {
        Event::TabSelected(p) => new == NevcApp { active_panel: p, ..old } && action == Action::Nothing,
        Event::RefreshPorts => new == old && action == Action::ListPorts,
        Event::PortsRefreshed(ports) => {
            &&& new == NevcApp { available_ports: ports, selected_port: new.selected_port, ..old }
            &&& opt_view(new.selected_port) == selection_after_refresh(old.selected_port, ports@)
            &&& action == Action::Nothing
        },
        Event::PortSelected(label) => {
            &&& new == NevcApp { selected_port: new.selected_port, ..old }
            &&& opt_view(new.selected_port) == Some(label_port_name(label@))
            &&& action == Action::Nothing
        },
        Event::ConnectPressed => match old.selected_port {
            None => new == old && action == Action::Nothing,
            Some(p) => {
                let msg = "Connecting to "@ + p@ + "…"@;
                &&& new == NevcApp {
                    connection: ConnectionState::Connecting,
                    status_message: new.status_message,
                    log: new.log,
                    ..old
                }
                &&& new.status_message@ == msg
                &&& log_appended(old.log@, new.log@, LogLevel::Info, msg, now)
                &&& action matches Action::OpenPort(q) && q@ == p@
            },
        },
        Event::DisconnectPressed => {
            let port = match old.selected_port {
                Some(p) => p@,
                None => Seq::<char>::empty(),
            };
            &&& new == NevcApp {
                connection: ConnectionState::Disconnected,
                port_open: false,
                firmware_version: None,
                idn_manufacturer: None,
                idn_model: None,
                idn_serial: None,
                status_message: new.status_message,
                log: new.log,
                ..old
            }
            &&& new.status_message@ == "Disconnected."@
            &&& log_appended(old.log@, new.log@, LogLevel::Info, "Disconnected from "@ + port + "."@, now)
            &&& action == Action::Nothing
        },
        Event::Connected => {
            &&& new == NevcApp {
                connection: ConnectionState::Connected,
                port_open: true,
                status_message: new.status_message,
                ..old
            }
            &&& new.status_message@ == "Connected — querying firmware version…"@
            &&& action == Action::QueryIdn
        },
        Event::ConnectFailed(e) => {
            &&& new == NevcApp {
                connection: ConnectionState::Disconnected,
                status_message: new.status_message,
                ..old
            }
            &&& new.status_message@ == "Connection failed: "@ + e@
            &&& action == Action::Nothing
        },
        Event::IdnReceived(Ok(idn)) => {
            &&& new == NevcApp {
                firmware_version: new.firmware_version,
                idn_manufacturer: new.idn_manufacturer,
                idn_model: new.idn_model,
                idn_serial: new.idn_serial,
                status_message: new.status_message,
                log: new.log,
                ..old
            }
            &&& opt_view(new.firmware_version) == Some(idn.firmware_version@)
            &&& opt_view(new.idn_manufacturer) == Some(idn.manufacturer@)
            &&& opt_view(new.idn_model) == Some(idn.model@)
            &&& opt_view(new.idn_serial) == Some(idn.serial@)
            &&& new.status_message@ == "Connected — firmware v"@ + idn.firmware_version@
            &&& log_appended(
                old.log@,
                new.log@,
                LogLevel::Info,
                "IDN: "@ + idn.manufacturer@ + " "@ + idn.model@ + " — firmware v"@
                    + idn.firmware_version@,
                now,
            )
            &&& action == Action::CheckErrorQueue
        },
        Event::IdnReceived(Err(e)) => {
            let msg = "IDN query failed: "@ + e@;
            &&& same_but_status_and_log(old, new)
            &&& new.status_message@ == msg
            &&& log_appended(old.log@, new.log@, LogLevel::Error, msg, now)
            &&& action == Action::Nothing
        },
        Event::ErrorsChecked(errors) => {
            &&& same_but_status_and_log(old, new)
            &&& if errors@.len() > 0 {
                let msg = "SCPI errors on connect: "@ + errors@;
                &&& new.status_message@ == msg
                &&& log_appended(old.log@, new.log@, LogLevel::Warn, msg, now)
            } else {
                &&& new.status_message == old.status_message
                &&& log_appended(old.log@, new.log@, LogLevel::Info, "Error queue empty."@, now)
            }
            &&& action == Action::Nothing
        },
        Event::EnableChanged(en) => new == NevcApp { motor_enabled: en, ..old } && action
            == Action::Nothing,
        Event::FrequencyInputChanged(text) => new == NevcApp { motor_frequency_input: text, ..old }
            && action == Action::Nothing,
        Event::FrequencySubmit(e) => {
            &&& new == NevcApp { status_message: new.status_message, ..old }
            &&& new.status_message@ == frequency_outcome(e).0
            &&& action == match frequency_outcome(e).1 {
                Some(h) => Action::SetFrequency(h),
                None => Action::Nothing,
            }
        },
        Event::DirectionChanged(d) => new == NevcApp { motor_direction: d, ..old } && action
            == Action::Nothing,
        Event::QueryMeasurements => new == old && action == Action::Nothing,
        Event::MeasuredDirection(d) => new == NevcApp { measured_direction: d, ..old } && action
            == Action::Nothing,
        Event::FlashFirmwarePressed => {
            &&& new == NevcApp { flash_log: new.flash_log, ..old }
            &&& new.flash_log@.len() == 1
            &&& new.flash_log@[0]@ == "Flash initiated — TODO Stage 5"@
            &&& action == Action::Nothing
        },
        Event::FlashLogEntry(entry) => {
            &&& new == NevcApp { flash_log: new.flash_log, ..old }
            &&& new.flash_log@ == old.flash_log@.push(entry)
            &&& action == Action::Nothing
        },
        Event::StatusMessage(m) => new == NevcApp { status_message: m, ..old } && action
            == Action::Nothing,
        Event::ClearLog => {
            &&& new == NevcApp { log: new.log, ..old }
            &&& new.log@.len() == 0
            &&& action == Action::Nothing
        },
    }
}

impl NevcApp {
    /// The state the application starts in, and the port enumeration it
    /// starts with.
    pub fn new() -> (r: (Self, Action))
        ensures
            r.0.active_panel == Panel::Connection,
            r.0.connection == ConnectionState::Disconnected,
            !r.0.port_open,
            r.0.available_ports@.len() == 0,
            r.0.selected_port is None,
            r.0.status_message@ == initial_status(),
            r.0.firmware_version is None,
            r.0.idn_manufacturer is None,
            r.0.idn_model is None,
            r.0.idn_serial is None,
            !r.0.motor_enabled,
            r.0.motor_frequency_input@ == "20000"@,
            r.0.motor_direction == Direction::Forward,
            r.0.measured_direction is None,
            r.0.log@.len() == 0,
            r.0.flash_log@.len() == 0,
            r.1 == Action::ListPorts,
    {
        let app = NevcApp {
            active_panel: Panel::Connection,
            connection: ConnectionState::Disconnected,
            port_open: false,
            available_ports: Vec::new(),
            selected_port: None,
            status_message: string_of(&chars_of("Not connected. Select a COM port and click Connect.")),
            firmware_version: None,
            idn_manufacturer: None,
            idn_model: None,
            idn_serial: None,
            motor_enabled: false,
            motor_frequency_input: string_of(&chars_of("20000")),
            motor_direction: Direction::Forward,
            measured_direction: None,
            log: Vec::new(),
            flash_log: Vec::new(),
        };
        (app, Action::ListPorts)
    }

    /// The window title.
    pub fn title(&self) -> (r: String)
        ensures
            r@ == "Nexperia Motor Driver GUI — NEVC-MTR1"@,
    {
        string_of(&chars_of("Nexperia Motor Driver GUI — NEVC-MTR1"))
    }

    /// Appends an entry to the log, stamped with the time of day of `now`
    /// (seconds since the Unix epoch); warnings and errors also become the
    /// status line.
    pub fn push_log(&mut self, level: LogLevel, msg: String, now: u64)
        ensures
            log_appended(old(self).log@, final(self).log@, level, msg@, now),
            final(self).status_message@ == status_after_log(old(self).status_message@, level, msg@),
            level == LogLevel::Info ==> final(self).status_message == old(self).status_message,
            same_but_status_and_log(*old(self), *final(self)),
    {
        let stamp = clock_string(now);
        match level {
            LogLevel::Warn | LogLevel::Error => {
                self.status_message = string_of(&chars_of(msg.as_str()));
            },
            _ => {},
        }
        let ghost before = self.log@;
        self.log.push(LogEntry { timestamp: stamp, level, message: msg });
        assert(self.log@.take(before.len() as int) =~= before);
    }

    fn ports_refreshed(&mut self, ports: Vec<PortInfo>)
        ensures
            *final(self) == (NevcApp {
                available_ports: ports,
                selected_port: final(self).selected_port,
                ..*old(self)
            }),
            opt_view(final(self).selected_port) == selection_after_refresh(old(self).selected_port, ports@),
    {
        let mut still_valid = false;
        match &self.selected_port {
            Some(prev) => {
                let mut i: usize = 0;
                while i < ports.len() && !still_valid
                    invariant
                        i <= ports.len(),
                        still_valid ==> (exists|k: int|
                            0 <= k < ports@.len() && (#[trigger] ports@[k]).name@ == prev@),
                        !still_valid ==> (forall|k: int|
                            0 <= k < i ==> (#[trigger] ports@[k]).name@ != prev@),
                    decreases ports.len() - i + (if still_valid { 0int } else { 1int }),
                {
                    if crate::text::chars_eq(&chars_of(ports[i].name.as_str()), &chars_of(prev.as_str())) {
                        still_valid = true;
                    }
                    i = i + 1;
                }
            },
            None => {},
        }
        let chosen: Option<String> = if still_valid {
            self.selected_port.clone()
        } else if ports.len() > 0 {
            Some(string_of(&chars_of(ports[0].name.as_str())))
        } else {
            None
        };
        self.available_ports = ports;
        self.selected_port = chosen;
    }

    /// Reacts to `event`, arriving at time `now` (seconds since the Unix
    /// epoch): updates the state and names the background work it calls for
    /// (see [`transition`]).
    pub fn update(&mut self, event: Event, now: u64) -> (action: Action)
        ensures
            transition(*old(self), *final(self), event, now, action),
    {
        match event {
            Event::TabSelected(panel) => {
                self.active_panel = panel;
                Action::Nothing
            },
            Event::RefreshPorts => Action::ListPorts,
            Event::PortsRefreshed(ports) => {
                self.ports_refreshed(ports);
                Action::Nothing
            },
            Event::PortSelected(label) => {
                let v = chars_of(label.as_str());
                let dash = chars_of(" —");
                let head = match find_from_exec(&v, &dash) {
                    Some(k) => sub_chars(&v, 0, k),
                    None => sub_chars(&v, 0, v.len()),
                };
                assert(v@.subrange(0, v@.len() as int) =~= v@);
                let name = trim_chars(&head);
                self.selected_port = Some(string_of(&name));
                Action::Nothing
            },
            Event::ConnectPressed => {
                let port_name = match &self.selected_port {
                    Some(p) => string_of(&chars_of(p.as_str())),
                    None => {
                        return Action::Nothing;
                    },
                };
                self.connection = ConnectionState::Connecting;
                self.status_message = message3("Connecting to ", port_name.as_str(), "…");
                self.push_log(LogLevel::Info, message3("Connecting to ", port_name.as_str(), "…"), now);
                Action::OpenPort(port_name)
            },
            Event::DisconnectPressed => {
                let port = match &self.selected_port {
                    Some(p) => string_of(&chars_of(p.as_str())),
                    None => String::new(),
                };
                self.connection = ConnectionState::Disconnected;
                self.port_open = false;
                self.firmware_version = None;
                self.idn_manufacturer = None;
                self.idn_model = None;
                self.idn_serial = None;
                self.status_message = string_of(&chars_of("Disconnected."));
                self.push_log(LogLevel::Info, message3("Disconnected from ", port.as_str(), "."), now);
                Action::Nothing
            },
            Event::Connected => {
                self.connection = ConnectionState::Connected;
                self.port_open = true;
                self.status_message = string_of(&chars_of("Connected — querying firmware version…"));
                Action::QueryIdn
            },
            Event::ConnectFailed(e) => {
                self.connection = ConnectionState::Disconnected;
                self.status_message = message2("Connection failed: ", e.as_str());
                Action::Nothing
            },
            Event::IdnReceived(Ok(idn)) => {
                self.firmware_version = Some(string_of(&chars_of(idn.firmware_version.as_str())));
                self.idn_manufacturer = Some(string_of(&chars_of(idn.manufacturer.as_str())));
                self.idn_model = Some(string_of(&chars_of(idn.model.as_str())));
                self.idn_serial = Some(string_of(&chars_of(idn.serial.as_str())));
                self.status_message = message2("Connected — firmware v", idn.firmware_version.as_str());
                let mut m = chars_of("IDN: ");
                append_str(&mut m, idn.manufacturer.as_str());
                append_str(&mut m, " ");
                append_str(&mut m, idn.model.as_str());
                append_str(&mut m, " — firmware v");
                append_str(&mut m, idn.firmware_version.as_str());
                self.push_log(LogLevel::Info, string_of(&m), now);
                Action::CheckErrorQueue
            },
            Event::IdnReceived(Err(e)) => {
                let msg = message2("IDN query failed: ", e.as_str());
                self.push_log(LogLevel::Error, message2("IDN query failed: ", e.as_str()), now);
                self.status_message = msg;
                Action::Nothing
            },
            Event::ErrorsChecked(errors) => {
                if errors.as_str().unicode_len() > 0 {
                    let msg = message2("SCPI errors on connect: ", errors.as_str());
                    self.push_log(LogLevel::Warn, message2("SCPI errors on connect: ", errors.as_str()), now);
                    self.status_message = msg;
                } else {
                    self.push_log(LogLevel::Info, string_of(&chars_of("Error queue empty.")), now);
                }
                Action::Nothing
            },
            Event::EnableChanged(en) => {
                self.motor_enabled = en;
                Action::Nothing
            },
            Event::FrequencyInputChanged(text) => {
                self.motor_frequency_input = text;
                Action::Nothing
            },
            Event::FrequencySubmit(entry) => match entry {
                FrequencyEntry::NotANumber => {
                    self.status_message = string_of(&chars_of("Invalid frequency value — enter a number."));
                    Action::Nothing
                },
                FrequencyEntry::NotPositive => {
                    self.status_message = string_of(&chars_of("Frequency must be a positive number."));
                    Action::Nothing
                },
                FrequencyEntry::Whole(hz) => match check_frequency_range(hz) {
                    Ok(valid_hz) => {
                        let mut m = chars_of("Frequency set to ");
                        append_chars(&mut m, &dec_chars(valid_hz as u64));
                        append_str(&mut m, " Hz");
                        self.status_message = string_of(&m);
                        Action::SetFrequency(valid_hz)
                    },
                    Err(e) => {
                        self.status_message = e;
                        Action::Nothing
                    },
                },
            },
            Event::DirectionChanged(dir) => {
                self.motor_direction = dir;
                Action::Nothing
            },
            Event::QueryMeasurements => Action::Nothing,
            Event::MeasuredDirection(d) => {
                self.measured_direction = d;
                Action::Nothing
            },
            Event::FlashFirmwarePressed => {
                let mut fl: Vec<String> = Vec::new();
                fl.push(string_of(&chars_of("Flash initiated — TODO Stage 5")));
                self.flash_log = fl;
                Action::Nothing
            },
            Event::FlashLogEntry(entry) => {
                self.flash_log.push(entry);
                Action::Nothing
            },
            Event::StatusMessage(msg) => {
                self.status_message = msg;
                Action::Nothing
            },
            Event::ClearLog => {
                self.log = Vec::new();
                Action::Nothing
            },
        }
    }
}


// ---------------------------------------------------------------------------
// Laws of the state machine
// ---------------------------------------------------------------------------

/// After the port list is refreshed, a port is selected exactly when the
/// list is not empty, and the selected port is always one of the listed
/// ports: the previous selection when it is still listed, otherwise the
/// first listed port.
pub proof fn lemma_refresh_selects_listed_port(
    old: NevcApp,
    new: NevcApp,
    ports: Vec<PortInfo>,
    now: u64,
    action: Action,
)
    requires
        transition(old, new, Event::PortsRefreshed(ports), now, action),
    ensures
        new.selected_port is Some <==> ports@.len() > 0,
        new.selected_port matches Some(p) ==> exists|i: int|
            0 <= i < ports@.len() && (#[trigger] ports@[i]).name@ == p@,
        new.available_ports == ports,
        match old.selected_port {
            Some(p) => (exists|i: int| 0 <= i < ports@.len() && (#[trigger] ports@[i]).name@ == p@)
                ==> opt_view(new.selected_port) == Some(p@),
            None => true,
        },
        (old.selected_port is None || !(exists|i: int|
            0 <= i < ports@.len() && (#[trigger] ports@[i]).name@ == old.selected_port->0@))
            && ports@.len() > 0 ==> opt_view(new.selected_port) == Some(ports@[0].name@),
{
    match new.selected_port {
        Some(p) => {
            match old.selected_port {
                Some(q) => {
                    if !(exists|i: int| 0 <= i < ports@.len() && (#[trigger] ports@[i]).name@ == q@) {
                        assert(ports@[0].name@ == p@);
                    }
                },
                None => {
                    assert(ports@[0].name@ == p@);
                },
            }
        },
        None => {},
    }
}

/// Disconnecting always leaves the application disconnected and forgets
/// everything the device reported about itself.
pub proof fn lemma_disconnect_forgets_device(old: NevcApp, new: NevcApp, now: u64, action: Action)
    requires
        transition(old, new, Event::DisconnectPressed, now, action),
    ensures
        new.connection == ConnectionState::Disconnected,
        new.firmware_version is None,
        new.idn_manufacturer is None,
        new.idn_model is None,
        new.idn_serial is None,
        action == Action::Nothing,
{
}

/// Every event other than clearing the log keeps the entries already in
/// the log, in order, and adds at most one.
pub proof fn lemma_log_only_grows(old: NevcApp, new: NevcApp, event: Event, now: u64, action: Action)
    requires
        transition(old, new, event, now, action),
        !(event is ClearLog),
    ensures
        old.log@.len() <= new.log@.len() <= old.log@.len() + 1,
        new.log@.take(old.log@.len() as int) == old.log@,
{
    assert(old.log@.take(old.log@.len() as int) =~= old.log@);
}

/// A warning or an error that is logged also becomes the status line.
pub proof fn lemma_warnings_reach_status(
    old: NevcApp,
    new: NevcApp,
    event: Event,
    now: u64,
    action: Action,
)
    requires
        transition(old, new, event, now, action),
        new.log@.len() == old.log@.len() + 1,
        new.log@.last().level != LogLevel::Info,
    ensures
        new.status_message@ == new.log@.last().message@,
{
}

/// Background work is only asked for by the events that call for it: ports
/// are listed on refresh, a port is opened only when one is selected, and
/// the device is queried only once the port is open or has answered.
pub proof fn lemma_actions_follow_events(
    old: NevcApp,
    new: NevcApp,
    event: Event,
    now: u64,
    action: Action,
)
    requires
        transition(old, new, event, now, action),
    ensures
        action == Action::ListPorts ==> event is RefreshPorts,
        action is OpenPort ==> event is ConnectPressed && old.selected_port is Some,
        action == Action::QueryIdn ==> event is Connected,
        action == Action::CheckErrorQueue ==> (event matches Event::IdnReceived(r) && r is Ok),
        action matches Action::SetFrequency(h) ==> crate::scpi::FREQ_MIN_HZ <= h
            <= crate::scpi::FREQ_MAX_HZ,
{
}

/// The connection only moves along its cycle: to `Connecting` when connect
/// is pressed with a port selected, to `Connected` when the port was
/// opened, and back to `Disconnected` when opening failed or disconnect was
/// pressed. No other event changes it.
pub proof fn lemma_connection_cycle(old: NevcApp, new: NevcApp, event: Event, now: u64, action: Action)
    requires
        transition(old, new, event, now, action),
    ensures
        new.connection != old.connection ==> {
            ||| event is ConnectPressed && old.selected_port is Some && new.connection
                == ConnectionState::Connecting
            ||| event is Connected && new.connection == ConnectionState::Connected
            ||| (event is ConnectFailed || event is DisconnectPressed) && new.connection
                == ConnectionState::Disconnected
        },
        event is Connected ==> new.connection == ConnectionState::Connected,
        event is ConnectFailed || event is DisconnectPressed ==> new.connection
            == ConnectionState::Disconnected,
{
}

proof fn lemma_find_from_at(s: Seq<char>, p: Seq<char>, k: int, m: int)
    requires
        0 <= k <= m,
        m + p.len() <= s.len(),
        s.subrange(m, m + p.len()) == p,
        forall|j: int| k <= j < m ==> #[trigger] s.subrange(j, j + p.len()) != p,
    ensures
        find_from(s, p, k) == m,
    decreases m - k,
{
    if k < m {
        lemma_find_from_at(s, p, k + 1, m);
    }
}

/// Selecting a port by its label in the port picker selects that port's
/// name (trimmed), when the name itself does not hold ` —`.
pub proof fn lemma_label_selects_port(p: PortInfo)
    requires
        !has_infix(p.name@, " —"@),
    ensures
        label_port_name(crate::serial::port_label(p)) == trim(p.name@),
{
    reveal_strlit(" —");
    reveal_strlit(" — Arduino Leonardo");
    reveal_strlit(" — ");
    let n = p.name@;
    let dash = " —"@;
    let label = crate::serial::port_label(p);
    let rest = if p.is_arduino { " — Arduino Leonardo"@ } else { " — "@ + p.description@ };
    assert(label =~= n + rest);
    assert(label.subrange(n.len() as int, n.len() + 2int) =~= dash);
    assert forall|j: int| 0 <= j < n.len() implies #[trigger] label.subrange(j, j + dash.len())
        != dash by {
        if j + 2 <= n.len() {
            assert(label.subrange(j, j + 2) =~= n.subrange(j, j + 2));
        } else {
            assert(label.subrange(j, j + 2)[1] == label[n.len() as int]);
            assert(label[n.len() as int] == ' ');
        }
    }
    lemma_find_from_at(label, dash, 0, n.len() as int);
    assert(label.take(n.len() as int) =~= n);
}

/// The application is connected only while it holds an open port: this
/// holds from the start and every event keeps it.
pub proof fn lemma_connected_has_open_port(
    old: NevcApp,
    new: NevcApp,
    event: Event,
    now: u64,
    action: Action,
)
    requires
        old.connection == ConnectionState::Connected ==> old.port_open,
        transition(old, new, event, now, action),
    ensures
        new.connection == ConnectionState::Connected ==> new.port_open,
{
}

} // verus!
