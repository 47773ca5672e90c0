//! The firmware & configuration panel: the description of every parameter
//! and the readings of its inputs.

use vstd::prelude::*;

use crate::firmware::config::{
    field_type, parse_idn_serial, parse_inputs, repo_defaults, string_views, FieldType,
    FirmwareConfig,
};
use crate::text::{append_str, chars_eq_str, chars_of, contains_chars, has_infix, string_of};

verus! {

/// How to render / validate an individual parameter input.
#[derive(Debug, Clone, Copy, PartialEq, Eq, Structural)]
pub enum ParamKind {
    UInt,
    SInt,
    Bool,
    /// 0=COAST, 1=RAMP
    TurnOffMode,
    /// 0=OPEN_LOOP, 1=CLOSED_LOOP
    SpeedControlMethod,
}

/// The description of one parameter.
#[derive(Debug, Clone, Copy)]
pub struct ParamMeta {
    pub label: &'static str,
    pub unit: &'static str,
    pub help: &'static str,
    pub kind: ParamKind,
}

/// The input kind of parameter `i`.
pub open spec fn param_kind(i: int) -> ParamKind {
    if i == 6 {
        ParamKind::TurnOffMode
    } else if i == 14 {
        ParamKind::SpeedControlMethod
    } else if field_type(i) == FieldType::Flag {
        ParamKind::Bool
    } else if field_type(i) == FieldType::Signed {
        ParamKind::SInt
    } else {
        ParamKind::UInt
    }
}

/// The label, unit and help text of parameter `i`.
pub open spec fn param_texts(i: int) -> (Seq<char>, Seq<char>, Seq<char>) {
    if i == 0 {
        ("Motor Poles"@, ""@, "Number of poles in the motor (42BLS40-24-01 has 8)"@)
    } else if i == 1 {
        ("Switching Freq"@, "Hz"@, "Gate switching frequency (7183-100000 Hz)"@)
    } else if i == 2 {
        ("Dead Time"@, "ns"@, "Dead time between switching actions (350-1875 ns)"@)
    } else if i == 3 {
        ("Emulate Hall"@, ""@, "Generate hall sensor output signals (do not connect real sensors)"@)
    } else if i == 4 {
        ("Emulated Motor Freq"@, "Hz"@, "Electrical rotational frequency for emulated motor (if enabled)"@)
    } else if i == 5 {
        ("Stopped Threshold"@, "ticks"@, "Hall ticks without change before motor is considered stopped"@)
    } else if i == 6 {
        ("Turn-Off Mode"@, ""@, "How to turn off the motor: COAST (free-wheel) or RAMP"@)
    } else if i == 7 {
        ("Phase Current Gain"@, ""@, "In-line phase current sense amplifier gain (NEVB-MTR1-I56-1: 20)"@)
    } else if i == 8 {
        ("Phase Sense Resistor"@, "uOhm"@, "Phase current sense resistor value in micro-ohms (NEVB: 2500)"@)
    } else if i == 9 {
        ("Bus Current Gain"@, ""@, "Hi-side bus current sense amplifier gain (NEVB: 50 or 20)"@)
    } else if i == 10 {
        ("Bus Sense Resistor"@, "uOhm"@, "Bus current sense resistor value in micro-ohms (NEVB: 4000)"@)
    } else if i == 11 {
        ("Bus Warn Threshold"@, "ADC"@, "Bus current warning threshold (ADC 0-1023; 307 = ~7.5 A)"@)
    } else if i == 12 {
        ("Bus Error Threshold"@, "ADC"@, "Bus current error threshold (ADC 0-1023; 410 = ~10 A)"@)
    } else if i == 13 {
        ("Bus Fault Enable"@, ""@, "Disable all PWM when bus current error threshold exceeded"@)
    } else if i == 14 {
        ("Speed Control Method"@, ""@, "Speed control: OPEN LOOP (duty cycle) or CLOSED LOOP (PID)"@)
    } else if i == 15 {
        ("Speed Loop Time Base"@, "ticks"@, "PWM ticks between each speed-loop iteration (1-255)"@)
    } else if i == 16 {
        ("Max Speed Delta"@, ""@, "Maximum speed reference change per loop iteration (open loop)"@)
    } else if i == 17 {
        ("Max Speed"@, "hall Hz"@, "Maximum motor speed setpoint for closed-loop control"@)
    } else if i == 18 {
        ("PID Kp"@, ""@, "PID proportional gain constant (closed-loop only, i16)"@)
    } else if i == 19 {
        ("PID Ki"@, ""@, "PID integral gain constant (closed-loop only, i16)"@)
    } else if i == 20 {
        ("PID Kd Enable"@, ""@, "Enable the derivative term in the PID controller"@)
    } else if i == 21 {
        ("PID Kd"@, ""@, "PID derivative gain constant (closed-loop only, i16)"@)
    } else if i == 22 {
        ("VBUS Top Resistor"@, "Ohm"@, "Top resistor of the VBUS potential divider (NEVB-MTR1-C-1: 100 kOhm)"@)
    } else if i == 23 {
        ("VBUS Bottom Resistor"@, "Ohm"@, "Bottom resistor of the VBUS potential divider (NEVB: 6.2 kOhm)"@)
    } else if i == 24 {
        ("Wait for Board"@, ""@, "Wait for the inverter board to be detected before enabling motor"@)
    } else {
        ("Remote Debug Mode"@, ""@, "Send errors to serial immediately without waiting for query"@)
    }
}

/// The description of parameter `idx` (in IDN serial index order).
pub fn param_meta(idx: usize) -> (m: ParamMeta)
    requires
        idx < 26,
    ensures
        m.kind == param_kind(idx as int),
        (m.label@, m.unit@, m.help@) == param_texts(idx as int),
{
    match idx {
        0 => ParamMeta {
            label: "Motor Poles",
            unit: "",
            help: "Number of poles in the motor (42BLS40-24-01 has 8)",
            kind: ParamKind::UInt,
        },
        1 => ParamMeta {
            label: "Switching Freq",
            unit: "Hz",
            help: "Gate switching frequency (7183-100000 Hz)",
            kind: ParamKind::UInt,
        },
        2 => ParamMeta {
            label: "Dead Time",
            unit: "ns",
            help: "Dead time between switching actions (350-1875 ns)",
            kind: ParamKind::UInt,
        },
        3 => ParamMeta {
            label: "Emulate Hall",
            unit: "",
            help: "Generate hall sensor output signals (do not connect real sensors)",
            kind: ParamKind::Bool,
        },
        4 => ParamMeta {
            label: "Emulated Motor Freq",
            unit: "Hz",
            help: "Electrical rotational frequency for emulated motor (if enabled)",
            kind: ParamKind::UInt,
        },
        5 => ParamMeta {
            label: "Stopped Threshold",
            unit: "ticks",
            help: "Hall ticks without change before motor is considered stopped",
            kind: ParamKind::UInt,
        },
        6 => ParamMeta {
            label: "Turn-Off Mode",
            unit: "",
            help: "How to turn off the motor: COAST (free-wheel) or RAMP",
            kind: ParamKind::TurnOffMode,
        },
        7 => ParamMeta {
            label: "Phase Current Gain",
            unit: "",
            help: "In-line phase current sense amplifier gain (NEVB-MTR1-I56-1: 20)",
            kind: ParamKind::UInt,
        },
        8 => ParamMeta {
            label: "Phase Sense Resistor",
            unit: "uOhm",
            help: "Phase current sense resistor value in micro-ohms (NEVB: 2500)",
            kind: ParamKind::UInt,
        },
        9 => ParamMeta {
            label: "Bus Current Gain",
            unit: "",
            help: "Hi-side bus current sense amplifier gain (NEVB: 50 or 20)",
            kind: ParamKind::UInt,
        },
        10 => ParamMeta {
            label: "Bus Sense Resistor",
            unit: "uOhm",
            help: "Bus current sense resistor value in micro-ohms (NEVB: 4000)",
            kind: ParamKind::UInt,
        },
        11 => ParamMeta {
            label: "Bus Warn Threshold",
            unit: "ADC",
            help: "Bus current warning threshold (ADC 0-1023; 307 = ~7.5 A)",
            kind: ParamKind::UInt,
        },
        12 => ParamMeta {
            label: "Bus Error Threshold",
            unit: "ADC",
            help: "Bus current error threshold (ADC 0-1023; 410 = ~10 A)",
            kind: ParamKind::UInt,
        },
        13 => ParamMeta {
            label: "Bus Fault Enable",
            unit: "",
            help: "Disable all PWM when bus current error threshold exceeded",
            kind: ParamKind::Bool,
        },
        14 => ParamMeta {
            label: "Speed Control Method",
            unit: "",
            help: "Speed control: OPEN LOOP (duty cycle) or CLOSED LOOP (PID)",
            kind: ParamKind::SpeedControlMethod,
        },
        15 => ParamMeta {
            label: "Speed Loop Time Base",
            unit: "ticks",
            help: "PWM ticks between each speed-loop iteration (1-255)",
            kind: ParamKind::UInt,
        },
        16 => ParamMeta {
            label: "Max Speed Delta",
            unit: "",
            help: "Maximum speed reference change per loop iteration (open loop)",
            kind: ParamKind::UInt,
        },
        17 => ParamMeta {
            label: "Max Speed",
            unit: "hall Hz",
            help: "Maximum motor speed setpoint for closed-loop control",
            kind: ParamKind::UInt,
        },
        18 => ParamMeta {
            label: "PID Kp",
            unit: "",
            help: "PID proportional gain constant (closed-loop only, i16)",
            kind: ParamKind::SInt,
        },
        19 => ParamMeta {
            label: "PID Ki",
            unit: "",
            help: "PID integral gain constant (closed-loop only, i16)",
            kind: ParamKind::SInt,
        },
        20 => ParamMeta {
            label: "PID Kd Enable",
            unit: "",
            help: "Enable the derivative term in the PID controller",
            kind: ParamKind::Bool,
        },
        21 => ParamMeta {
            label: "PID Kd",
            unit: "",
            help: "PID derivative gain constant (closed-loop only, i16)",
            kind: ParamKind::SInt,
        },
        22 => ParamMeta {
            label: "VBUS Top Resistor",
            unit: "Ohm",
            help: "Top resistor of the VBUS potential divider (NEVB-MTR1-C-1: 100 kOhm)",
            kind: ParamKind::UInt,
        },
        23 => ParamMeta {
            label: "VBUS Bottom Resistor",
            unit: "Ohm",
            help: "Bottom resistor of the VBUS potential divider (NEVB: 6.2 kOhm)",
            kind: ParamKind::UInt,
        },
        24 => ParamMeta {
            label: "Wait for Board",
            unit: "",
            help: "Wait for the inverter board to be detected before enabling motor",
            kind: ParamKind::Bool,
        },
        _ => ParamMeta {
            label: "Remote Debug Mode",
            unit: "",
            help: "Send errors to serial immediately without waiting for query",
            kind: ParamKind::Bool,
        },
    }
}

/// Every parameter's input kind agrees with how the configuration stores
/// it: switches are `Bool`, PID gains `SInt`, every other one a number that
/// is read as unsigned.
pub proof fn lemma_param_kinds_match_storage(i: int)
    requires
        0 <= i < 26,
    ensures
        (param_kind(i) == ParamKind::Bool) == (field_type(i) == FieldType::Flag),
        (param_kind(i) == ParamKind::SInt) == (field_type(i) == FieldType::Signed),
        (param_kind(i) == ParamKind::UInt || param_kind(i) == ParamKind::TurnOffMode
            || param_kind(i) == ParamKind::SpeedControlMethod) == (field_type(i)
            == FieldType::Unsigned),
{
}

/// The title and the range of parameter indices of group `k`.
pub open spec fn group_spec(k: int) -> (Seq<char>, int, int) {
    if k == 0 {
        ("Motor"@, 0, 7)
    } else if k == 1 {
        ("Phase Current"@, 7, 9)
    } else if k == 2 {
        ("Bus Current"@, 9, 14)
    } else if k == 3 {
        ("Speed Control"@, 14, 18)
    } else if k == 4 {
        ("PID Controller"@, 18, 22)
    } else if k == 5 {
        ("Voltage Sense"@, 22, 24)
    } else {
        ("System"@, 24, 26)
    }
}

/// The groups of the parameter list: a title and the range of parameter
/// indices `start..end` it covers, in order.
pub fn param_groups() -> (g: Vec<(&'static str, usize, usize)>)
    ensures
        g.len() == 7,
        forall|k: int| 0 <= k < 7 ==> (#[trigger] g@[k].0@, g@[k].1 as int, g@[k].2 as int) == group_spec(k),
        g@[0].1 == 0,
        g@[6].2 == 26,
        forall|k: int| 0 <= k < 6 ==> #[trigger] g@[k].2 == g@[k + 1].1,
        forall|k: int| 0 <= k < 7 ==> #[trigger] g@[k].1 < g@[k].2,
{
    let g = vec![
        ("Motor", 0, 7),
        ("Phase Current", 7, 9),
        ("Bus Current", 9, 14),
        ("Speed Control", 14, 18),
        ("PID Controller", 18, 22),
        ("Voltage Sense", 22, 24),
        ("System", 24, 26),
    ];
    g
}

/// The title of a parameter group: the PID group is marked as unused while
/// the speed control is open loop.
pub open spec fn group_title(name: Seq<char>, closed_loop: bool) -> Seq<char> {
    if name == "PID Controller"@ && !closed_loop {
        name + " (open loop - not used)"@
    } else {
        name
    }
}

/// The title of a parameter group (see [`group_title`]).
pub fn param_group_title(name: &str, closed_loop: bool) -> (r: String)
    ensures
        r@ == group_title(name@, closed_loop),
{
    let mut v = chars_of(name);
    if !closed_loop && chars_eq_str(&v, "PID Controller") {
        append_str(&mut v, " (open loop - not used)");
    }
    string_of(&v)
}

/// Parameters of the PID controller, used only in closed-loop speed control.
pub open spec fn is_pid_param(idx: int) -> bool {
    18 <= idx < 22
}

/// Whether parameter `idx` is shown dimmed: the PID parameters while the
/// speed control is open loop.
pub fn param_dimmed(idx: usize, closed_loop: bool) -> (r: bool)
    ensures
        r == (is_pid_param(idx as int) && !closed_loop),
{
    18 <= idx && idx < 22 && !closed_loop
}

/// The label of a parameter: its name, with its unit in brackets when it
/// has one.
pub open spec fn param_label_text(label: Seq<char>, unit: Seq<char>) -> Seq<char> {
    if unit.len() == 0 {
        label
    } else {
        label + " ("@ + unit + ")"@
    }
}

/// The label of a parameter (see [`param_label_text`]).
pub fn param_label(meta: &ParamMeta) -> (r: String)
    ensures
        r@ == param_label_text(meta.label@, meta.unit@),
{
    let mut v = chars_of(meta.label);
    let u = chars_of(meta.unit);
    if u.len() > 0 {
        append_str(&mut v, " (");
        append_str(&mut v, meta.unit);
        append_str(&mut v, ")");
    }
    string_of(&v)
}

/// `s` with ASCII capitals made lower-case.
pub open spec fn ascii_lowercase(s: Seq<char>) -> Seq<char> {
    crate::firmware::config::ascii_lower(s)
}

/// Whether a switch input reads as on: `true` in any letter case, or `1`.
pub fn bool_input_is_true(s: &str) -> (r: bool)
    ensures
        r == (ascii_lowercase(s@) == "true"@ || s@ == "1"@),
{
    let v = chars_of(s);
    let mut l: Vec<char> = Vec::new();
    let mut i: usize = 0;
    while i < v.len()
        invariant
            i <= v.len(),
            l@ == ascii_lowercase(v@.take(i as int)),
        decreases v.len() - i,
    {
        let c = v[i];
        let n = c as u32;
        let k = if 65 <= n && n <= 90 {
            ((n + 32) as u8) as char
        } else {
            c
        };
        l.push(k);
        i = i + 1;
        assert(ascii_lowercase(v@.take(i as int)) =~= ascii_lowercase(v@.take((i - 1) as int)).push(k));
    }
    assert(v@.take(v.len() as int) =~= v@);
    chars_eq_str(&l, "true") || chars_eq_str(&v, "1")
}

/// The Unicode upper-case form of `s`, as `str::to_uppercase` gives it.
pub uninterp spec fn unicode_upper(s: Seq<char>) -> Seq<char>;

/// `str::to_uppercase`: stated as the named upper-case form of its input.
#[verifier::external_body]
fn to_uppercase(s: &str) -> (r: String)
    ensures
        r@ == unicode_upper(s@),
{
    s.to_uppercase()
}

/// A choice input reads as the option `1`, or names it by a word that its
/// upper-case form contains.
pub open spec fn choice_is(s: Seq<char>, word: Seq<char>) -> bool {
    s == "1"@ || has_infix(unicode_upper(s), word)
}

/// Whether a choice input reads as `1` or names `word`.
fn choice_input_is(s: &str, word: &str) -> (r: bool)
    ensures
        r == choice_is(s@, word@),
{
    if chars_eq_str(&chars_of(s), "1") {
        return true;
    }
    let u = to_uppercase(s);
    contains_chars(&chars_of(u.as_str()), &chars_of(word))
}

/// Whether a speed-control input selects closed-loop control.
pub fn speed_method_is_closed(s: &str) -> (r: bool)
    ensures
        r == choice_is(s@, "CLOSED"@),
{
    choice_input_is(s, "CLOSED")
}

/// Whether a turn-off input selects ramping down.
pub fn turn_off_is_ramp(s: &str) -> (r: bool)
    ensures
        r == choice_is(s@, "RAMP"@),
{
    choice_input_is(s, "RAMP")
}

/// Whether the inputs select closed-loop speed control (input 14); false
/// when there is no such input.
pub fn is_closed_loop(inputs: &Vec<String>) -> (r: bool)
    ensures
        r == (inputs.len() > 14 && choice_is(inputs@[14]@, "CLOSED"@)),
{
    if inputs.len() > 14 {
        speed_method_is_closed(inputs[14].as_str())
    } else {
        false
    }
}

// ---------------------------------------------------------------------------
// Loading and flashing a configuration
// ---------------------------------------------------------------------------

/// Where the parameter inputs are loaded from.
#[derive(Debug, Clone, Copy, PartialEq, Eq, Structural)]
pub enum ConfigSource {
    /// The defaults of `main/config.h` in the firmware repository.
    Repo,
    /// The configuration the connected device reports in its IDN serial.
    Device,
}

/// The configuration loaded from `source`: the repository defaults, or the
/// one the device's IDN serial field describes (the defaults when there is
/// no serial field or it cannot be read).
pub open spec fn source_config_of(source: ConfigSource, idn_serial: Option<Seq<char>>) -> FirmwareConfig {
    match source {
        ConfigSource::Repo => repo_defaults(),
        ConfigSource::Device => match idn_serial {
            Some(s) => match parse_idn_serial(s) {
                Some(c) => c,
                None => repo_defaults(),
            },
            None => repo_defaults(),
        },
    }
}

/// The configuration loaded from `source` (see [`source_config_of`]).
pub fn source_config(source: ConfigSource, idn_serial: &Option<String>) -> (c: FirmwareConfig)
    ensures
        c == source_config_of(
            source,
            match idn_serial {
                Some(s) => Some(s@),
                None => None,
            },
        ),
{
    match source {
        ConfigSource::Repo => FirmwareConfig::default(),
        ConfigSource::Device => match idn_serial {
            Some(s) => match FirmwareConfig::from_idn_serial(s.as_str()) {
                Some(c) => c,
                None => FirmwareConfig::default(),
            },
            None => FirmwareConfig::default(),
        },
    }
}

/// The label of parameter `i` in a message (empty past the last one).
pub open spec fn param_label_at(i: int) -> Seq<char> {
    if 0 <= i < 26 {
        param_label_text(param_texts(i).0, param_texts(i).1)
    } else {
        Seq::<char>::empty()
    }
}

/// What pressing "Compile & Upload" asks for: the configuration the inputs
/// describe and the port to flash through; or a message naming the first
/// input that cannot be read, or saying that no port is selected.
pub open spec fn flash_request_of(inputs: Seq<Seq<char>>, port: Option<Seq<char>>) -> Result<
    (FirmwareConfig, Seq<char>),
    Seq<char>,
> {
    match parse_inputs(inputs) {
        Err((i, m)) => Err("Invalid parameter "@ + param_label_at(i) + ": "@ + m),
        Ok(c) => match port {
            Some(p) => Ok((c, p)),
            None => Err("No COM port selected."@),
        },
    }
}

/// What pressing "Compile & Upload" asks for (see [`flash_request_of`]).
pub fn flash_request(inputs: &Vec<String>, selected_port: &Option<String>) -> (r: Result<
    (FirmwareConfig, String),
    String,
>)
    ensures
        match (
            r,
            flash_request_of(
                string_views(inputs@),
                match selected_port {
                    Some(p) => Some(p@),
                    None => None,
                },
            ),
        ) {
            (Ok((c, p)), Ok((c2, p2))) => c == c2 && p@ == p2,
            (Err(m), Err(m2)) => m@ == m2,
            _ => false,
        },
{
    match FirmwareConfig::try_from_inputs(inputs.as_slice()) {
        Err((idx, msg)) => {
            let mut v = chars_of("Invalid parameter ");
            if idx < 26 {
                let label = param_label(&param_meta(idx));
                append_str(&mut v, label.as_str());
            }
            append_str(&mut v, ": ");
            append_str(&mut v, msg.as_str());
            Err(string_of(&v))
        },
        Ok(c) => match selected_port {
            Some(p) => Ok((c, string_of(&chars_of(p.as_str())))),
            None => Err(string_of(&chars_of("No COM port selected."))),
        },
    }
}

} // verus!
