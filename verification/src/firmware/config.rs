//! `FirmwareConfig`: the 26 user-settable parameters of `main/config.h`, and
//! their two text encodings (the `*IDN?` serial field and the UI inputs).

use vstd::prelude::*;

use crate::text::{
    all_digits, dec_digits, digits_value, hex_chars, hex_digits, join, join_chars,
    lemma_hex_digits, lemma_parse_hex, parse_i32, parse_u32_radix, parse_unsigned, split,
    split_chars, string_of, trim, trim_chars, views,
};

verus! {

/// All 26 user-configurable parameters in the NEVC-MTR1 firmware.
/// The field order matches the IDN serial hex-field index order.
#[derive(Debug, Clone, Copy, PartialEq, Eq, Structural)]
pub struct FirmwareConfig {
    // [0] Motor
    pub motor_poles: u32,
    // [1] Gate switching frequency (Hz)
    pub f_mosfet: u32,
    // [2] Dead-time between switching actions (ns)
    pub dead_time: u32,
    // [3] Emulate hall effect sensor signals (bool)
    pub emulate_hall: bool,
    // [4] Electrical rotational frequency for emulated motor (Hz)
    pub tim3_freq: u32,
    // [5] Ticks without hall change before motor considered stopped
    pub commutation_ticks_stopped: u32,
    // [6] Turn-off mode: 0=COAST, 1=RAMP
    pub turn_off_mode: u32,
    // [7] In-line phase current sense amplifier gain
    pub iphase_gain: u32,
    // [8] Phase current sense resistor value (µΩ)
    pub iphase_sense_resistor: u32,
    // [9] Hi-side bus current sense amplifier gain
    pub ibus_gain: u32,
    // [10] Bus current sense resistor value (µΩ)
    pub ibus_sense_resistor: u32,
    // [11] Bus current warning threshold (ADC register, 0–1023)
    pub ibus_warning_threshold: u32,
    // [12] Bus current error threshold (ADC register, 0–1023)
    pub ibus_error_threshold: u32,
    // [13] Enable protective action when error threshold exceeded (bool)
    pub ibus_fault_enable: bool,
    // [14] Speed control method: 0=OPEN_LOOP, 1=CLOSED_LOOP
    pub speed_control_method: u32,
    // [15] Speed controller loop period (PWM ticks, 1–255)
    pub speed_controller_time_base: u32,
    // [16] Max speed reference change per loop iteration (open loop)
    pub speed_controller_max_delta: u32,
    // [17] Maximum motor speed setpoint for closed-loop control (hall Hz)
    pub speed_controller_max_speed: u32,
    // [18] PID proportional gain (i16 range)
    pub pid_k_p: i32,
    // [19] PID integral gain (i16 range)
    pub pid_k_i: i32,
    // [20] Enable derivative term in PID (bool)
    pub pid_k_d_enable: bool,
    // [21] PID derivative gain (i16 range)
    pub pid_k_d: i32,
    // [22] VBUS divider top resistor (Ω)
    pub vbus_rtop: u32,
    // [23] VBUS divider bottom resistor (Ω)
    pub vbus_rbottom: u32,
    // [24] Wait for inverter board connection before starting (bool)
    pub wait_for_board: bool,
    // [25] Report errors immediately over serial without query (bool)
    pub remote_debug_mode: bool,
}

/// The repo defaults from `main/config.h` on the main branch.
pub open spec fn repo_defaults() -> FirmwareConfig {
    FirmwareConfig {
        motor_poles: 8,
        f_mosfet: 20000,
        dead_time: 350,
        emulate_hall: false,
        tim3_freq: 200,
        commutation_ticks_stopped: 6000,
        turn_off_mode: 1,
        iphase_gain: 20,
        iphase_sense_resistor: 2500,
        ibus_gain: 50,
        ibus_sense_resistor: 4000,
        ibus_warning_threshold: 307,
        ibus_error_threshold: 410,
        ibus_fault_enable: true,
        speed_control_method: 0,
        speed_controller_time_base: 200,
        speed_controller_max_delta: 1,
        speed_controller_max_speed: 400,
        pid_k_p: 100,
        pid_k_i: 10,
        pid_k_d_enable: true,
        pid_k_d: 0,
        vbus_rtop: 100000,
        vbus_rbottom: 6200,
        wait_for_board: true,
        remote_debug_mode: false,
    }
}

impl Default for FirmwareConfig {
    /// Repo defaults from main/config.h on the main branch.
    fn default() -> (r: Self)
        ensures
            r == repo_defaults(),
    {
        Self {
            motor_poles: 8,
            f_mosfet: 20000,
            dead_time: 350,
            emulate_hall: false,
            tim3_freq: 200,
            commutation_ticks_stopped: 6000,
            turn_off_mode: 1,  // TURN_OFF_MODE_RAMP
            iphase_gain: 20,
            iphase_sense_resistor: 2500,
            ibus_gain: 50,
            ibus_sense_resistor: 4000,
            ibus_warning_threshold: 307,
            ibus_error_threshold: 410,
            ibus_fault_enable: true,
            speed_control_method: 0,  // SPEED_CONTROL_OPEN_LOOP
            speed_controller_time_base: 200,
            speed_controller_max_delta: 1,
            speed_controller_max_speed: 400,
            pid_k_p: 100,
            pid_k_i: 10,
            pid_k_d_enable: true,
            pid_k_d: 0,
            vbus_rtop: 100000,
            vbus_rbottom: 6200,
            wait_for_board: true,
            remote_debug_mode: false,
        }
    }
}

/// The number of parameters.
pub const NUM_PARAMS: usize = 26;

/// How a parameter is stored.
#[derive(Debug, Clone, Copy, PartialEq, Eq, Structural)]
pub enum FieldType {
    /// An unsigned 32-bit number.
    Unsigned,
    /// A signed number (the PID gains, `i16` on the device).
    Signed,
    /// A boolean switch.
    Flag,
}

/// The storage of parameter `i`.
pub open spec fn field_type(i: int) -> FieldType {
    if i == 3 || i == 13 || i == 20 || i == 24 || i == 25 {
        FieldType::Flag
    } else if i == 18 || i == 19 || i == 21 {
        FieldType::Signed
    } else {
        FieldType::Unsigned
    }
}

/// The storage of parameter `i`.
pub fn field_type_of(i: usize) -> (t: FieldType)
    ensures
        t == field_type(i as int),
{
    if i == 3 || i == 13 || i == 20 || i == 24 || i == 25 {
        FieldType::Flag
    } else if i == 18 || i == 19 || i == 21 {
        FieldType::Signed
    } else {
        FieldType::Unsigned
    }
}

/// A switch as a number: one when on, zero when off.
pub open spec fn flag_value(b: bool) -> int {
    if b {
        1
    } else {
        0
    }
}

/// The value of parameter `i` as a number (switches as zero or one).
pub open spec fn field_value(c: FirmwareConfig, i: int) -> int {
    if i == 0 {
        c.motor_poles as int
    } else if i == 1 {
        c.f_mosfet as int
    } else if i == 2 {
        c.dead_time as int
    } else if i == 3 {
        flag_value(c.emulate_hall)
    } else if i == 4 {
        c.tim3_freq as int
    } else if i == 5 {
        c.commutation_ticks_stopped as int
    } else if i == 6 {
        c.turn_off_mode as int
    } else if i == 7 {
        c.iphase_gain as int
    } else if i == 8 {
        c.iphase_sense_resistor as int
    } else if i == 9 {
        c.ibus_gain as int
    } else if i == 10 {
        c.ibus_sense_resistor as int
    } else if i == 11 {
        c.ibus_warning_threshold as int
    } else if i == 12 {
        c.ibus_error_threshold as int
    } else if i == 13 {
        flag_value(c.ibus_fault_enable)
    } else if i == 14 {
        c.speed_control_method as int
    } else if i == 15 {
        c.speed_controller_time_base as int
    } else if i == 16 {
        c.speed_controller_max_delta as int
    } else if i == 17 {
        c.speed_controller_max_speed as int
    } else if i == 18 {
        c.pid_k_p as int
    } else if i == 19 {
        c.pid_k_i as int
    } else if i == 20 {
        flag_value(c.pid_k_d_enable)
    } else if i == 21 {
        c.pid_k_d as int
    } else if i == 22 {
        c.vbus_rtop as int
    } else if i == 23 {
        c.vbus_rbottom as int
    } else if i == 24 {
        flag_value(c.wait_for_board)
    } else {
        flag_value(c.remote_debug_mode)
    }
}

/// The parameter values of `c`, in index order.
pub open spec fn field_values(c: FirmwareConfig) -> Seq<int> {
    Seq::new(26, |i: int| field_value(c, i))
}

/// `x` is a value that a parameter of storage `t` can hold.
pub open spec fn value_fits(t: FieldType, x: int) -> bool {
    match t {
        FieldType::Unsigned => 0 <= x <= 0xffff_ffff,
        FieldType::Signed => -0x8000_0000 <= x <= 0x7fff_ffff,
        FieldType::Flag => x == 0 || x == 1,
    }
}

/// The configuration whose parameter values are `v` (switches are on when
/// their value is not zero).
pub open spec fn config_from_values(v: Seq<int>) -> FirmwareConfig {
    FirmwareConfig {
        motor_poles: v[0] as u32,
        f_mosfet: v[1] as u32,
        dead_time: v[2] as u32,
        emulate_hall: v[3] != 0,
        tim3_freq: v[4] as u32,
        commutation_ticks_stopped: v[5] as u32,
        turn_off_mode: v[6] as u32,
        iphase_gain: v[7] as u32,
        iphase_sense_resistor: v[8] as u32,
        ibus_gain: v[9] as u32,
        ibus_sense_resistor: v[10] as u32,
        ibus_warning_threshold: v[11] as u32,
        ibus_error_threshold: v[12] as u32,
        ibus_fault_enable: v[13] != 0,
        speed_control_method: v[14] as u32,
        speed_controller_time_base: v[15] as u32,
        speed_controller_max_delta: v[16] as u32,
        speed_controller_max_speed: v[17] as u32,
        pid_k_p: v[18] as i32,
        pid_k_i: v[19] as i32,
        pid_k_d_enable: v[20] != 0,
        pid_k_d: v[21] as i32,
        vbus_rtop: v[22] as u32,
        vbus_rbottom: v[23] as u32,
        wait_for_board: v[24] != 0,
        remote_debug_mode: v[25] != 0,
    }
}

/// The values of a vector of machine numbers.
pub open spec fn ints(v: Seq<i64>) -> Seq<int> {
    v.map_values(|x: i64| x as int)
}

proof fn lemma_config_from_field_values(c: FirmwareConfig)
    ensures
        config_from_values(field_values(c)) == c,
        forall|i: int| 0 <= i < 26 ==> value_fits(field_type(i), #[trigger] field_value(c, i)),
{
}

impl FirmwareConfig {
    /// The value of parameter `i` (see [`field_value`]).
    pub fn field(&self, i: usize) -> (x: i64)
        requires
            i < 26,
        ensures
            x as int == field_value(*self, i as int),
    {
        let b = |v: bool| -> (r: i64)
            ensures
                r as int == flag_value(v),
            {
                if v {
                    1
                } else {
                    0
                }
            };
        match i {
            0 => self.motor_poles as i64,
            1 => self.f_mosfet as i64,
            2 => self.dead_time as i64,
            3 => b(self.emulate_hall),
            4 => self.tim3_freq as i64,
            5 => self.commutation_ticks_stopped as i64,
            6 => self.turn_off_mode as i64,
            7 => self.iphase_gain as i64,
            8 => self.iphase_sense_resistor as i64,
            9 => self.ibus_gain as i64,
            10 => self.ibus_sense_resistor as i64,
            11 => self.ibus_warning_threshold as i64,
            12 => self.ibus_error_threshold as i64,
            13 => b(self.ibus_fault_enable),
            14 => self.speed_control_method as i64,
            15 => self.speed_controller_time_base as i64,
            16 => self.speed_controller_max_delta as i64,
            17 => self.speed_controller_max_speed as i64,
            18 => self.pid_k_p as i64,
            19 => self.pid_k_i as i64,
            20 => b(self.pid_k_d_enable),
            21 => self.pid_k_d as i64,
            22 => self.vbus_rtop as i64,
            23 => self.vbus_rbottom as i64,
            24 => b(self.wait_for_board),
            _ => b(self.remote_debug_mode),
        }
    }

    /// The configuration whose parameter values are `v`.
    fn from_values(v: &Vec<i64>) -> (c: Self)
        requires
            v.len() == 26,
            forall|i: int| 0 <= i < 26 ==> value_fits(field_type(i), #[trigger] v@[i] as int),
        ensures
            c == config_from_values(ints(v@)),
    {
        assert(value_fits(field_type(0), v@[0] as int));
        assert(value_fits(field_type(1), v@[1] as int));
        assert(value_fits(field_type(2), v@[2] as int));
        assert(value_fits(field_type(4), v@[4] as int));
        assert(value_fits(field_type(5), v@[5] as int));
        assert(value_fits(field_type(6), v@[6] as int));
        assert(value_fits(field_type(7), v@[7] as int));
        assert(value_fits(field_type(8), v@[8] as int));
        assert(value_fits(field_type(9), v@[9] as int));
        assert(value_fits(field_type(10), v@[10] as int));
        assert(value_fits(field_type(11), v@[11] as int));
        assert(value_fits(field_type(12), v@[12] as int));
        assert(value_fits(field_type(14), v@[14] as int));
        assert(value_fits(field_type(15), v@[15] as int));
        assert(value_fits(field_type(16), v@[16] as int));
        assert(value_fits(field_type(17), v@[17] as int));
        assert(value_fits(field_type(18), v@[18] as int));
        assert(value_fits(field_type(19), v@[19] as int));
        assert(value_fits(field_type(21), v@[21] as int));
        assert(value_fits(field_type(22), v@[22] as int));
        assert(value_fits(field_type(23), v@[23] as int));
        FirmwareConfig {
            motor_poles: v[0] as u32,
            f_mosfet: v[1] as u32,
            dead_time: v[2] as u32,
            emulate_hall: v[3] != 0,
            tim3_freq: v[4] as u32,
            commutation_ticks_stopped: v[5] as u32,
            turn_off_mode: v[6] as u32,
            iphase_gain: v[7] as u32,
            iphase_sense_resistor: v[8] as u32,
            ibus_gain: v[9] as u32,
            ibus_sense_resistor: v[10] as u32,
            ibus_warning_threshold: v[11] as u32,
            ibus_error_threshold: v[12] as u32,
            ibus_fault_enable: v[13] != 0,
            speed_control_method: v[14] as u32,
            speed_controller_time_base: v[15] as u32,
            speed_controller_max_delta: v[16] as u32,
            speed_controller_max_speed: v[17] as u32,
            pid_k_p: v[18] as i32,
            pid_k_i: v[19] as i32,
            pid_k_d_enable: v[20] != 0,
            pid_k_d: v[21] as i32,
            vbus_rtop: v[22] as u32,
            vbus_rbottom: v[23] as u32,
            wait_for_board: v[24] != 0,
            remote_debug_mode: v[25] != 0,
        }
    }
}


// ---------------------------------------------------------------------------
// The IDN serial field: 26 hyphen-separated hexadecimal values
// ---------------------------------------------------------------------------

/// The 16-bit two's complement pattern of `v` (`(v as i16) as u16`).
pub open spec fn u16_bits(v: int) -> nat {
    (v % 0x1_0000) as nat
}

/// The signed number whose 16-bit two's complement pattern is the low
/// 16 bits of `x` (`(x as u16) as i16 as i32`).
pub open spec fn from_u16_bits(x: int) -> int {
    let m = x % 0x1_0000;
    if m >= 0x8000 {
        m - 0x1_0000
    } else {
        m
    }
}

/// The 16-bit pattern of a signed number.
fn to_u16_bits_exec(v: i64) -> (r: u64)
    requires
        -0x8000_0000 <= v <= 0x7fff_ffff,
    ensures
        r as int == u16_bits(v as int),
{
    if v >= 0 {
        (v as u64) % 0x1_0000
    } else {
        let a = ((0 - v) as u64) % 0x1_0000;
        if a == 0 {
            0
        } else {
            0x1_0000 - a
        }
    }
}

/// The signed number of a 16-bit pattern.
fn from_u16_bits_exec(x: u32) -> (r: i64)
    ensures
        r as int == from_u16_bits(x as int),
        -0x8000 <= r < 0x8000,
{
    let m = (x % 0x1_0000) as i64;
    if m >= 0x8000 {
        m - 0x1_0000
    } else {
        m
    }
}

/// The IDN text of a parameter value: upper-case hexadecimal without leading
/// zeros; a signed value as its 16-bit pattern, a switch as `1` or `0`.
pub open spec fn idn_text(t: FieldType, x: int) -> Seq<char> {
    match t {
        FieldType::Signed => hex_digits(u16_bits(x)),
        _ => hex_digits(x as nat),
    }
}

/// The 26 fields of the IDN serial of `c`.
pub open spec fn idn_serial_fields(c: FirmwareConfig) -> Seq<Seq<char>> {
    Seq::new(26, |i: int| idn_text(field_type(i), field_value(c, i)))
}

/// The IDN serial of `c`: its fields joined with `-`.
pub open spec fn idn_serial(c: FirmwareConfig) -> Seq<char> {
    join(idn_serial_fields(c), seq!['-'])
}

/// The value that an IDN field gives a parameter of storage `t`: the
/// trimmed field read as hexadecimal `u32`; a signed parameter takes the
/// 16-bit two's complement of the low 16 bits, a switch is on when the
/// number is not zero.
pub open spec fn idn_field(t: FieldType, s: Seq<char>) -> Option<int> {
    match parse_unsigned(trim(s), 16, 0xffff_ffff) {
        None => None,
        Some(v) => Some(
            match t {
                FieldType::Unsigned => v as int,
                FieldType::Signed => from_u16_bits(v as int),
                FieldType::Flag => if v != 0 {
                    1
                } else {
                    0
                },
            },
        ),
    }
}

/// The values of the first `n` IDN fields, if all of them can be read.
pub open spec fn idn_values(fields: Seq<Seq<char>>, n: nat) -> Option<Seq<int>>
    decreases n,
{
    if n == 0 {
        Some(Seq::<int>::empty())
    } else {
        match idn_values(fields, (n - 1) as nat) {
            None => None,
            Some(vs) => match idn_field(field_type(n - 1), fields[n - 1]) {
                None => None,
                Some(x) => Some(vs.push(x)),
            },
        }
    }
}

/// The configuration an IDN serial describes: at least 26 `-`-separated
/// fields, the first 26 of which must all be readable.
pub open spec fn parse_idn_serial(serial: Seq<char>) -> Option<FirmwareConfig> {
    let fields = split(serial, '-');
    if fields.len() < 26 {
        None
    } else {
        match idn_values(fields, 26) {
            Some(vs) => Some(config_from_values(vs)),
            None => None,
        }
    }
}

proof fn lemma_idn_values_none(fields: Seq<Seq<char>>, n: nat, m: nat)
    requires
        n <= m,
        idn_values(fields, n) is None,
    ensures
        idn_values(fields, m) is None,
    decreases m - n,
{
    if n < m {
        lemma_idn_values_none(fields, n, (m - 1) as nat);
    }
}

impl FirmwareConfig {
    /// Parse a 26-field hyphen-separated hex IDN serial string.
    /// Each hex field maps 1:1 to the struct fields in index order.
    pub fn from_idn_serial(serial: &str) -> (r: Option<Self>)
        ensures
            r == parse_idn_serial(serial@),
    {
        let v = crate::text::chars_of(serial);
        let fields = split_chars(&v, '-');
        if fields.len() < 26 {
            return None;
        }
        let ghost fs = views(fields@);
        let mut vals: Vec<i64> = Vec::new();
        let mut i: usize = 0;
        while i < 26
            invariant
                i <= 26 <= fields.len(),
                fs == views(fields@),
                fs == split(serial@, '-'),
                vals.len() == i,
                idn_values(fs, i as nat) == Some(ints(vals@)),
                forall|j: int| 0 <= j < i ==> value_fits(field_type(j), #[trigger] vals@[j] as int),
            decreases 26 - i,
        {
            let t = trim_chars(&fields[i]);
            assert(fs[i as int] == fields@[i as int]@);
            let ty = field_type_of(i);
            match parse_u32_radix(&t, 16) {
                None => {
                    proof {
                        assert(idn_field(field_type(i as int), fs[i as int]) is None);
                        assert(idn_values(fs, (i + 1) as nat) is None);
                        lemma_idn_values_none(fs, (i + 1) as nat, 26);
                    }
                    return None;
                },
                Some(x) => {
                    let val: i64 = match ty {
                        FieldType::Unsigned => x as i64,
                        FieldType::Signed => from_u16_bits_exec(x),
                        FieldType::Flag => if x != 0 {
                            1
                        } else {
                            0
                        },
                    };
                    let ghost before = vals@;
                    vals.push(val);
                    assert(ints(vals@) =~= ints(before).push(val as int));
                },
            }
            i = i + 1;
        }
        Some(Self::from_values(&vals))
    }

    /// Produce the 26-field hex IDN serial string for this config.
    pub fn to_idn_serial(&self) -> (r: String)
        ensures
            r@ == idn_serial(*self),
    {
        let mut parts: Vec<Vec<char>> = Vec::new();
        let mut i: usize = 0;
        proof {
            lemma_config_from_field_values(*self);
        }
        while i < 26
            invariant
                i <= 26,
                views(parts@) == idn_serial_fields(*self).take(i as int),
            decreases 26 - i,
        {
            let x = self.field(i);
            assert(value_fits(field_type(i as int), field_value(*self, i as int)));
            let text = match field_type_of(i) {
                FieldType::Signed => hex_chars(to_u16_bits_exec(x)),
                _ => hex_chars(x as u64),
            };
            let ghost before = views(parts@);
            parts.push(text);
            assert(views(parts@) =~= before.push(idn_serial_fields(*self)[i as int]));
            assert(idn_serial_fields(*self).take(i + 1) =~= idn_serial_fields(*self).take(
                i as int,
            ).push(idn_serial_fields(*self)[i as int]));
            i = i + 1;
        }
        assert(idn_serial_fields(*self).take(26) =~= idn_serial_fields(*self));
        let sep = vec!['-'];
        assert(sep@ =~= seq!['-']);
        let j = join_chars(&parts, &sep);
        string_of(&j)
    }
}

/// `c` with each PID gain replaced by the `i16` that the device stores for
/// it (the 16-bit two's complement of its low 16 bits).
pub open spec fn with_device_gains(c: FirmwareConfig) -> FirmwareConfig {
    FirmwareConfig {
        pid_k_p: from_u16_bits(u16_bits(c.pid_k_p as int) as int) as i32,
        pid_k_i: from_u16_bits(u16_bits(c.pid_k_i as int) as int) as i32,
        pid_k_d: from_u16_bits(u16_bits(c.pid_k_d as int) as int) as i32,
        ..c
    }
}

/// The value parameter `i` has after a trip through the device.
pub open spec fn device_value(c: FirmwareConfig, i: int) -> int {
    match field_type(i) {
        FieldType::Signed => from_u16_bits(u16_bits(field_value(c, i)) as int),
        _ => field_value(c, i),
    }
}

proof fn lemma_idn_field_of_text(c: FirmwareConfig, i: int)
    requires
        0 <= i < 26,
    ensures
        idn_field(field_type(i), idn_text(field_type(i), field_value(c, i))) == Some(
            device_value(c, i),
        ),
        !idn_text(field_type(i), field_value(c, i)).contains('-'),
{
    lemma_config_from_field_values(c);
    let x = field_value(c, i);
    assert(value_fits(field_type(i), x));
    match field_type(i) {
        FieldType::Signed => {
            lemma_parse_hex(u16_bits(x), 0xffff_ffff);
        },
        _ => {
            lemma_parse_hex(x as nat, 0xffff_ffff);
        },
    }
}

proof fn lemma_idn_values_of_fields(c: FirmwareConfig, n: nat)
    requires
        n <= 26,
    ensures
        idn_values(idn_serial_fields(c), n) == Some(Seq::new(n, |i: int| device_value(c, i))),
    decreases n,
{
    if n > 0 {
        lemma_idn_values_of_fields(c, (n - 1) as nat);
        lemma_idn_field_of_text(c, n - 1);
        assert(Seq::new((n - 1) as nat, |i: int| device_value(c, i)).push(device_value(c, n - 1))
            =~= Seq::new(n, |i: int| device_value(c, i)));
    } else {
        assert(Seq::new(0, |i: int| device_value(c, i)) =~= Seq::<int>::empty());
    }
}

/// Reading back the IDN serial of a configuration gives that configuration,
/// except that each PID gain comes back as the `i16` the device stores.
pub proof fn lemma_idn_serial_roundtrip(c: FirmwareConfig)
    ensures
        parse_idn_serial(idn_serial(c)) == Some(with_device_gains(c)),
{
    let fields = idn_serial_fields(c);
    assert forall|i: int| 0 <= i < fields.len() implies !(#[trigger] fields[i]).contains('-') by {
        lemma_idn_field_of_text(c, i);
    }
    crate::text::lemma_split_join(fields, '-');
    lemma_idn_values_of_fields(c, 26);
    lemma_config_from_field_values(c);
    let vs = Seq::new(26, |i: int| device_value(c, i));
    assert(config_from_values(vs) == with_device_gains(c));
}

/// When every PID gain lies in the `i16` range, reading back the IDN serial
/// of a configuration gives exactly that configuration.
pub proof fn lemma_idn_serial_roundtrip_exact(c: FirmwareConfig)
    requires
        -0x8000 <= c.pid_k_p < 0x8000,
        -0x8000 <= c.pid_k_i < 0x8000,
        -0x8000 <= c.pid_k_d < 0x8000,
    ensures
        parse_idn_serial(idn_serial(c)) == Some(c),
{
    lemma_idn_serial_roundtrip(c);
    assert(with_device_gains(c) == c);
}


// ---------------------------------------------------------------------------
// The text inputs of the configuration panel
// ---------------------------------------------------------------------------

/// The input text of a parameter value: a switch as `true` or `false`, a
/// number in decimal.
pub open spec fn input_text(t: FieldType, x: int) -> Seq<char> {
    match t {
        FieldType::Flag => if x != 0 {
            "true"@
        } else {
            "false"@
        },
        _ => crate::text::signed_dec(x),
    }
}

/// The 26 input texts of `c`, in index order.
pub open spec fn input_texts(c: FirmwareConfig) -> Seq<Seq<char>> {
    Seq::new(26, |i: int| input_text(field_type(i), field_value(c, i)))
}

/// The views of a sequence of strings.
pub open spec fn string_views(v: Seq<String>) -> Seq<Seq<char>> {
    v.map_values(|s: String| s@)
}

/// `s` with the ASCII capitals made lower-case.
pub open spec fn ascii_lower(s: Seq<char>) -> Seq<char> {
    s.map_values(|c: char| if 65 <= (c as u32) <= 90 { ((c as u32) + 32) as char } else { c })
}

/// The value that an input text gives a parameter of storage `t`. The text
/// is trimmed; a number is read in decimal (`str::parse`), a switch accepts
/// `true`/`1` and `false`/`0` in any letter case. (For these words, comparing
/// ASCII lower case is the same as comparing the Unicode lower-case form.)
pub open spec fn input_field(t: FieldType, s: Seq<char>) -> Option<int> {
    match t {
        FieldType::Unsigned => match parse_unsigned(trim(s), 10, 0xffff_ffff) {
            Some(v) => Some(v as int),
            None => None,
        },
        FieldType::Signed => parse_i32(trim(s)),
        FieldType::Flag => {
            let l = ascii_lower(trim(s));
            if l == "true"@ || l == "1"@ {
                Some(1)
            } else if l == "false"@ || l == "0"@ {
                Some(0)
            } else {
                None
            }
        },
    }
}

/// The values of the first `n` inputs, or the index of the first one that
/// cannot be read.
pub open spec fn input_values(inputs: Seq<Seq<char>>, n: nat) -> Result<Seq<int>, int>
    decreases n,
{
    if n == 0 {
        Ok(Seq::<int>::empty())
    } else {
        match input_values(inputs, (n - 1) as nat) {
            Err(e) => Err(e),
            Ok(vs) => match input_field(field_type(n - 1), inputs[n - 1]) {
                None => Err(n - 1),
                Some(x) => Ok(vs.push(x)),
            },
        }
    }
}

/// The message for an input that cannot be read, quoting it as it was
/// given.
pub open spec fn input_error(t: FieldType, raw: Seq<char>) -> Seq<char> {
    "'"@ + raw + match t {
        FieldType::Unsigned => "' is not a valid unsigned integer"@,
        FieldType::Signed => "' is not a valid integer"@,
        FieldType::Flag => "' is not true/false"@,
    }
}

/// The configuration the inputs describe, or the index and message of the
/// first input that cannot be read. Fewer than 26 inputs are refused as a
/// whole; inputs past the 26th are ignored.
pub open spec fn parse_inputs(inputs: Seq<Seq<char>>) -> Result<FirmwareConfig, (int, Seq<char>)> {
    if inputs.len() < 26 {
        Err((0, "Not enough parameter inputs"@))
    } else {
        match input_values(inputs, 26) {
            Ok(vs) => Ok(config_from_values(vs)),
            Err(i) => Err((i, input_error(field_type(i), inputs[i]))),
        }
    }
}

proof fn lemma_input_values_err(inputs: Seq<Seq<char>>, n: nat, m: nat, e: int)
    requires
        n <= m,
        input_values(inputs, n) == Err::<Seq<int>, int>(e),
    ensures
        input_values(inputs, m) == Err::<Seq<int>, int>(e),
    decreases m - n,
{
    if n < m {
        lemma_input_values_err(inputs, n, (m - 1) as nat, e);
    }
}

/// `v` with the ASCII capitals made lower-case.
fn ascii_lower_chars(v: &Vec<char>) -> (r: Vec<char>)
    ensures
        r@ == ascii_lower(v@),
{
    let mut r: Vec<char> = Vec::new();
    let mut i: usize = 0;
    while i < v.len()
        invariant
            i <= v.len(),
            r@ == ascii_lower(v@.take(i as int)),
        decreases v.len() - i,
    {
        let c = v[i];
        let n = c as u32;
        let l = if 65 <= n && n <= 90 {
            char_from_ascii_capital(n)
        } else {
            c
        };
        r.push(l);
        i = i + 1;
        assert(ascii_lower(v@.take(i as int)) =~= ascii_lower(v@.take((i - 1) as int)).push(l));
    }
    assert(v@.take(v.len() as int) =~= v@);
    r
}

/// The lower-case letter of an ASCII capital's code.
fn char_from_ascii_capital(n: u32) -> (c: char)
    requires
        65 <= n <= 90,
    ensures
        c == ((n + 32) as char),
{
    ((n + 32) as u8) as char
}

/// Reads one input as a parameter of storage `t`.
fn read_input(t: FieldType, raw: &Vec<char>) -> (r: Option<i64>)
    ensures
        match r {
            Some(x) => input_field(t, raw@) == Some(x as int) && value_fits(t, x as int),
            None => input_field(t, raw@) is None,
        },
{
    let s = trim_chars(raw);
    match t {
        FieldType::Unsigned => match parse_u32_radix(&s, 10) {
            Some(x) => Some(x as i64),
            None => None,
        },
        FieldType::Signed => match crate::text::parse_i32_dec(&s) {
            Some(x) => Some(x as i64),
            None => None,
        },
        FieldType::Flag => {
            let l = ascii_lower_chars(&s);
            if crate::text::chars_eq_str(&l, "true") || crate::text::chars_eq_str(&l, "1") {
                Some(1)
            } else if crate::text::chars_eq_str(&l, "false") || crate::text::chars_eq_str(&l, "0") {
                Some(0)
            } else {
                None
            }
        },
    }
}

/// The message for an unreadable input (see [`input_error`]).
fn input_error_message(t: FieldType, raw: &str) -> (m: String)
    ensures
        m@ == input_error(t, raw@),
{
    let mut v: Vec<char> = Vec::new();
    crate::text::append_str(&mut v, "'");
    crate::text::append_str(&mut v, raw);
    match t {
        FieldType::Unsigned => crate::text::append_str(&mut v, "' is not a valid unsigned integer"),
        FieldType::Signed => crate::text::append_str(&mut v, "' is not a valid integer"),
        FieldType::Flag => crate::text::append_str(&mut v, "' is not true/false"),
    }
    string_of(&v)
}

impl FirmwareConfig {
    /// Convert the config into a 26-element Vec of display strings for UI text inputs.
    pub fn to_input_strings(&self) -> (r: Vec<String>)
        ensures
            string_views(r@) == input_texts(*self),
    {
        let mut r: Vec<String> = Vec::new();
        let mut i: usize = 0;
        proof {
            lemma_config_from_field_values(*self);
        }
        while i < 26
            invariant
                i <= 26,
                string_views(r@) == input_texts(*self).take(i as int),
            decreases 26 - i,
        {
            let x = self.field(i);
            assert(value_fits(field_type(i as int), field_value(*self, i as int)));
            let text: Vec<char> = match field_type_of(i) {
                FieldType::Flag => if x != 0 {
                    crate::text::chars_of("true")
                } else {
                    crate::text::chars_of("false")
                },
                _ => crate::text::signed_dec_chars(x),
            };
            let ghost before = string_views(r@);
            r.push(string_of(&text));
            assert(string_views(r@) =~= before.push(input_texts(*self)[i as int]));
            assert(input_texts(*self).take(i + 1) =~= input_texts(*self).take(i as int).push(
                input_texts(*self)[i as int],
            ));
            i = i + 1;
        }
        assert(input_texts(*self).take(26) =~= input_texts(*self));
        r
    }

    /// Try to parse 26 input strings back into a `FirmwareConfig`.
    /// Returns `Err` with index and message of the first field that fails to parse.
    pub fn try_from_inputs(inputs: &[String]) -> (r: Result<Self, (usize, String)>)
        ensures
            match r {
                Ok(c) => parse_inputs(string_views(inputs@)) == Ok::<FirmwareConfig, (int, Seq<char>)>(c),
                Err((i, m)) => parse_inputs(string_views(inputs@)) == Err::<FirmwareConfig, (int, Seq<char>)>((i as int, m@)),
            },
    {
        let ghost ins = string_views(inputs@);
        if inputs.len() < 26 {
            let mut v: Vec<char> = Vec::new();
            crate::text::append_str(&mut v, "Not enough parameter inputs");
            assert(v@ =~= "Not enough parameter inputs"@);
            return Err((0, string_of(&v)));
        }
        let mut vals: Vec<i64> = Vec::new();
        let mut i: usize = 0;
        assert(ints(vals@) =~= Seq::<int>::empty());
        while i < 26
            invariant
                i <= 26 <= inputs.len(),
                ins == string_views(inputs@),
                vals.len() == i,
                input_values(ins, i as nat) == Ok::<Seq<int>, int>(ints(vals@)),
                forall|j: int| 0 <= j < i ==> value_fits(field_type(j), #[trigger] vals@[j] as int),
            decreases 26 - i,
        {
            let raw = crate::text::chars_of(inputs[i].as_str());
            assert(ins[i as int] == raw@);
            let ty = field_type_of(i);
            match read_input(ty, &raw) {
                None => {
                    proof {
                        assert(input_values(ins, (i + 1) as nat) == Err::<Seq<int>, int>(i as int));
                        lemma_input_values_err(ins, (i + 1) as nat, 26, i as int);
                    }
                    let m = input_error_message(ty, inputs[i].as_str());
                    return Err((i, m));
                },
                Some(x) => {
                    let ghost before = vals@;
                    vals.push(x);
                    assert(ints(vals@) =~= ints(before).push(x as int));
                },
            }
            i = i + 1;
        }
        Ok(Self::from_values(&vals))
    }
}

proof fn lemma_input_field_of_text(c: FirmwareConfig, i: int)
    requires
        0 <= i < 26,
    ensures
        input_field(field_type(i), input_text(field_type(i), field_value(c, i))) == Some(
            field_value(c, i),
        ),
{
    lemma_config_from_field_values(c);
    let x = field_value(c, i);
    assert(value_fits(field_type(i), x));
    match field_type(i) {
        FieldType::Unsigned => {
            crate::text::lemma_parse_dec(x as nat, 0xffff_ffff);
            crate::text::lemma_dec_digits(x as nat);
            crate::text::lemma_digits_plain(dec_digits(x as nat), 10);
        },
        FieldType::Signed => {
            crate::text::lemma_parse_signed_dec(x);
        },
        FieldType::Flag => {
            reveal_strlit("true");
            reveal_strlit("false");
            reveal_strlit("1");
            reveal_strlit("0");
            let t = "true"@;
            let f = "false"@;
            assert(trim(t) == t);
            assert(trim(f) == f);
            assert(ascii_lower(t) =~= t);
            assert(ascii_lower(f) =~= f);
            assert(t != "1"@);
        },
    }
}

proof fn lemma_input_values_of_texts(c: FirmwareConfig, n: nat)
    requires
        n <= 26,
    ensures
        input_values(input_texts(c), n) == Ok::<Seq<int>, int>(Seq::new(n, |i: int| field_value(c, i))),
    decreases n,
{
    if n > 0 {
        lemma_input_values_of_texts(c, (n - 1) as nat);
        lemma_input_field_of_text(c, n - 1);
        assert(Seq::new((n - 1) as nat, |i: int| field_value(c, i)).push(field_value(c, n - 1))
            =~= Seq::new(n, |i: int| field_value(c, i)));
    } else {
        assert(Seq::new(0, |i: int| field_value(c, i)) =~= Seq::<int>::empty());
    }
}

/// Reading back the input texts of a configuration gives that configuration.
pub proof fn lemma_inputs_roundtrip(c: FirmwareConfig)
    ensures
        parse_inputs(input_texts(c)) == Ok::<FirmwareConfig, (int, Seq<char>)>(c),
{
    lemma_input_values_of_texts(c, 26);
    lemma_config_from_field_values(c);
    assert(Seq::new(26, |i: int| field_value(c, i)) =~= field_values(c));
}

/// The number an IDN serial field `i` holds: the trimmed field `i` of `s`
/// (cut at `-`) read as hexadecimal `u32`, or `-1` when it is not one.
pub open spec fn idn_hex(s: Seq<char>, i: int) -> int {
    match parse_unsigned(trim(split(s, '-')[i]), 16, 0xffff_ffff) {
        Some(v) => v as int,
        None => -1,
    }
}

proof fn lemma_idn_values_some(fields: Seq<Seq<char>>, n: nat)
    ensures
        idn_values(fields, n) matches Some(vs) ==> vs.len() == n && forall|i: int|
            0 <= i < n ==> idn_field(field_type(i), fields[i]) == Some(#[trigger] vs[i]),
        (forall|i: int| 0 <= i < n ==> (#[trigger] idn_field(field_type(i), fields[i])) is Some)
            ==> idn_values(fields, n) is Some,
    decreases n,
{
    if n > 0 {
        lemma_idn_values_some(fields, (n - 1) as nat);
        if (forall|i: int| 0 <= i < n ==> (#[trigger] idn_field(field_type(i), fields[i])) is Some) {
            assert(idn_field(field_type(n - 1), fields[n - 1]) is Some);
        }
    }
}

/// The IDN serial of `c` has 26 `-`-separated fields, and field `i` is the
/// upper-case hexadecimal of the configuration field of that place: motor
/// poles, switching frequency, dead time, emulate-hall switch (`1`/`0`),
/// emulated motor frequency, stopped threshold, turn-off mode, phase gain,
/// phase resistor, bus gain, bus resistor, warning and error thresholds,
/// bus fault switch, speed control method, loop time base, maximum delta,
/// maximum speed, the PID gains (16-bit two's complement) and their
/// derivative switch, the divider resistors, and the two system switches.
pub proof fn lemma_idn_serial_named_fields(c: FirmwareConfig)
    ensures
        split(idn_serial(c), '-').len() == 26,
        split(idn_serial(c), '-')[0] == hex_digits(c.motor_poles as nat),
        split(idn_serial(c), '-')[1] == hex_digits(c.f_mosfet as nat),
        split(idn_serial(c), '-')[2] == hex_digits(c.dead_time as nat),
        split(idn_serial(c), '-')[3] == hex_digits(if c.emulate_hall { 1nat } else { 0nat }),
        split(idn_serial(c), '-')[4] == hex_digits(c.tim3_freq as nat),
        split(idn_serial(c), '-')[5] == hex_digits(c.commutation_ticks_stopped as nat),
        split(idn_serial(c), '-')[6] == hex_digits(c.turn_off_mode as nat),
        split(idn_serial(c), '-')[7] == hex_digits(c.iphase_gain as nat),
        split(idn_serial(c), '-')[8] == hex_digits(c.iphase_sense_resistor as nat),
        split(idn_serial(c), '-')[9] == hex_digits(c.ibus_gain as nat),
        split(idn_serial(c), '-')[10] == hex_digits(c.ibus_sense_resistor as nat),
        split(idn_serial(c), '-')[11] == hex_digits(c.ibus_warning_threshold as nat),
        split(idn_serial(c), '-')[12] == hex_digits(c.ibus_error_threshold as nat),
        split(idn_serial(c), '-')[13] == hex_digits(if c.ibus_fault_enable { 1nat } else { 0nat }),
        split(idn_serial(c), '-')[14] == hex_digits(c.speed_control_method as nat),
        split(idn_serial(c), '-')[15] == hex_digits(c.speed_controller_time_base as nat),
        split(idn_serial(c), '-')[16] == hex_digits(c.speed_controller_max_delta as nat),
        split(idn_serial(c), '-')[17] == hex_digits(c.speed_controller_max_speed as nat),
        split(idn_serial(c), '-')[18] == hex_digits((c.pid_k_p as int % 0x1_0000) as nat),
        split(idn_serial(c), '-')[19] == hex_digits((c.pid_k_i as int % 0x1_0000) as nat),
        split(idn_serial(c), '-')[20] == hex_digits(if c.pid_k_d_enable { 1nat } else { 0nat }),
        split(idn_serial(c), '-')[21] == hex_digits((c.pid_k_d as int % 0x1_0000) as nat),
        split(idn_serial(c), '-')[22] == hex_digits(c.vbus_rtop as nat),
        split(idn_serial(c), '-')[23] == hex_digits(c.vbus_rbottom as nat),
        split(idn_serial(c), '-')[24] == hex_digits(if c.wait_for_board { 1nat } else { 0nat }),
        split(idn_serial(c), '-')[25] == hex_digits(if c.remote_debug_mode { 1nat } else { 0nat }),
{
    let fields = idn_serial_fields(c);
    assert forall|i: int| 0 <= i < fields.len() implies !(#[trigger] fields[i]).contains('-') by {
        lemma_idn_field_of_text(c, i);
    }
    crate::text::lemma_split_join(fields, '-');
}

/// Reading an IDN serial: it describes a configuration exactly when it has
/// at least 26 `-`-separated fields and the first 26 all read as
/// hexadecimal `u32`; each configuration field then takes the number of its
/// place (see [`lemma_idn_serial_named_fields`] for the order): a switch is
/// on when its number is not zero, a PID gain is the signed 16-bit number of
/// its low 16 bits.
pub proof fn lemma_idn_serial_reads_named_fields(s: Seq<char>)
    ensures
        parse_idn_serial(s) is Some <==> (split(s, '-').len() >= 26 && forall|i: int|
            0 <= i < 26 ==> #[trigger] idn_hex(s, i) >= 0),
        parse_idn_serial(s) matches Some(c) ==> {
            &&& c.motor_poles as int == idn_hex(s, 0)
            &&& c.f_mosfet as int == idn_hex(s, 1)
            &&& c.dead_time as int == idn_hex(s, 2)
            &&& c.emulate_hall == (idn_hex(s, 3) != 0)
            &&& c.tim3_freq as int == idn_hex(s, 4)
            &&& c.commutation_ticks_stopped as int == idn_hex(s, 5)
            &&& c.turn_off_mode as int == idn_hex(s, 6)
            &&& c.iphase_gain as int == idn_hex(s, 7)
            &&& c.iphase_sense_resistor as int == idn_hex(s, 8)
            &&& c.ibus_gain as int == idn_hex(s, 9)
            &&& c.ibus_sense_resistor as int == idn_hex(s, 10)
            &&& c.ibus_warning_threshold as int == idn_hex(s, 11)
            &&& c.ibus_error_threshold as int == idn_hex(s, 12)
            &&& c.ibus_fault_enable == (idn_hex(s, 13) != 0)
            &&& c.speed_control_method as int == idn_hex(s, 14)
            &&& c.speed_controller_time_base as int == idn_hex(s, 15)
            &&& c.speed_controller_max_delta as int == idn_hex(s, 16)
            &&& c.speed_controller_max_speed as int == idn_hex(s, 17)
            &&& c.pid_k_p as int == (if idn_hex(s, 18) % 0x1_0000 >= 0x8000 { idn_hex(s, 18) % 0x1_0000 - 0x1_0000 } else { idn_hex(s, 18) % 0x1_0000 })
            &&& c.pid_k_i as int == (if idn_hex(s, 19) % 0x1_0000 >= 0x8000 { idn_hex(s, 19) % 0x1_0000 - 0x1_0000 } else { idn_hex(s, 19) % 0x1_0000 })
            &&& c.pid_k_d_enable == (idn_hex(s, 20) != 0)
            &&& c.pid_k_d as int == (if idn_hex(s, 21) % 0x1_0000 >= 0x8000 { idn_hex(s, 21) % 0x1_0000 - 0x1_0000 } else { idn_hex(s, 21) % 0x1_0000 })
            &&& c.vbus_rtop as int == idn_hex(s, 22)
            &&& c.vbus_rbottom as int == idn_hex(s, 23)
            &&& c.wait_for_board == (idn_hex(s, 24) != 0)
            &&& c.remote_debug_mode == (idn_hex(s, 25) != 0)
        },
{
    let fields = split(s, '-');
    lemma_idn_values_some(fields, 26);
    if fields.len() >= 26 {
        assert forall|i: int| 0 <= i < 26 implies (idn_hex(s, i) >= 0 <==> (#[trigger] idn_field(field_type(i), fields[i])) is Some) by {}
    }
}

} // verus!
