//! SCPI command strings understood by the motor driver firmware.

use vstd::prelude::*;

use crate::text::{append_chars, append_str, dec_chars, dec_digits, string_of};

verus! {

// Standard IEEE 488.2
pub const IDN: &'static str = "*IDN?";
pub const RST: &'static str = "*RST";

// System error queue
pub const SYS_ERROR: &'static str = "SYSTem:ERRor?";
pub const SYS_ERROR_COUNT: &'static str = "SYSTem:ERRor:COUNt?";

// Motor enable
pub const CONF_ENABLE_ON: &'static str = "CONFigure:ENABle ON";
pub const CONF_ENABLE_OFF: &'static str = "CONFigure:ENABle OFF";
pub const CONF_ENABLE_QUERY: &'static str = "CONFigure:ENABle?";

// Gate drive frequency
pub const CONF_FREQUENCY_QUERY: &'static str = "CONFigure:FREQuency?";

// Motor direction
pub const CONF_DIR_FORWARD: &'static str = "CONFigure:DIREction FORWard";
pub const CONF_DIR_REVERSE: &'static str = "CONFigure:DIREction REVErse";
pub const CONF_DIR_QUERY: &'static str = "CONFigure:DIREction?";

// Measurements
pub const MEAS_SPEED: &'static str = "MEASure:SPEEd?";
pub const MEAS_CURRENT_IBUS: &'static str = "MEASure:CURRent:IBUS?";
pub const MEAS_CURRENT_IPHU: &'static str = "MEASure:CURRent:IPHU?";
pub const MEAS_CURRENT_IPHV: &'static str = "MEASure:CURRent:IPHV?";
pub const MEAS_CURRENT_IPHW: &'static str = "MEASure:CURRent:IPHW?";
pub const MEAS_DIRECTION: &'static str = "MEASure:DIREction?";
pub const MEAS_DUTY_CYCLE: &'static str = "MEASure:DUTYcycle?";
pub const MEAS_VOLTAGE: &'static str = "MEASure:VOLTage?";

/// `CONFigure:FREQuency <hz>`, with `hz` in decimal.
pub fn conf_frequency(hz: u32) -> (r: String)
    ensures
        r@ == "CONFigure:FREQuency "@ + dec_digits(hz as nat),
{
    let mut v: Vec<char> = Vec::new();
    append_str(&mut v, "CONFigure:FREQuency ");
    let d = dec_chars(hz as u64);
    append_chars(&mut v, &d);
    string_of(&v)
}

} // verus!
