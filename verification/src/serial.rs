//! Serial ports: what is known of a detected port, how it is described, and
//! the connection state.

use vstd::prelude::*;

use crate::text::{append_chars, append_str, chars_of, hex_chars, hex_digits, string_of};

verus! {

/// Metadata about a detected serial port.
#[derive(Debug, Clone)]
pub struct PortInfo {
    /// OS-level port name, e.g. "COM3"
    pub name: String,
    /// Human-readable description (USB product string or type)
    pub description: String,
    /// True when the port matches the Arduino Leonardo USB VID/PID
    pub is_arduino: bool,
}

/// The state of the connection to the board.
#[derive(Debug, Clone, Copy, PartialEq, Eq, Structural)]
pub enum ConnectionState {
    Disconnected,
    Connecting,
    Connected,
}

/// How a port is attached, as the operating system reports it.
#[derive(Debug, Clone)]
pub enum PortKind {
    /// A USB device, with its vendor and product identifiers and, when the
    /// device reports one, its product string.
    Usb { vid: u16, pid: u16, product: Option<String> },
    Bluetooth,
    Pci,
    Unknown,
}

/// Nexperia / Arduino VID
pub const ARDUINO_VID: u16 = 0x2341;
/// Arduino Leonardo normal operation PID
pub const ARDUINO_LEONARDO_PID: u16 = 0x8036;
/// Arduino Leonardo in AVR109 bootloader mode PID
pub const ARDUINO_BOOTLOADER_PID: u16 = 0x0036;

/// A port of an Arduino Leonardo, running or in its bootloader.
pub open spec fn is_leonardo(kind: PortKind) -> bool {
    match kind {
        PortKind::Usb { vid, pid, .. } => vid == ARDUINO_VID && (pid == ARDUINO_LEONARDO_PID || pid
            == ARDUINO_BOOTLOADER_PID),
        _ => false,
    }
}

/// Whether the port is that of an Arduino Leonardo (see [`is_leonardo`]).
pub fn is_arduino_leonardo(kind: &PortKind) -> (r: bool)
    ensures
        r == is_leonardo(*kind),
{
    match kind {
        PortKind::Usb { vid, pid, .. } => *vid == ARDUINO_VID && (*pid == ARDUINO_LEONARDO_PID
            || *pid == ARDUINO_BOOTLOADER_PID),
        _ => false,
    }
}

/// Four upper-case hexadecimal digits of `v`, zero-padded (`{:04X}`).
pub open spec fn hex4(v: nat) -> Seq<char> {
    Seq::new((4 - hex_digits(v).len()) as nat, |i: int| '0') + hex_digits(v)
}

proof fn lemma_hex_len(v: nat, bound: nat, digits: nat)
    requires
        digits >= 1,
        v < bound,
        bound == pow16(digits),
    ensures
        1 <= hex_digits(v).len() <= digits,
    decreases digits,
{
    if v >= 16 {
        assert(hex_digits(v).len() == hex_digits(v / 16).len() + 1);
        if digits == 1 {
            assert(pow16(0) == 1);
        } else {
            assert(v / 16 < pow16((digits - 1) as nat));
            lemma_hex_len(v / 16, pow16((digits - 1) as nat), (digits - 1) as nat);
        }
    }
}

/// Sixteen to the power `k`.
spec fn pow16(k: nat) -> nat
    decreases k,
{
    if k == 0 {
        1
    } else {
        16 * pow16((k - 1) as nat)
    }
}

/// Four zero-padded upper-case hexadecimal digits of `v`.
fn hex4_chars(v: u16) -> (r: Vec<char>)
    ensures
        r@ == hex4(v as nat),
{
    proof {
        assert(pow16(4) == 0x1_0000) by {
            reveal_with_fuel(pow16, 5);
        }
        lemma_hex_len(v as nat, 0x1_0000, 4);
    }
    let h = hex_chars(v as u64);
    let mut r: Vec<char> = Vec::new();
    while r.len() + h.len() < 4
        invariant
            h@ == hex_digits(v as nat),
            h.len() <= 4,
            r.len() + h.len() <= 4,
            forall|i: int| 0 <= i < r.len() ==> r@[i] == '0',
        decreases 4 - r.len() - h.len(),
    {
        r.push('0');
    }
    assert(r@ =~= Seq::new((4 - hex_digits(v as nat).len()) as nat, |i: int| '0'));
    append_chars(&mut r, &h);
    r
}

/// The description of a port: a USB device's product string, or
/// `USB VVVV:PPPP` with its identifiers in hexadecimal when it reports none;
/// otherwise the kind of port.
pub open spec fn description_of(kind: PortKind) -> Seq<char> {
    match kind {
        PortKind::Usb { vid, pid, product } => match product {
            Some(p) => p@,
            None => "USB "@ + hex4(vid as nat) + ":"@ + hex4(pid as nat),
        },
        PortKind::Bluetooth => "Bluetooth"@,
        PortKind::Pci => "PCI"@,
        PortKind::Unknown => "Unknown"@,
    }
}

/// The description of a port (see [`description_of`]).
pub fn port_description(kind: &PortKind) -> (r: String)
    ensures
        r@ == description_of(*kind),
{
    match kind {
        PortKind::Usb { vid, pid, product } => match product {
            Some(p) => string_of(&chars_of(p.as_str())),
            None => {
                let mut v = chars_of("USB ");
                append_chars(&mut v, &hex4_chars(*vid));
                append_str(&mut v, ":");
                append_chars(&mut v, &hex4_chars(*pid));
                string_of(&v)
            },
        },
        PortKind::Bluetooth => string_of(&chars_of("Bluetooth")),
        PortKind::Pci => string_of(&chars_of("PCI")),
        PortKind::Unknown => string_of(&chars_of("Unknown")),
    }
}

/// What is shown of a detected port.
pub fn port_info(name: String, kind: &PortKind) -> (r: PortInfo)
    ensures
        r.name == name,
        r.description@ == description_of(*kind),
        r.is_arduino == is_leonardo(*kind),
{
    PortInfo { name, description: port_description(kind), is_arduino: is_arduino_leonardo(kind) }
}

/// The label of a port in the port picker: its name and, after a dash,
/// `Arduino Leonardo` or its description.
pub open spec fn port_label(p: PortInfo) -> Seq<char> {
    if p.is_arduino {
        p.name@ + " — Arduino Leonardo"@
    } else {
        p.name@ + " — "@ + p.description@
    }
}

impl PortInfo {
    /// The label of the port in the port picker (see [`port_label`]).
    pub fn label(&self) -> (r: String)
        ensures
            r@ == port_label(*self),
    {
        let mut v = chars_of(self.name.as_str());
        if self.is_arduino {
            append_str(&mut v, " — Arduino Leonardo");
        } else {
            append_str(&mut v, " — ");
            append_str(&mut v, self.description.as_str());
        }
        string_of(&v)
    }
}

} // verus!
