use nevc_mtr1_gui::serial::{
    is_arduino_leonardo, port_description, port_info, ConnectionState, PortInfo, PortKind,
    ARDUINO_BOOTLOADER_PID, ARDUINO_LEONARDO_PID, ARDUINO_VID,
};

fn usb(vid: u16, pid: u16, product: Option<&str>) -> PortKind {
    PortKind::Usb { vid, pid, product: product.map(|p| p.to_string()) }
}

#[test]
fn leonardo_identifiers() {
    assert_eq!(ARDUINO_VID, 0x2341);
    assert_eq!(ARDUINO_LEONARDO_PID, 0x8036);
    assert_eq!(ARDUINO_BOOTLOADER_PID, 0x0036);
    assert!(is_arduino_leonardo(&usb(0x2341, 0x8036, None)));
    assert!(is_arduino_leonardo(&usb(0x2341, 0x0036, Some("Bootloader"))));
    assert!(!is_arduino_leonardo(&usb(0x2341, 0x0043, None)));
    assert!(!is_arduino_leonardo(&usb(0x1A86, 0x8036, None)));
    assert!(!is_arduino_leonardo(&PortKind::Bluetooth));
    assert!(!is_arduino_leonardo(&PortKind::Unknown));
}

#[test]
fn port_descriptions() {
    assert_eq!(port_description(&usb(0x2341, 0x8036, Some("Arduino Leonardo"))), "Arduino Leonardo");
    assert_eq!(port_description(&usb(0x2341, 0x8036, None)), "USB 2341:8036");
    assert_eq!(port_description(&usb(0x1a86, 0x7523, None)), "USB 1A86:7523");
    assert_eq!(port_description(&usb(0x0001, 0x00ab, None)), "USB 0001:00AB");
    assert_eq!(port_description(&usb(0, 0, None)), "USB 0000:0000");
    assert_eq!(port_description(&PortKind::Bluetooth), "Bluetooth");
    assert_eq!(port_description(&PortKind::Pci), "PCI");
    assert_eq!(port_description(&PortKind::Unknown), "Unknown");
}

#[test]
fn port_info_and_labels() {
    let p = port_info("COM3".to_string(), &usb(0x2341, 0x8036, None));
    assert_eq!(p.name, "COM3");
    assert_eq!(p.description, "USB 2341:8036");
    assert!(p.is_arduino);
    assert_eq!(p.label(), "COM3 — Arduino Leonardo");
    let q = port_info("COM7".to_string(), &PortKind::Pci);
    assert!(!q.is_arduino);
    assert_eq!(q.label(), "COM7 — PCI");
    let r = PortInfo { name: "ttyS0".to_string(), description: "".to_string(), is_arduino: false };
    assert_eq!(r.label(), "ttyS0 — ");
}

#[test]
fn connection_states_compare() {
    assert_eq!(ConnectionState::Connected, ConnectionState::Connected);
    assert_ne!(ConnectionState::Connecting, ConnectionState::Disconnected);
}
