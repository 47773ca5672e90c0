use nevc_mtr1_gui::app::{
    clock_string, Action, Direction, Event, FrequencyEntry, LogLevel, NevcApp,
};
use nevc_mtr1_gui::scpi::IdnResponse;
use nevc_mtr1_gui::serial::{ConnectionState, PortInfo};
use nevc_mtr1_gui::ui::Panel;

fn port(name: &str) -> PortInfo {
    PortInfo { name: name.to_string(), description: "x".to_string(), is_arduino: false }
}

fn connected_app() -> NevcApp {
    let (mut app, _) = NevcApp::new();
    app.update(Event::PortsRefreshed(vec![port("COM3")]), 0);
    app.update(Event::ConnectPressed, 0);
    app.update(Event::Connected, 0);
    app
}

#[test]
fn clock_strings() {
    assert_eq!(clock_string(0), "00:00:00");
    assert_eq!(clock_string(3723), "01:02:03");
    assert_eq!(clock_string(86399), "23:59:59");
    assert_eq!(clock_string(86400 + 61), "00:01:01");
}

#[test]
fn direction_names() {
    assert_eq!(Direction::Forward.name(), "Forward");
    assert_eq!(Direction::Reverse.name(), "Reverse");
}

#[test]
fn new_app_state() {
    let (app, action) = NevcApp::new();
    assert_eq!(action, Action::ListPorts);
    assert_eq!(app.active_panel, Panel::Connection);
    assert_eq!(app.connection, ConnectionState::Disconnected);
    assert_eq!(app.status_message, "Not connected. Select a COM port and click Connect.");
    assert_eq!(app.motor_frequency_input, "20000");
    assert_eq!(app.motor_direction, Direction::Forward);
    assert!(!app.motor_enabled);
    assert!(app.selected_port.is_none());
    assert!(app.log.is_empty());
    assert_eq!(app.title(), "Nexperia Motor Driver GUI — NEVC-MTR1");
}

#[test]
fn push_log_stamps_and_mirrors() {
    let (mut app, _) = NevcApp::new();
    app.push_log(LogLevel::Info, "hello".to_string(), 3723);
    assert_eq!(app.log.len(), 1);
    assert_eq!(app.log[0].timestamp, "01:02:03");
    assert_eq!(app.log[0].message, "hello");
    assert_eq!(app.status_message, "Not connected. Select a COM port and click Connect.");
    app.push_log(LogLevel::Warn, "careful".to_string(), 0);
    assert_eq!(app.status_message, "careful");
    app.push_log(LogLevel::Error, "broken".to_string(), 0);
    assert_eq!(app.status_message, "broken");
    assert_eq!(app.log.len(), 3);
    assert_eq!(app.log[2].level, LogLevel::Error);
}

#[test]
fn refresh_keeps_or_replaces_selection() {
    let (mut app, _) = NevcApp::new();
    assert_eq!(app.update(Event::RefreshPorts, 0), Action::ListPorts);
    app.update(Event::PortsRefreshed(vec![port("COM3"), port("COM4")]), 0);
    assert_eq!(app.selected_port.as_deref(), Some("COM3"));
    app.update(Event::PortSelected("COM4 — Arduino Leonardo".to_string()), 0);
    assert_eq!(app.selected_port.as_deref(), Some("COM4"));
    app.update(Event::PortsRefreshed(vec![port("COM1"), port("COM4")]), 0);
    assert_eq!(app.selected_port.as_deref(), Some("COM4"));
    app.update(Event::PortsRefreshed(vec![port("COM9")]), 0);
    assert_eq!(app.selected_port.as_deref(), Some("COM9"));
    app.update(Event::PortsRefreshed(vec![]), 0);
    assert!(app.selected_port.is_none());
    assert!(app.available_ports.is_empty());
}

#[test]
fn port_selected_takes_name_before_dash() {
    let (mut app, _) = NevcApp::new();
    app.update(Event::PortSelected("  COM3 — USB 2341:8036".to_string()), 0);
    assert_eq!(app.selected_port.as_deref(), Some("COM3"));
    app.update(Event::PortSelected("/dev/ttyACM0".to_string()), 0);
    assert_eq!(app.selected_port.as_deref(), Some("/dev/ttyACM0"));
}

#[test]
fn connect_needs_a_port() {
    let (mut app, _) = NevcApp::new();
    assert_eq!(app.update(Event::ConnectPressed, 0), Action::Nothing);
    assert_eq!(app.connection, ConnectionState::Disconnected);
    assert!(app.log.is_empty());
    app.update(Event::PortsRefreshed(vec![port("COM3")]), 0);
    assert_eq!(app.update(Event::ConnectPressed, 60), Action::OpenPort("COM3".to_string()));
    assert_eq!(app.connection, ConnectionState::Connecting);
    assert_eq!(app.status_message, "Connecting to COM3…");
    assert_eq!(app.log[0].message, "Connecting to COM3…");
    assert_eq!(app.log[0].timestamp, "00:01:00");
}

#[test]
fn connection_results() {
    let (mut app, _) = NevcApp::new();
    app.update(Event::PortsRefreshed(vec![port("COM3")]), 0);
    app.update(Event::ConnectPressed, 0);
    assert_eq!(app.update(Event::ConnectFailed("busy".to_string()), 0), Action::Nothing);
    assert_eq!(app.connection, ConnectionState::Disconnected);
    assert_eq!(app.status_message, "Connection failed: busy");
    assert_eq!(app.update(Event::Connected, 0), Action::QueryIdn);
    assert_eq!(app.connection, ConnectionState::Connected);
    assert_eq!(app.status_message, "Connected — querying firmware version…");
}

#[test]
fn idn_received_fills_device_fields() {
    let mut app = connected_app();
    let idn = IdnResponse::parse("Nexperia,NEVC-MTR1,8-4E20,1.2.0").unwrap();
    assert_eq!(app.update(Event::IdnReceived(Ok(idn)), 0), Action::CheckErrorQueue);
    assert_eq!(app.firmware_version.as_deref(), Some("1.2.0"));
    assert_eq!(app.idn_manufacturer.as_deref(), Some("Nexperia"));
    assert_eq!(app.idn_model.as_deref(), Some("NEVC-MTR1"));
    assert_eq!(app.idn_serial.as_deref(), Some("8-4E20"));
    assert_eq!(app.status_message, "Connected — firmware v1.2.0");
    assert_eq!(app.log.last().unwrap().message, "IDN: Nexperia NEVC-MTR1 — firmware v1.2.0");
}

#[test]
fn idn_failure_is_an_error() {
    let mut app = connected_app();
    let n = app.log.len();
    assert_eq!(app.update(Event::IdnReceived(Err("timeout".to_string())), 0), Action::Nothing);
    assert_eq!(app.status_message, "IDN query failed: timeout");
    assert_eq!(app.log.len(), n + 1);
    assert_eq!(app.log[n].level, LogLevel::Error);
}

#[test]
fn error_queue_reports() {
    let mut app = connected_app();
    app.status_message = "before".to_string();
    app.update(Event::ErrorsChecked(String::new()), 0);
    assert_eq!(app.status_message, "before");
    assert_eq!(app.log.last().unwrap().message, "Error queue empty.");
    app.update(Event::ErrorsChecked("-113,\"Undefined header\"".to_string()), 0);
    assert_eq!(app.status_message, "SCPI errors on connect: -113,\"Undefined header\"");
    assert_eq!(app.log.last().unwrap().level, LogLevel::Warn);
}

#[test]
fn disconnect_forgets_device() {
    let mut app = connected_app();
    let idn = IdnResponse::parse("Nexperia,NEVC-MTR1,8,1.2.0").unwrap();
    app.update(Event::IdnReceived(Ok(idn)), 0);
    assert_eq!(app.update(Event::DisconnectPressed, 0), Action::Nothing);
    assert_eq!(app.connection, ConnectionState::Disconnected);
    assert!(app.firmware_version.is_none());
    assert!(app.idn_serial.is_none());
    assert_eq!(app.status_message, "Disconnected.");
    assert_eq!(app.log.last().unwrap().message, "Disconnected from COM3.");
}

#[test]
fn frequency_submissions() {
    let (mut app, _) = NevcApp::new();
    assert_eq!(app.update(Event::FrequencySubmit(FrequencyEntry::Whole(20000)), 0), Action::SetFrequency(20000));
    assert_eq!(app.status_message, "Frequency set to 20000 Hz");
    assert_eq!(app.update(Event::FrequencySubmit(FrequencyEntry::Whole(7183)), 0), Action::SetFrequency(7183));
    assert_eq!(app.update(Event::FrequencySubmit(FrequencyEntry::Whole(100000)), 0), Action::SetFrequency(100000));
    assert_eq!(app.update(Event::FrequencySubmit(FrequencyEntry::Whole(7182)), 0), Action::Nothing);
    assert_eq!(app.status_message, "Frequency must be between 7183 Hz and 100000 Hz.");
    assert_eq!(app.update(Event::FrequencySubmit(FrequencyEntry::NotANumber), 0), Action::Nothing);
    assert_eq!(app.status_message, "Invalid frequency value — enter a number.");
    assert_eq!(app.update(Event::FrequencySubmit(FrequencyEntry::NotPositive), 0), Action::Nothing);
    assert_eq!(app.status_message, "Frequency must be a positive number.");
}

#[test]
fn plain_state_changes() {
    let (mut app, _) = NevcApp::new();
    assert_eq!(app.update(Event::TabSelected(Panel::Log), 0), Action::Nothing);
    assert_eq!(app.active_panel, Panel::Log);
    app.update(Event::EnableChanged(true), 0);
    assert!(app.motor_enabled);
    app.update(Event::FrequencyInputChanged("15000".to_string()), 0);
    assert_eq!(app.motor_frequency_input, "15000");
    app.update(Event::DirectionChanged(Direction::Reverse), 0);
    assert_eq!(app.motor_direction, Direction::Reverse);
    app.update(Event::MeasuredDirection(Some("Forward".to_string())), 0);
    assert_eq!(app.measured_direction.as_deref(), Some("Forward"));
    assert_eq!(app.update(Event::QueryMeasurements, 0), Action::Nothing);
    app.update(Event::StatusMessage("hi".to_string()), 0);
    assert_eq!(app.status_message, "hi");
}

#[test]
fn flash_log_and_clear_log() {
    let (mut app, _) = NevcApp::new();
    app.update(Event::FlashLogEntry("old".to_string()), 0);
    app.update(Event::FlashFirmwarePressed, 0);
    assert_eq!(app.flash_log.len(), 1);
    app.update(Event::FlashLogEntry("step".to_string()), 0);
    assert_eq!(app.flash_log.len(), 2);
    assert_eq!(app.flash_log[1], "step");
    app.push_log(LogLevel::Info, "x".to_string(), 0);
    app.update(Event::ClearLog, 0);
    assert!(app.log.is_empty());
}

#[test]
fn log_entries_are_kept_in_order() {
    let (mut app, _) = NevcApp::new();
    app.update(Event::PortsRefreshed(vec![port("COM5")]), 0);
    app.update(Event::ConnectPressed, 10);
    app.update(Event::Connected, 11);
    let idn = IdnResponse::parse("N,M,S,1.2").unwrap();
    app.update(Event::IdnReceived(Ok(idn)), 12);
    app.update(Event::ErrorsChecked(String::new()), 13);
    app.update(Event::TabSelected(Panel::Graphs), 14);
    app.update(Event::DisconnectPressed, 15);
    let messages: Vec<&str> = app.log.iter().map(|e| e.message.as_str()).collect();
    assert_eq!(
        messages,
        vec![
            "Connecting to COM5…",
            "IDN: N M — firmware v1.2",
            "Error queue empty.",
            "Disconnected from COM5.",
        ]
    );
    assert_eq!(app.log[3].timestamp, "00:00:15");
}

#[test]
fn selecting_a_label_selects_its_port() {
    let ports = vec![
        PortInfo { name: "COM3".to_string(), description: "USB 1A86:7523".to_string(), is_arduino: false },
        PortInfo { name: "COM4".to_string(), description: "x".to_string(), is_arduino: true },
    ];
    let (mut app, _) = NevcApp::new();
    for p in &ports {
        app.update(Event::PortSelected(p.label()), 0);
        assert_eq!(app.selected_port.as_deref(), Some(p.name.as_str()));
    }
}

#[test]
fn connected_only_with_an_open_port() {
    let (mut app, _) = NevcApp::new();
    assert!(!app.port_open);
    app.update(Event::PortsRefreshed(vec![port("COM3")]), 0);
    app.update(Event::ConnectPressed, 0);
    assert!(!app.port_open);
    app.update(Event::Connected, 0);
    assert!(app.port_open && app.connection == ConnectionState::Connected);
    app.update(Event::DisconnectPressed, 0);
    assert!(!app.port_open);
}
