use nevc_mtr1_gui::ui::firmware::{
    bool_input_is_true, is_closed_loop, param_dimmed, param_group_title, param_groups, param_label,
    param_meta,
    speed_method_is_closed, turn_off_is_ramp, ParamKind,
};
use nevc_mtr1_gui::firmware::config::FirmwareConfig;
use nevc_mtr1_gui::ui::firmware::{flash_request, source_config, ConfigSource};
use nevc_mtr1_gui::ui::motor::firmware_version_ok;

#[test]
fn firmware_versions() {
    assert!(firmware_version_ok("NEVC-MTR1-t01-1.2.0"));
    assert!(firmware_version_ok("1.2.0"));
    assert!(firmware_version_ok("2.0"));
    assert!(firmware_version_ok("1.10.3"));
    assert!(!firmware_version_ok("1.1.9"));
    assert!(!firmware_version_ok("0.9"));
    assert!(!firmware_version_ok("v1.3 then 1.1"));
    assert!(firmware_version_ok("abc"));
    assert!(firmware_version_ok(""));
    assert!(firmware_version_ok("1."));
}

#[test]
fn parameter_kinds() {
    assert_eq!(param_meta(0).kind, ParamKind::UInt);
    assert_eq!(param_meta(0).label, "Motor Poles");
    assert_eq!(param_meta(3).kind, ParamKind::Bool);
    assert_eq!(param_meta(6).kind, ParamKind::TurnOffMode);
    assert_eq!(param_meta(14).kind, ParamKind::SpeedControlMethod);
    for i in 0..26 {
        let _ = param_meta(i);
    }
}

#[test]
fn parameter_groups_cover_all() {
    let g = param_groups();
    assert_eq!(g.len(), 7);
    assert_eq!(g[0], ("Motor", 0, 7));
    assert_eq!(g[6].2, 26);
    for k in 0..6 {
        assert_eq!(g[k].2, g[k + 1].1);
    }
}

#[test]
fn pid_parameters_dimmed_in_open_loop() {
    assert!(param_dimmed(18, false));
    assert!(param_dimmed(21, false));
    assert!(!param_dimmed(22, false));
    assert!(!param_dimmed(17, false));
    assert!(!param_dimmed(19, true));
}

#[test]
fn parameter_labels() {
    let m = param_meta(0);
    assert_eq!(param_label(&m), "Motor Poles");
    for i in 0..26 {
        let m = param_meta(i);
        if m.unit.is_empty() {
            assert_eq!(param_label(&m), m.label);
        } else {
            assert_eq!(param_label(&m), format!("{} ({})", m.label, m.unit));
        }
    }
}

#[test]
fn switch_inputs() {
    assert!(bool_input_is_true("true"));
    assert!(bool_input_is_true("TRUE"));
    assert!(bool_input_is_true("True"));
    assert!(bool_input_is_true("1"));
    assert!(!bool_input_is_true("yes"));
    assert!(!bool_input_is_true(" true"));
    assert!(!bool_input_is_true("0"));
}

#[test]
fn choice_inputs() {
    assert!(speed_method_is_closed("1"));
    assert!(speed_method_is_closed("CLOSED_LOOP"));
    assert!(speed_method_is_closed("closed loop"));
    assert!(!speed_method_is_closed("OPEN_LOOP"));
    assert!(!speed_method_is_closed("0"));
    assert!(turn_off_is_ramp("ramp"));
    assert!(turn_off_is_ramp("1"));
    assert!(!turn_off_is_ramp("COAST"));
}

#[test]
fn closed_loop_from_inputs() {
    let mut inputs: Vec<String> = (0..26).map(|_| "0".to_string()).collect();
    assert!(!is_closed_loop(&inputs));
    inputs[14] = "CLOSED_LOOP".to_string();
    assert!(is_closed_loop(&inputs));
    assert!(!is_closed_loop(&vec!["1".to_string(); 14]));
}

#[test]
fn group_titles() {
    assert_eq!(param_group_title("PID Controller", false), "PID Controller (open loop - not used)");
    assert_eq!(param_group_title("PID Controller", true), "PID Controller");
    assert_eq!(param_group_title("Motor", false), "Motor");
}

#[test]
fn configuration_sources() {
    let defaults = FirmwareConfig::default();
    assert_eq!(source_config(ConfigSource::Repo, &Some("1-2".to_string())), defaults);
    assert_eq!(source_config(ConfigSource::Device, &None), defaults);
    assert_eq!(source_config(ConfigSource::Device, &Some("bad".to_string())), defaults);
    let mut c = defaults;
    c.motor_poles = 4;
    c.pid_k_d = -2;
    assert_eq!(source_config(ConfigSource::Device, &Some(c.to_idn_serial())), c);
}

#[test]
fn flash_requests() {
    let mut inputs = FirmwareConfig::default().to_input_strings();
    let port = Some("COM4".to_string());
    let (c, p) = flash_request(&inputs, &port).unwrap();
    assert_eq!(c, FirmwareConfig::default());
    assert_eq!(p, "COM4");
    assert_eq!(flash_request(&inputs, &None).unwrap_err(), "No COM port selected.");
    inputs[1] = "fast".to_string();
    assert_eq!(
        flash_request(&inputs, &port).unwrap_err(),
        "Invalid parameter Switching Freq (Hz): 'fast' is not a valid unsigned integer"
    );
    assert_eq!(
        flash_request(&vec!["1".to_string()], &port).unwrap_err(),
        "Invalid parameter Motor Poles: Not enough parameter inputs"
    );
}
