use nevc_mtr1_gui::firmware::config::FirmwareConfig;
use nevc_mtr1_gui::firmware::patch::{bool_define, patch_config_h};

const DEFAULT_SERIAL: &str =
    "8-4E20-15E-0-C8-1770-1-14-9C4-32-FA0-133-19A-1-0-C8-1-190-64-A-1-0-186A0-1838-1-0";

#[test]
fn default_config_values() {
    let c = FirmwareConfig::default();
    assert_eq!(c.motor_poles, 8);
    assert_eq!(c.f_mosfet, 20000);
    assert_eq!(c.dead_time, 350);
    assert!(!c.emulate_hall);
    assert_eq!(c.turn_off_mode, 1);
    assert_eq!(c.ibus_error_threshold, 410);
    assert_eq!(c.pid_k_p, 100);
    assert_eq!(c.vbus_rtop, 100000);
    assert!(c.wait_for_board);
    assert!(!c.remote_debug_mode);
}

#[test]
fn idn_serial_of_defaults() {
    assert_eq!(FirmwareConfig::default().to_idn_serial(), DEFAULT_SERIAL);
}

#[test]
fn idn_serial_parses_defaults() {
    assert_eq!(FirmwareConfig::from_idn_serial(DEFAULT_SERIAL), Some(FirmwareConfig::default()));
}

#[test]
fn idn_serial_roundtrip_negative_gains() {
    let mut c = FirmwareConfig::default();
    c.pid_k_p = -5;
    c.pid_k_i = -32768;
    c.pid_k_d = 32767;
    c.emulate_hall = true;
    let s = c.to_idn_serial();
    assert!(s.contains("-FFFB-8000-1-7FFF-"));
    assert_eq!(FirmwareConfig::from_idn_serial(&s), Some(c));
}

#[test]
fn idn_serial_wraps_gains_to_i16() {
    let mut c = FirmwareConfig::default();
    c.pid_k_p = 40000;
    let s = c.to_idn_serial();
    assert!(s.contains("-9C40-"));
    let back = FirmwareConfig::from_idn_serial(&s).unwrap();
    assert_eq!(back.pid_k_p, -25536);
}

#[test]
fn idn_serial_reads_flexibly() {
    let lower = DEFAULT_SERIAL.to_lowercase();
    assert_eq!(FirmwareConfig::from_idn_serial(&lower), Some(FirmwareConfig::default()));
    let spaced = DEFAULT_SERIAL.replace('-', " - ");
    assert_eq!(FirmwareConfig::from_idn_serial(&spaced), Some(FirmwareConfig::default()));
    let extra = format!("{}-FF-EE", DEFAULT_SERIAL);
    assert_eq!(FirmwareConfig::from_idn_serial(&extra), Some(FirmwareConfig::default()));
    let plus = DEFAULT_SERIAL.replacen('8', "+8", 1);
    assert_eq!(FirmwareConfig::from_idn_serial(&plus), Some(FirmwareConfig::default()));
    let flag = DEFAULT_SERIAL.replacen("-0-C8-", "-2-C8-", 1);
    assert!(FirmwareConfig::from_idn_serial(&flag).unwrap().emulate_hall);
}

#[test]
fn idn_serial_refuses_bad_fields() {
    assert_eq!(FirmwareConfig::from_idn_serial("1-2-3"), None);
    assert_eq!(FirmwareConfig::from_idn_serial(""), None);
    let bad = DEFAULT_SERIAL.replacen("4E20", "4G20", 1);
    assert_eq!(FirmwareConfig::from_idn_serial(&bad), None);
    let empty_field = DEFAULT_SERIAL.replacen("-15E-", "--", 1);
    assert_eq!(FirmwareConfig::from_idn_serial(&empty_field), None);
    let too_big = DEFAULT_SERIAL.replacen("186A0", "100000000", 1);
    assert_eq!(FirmwareConfig::from_idn_serial(&too_big), None);
}

fn default_inputs() -> Vec<String> {
    vec![
        "8", "20000", "350", "false", "200", "6000", "1", "20", "2500", "50", "4000", "307", "410",
        "true", "0", "200", "1", "400", "100", "10", "true", "0", "100000", "6200", "true",
        "false",
    ]
    .into_iter()
    .map(String::from)
    .collect()
}

#[test]
fn input_strings_of_defaults() {
    assert_eq!(FirmwareConfig::default().to_input_strings(), default_inputs());
}

#[test]
fn inputs_roundtrip() {
    let mut c = FirmwareConfig::default();
    c.pid_k_p = -2147483648;
    c.pid_k_i = 2147483647;
    c.motor_poles = u32::MAX;
    c.remote_debug_mode = true;
    let inputs = c.to_input_strings();
    assert_eq!(inputs[18], "-2147483648");
    assert_eq!(inputs[25], "true");
    assert_eq!(FirmwareConfig::try_from_inputs(&inputs), Ok(c));
}

#[test]
fn inputs_read_flexibly() {
    let mut inputs = default_inputs();
    inputs[0] = " 12 ".to_string();
    inputs[3] = "TRUE".to_string();
    inputs[13] = "0".to_string();
    inputs[20] = " False ".to_string();
    inputs[24] = "1".to_string();
    inputs[18] = "-42".to_string();
    inputs[19] = "+42".to_string();
    inputs.push("ignored".to_string());
    let c = FirmwareConfig::try_from_inputs(&inputs).unwrap();
    assert_eq!(c.motor_poles, 12);
    assert!(c.emulate_hall);
    assert!(!c.ibus_fault_enable);
    assert!(!c.pid_k_d_enable);
    assert!(c.wait_for_board);
    assert_eq!(c.pid_k_p, -42);
    assert_eq!(c.pid_k_i, 42);
}

#[test]
fn inputs_too_few() {
    let mut inputs = default_inputs();
    inputs.pop();
    assert_eq!(
        FirmwareConfig::try_from_inputs(&inputs),
        Err((0, "Not enough parameter inputs".to_string()))
    );
}

#[test]
fn inputs_report_first_bad_field() {
    let mut inputs = default_inputs();
    inputs[1] = "abc".to_string();
    inputs[3] = "maybe".to_string();
    assert_eq!(
        FirmwareConfig::try_from_inputs(&inputs),
        Err((1, "'abc' is not a valid unsigned integer".to_string()))
    );
    let mut inputs = default_inputs();
    inputs[3] = " yes".to_string();
    assert_eq!(
        FirmwareConfig::try_from_inputs(&inputs),
        Err((3, "' yes' is not true/false".to_string()))
    );
    let mut inputs = default_inputs();
    inputs[21] = "1.5".to_string();
    assert_eq!(
        FirmwareConfig::try_from_inputs(&inputs),
        Err((21, "'1.5' is not a valid integer".to_string()))
    );
    let mut inputs = default_inputs();
    inputs[2] = "-1".to_string();
    assert_eq!(
        FirmwareConfig::try_from_inputs(&inputs),
        Err((2, "'-1' is not a valid unsigned integer".to_string()))
    );
    let mut inputs = default_inputs();
    inputs[19] = "2147483648".to_string();
    assert_eq!(
        FirmwareConfig::try_from_inputs(&inputs),
        Err((19, "'2147483648' is not a valid integer".to_string()))
    );
}

#[test]
fn bool_define_spelling() {
    assert_eq!(bool_define(true), "TRUE");
    assert_eq!(bool_define(false), "FALSE");
}

const CONFIG_H: &str = "\
#ifndef CONFIG_H
#define CONFIG_H
#define MOTOR_POLES 4 // number of poles
  #define F_MOSFET 10000UL/* Hz */
#define DEAD_TIME\t500UL
#define EMULATE_HALL FALSE
#define TURN_OFF_MODE TURN_OFF_MODE_COAST
#define SPEED_CONTROL_METHOD SPEED_CONTROL_CLOSED_LOOP
#define PID_K_D_ENABLE FALSE
#define PID_K_D 7
#define PID_K_P 1
#define PID_K_P 2
#define UNRELATED 3
#endif
";

#[test]
fn patch_config_replaces_values() {
    let mut c = FirmwareConfig::default();
    c.pid_k_d = -3;
    let out = patch_config_h(CONFIG_H, &c);
    let expected = "\
#ifndef CONFIG_H
#define CONFIG_H
#define MOTOR_POLES 8 // number of poles
  #define F_MOSFET 20000UL/* Hz */
#define DEAD_TIME\t500UL
#define EMULATE_HALL FALSE
#define TURN_OFF_MODE TURN_OFF_MODE_RAMP
#define SPEED_CONTROL_METHOD SPEED_CONTROL_OPEN_LOOP
#define PID_K_D_ENABLE TRUE
#define PID_K_D -3
#define PID_K_P 100
#define PID_K_P 2
#define UNRELATED 3
#endif
";
    assert_eq!(out, expected);
}

#[test]
fn patch_config_line_endings() {
    let c = FirmwareConfig::default();
    assert_eq!(patch_config_h("#define MOTOR_POLES 2\r\n", &c), "#define MOTOR_POLES 8\n");
    assert_eq!(patch_config_h("#define MOTOR_POLES 2", &c), "#define MOTOR_POLES 8");
    assert_eq!(patch_config_h("", &c), "");
    assert_eq!(patch_config_h("\n", &c), "\n");
    assert_eq!(patch_config_h("x\r", &c), "x\r");
}

#[test]
fn patch_config_is_stable() {
    let c = FirmwareConfig::default();
    let once = patch_config_h(CONFIG_H, &c);
    assert_eq!(patch_config_h(&once, &c), once);
}

#[test]
fn patch_config_cr_left_before_newline() {
    let c = FirmwareConfig::default();
    let once = patch_config_h("a\r\r\n", &c);
    assert_eq!(once, "a\r\n");
    assert_eq!(patch_config_h(&once, &c), "a\n");
    assert_eq!(patch_config_h("#define MOTOR_POLES 2\r\r\n", &c), "#define MOTOR_POLES 8\n");
}
