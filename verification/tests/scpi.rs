use nevc_mtr1_gui::scpi::commands::{conf_frequency, IDN, SYS_ERROR_COUNT};
use nevc_mtr1_gui::scpi::{
    accept_reply_byte, check_frequency_range, command_line, error_count, error_queue_report,
    finish_reply, idn_from_reply, ErrorQueueRead,
    parse_bool, summarize_errors, IdnResponse, FREQ_MAX_HZ, FREQ_MIN_HZ,
};

#[test]
fn idn_parse_four_fields() {
    let r = IdnResponse::parse("Nexperia,NEVC-MTR1,8-4E20-15E,1.2.0").unwrap();
    assert_eq!(r.manufacturer, "Nexperia");
    assert_eq!(r.model, "NEVC-MTR1");
    assert_eq!(r.serial, "8-4E20-15E");
    assert_eq!(r.firmware_version, "1.2.0");
}

#[test]
fn idn_parse_trims_every_field() {
    let r = IdnResponse::parse("  Nexperia , NEVC-MTR1 ,\tABC ,  1.3 \r\n").unwrap();
    assert_eq!(r.manufacturer, "Nexperia");
    assert_eq!(r.model, "NEVC-MTR1");
    assert_eq!(r.serial, "ABC");
    assert_eq!(r.firmware_version, "1.3");
}

#[test]
fn idn_parse_keeps_commas_in_version() {
    let r = IdnResponse::parse("a,b,c,d,e,f").unwrap();
    assert_eq!(r.firmware_version, "d,e,f");
}

#[test]
fn idn_parse_needs_four_fields() {
    assert!(IdnResponse::parse("a,b,c").is_none());
    assert!(IdnResponse::parse("").is_none());
    let r = IdnResponse::parse(",,,").unwrap();
    assert_eq!(r.manufacturer, "");
    assert_eq!(r.firmware_version, "");
}

#[test]
fn conf_frequency_text() {
    assert_eq!(conf_frequency(20000), "CONFigure:FREQuency 20000");
    assert_eq!(conf_frequency(0), "CONFigure:FREQuency 0");
    assert_eq!(conf_frequency(u32::MAX), "CONFigure:FREQuency 4294967295");
}

#[test]
fn parse_bool_replies() {
    assert_eq!(parse_bool("0"), Some(false));
    assert_eq!(parse_bool("1"), Some(true));
    assert_eq!(parse_bool(" 1\r\n"), Some(true));
    assert_eq!(parse_bool("2"), None);
    assert_eq!(parse_bool("10"), None);
    assert_eq!(parse_bool(""), None);
}

#[test]
fn frequency_range_bounds() {
    assert_eq!(check_frequency_range(FREQ_MIN_HZ), Ok(7183));
    assert_eq!(check_frequency_range(FREQ_MAX_HZ), Ok(100000));
    assert_eq!(check_frequency_range(20000), Ok(20000));
    let msg = "Frequency must be between 7183 Hz and 100000 Hz.".to_string();
    assert_eq!(check_frequency_range(7182), Err(msg.clone()));
    assert_eq!(check_frequency_range(100001), Err(msg.clone()));
    assert_eq!(check_frequency_range(0), Err(msg));
}

#[test]
fn command_lines_end_with_line_feed() {
    assert_eq!(command_line(IDN), "*IDN?\n");
    assert_eq!(command_line(SYS_ERROR_COUNT), "SYSTem:ERRor:COUNt?\n");
}

#[test]
fn reply_bytes_until_line_feed() {
    let mut buf = Vec::new();
    let mut done = false;
    for b in b"12\r\n34" {
        if accept_reply_byte(&mut buf, *b) {
            done = true;
            break;
        }
    }
    assert!(done);
    assert_eq!(buf, b"12\r".to_vec());
    assert_eq!(finish_reply(buf), Ok("12".to_string()));
}

#[test]
fn reply_keeps_inner_carriage_returns() {
    let mut buf = Vec::new();
    for b in b"a\rb\r\n" {
        if accept_reply_byte(&mut buf, *b) {
            break;
        }
    }
    assert_eq!(buf, b"a\rb\r".to_vec());
    assert_eq!(finish_reply(buf), Ok("a\rb".to_string()));
}

#[test]
fn reply_decoding() {
    assert_eq!(finish_reply(b"  1.5 ".to_vec()), Ok("1.5".to_string()));
    assert_eq!(finish_reply("µA".as_bytes().to_vec()), Ok("µA".to_string()));
    let e = finish_reply(vec![0xff, 0xfe]).unwrap_err();
    assert!(e.starts_with("Invalid UTF-8 in SCPI response: "));
    assert!(e.len() > "Invalid UTF-8 in SCPI response: ".len());
}

#[test]
fn error_count_reply() {
    assert_eq!(error_count("3"), 3);
    assert_eq!(error_count(" 12 "), 12);
    assert_eq!(error_count("+7"), 7);
    assert_eq!(error_count("-1"), 0);
    assert_eq!(error_count("x"), 0);
    assert_eq!(error_count(""), 0);
    assert_eq!(error_count("4294967296"), 0);
}

#[test]
fn error_summary_skips_no_error_entries() {
    let replies = vec![
        "0,\"No error\"".to_string(),
        "-113,\"Undefined header\"".to_string(),
        "-222,\"Data out of range\"".to_string(),
    ];
    assert_eq!(
        summarize_errors(&replies),
        "-113,\"Undefined header\"; -222,\"Data out of range\""
    );
    assert_eq!(summarize_errors(&vec!["0,\"No error\"".to_string()]), "");
    assert_eq!(summarize_errors(&vec![]), "");
}

#[test]
fn idn_from_reply_quotes_unreadable_replies() {
    let idn = idn_from_reply("Nexperia,NEVC-MTR1,8-4E20,1.2.0").unwrap();
    assert_eq!(idn.serial, "8-4E20");
    assert_eq!(idn_from_reply("garbage").unwrap_err(), "Could not parse IDN: 'garbage'");
    assert_eq!(idn_from_reply("").unwrap_err(), "Could not parse IDN: ''");
}

#[test]
fn error_queue_report_texts() {
    assert_eq!(error_queue_report(Ok("-113,\"Undefined header\"".to_string())), "-113,\"Undefined header\"");
    assert_eq!(error_queue_report(Ok(String::new())), "");
    assert_eq!(error_queue_report(Err("Write error: x".to_string())), "(error queue check failed: Write error: x)");
}

#[test]
fn error_queue_steps() {
    let mut q = ErrorQueueRead::start(" 2\r");
    assert_eq!(q.remaining, 2);
    assert_eq!(q.next_query(), Some("SYSTem:ERRor?"));
    q.take_reply("-113,\"Undefined header\"".to_string());
    assert_eq!(q.next_query(), Some("SYSTem:ERRor?"));
    q.take_reply("0,\"No error\"".to_string());
    assert_eq!(q.next_query(), None);
    assert_eq!(q.summary(), "-113,\"Undefined header\"");
    let empty = ErrorQueueRead::start("junk");
    assert_eq!(empty.next_query(), None);
    assert_eq!(empty.summary(), "");
}
