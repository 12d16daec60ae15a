use winusb_switcher_lite::error::AppError;
use winusb_switcher_lite::runner::{failure_message_of, parse_version, run_output_result, run_result};

#[test]
fn parse_version_reads_banner_line() {
    let out = "SEGGER J-Link Commander V7.94e (Compiled Jan 15 2024 15:19:51)\nDLL version V7.94e, compiled Jan 15 2024\n";
    assert_eq!(parse_version(out), Some("SEGGER J-Link Commander V7.94e".to_string()));
}

#[test]
fn parse_version_skips_lines_without_version() {
    let out = "Connecting...\r\nSEGGER J-Link Commander without version\r\nSEGGER J-Link Commander V8.10\r\n";
    assert_eq!(parse_version(out), Some("SEGGER J-Link Commander V8.10".to_string()));
}

#[test]
fn parse_version_takes_text_up_to_next_v() {
    let out = "SEGGER J-Link Commander V6.98aVextra";
    assert_eq!(parse_version(out), Some("SEGGER J-Link Commander V6.98a".to_string()));
}

#[test]
fn parse_version_none_when_absent() {
    assert_eq!(parse_version(""), None);
    assert_eq!(parse_version("J-Link not found\n"), None);
    assert_eq!(parse_version("SEGGER J-Link Commander V"), None);
    assert_eq!(parse_version("SEGGER J-Link Commander V   \nother"), None);
}

#[test]
fn parse_version_first_line_wins() {
    let out = "SEGGER J-Link Commander V7.00\nSEGGER J-Link Commander V8.00\n";
    assert_eq!(parse_version(out), Some("SEGGER J-Link Commander V7.00".to_string()));
}

#[test]
fn failure_message_names_missing_library() {
    let m = failure_message_of(Some(1), "x\nCould not open J-Link shared library.\n", "err");
    assert_eq!(m, "exit=1 (Could not open J-Link shared library)");
}

#[test]
fn failure_message_quotes_trimmed_stderr() {
    let m = failure_message_of(Some(-1), "banner", "  boom \n");
    assert_eq!(m, "exit=-1 stderr=boom");
}

#[test]
fn failure_message_quotes_first_stdout_line() {
    let m = failure_message_of(None, "  first line \r\nsecond", " \t\n");
    assert_eq!(m, "exit=? stdout=first line");
    let m = failure_message_of(Some(i32::MIN), "", "");
    assert_eq!(m, "exit=-2147483648 stdout=");
    let m = failure_message_of(Some(0), "\u{3000}wide\u{3000}", "\u{85}");
    assert_eq!(m, "exit=0 stdout=wide");
}

#[test]
fn run_result_success_keeps_output() {
    let r = run_result(true, Some(0), "out".to_string(), "err".to_string());
    assert_eq!(r, Ok(("out".to_string(), "err".to_string())));
}

#[test]
fn run_result_failure_is_jlink_failed() {
    let r = run_result(false, Some(255), "line one\nline two".to_string(), String::new());
    assert_eq!(r, Err(AppError::JLinkFailed("exit=255 stdout=line one".to_string())));
}

#[test]
fn run_output_decodes_bytes_lossily() {
    let r = run_output_result(true, Some(0), b"SEGGER J-Link \xffV9", b"");
    assert_eq!(r, Ok(("SEGGER J-Link \u{fffd}V9".to_string(), String::new())));
}

#[test]
fn run_output_failure_uses_decoded_stderr() {
    let r = run_output_result(false, Some(1), b"", b"  bad \xfe device \n");
    assert_eq!(r, Err(AppError::JLinkFailed("exit=1 stderr=bad \u{fffd} device".to_string())));
    let r = run_output_result(false, None, b"Could not open J-Link shared library", b"x");
    assert_eq!(r, Err(AppError::JLinkFailed("exit=? (Could not open J-Link shared library)".to_string())));
}
