use rcb::errors::BenchError;
use rcb::protocol::{marker_line, parse_detail_line, scan_timer_lines};

#[test]
fn marker_single_line_parses() {
    assert_eq!(scan_timer_lines("rcb-rustc-timer:12345"), Ok(12345));
}

#[test]
fn marker_found_among_noise_and_whitespace() {
    let stderr = "warning: something\n  rcb-rustc-timer:777 \nnote: done\n";
    assert_eq!(scan_timer_lines(stderr), Ok(777));
}

#[test]
fn marker_missing_is_protocol_error() {
    assert_eq!(
        scan_timer_lines("warning: nothing timed here\n"),
        Err(BenchError::ProtocolError)
    );
}

#[test]
fn marker_twice_is_protocol_error() {
    let stderr = "rcb-rustc-timer:1\nrcb-rustc-timer:2\n";
    assert_eq!(scan_timer_lines(stderr), Err(BenchError::ProtocolError));
}

#[test]
fn marker_bad_value_is_protocol_error() {
    assert_eq!(
        scan_timer_lines("rcb-rustc-timer:12x45\n"),
        Err(BenchError::ProtocolError)
    );
    assert_eq!(
        scan_timer_lines("rcb-rustc-timer:\n"),
        Err(BenchError::ProtocolError)
    );
}

#[test]
fn marker_value_overflow_is_protocol_error() {
    assert_eq!(
        scan_timer_lines("rcb-rustc-timer:99999999999999999999999999\n"),
        Err(BenchError::ProtocolError)
    );
}

#[test]
fn marker_line_roundtrip() {
    let line = marker_line(42);
    assert_eq!(line, "rcb-rustc-timer:42");
    assert_eq!(scan_timer_lines(line.as_str()), Ok(42));
    let line = marker_line(18446744073709551615);
    assert_eq!(scan_timer_lines(line.as_str()), Ok(18446744073709551615));
}

#[test]
fn detail_line_parses_fields() {
    let line: Vec<char> = "time:{\"pass\":\"typeck\",\"time\":0.5,\"rss_start\":100,\"rss_end\":200}"
        .chars()
        .collect();
    let sample = parse_detail_line(&line).unwrap();
    assert_eq!(sample.name, "typeck");
    assert_eq!(sample.nanos, 500000000);
    assert_eq!(sample.rss_start, 100);
    assert_eq!(sample.rss_end, 200);
}

#[test]
fn detail_line_whole_seconds_and_long_fraction() {
    let line: Vec<char> = "time:{\"pass\":\"total\",\"time\":2,\"rss_start\":1,\"rss_end\":2}"
        .chars()
        .collect();
    let sample = parse_detail_line(&line).unwrap();
    assert_eq!(sample.nanos, 2000000000);
    // digits beyond nanosecond resolution are dropped
    let line: Vec<char> =
        "time:{\"pass\":\"x\",\"time\":0.1234567899,\"rss_start\":0,\"rss_end\":0}"
            .chars()
            .collect();
    let sample = parse_detail_line(&line).unwrap();
    assert_eq!(sample.nanos, 123456789);
}

#[test]
fn detail_line_malformed_is_rejected() {
    let missing_field: Vec<char> = "time:{\"pass\":\"x\",\"time\":0.5,\"rss_start\":1}"
        .chars()
        .collect();
    assert!(parse_detail_line(&missing_field).is_none());
    let trailing: Vec<char> = "time:{\"pass\":\"x\",\"time\":0.5,\"rss_start\":1,\"rss_end\":2}!"
        .chars()
        .collect();
    assert!(parse_detail_line(&trailing).is_none());
    let no_digits: Vec<char> = "time:{\"pass\":\"x\",\"time\":.5,\"rss_start\":1,\"rss_end\":2}"
        .chars()
        .collect();
    assert!(parse_detail_line(&no_digits).is_none());
}
