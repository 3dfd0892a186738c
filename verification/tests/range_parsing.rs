use video_scheduler::errors::ServerError;
use video_scheduler::range::{parse_byte_range_bytes, parse_byte_range_request};

fn custom_message(res: Result<(u64, u64), ServerError>) -> String {
    match res {
        Err(ServerError::CustomError(m)) => m,
        other => panic!("expected a custom error, got {:?}", other),
    }
}

#[test]
fn full_range_is_read() {
    assert_eq!(parse_byte_range_request("bytes=0-1023", 0, 100).unwrap(), (0, 1023));
}

#[test]
fn open_end_takes_end_default() {
    assert_eq!(parse_byte_range_request("bytes=500-", 0, 4096).unwrap(), (500, 4096));
}

#[test]
fn open_start_takes_start_default() {
    assert_eq!(parse_byte_range_request("bytes=-200", 7, 4096).unwrap(), (7, 200));
}

#[test]
fn lone_dash_takes_both_defaults() {
    assert_eq!(parse_byte_range_request("-", 3, 9).unwrap(), (3, 9));
}

#[test]
fn repeated_unit_is_trimmed() {
    assert_eq!(parse_byte_range_request("bytes=bytes=7-9", 0, 0).unwrap(), (7, 9));
}

#[test]
fn unit_without_prefix_is_not_needed() {
    assert_eq!(parse_byte_range_request("12-34", 0, 0).unwrap(), (12, 34));
}

#[test]
fn plus_sign_is_accepted() {
    assert_eq!(parse_byte_range_request("bytes=+5-+6", 0, 0).unwrap(), (5, 6));
}

#[test]
fn lone_plus_is_not_a_number() {
    assert_eq!(parse_byte_range_request("bytes=+-+", 1, 2).unwrap(), (1, 2));
}

#[test]
fn unit_is_case_sensitive() {
    assert_eq!(parse_byte_range_request("Bytes=5-6", 11, 0).unwrap(), (11, 6));
}

#[test]
fn whitespace_is_not_a_number() {
    assert_eq!(parse_byte_range_request(" 5-6 ", 11, 22).unwrap(), (11, 22));
}

#[test]
fn largest_u64_is_read() {
    assert_eq!(
        parse_byte_range_request("18446744073709551615-0", 1, 1).unwrap(),
        (u64::MAX, 0)
    );
}

#[test]
fn overflow_takes_default() {
    assert_eq!(parse_byte_range_request("18446744073709551616-1", 42, 0).unwrap(), (42, 1));
}

#[test]
fn leading_zeros_are_read() {
    assert_eq!(parse_byte_range_request("bytes=007-0010", 0, 0).unwrap(), (7, 10));
}

#[test]
fn two_dashes_are_refused() {
    assert_eq!(custom_message(parse_byte_range_request("bytes=1-2-3", 0, 0)), "Invalid range format.");
}

#[test]
fn no_dash_is_refused() {
    assert_eq!(custom_message(parse_byte_range_request("bytes=100", 0, 0)), "Invalid range format.");
}

#[test]
fn empty_text_is_refused() {
    assert_eq!(custom_message(parse_byte_range_request("", 0, 0)), "Invalid range format.");
}

#[test]
fn non_ascii_text_is_split_at_dash() {
    assert_eq!(parse_byte_range_request("é-5", 8, 0).unwrap(), (8, 5));
}

#[test]
fn bytes_version_agrees() {
    assert_eq!(parse_byte_range_bytes(b"bytes=3-4", 0, 0).unwrap(), (3, 4));
    assert_eq!(custom_message(parse_byte_range_bytes(b"3", 0, 0)), "Invalid range format.");
}

#[test]
fn written_range_reads_back() {
    for (a, b) in [(0u64, 0u64), (1, 99), (123456, 7), (u64::MAX, u64::MAX - 1)] {
        let text = format!("bytes={}-{}", a, b);
        assert_eq!(parse_byte_range_request(&text, 5, 6).unwrap(), (a, b));
    }
}
