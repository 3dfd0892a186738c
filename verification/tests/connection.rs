use video_scheduler::errors::ServerError;
use video_scheduler::http::{plan_connection, plan_parsed_request, response_header, HeaderField, ParsedRequest};

#[test]
fn instructor_get_with_range() {
    let plan = plan_connection(b"GET /instructor HTTP/1.1\r\nHost: x\r\nRange: bytes=5-10\r\n\r\n", 1000).unwrap();
    assert!(plan.instructor);
    assert!(plan.partial_content);
    assert_eq!(plan.range, Some((5, 10)));
}

#[test]
fn observer_without_range() {
    let plan = plan_connection(b"GET /video HTTP/1.1\r\nHost: x\r\n\r\n", 1000).unwrap();
    assert!(!plan.instructor);
    assert!(plan.partial_content);
    assert_eq!(plan.range, None);
}

#[test]
fn other_method_is_not_found() {
    let plan = plan_connection(b"POST /instructor HTTP/1.1\r\n\r\n", 10).unwrap();
    assert!(plan.instructor);
    assert!(!plan.partial_content);
}

#[test]
fn range_header_name_ignores_case() {
    let plan = plan_connection(b"GET / HTTP/1.1\r\nrAnGe: bytes=1-\r\n\r\n", 77).unwrap();
    assert_eq!(plan.range, Some((1, 77)));
}

#[test]
fn first_range_header_wins() {
    let plan = plan_connection(b"GET / HTTP/1.1\r\nRange: 1-2\r\nRange: 3-4\r\n\r\n", 77).unwrap();
    assert_eq!(plan.range, Some((1, 2)));
}

#[test]
fn malformed_range_is_refused() {
    match plan_connection(b"GET / HTTP/1.1\r\nRange: bytes=1-2-3\r\n\r\n", 77) {
        Err(ServerError::CustomError(m)) => assert_eq!(m, "Invalid range format."),
        other => panic!("unexpected {:?}", other),
    }
}

#[test]
fn non_utf8_range_is_refused() {
    match plan_connection(b"GET / HTTP/1.1\r\nRange: \xff-\xfe\r\n\r\n", 77) {
        Err(ServerError::Critical(m)) => assert_eq!(m, "Range header is not valid UTF-8"),
        other => panic!("unexpected {:?}", other),
    }
}

#[test]
fn garbage_is_refused() {
    match plan_connection(b"\x01\x02 nonsense", 77) {
        Err(ServerError::Critical(m)) => assert_eq!(m, "Failed to parse HTTP request"),
        other => panic!("unexpected {:?}", other),
    }
}

#[test]
fn partial_request_keeps_its_request_line() {
    let plan = plan_connection(b"GET /instructor HTTP/1.1\r\nHost:", 5).unwrap();
    assert!(plan.instructor);
    assert!(plan.partial_content);
    assert_eq!(plan.range, None);
}

#[test]
fn zero_padded_buffer_is_read() {
    let mut buf = [0u8; 1024];
    let req = b"GET /instructor HTTP/1.1\r\nRange: bytes=0-99\r\n\r\n";
    buf[..req.len()].copy_from_slice(req);
    let plan = plan_connection(&buf, 100).unwrap();
    assert!(plan.instructor);
    assert_eq!(plan.range, Some((0, 99)));
}

#[test]
fn parsed_request_without_parser() {
    let req = ParsedRequest {
        method: Some("GET".to_string()),
        path: Some("/instructor".to_string()),
        headers: vec![
            HeaderField { name: b"Host".to_vec(), value: b"a".to_vec() },
            HeaderField { name: b"RANGE".to_vec(), value: b"bytes=9-".to_vec() },
        ],
    };
    let plan = plan_parsed_request(&req, 50).unwrap();
    assert!(plan.instructor && plan.partial_content);
    assert_eq!(plan.range, Some((9, 50)));
}

#[test]
fn path_must_match_exactly() {
    let req = ParsedRequest { method: Some("get".to_string()), path: Some("/instructor/".to_string()), headers: vec![] };
    let plan = plan_parsed_request(&req, 50).unwrap();
    assert!(!plan.instructor);
    assert!(!plan.partial_content);
}

#[test]
fn response_header_for_found_video() {
    assert_eq!(
        response_header(true, 1000),
        "HTTP/1.1 206 Partial Content\r\nAccept-Ranges: bytes \r\nContent-Range: bytes 0-999/1000 \r\nContent-Type: application/octet-stream \r\nContent-Length: 1000 \r\nAccess-Control-Allow-Origin: * \r\n\r\n"
    );
}

#[test]
fn response_header_for_other_method() {
    assert_eq!(
        response_header(false, 1),
        "HTTP/1.1 404 NOT FOUND\r\nAccept-Ranges: bytes \r\nContent-Range: bytes 0-0/1 \r\nContent-Type: application/octet-stream \r\nContent-Length: 1 \r\nAccess-Control-Allow-Origin: * \r\n\r\n"
    );
}

#[test]
fn response_header_for_largest_length() {
    let h = response_header(true, u64::MAX);
    assert!(h.contains("bytes 0-18446744073709551614/18446744073709551615 "));
    assert!(h.contains("Content-Length: 18446744073709551615 "));
}
