use moonbeam::http::{Body, Response};
use moonbeam::server::parsing::{get_important_headers, parse_http_request, scan_for_header_end};
use moonbeam::server::write_response;

const DATE: &str = "Wed, 21 Oct 2015 07:28:00 GMT";

fn head_of(response: &Response, size: usize) -> String {
    let mut buffer = vec![0u8; size];
    let n = write_response(response, DATE, &mut buffer).ok().unwrap();
    String::from_utf8(buffer[..n].to_vec()).unwrap()
}

#[test]
fn test_write_response() {
    let response = Response::new_with_code(201)
        .with_header("X-Custom", "test")
        .with_body(Body::from_text("test body"), None);

    let response_str = head_of(&response, 256);

    // Should contain status line
    assert!(response_str.contains("HTTP/1.1 201"));

    // Should contain custom header
    assert!(response_str.contains("X-Custom: test"));

    // Should contain default headers
    assert!(response_str.contains("Server: moonbeam/0.3"));
    assert!(response_str.contains("Content-Type: application/octet-stream"));
    assert!(response_str.contains("Content-Length: 9"));
    assert!(response_str.contains("Date:"));

    // Should end with \r\n\r\n
    assert!(response_str.ends_with("\r\n\r\n"));
}

#[test]
fn test_write_response_custom_headers_override_defaults() {
    let response = Response::ok()
        .with_header("Server", "custom-server")
        .with_header("Content-Type", "text/plain");

    let response_str = head_of(&response, 256);

    // Should use custom headers instead of defaults
    assert!(response_str.contains("Server: custom-server"));
    assert!(response_str.contains("Content-Type: text/plain"));

    // Should not contain default server header
    assert!(!response_str.contains("Server: moonbeam/0.1"));
    assert!(!response_str.contains("Content-Type: application/octet-stream"));
}

#[test]
fn test_write_response_all_default_headers_set() {
    let response = Response::ok()
        .with_body(Body::from_text("hello"), None)
        .with_header("Server", "custom-server")
        .with_header("Date", "Wed, 21 Oct 2015 07:28:00 GMT")
        .with_header("Content-Type", "text/plain")
        .with_header("Content-Length", "5");

    let response_str = head_of(&response, 512);

    // Should only contain custom headers, no duplicate defaults
    assert!(response_str.contains("Server: custom-server"));
    assert!(response_str.contains("Date: Wed, 21 Oct 2015 07:28:00 GMT"));
    assert!(response_str.contains("Content-Type: text/plain"));
    assert!(response_str.contains("Content-Length: 5"));

    // Count occurrences to ensure no duplicates
    assert_eq!(response_str.matches("Server:").count(), 1);
    assert_eq!(response_str.matches("Date:").count(), 1);
    assert_eq!(response_str.matches("Content-Type:").count(), 1);
    assert_eq!(response_str.matches("Content-Length:").count(), 1);
}

#[test]
fn test_write_response_empty_body() {
    let response = Response::empty();

    let response_str = head_of(&response, 128);

    assert!(response_str.contains("HTTP/1.1 204"));
    assert!(!response_str.contains("Content-Length"));
}

#[test]
fn test_header_stripping_304() {
    // Response with content headers but 304 status
    let response = Response::not_modified(Some("text/html"))
        .with_header("Content-Length", "100")
        .with_header("ETag", "\"123\"");

    let head_str = head_of(&response, 1024);

    assert!(head_str.contains("HTTP/1.1 304 Not Modified"));
    assert!(head_str.contains("ETag: \"123\""));
    assert!(!head_str.contains("Content-Type"));
    assert!(!head_str.contains("Content-Length"));
}

#[test]
fn test_header_stripping_204() {
    // Response with content headers but 204 status
    let response = Response::empty()
        .with_header("Content-Type", "application/json")
        .with_header("Content-Length", "50");

    let head_str = head_of(&response, 1024);

    assert!(head_str.contains("HTTP/1.1 204 No Content"));
    assert!(!head_str.contains("Content-Type"));
    assert!(!head_str.contains("Content-Length"));
}

#[test]
fn write_response_exact_head() {
    let response = Response::ok().with_body(Body::from_text("hi"), Some(Body::TEXT));
    assert_eq!(
        head_of(&response, 512),
        "HTTP/1.1 200 OK\r\nContent-Type: text/plain; charset=utf-8\r\nServer: moonbeam/0.3.0\r\n\
         Date: Wed, 21 Oct 2015 07:28:00 GMT\r\nContent-Length: 2\r\n\r\n"
    );
    let stream = Response::ok().with_body(Body::Stream { len: None }, None);
    assert!(head_of(&stream, 512).contains("Transfer-Encoding: chunked\r\n"));
    let none = Response::ok();
    assert!(head_of(&none, 512).ends_with("Content-Length: 0\r\n\r\n"));
    assert!(!head_of(&none, 512).contains("Content-Type"));
}

#[test]
fn write_response_too_small_buffer() {
    let response = Response::ok();
    let mut buffer = vec![7u8; 10];
    assert!(write_response(&response, DATE, &mut buffer).is_err());
    assert_eq!(buffer, vec![7u8; 10]);
}

#[test]
fn written_head_reads_back() {
    // The server's own scan finds exactly the head it wrote, and the length it wrote
    // reads back.
    let response = Response::ok()
        .with_header("X-A", "1")
        .with_body(Body::from_vec(vec![b'z'; 1234]), Some(Body::TEXT));
    let mut buffer = vec![0u8; 512];
    let n = write_response(&response, DATE, &mut buffer).ok().unwrap();
    assert_eq!(scan_for_header_end(&buffer[..n]), Some(n));
    let mut as_request = b"GET / HTTP/1.1\r\n".to_vec();
    let head = &buffer[..n];
    let first_line_end = head.windows(2).position(|w| w == b"\r\n").unwrap() + 2;
    as_request.extend_from_slice(&head[first_line_end..]);
    let req = parse_http_request(&as_request).ok().unwrap();
    assert_eq!(get_important_headers(&req).0, 1234);
}
