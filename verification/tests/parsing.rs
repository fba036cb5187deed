use moonbeam::http::{Header, Request};
use moonbeam::server::parsing::{
    get_important_headers, parse_decimal_usize, parse_http_request, scan_for_header_end, ParseError,
};

#[test]
fn test_header_scan() {
    let request = b"POST /users HTTP/1.1\r\nHost: example.com\r\n\
        Content-Type: application/x-www-form-urlencoded\r\nContent-Length: 49\r\n\r\n\
        name=FirstName+LastName&email=bsmth%40example.com";
    assert_eq!(scan_for_header_end(request), Some(112));

    let request = b"POST /users HTTP/1.1\r\n\n\nHost: example.com\r\n\
        Content-Type: application/x-www-form-urlencoded\r\nContent-Length: 49\r\n\r\n";
    assert_eq!(scan_for_header_end(request), Some(114));

    let request = b"GET /file HTTP/1.1\r\nHost: example.com\r\n\r\n";
    assert_eq!(scan_for_header_end(request), Some(41));

    assert_eq!(scan_for_header_end(b"\r\n\r\nXXXXXXXXXXXX"), Some(4));
    assert_eq!(scan_for_header_end(b"X\r\n\r\nXXXXXXXXXXX"), Some(5));
    assert_eq!(scan_for_header_end(b"XX\r\n\r\nXXXXXXXXXX"), Some(6));
    assert_eq!(scan_for_header_end(b"XXX\r\n\r\nXXXXXXXXX"), Some(7));
    assert_eq!(scan_for_header_end(b"XXXX\r\n\r\nXXXXXXXX"), Some(8));
    assert_eq!(scan_for_header_end(b"XXXXX\r\n\r\nXXXXXXX"), Some(9));
    assert_eq!(scan_for_header_end(b"XXXXXX\r\n\r\nXXXXXX"), Some(10));
    assert_eq!(scan_for_header_end(b"XXXXXXX\r\n\r\nXXXXX"), Some(11));
    assert_eq!(scan_for_header_end(b"XXXXXXXX\r\n\r\nXXXX"), Some(12));
    assert_eq!(scan_for_header_end(b"XXXXXXXXX\r\n\r\nXXX"), Some(13));
    assert_eq!(scan_for_header_end(b"XXXXXXXXXX\r\n\r\nXX"), Some(14));
    assert_eq!(scan_for_header_end(b"XXXXXXXXXXX\r\n\r\nX"), Some(15));
    assert_eq!(scan_for_header_end(b"XXXXXXXXXXXX\r\n\r\n"), Some(16));
    assert_eq!(scan_for_header_end(b"XXXXXXXXXXXXX\r\n\r\nXXXXXXXXXXXXXXX"), Some(17));
    assert_eq!(scan_for_header_end(b"XX\nXXXXXXXXXXXXXXXXXXXXXXXXX\r\n\r\n"), Some(32));
    assert_eq!(scan_for_header_end(b"XX\r\nXXXXXXXXXX\r\n\r\nXXXXXXXXXXXXXX"), Some(18));

    assert_eq!(scan_for_header_end(b"Header: value\r\n\nAnother: value\r\n\r\n"), Some(34));
}

#[test]
fn test_scan_for_header_end_not_found() {
    assert_eq!(scan_for_header_end(b"XXXXXXXXXXXXXXXX"), None);
    assert_eq!(scan_for_header_end(b"XXXXXXXXXXXXXXXXXXXXXXXXXXXXXXXX"), None);
    assert_eq!(scan_for_header_end(b"\rX\nXXX\rXXX\rXX\nX\n"), None);
    assert_eq!(scan_for_header_end(b"Header: value\r\n"), None);
    assert_eq!(scan_for_header_end(b"X\nXX\nXX\nXX\nXX\nXX\nXX\nXX\nXX\nXX\nXX\n"), None);
    assert_eq!(scan_for_header_end(b"X\nXXXXXXXXXXXXXXXXXXXXXXXXXXXXXX"), None);
    assert_eq!(
        scan_for_header_end(b"\n\n\n\n\n\n\n\n\n\n\n\n\n\n\n\n\n\n\n\n\n\n\n\n\n\n\n\n\n\n\n\n"),
        None
    );
}

#[test]
fn parse_request_head() {
    let head = b"POST /a?b=c HTTP/1.1\r\nHost: x\r\nContent-Length: 12\r\nConnection: close\r\n\r\n";
    let req = parse_http_request(head).ok().unwrap();
    assert_eq!(req.method, "POST");
    assert_eq!(req.path, "/a?b=c");
    assert_eq!(req.version, 1);
    assert_eq!(req.headers.len(), 3);
    assert!(req.body.is_empty());
    assert_eq!(get_important_headers(&req), (12, true));

    assert!(matches!(parse_http_request(b"GET / HTTP/1.1\r\nHost"), Err(ParseError::NoEndFound)));
    assert!(matches!(parse_http_request(b"GET / HTTP/1.1\r\nBad Header\r\n\r\n"), Err(ParseError::HTTPParseError(_))));
}

#[test]
fn important_headers_last_wins() {
    let headers = [
        Header::new("content-length", b"5"),
        Header::new("Connection", b"CLOSE"),
        Header::new("Content-Length", b"x7"),
        Header::new("connection", b"keep-alive"),
    ];
    let req = Request::new("GET", "/", &headers, &[]);
    assert_eq!(get_important_headers(&req), (0, false));
}

#[test]
fn decimal_parsing() {
    assert_eq!(parse_decimal_usize(b"0"), Some(0));
    assert_eq!(parse_decimal_usize(b"1234"), Some(1234));
    assert_eq!(parse_decimal_usize(b""), None);
    assert_eq!(parse_decimal_usize(b"12a"), None);
    assert_eq!(parse_decimal_usize(b"99999999999999999999999"), None);
}
