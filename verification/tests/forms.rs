use moonbeam::forms::{field_from_head, Form, FormData, FormError, Multipart};
use moonbeam::http::{Body, Header, Request};

fn text(s: &str) -> FormData {
    FormData::Text(s.to_string())
}

fn named(n: &str, v: &str) -> Option<(Option<String>, FormData)> {
    Some((Some(n.to_string()), text(v)))
}

#[test]
fn test_get_urlencoded_form() {
    let request = Request::new("GET", "/test?foo=bar&baz=qux&foo=asd", &[], &[]);
    let form = Form::try_from(&request).ok().unwrap();
    let mut it = form.find("foo");
    assert_eq!(it.next(), Some(text("bar")));
    assert_eq!(it.next(), Some(text("asd")));
    assert_eq!(it.next(), None);
    it = form.find("baz");
    assert_eq!(it.next(), Some(text("qux")));
    assert_eq!(it.next(), None);

    let mut it = form.iter();
    assert_eq!(it.next(), named("foo", "bar"));
    assert_eq!(it.next(), named("baz", "qux"));
    assert_eq!(it.next(), named("foo", "asd"));
    assert_eq!(it.next(), None);
}

#[test]
fn test_post_urlencoded_form() {
    let headers = [Header::new("Content-Type", b"application/x-www-form-urlencoded")];
    let request = Request::new("POST", "/test", &headers, b"foo=bar&baz=qux&foo=asd");
    let form = Form::try_from(&request).ok().unwrap();
    let mut it = form.find("foo");
    assert_eq!(it.next(), Some(text("bar")));
    assert_eq!(it.next(), Some(text("asd")));
    assert_eq!(it.next(), None);
    it = form.find("baz");
    assert_eq!(it.next(), Some(text("qux")));
    assert_eq!(it.next(), None);

    let mut it = form.iter();
    assert_eq!(it.next(), named("foo", "bar"));
    assert_eq!(it.next(), named("baz", "qux"));
    assert_eq!(it.next(), named("foo", "asd"));
    assert_eq!(it.next(), None);
}

#[test]
fn test_basic_multipart_form() {
    let headers = [Header::new("Content-Type", b"multipart/form-data; boundary=WebKitFormBoundary")];
    let body = b"--WebKitFormBoundary\r\n\
                Content-Disposition: form-data; name=\"foo\"\r\n\
                \r\n\
                bar\r\n\
                --WebKitFormBoundary\r\n\
                Content-Disposition: form-data; name=\"baz\"\r\n\
                \r\n\
                qux\r\n\
                --WebKitFormBoundary\r\n\
                Content-Disposition: form-data; name=\"foo\"\r\n\
                \r\n\
                asd\r\n\
                --WebKitFormBoundary--";
    let request = Request::new("POST", "/test", &headers, body);
    let form = Form::try_from(&request).ok().unwrap();
    let mut it = form.find("foo");
    assert_eq!(it.next(), Some(text("bar")));
    assert_eq!(it.next(), Some(text("asd")));
    assert_eq!(it.next(), None);
    it = form.find("baz");
    assert_eq!(it.next(), Some(text("qux")));
    assert_eq!(it.next(), None);

    let mut it = form.iter();
    assert_eq!(it.next(), named("foo", "bar"));
    assert_eq!(it.next(), named("baz", "qux"));
    assert_eq!(it.next(), named("foo", "asd"));
    assert_eq!(it.next(), None);
}

#[test]
fn test_multipart_form_with_file() {
    let headers = [Header::new("Content-Type", b"multipart/form-data; boundary=WebKitFormBoundary")];
    let body = b"--WebKitFormBoundary\r\n\
                Content-Disposition: form-data; name=\"foo\"\r\n\
                \r\n\
                bar\r\n\
                --WebKitFormBoundary\r\n\
                Content-Disposition: form-data; name=\"baz\"; filename=\"test\"\r\n\
                \r\n\
                qux\r\n\
                --WebKitFormBoundary\r\n\
                Content-Disposition: form-data; name=\"asd\"; filename=\"\"\r\n\
                Content-Type: application/json\r\n\
                \r\n\
                {\"hello\": \"world\"}\r\n\
                --WebKitFormBoundary--";
    let request = Request::new("POST", "/test", &headers, body);
    let form = Form::try_from(&request).ok().unwrap();
    let mut it = form.find("foo");
    assert_eq!(it.next(), Some(text("bar")));
    assert_eq!(it.next(), None);
    it = form.find("baz");
    assert_eq!(
        it.next(),
        Some(FormData::File {
            name: Some("test".to_string()),
            content_type: None,
            data: b"qux".to_vec(),
        })
    );
    assert_eq!(it.next(), None);
    it = form.find("asd");
    assert_eq!(
        it.next(),
        Some(FormData::File {
            name: Some("".to_string()),
            content_type: Some("application/json".to_string()),
            data: b"{\"hello\": \"world\"}".to_vec(),
        })
    );
    assert_eq!(it.next(), None);
}

#[test]
fn form_errors() {
    let put = Request::new("PUT", "/", &[], &[]);
    assert!(matches!(Form::try_from(&put), Err(FormError::MethodNotAllowed)));

    let no_type = Request::new("POST", "/", &[], b"a=b");
    assert!(matches!(Form::try_from(&no_type), Err(FormError::MissingOrInvalidContentType)));

    let other = [Header::new("Content-Type", b"text/plain")];
    let other = Request::new("post", "/", &other, b"a=b");
    assert!(matches!(Form::try_from(&other), Err(FormError::MissingOrInvalidContentType)));

    let url = [Header::new("content-type", b"application/x-www-form-urlencoded; charset=utf-8")];
    let bad = Request::new("POST", "/", &url, &[0x61, 0x3d, 0xff]);
    assert!(matches!(Form::try_from(&bad), Err(FormError::InvalidUtf8)));

    let multi = [Header::new("Content-Type", b"multipart/form-data")];
    let nob = Request::new("POST", "/", &multi, b"");
    assert!(matches!(Form::try_from(&nob), Err(FormError::MissingMutlipartBoundary)));
}

#[test]
fn form_error_responses() {
    let r = FormError::InvalidUtf8.into_response();
    assert_eq!(r.status, 400);
    assert_eq!(r.headers.get(0).1, Body::TEXT);
    match r.body {
        Some(Body::Immediate(b)) => assert_eq!(b, b"Invalid UTF-8".to_vec()),
        _ => panic!("expected a body"),
    }
    let r = FormError::MissingMutlipartBoundary.into_response();
    assert_eq!(r.status, 400);
    let r = FormError::MissingOrInvalidContentType.into_response();
    match r.body {
        Some(Body::Immediate(b)) => assert_eq!(b, b"Missing or invalid Content-Type header".to_vec()),
        _ => panic!("expected a body"),
    }
    let r = FormError::MethodNotAllowed.into_response();
    assert_eq!(r.status, 405);
    assert!(r.body.is_none());
}

#[test]
fn multipart_stops_at_unparsable_part() {
    let body = b"--B\r\nContent-Disposition: form-data; name=\"a\"\r\n\r\n1\r\n--B\r\nno colon here\r\n\r\nx\r\n--B\r\nContent-Disposition: form-data; name=\"a\"\r\n\r\n2\r\n--B--";
    let m = Multipart::new(b"B", body);
    let mut it = m.find("a");
    assert_eq!(it.next(), Some(text("1")));
    // The second part cannot be parsed: that read yields nothing.
    assert_eq!(it.next(), None);
    // Reading on passes over it.
    assert_eq!(it.next(), Some(text("2")));
    assert_eq!(it.next(), None);

    let mut all = m.iter();
    assert_eq!(all.next(), named("a", "1"));
    assert_eq!(all.next(), None);
    assert_eq!(all.next(), named("a", "2"));
    assert_eq!(all.next(), None);
}

#[test]
fn multipart_without_boundary_is_empty() {
    let m = Multipart::new(b"B", b"no boundary at all");
    assert_eq!(m.iter().next(), None);
    let plain = b"--B\r\nContent-Disposition: form-data; name=\"t\"\r\nContent-Type: text/plain\r\n\r\nv\r\n--B--";
    let m = Multipart::new(b"B", plain);
    assert_eq!(m.find("t").next(), Some(text("v")));
}

#[test]
fn plain_text_part_is_text() {
    let body = b"--B\r\nContent-Disposition: form-data; name=\"t\"\r\nContent-Type: text/plain\r\n\r\nhello\r\n--B--";
    let m = Multipart::new(b"B", body);
    assert_eq!(m.find("t").next(), Some(text("hello")));
    // Any other content type makes the part a file.
    let body = b"--B\r\nContent-Disposition: form-data; name=\"t\"\r\nContent-Type: text/html\r\n\r\nhello\r\n--B--";
    let m = Multipart::new(b"B", body);
    assert_eq!(
        m.find("t").next(),
        Some(FormData::File { name: None, content_type: Some("text/html".to_string()), data: b"hello".to_vec() })
    );
}

#[test]
fn field_from_parsed_head() {
    let part = b"HEAD....data";
    let headers = vec![
        Header::new("Content-Disposition", b"form-data; name=\"f\"; filename=\"a.txt\""),
        Header::new("Content-Type", b"text/plain"),
    ];
    let (name, value) = field_from_head(part, 8, &headers);
    assert_eq!(name, Some(b"f".to_vec()));
    assert_eq!(
        value,
        FormData::File { name: Some("a.txt".to_string()), content_type: Some("text/plain".to_string()), data: b"data".to_vec() }
    );
    let headers = vec![Header::new("content-disposition", b"form-data; name=\"g\"")];
    assert_eq!(field_from_head(part, 8, &headers), (Some(b"g".to_vec()), text("data")));
}

#[test]
fn form_boundary_and_fit() {
    let multi = [Header::new("Content-Type", b"multipart/form-data; boundary=\"XY\"")];
    let req = Request::new("POST", "/", &multi, b"--XY\r\nA: b\r\n\r\nv\r\n--XY--");
    assert_eq!(Form::boundary_of(&req).ok().unwrap(), Some(b"XY".as_slice()));
    assert!(Multipart::fits(b"XY", &req.body));
    // The line of the last boundary would run past the end of the body.
    assert!(!Multipart::fits(b"XY", b"--XY\r\nA: b\r\n\r\nv\r\n--XY"));
    assert!(!Multipart::fits(b"XY", b"--XY"));
    assert!(Multipart::fits(b"XY", b"nothing"));
    let get = Request::new("GET", "/?a=1", &[], &[]);
    assert_eq!(Form::boundary_of(&get).ok().unwrap(), None);
}
