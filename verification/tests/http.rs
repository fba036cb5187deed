use moonbeam::http::{canonical_reason, Body, Header, Headers, Request, Response};

#[test]
fn test_response_add_header() {
    let response = Response {
        status: 200,
        headers: Headers::new(),
        body: None,
    };

    let response = response.with_header("Content-Type", "text/html");
    assert_eq!(response.headers.len(), 1);
    assert_eq!(response.headers.get(0).0, "Content-Type");
    assert_eq!(response.headers.get(0).1, "text/html");

    // Adding same header should not duplicate
    let response = response.with_header("content-type", "application/json");
    assert_eq!(response.headers.len(), 1);
    assert_eq!(response.headers.get(0).0, "Content-Type");
    assert_eq!(response.headers.get(0).1, "text/html");

    // Adding different header should work
    let response = response.with_header("X-Custom", "value");
    assert_eq!(response.headers.len(), 2);
}

#[test]
fn test_response_set_header() {
    let mut headers = Headers::new();
    headers.push("Content-Type", "text/html");
    let mut response = Response {
        status: 200,
        headers,
        body: None,
    };

    // Setting existing header should replace
    let old_value = response.set_header("Content-Type", "application/json");
    assert_eq!(old_value, Some("text/html".to_string()));
    assert_eq!(response.headers.get(0).1, "application/json");

    // Setting new header should add
    let old_value = response.set_header("X-New", "new-value");
    assert_eq!(old_value, None);
    assert_eq!(response.headers.len(), 2);
}

#[test]
fn test_response_set_header_removes_duplicates() {
    let mut headers = Headers::new();
    headers.push("X-Custom", "v1");
    headers.push("X-Custom", "v2");
    let mut response = Response {
        status: 200,
        headers,
        body: None,
    };

    let old_value = response.set_header("X-Custom", "v3");
    assert_eq!(old_value, Some("v1".to_string()));
    assert_eq!(response.headers.len(), 1);
    assert_eq!(response.headers.get(0).0, "X-Custom");
    assert_eq!(response.headers.get(0).1, "v3");
}

#[test]
fn test_request_find_header() {
    let headers = [
        Header::new("Content-Type", b"text/plain"),
        Header::new("X-Custom", b"custom"),
    ];
    let req = Request::new("GET", "/", &headers, &[]);

    assert_eq!(req.find_header("Content-Type"), Some(b"text/plain" as &[u8]));
    assert_eq!(req.find_header("content-type"), Some(b"text/plain" as &[u8]));
    assert_eq!(req.find_header("X-Custom"), Some(b"custom" as &[u8]));
    assert_eq!(req.find_header("x-custom"), Some(b"custom" as &[u8]));
    assert_eq!(req.find_header("NotFound"), None);
}

#[test]
fn test_request_url() {
    let headers: [Header; 0] = [];
    let req = Request::new("GET", "/path?query=1", &headers, &[]);
    assert_eq!(req.url(), "/path");

    let req = Request::new("GET", "/path", &headers, &[]);
    assert_eq!(req.url(), "/path");

    let req = Request::new("GET", "/path%20space", &headers, &[]);
    assert_eq!(req.url(), "/path space");

    let req = Request::new("GET", "/path+plus", &headers, &[]);
    assert_eq!(req.url(), "/path+plus");
}

#[test]
fn test_response_constructors() {
    let r = Response::ok();
    assert_eq!(r.status, 200);

    let r = Response::not_found();
    assert_eq!(r.status, 404);

    let r = Response::bad_request();
    assert_eq!(r.status, 400);

    let r = Response::temporary_redirect("/foo");
    assert_eq!(r.status, 307);
    assert_eq!(r.headers.get(0).0, "Location");
    assert_eq!(r.headers.get(0).1, "/foo");
}

#[test]
fn test_response_with_body() {
    let r = Response::ok().with_body(Body::from_text("hello"), Some("text/plain"));
    assert_eq!(r.status, 200);
    assert!(r.body.is_some());
    assert_eq!(
        r.headers.iter().iter().find(|(n, _)| n == "Content-Type").unwrap().1,
        "text/plain"
    );

    // Test replacing content type
    let r = r.with_body(Body::from_text("world"), Some("application/json"));
    assert_eq!(
        r.headers.iter().iter().find(|(n, _)| n == "Content-Type").unwrap().1,
        "application/json"
    );
    assert_eq!(r.headers.iter().iter().filter(|(n, _)| n == "Content-Type").count(), 1);

    // Test removing content type
    let r = r.with_body(Body::from_text("data"), None);
    assert!(!r.headers.iter().iter().any(|(n, _)| n == "Content-Type"));
}

#[test]
fn test_request_params_plus_decoding() {
    let headers: [Header; 0] = [];
    let req = Request::new("GET", "/?a=b+c&d=e%20f&g=%2B", &headers, &[]);
    let params = req.params();
    assert_eq!(params.find("a").next(), Some("b c".to_string()));
    assert_eq!(params.find("d").next(), Some("e f".to_string()));
    assert_eq!(params.find("g").next(), Some("+".to_string()));
}

#[test]
fn response_constructor_statuses() {
    assert_eq!(Response::empty().status, 204);
    assert_eq!(Response::unauthorized().status, 401);
    assert_eq!(Response::forbidden().status, 403);
    assert_eq!(Response::method_not_allowed().status, 405);
    assert_eq!(Response::request_timeout().status, 408);
    assert_eq!(Response::content_too_large().status, 413);
    assert_eq!(Response::headers_too_large().status, 431);
    assert_eq!(Response::internal_server_error().status, 500);
    assert_eq!(Response::new_with_code(418).status, 418);
    let nm = Response::not_modified(Some("text/html"));
    assert_eq!(nm.status, 304);
    assert_eq!(nm.headers.get(0).0, "Content-Type");
    assert!(nm.body.is_none());
}

#[test]
fn response_new_with_body_and_len() {
    let r = Response::new_with_body(Body::from_vec(b"abc".to_vec()), Some(Body::TEXT));
    assert_eq!(r.status, 200);
    assert_eq!(r.body.as_ref().unwrap().len(), Some(3));
    assert_eq!(r.headers.get(0).1, "text/plain; charset=utf-8");
    assert_eq!(Body::Stream { len: None }.len(), None);
    assert_eq!(Body::Stream { len: Some(9) }.len(), Some(9));
}

#[test]
fn headers_retain_keeps_order() {
    let mut h = Headers::new();
    h.push("A", "1");
    h.push("B", "2");
    h.push("C", "3");
    h.retain(|n, _| n != "B");
    assert_eq!(h.len(), 2);
    assert_eq!(h.get(0).0, "A");
    assert_eq!(h.get(1).0, "C");
    assert!(!h.is_empty());
}

#[test]
fn reason_phrases() {
    assert_eq!(canonical_reason(200), "OK");
    assert_eq!(canonical_reason(404), "Not Found");
    assert_eq!(canonical_reason(304), "Not Modified");
}

#[test]
fn request_url_decodes_only_the_path() {
    let req = Request::new("GET", "/a%2Fb?x=%20", &[], &[]);
    assert_eq!(req.url(), "/a/b");
    let req = Request::new("GET", "/%FF", &[], &[]);
    assert_eq!(req.url(), "/\u{FFFD}");
}
