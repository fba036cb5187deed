use moonbeam::http::cookies::Cookies;
use moonbeam::http::{Header, Request};

#[test]
fn test_find_cookie() {
    let cookies = Cookies::new(Some(b"foo=bar; baz=qux; test=\"quotes\"; qux"));
    assert_eq!(cookies.find("foo"), Some(b"bar" as &[u8]));
    assert_eq!(cookies.find("baz"), Some(b"qux" as &[u8]));
    assert_eq!(cookies.find("test"), Some(b"quotes" as &[u8]));
    assert_eq!(cookies.find("qux"), None);

    // Test multiple spaces
    let cookies = Cookies::new(Some(b"foo=bar;  baz=qux"));
    assert_eq!(cookies.find("baz"), Some(b"qux" as &[u8]));

    // Test malformed quotes
    let cookies = Cookies::new(Some(b"foo=\"bar"));
    assert_eq!(cookies.find("foo"), Some(b"\"bar" as &[u8]));

    let cookies = Cookies::new(Some(b"foo=bar\""));
    assert_eq!(cookies.find("foo"), Some(b"bar\"" as &[u8]));

    let cookies = Cookies::new(Some(b"foo=\"\""));
    assert_eq!(cookies.find("foo"), Some(b"" as &[u8]));

    let cookies = Cookies::new(Some(b"foo; baz=qux"));
    assert_eq!(cookies.find("foo"), None);
    assert_eq!(cookies.find("baz"), Some(b"qux" as &[u8]));
}

#[test]
fn test_cookies_from_request() {
    let headers = [Header::new("Cookie", b"foo=bar; baz=qux")];
    let request = Request::new("GET", "/test", &headers, &[]);
    let cookies = request.cookies();
    assert_eq!(cookies.find("foo"), Some(b"bar".as_slice()));
    assert_eq!(cookies.find("baz"), Some(b"qux".as_slice()));

    let bare = Request::new("GET", "/test", &[], &[]);
    assert_eq!(bare.cookies().find("foo"), None);
    assert_eq!(Cookies::new(None).find(""), None);
}
