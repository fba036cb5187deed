use moonbeam::http::{Body, Response};
use moonbeam::server::accept::{accept_encoding_entries, Coding};
use moonbeam::server::compress::{apply_compression, is_compressible, Encoding};

fn names(r: &Response) -> Vec<(String, String)> {
    r.headers.iter().to_vec()
}

#[test]
fn compressible_types() {
    assert!(is_compressible("text/html; charset=utf-8"));
    assert!(is_compressible("  Application/JSON "));
    assert!(is_compressible("image/svg+xml"));
    assert!(is_compressible("application/atom+xml"));
    assert!(!is_compressible("image/png"));
    assert!(!is_compressible("application/octet-stream"));
    assert!(!is_compressible(""));
}

#[test]
fn encoding_names() {
    assert_eq!(Encoding::Brotli.as_str(), "br");
    assert_eq!(Encoding::Gzip.as_str(), "gzip");
    assert_eq!(Encoding::Deflate.as_str(), "deflate");
}

#[test]
fn compression_rewrites_headers() {
    let mut resp = Response::ok()
        .with_body(Body::from_text("hello"), Some("text/plain"))
        .with_header("Content-Length", "5");
    let r = apply_compression(&mut resp, Some(Encoding::Gzip));
    assert_eq!(r, Some(Encoding::Gzip));
    assert!(matches!(resp.body, Some(Body::Stream { len: None })));
    assert_eq!(
        names(&resp),
        vec![
            ("Content-Type".to_string(), "text/plain".to_string()),
            ("Vary".to_string(), "Accept-Encoding".to_string()),
            ("Content-Encoding".to_string(), "gzip".to_string()),
        ]
    );
}

#[test]
fn compression_skipped() {
    // Not a compressible type.
    let mut resp = Response::ok().with_body(Body::from_text("x"), Some("image/png"));
    assert_eq!(apply_compression(&mut resp, Some(Encoding::Brotli)), None);
    assert_eq!(resp.headers.len(), 1);
    assert!(matches!(resp.body, Some(Body::Immediate(_))));

    // Already encoded.
    let mut resp = Response::ok()
        .with_body(Body::from_text("x"), Some("text/plain"))
        .with_header("Content-Encoding", "br");
    assert_eq!(apply_compression(&mut resp, Some(Encoding::Gzip)), None);
    assert_eq!(resp.headers.len(), 2);

    // No body.
    let mut resp = Response::ok().with_header("Content-Type", "text/plain");
    assert_eq!(apply_compression(&mut resp, Some(Encoding::Gzip)), None);
    assert_eq!(resp.headers.len(), 1);
}

#[test]
fn compression_without_accepted_encoding_still_varies() {
    let mut resp = Response::ok()
        .with_body(Body::from_text("x"), Some("text/html"))
        .with_header("vary", "accept-encoding");
    assert_eq!(apply_compression(&mut resp, None), None);
    assert_eq!(resp.headers.len(), 2);

    let mut resp = Response::not_modified(Some("text/css"));
    assert_eq!(apply_compression(&mut resp, Some(Encoding::Deflate)), None);
    assert_eq!(resp.headers.get(1).0, "Vary");
    assert!(resp.body.is_none());
}

#[test]
fn accept_encoding_structure() {
    let e = accept_encoding_entries(b" gzip ;q=0.9, BR; Q= 0.5 ;level=1,*;q=0,, identity");
    assert_eq!(e.len(), 5);
    assert_eq!(e[0].coding, Coding::Gzip);
    assert_eq!(e[0].q_values, vec![b"0.9".to_vec()]);
    assert_eq!(e[1].coding, Coding::Brotli);
    assert_eq!(e[1].q_values, vec![b"0.5".to_vec()]);
    assert_eq!(e[2].coding, Coding::Any);
    assert_eq!(e[2].q_values, vec![b"0".to_vec()]);
    assert_eq!(e[3].coding, Coding::Other);
    assert!(e[3].q_values.is_empty());
    assert_eq!(e[4].coding, Coding::Identity);
    let empty = accept_encoding_entries(b"");
    assert_eq!(empty.len(), 1);
    assert_eq!(empty[0].coding, Coding::Other);
}

#[test]
fn compressible_after_unicode_trim() {
    assert!(is_compressible("text/plain"));
    assert!(is_compressible("\u{3000}\u{a0}text/plain\u{2029}"));
    assert!(!is_compressible("\u{200b}text/plain"));
}
