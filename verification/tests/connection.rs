use moonbeam::http::{Body, Response};
use moonbeam::server::connection::{
    chunk_data_range, consume_request, end_chunks, find_request_head, finish_response, frame_chunk, next_action, plan_body,
    rejection_response, BodyPlan, ConnAction, ConnEvent, Rejection, ResponseOutput,
};

const DATE: &str = "Wed, 21 Oct 2015 07:28:00 GMT";

#[test]
fn head_found_across_reads() {
    let mut buf = [0u8; 64];
    let first = b"GET / HTTP/1.1\r\nHost: a\r\n\r";
    buf[..first.len()].copy_from_slice(first);
    assert_eq!(find_request_head(&buf, 0, first.len()), None);
    let second = b"\nrest";
    let total = first.len() + second.len();
    buf[first.len()..total].copy_from_slice(second);
    assert_eq!(find_request_head(&buf, first.len(), total), Some(first.len() + 1));
    assert_eq!(find_request_head(&buf, 0, total), Some(first.len() + 1));
}

#[test]
fn consume_moves_next_request_to_front() {
    let mut buf = *b"AAAABBBxx";
    assert_eq!(consume_request(&mut buf, 7, 4), 3);
    assert_eq!(&buf, b"BBBABBBxx");
    assert_eq!(consume_request(&mut buf, 3, 3), 0);
    assert_eq!(consume_request(&mut buf, 3, 10), 0);
}

#[test]
fn body_plans() {
    assert_eq!(plan_body(10, 5, 100), BodyPlan::TooLarge);
    assert_eq!(plan_body(50, 100, 20), BodyPlan::Allocate);
    assert_eq!(plan_body(20, 100, 20), BodyPlan::InPlace);
    assert_eq!(plan_body(0, 0, 0), BodyPlan::InPlace);
}

#[test]
fn finish_small_body_in_buffer() {
    let mut resp = Response::ok().with_body(Body::from_text("hello"), None);
    let mut buf = vec![0u8; 256];
    let out = finish_response(&mut resp, false, DATE, &mut buf).ok().unwrap();
    match out {
        ResponseOutput::Buffered(n) => {
            let text = String::from_utf8(buf[..n].to_vec()).unwrap();
            assert!(text.starts_with("HTTP/1.1 200 OK\r\n"));
            assert!(text.ends_with("\r\n\r\nhello"));
        }
        _ => panic!("expected a buffered response"),
    }
}

#[test]
fn finish_head_request_drops_body() {
    let mut resp = Response::ok().with_body(Body::from_text("hello"), None);
    let mut buf = vec![0u8; 256];
    let out = finish_response(&mut resp, true, DATE, &mut buf).ok().unwrap();
    match out {
        ResponseOutput::HeadOnly(n) => {
            let text = String::from_utf8(buf[..n].to_vec()).unwrap();
            assert!(text.contains("Content-Length: 5\r\n"));
            assert!(text.ends_with("\r\n\r\n"));
        }
        _ => panic!("expected the head only"),
    }
    assert!(resp.body.is_none());
}

#[test]
fn finish_large_and_streamed_bodies() {
    let mut resp = Response::ok().with_body(Body::from_vec(vec![b'x'; 300]), None);
    let mut buf = vec![0u8; 256];
    assert!(matches!(finish_response(&mut resp, false, DATE, &mut buf), Ok(ResponseOutput::HeadThenBody(_))));
    let mut resp = Response::ok().with_body(Body::Stream { len: Some(3) }, None);
    assert!(matches!(finish_response(&mut resp, false, DATE, &mut buf), Ok(ResponseOutput::HeadThenStream(_))));
    let mut small = vec![0u8; 8];
    assert!(finish_response(&mut resp, false, DATE, &mut small).is_err());
}

#[test]
fn chunk_framing() {
    let mut buf = [b'.'; 32];
    assert_eq!(chunk_data_range(0, 32), Some((7, 30)));
    assert_eq!(chunk_data_range(17, 32), None);
    buf[7..10].copy_from_slice(b"abc");
    let end = frame_chunk(&mut buf, 0, 3);
    assert_eq!(end, 12);
    assert_eq!(&buf[..12], b"00003\r\nabc\r\n");
    let end = end_chunks(&mut buf, end);
    assert_eq!(end, 17);
    assert_eq!(&buf[..17], b"00003\r\nabc\r\n0\r\n\r\n");

    let mut big = vec![0u8; 600];
    frame_chunk(&mut big, 0, 0x1ab);
    assert_eq!(&big[..7], b"001ab\r\n");
}

fn action_name(a: ConnAction) -> &'static str {
    match a {
        ConnAction::Scan => "scan",
        ConnAction::ReadMore => "read",
        ConnAction::Reject(Rejection::BadRequest) => "400",
        ConnAction::Reject(Rejection::RequestTimeout) => "408",
        ConnAction::Reject(Rejection::HeadersTooLarge) => "431",
        ConnAction::Reject(Rejection::ContentTooLarge) => "413",
        ConnAction::Close => "close",
    }
}

#[test]
fn connection_decisions() {
    assert_eq!(action_name(next_action(&ConnEvent::Received)), "scan");
    assert_eq!(action_name(next_action(&ConnEvent::PeerClosed)), "close");
    assert_eq!(action_name(next_action(&ConnEvent::TimedOut)), "408");
    assert_eq!(action_name(next_action(&ConnEvent::ReadFailed)), "close");
    assert_eq!(action_name(next_action(&ConnEvent::BadHead)), "400");
    assert_eq!(action_name(next_action(&ConnEvent::Served { failed: false, close: false })), "scan");
    assert_eq!(action_name(next_action(&ConnEvent::Served { failed: false, close: true })), "close");
    assert_eq!(action_name(next_action(&ConnEvent::Served { failed: true, close: false })), "close");
    assert_eq!(action_name(next_action(&ConnEvent::NoHead { total: 10, capacity: 11 })), "read");
    assert_eq!(action_name(next_action(&ConnEvent::NoHead { total: 11, capacity: 11 })), "431");
}

#[test]
fn rejections_close_the_connection() {
    for (r, status) in [(Rejection::BadRequest, 400), (Rejection::RequestTimeout, 408), (Rejection::HeadersTooLarge, 431), (Rejection::ContentTooLarge, 413)] {
        let resp = rejection_response(&r);
        assert_eq!(resp.status, status);
        assert_eq!(resp.headers.iter(), &[("Connection".to_string(), "close".to_string())]);
        assert!(resp.body.is_none());
    }
}
