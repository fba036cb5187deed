use moonbeam::http::sse::SseEvent;

#[test]
fn test_sse_event() {
    let ev = SseEvent::new()
        .with_data("line1\nline2")
        .with_event("ping")
        .with_id("123")
        .with_retry(5000);

    let serialized = ev.to_string();
    assert_eq!(
        serialized,
        "id: 123\nevent: ping\ndata: line1\ndata: line2\nretry: 5000\n\n"
    );
}

#[test]
fn test_sse_event_empty_data() {
    let ev = SseEvent::new().with_data("").with_event("ping");

    let serialized = ev.to_string();
    assert_eq!(serialized, "event: ping\ndata:\n\n");
}

#[test]
fn sse_event_without_fields() {
    assert_eq!(SseEvent::new().to_string(), "\n");
    assert_eq!(SseEvent::new().with_retry(0).to_bytes(), b"retry: 0\n\n".to_vec());
    assert_eq!(
        SseEvent::new().with_data("a\r\nb\n").to_string(),
        "data: a\ndata: b\n\n"
    );
}

#[test]
fn sse_text_is_its_bytes() {
    let ev = SseEvent::new().with_id("é1").with_data("ü\nß").with_retry(7);
    assert_eq!(ev.to_string().as_bytes(), ev.to_bytes().as_slice());
    assert_eq!(ev.to_string(), "id: é1\ndata: ü\ndata: ß\nretry: 7\n\n");
    assert_eq!(SseEvent::default(), SseEvent::new());
}
