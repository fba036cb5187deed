use moonbeam::http::{Body, Response};
use moonbeam::json::{json_response, Json};
use moonbeam::server::helpers::{resolve_thread_count, AsyncFnServer, LifetimeDummy, StatelessAsyncFnServer, ThreadCount};
use moonbeam::tracing::{Instrument, Span};

#[test]
fn test_json_into_response() {
    let mut user = serde_json::Map::new();
    user.insert("id".to_string(), serde_json::Value::from(1));
    user.insert("name".to_string(), serde_json::Value::from("Jens"));
    let resp: Response = json_response(serde_json::to_vec(&serde_json::Value::Object(user)).ok());

    assert_eq!(resp.status, 200);
    assert!(resp
        .headers
        .iter()
        .iter()
        .any(|(n, v)| n.eq_ignore_ascii_case("Content-Type") && v == "application/json"));

    if let Some(Body::Immediate(data)) = resp.body {
        assert_eq!(String::from_utf8_lossy(&data), r#"{"id":1,"name":"Jens"}"#);
    } else {
        panic!("Expected immediate body");
    }
}

#[test]
fn json_responses() {
    let r: Response = json_response(Some(br#"{"id":1,"name":"Jens"}"#.to_vec()));
    assert_eq!(r.status, 200);
    assert!(r.headers.iter().iter().any(|(n, v)| n.eq_ignore_ascii_case("Content-Type") && v == "application/json"));
    match r.body {
        Some(Body::Immediate(data)) => assert_eq!(String::from_utf8_lossy(&data), r#"{"id":1,"name":"Jens"}"#),
        _ => panic!("Expected immediate body"),
    }
    let r = json_response(None);
    assert_eq!(r.status, 500);
    let j: Json<u8> = Json::from(3);
    assert_eq!(j, Json(3));
}

#[test]
fn thread_counts() {
    assert_eq!(resolve_thread_count(ThreadCount::Count(3), Some(8)), 3);
    assert_eq!(resolve_thread_count(ThreadCount::Default, Some(8)), 8);
    assert_eq!(resolve_thread_count(ThreadCount::Default, None), 1);
    assert!(matches!(ThreadCount::default(), ThreadCount::Default));
}

#[test]
fn fn_servers_and_spans() {
    let s = StatelessAsyncFnServer::new(5u8);
    assert_eq!(s.0, 5);
    let s = AsyncFnServer::new(1u8, "state");
    assert_eq!(s.1, "state");
    let _d: LifetimeDummy<'_, '_> = LifetimeDummy::default();
    let span = Span::current().entered();
    span.record("field", 1);
    assert_eq!(7u8.instrument(span), 7);
}
