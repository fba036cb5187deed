use moonbeam::http::percent_decode::{decode, decode_bytes_lossy, decode_query};

#[test]
fn test_decode() {
    assert_eq!(decode("foo"), "foo");
    assert_eq!(decode("foo%20bar"), "foo bar");
    assert_eq!(decode("foo+bar"), "foo+bar");
}

#[test]
fn test_decode_query() {
    assert_eq!(decode_query("foo"), "foo");

    assert_eq!(decode_query("foo+bar"), "foo bar");
    assert_eq!(decode_query("foo%20bar"), "foo bar");
    assert_eq!(decode_query("foo%2bbar"), "foo+bar");
    assert_eq!(decode_query("foo+bar%20baz"), "foo bar baz");
    assert_eq!(decode_query("%G%H"), "%G%H"); // invalid hex, no change
    assert_eq!(decode_query("percent%"), "percent%"); // trailing %, no change
}

#[test]
fn test_decode_query_utf8() {
    // %F0%9F%90%80 is 🐀
    assert_eq!(decode_query("%F0%9F%90%80"), "🐀");
}

#[test]
fn test_decode_query_invalid_utf8() {
    // 0xFF is invalid UTF-8
    let decoded = decode_query("%FF");
    assert_eq!(decoded, "\u{FFFD}");
}

#[test]
fn decode_bytes_edge_cases() {
    assert_eq!(decode_bytes_lossy(b"%41%4a%4A", false), "AJJ");
    assert_eq!(decode_bytes_lossy(b"a+b%", true), "a b%");
    assert_eq!(decode_bytes_lossy(b"%2", false), "%2");
    assert_eq!(decode_bytes_lossy(b"", true), "");
}

#[test]
fn decode_query_is_decode_after_plus_to_space() {
    for s in ["a+b%20c", "x+%2B+y", "plain", "%zz+", "+%41+%e2%82%ac"] {
        assert_eq!(decode_query(s), decode(&s.replace('+', " ")));
    }
    assert_eq!(decode_query("a+b%20c"), "a b c");
    assert_eq!(decode_query("x+%2B+y"), "x + y");
}
