use moonbeam::http::path::PathIterator;

fn collect(mut it: PathIterator<'_>) -> Vec<String> {
    let mut out = Vec::new();
    while let Some(s) = it.next() {
        out.push(s);
    }
    out
}

#[test]
fn test_path_iterator() {
    let cases = vec![
        ("/", vec!["/"]),
        ("//", vec!["/", "/"]),
        ("/path", vec!["/path"]),
        ("path", vec!["path"]),
        ("/path/to/somewhere", vec!["/path", "/to", "/somewhere"]),
        ("", vec![]),
        ("/path/", vec!["/path", "/"]),
        ("/path//", vec!["/path", "/", "/"]),
        ("/path//to", vec!["/path", "/", "/to"]),
        ("/path/./to", vec!["/path", "/.", "/to"]),
        ("/path/../to", vec!["/path", "/..", "/to"]),
        ("/path%20with%20space", vec!["/path with space"]),
    ];

    for (input, expected) in cases {
        let actual = collect(PathIterator::new(input));
        assert_eq!(actual, expected, "Failed on input: {}", input);
    }
}

#[test]
fn test_eq() {
    let left_text = "test".to_string();
    let right_text = left_text.clone();
    let left = PathIterator::new(left_text.as_str());
    let right = PathIterator::new(right_text.as_str());

    assert_eq!(left, left.clone());
    assert_ne!(left, right);
}

#[test]
fn test_partial_ord() {
    let left_text = "test/path/to/nowhere".to_string();
    let right_text = left_text.clone();
    let left = PathIterator::new(left_text.as_str());
    let right = PathIterator::new(right_text.as_str());

    let mut clone = left.clone();
    assert!(left <= clone);
    assert!(left >= clone);
    assert!(PartialOrd::partial_cmp(&left, &right).is_none());
    assert_eq!(left >= right, false);
    assert_eq!(left <= right, false);

    clone.next();
    assert!(left < clone);
    assert!(!(left >= clone));
}

#[test]
fn path_segments_join_back() {
    // Undecoded segments put together give the path again.
    let input = "/a/b//c/";
    assert_eq!(collect(PathIterator::new(input)).concat(), input);
}

#[test]
fn path_iterators_compare_by_unread_address() {
    let text = "/a/b".to_string();
    let mut whole = PathIterator::new(text.as_str());
    let tail = PathIterator::new(&text[2..]);
    assert_eq!(PartialOrd::partial_cmp(&whole, &tail), Some(std::cmp::Ordering::Less));
    assert_eq!(PartialOrd::partial_cmp(&tail, &whole), None);
    assert!(!(tail > whole));
    whole.next();
    assert_eq!(whole, tail);
    assert!(whole <= tail && whole >= tail);
}
