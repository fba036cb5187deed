use moonbeam::http::params::{AllParamIter, ParamIter, Params};
use moonbeam::http::Request;

#[test]
fn test_find_param() {
    let params = Params::new("foo=bar&baz=qux&foo=baz");
    let mut p = params.find("foo");
    assert_eq!(p.next(), Some("bar".to_string()));
    assert_eq!(p.next(), Some("baz".to_string()));
    assert_eq!(p.next(), None);
    p = params.find("baz");
    assert_eq!(p.next(), Some("qux".to_string()));
    assert_eq!(p.next(), None);
    assert_eq!(params.find("qux").next(), None);
}

#[test]
fn test_all_param() {
    let params = Params::new("foo=bar&baz=qux&foo=baz");
    let mut it = params.iter();
    assert_eq!(it.next(), Some(("foo".to_string(), "bar".to_string())));
    assert_eq!(it.next(), Some(("baz".to_string(), "qux".to_string())));
    assert_eq!(it.next(), Some(("foo".to_string(), "baz".to_string())));
    assert_eq!(it.next(), None);
}

#[test]
fn test_encoded_delimiter() {
    let params = Params::new("a=foo%26b=bar");
    let mut p = params.find("a");
    // The %26 should be decoded as part of the value, NOT split
    assert_eq!(p.next(), Some("foo&b=bar".to_string()));
    assert_eq!(p.next(), None);

    let mut p_b = params.find("b");
    assert_eq!(p_b.next(), None);
}

#[test]
fn test_allparamiter_eq() {
    let left_text = "foo=bar&baz=qux&foo=baz".to_string();
    let right_text = left_text.clone();
    let left = AllParamIter::new(left_text.as_str());
    let right = AllParamIter::new(right_text.as_str());

    assert_eq!(left, left.clone());
    assert_ne!(left, right);
}

#[test]
fn test_allparamiter_partial_ord() {
    let left_text = "foo=bar&baz=qux&foo=baz".to_string();
    let right_text = left_text.clone();
    let left = AllParamIter::new(left_text.as_str());
    let right = AllParamIter::new(right_text.as_str());

    let mut clone = left.clone();
    assert!(left <= clone);
    assert!(left >= clone);
    assert!(PartialOrd::partial_cmp(&left, &right).is_none());
    assert_eq!(left >= right, false);
    assert_eq!(left <= right, false);

    clone.next();
    assert!(left < clone);
    assert!(!(left >= clone));
}

#[test]
fn test_paramiter_eq() {
    let left_text = "foo=bar&baz=qux&foo=baz".to_string();
    let right_text = left_text.clone();
    let left = ParamIter::new(left_text.as_str(), "foo");
    let right = ParamIter::new(right_text.as_str(), "foo");

    assert_eq!(left, left.clone());
    assert_ne!(left, right);
}

#[test]
fn test_paramiter_partial_ord() {
    let left_text = "foo=bar&baz=qux&foo=baz".to_string();
    let right_text = left_text.clone();
    let left = ParamIter::new(left_text.as_str(), "foo");
    let right = ParamIter::new(right_text.as_str(), "foo");

    let mut clone = left.clone();
    assert!(left <= clone);
    assert!(left >= clone);
    assert!(PartialOrd::partial_cmp(&left, &right).is_none());
    assert_eq!(left >= right, false);
    assert_eq!(left <= right, false);

    // Same query string, another name: not comparable.
    let right = ParamIter::new(left_text.as_str(), "baz");
    assert!(PartialOrd::partial_cmp(&left, &right).is_none());
    assert_eq!(left >= right, false);
    assert_eq!(left <= right, false);

    clone.next();
    assert!(left < clone);
    assert!(!(left >= clone));
}

#[test]
fn params_find_agrees_with_iter() {
    let params = Params::new("a=1&b=2&a=%33&c&a");
    let mut found = Vec::new();
    let mut it = params.find("a");
    while let Some(v) = it.next() {
        found.push(v);
    }
    let mut filtered = Vec::new();
    let mut all = params.iter();
    while let Some((k, v)) = all.next() {
        if k == "a" {
            filtered.push(v);
        }
    }
    assert_eq!(found, vec!["1".to_string(), "3".to_string(), "".to_string()]);
    assert_eq!(found, filtered);
    assert_eq!(params.find("a").name(), "a");
}

#[test]
fn test_params_from_request() {
    let request = Request::new("GET", "/test?foo=bar&baz=qux", &[], &[]);
    let params = request.params();
    assert_eq!(params.find("foo").next(), Some("bar".to_string()));
    assert_eq!(params.find("baz").next(), Some("qux".to_string()));
}

#[test]
fn param_iter_keeps_its_name() {
    let mut it = ParamIter::new("a=1&b=2&a=3&a=4&c=5", "a");
    let mut seen = Vec::new();
    for _ in 0..10 {
        assert_eq!(it.name(), "a");
        if let Some(v) = it.next() {
            seen.push(v);
        }
    }
    assert_eq!(it.name(), "a");
    assert_eq!(seen, vec!["1".to_string(), "3".to_string(), "4".to_string()]);
}

#[test]
fn iterators_compare_by_unread_text_address() {
    let text = "a=1&b=2".to_string();
    let mut whole = AllParamIter::new(text.as_str());
    let tail = AllParamIter::new(&text[4..]);
    assert_ne!(whole, tail);
    assert_eq!(PartialOrd::partial_cmp(&whole, &tail), Some(std::cmp::Ordering::Less));
    // The further iterator is not ordered before or after the other.
    assert_eq!(PartialOrd::partial_cmp(&tail, &whole), None);
    whole.next();
    // Now both have `b=2` left, at the same place.
    assert_eq!(whole, tail);
    assert_eq!(PartialOrd::partial_cmp(&whole, &tail), Some(std::cmp::Ordering::Equal));
    whole.next();
    let mut done = tail;
    done.next();
    // Nothing left to read: not comparable.
    assert_eq!(PartialOrd::partial_cmp(&whole, &done), None);

    let p = ParamIter::new(&text[4..], "b");
    let mut q = ParamIter::new(text.as_str(), "b");
    assert_eq!(PartialOrd::partial_cmp(&q, &p), Some(std::cmp::Ordering::Less));
    assert_eq!(PartialOrd::partial_cmp(&p, &q), None);
    assert_eq!(q.next(), Some("2".to_string()));
    assert_ne!(p, q);
}
