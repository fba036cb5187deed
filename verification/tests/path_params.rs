use moonbeam::router::{FromParams, PathParams};

#[test]
fn test_from_params_tuple_str() {
    let input = ["v1", "v2"];
    let params: PathParams<(&str, &str)> = FromParams::from_params(&input);
    assert_eq!(params.0.0, "v1");
    assert_eq!(params.0.1, "v2");
}

#[test]
fn from_params_missing_are_empty() {
    let input = ["only"];
    let one: PathParams<&str> = FromParams::from_params(&input);
    assert_eq!(one.0, "only");
    let three: PathParams<(&str, &str, &str)> = FromParams::from_params(&input);
    assert_eq!(three.0, ("only", "", ""));
    let none: PathParams<(&str,)> = FromParams::from_params(&[]);
    assert_eq!(none.0.0, "");
    let five: PathParams<(&str, &str, &str, &str, &str)> = FromParams::from_params(&["a", "b", "c", "d", "e", "f"]);
    assert_eq!(five.0, ("a", "b", "c", "d", "e"));
}
