//! The `PathParams` extractor: the segments a route pattern matched, as strings.
use vstd::prelude::*;

verus! {

/// Wrapper for accessing path parameters extracted by the router.
///
/// A route such as `/users/:id/posts/:post_id` hands its handler the matched segments;
/// `PathParams<(&str, &str)>` takes them apart.
#[derive(Debug)]
pub struct PathParams<T>(pub T);

/// The `i`th parameter, or the empty string when there are fewer parameters.
pub open spec fn nth_param(params: Seq<&str>, i: int) -> Seq<char> {
    if 0 <= i < params.len() { params[i]@ } else { Seq::empty() }
}

/// Returns the `i`th parameter, or the empty string when there are fewer parameters.
fn param_or_empty<'a>(params: &[&'a str], i: usize) -> (r: &'a str)
    ensures
        r@ == nth_param(params@, i as int),
{
    if i < params.len() {
        params[i]
    } else {
        proof {
            reveal_strlit("");
        }
        ""
    }
}

/// Converts the list of matched path segments into a typed `PathParams`.
///
/// Implemented for `PathParams<T>` where `T` is `&str` or a tuple of up to five `&str`;
/// parameters beyond the list are empty strings.
pub trait FromParams<'a>: Sized {
    /// Converts a slice of path parameter strings into `Self`.
    fn from_params(params: &[&'a str]) -> Self;
}

impl<'a> FromParams<'a> for PathParams<&'a str> {
    fn from_params(params: &[&'a str]) -> (r: Self)
        ensures
            r.0@ == nth_param(params@, 0),
    {
        PathParams(param_or_empty(params, 0))
    }
}

impl<'a> FromParams<'a> for PathParams<(&'a str,)> {
    fn from_params(params: &[&'a str]) -> (r: Self)
        ensures
            (r.0).0@ == nth_param(params@, 0),
    {
        PathParams((param_or_empty(params, 0),))
    }
}

impl<'a> FromParams<'a> for PathParams<(&'a str, &'a str)> {
    fn from_params(params: &[&'a str]) -> (r: Self)
        ensures
            (r.0).0@ == nth_param(params@, 0),
            (r.0).1@ == nth_param(params@, 1),
    {
        PathParams((param_or_empty(params, 0), param_or_empty(params, 1)))
    }
}

impl<'a> FromParams<'a> for PathParams<(&'a str, &'a str, &'a str)> {
    fn from_params(params: &[&'a str]) -> (r: Self)
        ensures
            (r.0).0@ == nth_param(params@, 0),
            (r.0).1@ == nth_param(params@, 1),
            (r.0).2@ == nth_param(params@, 2),
    {
        PathParams((param_or_empty(params, 0), param_or_empty(params, 1), param_or_empty(params, 2)))
    }
}

impl<'a> FromParams<'a> for PathParams<(&'a str, &'a str, &'a str, &'a str)> {
    fn from_params(params: &[&'a str]) -> (r: Self)
        ensures
            (r.0).0@ == nth_param(params@, 0),
            (r.0).1@ == nth_param(params@, 1),
            (r.0).2@ == nth_param(params@, 2),
            (r.0).3@ == nth_param(params@, 3),
    {
        PathParams((
            param_or_empty(params, 0),
            param_or_empty(params, 1),
            param_or_empty(params, 2),
            param_or_empty(params, 3),
        ))
    }
}

impl<'a> FromParams<'a> for PathParams<(&'a str, &'a str, &'a str, &'a str, &'a str)> {
    fn from_params(params: &[&'a str]) -> (r: Self)
        ensures
            (r.0).0@ == nth_param(params@, 0),
            (r.0).1@ == nth_param(params@, 1),
            (r.0).2@ == nth_param(params@, 2),
            (r.0).3@ == nth_param(params@, 3),
            (r.0).4@ == nth_param(params@, 4),
    {
        PathParams((
            param_or_empty(params, 0),
            param_or_empty(params, 1),
            param_or_empty(params, 2),
            param_or_empty(params, 3),
            param_or_empty(params, 4),
        ))
    }
}

} // verus!
