//! JSON request and response bodies. Serializing and deserializing the values is left to
//! the caller; this module decides what response a serialized value makes.
use vstd::prelude::*;
use crate::http::{Body, Response};

verus! {

/// A wrapper for JSON request and response bodies.
#[derive(Debug, Clone, Copy, Default, PartialEq, Eq)]
pub struct Json<T>(pub T);

impl<T> From<T> for Json<T> {
    fn from(val: T) -> Self {
        Json(val)
    }
}

impl<T> vstd::std_specs::convert::FromSpecImpl<T> for Json<T> {
    open spec fn obeys_from_spec() -> bool {
        true
    }

    open spec fn from_spec(v: T) -> Self {
        Json(v)
    }
}

/// The response for a value serialized as JSON: 200 with the JSON as its body and
/// `Content-Type: application/json`, or 500 when the value could not be serialized
/// (`None`).
pub fn json_response(serialized: Option<Vec<u8>>) -> (r: Response)
    ensures
        match serialized {
            Some(body) => r.status == 200 && r.body == Some(Body::Immediate(body))
                && r.headers.entries() == seq![("Content-Type"@, Body::JSON@)],
            None => r.status == 500 && r.body is None && r.headers.entries().len() == 0,
        },
{
    match serialized {
        Some(body) => {
            let r = Response::ok().with_body(Body::from_vec(body), Some(Body::JSON));
            proof {
                crate::http::response::lemma_without_absent(Seq::empty(), "Content-Type"@);
            }
            r
        },
        None => Response::internal_server_error(),
    }
}

} // verus!
