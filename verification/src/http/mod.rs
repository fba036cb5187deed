//! HTTP request and response types.
pub mod async_stream;
pub mod cookies;
pub mod params;
pub mod path;
pub mod percent_decode;
pub mod response;
pub mod sse;

pub use response::{Body, Headers, Response};


use vstd::prelude::*;
use vstd::utf8::encode_utf8;
use vstd::string::StringSliceAdditionalSpecFns;
use crate::text::{bytes_eq_ignore_ascii_case, eq_ignore_ascii_case, find_byte, find_byte_index, lemma_find_byte, lossy_string, split_once, utf8_lossy};
use crate::http::cookies::Cookies;
use crate::http::params::Params;
use crate::http::percent_decode::percent_decode_bytes;

verus! {

/// The reason phrase of the status codes this server writes itself.
pub open spec fn reason_phrase(code: u16) -> &'static str {
    match code {
        200 => "OK",
        204 => "No Content",
        304 => "Not Modified",
        307 => "Temporary Redirect",
        400 => "Bad Request",
        401 => "Unauthorized",
        403 => "Forbidden",
        404 => "Not Found",
        408 => "Request Timeout",
        413 => "Content Too Large",
        431 => "Request Header Fields Too Large",
        500 => "Internal Server Error",
        _ => "",
    }
}

/// Returns the canonical reason phrase for a given HTTP status code (empty for codes
/// without one here).
pub fn canonical_reason(code: u16) -> (r: &'static str)
    ensures
        r@ == reason_phrase(code)@,
{
    match code {
        200 => "OK",
        204 => "No Content",
        304 => "Not Modified",
        307 => "Temporary Redirect",
        400 => "Bad Request",
        401 => "Unauthorized",
        403 => "Forbidden",
        404 => "Not Found",
        408 => "Request Timeout",
        413 => "Content Too Large",
        431 => "Request Header Fields Too Large",
        500 => "Internal Server Error",
        _ => "",
    }
}

/// Calls `percent_encoding::percent_decode` and collects the decoded bytes. The contract
/// claims what the crate documents and its source shows: every `%` followed by two
/// hexadecimal digits becomes the byte they spell, and all other bytes stay.
#[verifier::external_body]
fn percent_decode_collect(input: &[u8]) -> (r: Vec<u8>)
    ensures
        r@ == percent_decode_bytes(input@, false),
{
    percent_encoding::percent_decode(input).collect()
}

/// One request header: a name and a raw value.
#[derive(Clone, Debug)]
pub struct Header {
    /// The header name, as sent.
    pub name: String,
    /// The header value, as raw bytes.
    pub value: Vec<u8>,
}

impl Header {
    /// Creates a header from its name and value.
    pub fn new(name: &str, value: &[u8]) -> (r: Self)
        ensures
            r.name@ == name@,
            r.value@ == value@,
    {
        Header { name: name.to_owned(), value: crate::text::bytes_to_vec(value) }
    }
}

/// The index of the first header whose name equals `name` without regard to ASCII case,
/// or the number of headers when there is none.
pub open spec fn header_index(hs: Seq<Header>, name: Seq<u8>) -> nat
    decreases hs.len(),
{
    if hs.len() == 0 {
        0
    } else if eq_ignore_ascii_case(encode_utf8(hs[0].name@), name) {
        0
    } else {
        1 + header_index(hs.drop_first(), name)
    }
}

/// The value of the first header named `name` (ASCII case ignored).
pub open spec fn header_value(hs: Seq<Header>, name: Seq<u8>) -> Option<Seq<u8>> {
    let i = header_index(hs, name);
    if i < hs.len() { Some(hs[i as int].value@) } else { None }
}

/// `header_index` is the first header with the name.
pub proof fn lemma_header_index(hs: Seq<Header>, name: Seq<u8>, k: int)
    requires
        0 <= k <= hs.len(),
        k < hs.len() ==> eq_ignore_ascii_case(encode_utf8(hs[k].name@), name),
        forall|j: int| 0 <= j < k ==> !eq_ignore_ascii_case(encode_utf8(#[trigger] hs[j].name@), name),
    ensures
        header_index(hs, name) == k,
    decreases hs.len(),
{
    if hs.len() > 0 && k > 0 {
        let t = hs.drop_first();
        assert forall|j: int| 0 <= j < k - 1 implies !eq_ignore_ascii_case(encode_utf8(#[trigger] t[j].name@), name) by {
            assert(t[j] == hs[j + 1]);
        }
        lemma_header_index(t, name, k - 1);
    }
}

/// The query string of a request target: the text after the first `?`, up to a second
/// `?` if there is one.
pub open spec fn query_of(path: Seq<u8>) -> Seq<u8> {
    if find_byte(path, 0x3f) < path.len() {
        split_once(split_once(path, 0x3f).1, 0x3f).0
    } else {
        Seq::empty()
    }
}

/// The path of a request target: the text before the first `?`.
pub open spec fn path_of(path: Seq<u8>) -> Seq<u8> {
    split_once(path, 0x3f).0
}

/// Represents an HTTP request.
#[derive(Clone, Debug)]
pub struct Request {
    /// The HTTP method (e.g., "GET", "POST").
    pub method: String,
    /// The request target (e.g., "/index.html?x=1").
    pub path: String,
    /// The HTTP version (0 for 1.0, 1 for 1.1).
    pub version: u8,
    /// The request headers.
    pub headers: Vec<Header>,
    /// The request body.
    pub body: Vec<u8>,
}

impl Request {
    /// Creates a new HTTP/1.1 `Request`.
    pub fn new(method: &str, path: &str, headers: &[Header], body: &[u8]) -> (r: Self)
        ensures
            r.method@ == method@,
            r.path@ == path@,
            r.version == 1,
            r.headers@.len() == headers@.len(),
            forall|i: int| 0 <= i < headers@.len() ==> (#[trigger] r.headers@[i]).name@ == headers@[i].name@
                && r.headers@[i].value@ == headers@[i].value@,
            r.body@ == body@,
    {
        let mut hs: Vec<Header> = Vec::new();
        let mut i: usize = 0;
        while i < headers.len()
            invariant
                0 <= i <= headers@.len(),
                hs@.len() == i,
                forall|j: int| 0 <= j < i ==> (#[trigger] hs@[j]).name@ == headers@[j].name@
                    && hs@[j].value@ == headers@[j].value@,
            decreases headers@.len() - i,
        {
            let h = &headers[i];
            hs.push(Header::new(h.name.as_str(), h.value.as_slice()));
            i += 1;
        }
        Request {
            method: method.to_owned(),
            path: path.to_owned(),
            version: 1,
            headers: hs,
            body: crate::text::bytes_to_vec(body),
        }
    }

    /// Finds the value of the first header named `name`, ignoring ASCII case.
    pub fn find_header(&self, name: &str) -> (r: Option<&[u8]>)
        ensures
            match (r, header_value(self.headers@, name.spec_bytes())) {
                (None, None) => true,
                (Some(v), Some(w)) => v@ == w,
                _ => false,
            },
    {
        let target = name.as_bytes();
        let mut i: usize = 0;
        while i < self.headers.len()
            invariant
                target@ == name.spec_bytes(),
                0 <= i <= self.headers@.len(),
                forall|j: int| 0 <= j < i ==> !eq_ignore_ascii_case(encode_utf8(#[trigger] self.headers@[j].name@), target@),
            decreases self.headers@.len() - i,
        {
            let h = &self.headers[i];
            if bytes_eq_ignore_ascii_case(h.name.as_str().as_bytes(), target) {
                proof {
                    lemma_header_index(self.headers@, target@, i as int);
                }
                return Some(h.value.as_slice());
            }
            i += 1;
        }
        proof {
            lemma_header_index(self.headers@, target@, i as int);
        }
        None
    }

    /// Returns a helper to read the cookies of the request.
    pub fn cookies(&self) -> (r: Cookies<'_>)
        ensures
            r.header() == match header_value(self.headers@, "Cookie".spec_bytes()) {
                Some(v) => v,
                None => Seq::<u8>::empty(),
            },
    {
        Cookies::new(self.find_header("Cookie"))
    }

    /// Returns a helper to read the query parameters of the request URL.
    ///
    /// Names and values are percent-decoded, with `+` read as a space, when they are read.
    pub fn params(&self) -> (r: Params<'_>)
        ensures
            r.query() == query_of(encode_utf8(self.path@)),
    {
        let p = self.path.as_str().as_bytes();
        let i = find_byte_index(p, 0x3f);
        if i < p.len() {
            let after = vstd::slice::slice_subrange(p, i + 1, p.len());
            let j = find_byte_index(after, 0x3f);
            Params::from_bytes(vstd::slice::slice_subrange(after, 0, j))
        } else {
            let empty: &[u8] = &[];
            assert(empty@ =~= Seq::<u8>::empty());
            Params::from_bytes(empty)
        }
    }

    /// Returns the percent-decoded URL path without the query string.
    pub fn url(&self) -> (r: String)
        ensures
            r@ == utf8_lossy(percent_decode_bytes(path_of(encode_utf8(self.path@)), false)),
    {
        let p = self.path.as_str().as_bytes();
        let i = find_byte_index(p, 0x3f);
        let url = vstd::slice::slice_subrange(p, 0, i);
        assert(url@ =~= path_of(p@));
        let decoded = percent_decode_collect(url);
        lossy_string(decoded.as_slice())
    }
}

} // verus!
