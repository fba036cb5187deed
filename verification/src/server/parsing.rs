//! Finding and parsing the head of an HTTP request.
use vstd::prelude::*;
use vstd::utf8::encode_utf8;
use vstd::string::StringSliceAdditionalSpecFns;
use crate::http::{Header, Request};
use crate::text::{decimal, eq_ignore_ascii_case, bytes_eq_ignore_ascii_case};

verus! {

/// `\r\n\r\n` starts at index `i`.
pub open spec fn is_header_end_at(b: Seq<u8>, i: int) -> bool {
    &&& 0 <= i
    &&& i + 4 <= b.len()
    &&& b[i] == 0x0d
    &&& b[i + 1] == 0x0a
    &&& b[i + 2] == 0x0d
    &&& b[i + 3] == 0x0a
}

/// The offset just after the first `\r\n\r\n` in `b`, if there is one.
#[verifier::opaque]
pub open spec fn header_end(b: Seq<u8>) -> Option<nat> {
    if exists|i: int| is_header_end_at(b, i) {
        let i = choose|i: int| is_header_end_at(b, i) && forall|j: int| 0 <= j < i ==> !is_header_end_at(b, j);
        Some((i + 4) as nat)
    } else {
        None
    }
}

/// The first occurrence is unique.
pub proof fn lemma_header_end_first(b: Seq<u8>, i: int)
    requires
        is_header_end_at(b, i),
        forall|j: int| 0 <= j < i ==> !is_header_end_at(b, j),
    ensures
        header_end(b) == Some((i + 4) as nat),
{
    reveal(header_end);
    assert(exists|k: int| is_header_end_at(b, k));
    let k = choose|k: int| is_header_end_at(b, k) && forall|j: int| 0 <= j < k ==> !is_header_end_at(b, j);
    assert(is_header_end_at(b, k) && forall|j: int| 0 <= j < k ==> !is_header_end_at(b, j));
    if k < i {
        assert(!is_header_end_at(b, k));
    }
    if i < k {
        assert(!is_header_end_at(b, i));
    }
}

/// Scans for the `\r\n\r\n` that ends the head of an HTTP request.
///
/// If the end is found, returns `Some(offset)` to the *end* of the head, i.e. after
/// `\r\n\r\n`. If the end is not found, returns `None`.
pub fn scan_for_header_end(buffer: &[u8]) -> (r: Option<usize>)
    ensures
        r matches Some(n) ==> 4 <= n <= buffer@.len(),
        match r {
            Some(n) => header_end(buffer@) == Some(n as nat),
            None => header_end(buffer@) is None,
        },
{
    reveal(header_end);
    if buffer.len() < 4 {
        return None;
    }
    let mut i: usize = 0;
    while i <= buffer.len() - 4
        invariant
            buffer@.len() >= 4,
            i <= buffer@.len() - 3,
            forall|j: int| 0 <= j < i ==> !is_header_end_at(buffer@, j),
        decreases buffer@.len() - i,
    {
        if buffer[i] == 0x0d && buffer[i + 1] == 0x0a && buffer[i + 2] == 0x0d && buffer[i + 3] == 0x0a {
            proof {
                lemma_header_end_first(buffer@, i as int);
            }
            return Some(i + 4);
        }
        i += 1;
    }
    proof {
        assert forall|j: int| !is_header_end_at(buffer@, j) by {
            if 0 <= j < i {
            }
        }
    }
    None
}

/// The value of a run of decimal digits.
pub open spec fn digits_value(s: Seq<u8>) -> nat
    decreases s.len(),
{
    if s.len() == 0 {
        0
    } else {
        digits_value(s.drop_last()) * 10 + (s.last() - 0x30) as nat
    }
}

/// All bytes are decimal digits.
pub open spec fn all_digits(s: Seq<u8>) -> bool {
    forall|i: int| 0 <= i < s.len() ==> 0x30 <= #[trigger] s[i] <= 0x39
}

/// How `str::parse::<usize>` reads a text: an optional `+`, then at least one decimal
/// digit and nothing else, with a value that fits in `usize`.
pub open spec fn parse_usize(b: Seq<u8>) -> Option<nat> {
    let digits = if b.len() > 1 && b[0] == 0x2b { b.drop_first() } else { b };
    if digits.len() > 0 && all_digits(digits) && digits_value(digits) <= usize::MAX {
        Some(digits_value(digits))
    } else {
        None
    }
}

proof fn lemma_digits_value_monotone(s: Seq<u8>, i: int)
    requires
        0 <= i <= s.len(),
        all_digits(s),
    ensures
        digits_value(s.subrange(0, i)) <= digits_value(s),
    decreases s.len() - i,
{
    if i < s.len() {
        lemma_digits_value_monotone(s, i + 1);
        assert(s.subrange(0, i + 1).drop_last() =~= s.subrange(0, i));
    } else {
        assert(s.subrange(0, i) =~= s);
    }
}

/// The digits of `decimal(n)` are digits and read back as `n`.
pub proof fn lemma_decimal_digits(n: nat)
    ensures
        decimal(n).len() > 0,
        all_digits(decimal(n)),
        digits_value(decimal(n)) == n,
    decreases n,
{
    if n >= 10 {
        lemma_decimal_digits(n / 10);
        let d = decimal(n / 10);
        let e = decimal(n);
        assert(e.drop_last() =~= d);
        vstd::arithmetic::div_mod::lemma_fundamental_div_mod(n as int, 10);
        assert(e.last() == (0x30 + n % 10) as u8);
        assert(e.last() - 0x30 == n % 10);
        assert(digits_value(e) == digits_value(d) * 10 + (e.last() - 0x30) as nat);
        assert forall|i: int| 0 <= i < e.len() implies 0x30 <= #[trigger] e[i] <= 0x39 by {
            if i < d.len() {
                assert(e[i] == d[i]);
            }
        }
    } else {
        let e = decimal(n);
        assert(e.drop_last() =~= Seq::<u8>::empty());
        assert(e.last() - 0x30 == n);
        assert(digits_value(e) == digits_value(e.drop_last()) * 10 + (e.last() - 0x30) as nat);
    }
}

/// A length the server writes in decimal reads back as the same length: the
/// `Content-Length` of a written response head parses to the body's length.
pub proof fn lemma_decimal_roundtrip(n: nat)
    requires
        n <= usize::MAX,
    ensures
        parse_usize(decimal(n)) == Some(n),
{
    lemma_decimal_digits(n);
    let s = decimal(n);
    assert(0x30 <= s[0] <= 0x39);
}

/// Reads a decimal number as `str::parse::<usize>` does.
pub fn parse_decimal_usize(b: &[u8]) -> (r: Option<usize>)
    ensures
        match (r, parse_usize(b@)) {
            (None, None) => true,
            (Some(v), Some(w)) => v as nat == w,
            _ => false,
        },
{
    let start: usize = if b.len() > 1 && b[0] == 0x2b { 1 } else { 0 };
    let ghost digits = if b@.len() > 1 && b@[0] == 0x2b { b@.drop_first() } else { b@ };
    assert(digits =~= b@.subrange(start as int, b@.len() as int));
    if start >= b.len() {
        return None;
    }
    let mut value: usize = 0;
    let mut i: usize = start;
    while i < b.len()
        invariant
            start <= i <= b@.len(),
            start < b@.len(),
            digits == b@.subrange(start as int, b@.len() as int),
            digits == (if b@.len() > 1 && b@[0] == 0x2b { b@.drop_first() } else { b@ }),
            all_digits(digits.subrange(0, i - start)),
            value as nat == digits_value(digits.subrange(0, i - start)),
        decreases b@.len() - i,
    {
        let c = b[i];
        if c < 0x30 || c > 0x39 {
            proof {
                assert(digits[i - start] == c);
            }
            return None;
        }
        let d = (c - 0x30) as usize;
        proof {
            assert(digits.subrange(0, i - start + 1).drop_last() =~= digits.subrange(0, i - start));
            assert(digits.subrange(0, i - start + 1).last() == c);
            assert(digits_value(digits.subrange(0, i - start + 1)) == value * 10 + d);
        }
        match value.checked_mul(10) {
            Some(v10) => match v10.checked_add(d) {
                Some(v) => {
                    value = v;
                },
                None => {
                    proof {
                        assert(all_digits(digits.subrange(0, i - start + 1)));
                        if all_digits(digits) {
                            lemma_digits_value_monotone(digits, i - start + 1);
                        }
                    }
                    return None;
                },
            },
            None => {
                proof {
                    assert(all_digits(digits.subrange(0, i - start + 1)));
                    if all_digits(digits) {
                        lemma_digits_value_monotone(digits, i - start + 1);
                    }
                }
                return None;
            },
        }
        i += 1;
    }
    proof {
        assert(digits.subrange(0, i - start) =~= digits);
    }
    Some(value)
}

/// What the server reads from the headers before it reads the body: the body length
/// (`Content-Length`, 0 when absent or unreadable) and whether the client asked to close
/// the connection (`Connection: close`). When a header repeats, the last one counts.
pub open spec fn important_headers(hs: Seq<Header>) -> (nat, bool)
    decreases hs.len(),
{
    if hs.len() == 0 {
        (0, false)
    } else {
        let (cl, close) = important_headers(hs.drop_last());
        let h = hs.last();
        if eq_ignore_ascii_case(encode_utf8(h.name@), "content-length".spec_bytes()) {
            (match parse_usize(h.value@) { Some(v) => v, None => 0 }, close)
        } else if eq_ignore_ascii_case(encode_utf8(h.name@), "connection".spec_bytes()) {
            (cl, eq_ignore_ascii_case(h.value@, "close".spec_bytes()))
        } else {
            (cl, close)
        }
    }
}

/// Reads the body length and the `Connection: close` flag from the request headers.
pub fn get_important_headers(request: &Request) -> (r: (usize, bool))
    ensures
        r.0 as nat == important_headers(request.headers@).0,
        r.1 == important_headers(request.headers@).1,
{
    let mut contentlength: usize = 0;
    let mut close = false;
    let mut i: usize = 0;
    while i < request.headers.len()
        invariant
            0 <= i <= request.headers@.len(),
            (contentlength as nat, close) == important_headers(request.headers@.subrange(0, i as int)),
        decreases request.headers@.len() - i,
    {
        let h = &request.headers[i];
        let name = h.name.as_str().as_bytes();
        if bytes_eq_ignore_ascii_case(name, "content-length".as_bytes()) {
            contentlength = match parse_decimal_usize(h.value.as_slice()) {
                Some(v) => v,
                None => 0,
            };
        } else if bytes_eq_ignore_ascii_case(name, "connection".as_bytes()) {
            close = bytes_eq_ignore_ascii_case(h.value.as_slice(), "close".as_bytes());
        }
        proof {
            assert(request.headers@.subrange(0, i + 1).drop_last() =~= request.headers@.subrange(0, i as int));
        }
        i += 1;
    }
    proof {
        assert(request.headers@.subrange(0, i as int) =~= request.headers@);
    }
    (contentlength, close)
}

/// The outside error type of `httparse`: which part of the input was malformed.
#[verifier::external_type_specification]
#[verifier::external_body]
pub struct ExHttparseError(httparse::Error);

/// What `httparse::Request::parse` makes of a buffer, with room for 32 headers: an
/// error, `None` when the head is not complete, or the request line and headers (the
/// body left empty).
pub uninterp spec fn httparse_request(buffer: Seq<u8>) -> Result<Option<Request>, httparse::Error>;

/// Calls `httparse::Request::parse` with room for 32 headers and copies out the method,
/// path, version and headers of a complete head. The contract names the result
/// `httparse_request` of the buffer and claims that a parsed request has an empty body.
#[verifier::external_body]
fn httparse_parse_request(buffer: &[u8]) -> (r: Result<Option<Request>, httparse::Error>)
    ensures
        r == httparse_request(buffer@),
        r matches Ok(Some(req)) ==> req.body@.len() == 0,
{
    let mut headers = [httparse::EMPTY_HEADER; 32];
    let mut req = httparse::Request::new(&mut headers);
    match req.parse(buffer)? {
        httparse::Status::Partial => Ok(None),
        httparse::Status::Complete(_) => Ok(Some(Request {
            method: req.method.unwrap_or_default().to_string(),
            path: req.path.unwrap_or_default().to_string(),
            version: req.version.unwrap_or_default(),
            headers: req.headers.iter().map(|h| Header { name: h.name.to_string(), value: h.value.to_vec() }).collect(),
            body: Vec::new(),
        })),
    }
}

/// Why a request head could not be parsed.
pub enum ParseError {
    /// The head is not complete yet.
    NoEndFound,
    /// The head is malformed.
    HTTPParseError(httparse::Error),
}

/// Parses the head of an HTTP request. The request has an empty body.
pub fn parse_http_request(buffer: &[u8]) -> (r: Result<Request, ParseError>)
    ensures
        match httparse_request(buffer@) {
            Ok(Some(req)) => r == Ok::<Request, ParseError>(req),
            Ok(None) => r matches Err(ParseError::NoEndFound),
            Err(e) => r matches Err(ParseError::HTTPParseError(e2)) && e2 == e,
        },
{
    match httparse_parse_request(buffer) {
        Ok(Some(req)) => Ok(req),
        Ok(None) => Err(ParseError::NoEndFound),
        Err(e) => Err(ParseError::HTTPParseError(e)),
    }
}

} // verus!
