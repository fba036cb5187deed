//! The server's request handling: finding and parsing request heads and writing
//! response heads.
pub mod parsing;
pub mod compress;
pub mod accept;
pub mod connection;
pub mod helpers;
pub mod bufpool;
pub mod writer;
pub mod head;

use vstd::prelude::*;
use vstd::utf8::encode_utf8;
use vstd::string::StringSliceAdditionalSpecFns;
use crate::http::{canonical_reason, reason_phrase, Body, Response};
use crate::http::response::{has_name, name_matches};
use crate::text::{append_bytes, bytes_eq_ignore_ascii_case, decimal, decimal_bytes};

verus! {

/// The size of the buffer a connection reads requests into and writes response heads
/// from.
pub const BUFSIZE: usize = 16384;

/// Responses with these status codes carry no body.
pub open spec fn no_body_status(status: u16) -> bool {
    (100 <= status < 200) || status == 204 || status == 205 || status == 304
}

/// The header lines written for the response's own headers, in order. Responses that
/// carry no body lose their `Content-Type` and `Content-Length` headers.
pub open spec fn header_lines(entries: Seq<(Seq<char>, Seq<char>)>, nobody: bool) -> Seq<u8>
    decreases entries.len(),
{
    if entries.len() == 0 {
        Seq::empty()
    } else {
        let e = entries.last();
        let skip = nobody && (name_matches(e.0, "content-type"@) || name_matches(e.0, "content-length"@));
        header_lines(entries.drop_last(), nobody) + if skip {
            Seq::empty()
        } else {
            encode_utf8(e.0) + ": ".spec_bytes() + encode_utf8(e.1) + "\r\n".spec_bytes()
        }
    }
}

/// The body length line: the known length, chunked transfer for a body of unknown
/// length, and zero without a body.
pub open spec fn length_line(body: Option<Body>) -> Seq<u8> {
    match body {
        Some(Body::Immediate(data)) => "Content-Length: ".spec_bytes() + decimal(data@.len() as u64 as nat) + "\r\n".spec_bytes(),
        Some(Body::Stream { len: Some(l) }) => "Content-Length: ".spec_bytes() + decimal(l as nat) + "\r\n".spec_bytes(),
        Some(Body::Stream { len: None }) => "Transfer-Encoding: chunked\r\n".spec_bytes(),
        None => "Content-Length: 0\r\n".spec_bytes(),
    }
}

/// The status line of a response.
pub open spec fn status_line(status: u16) -> Seq<u8> {
    "HTTP/1.1 ".spec_bytes() + decimal(status as nat) + " ".spec_bytes() + reason_phrase(status).spec_bytes()
        + "\r\n".spec_bytes()
}

/// The default headers, given which ones are still missing: `Server`, `Date`,
/// `Content-Type`, and the length of the body.
pub open spec fn default_lines_for(server: bool, date: bool, content_type: bool, length: bool, date_value: Seq<char>, body: Option<Body>) -> Seq<u8> {
    (if server { "Server: moonbeam/0.3.0\r\n".spec_bytes() } else { Seq::empty() })
        + (if date { "Date: ".spec_bytes() + encode_utf8(date_value) + "\r\n".spec_bytes() } else { Seq::empty() })
        + (if content_type { "Content-Type: application/octet-stream\r\n".spec_bytes() } else { Seq::empty() })
        + (if length { length_line(body) } else { Seq::empty() })
}

/// The `Server`, `Date`, `Content-Type` and length headers that a response does not set
/// itself (no type or length for responses that carry no body, and no type without a
/// body).
pub open spec fn default_lines(resp: Response, date: Seq<char>) -> Seq<u8> {
    let entries = resp.headers.entries();
    let nobody = no_body_status(resp.status);
    default_lines_for(
        !has_name(entries, "server"@),
        !has_name(entries, "date"@),
        !(nobody || has_name(entries, "content-type"@) || resp.body is None),
        !(nobody || has_name(entries, "content-length"@)),
        date,
        resp.body,
    )
}

/// The head written for a response: the status line, the response's headers, the
/// default headers it does not set itself, and an empty line.
pub open spec fn response_head(resp: Response, date: Seq<char>) -> Seq<u8> {
    status_line(resp.status) + header_lines(resp.headers.entries(), no_body_status(resp.status))
        + default_lines(resp, date) + "\r\n".spec_bytes()
}

/// The length of a body, when it is known: the size of in-memory data, or the length a
/// stream was given.
pub open spec fn known_length(body: Body) -> Option<nat> {
    match body {
        Body::Immediate(data) => Some(data@.len()),
        Body::Stream { len: Some(l) } => Some(l as nat),
        Body::Stream { len: None } => None,
    }
}

/// `s` ends with `suffix`.
pub open spec fn ends_with(s: Seq<u8>, suffix: Seq<u8>) -> bool {
    suffix.len() <= s.len() && s.subrange(s.len() - suffix.len(), s.len() as int) == suffix
}

/// The last header of a response that may carry a body and sets no `Content-Length`
/// itself announces how the body is delimited: `Content-Length` with the body's length
/// when it is known (0 without a body), and `Transfer-Encoding: chunked` exactly when it
/// is not.
pub proof fn lemma_head_announces_length(resp: Response, date: Seq<char>)
    requires
        !no_body_status(resp.status),
        !has_name(resp.headers.entries(), "content-length"@),
    ensures
        resp.body is None ==> ends_with(response_head(resp, date),
            "Content-Length: 0\r\n".spec_bytes() + "\r\n".spec_bytes()),
        resp.body matches Some(b) ==> (known_length(b) matches Some(n) ==> ends_with(response_head(resp, date),
            "Content-Length: ".spec_bytes() + decimal(n) + "\r\n".spec_bytes() + "\r\n".spec_bytes())),
        resp.body matches Some(b) ==> (known_length(b) is None ==> ends_with(response_head(resp, date),
            "Transfer-Encoding: chunked\r\n".spec_bytes() + "\r\n".spec_bytes())),
{
    lemma_head_ends_with_length_line(resp, date);
    lemma_length_line_shape(response_head(resp, date), resp.body);
}

/// What a head that ends with the length line of `body` ends with.
proof fn lemma_length_line_shape(h: Seq<u8>, body: Option<Body>)
    requires
        ends_with(h, length_line(body) + "\r\n".spec_bytes()),
    ensures
        body is None ==> ends_with(h, "Content-Length: 0\r\n".spec_bytes() + "\r\n".spec_bytes()),
        body matches Some(b) ==> (known_length(b) matches Some(n) ==> ends_with(h,
            "Content-Length: ".spec_bytes() + decimal(n) + "\r\n".spec_bytes() + "\r\n".spec_bytes())),
        body matches Some(b) ==> (known_length(b) is None ==> ends_with(h,
            "Transfer-Encoding: chunked\r\n".spec_bytes() + "\r\n".spec_bytes())),
{
    if let Some(Body::Immediate(data)) = body {
        vstd::std_specs::vec::axiom_spec_len(&data);
        assert(data@.len() as u64 as nat == data@.len());
    }
}

/// The head of such a response ends with its length line and the empty line.
proof fn lemma_head_ends_with_length_line(resp: Response, date: Seq<char>)
    requires
        !no_body_status(resp.status),
        !has_name(resp.headers.entries(), "content-length"@),
    ensures
        ends_with(response_head(resp, date), length_line(resp.body) + "\r\n".spec_bytes()),
{
    let entries = resp.headers.entries();
    let nobody = no_body_status(resp.status);
    let server = !has_name(entries, "server"@);
    let has_date = !has_name(entries, "date"@);
    let ct = !(nobody || has_name(entries, "content-type"@) || resp.body is None);
    lemma_defaults_end(server, has_date, ct, date, resp.body);
    let line = length_line(resp.body);
    let sl = status_line(resp.status);
    let hl = header_lines(entries, nobody);
    let d0 = default_lines_for(server, has_date, ct, false, date, resp.body);
    let crlf = "\r\n".spec_bytes();
    assert(default_lines(resp, date) == d0 + line);
    assert(response_head(resp, date) == sl + hl + (d0 + line) + crlf);
    lemma_ends_with_concat(sl + hl + d0, line + crlf);
    assert(sl + hl + (d0 + line) + crlf =~= (sl + hl + d0) + (line + crlf));
}

/// A sequence ends with what was put last.
proof fn lemma_ends_with_concat(a: Seq<u8>, b: Seq<u8>)
    ensures
        ends_with(a + b, b),
{
    assert((a + b).subrange(a.len() as int, (a + b).len() as int) =~= b);
}

/// The default headers end with the length line when it is missing.
proof fn lemma_defaults_end(server: bool, date: bool, content_type: bool, date_value: Seq<char>, body: Option<Body>)
    ensures
        default_lines_for(server, date, content_type, true, date_value, body)
            == default_lines_for(server, date, content_type, false, date_value, body) + length_line(body),
{
    let a = default_lines_for(server, date, content_type, false, date_value, body);
    assert(a + Seq::<u8>::empty() =~= a);
}

/// The response head does not fit in the buffer.
#[derive(Debug)]
pub struct WriteError;

/// The header lines of the response and which default headers it sets itself.
fn write_header_lines(out: &mut Vec<u8>, response: &Response, nobody: bool) -> (r: (bool, bool, bool, bool))
    ensures
        final(out)@ == old(out)@ + header_lines(response.headers.entries(), nobody),
        r.0 == has_name(response.headers.entries(), "server"@),
        r.1 == has_name(response.headers.entries(), "date"@),
        r.2 == has_name(response.headers.entries(), "content-type"@),
        r.3 == has_name(response.headers.entries(), "content-length"@),
{
    let headers = response.headers.iter();
    let ghost entries = response.headers.entries();
    let mut server = false;
    let mut date = false;
    let mut content_type = false;
    let mut content_length = false;
    let mut i: usize = 0;
    while i < headers.len()
        invariant
            headers@.map_values(|p: (String, String)| crate::http::response::entry_view(p)) == entries,
            0 <= i <= entries.len(),
            out@ == old(out)@ + header_lines(entries.subrange(0, i as int), nobody),
            server == has_name(entries.subrange(0, i as int), "server"@),
            date == has_name(entries.subrange(0, i as int), "date"@),
            content_type == has_name(entries.subrange(0, i as int), "content-type"@),
            content_length == has_name(entries.subrange(0, i as int), "content-length"@),
        decreases entries.len() - i,
    {
        let ghost pre = entries.subrange(0, i as int);
        let ghost post = entries.subrange(0, i + 1);
        let (name, value) = &headers[i];
        let nb = name.as_str().as_bytes();
        let is_server = bytes_eq_ignore_ascii_case(nb, "server".as_bytes());
        let is_date = bytes_eq_ignore_ascii_case(nb, "date".as_bytes());
        let is_ct = bytes_eq_ignore_ascii_case(nb, "content-type".as_bytes());
        let is_cl = bytes_eq_ignore_ascii_case(nb, "content-length".as_bytes());
        server = server || is_server;
        date = date || is_date;
        content_type = content_type || is_ct;
        content_length = content_length || is_cl;
        if !(nobody && (is_ct || is_cl)) {
            append_bytes(out, nb);
            append_bytes(out, ": ".as_bytes());
            append_bytes(out, value.as_str().as_bytes());
            append_bytes(out, "\r\n".as_bytes());
        }
        proof {
            assert(post.drop_last() =~= pre);
            assert(entries[i as int] == crate::http::response::entry_view(headers@[i as int]));
            assert(out@ =~= old(out)@ + header_lines(post, nobody));
            assert forall|nm: Seq<char>| has_name(post, nm) == (has_name(pre, nm) || name_matches(post[i as int].0, nm)) by {
                if has_name(post, nm) {
                    let k = choose|k: int| 0 <= k < post.len() && name_matches(#[trigger] post[k].0, nm);
                    if k < i {
                        assert(pre[k] == post[k]);
                    }
                }
                if has_name(pre, nm) {
                    let k = choose|k: int| 0 <= k < pre.len() && name_matches(#[trigger] pre[k].0, nm);
                    assert(pre[k] == post[k]);
                }
            }
        }
        i += 1;
    }
    proof {
        assert(entries.subrange(0, i as int) =~= entries);
    }
    (server, date, content_type, content_length)
}

/// Writes the status line of a response.
fn write_status_line(out: &mut Vec<u8>, status: u16)
    ensures
        final(out)@ == old(out)@ + status_line(status),
{
    append_bytes(out, "HTTP/1.1 ".as_bytes());
    let code = decimal_bytes(status as u64);
    append_bytes(out, code.as_slice());
    append_bytes(out, " ".as_bytes());
    append_bytes(out, canonical_reason(status).as_bytes());
    append_bytes(out, "\r\n".as_bytes());
    assert(out@ =~= old(out)@ + status_line(status));
}

/// The body length header, or the chunked transfer header for a body of unknown
/// length.
fn write_length_line(out: &mut Vec<u8>, body: &Option<Body>)
    ensures
        final(out)@ == old(out)@ + length_line(*body),
{
    match body {
        Some(body) => match body.len() {
            Some(len) => {
                append_bytes(out, "Content-Length: ".as_bytes());
                let digits = decimal_bytes(len);
                append_bytes(out, digits.as_slice());
                append_bytes(out, "\r\n".as_bytes());
            },
            None => {
                append_bytes(out, "Transfer-Encoding: chunked\r\n".as_bytes());
            },
        },
        None => {
            append_bytes(out, "Content-Length: 0\r\n".as_bytes());
        },
    }
}

/// Writes the default headers that are missing.
fn write_default_lines(out: &mut Vec<u8>, server: bool, date: bool, content_type: bool, length: bool, date_value: &str, body: &Option<Body>)
    ensures
        final(out)@ == old(out)@ + default_lines_for(server, date, content_type, length, date_value@, *body),
{
    let ghost p0 = out@;
    if server {
        append_bytes(out, "Server: moonbeam/0.3.0\r\n".as_bytes());
    }
    let ghost p1 = out@;
    if date {
        append_bytes(out, "Date: ".as_bytes());
        append_bytes(out, date_value.as_bytes());
        append_bytes(out, "\r\n".as_bytes());
    }
    let ghost p2 = out@;
    if content_type {
        append_bytes(out, "Content-Type: application/octet-stream\r\n".as_bytes());
    }
    let ghost p3 = out@;
    if length {
        write_length_line(out, body);
    }
    proof {
        let a = if server { "Server: moonbeam/0.3.0\r\n".spec_bytes() } else { Seq::<u8>::empty() };
        let b = if date { "Date: ".spec_bytes() + encode_utf8(date_value@) + "\r\n".spec_bytes() } else { Seq::<u8>::empty() };
        let c = if content_type { "Content-Type: application/octet-stream\r\n".spec_bytes() } else { Seq::<u8>::empty() };
        let d = if length { length_line(*body) } else { Seq::<u8>::empty() };
        assert(p1 =~= p0 + a);
        assert(p2 =~= p1 + b);
        assert(p3 =~= p2 + c);
        assert(out@ =~= p3 + d);
        assert(out@ =~= p0 + (a + b + c + d));
    }
}

/// The whole head of a response as bytes.
fn response_head_bytes(response: &Response, date: &str) -> (out: Vec<u8>)
    ensures
        out@ == response_head(*response, date@),
{
    let mut out: Vec<u8> = Vec::new();
    write_status_line(&mut out, response.status);
    let status = response.status;
    let nobody = (100 <= status && status < 200) || status == 204 || status == 205 || status == 304;
    let (server, date_set, content_type, content_length) = write_header_lines(&mut out, response, nobody);
    write_default_lines(
        &mut out,
        !server,
        !date_set,
        !(nobody || content_type || response.body.is_none()),
        !(nobody || content_length),
        date,
        &response.body,
    );
    append_bytes(&mut out, "\r\n".as_bytes());
    assert(out@ =~= response_head(*response, date@));
    out
}

/// Writes the head of `response` into `buffer` and returns its length. `date` is the
/// value of the `Date` header used when the response sets none.
///
/// Fails, leaving the buffer as it was, when the head does not fit.
pub fn write_response(response: &Response, date: &str, buffer: &mut [u8]) -> (r: Result<usize, WriteError>)
    ensures
        final(buffer)@.len() == old(buffer)@.len(),
        match r {
            Ok(n) => n == response_head(*response, date@).len() && n <= old(buffer)@.len()
                && final(buffer)@.subrange(0, n as int) == response_head(*response, date@)
                && final(buffer)@.skip(n as int) == old(buffer)@.skip(n as int),
            Err(_) => response_head(*response, date@).len() > old(buffer)@.len()
                && final(buffer)@ == old(buffer)@,
        },
{
    let out = response_head_bytes(response, date);
    if out.len() > buffer.len() {
        return Err(WriteError);
    }
    let mut i: usize = 0;
    while i < out.len()
        invariant
            out@.len() <= buffer@.len(),
            buffer@.len() == old(buffer)@.len(),
            0 <= i <= out@.len(),
            forall|j: int| 0 <= j < i ==> buffer@[j] == out@[j],
            forall|j: int| i <= j < buffer@.len() ==> buffer@[j] == old(buffer)@[j],
        decreases out@.len() - i,
    {
        buffer[i] = out[i];
        i += 1;
    }
    proof {
        assert(buffer@.subrange(0, out@.len() as int) =~= out@);
        assert(buffer@.skip(out@.len() as int) =~= old(buffer)@.skip(out@.len() as int));
    }
    Ok(out.len())
}

} // verus!
