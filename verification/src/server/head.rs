//! The head the server writes for a response is one the server reads as a complete
//! head: its first empty line is its last.
use vstd::prelude::*;
use vstd::utf8::{encode_utf8, is_ascii_chars_encode_utf8};
use vstd::string::StringSliceAdditionalSpecFns;
use crate::http::{reason_phrase, Body, Response};
use crate::server::connection::crlf;
use crate::server::parsing::{header_end, is_header_end_at, lemma_decimal_digits, lemma_header_end_first};
use crate::server::{default_lines, default_lines_for, header_lines, length_line, no_body_status, response_head, status_line};
use crate::text::decimal;

verus! {

/// No byte is `\r` or `\n`.
pub open spec fn crlf_free(s: Seq<u8>) -> bool {
    forall|i: int| 0 <= i < s.len() ==> s[i] != 0x0d && s[i] != 0x0a
}

/// No header name or value holds `\r` or `\n`.
pub open spec fn entries_crlf_free(entries: Seq<(Seq<char>, Seq<char>)>) -> bool {
    forall|i: int| 0 <= i < entries.len() ==> crlf_free(encode_utf8(#[trigger] entries[i].0)) && crlf_free(encode_utf8(entries[i].1))
}

/// A `\n` at `i` is followed by `\r`.
pub open spec fn lf_cr_at(s: Seq<u8>, i: int) -> bool {
    s[i] == 0x0a && s[i + 1] == 0x0d
}

/// The bytes are whole lines, none of them empty: unless there are none, they end with
/// `\r\n`, do not start with `\r`, and no `\n` is followed by `\r`.
#[verifier::opaque]
pub open spec fn full_lines(s: Seq<u8>) -> bool {
    s.len() == 0 || {
        &&& s.len() >= 2
        &&& s[s.len() - 2] == 0x0d
        &&& s[s.len() - 1] == 0x0a
        &&& s[0] != 0x0d
        &&& forall|i: int| 0 <= i < s.len() - 1 ==> !#[trigger] lf_cr_at(s, i)
    }
}

/// No bytes are no lines.
proof fn lemma_no_lines()
    ensures
        full_lines(Seq::<u8>::empty()),
{
    reveal(full_lines);
}

/// Byte strings free of `\r` and `\n` stay so when joined.
proof fn lemma_free_concat(a: Seq<u8>, b: Seq<u8>)
    requires
        crlf_free(a),
        crlf_free(b),
    ensures
        crlf_free(a + b),
{
    assert forall|i: int| 0 <= i < (a + b).len() implies (a + b)[i] != 0x0d && (a + b)[i] != 0x0a by {
        if i < a.len() {
            assert((a + b)[i] == a[i]);
        } else {
            assert((a + b)[i] == b[i - a.len()]);
        }
    }
}

/// Text ending a line as the server writes it is `\r\n`.
proof fn lemma_crlf_text()
    ensures
        "\r\n".spec_bytes() == crlf(),
{
    reveal_strlit("\r\n");
    is_ascii_chars_encode_utf8("\r\n"@);
    assert("\r\n".spec_bytes() =~= crlf());
}

/// A non-empty text without `\r` and `\n`, ended with `\r\n`, is a full line.
proof fn lemma_line(c: Seq<u8>)
    requires
        c.len() > 0,
        crlf_free(c),
    ensures
        full_lines(c + crlf()),
{
    reveal(full_lines);
    let s = c + crlf();
    assert(s[0] == c[0]);
    assert(s[s.len() - 2] == 0x0d && s[s.len() - 1] == 0x0a);
    assert forall|i: int| 0 <= i < s.len() - 1 implies !#[trigger] lf_cr_at(s, i) by {
        if i < c.len() {
            assert(s[i] == c[i]);
        }
    }
}

/// Full lines joined are full lines.
proof fn lemma_lines_concat(a: Seq<u8>, b: Seq<u8>)
    requires
        full_lines(a),
        full_lines(b),
    ensures
        full_lines(a + b),
{
    reveal(full_lines);
    let s = a + b;
    if a.len() == 0 {
        assert(s =~= b);
    } else if b.len() == 0 {
        assert(s =~= a);
    } else {
        assert(s[0] == a[0]);
        assert(s[s.len() - 2] == b[b.len() - 2] && s[s.len() - 1] == b[b.len() - 1]);
        assert forall|i: int| 0 <= i < s.len() - 1 implies !#[trigger] lf_cr_at(s, i) by {
            if i < a.len() - 1 {
                assert(s[i] == a[i] && s[i + 1] == a[i + 1]);
                assert(!lf_cr_at(a, i));
            } else if i == a.len() - 1 {
                assert(s[i + 1] == b[0]);
            } else {
                assert(s[i] == b[i - a.len()] && s[i + 1] == b[i + 1 - a.len()]);
                assert(!lf_cr_at(b, i - a.len()));
            }
        }
    }
}

/// Full lines and then an empty line make a head that ends exactly there.
proof fn lemma_complete(s: Seq<u8>)
    requires
        full_lines(s),
        s.len() > 0,
    ensures
        header_end(s + crlf()) == Some((s.len() + 2) as nat),
{
    reveal(full_lines);
    let h = s + crlf();
    let k = s.len() - 2;
    assert(h[k] == s[k] && h[k + 1] == s[k + 1]);
    assert(h[k + 2] == 0x0d && h[k + 3] == 0x0a);
    assert(is_header_end_at(h, k));
    assert forall|j: int| 0 <= j < k implies !is_header_end_at(h, j) by {
        if is_header_end_at(h, j) {
            assert(h[j + 1] == s[j + 1] && h[j + 2] == s[j + 2]);
            assert(lf_cr_at(s, j + 1));
        }
    }
    lemma_header_end_first(h, k);
}

/// The digits of a number hold no `\r` or `\n`.
proof fn lemma_decimal_free(n: nat)
    ensures
        crlf_free(decimal(n)),
        decimal(n).len() > 0,
{
    lemma_decimal_digits(n);
}

/// No reason phrase holds `\r` or `\n`.
proof fn lemma_reason_free(code: u16)
    ensures
        crlf_free(reason_phrase(code).spec_bytes()),
{
    match code {
        200 => {
            reveal_strlit("OK");
            is_ascii_chars_encode_utf8("OK"@);
        },
        204 => {
            reveal_strlit("No Content");
            is_ascii_chars_encode_utf8("No Content"@);
        },
        304 => {
            reveal_strlit("Not Modified");
            is_ascii_chars_encode_utf8("Not Modified"@);
        },
        307 => {
            reveal_strlit("Temporary Redirect");
            is_ascii_chars_encode_utf8("Temporary Redirect"@);
        },
        400 => {
            reveal_strlit("Bad Request");
            is_ascii_chars_encode_utf8("Bad Request"@);
        },
        401 => {
            reveal_strlit("Unauthorized");
            is_ascii_chars_encode_utf8("Unauthorized"@);
        },
        403 => {
            reveal_strlit("Forbidden");
            is_ascii_chars_encode_utf8("Forbidden"@);
        },
        404 => {
            reveal_strlit("Not Found");
            is_ascii_chars_encode_utf8("Not Found"@);
        },
        408 => {
            reveal_strlit("Request Timeout");
            is_ascii_chars_encode_utf8("Request Timeout"@);
        },
        413 => {
            reveal_strlit("Content Too Large");
            is_ascii_chars_encode_utf8("Content Too Large"@);
        },
        431 => {
            reveal_strlit("Request Header Fields Too Large");
            is_ascii_chars_encode_utf8("Request Header Fields Too Large"@);
        },
        500 => {
            reveal_strlit("Internal Server Error");
            is_ascii_chars_encode_utf8("Internal Server Error"@);
        },
        _ => {
            reveal_strlit("");
            is_ascii_chars_encode_utf8(""@);
        },
    }
}

/// The status line is a full line.
proof fn lemma_status_line(status: u16)
    ensures
        full_lines(status_line(status)),
        status_line(status).len() > 0,
{
    reveal_strlit("HTTP/1.1 ");
    is_ascii_chars_encode_utf8("HTTP/1.1 "@);
    reveal_strlit(" ");
    is_ascii_chars_encode_utf8(" "@);
    lemma_decimal_free(status as nat);
    lemma_reason_free(status);
    lemma_crlf_text();
    let a = "HTTP/1.1 ".spec_bytes();
    let b = decimal(status as nat);
    let c = " ".spec_bytes();
    let d = reason_phrase(status).spec_bytes();
    lemma_free_concat(a, b);
    lemma_free_concat(a + b, c);
    lemma_free_concat(a + b + c, d);
    assert((a + b + c + d).len() > 0);
    lemma_line(a + b + c + d);
}

/// The header lines of headers without `\r` and `\n` are full lines.
proof fn lemma_header_lines(entries: Seq<(Seq<char>, Seq<char>)>, nobody: bool)
    requires
        entries_crlf_free(entries),
    ensures
        full_lines(header_lines(entries, nobody)),
    decreases entries.len(),
{
    if entries.len() > 0 {
        let t = entries.drop_last();
        assert forall|i: int| 0 <= i < t.len() implies crlf_free(encode_utf8(#[trigger] t[i].0)) && crlf_free(encode_utf8(t[i].1)) by {
            assert(t[i] == entries[i]);
        }
        assert(entries_crlf_free(t));
        lemma_header_lines(t, nobody);
        let e = entries.last();
        assert(e == entries[entries.len() - 1]);
        reveal_strlit(": ");
        is_ascii_chars_encode_utf8(": "@);
        lemma_crlf_text();
        let n = encode_utf8(e.0);
        let v = encode_utf8(e.1);
        let sep = ": ".spec_bytes();
        lemma_free_concat(n, sep);
        lemma_free_concat(n + sep, v);
        assert((n + sep + v).len() > 0);
        lemma_line(n + sep + v);
        lemma_no_lines();
        lemma_lines_concat(header_lines(t, nobody), n + sep + v + crlf());
        lemma_lines_concat(header_lines(t, nobody), Seq::empty());
    } else {
        lemma_no_lines();
    }
}

/// A literal line the server writes is a full line.
proof fn lemma_literal_lines()
    ensures
        full_lines("Server: moonbeam/0.3.0\r\n".spec_bytes()),
        full_lines("Content-Type: application/octet-stream\r\n".spec_bytes()),
        full_lines("Transfer-Encoding: chunked\r\n".spec_bytes()),
        full_lines("Content-Length: 0\r\n".spec_bytes()),
{
    reveal(full_lines);
    reveal_strlit("Server: moonbeam/0.3.0\r\n");
    is_ascii_chars_encode_utf8("Server: moonbeam/0.3.0\r\n"@);
    reveal_strlit("Content-Type: application/octet-stream\r\n");
    is_ascii_chars_encode_utf8("Content-Type: application/octet-stream\r\n"@);
    reveal_strlit("Transfer-Encoding: chunked\r\n");
    is_ascii_chars_encode_utf8("Transfer-Encoding: chunked\r\n"@);
    reveal_strlit("Content-Length: 0\r\n");
    is_ascii_chars_encode_utf8("Content-Length: 0\r\n"@);
}

/// The length line is a full line.
proof fn lemma_length_line(body: Option<Body>)
    ensures
        full_lines(length_line(body)),
{
    lemma_literal_lines();
    reveal_strlit("Content-Length: ");
    is_ascii_chars_encode_utf8("Content-Length: "@);
    lemma_crlf_text();
    let p = "Content-Length: ".spec_bytes();
    match body {
        Some(Body::Immediate(data)) => {
            let d = decimal(data@.len() as u64 as nat);
            lemma_decimal_free(data@.len() as u64 as nat);
            lemma_free_concat(p, d);
            assert((p + d).len() > 0);
            lemma_line(p + d);
        },
        Some(Body::Stream { len: Some(l) }) => {
            let d = decimal(l as nat);
            lemma_decimal_free(l as nat);
            lemma_free_concat(p, d);
            assert((p + d).len() > 0);
            lemma_line(p + d);
        },
        _ => {},
    }
}

/// The default lines are full lines when the date holds no `\r` or `\n`.
proof fn lemma_default_lines(server: bool, date: bool, content_type: bool, length: bool, date_value: Seq<char>, body: Option<Body>)
    requires
        crlf_free(encode_utf8(date_value)),
    ensures
        full_lines(default_lines_for(server, date, content_type, length, date_value, body)),
{
    lemma_literal_lines();
    lemma_length_line(body);
    reveal_strlit("Date: ");
    is_ascii_chars_encode_utf8("Date: "@);
    lemma_crlf_text();
    let dp = "Date: ".spec_bytes();
    lemma_free_concat(dp, encode_utf8(date_value));
    assert((dp + encode_utf8(date_value)).len() > 0);
    lemma_line(dp + encode_utf8(date_value));
    let a = if server { "Server: moonbeam/0.3.0\r\n".spec_bytes() } else { Seq::<u8>::empty() };
    let b = if date { dp + encode_utf8(date_value) + "\r\n".spec_bytes() } else { Seq::<u8>::empty() };
    let c = if content_type { "Content-Type: application/octet-stream\r\n".spec_bytes() } else { Seq::<u8>::empty() };
    let d = if length { length_line(body) } else { Seq::<u8>::empty() };
    lemma_no_lines();
    lemma_lines_concat(a, b);
    lemma_lines_concat(a + b, c);
    lemma_lines_concat(a + b + c, d);
}

/// Full lines, more full lines, and an empty line make a head that ends there.
proof fn lemma_compose(s: Seq<u8>, h: Seq<u8>, d: Seq<u8>)
    requires
        full_lines(s),
        full_lines(h),
        full_lines(d),
        s.len() > 0,
    ensures
        header_end(s + h + d + crlf()) == Some((s + h + d + crlf()).len()),
{
    lemma_lines_concat(s, h);
    lemma_lines_concat(s + h, d);
    lemma_complete(s + h + d);
}

/// The head written for a response ends at its first empty line, so the server's own
/// scan finds the whole head and nothing more, provided no header name or value and not
/// the date holds `\r` or `\n`.
pub proof fn lemma_written_head_complete(resp: Response, date: Seq<char>)
    requires
        crlf_free(encode_utf8(date)),
        entries_crlf_free(resp.headers.entries()),
    ensures
        header_end(response_head(resp, date)) == Some(response_head(resp, date).len()),
{
    let entries = resp.headers.entries();
    let nobody = no_body_status(resp.status);
    let s = status_line(resp.status);
    let h = header_lines(entries, nobody);
    let d = default_lines(resp, date);
    let a = !crate::http::response::has_name(entries, "server"@);
    let b = !crate::http::response::has_name(entries, "date"@);
    let c = !(nobody || crate::http::response::has_name(entries, "content-type"@) || resp.body is None);
    let l = !(nobody || crate::http::response::has_name(entries, "content-length"@));
    assert(d == default_lines_for(a, b, c, l, date, resp.body));
    lemma_status_line(resp.status);
    lemma_header_lines(entries, nobody);
    lemma_default_lines(a, b, c, l, date, resp.body);
    lemma_compose(s, h, d);
    lemma_crlf_text();
    assert(response_head(resp, date) == s + h + d + crlf());
}

} // verus!
