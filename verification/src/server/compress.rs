//! Which responses are compressed, and how their headers change when they are.
use vstd::prelude::*;
use vstd::utf8::{encode_utf8, is_ascii_chars, is_ascii_chars_encode_utf8};
use vstd::string::StringSliceAdditionalSpecFns;
use crate::http::{Body, Headers, Response};
use crate::http::response::{
    entry_view, first_value, has_name, lemma_first_match_props, lemma_without_has_none, name_matches, without_name,
};
use crate::text::{ascii_lower, bytes_eq_ignore_ascii_case, bytes_starts_with, starts_with, to_ascii_lower};

verus! {

/// A content encoding the server can compress a body with.
#[derive(Debug, Clone, Copy, PartialEq, Eq, Structural)]
pub enum Encoding {
    /// Brotli (`br`).
    Brotli,
    /// Gzip (`gzip`).
    Gzip,
    /// Zlib deflate (`deflate`).
    Deflate,
}

/// The name of an encoding in the `Content-Encoding` header.
pub open spec fn encoding_name(e: Encoding) -> Seq<char> {
    match e {
        Encoding::Brotli => "br"@,
        Encoding::Gzip => "gzip"@,
        Encoding::Deflate => "deflate"@,
    }
}

impl Encoding {
    /// The name of the encoding in the `Content-Encoding` header.
    pub fn as_str(&self) -> (r: &'static str)
        ensures
            r@ == encoding_name(*self),
    {
        match self {
            Encoding::Brotli => "br",
            Encoding::Gzip => "gzip",
            Encoding::Deflate => "deflate",
        }
    }
}

/// A character with the Unicode `White_Space` property.
pub open spec fn is_white_space(c: char) -> bool {
    let u = c as u32;
    ||| 0x09 <= u <= 0x0d
    ||| u == 0x20 || u == 0x85 || u == 0xa0 || u == 0x1680
    ||| 0x2000 <= u <= 0x200a
    ||| u == 0x2028 || u == 0x2029 || u == 0x202f || u == 0x205f || u == 0x3000
}

/// The text without its leading white space.
pub open spec fn trim_start_ws(s: Seq<char>) -> Seq<char>
    decreases s.len(),
{
    if s.len() > 0 && is_white_space(s[0]) {
        trim_start_ws(s.drop_first())
    } else {
        s
    }
}

/// The text without its trailing white space.
pub open spec fn trim_end_ws(s: Seq<char>) -> Seq<char>
    decreases s.len(),
{
    if s.len() > 0 && is_white_space(s.last()) {
        trim_end_ws(s.drop_last())
    } else {
        s
    }
}

/// The text without its leading and trailing white space.
pub open spec fn unicode_trim(s: Seq<char>) -> Seq<char> {
    trim_end_ws(trim_start_ws(s))
}

/// Calls `str::trim` (std), which, as std documents, removes leading and trailing
/// characters with the Unicode `White_Space` property.
#[verifier::external_body]
fn trim(s: &str) -> (r: &str)
    ensures
        r@ == unicode_trim(s@),
{
    s.trim()
}

/// ASCII lowercase of every byte.
pub open spec fn lower_bytes(s: Seq<u8>) -> Seq<u8> {
    s.map_values(|b: u8| ascii_lower(b))
}

/// Whether a `Content-Type` value names a type worth compressing: text, JSON, XML,
/// JavaScript, XHTML, SVG, RSS or Atom (surrounding white space and ASCII case
/// ignored).
pub open spec fn compressible(ct: Seq<char>) -> bool {
    let t = lower_bytes(encode_utf8(unicode_trim(ct)));
    ||| starts_with(t, "text/".spec_bytes())
    ||| starts_with(t, "application/json".spec_bytes())
    ||| starts_with(t, "application/xml".spec_bytes())
    ||| starts_with(t, "application/javascript".spec_bytes())
    ||| starts_with(t, "application/xhtml+xml".spec_bytes())
    ||| starts_with(t, "image/svg+xml".spec_bytes())
    ||| starts_with(t, "application/rss+xml".spec_bytes())
    ||| starts_with(t, "application/atom+xml".spec_bytes())
}

/// Trimming the end of `p + s`, where `p` does not end in white space, keeps `p`.
proof fn lemma_trim_end_keeps_prefix(p: Seq<char>, s: Seq<char>)
    requires
        p.len() > 0,
        !is_white_space(p.last()),
    ensures
        trim_end_ws(p + s).len() >= p.len(),
        trim_end_ws(p + s).take(p.len() as int) == p,
    decreases s.len(),
{
    let x = p + s;
    if s.len() == 0 {
        assert(x =~= p);
    } else {
        assert(x.last() == s.last());
        if is_white_space(s.last()) {
            assert(x.drop_last() =~= p + s.drop_last());
            lemma_trim_end_keeps_prefix(p, s.drop_last());
        } else {
            assert(x.take(p.len() as int) =~= p);
        }
    }
}

/// The UTF-8 encoding of two texts one after the other is their encodings one after the
/// other.
proof fn lemma_encode_concat(a: Seq<char>, b: Seq<char>)
    ensures
        encode_utf8(a + b) == encode_utf8(a) + encode_utf8(b),
    decreases a.len(),
{
    if a.len() == 0 {
        assert(a + b =~= b);
        assert(encode_utf8(a) =~= Seq::<u8>::empty());
        assert(encode_utf8(a) + encode_utf8(b) =~= encode_utf8(b));
    } else {
        assert((a + b)[0] == a[0]);
        assert((a + b).drop_first() =~= a.drop_first() + b);
        lemma_encode_concat(a.drop_first(), b);
        let e = vstd::utf8::encode_scalar(a[0] as u32);
        assert(e + encode_utf8(a.drop_first() + b) =~= e + encode_utf8(a.drop_first()) + encode_utf8(b));
    }
}

/// A content type that begins with `p`, an ASCII text without capital letters that
/// neither starts nor ends with white space, reads as beginning with `p` once trimmed and
/// lowercased, whatever follows.
proof fn lemma_type_prefix(p: Seq<char>, s: Seq<char>)
    requires
        p.len() > 0,
        !is_white_space(p[0]),
        !is_white_space(p.last()),
        is_ascii_chars(p),
        forall|i: int| 0 <= i < encode_utf8(p).len() ==> ascii_lower(#[trigger] encode_utf8(p)[i]) == encode_utf8(p)[i],
    ensures
        starts_with(lower_bytes(encode_utf8(unicode_trim(p + s))), encode_utf8(p)),
{
    assert((p + s)[0] == p[0]);
    assert(trim_start_ws(p + s) == p + s);
    lemma_trim_end_keeps_prefix(p, s);
    let x = trim_end_ws(p + s);
    assert(unicode_trim(p + s) == x);
    let rest = x.skip(p.len() as int);
    assert(x =~= p + rest);
    lemma_encode_concat(p, rest);
    is_ascii_chars_encode_utf8(p);
    let e = encode_utf8(x);
    let ep = encode_utf8(p);
    assert(e == ep + encode_utf8(rest));
    let l = lower_bytes(e);
    assert(l.subrange(0, ep.len() as int) =~= ep) by {
        assert forall|i: int| 0 <= i < ep.len() implies l[i] == ep[i] by {
            assert(e[i] == ep[i]);
        }
    }
}

/// `lemma_type_prefix` for a listed type, checked character by character.
proof fn lemma_listed_prefix(p: Seq<char>, s: Seq<char>)
    requires
        p.len() > 0,
        forall|i: int| 0 <= i < p.len() ==> ('a' <= #[trigger] p[i] <= 'z') || p[i] == '/' || p[i] == '+' || p[i] == '-',
    ensures
        starts_with(lower_bytes(encode_utf8(unicode_trim(p + s))), encode_utf8(p)),
{
    assert(p[0] == p[0]);
    assert(p.last() == p[p.len() - 1]);
    assert(is_ascii_chars(p));
    is_ascii_chars_encode_utf8(p);
    assert forall|i: int| 0 <= i < encode_utf8(p).len() implies ascii_lower(#[trigger] encode_utf8(p)[i]) == encode_utf8(p)[i] by {
        assert(p[i] as u8 == encode_utf8(p)[i]);
    }
    lemma_type_prefix(p, s);
}

/// A content type that begins with `p`, which neither starts nor ends with white space,
/// reads as beginning with `p` in ASCII lowercase once trimmed and lowercased, whatever
/// follows.
proof fn lemma_type_prefix_any_case(p: Seq<char>, s: Seq<char>)
    requires
        p.len() > 0,
        !is_white_space(p[0]),
        !is_white_space(p.last()),
    ensures
        starts_with(lower_bytes(encode_utf8(unicode_trim(p + s))), lower_bytes(encode_utf8(p))),
{
    assert((p + s)[0] == p[0]);
    assert(trim_start_ws(p + s) == p + s);
    lemma_trim_end_keeps_prefix(p, s);
    let x = trim_end_ws(p + s);
    let rest = x.skip(p.len() as int);
    assert(x =~= p + rest);
    lemma_encode_concat(p, rest);
    let e = encode_utf8(x);
    let ep = encode_utf8(p);
    let l = lower_bytes(e);
    assert(l.subrange(0, ep.len() as int) =~= lower_bytes(ep)) by {
        assert forall|i: int| 0 <= i < ep.len() implies l[i] == lower_bytes(ep)[i] by {
            assert(e[i] == ep[i]);
        }
    }
}

/// `lemma_type_prefix_any_case` for a type written in capitals: `upper` is `lower` with
/// its letters in upper case.
proof fn lemma_capitalized_prefix(upper: Seq<char>, lower: Seq<char>, s: Seq<char>)
    requires
        upper.len() > 0,
        upper.len() == lower.len(),
        forall|i: int| 0 <= i < lower.len() ==> ('a' <= #[trigger] lower[i] <= 'z') || lower[i] == '/' || lower[i] == '+' || lower[i] == '-',
        forall|i: int| 0 <= i < upper.len() ==>
            (('A' <= #[trigger] upper[i] <= 'Z') && upper[i] as u32 + 32 == lower[i] as u32) || upper[i] == lower[i],
    ensures
        starts_with(lower_bytes(encode_utf8(unicode_trim(upper + s))), encode_utf8(lower)),
{
    assert(upper[0] == upper[0]);
    assert(upper.last() == upper[upper.len() - 1]);
    assert(is_ascii_chars(lower));
    assert(is_ascii_chars(upper));
    is_ascii_chars_encode_utf8(lower);
    is_ascii_chars_encode_utf8(upper);
    lemma_type_prefix_any_case(upper, s);
    assert(lower_bytes(encode_utf8(upper)) =~= encode_utf8(lower)) by {
        assert forall|i: int| 0 <= i < upper.len() implies lower_bytes(encode_utf8(upper))[i] == encode_utf8(lower)[i] by {
            assert(upper[i] as u8 == encode_utf8(upper)[i]);
            assert(lower[i] as u8 == encode_utf8(lower)[i]);
        }
    }
}

/// Leading white space does not change whether a type is compressed.
pub proof fn lemma_leading_space_ignored(w: Seq<char>, ct: Seq<char>)
    requires
        forall|i: int| 0 <= i < w.len() ==> is_white_space(#[trigger] w[i]),
    ensures
        compressible(w + ct) == compressible(ct),
    decreases w.len(),
{
    if w.len() > 0 {
        assert((w + ct)[0] == w[0]);
        assert((w + ct).drop_first() =~= w.drop_first() + ct);
        assert forall|i: int| 0 <= i < w.drop_first().len() implies is_white_space(#[trigger] w.drop_first()[i]) by {
            assert(w.drop_first()[i] == w[i + 1]);
        }
        lemma_leading_space_ignored(w.drop_first(), ct);
        assert(unicode_trim(w + ct) == unicode_trim(w.drop_first() + ct));
    } else {
        assert(w + ct =~= ct);
    }
}

/// The listed types are compressible in any ASCII case: written in capitals too.
pub proof fn lemma_listed_types_any_case(s: Seq<char>)
    ensures
        compressible("TEXT/"@ + s),
        compressible("APPLICATION/JSON"@ + s),
        compressible("APPLICATION/XML"@ + s),
        compressible("APPLICATION/JAVASCRIPT"@ + s),
        compressible("APPLICATION/XHTML+XML"@ + s),
        compressible("IMAGE/SVG+XML"@ + s),
        compressible("APPLICATION/RSS+XML"@ + s),
        compressible("APPLICATION/ATOM+XML"@ + s),
{
    reveal_strlit("TEXT/");
    reveal_strlit("text/");
    lemma_capitalized_prefix("TEXT/"@, "text/"@, s);
    reveal_strlit("APPLICATION/JSON");
    reveal_strlit("application/json");
    lemma_capitalized_prefix("APPLICATION/JSON"@, "application/json"@, s);
    reveal_strlit("APPLICATION/XML");
    reveal_strlit("application/xml");
    lemma_capitalized_prefix("APPLICATION/XML"@, "application/xml"@, s);
    reveal_strlit("APPLICATION/JAVASCRIPT");
    reveal_strlit("application/javascript");
    lemma_capitalized_prefix("APPLICATION/JAVASCRIPT"@, "application/javascript"@, s);
    reveal_strlit("APPLICATION/XHTML+XML");
    reveal_strlit("application/xhtml+xml");
    lemma_capitalized_prefix("APPLICATION/XHTML+XML"@, "application/xhtml+xml"@, s);
    reveal_strlit("IMAGE/SVG+XML");
    reveal_strlit("image/svg+xml");
    lemma_capitalized_prefix("IMAGE/SVG+XML"@, "image/svg+xml"@, s);
    reveal_strlit("APPLICATION/RSS+XML");
    reveal_strlit("application/rss+xml");
    lemma_capitalized_prefix("APPLICATION/RSS+XML"@, "application/rss+xml"@, s);
    reveal_strlit("APPLICATION/ATOM+XML");
    reveal_strlit("application/atom+xml");
    lemma_capitalized_prefix("APPLICATION/ATOM+XML"@, "application/atom+xml"@, s);
}

/// Every listed type is compressible, followed by anything (parameters such as
/// `; charset=utf-8`, or a more specific subtype).
pub proof fn lemma_listed_types_compressible(s: Seq<char>)
    ensures
        compressible("text/"@ + s),
        compressible("application/json"@ + s),
        compressible("application/xml"@ + s),
        compressible("application/javascript"@ + s),
        compressible("application/xhtml+xml"@ + s),
        compressible("image/svg+xml"@ + s),
        compressible("application/rss+xml"@ + s),
        compressible("application/atom+xml"@ + s),
{
    reveal_strlit("text/");
    lemma_listed_prefix("text/"@, s);
    reveal_strlit("application/json");
    lemma_listed_prefix("application/json"@, s);
    reveal_strlit("application/xml");
    lemma_listed_prefix("application/xml"@, s);
    reveal_strlit("application/javascript");
    lemma_listed_prefix("application/javascript"@, s);
    reveal_strlit("application/xhtml+xml");
    lemma_listed_prefix("application/xhtml+xml"@, s);
    reveal_strlit("image/svg+xml");
    lemma_listed_prefix("image/svg+xml"@, s);
    reveal_strlit("application/rss+xml");
    lemma_listed_prefix("application/rss+xml"@, s);
    reveal_strlit("application/atom+xml");
    lemma_listed_prefix("application/atom+xml"@, s);
}

/// A sequence that starts with `p` does not start with `q` when they differ at `k`.
proof fn lemma_not_both_prefixes(t: Seq<u8>, p: Seq<u8>, q: Seq<u8>, k: int)
    requires
        starts_with(t, p),
        0 <= k < p.len(),
        k < q.len(),
        p[k] != q[k],
    ensures
        !starts_with(t, q),
{
    assert(t.subrange(0, p.len() as int)[k] == t[k]);
    if starts_with(t, q) {
        assert(t.subrange(0, q.len() as int)[k] == t[k]);
    }
}

/// Types outside the list are not compressed, whatever follows them: images other than
/// SVG, and arbitrary binary data.
pub proof fn lemma_other_types_not_compressible(s: Seq<char>)
    ensures
        !compressible("image/png"@ + s),
        !compressible("application/octet-stream"@ + s),
{
    reveal_strlit("image/png");
    lemma_listed_prefix("image/png"@, s);
    is_ascii_chars_encode_utf8("image/png"@);
    reveal_strlit("text/");
    is_ascii_chars_encode_utf8("text/"@);
    lemma_not_both_prefixes(lower_bytes(encode_utf8(unicode_trim("image/png"@ + s))), encode_utf8("image/png"@), "text/".spec_bytes(), 0);
    reveal_strlit("application/json");
    is_ascii_chars_encode_utf8("application/json"@);
    lemma_not_both_prefixes(lower_bytes(encode_utf8(unicode_trim("image/png"@ + s))), encode_utf8("image/png"@), "application/json".spec_bytes(), 0);
    reveal_strlit("application/xml");
    is_ascii_chars_encode_utf8("application/xml"@);
    lemma_not_both_prefixes(lower_bytes(encode_utf8(unicode_trim("image/png"@ + s))), encode_utf8("image/png"@), "application/xml".spec_bytes(), 0);
    reveal_strlit("application/javascript");
    is_ascii_chars_encode_utf8("application/javascript"@);
    lemma_not_both_prefixes(lower_bytes(encode_utf8(unicode_trim("image/png"@ + s))), encode_utf8("image/png"@), "application/javascript".spec_bytes(), 0);
    reveal_strlit("application/xhtml+xml");
    is_ascii_chars_encode_utf8("application/xhtml+xml"@);
    lemma_not_both_prefixes(lower_bytes(encode_utf8(unicode_trim("image/png"@ + s))), encode_utf8("image/png"@), "application/xhtml+xml".spec_bytes(), 0);
    reveal_strlit("image/svg+xml");
    is_ascii_chars_encode_utf8("image/svg+xml"@);
    lemma_not_both_prefixes(lower_bytes(encode_utf8(unicode_trim("image/png"@ + s))), encode_utf8("image/png"@), "image/svg+xml".spec_bytes(), 6);
    reveal_strlit("application/rss+xml");
    is_ascii_chars_encode_utf8("application/rss+xml"@);
    lemma_not_both_prefixes(lower_bytes(encode_utf8(unicode_trim("image/png"@ + s))), encode_utf8("image/png"@), "application/rss+xml".spec_bytes(), 0);
    reveal_strlit("application/atom+xml");
    is_ascii_chars_encode_utf8("application/atom+xml"@);
    lemma_not_both_prefixes(lower_bytes(encode_utf8(unicode_trim("image/png"@ + s))), encode_utf8("image/png"@), "application/atom+xml".spec_bytes(), 0);
    reveal_strlit("application/octet-stream");
    lemma_listed_prefix("application/octet-stream"@, s);
    is_ascii_chars_encode_utf8("application/octet-stream"@);
    reveal_strlit("text/");
    is_ascii_chars_encode_utf8("text/"@);
    lemma_not_both_prefixes(lower_bytes(encode_utf8(unicode_trim("application/octet-stream"@ + s))), encode_utf8("application/octet-stream"@), "text/".spec_bytes(), 0);
    reveal_strlit("application/json");
    is_ascii_chars_encode_utf8("application/json"@);
    lemma_not_both_prefixes(lower_bytes(encode_utf8(unicode_trim("application/octet-stream"@ + s))), encode_utf8("application/octet-stream"@), "application/json".spec_bytes(), 12);
    reveal_strlit("application/xml");
    is_ascii_chars_encode_utf8("application/xml"@);
    lemma_not_both_prefixes(lower_bytes(encode_utf8(unicode_trim("application/octet-stream"@ + s))), encode_utf8("application/octet-stream"@), "application/xml".spec_bytes(), 12);
    reveal_strlit("application/javascript");
    is_ascii_chars_encode_utf8("application/javascript"@);
    lemma_not_both_prefixes(lower_bytes(encode_utf8(unicode_trim("application/octet-stream"@ + s))), encode_utf8("application/octet-stream"@), "application/javascript".spec_bytes(), 12);
    reveal_strlit("application/xhtml+xml");
    is_ascii_chars_encode_utf8("application/xhtml+xml"@);
    lemma_not_both_prefixes(lower_bytes(encode_utf8(unicode_trim("application/octet-stream"@ + s))), encode_utf8("application/octet-stream"@), "application/xhtml+xml".spec_bytes(), 12);
    reveal_strlit("image/svg+xml");
    is_ascii_chars_encode_utf8("image/svg+xml"@);
    lemma_not_both_prefixes(lower_bytes(encode_utf8(unicode_trim("application/octet-stream"@ + s))), encode_utf8("application/octet-stream"@), "image/svg+xml".spec_bytes(), 0);
    reveal_strlit("application/rss+xml");
    is_ascii_chars_encode_utf8("application/rss+xml"@);
    lemma_not_both_prefixes(lower_bytes(encode_utf8(unicode_trim("application/octet-stream"@ + s))), encode_utf8("application/octet-stream"@), "application/rss+xml".spec_bytes(), 12);
    reveal_strlit("application/atom+xml");
    is_ascii_chars_encode_utf8("application/atom+xml"@);
    lemma_not_both_prefixes(lower_bytes(encode_utf8(unicode_trim("application/octet-stream"@ + s))), encode_utf8("application/octet-stream"@), "application/atom+xml".spec_bytes(), 12);
}

/// Whether a response of this content type should be compressed.
pub fn is_compressible(content_type: &str) -> (r: bool)
    ensures
        r == compressible(content_type@),
{
    let t = trim(content_type).as_bytes();
    let mut lower: Vec<u8> = Vec::new();
    let mut i: usize = 0;
    while i < t.len()
        invariant
            0 <= i <= t@.len(),
            lower@ == lower_bytes(t@.subrange(0, i as int)),
        decreases t@.len() - i,
    {
        lower.push(to_ascii_lower(t[i]));
        i += 1;
        assert(lower@ =~= lower_bytes(t@.subrange(0, i as int)));
    }
    assert(t@.subrange(0, t@.len() as int) =~= t@);
    let l = lower.as_slice();
    bytes_starts_with(l, "text/".as_bytes())
        || bytes_starts_with(l, "application/json".as_bytes())
        || bytes_starts_with(l, "application/xml".as_bytes())
        || bytes_starts_with(l, "application/javascript".as_bytes())
        || bytes_starts_with(l, "application/xhtml+xml".as_bytes())
        || bytes_starts_with(l, "image/svg+xml".as_bytes())
        || bytes_starts_with(l, "application/rss+xml".as_bytes())
        || bytes_starts_with(l, "application/atom+xml".as_bytes())
}

/// Whether some header is `Vary: Accept-Encoding` (ASCII case ignored in both).
pub open spec fn varies_on_encoding(s: Seq<(Seq<char>, Seq<char>)>) -> bool {
    exists|i: int| 0 <= i < s.len() && name_matches(#[trigger] s[i].0, "vary"@) && name_matches(s[i].1, "Accept-Encoding"@)
}

/// Tests for a `Vary: Accept-Encoding` header.
fn has_vary_accept_encoding(headers: &Headers) -> (r: bool)
    ensures
        r == varies_on_encoding(headers.entries()),
{
    let hs = headers.iter();
    let ghost s = headers.entries();
    let vary = "vary".as_bytes();
    let accept = "Accept-Encoding".as_bytes();
    let mut i: usize = 0;
    while i < hs.len()
        invariant
            hs@.map_values(|p: (String, String)| entry_view(p)) == s,
            s == headers.entries(),
            vary@ == encode_utf8("vary"@),
            accept@ == encode_utf8("Accept-Encoding"@),
            0 <= i <= s.len(),
            forall|j: int| 0 <= j < i ==> !(name_matches(#[trigger] s[j].0, "vary"@) && name_matches(s[j].1, "Accept-Encoding"@)),
        decreases s.len() - i,
    {
        let (n, v) = &hs[i];
        assert(s[i as int] == entry_view(hs@[i as int]));
        if bytes_eq_ignore_ascii_case(n.as_str().as_bytes(), vary)
            && bytes_eq_ignore_ascii_case(v.as_str().as_bytes(), accept) {
            assert(name_matches(s[i as int].0, "vary"@) && name_matches(s[i as int].1, "Accept-Encoding"@));
            return true;
        }
        i += 1;
    }
    false
}

/// Whether a response is compressed: it has a body (or is a 304), is not encoded yet,
/// and its first `Content-Type` is a compressible type.
pub open spec fn compression_applies(resp: Response) -> bool {
    let s = resp.headers.entries();
    &&& resp.body is Some || resp.status == 304
    &&& !has_name(s, "content-encoding"@)
    &&& first_value(s, "content-type"@) matches Some(ct) && compressible(ct)
}

/// Prepares a response for compression with `encoding`, the encoding the client
/// prefers (if it accepts one). Returns the encoding the body must now be compressed
/// with.
///
/// A response that is compressed gains `Vary: Accept-Encoding` (unless it has it). When
/// an encoding is accepted and the response is not a 304, it loses its `Content-Length`
/// headers, its body becomes a stream of unknown length, and `Content-Encoding` is set.
pub fn apply_compression(resp: &mut Response, encoding: Option<Encoding>) -> (r: Option<Encoding>)
    ensures
        ({
            let s0 = old(resp).headers.entries();
            let s1 = if varies_on_encoding(s0) { s0 } else { s0.push(("Vary"@, "Accept-Encoding"@)) };
            if !compression_applies(*old(resp)) {
                r is None && *final(resp) == *old(resp)
            } else if old(resp).status == 304 || encoding is None {
                &&& r is None
                &&& final(resp).status == old(resp).status
                &&& final(resp).body == old(resp).body
                &&& final(resp).headers.entries() == s1
            } else {
                &&& r == encoding
                &&& final(resp).status == old(resp).status
                &&& final(resp).body == Some(Body::Stream { len: None })
                &&& final(resp).headers.entries() == without_name(without_name(s1, "content-length"@), "Content-Encoding"@)
                    .push(("Content-Encoding"@, encoding_name(encoding.unwrap())))
            }
        }),
{
    if resp.body.is_none() && resp.status != 304 {
        return None;
    }
    proof {
        lemma_first_match_props(resp.headers.entries(), "content-encoding"@);
        lemma_first_match_props(resp.headers.entries(), "content-type"@);
    }
    let already_compressed = resp.headers.find_named("content-encoding") < resp.headers.len();
    let ct = resp.headers.find_named("content-type");
    let compressible_type = if ct < resp.headers.len() {
        is_compressible(resp.headers.get(ct).1.as_str())
    } else {
        false
    };
    if already_compressed || !compressible_type {
        return None;
    }
    if !has_vary_accept_encoding(&resp.headers) {
        resp.headers.push("Vary", "Accept-Encoding");
    }
    if resp.status == 304 {
        return None;
    }
    match encoding {
        None => None,
        Some(enc) => {
            resp.headers.remove_named("content-length");
            resp.body = Some(Body::Stream { len: None });
            resp.set_header("Content-Encoding", enc.as_str());
            Some(enc)
        },
    }
}

/// Removing one name keeps every other name that was absent absent.
proof fn lemma_without_keeps_absent(s: Seq<(Seq<char>, Seq<char>)>, a: Seq<char>, b: Seq<char>)
    requires
        !has_name(s, b),
    ensures
        !has_name(without_name(s, a), b),
    decreases s.len(),
{
    if s.len() > 0 {
        let t = s.drop_last();
        assert forall|i: int| 0 <= i < t.len() implies !name_matches(#[trigger] t[i].0, b) by {
            assert(t[i] == s[i]);
        }
        lemma_without_keeps_absent(t, a, b);
        let r = without_name(t, a);
        if !name_matches(s.last().0, a) {
            assert forall|i: int| 0 <= i < r.push(s.last()).len() implies !name_matches(#[trigger] r.push(s.last())[i].0, b) by {
                if i < r.len() {
                    assert(r.push(s.last())[i] == r[i]);
                } else {
                    assert(s.last() == s[s.len() - 1]);
                }
            }
        }
    }
}

/// A compressed body goes out with no `Content-Length` header and with exactly one
/// `Content-Encoding` header, the last, naming the encoding.
pub proof fn lemma_compressed_headers(s: Seq<(Seq<char>, Seq<char>)>, e: Encoding)
    ensures
        ({
            let t = without_name(without_name(s, "content-length"@), "Content-Encoding"@)
                .push(("Content-Encoding"@, encoding_name(e)));
            &&& !has_name(t, "content-length"@)
            &&& first_value(t, "Content-Encoding"@) == Some(encoding_name(e))
            &&& forall|i: int| 0 <= i < t.len() - 1 ==> !name_matches(#[trigger] t[i].0, "Content-Encoding"@)
        }),
{
    let a = without_name(s, "content-length"@);
    lemma_without_has_none(s, "content-length"@);
    lemma_without_keeps_absent(a, "Content-Encoding"@, "content-length"@);
    crate::http::response::lemma_set_header_single(a, "Content-Encoding"@, encoding_name(e));
    let r = without_name(a, "Content-Encoding"@);
    let t = r.push(("Content-Encoding"@, encoding_name(e)));
    assert(!name_matches("Content-Encoding"@, "content-length"@)) by {
        reveal_strlit("Content-Encoding");
        reveal_strlit("content-length");
        vstd::utf8::is_ascii_chars_encode_utf8("Content-Encoding"@);
        vstd::utf8::is_ascii_chars_encode_utf8("content-length"@);
    }
    assert forall|i: int| 0 <= i < t.len() implies !name_matches(#[trigger] t[i].0, "content-length"@) by {
        if i < r.len() {
            assert(t[i] == r[i]);
        }
    }
}

} // verus!
