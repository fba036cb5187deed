//! The structure of an `Accept-Encoding` header: its entries, the coding each names,
//! and the text of each of its `q` parameters. Weighing the entries by their quality
//! values is left to the caller.
use vstd::prelude::*;
use vstd::string::StringSliceAdditionalSpecFns;
use crate::text::{
    bytes_eq, bytes_eq_ignore_ascii_case, bytes_starts_with, bytes_to_vec, eq_ignore_ascii_case, find_byte,
    find_byte_index, lemma_find_byte, starts_with,
};

verus! {

/// The pieces of `s` between the bytes `c`, in order, as `<[u8]>::split` gives them:
/// always at least one, possibly empty.
pub open spec fn split_all(s: Seq<u8>, c: u8) -> Seq<Seq<u8>>
    decreases s.len(),
{
    proof {
        lemma_find_byte(s, c);
    }
    let i = find_byte(s, c);
    if i < s.len() {
        seq![s.subrange(0, i as int)] + split_all(s.subrange(i as int + 1, s.len() as int), c)
    } else {
        seq![s]
    }
}

/// ASCII white space as `u8::is_ascii_whitespace` defines it.
pub open spec fn is_ascii_ws(b: u8) -> bool {
    b == 0x20 || b == 0x09 || b == 0x0a || b == 0x0c || b == 0x0d
}

/// `s` without its leading ASCII white space.
pub open spec fn trim_start(s: Seq<u8>) -> Seq<u8>
    decreases s.len(),
{
    if s.len() > 0 && is_ascii_ws(s[0]) { trim_start(s.drop_first()) } else { s }
}

/// `s` without its trailing ASCII white space.
pub open spec fn trim_end(s: Seq<u8>) -> Seq<u8>
    decreases s.len(),
{
    if s.len() > 0 && is_ascii_ws(s.last()) { trim_end(s.drop_last()) } else { s }
}

/// `s` without leading and trailing ASCII white space.
pub open spec fn trim_ascii(s: Seq<u8>) -> Seq<u8> {
    trim_end(trim_start(s))
}

/// A content coding named in `Accept-Encoding`.
#[derive(Debug, Clone, Copy, PartialEq, Eq, Structural)]
pub enum Coding {
    /// `br`.
    Brotli,
    /// `gzip`.
    Gzip,
    /// `deflate`.
    Deflate,
    /// `identity`, no encoding.
    Identity,
    /// `*`, any coding.
    Any,
    /// A coding the server does not know.
    Other,
}

/// The coding a name stands for (ASCII case ignored).
pub open spec fn coding_of(name: Seq<u8>) -> Coding {
    if eq_ignore_ascii_case(name, "br".spec_bytes()) {
        Coding::Brotli
    } else if eq_ignore_ascii_case(name, "gzip".spec_bytes()) {
        Coding::Gzip
    } else if eq_ignore_ascii_case(name, "deflate".spec_bytes()) {
        Coding::Deflate
    } else if eq_ignore_ascii_case(name, "identity".spec_bytes()) {
        Coding::Identity
    } else if name == "*".spec_bytes() {
        Coding::Any
    } else {
        Coding::Other
    }
}

/// The value text of a `q=` (or `Q=`) parameter, without surrounding white space.
pub open spec fn q_text(param: Seq<u8>) -> Option<Seq<u8>> {
    let p = trim_ascii(param);
    if starts_with(p, "q=".spec_bytes()) || starts_with(p, "Q=".spec_bytes()) {
        Some(trim_ascii(p.subrange(2, p.len() as int)))
    } else {
        None
    }
}

/// The value texts of the `q` parameters among `params`, in order.
pub open spec fn q_texts(params: Seq<Seq<u8>>) -> Seq<Seq<u8>>
    decreases params.len(),
{
    if params.len() == 0 {
        Seq::empty()
    } else {
        (match q_text(params[0]) {
            Some(t) => seq![t],
            None => Seq::empty(),
        }) + q_texts(params.drop_first())
    }
}

/// One entry of `Accept-Encoding`: the coding named before its first `;` and the `q`
/// texts of the parameters after it.
pub open spec fn entry_of(segment: Seq<u8>) -> (Coding, Seq<Seq<u8>>) {
    let parts = split_all(segment, 0x3b);
    (coding_of(trim_ascii(parts[0])), q_texts(parts.drop_first()))
}

/// The entries of an `Accept-Encoding` header, one for each piece between commas.
pub open spec fn accept_entries(header: Seq<u8>) -> Seq<(Coding, Seq<Seq<u8>>)> {
    split_all(header, 0x2c).map_values(|s: Seq<u8>| entry_of(s))
}

/// One entry of an `Accept-Encoding` header.
pub struct AcceptEntry {
    /// The coding it names.
    pub coding: Coding,
    /// The value texts of its `q` parameters, in order.
    pub q_values: Vec<Vec<u8>>,
}

/// The view of an entry: its coding and its `q` texts.
pub open spec fn accept_entry_view(e: AcceptEntry) -> (Coding, Seq<Seq<u8>>) {
    (e.coding, e.q_values@.map_values(|v: Vec<u8>| v@))
}

/// Trims leading and trailing ASCII white space.
fn trim_ascii_bytes(s: &[u8]) -> (r: &[u8])
    ensures
        r@ == trim_ascii(s@),
{
    let mut a: usize = 0;
    assert(s@.subrange(0, s@.len() as int) =~= s@);
    while a < s.len() && (s[a] == 0x20 || s[a] == 0x09 || s[a] == 0x0a || s[a] == 0x0c || s[a] == 0x0d)
        invariant
            a <= s@.len(),
            trim_start(s@) == trim_start(s@.subrange(a as int, s@.len() as int)),
        decreases s@.len() - a,
    {
        assert(s@.subrange(a as int, s@.len() as int).drop_first() =~= s@.subrange(a + 1, s@.len() as int));
        a += 1;
    }
    let t = vstd::slice::slice_subrange(s, a, s.len());
    assert(trim_start(t@) == t@);
    let mut b: usize = t.len();
    assert(t@.subrange(0, b as int) =~= t@);
    while b > 0 && (t[b - 1] == 0x20 || t[b - 1] == 0x09 || t[b - 1] == 0x0a || t[b - 1] == 0x0c || t[b - 1] == 0x0d)
        invariant
            b <= t@.len(),
            trim_end(t@) == trim_end(t@.subrange(0, b as int)),
        decreases b,
    {
        assert(t@.subrange(0, b as int).drop_last() =~= t@.subrange(0, b - 1));
        b -= 1;
    }
    vstd::slice::slice_subrange(t, 0, b)
}

/// The coding a name stands for.
fn coding(name: &[u8]) -> (r: Coding)
    ensures
        r == coding_of(name@),
{
    if bytes_eq_ignore_ascii_case(name, "br".as_bytes()) {
        Coding::Brotli
    } else if bytes_eq_ignore_ascii_case(name, "gzip".as_bytes()) {
        Coding::Gzip
    } else if bytes_eq_ignore_ascii_case(name, "deflate".as_bytes()) {
        Coding::Deflate
    } else if bytes_eq_ignore_ascii_case(name, "identity".as_bytes()) {
        Coding::Identity
    } else if bytes_eq(name, "*".as_bytes()) {
        Coding::Any
    } else {
        Coding::Other
    }
}

/// The value text of a `q` parameter.
fn q_param(param: &[u8]) -> (r: Option<Vec<u8>>)
    ensures
        match (r, q_text(param@)) {
            (None, None) => true,
            (Some(v), Some(w)) => v@ == w,
            _ => false,
        },
{
    let p = trim_ascii_bytes(param);
    if bytes_starts_with(p, "q=".as_bytes()) || bytes_starts_with(p, "Q=".as_bytes()) {
        proof {
            reveal_strlit("q=");
            reveal_strlit("Q=");
            vstd::utf8::is_ascii_chars_encode_utf8("q="@);
            vstd::utf8::is_ascii_chars_encode_utf8("Q="@);
        }
        let value = vstd::slice::slice_subrange(p, 2, p.len());
        Some(bytes_to_vec(trim_ascii_bytes(value)))
    } else {
        None
    }
}

/// Reads one entry of the header.
fn entry(segment: &[u8]) -> (r: AcceptEntry)
    ensures
        accept_entry_view(r) == entry_of(segment@),
{
    let i0 = find_byte_index(segment, 0x3b);
    proof {
        lemma_find_byte(segment@, 0x3b);
    }
    let first = vstd::slice::slice_subrange(segment, 0, i0);
    assert(split_all(segment@, 0x3b)[0] == first@);
    let name = trim_ascii_bytes(first);
    let c = coding(name);
    let mut q_values: Vec<Vec<u8>> = Vec::new();
    if i0 < segment.len() {
        let mut rest = vstd::slice::slice_subrange(segment, i0 + 1, segment.len());
        assert(split_all(segment@, 0x3b).drop_first() =~= split_all(rest@, 0x3b));
        loop
            invariant_except_break
                entry_of(segment@).1 == q_values@.map_values(|v: Vec<u8>| v@) + q_texts(split_all(rest@, 0x3b)),
            ensures
                entry_of(segment@).1 == q_values@.map_values(|v: Vec<u8>| v@),
            decreases rest@.len(),
        {
            let ghost before = q_values@.map_values(|v: Vec<u8>| v@);
            let ghost pieces = split_all(rest@, 0x3b);
            let i = find_byte_index(rest, 0x3b);
            proof {
                lemma_find_byte(rest@, 0x3b);
            }
            let piece = vstd::slice::slice_subrange(rest, 0, i);
            assert(pieces[0] == piece@);
            match q_param(piece) {
                Some(v) => {
                    q_values.push(v);
                },
                None => {},
            }
            proof {
                let now = q_values@.map_values(|v: Vec<u8>| v@);
                assert(q_texts(pieces) == (match q_text(piece@) {
                    Some(t) => seq![t],
                    None => Seq::<Seq<u8>>::empty(),
                }) + q_texts(pieces.drop_first()));
                assert(now =~= before + (match q_text(piece@) {
                    Some(t) => seq![t],
                    None => Seq::<Seq<u8>>::empty(),
                }));
            }
            if i < rest.len() {
                let next = vstd::slice::slice_subrange(rest, i + 1, rest.len());
                assert(pieces.drop_first() =~= split_all(next@, 0x3b));
                rest = next;
            } else {
                assert(pieces.drop_first() =~= Seq::<Seq<u8>>::empty());
                assert(q_texts(Seq::<Seq<u8>>::empty()) =~= Seq::<Seq<u8>>::empty());
                break;
            }
        }
    } else {
        assert(split_all(segment@, 0x3b).drop_first() =~= Seq::<Seq<u8>>::empty());
        assert(q_values@.map_values(|v: Vec<u8>| v@) =~= Seq::<Seq<u8>>::empty());
    }
    AcceptEntry { coding: c, q_values }
}

/// Reads the entries of an `Accept-Encoding` header: one for each piece between commas,
/// with the coding it names and the texts of its `q` parameters.
pub fn accept_encoding_entries(header: &[u8]) -> (r: Vec<AcceptEntry>)
    ensures
        r@.map_values(|e: AcceptEntry| accept_entry_view(e)) == accept_entries(header@),
{
    let mut out: Vec<AcceptEntry> = Vec::new();
    let mut rest = header;
    loop
        invariant_except_break
            accept_entries(header@) == out@.map_values(|e: AcceptEntry| accept_entry_view(e))
                + split_all(rest@, 0x2c).map_values(|s: Seq<u8>| entry_of(s)),
        ensures
            accept_entries(header@) == out@.map_values(|e: AcceptEntry| accept_entry_view(e)),
        decreases rest@.len(),
    {
        let ghost before = out@.map_values(|e: AcceptEntry| accept_entry_view(e));
        let ghost pieces = split_all(rest@, 0x2c);
        let i = find_byte_index(rest, 0x2c);
        proof {
            lemma_find_byte(rest@, 0x2c);
        }
        let piece = vstd::slice::slice_subrange(rest, 0, i);
        assert(pieces[0] == piece@);
        let e = entry(piece);
        out.push(e);
        proof {
            let now = out@.map_values(|e: AcceptEntry| accept_entry_view(e));
            assert(now =~= before.push(entry_of(piece@)));
        }
        if i < rest.len() {
            let next = vstd::slice::slice_subrange(rest, i + 1, rest.len());
            proof {
                assert(pieces.drop_first() =~= split_all(next@, 0x2c));
                let m = pieces.map_values(|s: Seq<u8>| entry_of(s));
                assert(m =~= seq![entry_of(piece@)] + split_all(next@, 0x2c).map_values(|s: Seq<u8>| entry_of(s)));
                assert(before.push(entry_of(piece@)) + split_all(next@, 0x2c).map_values(|s: Seq<u8>| entry_of(s))
                    =~= before + m);
            }
            rest = next;
        } else {
            proof {
                let m = pieces.map_values(|s: Seq<u8>| entry_of(s));
                assert(m =~= seq![entry_of(piece@)]);
            }
            break;
        }
    }
    out
}

} // verus!
