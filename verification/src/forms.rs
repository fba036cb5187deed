//! HTML form data: URL-encoded fields and `multipart/form-data` bodies.
use vstd::prelude::*;
use vstd::utf8::encode_utf8;
use vstd::string::StringSliceAdditionalSpecFns;
use vstd::utf8::valid_utf8;
use crate::http::{header_value, query_of, Body, Header, Request, Response};
use crate::http::cookies::{find_cookie, Cookies};
use crate::http::params::{param_items, param_values, AllParamIter, ParamIter, Params};
use crate::text::{
    bytes_eq, bytes_eq_ignore_ascii_case, bytes_starts_with, bytes_to_vec, eq_ignore_ascii_case,
    is_valid_utf8, lossy_string, starts_with, utf8_lossy,
};

verus! {

/// Whether `pat` occurs in `hay` at index `i`.
pub open spec fn matches_at(hay: Seq<u8>, pat: Seq<u8>, i: int) -> bool {
    0 <= i && i + pat.len() <= hay.len() && hay.subrange(i, i + pat.len()) == pat
}

/// The first index at or after `i` where `pat` occurs in `hay`.
pub open spec fn find_pattern_from(hay: Seq<u8>, pat: Seq<u8>, i: nat) -> Option<nat>
    decreases hay.len() + 1 - i,
{
    if i + pat.len() > hay.len() {
        None
    } else if matches_at(hay, pat, i as int) {
        Some(i)
    } else {
        find_pattern_from(hay, pat, i + 1)
    }
}

/// The first index where `pat` occurs in `hay`.
pub open spec fn find_pattern(hay: Seq<u8>, pat: Seq<u8>) -> Option<nat> {
    find_pattern_from(hay, pat, 0)
}

/// `find_pattern_from` finds the first occurrence.
pub proof fn lemma_find_pattern_from(hay: Seq<u8>, pat: Seq<u8>, i: nat)
    ensures
        match find_pattern_from(hay, pat, i) {
            Some(k) => i <= k && matches_at(hay, pat, k as int)
                && forall|j: int| i <= j < k ==> !matches_at(hay, pat, j),
            None => forall|j: int| i <= j ==> !matches_at(hay, pat, j),
        },
    decreases hay.len() + 1 - i,
{
    if i + pat.len() <= hay.len() && !matches_at(hay, pat, i as int) {
        lemma_find_pattern_from(hay, pat, i + 1);
    }
}

/// The `--` that opens the first boundary line.
pub open spec fn dash_dash() -> Seq<u8> {
    seq![0x2du8, 0x2d]
}

/// The `\r\n--` that opens every later boundary line.
pub open spec fn crlf_dash_dash() -> Seq<u8> {
    seq![0x0du8, 0x0a, 0x2d, 0x2d]
}

/// The parts after the boundary line that ends at `end`: each part runs up to the next
/// `\r\n--boundary`, and the line of that boundary takes two more bytes after it.
/// `None` when a boundary line runs past the end of the body.
pub open spec fn parts_from(body: Seq<u8>, boundary: Seq<u8>, end: nat) -> Option<Seq<Seq<u8>>>
    decreases body.len() + 1 - end,
{
    if end > body.len() {
        None
    } else {
        let rest = body.subrange(end as int, body.len() as int);
        match find_pattern(rest, crlf_dash_dash() + boundary) {
            None => Some(Seq::empty()),
            Some(q) => {
                let next = end + q + 4 + boundary.len() + 2;
                if next > body.len() {
                    None
                } else {
                    match parts_from(body, boundary, next) {
                        Some(more) => Some(seq![rest.subrange(0, q as int)] + more),
                        None => None,
                    }
                }
            },
        }
    }
}

/// The parts of a multipart body: nothing when the body has no `--boundary`, else the
/// parts after the line of the first one. `None` when a boundary line runs past the end
/// of the body.
pub open spec fn multipart_parts(body: Seq<u8>, boundary: Seq<u8>) -> Option<Seq<Seq<u8>>> {
    match find_pattern(body, dash_dash() + boundary) {
        None => Some(Seq::empty()),
        Some(p) => parts_from(body, boundary, p + 2 + boundary.len() + 2),
    }
}

/// Finds the first occurrence of `prefix` followed by `boundary` in `body`.
fn find_next_boundary(body: &[u8], boundary: &[u8], prefix: &[u8]) -> (r: Option<usize>)
    requires
        prefix@.len() > 0,
    ensures
        match r {
            Some(p) => find_pattern(body@, prefix@ + boundary@) == Some(p as nat)
                && p + prefix@.len() + boundary@.len() <= body@.len(),
            None => find_pattern(body@, prefix@ + boundary@) is None,
        },
{
    let ghost pat = prefix@ + boundary@;
    proof {
        lemma_find_pattern_from(body@, pat, 0);
    }
    if body.len() < prefix.len() || body.len() - prefix.len() < boundary.len() {
        return None;
    }
    let n = prefix.len() + boundary.len();
    let mut i: usize = 0;
    while i <= body.len() - n
        invariant
            n == pat.len(),
            0 < n <= body@.len(),
            pat == prefix@ + boundary@,
            i <= body@.len() - n + 1,
            find_pattern(body@, pat) == find_pattern_from(body@, pat, i as nat),
        decreases body@.len() - i,
    {
        let a = vstd::slice::slice_subrange(body, i, i + prefix.len());
        let b = vstd::slice::slice_subrange(body, i + prefix.len(), i + n);
        let found = bytes_eq(a, prefix) && bytes_eq(b, boundary);
        proof {
            let w = body@.subrange(i as int, i + n);
            assert(found == (w == pat)) by {
                if w == pat {
                    assert(a@ =~= pat.subrange(0, prefix@.len() as int));
                    assert(b@ =~= pat.subrange(prefix@.len() as int, n as int));
                    assert(pat.subrange(0, prefix@.len() as int) =~= prefix@);
                    assert(pat.subrange(prefix@.len() as int, n as int) =~= boundary@);
                }
                if a@ == prefix@ && b@ == boundary@ {
                    assert(w =~= pat);
                }
            }
        }
        if found {
            return Some(i);
        }
        i += 1;
    }
    None
}

/// Multipart form data (`multipart/form-data`), split into its parts.
pub struct Multipart<'buf> {
    parts: Vec<&'buf [u8]>,
}

impl<'buf> Multipart<'buf> {
    /// The raw parts, each with its head and content.
    pub closed spec fn parts(&self) -> Seq<Seq<u8>> {
        self.parts@.map_values(|p: &[u8]| p@)
    }

    /// Whether a multipart body can be split at `boundary`: no boundary line runs past
    /// the end of the body.
    pub fn fits(boundary: &[u8], body: &[u8]) -> (r: bool)
        ensures
            r == multipart_parts(body@, boundary@) is Some,
    {
        let first: &[u8] = &[0x2du8, 0x2d];
        let later: &[u8] = &[0x0du8, 0x0a, 0x2d, 0x2d];
        assert(first@ == dash_dash());
        assert(later@ == crlf_dash_dash());
        match find_next_boundary(body, boundary, first) {
            None => true,
            Some(p) => {
                let total = body.len();
                let after = p + first.len() + boundary.len();
                if total - after < 2 {
                    return false;
                }
                let mut end: usize = after + 2;
                loop
                    invariant
                        later@ == crlf_dash_dash(),
                        end <= body@.len(),
                        multipart_parts(body@, boundary@) is Some == parts_from(body@, boundary@, end as nat) is Some,
                    decreases body@.len() + 1 - end,
                {
                    let rest = vstd::slice::slice_subrange(body, end, body.len());
                    match find_next_boundary(rest, boundary, later) {
                        None => {
                            return true;
                        },
                        Some(q) => {
                            let used = q + later.len() + boundary.len();
                            if rest.len() - used < 2 {
                                return false;
                            }
                            end = end + used + 2;
                        },
                    }
                }
            },
        }
    }

    /// Splits a multipart body into its parts at `boundary`.
    ///
    /// Everything up to and including the line of the first `--boundary` is skipped;
    /// each part then runs up to the next `\r\n--boundary`.
    pub fn new(boundary: &'buf [u8], body: &'buf [u8]) -> (r: Multipart<'buf>)
        requires
            multipart_parts(body@, boundary@) is Some,
        ensures
            multipart_parts(body@, boundary@) == Some(r.parts()),
    {
        let mut parts: Vec<&'buf [u8]> = Vec::new();
        let first: &[u8] = &[0x2du8, 0x2d];
        let later: &[u8] = &[0x0du8, 0x0a, 0x2d, 0x2d];
        assert(first@ == dash_dash());
        assert(later@ == crlf_dash_dash());
        let bound = find_next_boundary(body, boundary, first);
        if let Some(p) = bound {
            let total = body.len();
            let after = p + first.len() + boundary.len();
            assert(body@.len() - after >= 2);
            let mut end: usize = after + 2;
            loop
                invariant
                    later@ == crlf_dash_dash(),
                    parts_from(body@, boundary@, end as nat) is Some,
                    multipart_parts(body@, boundary@)
                        == Some(parts@.map_values(|p: &[u8]| p@) + parts_from(body@, boundary@, end as nat).unwrap()),
                ensures
                    multipart_parts(body@, boundary@) == Some(parts@.map_values(|p: &[u8]| p@)),
                decreases body@.len() + 1 - end,
            {
                let rest = vstd::slice::slice_subrange(body, end, body.len());
                match find_next_boundary(rest, boundary, later) {
                    None => {
                        assert(parts_from(body@, boundary@, end as nat).unwrap() == Seq::<Seq<u8>>::empty());
                        assert(parts@.map_values(|p: &[u8]| p@) + Seq::<Seq<u8>>::empty() =~= parts@.map_values(|p: &[u8]| p@));
                        break;
                    },
                    Some(q) => {
                        let ghost before = parts@.map_values(|p: &[u8]| p@);
                        let ghost tail = parts_from(body@, boundary@, (end + q + 4 + boundary@.len() + 2) as nat);
                        assert(rest@.len() - (q + 4 + boundary@.len()) >= 2);
                        let part = vstd::slice::slice_subrange(rest, 0, q);
                        parts.push(part);
                        end = end + q + 4 + boundary.len() + 2;
                        proof {
                            assert(parts@.map_values(|p: &[u8]| p@) =~= before.push(part@));
                            assert(seq![part@] + tail.unwrap() =~= parts_from(body@, boundary@, (end - q - 4 - boundary@.len() - 2) as nat).unwrap());
                            assert(before.push(part@) + tail.unwrap() =~= before + (seq![part@] + tail.unwrap()));
                        }
                    },
                }
            }
        } else {
            assert(parts@.map_values(|p: &[u8]| p@) =~= Seq::<Seq<u8>>::empty());
        }
        Multipart { parts }
    }
}

/// What `httparse::parse_headers` makes of the bytes of a part, with room for four
/// headers: where the head ends and the name and raw value of each header, or `None`
/// when the head is incomplete or malformed.
pub uninterp spec fn httparse_part_head(part: Seq<u8>) -> Option<(nat, Seq<(Seq<char>, Seq<u8>)>)>;

/// The name and value of each header.
pub open spec fn head_view(hs: Seq<Header>) -> Seq<(Seq<char>, Seq<u8>)> {
    hs.map_values(|h: Header| (h.name@, h.value@))
}

/// Calls `httparse::parse_headers` with room for four headers and copies out the
/// headers of a complete head. The contract names the result `httparse_part_head` of
/// the part and claims, as the crate documents, that the end of the head lies within
/// the part.
#[verifier::external_body]
fn parse_part_head(part: &[u8]) -> (r: Option<(usize, Vec<Header>)>)
    ensures
        match (r, httparse_part_head(part@)) {
            (None, None) => true,
            (Some((off, hs)), Some((o, v))) => off == o && head_view(hs@) == v,
            _ => false,
        },
        r matches Some((off, _)) ==> off <= part@.len(),
{
    let mut headers = [httparse::EMPTY_HEADER; 4];
    match httparse::parse_headers(part, &mut headers) {
        Ok(httparse::Status::Complete((off, hs))) => Some((
            off,
            hs.iter().map(|h| Header { name: h.name.to_string(), value: h.value.to_vec() }).collect(),
        )),
        _ => None,
    }
}

/// The value of the first header named `name` (ASCII case ignored).
pub open spec fn head_value(hs: Seq<(Seq<char>, Seq<u8>)>, name: Seq<u8>) -> Option<Seq<u8>>
    decreases hs.len(),
{
    if hs.len() == 0 {
        None
    } else if eq_ignore_ascii_case(encode_utf8(hs[0].0), name) {
        Some(hs[0].1)
    } else {
        head_value(hs.drop_first(), name)
    }
}

/// Finds the value of the first header named `name`, ignoring ASCII case.
fn find_in_head<'h>(hs: &'h Vec<Header>, name: &str) -> (r: Option<&'h [u8]>)
    ensures
        match (r, head_value(head_view(hs@), name.spec_bytes())) {
            (None, None) => true,
            (Some(v), Some(w)) => v@ == w,
            _ => false,
        },
{
    let target = name.as_bytes();
    let ghost v = head_view(hs@);
    assert(v.skip(0) =~= v);
    let mut i: usize = 0;
    while i < hs.len()
        invariant
            target@ == name.spec_bytes(),
            v == head_view(hs@),
            0 <= i <= hs@.len(),
            head_value(v, target@) == head_value(v.skip(i as int), target@),
        decreases hs@.len() - i,
    {
        let h = &hs[i];
        assert(v.skip(i as int)[0] == (h.name@, h.value@));
        if bytes_eq_ignore_ascii_case(h.name.as_str().as_bytes(), target) {
            return Some(h.value.as_slice());
        }
        assert(v.skip(i as int).drop_first() =~= v.skip(i + 1));
        i += 1;
    }
    None
}

/// A single piece of form data, as its view.
pub enum FormValue {
    /// Text.
    Text(Seq<char>),
    /// A file: its name, its content type and its bytes.
    File { name: Option<Seq<char>>, content_type: Option<Seq<char>>, data: Seq<u8> },
}

/// Represents a single piece of form data.
#[derive(Debug, PartialEq, Clone)]
pub enum FormData {
    /// Simple text data.
    Text(String),
    /// File upload data.
    File {
        /// The filename the client gave, if any.
        name: Option<String>,
        /// The content type of the file, if any.
        content_type: Option<String>,
        /// The raw bytes of the file.
        data: Vec<u8>,
    },
}

/// The view of an optional string.
pub open spec fn opt_text(s: Option<String>) -> Option<Seq<char>> {
    match s {
        Some(t) => Some(t@),
        None => None,
    }
}

/// Lossy decoding of optional bytes.
pub open spec fn opt_lossy(b: Option<Seq<u8>>) -> Option<Seq<char>> {
    match b {
        Some(v) => Some(utf8_lossy(v)),
        None => None,
    }
}

impl View for FormData {
    type V = FormValue;

    open spec fn view(&self) -> FormValue {
        match self {
            FormData::Text(t) => FormValue::Text(t@),
            FormData::File { name, content_type, data } => FormValue::File {
                name: opt_text(*name),
                content_type: opt_text(*content_type),
                data: data@,
            },
        }
    }
}

/// What a part holds, given where its head ends and its headers: the `name` of its
/// `Content-Disposition` header, and its value, which is a file when the part has a
/// `filename` or a `Content-Type` other than `text/plain`, and text otherwise.
pub open spec fn field_of_head(part: Seq<u8>, off: nat, hs: Seq<(Seq<char>, Seq<u8>)>) -> (Option<Seq<u8>>, FormValue) {
    let disp = match head_value(hs, "content-disposition".spec_bytes()) {
        Some(d) => d,
        None => Seq::empty(),
    };
    let filename = find_cookie(disp, "filename".spec_bytes());
    let ct = head_value(hs, "content-type".spec_bytes());
    let data = part.subrange(off as int, part.len() as int);
    let is_file = filename is Some || (ct matches Some(c) && c != "text/plain".spec_bytes());
    let value = if is_file {
        FormValue::File { name: opt_lossy(filename), content_type: opt_lossy(ct), data }
    } else {
        FormValue::Text(utf8_lossy(data))
    };
    (find_cookie(disp, "name".spec_bytes()), value)
}

/// What one part holds (see `field_of_head`), or `None` when the head of the part
/// cannot be parsed.
pub open spec fn part_field(part: Seq<u8>) -> Option<(Option<Seq<u8>>, FormValue)> {
    match httparse_part_head(part) {
        None => None,
        Some((off, hs)) => Some(field_of_head(part, off, hs)),
    }
}

/// The view of optional bytes.
pub open spec fn opt_bytes(b: Option<Vec<u8>>) -> Option<Seq<u8>> {
    match b {
        Some(v) => Some(v@),
        None => None,
    }
}

/// Reads the name and value of one part.
fn decode_part(part: &[u8]) -> (r: Option<(Option<Vec<u8>>, FormData)>)
    ensures
        match (r, part_field(part@)) {
            (None, None) => true,
            (Some((n, d)), Some((m, v))) => opt_bytes(n) == m && d@ == v,
            _ => false,
        },
{
    let (offset, headers) = match parse_part_head(part) {
        Some(h) => h,
        None => return None,
    };
    Some(field_from_head(part, offset, &headers))
}

/// Reads the name and value of a part whose head ends at `offset` and holds `headers`.
pub fn field_from_head(part: &[u8], offset: usize, headers: &Vec<Header>) -> (r: (Option<Vec<u8>>, FormData))
    requires
        offset <= part@.len(),
    ensures
        (opt_bytes(r.0), r.1@) == field_of_head(part@, offset as nat, head_view(headers@)),
{
    let h = Cookies::new(find_in_head(headers, "content-disposition"));
    let name = match h.find("name") {
        Some(n) => Some(bytes_to_vec(n)),
        None => None,
    };
    let filename = h.find("filename");
    let content_type = find_in_head(headers, "content-type");
    let data = vstd::slice::slice_subrange(part, offset, part.len());
    let is_file = filename.is_some() || match content_type {
        Some(c) => !bytes_eq(c, "text/plain".as_bytes()),
        None => false,
    };
    let value = if is_file {
        FormData::File {
            name: match filename {
                Some(f) => Some(lossy_string(f)),
                None => None,
            },
            content_type: match content_type {
                Some(c) => Some(lossy_string(c)),
                None => None,
            },
            data: bytes_to_vec(data),
        }
    } else {
        FormData::Text(lossy_string(data))
    };
    (name, value)
}

/// Looking for the next part named `name`: the value of the first part so named,
/// unless a part whose head cannot be parsed comes first (then nothing); and how many
/// parts the search reads.
pub open spec fn next_named(parts: Seq<Seq<u8>>, name: Seq<u8>) -> (Option<FormValue>, nat)
    decreases parts.len(),
{
    if parts.len() == 0 {
        (None, 0)
    } else {
        match part_field(parts[0]) {
            None => (None, 1),
            Some((n, v)) => if n == Some(name) {
                (Some(v), 1)
            } else {
                let r = next_named(parts.drop_first(), name);
                (r.0, r.1 + 1)
            },
        }
    }
}

/// The bytes of each part.
pub open spec fn part_views(parts: Seq<&[u8]>) -> Seq<Seq<u8>> {
    parts.map_values(|p: &[u8]| p@)
}

impl<'buf> Multipart<'buf> {
    /// Returns an iterator over the parts named `param`.
    pub fn find<'p, 's>(&'s self, param: &'p str) -> (r: PartIter<'buf, 'p, 's>)
        ensures
            r.wf(),
            r.remaining() == self.parts(),
            r.spec_name() == param@,
    {
        let r = PartIter { parts: self.parts.as_slice(), pos: 0, filter: param };
        assert(r.parts@.subrange(0, r.parts@.len() as int) =~= r.parts@);
        r
    }

    /// Returns an iterator over all parts.
    pub fn iter(&self) -> (r: AllPartIter<'buf, '_>)
        ensures
            r.wf(),
            r.remaining() == self.parts(),
    {
        let r = AllPartIter { parts: self.parts.as_slice(), pos: 0 };
        assert(r.parts@.subrange(0, r.parts@.len() as int) =~= r.parts@);
        r
    }
}

/// An iterator over the parts of multipart form data with a given name.
pub struct PartIter<'buf, 'param, 'parent> {
    parts: &'parent [&'buf [u8]],
    pos: usize,
    filter: &'param str,
}

impl<'buf, 'param, 'parent> PartIter<'buf, 'param, 'parent> {
    /// The parts still to be read.
    pub closed spec fn remaining(&self) -> Seq<Seq<u8>> {
        part_views(self.parts@.subrange(self.pos as int, self.parts@.len() as int))
    }

    /// The field name filtered for.
    pub closed spec fn spec_name(&self) -> Seq<char> {
        self.filter@
    }

    /// Position and parts agree.
    pub closed spec fn wf(&self) -> bool {
        self.pos <= self.parts@.len()
    }

    /// Returns the value of the next part with the name filtered for. Reading stops at
    /// a part whose head cannot be parsed; that part is passed over.
    pub fn next(&mut self) -> (r: Option<FormData>)
        requires
            old(self).wf(),
        ensures
            final(self).wf(),
            final(self).spec_name() == old(self).spec_name(),
            match (r, next_named(old(self).remaining(), encode_utf8(old(self).spec_name())).0) {
                (None, None) => true,
                (Some(d), Some(v)) => d@ == v,
                _ => false,
            },
            final(self).remaining() == old(self).remaining().skip(
                next_named(old(self).remaining(), encode_utf8(old(self).spec_name())).1 as int,
            ),
    {
        let target = self.filter.as_bytes();
        let ghost start = old(self).remaining();
        let ghost name = encode_utf8(old(self).spec_name());
        let ghost p0 = self.pos;
        while self.pos < self.parts.len()
            invariant
                self.wf(),
                self.parts == old(self).parts,
                self.filter == old(self).filter,
                target@ == name,
                name == encode_utf8(old(self).spec_name()),
                start == old(self).remaining(),
                p0 == old(self).pos,
                p0 <= self.pos,
                self.remaining() == start.skip(self.pos - p0),
                next_named(start, name) == {
                    let r = next_named(self.remaining(), name);
                    (r.0, r.1 + (self.pos - p0) as nat)
                },
            decreases self.parts@.len() - self.pos,
        {
            let ghost rem = self.remaining();
            let part = self.parts[self.pos];
            self.pos = self.pos + 1;
            proof {
                assert(rem[0] == part@);
                assert(self.remaining() =~= rem.drop_first());
                assert(start.skip(self.pos - p0) =~= start.skip(self.pos - 1 - p0).drop_first());
            }
            match decode_part(part) {
                None => {
                    return None;
                },
                Some((n, d)) => {
                    let matched = match &n {
                        Some(v) => bytes_eq(v.as_slice(), target),
                        None => false,
                    };
                    if matched {
                        return Some(d);
                    }
                },
            }
        }
        proof {
            assert(self.remaining() =~= Seq::<Seq<u8>>::empty());
        }
        None
    }
}

/// An iterator over all parts of multipart form data.
pub struct AllPartIter<'buf, 'parent> {
    parts: &'parent [&'buf [u8]],
    pos: usize,
}

impl<'buf, 'parent> AllPartIter<'buf, 'parent> {
    /// The parts still to be read.
    pub closed spec fn remaining(&self) -> Seq<Seq<u8>> {
        part_views(self.parts@.subrange(self.pos as int, self.parts@.len() as int))
    }

    /// Position and parts agree.
    pub closed spec fn wf(&self) -> bool {
        self.pos <= self.parts@.len()
    }

    /// Returns the name and value of the next part; nothing when its head cannot be
    /// parsed or no part is left.
    pub fn next(&mut self) -> (r: Option<(Option<String>, FormData)>)
        requires
            old(self).wf(),
        ensures
            final(self).wf(),
            old(self).remaining().len() == 0 ==> r is None && final(self).remaining() == old(self).remaining(),
            old(self).remaining().len() > 0 ==> final(self).remaining() == old(self).remaining().drop_first()
                && match (r, part_field(old(self).remaining()[0])) {
                    (None, None) => true,
                    (Some((n, d)), Some((m, v))) => opt_text(n) == opt_lossy(m) && d@ == v,
                    _ => false,
                },
    {
        if self.pos >= self.parts.len() {
            return None;
        }
        let ghost rem = self.remaining();
        let part = self.parts[self.pos];
        self.pos = self.pos + 1;
        proof {
            assert(rem[0] == part@);
            assert(self.remaining() =~= rem.drop_first());
        }
        match decode_part(part) {
            None => None,
            Some((n, d)) => {
                let name = match n {
                    Some(v) => Some(lossy_string(v.as_slice())),
                    None => None,
                };
                Some((name, d))
            },
        }
    }
}

/// An extractor for HTML form data: URL-encoded or multipart, as the request's
/// `Content-Type` says.
pub enum Form<'buf> {
    /// URL-encoded form data.
    URLEncoded(Params<'buf>),
    /// Multipart form data.
    Multipart(Multipart<'buf>),
}

/// Errors that can occur during form extraction.
#[derive(Debug)]
pub enum FormError {
    /// The request body was not valid UTF-8 for a URL-encoded form.
    InvalidUtf8,
    /// The `Content-Type` header was missing or invalid for form data.
    MissingOrInvalidContentType,
    /// The request method was not POST (or GET for query-based forms).
    MethodNotAllowed,
    /// The `multipart/form-data` request was missing the required `boundary` parameter.
    MissingMutlipartBoundary,
}

/// Where the form of a request is read from: `Ok((false, q))` for URL-encoded fields in
/// `q` (the query string of a GET request or the body of a POST), `Ok((true, b))` for a
/// multipart body with boundary `b`; or why there is no form.
pub open spec fn form_source(req: Request) -> Result<(bool, Seq<u8>), FormError> {
    let method = encode_utf8(req.method@);
    if eq_ignore_ascii_case(method, "get".spec_bytes()) {
        Ok((false, query_of(encode_utf8(req.path@))))
    } else if !eq_ignore_ascii_case(method, "post".spec_bytes()) {
        Err(FormError::MethodNotAllowed)
    } else {
        match header_value(req.headers@, "Content-Type".spec_bytes()) {
            None => Err(FormError::MissingOrInvalidContentType),
            Some(ct) => if starts_with(ct, "application/x-www-form-urlencoded".spec_bytes()) {
                if valid_utf8(req.body@) {
                    Ok((false, req.body@))
                } else {
                    Err(FormError::InvalidUtf8)
                }
            } else if starts_with(ct, "multipart/form-data".spec_bytes()) {
                match find_cookie(ct, "boundary".spec_bytes()) {
                    Some(b) => Ok((true, b)),
                    None => Err(FormError::MissingMutlipartBoundary),
                }
            } else {
                Err(FormError::MissingOrInvalidContentType)
            },
        }
    }
}

impl<'buf> Form<'buf> {
    /// Where the form of a request is read from: `Ok(None)` for URL-encoded fields,
    /// `Ok(Some(boundary))` for a multipart body; or why there is no form.
    pub fn boundary_of(req: &'buf Request) -> (r: Result<Option<&'buf [u8]>, FormError>)
        ensures
            match form_source(*req) {
                Ok((false, _)) => r matches Ok(None),
                Ok((true, b)) => r matches Ok(Some(x)) && x@ == b,
                Err(e) => r matches Err(e2) && e2 == e,
            },
    {
        let method = req.method.as_str().as_bytes();
        if bytes_eq_ignore_ascii_case(method, "get".as_bytes()) {
            return Ok(None);
        } else if !bytes_eq_ignore_ascii_case(method, "post".as_bytes()) {
            return Err(FormError::MethodNotAllowed);
        }
        let content_type = match req.find_header("Content-Type") {
            Some(ct) => ct,
            None => return Err(FormError::MissingOrInvalidContentType),
        };
        if bytes_starts_with(content_type, "application/x-www-form-urlencoded".as_bytes()) {
            if !is_valid_utf8(req.body.as_slice()) {
                return Err(FormError::InvalidUtf8);
            }
            Ok(None)
        } else if bytes_starts_with(content_type, "multipart/form-data".as_bytes()) {
            let search = Cookies::new(Some(content_type));
            match search.find("boundary") {
                Some(boundary) => Ok(Some(boundary)),
                None => Err(FormError::MissingMutlipartBoundary),
            }
        } else {
            Err(FormError::MissingOrInvalidContentType)
        }
    }

    /// Reads the form of a request: the query string of a GET request, or the body of a
    /// POST request that is URL-encoded or multipart.
    pub fn try_from(req: &'buf Request) -> (r: Result<Form<'buf>, FormError>)
        requires
            form_source(*req) matches Ok((true, b)) ==> multipart_parts(req.body@, b) is Some,
        ensures
            match form_source(*req) {
                Ok((false, q)) => r matches Ok(Form::URLEncoded(p)) && p.query() == q,
                Ok((true, b)) => r matches Ok(Form::Multipart(m)) && multipart_parts(req.body@, b) == Some(m.parts()),
                Err(e) => r matches Err(e2) && e2 == e,
            },
    {
        match Self::boundary_of(req) {
            Err(e) => Err(e),
            Ok(Some(boundary)) => Ok(Form::Multipart(Multipart::new(boundary, req.body.as_slice()))),
            Ok(None) => {
                if bytes_eq_ignore_ascii_case(req.method.as_str().as_bytes(), "get".as_bytes()) {
                    Ok(Form::URLEncoded(req.params()))
                } else {
                    Ok(Form::URLEncoded(Params::from_bytes(req.body.as_slice())))
                }
            },
        }
    }
}

impl<'buf> Form<'buf> {
    /// Returns an iterator over the values of the fields named `param`.
    pub fn find<'p>(&self, param: &'p str) -> (r: FormIterator<'buf, 'p, '_>)
        ensures
            r.wf(),
            match (*self, r) {
                (Form::URLEncoded(p), FormIterator::URLEncoded(it)) =>
                    it.values() == param_values(p.query(), param@) && it.spec_name() == param@,
                (Form::Multipart(m), FormIterator::Multipart(it)) =>
                    it.remaining() == m.parts() && it.spec_name() == param@,
                _ => false,
            },
    {
        match self {
            Form::URLEncoded(p) => FormIterator::URLEncoded(p.find(param)),
            Form::Multipart(m) => FormIterator::Multipart(m.find(param)),
        }
    }

    /// Returns an iterator over all form fields.
    pub fn iter(&self) -> (r: AllFormIterator<'buf, '_>)
        ensures
            r.wf(),
            match (*self, r) {
                (Form::URLEncoded(p), AllFormIterator::URLEncoded(it)) => it.items() == param_items(p.query()),
                (Form::Multipart(m), AllFormIterator::Multipart(it)) => it.remaining() == m.parts(),
                _ => false,
            },
    {
        match self {
            Form::URLEncoded(p) => AllFormIterator::URLEncoded(p.iter()),
            Form::Multipart(m) => AllFormIterator::Multipart(m.iter()),
        }
    }
}

/// An iterator over the values of form fields with a given name.
pub enum FormIterator<'buf, 'param, 'parent> {
    /// Over URL-encoded fields.
    URLEncoded(ParamIter<'buf, 'param>),
    /// Over multipart fields.
    Multipart(PartIter<'buf, 'param, 'parent>),
}

impl<'buf, 'param, 'parent> FormIterator<'buf, 'param, 'parent> {
    /// The inner iterator is well formed.
    pub open spec fn wf(&self) -> bool {
        match self {
            FormIterator::URLEncoded(p) => p.wf(),
            FormIterator::Multipart(p) => p.wf(),
        }
    }

    /// Returns the next value: URL-encoded values as text, multipart values as their
    /// parts hold them.
    pub fn next(&mut self) -> (r: Option<FormData>)
        requires
            old(self).wf(),
        ensures
            final(self).wf(),
            match (*old(self), *final(self)) {
                (FormIterator::URLEncoded(p), FormIterator::URLEncoded(q)) => q.spec_name() == p.spec_name()
                    && (p.values().len() == 0 ==> r is None && q.values() == p.values())
                    && (p.values().len() > 0 ==> (r matches Some(FormData::Text(t)) && t@ == p.values()[0]
                        && q.values() == p.values().drop_first())),
                (FormIterator::Multipart(p), FormIterator::Multipart(q)) => q.spec_name() == p.spec_name()
                    && match (r, next_named(p.remaining(), encode_utf8(p.spec_name())).0) {
                        (None, None) => true,
                        (Some(d), Some(v)) => d@ == v,
                        _ => false,
                    }
                    && q.remaining() == p.remaining().skip(next_named(p.remaining(), encode_utf8(p.spec_name())).1 as int),
                _ => false,
            },
    {
        match self {
            FormIterator::URLEncoded(p) => match p.next() {
                Some(t) => Some(FormData::Text(t)),
                None => None,
            },
            FormIterator::Multipart(p) => p.next(),
        }
    }
}

/// An iterator over all form fields, as optional names and values.
pub enum AllFormIterator<'buf, 'parent> {
    /// Over URL-encoded fields.
    URLEncoded(AllParamIter<'buf>),
    /// Over multipart fields.
    Multipart(AllPartIter<'buf, 'parent>),
}

impl<'buf, 'parent> AllFormIterator<'buf, 'parent> {
    /// The inner iterator is well formed.
    pub open spec fn wf(&self) -> bool {
        match self {
            AllFormIterator::URLEncoded(p) => p.wf(),
            AllFormIterator::Multipart(p) => p.wf(),
        }
    }

    /// Returns the next field: a URL-encoded field with its name and its value as text,
    /// a multipart field as its part holds it.
    pub fn next(&mut self) -> (r: Option<(Option<String>, FormData)>)
        requires
            old(self).wf(),
        ensures
            final(self).wf(),
            match (*old(self), *final(self)) {
                (AllFormIterator::URLEncoded(p), AllFormIterator::URLEncoded(q)) =>
                    (p.items().len() == 0 ==> r is None && q.items() == p.items())
                    && (p.items().len() > 0 ==> (r matches Some((Some(k), FormData::Text(v)))
                        && (k@, v@) == p.items()[0] && q.items() == p.items().drop_first())),
                (AllFormIterator::Multipart(p), AllFormIterator::Multipart(q)) =>
                    (p.remaining().len() == 0 ==> r is None && q.remaining() == p.remaining())
                    && (p.remaining().len() > 0 ==> q.remaining() == p.remaining().drop_first()
                        && match (r, part_field(p.remaining()[0])) {
                            (None, None) => true,
                            (Some((n, d)), Some((m, v))) => opt_text(n) == opt_lossy(m) && d@ == v,
                            _ => false,
                        }),
                _ => false,
            },
    {
        match self {
            AllFormIterator::URLEncoded(p) => match p.next() {
                Some((k, v)) => Some((Some(k), FormData::Text(v))),
                None => None,
            },
            AllFormIterator::Multipart(p) => p.next(),
        }
    }
}

/// The body text of the response for a form error; none for a refused method.
pub open spec fn form_error_text(err: FormError) -> Option<Seq<char>> {
    match err {
        FormError::InvalidUtf8 => Some("Invalid UTF-8"@),
        FormError::MissingOrInvalidContentType => Some("Missing or invalid Content-Type header"@),
        FormError::MissingMutlipartBoundary => Some("Missing multipart boundary"@),
        FormError::MethodNotAllowed => None,
    }
}

impl FormError {
    /// The response for the error: 400 Bad Request with a plain-text reason, or 405
    /// Method Not Allowed for a refused method.
    pub fn into_response(self) -> (r: Response)
        ensures
            match form_error_text(self) {
                Some(t) => r.status == 400 && (r.body matches Some(Body::Immediate(b)) && b@ == encode_utf8(t))
                    && r.headers.entries() == seq![("Content-Type"@, Body::TEXT@)],
                None => r.status == 405 && r.body is None && r.headers.entries().len() == 0,
            },
    {
        let text = match self {
            FormError::InvalidUtf8 => "Invalid UTF-8",
            FormError::MissingOrInvalidContentType => "Missing or invalid Content-Type header",
            FormError::MissingMutlipartBoundary => "Missing multipart boundary",
            FormError::MethodNotAllowed => return Response::method_not_allowed(),
        };
        let r = Response::bad_request().with_body(Body::from_text(text), Some(Body::TEXT));
        proof {
            crate::http::response::lemma_without_absent(Seq::empty(), "Content-Type"@);
        }
        r
    }
}

} // verus!
