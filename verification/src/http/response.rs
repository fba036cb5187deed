//! Response headers, bodies and responses.
use vstd::prelude::*;
use vstd::utf8::encode_utf8;
use crate::text::{bytes_eq_ignore_ascii_case, eq_ignore_ascii_case};

verus! {

/// A header name equal to `name` when ASCII case is ignored.
pub open spec fn name_matches(n: Seq<char>, name: Seq<char>) -> bool {
    eq_ignore_ascii_case(encode_utf8(n), encode_utf8(name))
}

/// The view of one header entry: name and value.
pub open spec fn entry_view(p: (String, String)) -> (Seq<char>, Seq<char>) {
    (p.0@, p.1@)
}

/// The entries without those named `name` (ASCII case ignored), in order.
pub open spec fn without_name(s: Seq<(Seq<char>, Seq<char>)>, name: Seq<char>) -> Seq<(Seq<char>, Seq<char>)>
    decreases s.len(),
{
    if s.len() == 0 {
        Seq::empty()
    } else {
        let r = without_name(s.drop_last(), name);
        if name_matches(s.last().0, name) { r } else { r.push(s.last()) }
    }
}

/// The index of the first entry named `name` (ASCII case ignored), or the number of
/// entries when there is none.
pub open spec fn first_match(s: Seq<(Seq<char>, Seq<char>)>, name: Seq<char>) -> nat
    decreases s.len(),
{
    if s.len() == 0 {
        0
    } else if name_matches(s[0].0, name) {
        0
    } else {
        1 + first_match(s.drop_first(), name)
    }
}

/// Whether some entry is named `name` (ASCII case ignored).
pub open spec fn has_name(s: Seq<(Seq<char>, Seq<char>)>, name: Seq<char>) -> bool {
    exists|i: int| 0 <= i < s.len() && name_matches(#[trigger] s[i].0, name)
}

/// The value of the first entry named `name` (ASCII case ignored).
pub open spec fn first_value(s: Seq<(Seq<char>, Seq<char>)>, name: Seq<char>) -> Option<Seq<char>> {
    let i = first_match(s, name);
    if i < s.len() { Some(s[i as int].1) } else { None }
}

/// The elements of `s` whose flag in `keep` is set, in order.
pub open spec fn keep_where<T>(s: Seq<T>, keep: Seq<bool>) -> Seq<T>
    decreases s.len(),
{
    if s.len() == 0 {
        Seq::empty()
    } else {
        let r = keep_where(s.drop_last(), keep.subrange(0, s.len() - 1));
        if keep[s.len() - 1] { r.push(s.last()) } else { r }
    }
}

/// `first_match` is the first entry with the name.
pub proof fn lemma_first_match(s: Seq<(Seq<char>, Seq<char>)>, name: Seq<char>, k: int)
    requires
        0 <= k <= s.len(),
        k < s.len() ==> name_matches(s[k].0, name),
        forall|j: int| 0 <= j < k ==> !name_matches(#[trigger] s[j].0, name),
    ensures
        first_match(s, name) == k,
    decreases s.len(),
{
    if s.len() > 0 && k > 0 {
        let t = s.drop_first();
        assert forall|j: int| 0 <= j < k - 1 implies !name_matches(#[trigger] t[j].0, name) by {
            assert(t[j] == s[j + 1]);
        }
        lemma_first_match(t, name, k - 1);
    }
}

/// `first_match` finds a matching entry exactly when there is one.
pub proof fn lemma_first_match_props(s: Seq<(Seq<char>, Seq<char>)>, name: Seq<char>)
    ensures
        first_match(s, name) <= s.len(),
        first_match(s, name) < s.len() ==> name_matches(s[first_match(s, name) as int].0, name),
        forall|j: int| 0 <= j < first_match(s, name) ==> !name_matches(#[trigger] s[j].0, name),
        has_name(s, name) <==> first_match(s, name) < s.len(),
    decreases s.len(),
{
    if s.len() > 0 && !name_matches(s[0].0, name) {
        let t = s.drop_first();
        lemma_first_match_props(t, name);
        assert forall|j: int| 0 <= j < first_match(s, name) implies !name_matches(#[trigger] s[j].0, name) by {
            if j > 0 {
                assert(s[j] == t[j - 1]);
            }
        }
        if has_name(s, name) {
            let k = choose|k: int| 0 <= k < s.len() && name_matches(#[trigger] s[k].0, name);
            assert(k > 0);
            assert(name_matches(t[k - 1].0, name));
        }
        if first_match(s, name) < s.len() {
            assert(s[first_match(s, name) as int] == t[first_match(t, name) as int]);
        }
    }
}

/// Removing a name that no entry has changes nothing.
pub proof fn lemma_without_absent(s: Seq<(Seq<char>, Seq<char>)>, name: Seq<char>)
    requires
        !has_name(s, name),
    ensures
        without_name(s, name) == s,
    decreases s.len(),
{
    if s.len() > 0 {
        let t = s.drop_last();
        assert(!has_name(t, name)) by {
            if has_name(t, name) {
                let i = choose|i: int| 0 <= i < t.len() && name_matches(#[trigger] t[i].0, name);
                assert(s[i] == t[i]);
            }
        }
        lemma_without_absent(t, name);
        assert(!name_matches(s[s.len() - 1].0, name));
        assert(t.push(s.last()) =~= s);
    }
}

/// After removing a name, no entry has it.
pub proof fn lemma_without_has_none(s: Seq<(Seq<char>, Seq<char>)>, name: Seq<char>)
    ensures
        !has_name(without_name(s, name), name),
        without_name(s, name).len() <= s.len(),
    decreases s.len(),
{
    if s.len() > 0 {
        lemma_without_has_none(s.drop_last(), name);
        let r = without_name(s.drop_last(), name);
        if !name_matches(s.last().0, name) {
            assert forall|i: int| 0 <= i < r.push(s.last()).len() implies !name_matches(#[trigger] r.push(s.last())[i].0, name) by {
                if i < r.len() {
                    assert(r.push(s.last())[i] == r[i]);
                }
            }
        }
    }
}

/// After `set_header(name, value)` there is exactly one header named `name`: the last
/// one, with value `value`.
pub proof fn lemma_set_header_single(s: Seq<(Seq<char>, Seq<char>)>, name: Seq<char>, value: Seq<char>)
    ensures
        ({
            let t = without_name(s, name).push((name, value));
            &&& first_value(t, name) == Some(value)
            &&& forall|i: int| 0 <= i < t.len() - 1 ==> !name_matches(#[trigger] t[i].0, name)
        }),
{
    let r = without_name(s, name);
    let t = r.push((name, value));
    lemma_without_has_none(s, name);
    assert forall|i: int| 0 <= i < t.len() - 1 implies !name_matches(#[trigger] t[i].0, name) by {
        assert(t[i] == r[i]);
    }
    assert(name_matches(name, name));
    lemma_first_match(t, name, r.len() as int);
}

/// `with_header(name, value)` never replaces a header: where one named `name` exists,
/// the first value stays; otherwise the new header is the first with that name.
pub proof fn lemma_with_header_keeps_first(s: Seq<(Seq<char>, Seq<char>)>, name: Seq<char>, value: Seq<char>)
    ensures
        first_value(if has_name(s, name) { s } else { s.push((name, value)) }, name)
            == if has_name(s, name) { first_value(s, name) } else { Some(value) },
{
    if !has_name(s, name) {
        let t = s.push((name, value));
        assert forall|i: int| 0 <= i < s.len() implies !name_matches(#[trigger] t[i].0, name) by {
            assert(t[i] == s[i]);
        }
        assert(name_matches(name, name));
        lemma_first_match(t, name, s.len() as int);
    }
}

/// `f` may answer `k` for the entry `e`: some call of `f` on strings with the entry's
/// name and value returns `k`.
pub open spec fn decided_by<F: Fn(&str, &str) -> bool>(f: F, e: (Seq<char>, Seq<char>), k: bool) -> bool {
    exists|n: &str, v: &str| n@ == e.0 && v@ == e.1 && #[trigger] f.ensures((n, v), k)
}

/// Represents the collection of HTTP response headers, in order.
#[derive(Clone, Debug)]
pub struct Headers {
    inner: Vec<(String, String)>,
}

impl Headers {
    /// The headers, in order, as name-value pairs.
    pub closed spec fn entries(&self) -> Seq<(Seq<char>, Seq<char>)> {
        self.inner@.map_values(|p: (String, String)| entry_view(p))
    }

    /// Creates a new empty headers collection.
    pub fn new() -> (r: Self)
        ensures
            r.entries() == Seq::<(Seq<char>, Seq<char>)>::empty(),
    {
        let r = Headers { inner: Vec::new() };
        assert(r.entries() =~= Seq::<(Seq<char>, Seq<char>)>::empty());
        r
    }

    /// Adds a header after the others.
    pub fn push(&mut self, name: &str, value: &str)
        ensures
            final(self).entries() == old(self).entries().push((name@, value@)),
    {
        self.inner.push((name.to_owned(), value.to_owned()));
        assert(self.entries() =~= old(self).entries().push((name@, value@)));
    }

    /// The headers, in order.
    pub fn iter(&self) -> (r: &[(String, String)])
        ensures
            r@.map_values(|p: (String, String)| entry_view(p)) == self.entries(),
    {
        self.inner.as_slice()
    }

    /// The header at `index`.
    pub fn get(&self, index: usize) -> (r: &(String, String))
        requires
            index < self.entries().len(),
        ensures
            entry_view(*r) == self.entries()[index as int],
    {
        &self.inner[index]
    }

    /// Retains only the headers for which `f` returns true, in order.
    pub fn retain<F: Fn(&str, &str) -> bool>(&mut self, f: F)
        requires
            forall|n: &str, v: &str| #[trigger] f.requires((n, v)),
        ensures
            exists|keep: Seq<bool>| {
                &&& keep.len() == old(self).entries().len()
                &&& final(self).entries() == keep_where(old(self).entries(), keep)
                &&& forall|i: int| 0 <= i < keep.len() ==> #[trigger] decided_by(f, old(self).entries()[i], keep[i])
            },
    {
        let mut kept: Vec<(String, String)> = Vec::new();
        let ghost mut keep: Seq<bool> = Seq::empty();
        let ghost entries = self.entries();
        let mut i: usize = 0;
        while i < self.inner.len()
            invariant
                entries == self.entries(),
                entries == old(self).entries(),
                forall|n: &str, v: &str| #[trigger] f.requires((n, v)),
                0 <= i <= entries.len(),
                keep.len() == i,
                kept@.map_values(|p: (String, String)| entry_view(p)) == keep_where(entries.subrange(0, i as int), keep),
                forall|j: int| 0 <= j < i ==> #[trigger] decided_by(f, entries[j], keep[j]),
            decreases entries.len() - i,
        {
            let (n, v) = &self.inner[i];
            let ns = n.as_str();
            let vs = v.as_str();
            let b = f(ns, vs);
            if b {
                kept.push((n.clone(), v.clone()));
            }
            proof {
                let old_keep = keep;
                keep = keep.push(b);
                assert(entries.subrange(0, i + 1).drop_last() =~= entries.subrange(0, i as int));
                assert(keep.subrange(0, i as int) =~= old_keep);
                assert(kept@.map_values(|p: (String, String)| entry_view(p)) =~= keep_where(entries.subrange(0, i + 1), keep));
                assert forall|j: int| 0 <= j < i + 1 implies #[trigger] decided_by(f, entries[j], keep[j]) by {
                    if j == i {
                        assert(f.ensures((ns, vs), keep[j]));
                    } else {
                        assert(keep[j] == old_keep[j]);
                    }
                }
            }
            i += 1;
        }
        self.inner = kept;
        proof {
            assert(entries.subrange(0, i as int) =~= entries);
        }
    }

    /// Removes every header named `name` (ASCII case ignored).
    pub(crate) fn remove_named(&mut self, name: &str)
        ensures
            final(self).entries() == without_name(old(self).entries(), name@),
    {
        let target = name.as_bytes();
        let mut kept: Vec<(String, String)> = Vec::new();
        let ghost entries = self.entries();
        let mut i: usize = 0;
        while i < self.inner.len()
            invariant
                entries == self.entries(),
                target@ == encode_utf8(name@),
                0 <= i <= entries.len(),
                kept@.map_values(|p: (String, String)| entry_view(p)) == without_name(entries.subrange(0, i as int), name@),
            decreases entries.len() - i,
        {
            let (n, v) = &self.inner[i];
            if !bytes_eq_ignore_ascii_case(n.as_str().as_bytes(), target) {
                kept.push((n.clone(), v.clone()));
            }
            proof {
                assert(entries.subrange(0, i + 1).drop_last() =~= entries.subrange(0, i as int));
                assert(kept@.map_values(|p: (String, String)| entry_view(p)) =~= without_name(entries.subrange(0, i + 1), name@));
            }
            i += 1;
        }
        self.inner = kept;
        proof {
            assert(entries.subrange(0, i as int) =~= entries);
        }
    }

    /// Finds the first header named `name` (ASCII case ignored); returns its index, or
    /// the number of headers when there is none.
    pub(crate) fn find_named(&self, name: &str) -> (r: usize)
        ensures
            r == first_match(self.entries(), name@),
            r <= self.entries().len(),
    {
        let target = name.as_bytes();
        let mut i: usize = 0;
        while i < self.inner.len()
            invariant
                target@ == encode_utf8(name@),
                0 <= i <= self.entries().len(),
                forall|j: int| 0 <= j < i ==> !name_matches(#[trigger] self.entries()[j].0, name@),
            decreases self.entries().len() - i,
        {
            if bytes_eq_ignore_ascii_case(self.inner[i].0.as_str().as_bytes(), target) {
                proof {
                    lemma_first_match(self.entries(), name@, i as int);
                }
                return i;
            }
            i += 1;
        }
        proof {
            lemma_first_match(self.entries(), name@, i as int);
        }
        i
    }

    /// Returns the number of headers.
    pub fn len(&self) -> (r: usize)
        ensures
            r == self.entries().len(),
    {
        self.inner.len()
    }

    /// Returns true if there are no headers.
    pub fn is_empty(&self) -> (r: bool)
        ensures
            r == (self.entries().len() == 0),
    {
        self.inner.len() == 0
    }
}

/// Represents the body of an HTTP response.
///
/// A streamed body is produced by the caller; the response records only its length,
/// when that is known.
#[derive(Debug)]
pub enum Body {
    /// In-memory body data.
    Immediate(Vec<u8>),
    /// A body read from a stream.
    Stream {
        /// The length of the body, if known.
        len: Option<u64>,
    },
}

impl Body {
    /// Content-Type for HTML.
    pub const HTML: &'static str = "text/html; charset=utf-8";

    /// Content-Type for JSON.
    pub const JSON: &'static str = "application/json";

    /// Content-Type for text.
    pub const TEXT: &'static str = "text/plain; charset=utf-8";

    /// Creates a body from a vector.
    pub fn from_vec(data: Vec<u8>) -> (r: Self)
        ensures
            r == Body::Immediate(data),
    {
        Body::Immediate(data)
    }

    /// Creates a body from the bytes of a string.
    pub fn from_text(data: &str) -> (r: Self)
        ensures
            r matches Body::Immediate(v) && v@ == encode_utf8(data@),
    {
        Body::Immediate(crate::text::bytes_to_vec(data.as_bytes()))
    }

    /// The length of the body in bytes, if known.
    #[allow(clippy::len_without_is_empty)]
    pub fn len(&self) -> (r: Option<u64>)
        ensures
            r == match self {
                Body::Immediate(data) => Some(data@.len() as u64),
                Body::Stream { len } => *len,
            },
    {
        match self {
            Body::Immediate(data) => Some(data.len() as u64),
            Body::Stream { len } => *len,
        }
    }
}

/// Represents an HTTP response.
#[derive(Debug)]
pub struct Response {
    /// The HTTP status code (e.g., 200, 404).
    pub status: u16,
    /// The response headers.
    pub headers: Headers,
    /// The response body.
    pub body: Option<Body>,
}

impl Response {
    /// Creates a new response with the given status code, no headers and no body.
    pub fn new_with_code(status: u16) -> (r: Self)
        ensures
            r.status == status,
            r.headers.entries() == Seq::<(Seq<char>, Seq<char>)>::empty(),
            r.body is None,
    {
        Self { status, headers: Headers::new(), body: None }
    }

    /// Creates a new 200 response with a body and an optional content type.
    pub fn new_with_body(body: Body, content_type: Option<&str>) -> (r: Self)
        ensures
            r.status == 200,
            r.headers.entries() == match content_type {
                Some(ct) => seq![("Content-Type"@, ct@)],
                None => Seq::<(Seq<char>, Seq<char>)>::empty(),
            },
            r.body == Some(body),
    {
        let mut headers = Headers::new();
        if let Some(ct) = content_type {
            headers.push("Content-Type", ct);
        }
        Self { status: 200, headers, body: Some(body) }
    }

    /// 204 No Content
    pub fn empty() -> (r: Self)
        ensures
            r.status == 204,
            r.headers.entries().len() == 0,
            r.body is None,
    {
        Self::new_with_code(204)
    }

    /// 200 OK
    pub fn ok() -> (r: Self)
        ensures
            r.status == 200,
            r.headers.entries().len() == 0,
            r.body is None,
    {
        Self::new_with_code(200)
    }

    /// 304 Not Modified, with a Content-Type header when one is given.
    pub fn not_modified(content_type: Option<&str>) -> (r: Self)
        ensures
            r.status == 304,
            r.headers.entries() == match content_type {
                Some(ct) => seq![("Content-Type"@, ct@)],
                None => Seq::<(Seq<char>, Seq<char>)>::empty(),
            },
            r.body is None,
    {
        let mut resp = Self::new_with_code(304);
        if let Some(ct) = content_type {
            resp.set_header("Content-Type", ct);
            assert(without_name(Seq::<(Seq<char>, Seq<char>)>::empty(), "Content-Type"@) =~= Seq::<(Seq<char>, Seq<char>)>::empty());
            assert(Seq::<(Seq<char>, Seq<char>)>::empty().push(("Content-Type"@, ct@)) =~= seq![("Content-Type"@, ct@)]);
        }
        resp
    }

    /// 307 Temporary Redirect, with the `Location` header set to `location`.
    pub fn temporary_redirect(location: &str) -> (r: Self)
        ensures
            r.status == 307,
            r.headers.entries() == seq![("Location"@, location@)],
            r.body is None,
    {
        let r = Self::new_with_code(307).with_header("Location", location);
        assert(Seq::<(Seq<char>, Seq<char>)>::empty().push(("Location"@, location@)) =~= seq![("Location"@, location@)]);
        r
    }

    /// 404 Not Found
    pub fn not_found() -> (r: Self)
        ensures
            r.status == 404,
            r.headers.entries().len() == 0,
            r.body is None,
    {
        Self::new_with_code(404)
    }

    /// 405 Method Not Allowed
    pub fn method_not_allowed() -> (r: Self)
        ensures
            r.status == 405,
            r.headers.entries().len() == 0,
            r.body is None,
    {
        Self::new_with_code(405)
    }

    /// 500 Internal Server Error
    pub fn internal_server_error() -> (r: Self)
        ensures
            r.status == 500,
            r.headers.entries().len() == 0,
            r.body is None,
    {
        Self::new_with_code(500)
    }

    /// 400 Bad Request
    pub fn bad_request() -> (r: Self)
        ensures
            r.status == 400,
            r.headers.entries().len() == 0,
            r.body is None,
    {
        Self::new_with_code(400)
    }

    /// 401 Unauthorized
    pub fn unauthorized() -> (r: Self)
        ensures
            r.status == 401,
            r.headers.entries().len() == 0,
            r.body is None,
    {
        Self::new_with_code(401)
    }

    /// 403 Forbidden
    pub fn forbidden() -> (r: Self)
        ensures
            r.status == 403,
            r.headers.entries().len() == 0,
            r.body is None,
    {
        Self::new_with_code(403)
    }

    /// 408 Request Timeout
    pub fn request_timeout() -> (r: Self)
        ensures
            r.status == 408,
            r.headers.entries().len() == 0,
            r.body is None,
    {
        Self::new_with_code(408)
    }

    /// 413 Content Too Large
    pub fn content_too_large() -> (r: Self)
        ensures
            r.status == 413,
            r.headers.entries().len() == 0,
            r.body is None,
    {
        Self::new_with_code(413)
    }

    /// 431 Request Header Fields Too Large
    pub fn headers_too_large() -> (r: Self)
        ensures
            r.status == 431,
            r.headers.entries().len() == 0,
            r.body is None,
    {
        Self::new_with_code(431)
    }

    /// Sets the response body and the Content-Type header.
    ///
    /// This overwrites the body; every `Content-Type` header is removed, and a new one is
    /// added when a content type is given.
    pub fn with_body(self, body: Body, content_type: Option<&str>) -> (r: Self)
        ensures
            r.status == self.status,
            r.body == Some(body),
            r.headers.entries() == match content_type {
                Some(ct) => without_name(self.headers.entries(), "Content-Type"@).push(("Content-Type"@, ct@)),
                None => without_name(self.headers.entries(), "Content-Type"@),
            },
    {
        let mut resp = self;
        match content_type {
            Some(v) => {
                resp.set_header("Content-Type", v);
            },
            None => {
                resp.headers.remove_named("Content-Type");
            },
        }
        resp.body = Some(body);
        resp
    }

    /// Adds a header if no header of that name (ASCII case ignored) exists yet.
    pub fn with_header(self, name: &str, value: &str) -> (r: Self)
        ensures
            r.status == self.status,
            r.body == self.body,
            r.headers.entries() == if has_name(self.headers.entries(), name@) {
                self.headers.entries()
            } else {
                self.headers.entries().push((name@, value@))
            },
    {
        let mut resp = self;
        let i = resp.headers.find_named(name);
        proof {
            lemma_first_match_props(resp.headers.entries(), name@);
        }
        if i == resp.headers.len() {
            resp.headers.push(name, value);
        }
        resp
    }

    /// Sets a header, replacing every header of that name (ASCII case ignored). Returns
    /// the value of the first header it replaced, if any; the new header comes last.
    pub fn set_header(&mut self, name: &str, value: &str) -> (r: Option<String>)
        ensures
            final(self).status == old(self).status,
            final(self).body == old(self).body,
            match (r, first_value(old(self).headers.entries(), name@)) {
                (None, None) => true,
                (Some(v), Some(w)) => v@ == w,
                _ => false,
            },
            final(self).headers.entries() == without_name(old(self).headers.entries(), name@).push((name@, value@)),
    {
        let i = self.headers.find_named(name);
        let old_value = if i < self.headers.len() {
            Some(self.headers.get(i).1.clone())
        } else {
            None
        };
        if old_value.is_some() {
            self.headers.remove_named(name);
        } else {
            proof {
                let s = self.headers.entries();
                lemma_first_match_props(s, name@);
                lemma_without_absent(s, name@);
            }
        }
        self.headers.push(name, value);
        old_value
    }
}

} // verus!
