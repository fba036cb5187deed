//! Reading cookies from the `Cookie` request header.
use vstd::prelude::*;
use vstd::string::StringSliceAdditionalSpecFns;
use crate::text::{bytes_eq, find_byte, find_byte_index, lemma_find_byte, lemma_find_byte_unique};

verus! {

/// The `;` byte that separates cookies.
pub open spec fn semicolon() -> u8 { 0x3b }

/// A byte string without its leading spaces.
pub open spec fn strip_spaces(t: Seq<u8>) -> Seq<u8>
    decreases t.len(),
{
    if t.len() > 0 && t[0] == 0x20 {
        strip_spaces(t.drop_first())
    } else {
        t
    }
}

/// A value without its surrounding double quotes, when it has both.
pub open spec fn unquote(v: Seq<u8>) -> Seq<u8> {
    if v.len() >= 2 && v[0] == 0x22 && v[v.len() - 1] == 0x22 {
        v.subrange(1, v.len() - 1)
    } else {
        v
    }
}

/// The value of the first cookie named `name` in a `Cookie` header: cookies are
/// separated by `;`, leading spaces are skipped, a cookie without `=` is passed over,
/// and a value in double quotes loses the quotes.
pub open spec fn find_cookie(s: Seq<u8>, name: Seq<u8>) -> Option<Seq<u8>>
    decreases s.len(),
{
    proof {
        lemma_find_byte(s, semicolon());
    }
    let i = find_byte(s, semicolon());
    let t = strip_spaces(s.subrange(0, i as int));
    let e = find_byte(t, 0x3d);
    if e < t.len() && t.subrange(0, e as int) == name {
        Some(unquote(t.subrange(e as int + 1, t.len() as int)))
    } else if i < s.len() {
        find_cookie(s.subrange(i as int + 1, s.len() as int), name)
    } else {
        None
    }
}

/// A cookie `name=value` at the front of the header, alone or followed by `;` and more
/// cookies, is found under its name, and its value is every byte after the first `=`
/// (further `=` included), without surrounding double quotes. The name holds no `=` or
/// `;` and does not start with a space; the value holds no `;`.
pub proof fn lemma_cookie_value_after_first_eq(name: Seq<u8>, value: Seq<u8>, rest: Seq<u8>)
    requires
        forall|j: int| 0 <= j < name.len() ==> name[j] != 0x3d && name[j] != 0x3b,
        name.len() > 0 ==> name[0] != 0x20,
        forall|j: int| 0 <= j < value.len() ==> value[j] != 0x3b,
        rest.len() > 0 ==> rest[0] == 0x3b,
    ensures
        value.len() >= 2 && value[0] == 0x22 && value.last() == 0x22
            ==> find_cookie(name + seq![0x3du8] + value + rest, name) == Some(value.subrange(1, value.len() - 1)),
        !(value.len() >= 2 && value[0] == 0x22 && value.last() == 0x22)
            ==> find_cookie(name + seq![0x3du8] + value + rest, name) == Some(value),
{
    let seg = name + seq![0x3du8] + value;
    let s = seg + rest;
    assert forall|j: int| 0 <= j < seg.len() implies s[j] != semicolon() by {
        if j < name.len() {
            assert(s[j] == name[j]);
        } else if j > name.len() {
            assert(s[j] == value[j - name.len() - 1]);
        }
    }
    lemma_find_byte_unique(s, semicolon(), seg.len() as int);
    assert(s.subrange(0, seg.len() as int) =~= seg);
    assert(strip_spaces(seg) == seg);
    assert forall|j: int| 0 <= j < name.len() implies seg[j] != 0x3d by {
        assert(seg[j] == name[j]);
    }
    lemma_find_byte_unique(seg, 0x3d, name.len() as int);
    assert(seg.subrange(0, name.len() as int) =~= name);
    assert(seg.subrange(name.len() as int + 1, seg.len() as int) =~= value);
}

/// A cookie that comes after another cookie with another name, past the `;` and the
/// spaces that follow it, is found as if it came first: looking a name up passes over
/// cookies with other names.
pub proof fn lemma_cookie_lookup_skips_other_names(
    other: Seq<u8>,
    other_value: Seq<u8>,
    pad: Seq<u8>,
    name: Seq<u8>,
    rest: Seq<u8>,
)
    requires
        forall|j: int| 0 <= j < other.len() ==> other[j] != 0x3d && other[j] != 0x3b,
        other.len() > 0 ==> other[0] != 0x20,
        other != name,
        forall|j: int| 0 <= j < other_value.len() ==> other_value[j] != 0x3b,
        forall|j: int| 0 <= j < pad.len() ==> pad[j] == 0x20,
        rest.len() == 0 || rest[0] != 0x20,
    ensures
        find_cookie(other + seq![0x3du8] + other_value + seq![0x3bu8] + pad + rest, name) == find_cookie(rest, name),
{
    let seg = other + seq![0x3du8] + other_value;
    let s = seg + seq![0x3bu8] + pad + rest;
    assert forall|j: int| 0 <= j < seg.len() implies s[j] != semicolon() by {
        if j < other.len() {
            assert(s[j] == other[j]);
        } else if j > other.len() {
            assert(s[j] == other_value[j - other.len() - 1]);
        }
    }
    lemma_find_byte_unique(s, semicolon(), seg.len() as int);
    assert(s.subrange(0, seg.len() as int) =~= seg);
    assert(strip_spaces(seg) == seg);
    assert forall|j: int| 0 <= j < other.len() implies seg[j] != 0x3d by {
        assert(seg[j] == other[j]);
    }
    lemma_find_byte_unique(seg, 0x3d, other.len() as int);
    assert(seg.subrange(0, other.len() as int) =~= other);
    assert(s.subrange(seg.len() as int + 1, s.len() as int) =~= pad + rest);
    lemma_find_cookie_skips_spaces(pad, rest, name);
}

/// Spaces in front of the header do not change what is found.
proof fn lemma_find_cookie_skips_spaces(pad: Seq<u8>, rest: Seq<u8>, name: Seq<u8>)
    requires
        forall|j: int| 0 <= j < pad.len() ==> pad[j] == 0x20,
        rest.len() == 0 || rest[0] != 0x20,
    ensures
        find_cookie(pad + rest, name) == find_cookie(rest, name),
    decreases pad.len(),
{
    if pad.len() > 0 {
        let s = pad + rest;
        let t = pad.drop_first() + rest;
        assert(s.drop_first() =~= t);
        lemma_find_byte(s, semicolon());
        lemma_find_byte(t, semicolon());
        assert(s[0] != semicolon());
        assert(find_byte(s, semicolon()) == 1 + find_byte(t, semicolon()));
        let i = find_byte(s, semicolon());
        assert(s.subrange(0, i as int).drop_first() =~= t.subrange(0, i - 1));
        assert(strip_spaces(s.subrange(0, i as int)) == strip_spaces(t.subrange(0, i - 1)));
        if i < s.len() {
            assert(s.subrange(i as int + 1, s.len() as int) =~= t.subrange(i as int, t.len() as int));
        }
        lemma_find_cookie_skips_spaces(pad.drop_first(), rest, name);
    }
}

/// Helper for reading cookies from a request.
pub struct Cookies<'a> {
    cookies: &'a [u8],
}

impl<'a> Cookies<'a> {
    /// The `Cookie` header value (empty when the request has none).
    pub closed spec fn header(&self) -> Seq<u8> {
        self.cookies@
    }

    /// Creates a new `Cookies` helper from the `Cookie` header value.
    pub fn new(cookies: Option<&'a [u8]>) -> (r: Self)
        ensures
            r.header() == match cookies {
                Some(c) => c@,
                None => Seq::<u8>::empty(),
            },
    {
        match cookies {
            Some(c) => Cookies { cookies: c },
            None => {
                let empty: &'a [u8] = &[];
                assert(empty@ =~= Seq::<u8>::empty());
                Cookies { cookies: empty }
            },
        }
    }

    /// Finds the value of the first cookie named `cookie`.
    ///
    /// If the cookie value is enclosed in double quotes, they are stripped from the
    /// returned value.
    pub fn find(&self, cookie: &str) -> (r: Option<&'a [u8]>)
        ensures
            match (r, find_cookie(self.header(), cookie.spec_bytes())) {
                (None, None) => true,
                (Some(v), Some(w)) => v@ == w,
                _ => false,
            },
    {
        let target = cookie.as_bytes();
        let mut rest: &'a [u8] = self.cookies;
        loop
            invariant
                target@ == cookie.spec_bytes(),
                find_cookie(self.header(), target@) == find_cookie(rest@, target@),
            decreases rest@.len(),
        {
            let i = find_byte_index(rest, 0x3b);
            let seg = vstd::slice::slice_subrange(rest, 0, i);
            // Strip all leading whitespace
            let mut st: usize = 0;
            assert(seg@.subrange(0, seg@.len() as int) =~= seg@);
            while st < seg.len() && seg[st] == 0x20
                invariant
                    st <= seg@.len(),
                    strip_spaces(seg@) == strip_spaces(seg@.subrange(st as int, seg@.len() as int)),
                decreases seg@.len() - st,
            {
                proof {
                    let u = seg@.subrange(st as int, seg@.len() as int);
                    assert(u.drop_first() =~= seg@.subrange(st as int + 1, seg@.len() as int));
                }
                st += 1;
            }
            let t = vstd::slice::slice_subrange(seg, st, seg.len());
            proof {
                let u = seg@.subrange(st as int, seg@.len() as int);
                assert(t@ == u);
                assert(strip_spaces(u) == u);
            }
            let e = find_byte_index(t, 0x3d);
            if e < t.len() {
                let name = vstd::slice::slice_subrange(t, 0, e);
                if bytes_eq(name, target) {
                    let mut value = vstd::slice::slice_subrange(t, e + 1, t.len());
                    // Handle quoted values correctly
                    if value.len() >= 2 && value[0] == 0x22 && value[value.len() - 1] == 0x22 {
                        value = vstd::slice::slice_subrange(value, 1, value.len() - 1);
                    }
                    return Some(value);
                }
            }
            if i < rest.len() {
                rest = vstd::slice::slice_subrange(rest, i + 1, rest.len());
            } else {
                return None;
            }
        }
    }
}

} // verus!
