//! Conversions between bytes and text.
use vstd::prelude::*;
use vstd::utf8::*;
use vstd::string::StringSliceAdditionalSpecFns;

verus! {

/// The text that `String::from_utf8_lossy` makes of a byte sequence: valid UTF-8
/// sequences are decoded and every maximal invalid sequence becomes U+FFFD.
pub uninterp spec fn utf8_lossy(bytes: Seq<u8>) -> Seq<char>;

/// Calls `String::from_utf8_lossy` (std). The contract claims that its result is
/// `utf8_lossy` of the bytes, and, as std documents, that bytes which are valid UTF-8
/// are decoded without replacement.
#[verifier::external_body]
pub fn lossy_string(bytes: &[u8]) -> (res: String)
    ensures
        res@ == utf8_lossy(bytes@),
        valid_utf8(bytes@) ==> res@ == decode_utf8(bytes@),
{
    String::from_utf8_lossy(bytes).into_owned()
}

/// What `String::from_utf8_lossy` makes of bytes, as far as std documents it: valid
/// UTF-8 is decoded as it stands; anything else is `utf8_lossy` of the bytes.
pub open spec fn lossy_text(bytes: Seq<u8>) -> Seq<char> {
    if valid_utf8(bytes) {
        decode_utf8(bytes)
    } else {
        utf8_lossy(bytes)
    }
}

/// ASCII case folding of one byte.
pub open spec fn ascii_lower(b: u8) -> u8 {
    if 0x41 <= b <= 0x5a { (b + 0x20) as u8 } else { b }
}

/// Two byte strings are equal when ASCII letters are compared without case.
pub open spec fn eq_ignore_ascii_case(a: Seq<u8>, b: Seq<u8>) -> bool {
    a.len() == b.len() && forall|i: int| 0 <= i < a.len() ==> ascii_lower(#[trigger] a[i]) == ascii_lower(b[i])
}

/// Lowercases an ASCII letter and leaves every other byte unchanged.
pub fn to_ascii_lower(b: u8) -> (r: u8)
    ensures
        r == ascii_lower(b),
{
    if 0x41 <= b && b <= 0x5a { b + 0x20 } else { b }
}

/// Compares two byte strings, ignoring the case of ASCII letters.
pub fn bytes_eq_ignore_ascii_case(a: &[u8], b: &[u8]) -> (r: bool)
    ensures
        r == eq_ignore_ascii_case(a@, b@),
{
    if a.len() != b.len() {
        return false;
    }
    let mut i: usize = 0;
    while i < a.len()
        invariant
            a@.len() == b@.len(),
            0 <= i <= a@.len(),
            forall|j: int| 0 <= j < i ==> ascii_lower(#[trigger] a@[j]) == ascii_lower(b@[j]),
        decreases a@.len() - i,
    {
        if to_ascii_lower(a[i]) != to_ascii_lower(b[i]) {
            return false;
        }
        i += 1;
    }
    true
}

/// Compares two byte strings exactly.
pub fn bytes_eq(a: &[u8], b: &[u8]) -> (r: bool)
    ensures
        r == (a@ == b@),
{
    if a.len() != b.len() {
        return false;
    }
    let mut i: usize = 0;
    while i < a.len()
        invariant
            a@.len() == b@.len(),
            0 <= i <= a@.len(),
            forall|j: int| 0 <= j < i ==> a@[j] == b@[j],
        decreases a@.len() - i,
    {
        if a[i] != b[i] {
            return false;
        }
        i += 1;
    }
    assert(a@ =~= b@);
    true
}

/// Copies a byte slice into a new vector.
pub fn bytes_to_vec(a: &[u8]) -> (r: Vec<u8>)
    ensures
        r@ == a@,
{
    let mut v: Vec<u8> = Vec::new();
    let mut i: usize = 0;
    while i < a.len()
        invariant
            0 <= i <= a@.len(),
            v@ == a@.subrange(0, i as int),
        decreases a@.len() - i,
    {
        v.push(a[i]);
        i += 1;
        assert(v@ =~= a@.subrange(0, i as int));
    }
    assert(a@.subrange(0, a@.len() as int) =~= a@);
    v
}

/// The index of the first `c` in `s`, or the length of `s` when there is none.
pub open spec fn find_byte(s: Seq<u8>, c: u8) -> nat
    decreases s.len(),
{
    if s.len() == 0 {
        0
    } else if s[0] == c {
        0
    } else {
        1 + find_byte(s.drop_first(), c)
    }
}

/// `find_byte` is the first index that holds `c`.
pub proof fn lemma_find_byte(s: Seq<u8>, c: u8)
    ensures
        find_byte(s, c) <= s.len(),
        find_byte(s, c) < s.len() ==> s[find_byte(s, c) as int] == c,
        forall|j: int| 0 <= j < find_byte(s, c) ==> s[j] != c,
    decreases s.len(),
{
    if s.len() > 0 && s[0] != c {
        lemma_find_byte(s.drop_first(), c);
        assert forall|j: int| 0 <= j < find_byte(s, c) implies s[j] != c by {
            if j > 0 {
                assert(s[j] == s.drop_first()[j - 1]);
            }
        }
    }
}

/// An index with no `c` before it, that holds `c` or ends `s`, is `find_byte`.
pub proof fn lemma_find_byte_unique(s: Seq<u8>, c: u8, k: int)
    requires
        0 <= k <= s.len(),
        k < s.len() ==> s[k] == c,
        forall|j: int| 0 <= j < k ==> s[j] != c,
    ensures
        find_byte(s, c) == k,
    decreases s.len(),
{
    if s.len() > 0 && k > 0 {
        let t = s.drop_first();
        assert forall|j: int| 0 <= j < k - 1 implies t[j] != c by {
            assert(t[j] == s[j + 1]);
        }
        lemma_find_byte_unique(t, c, k - 1);
    }
}

/// Finds the first `c` in `s`; returns the length of `s` when there is none.
pub fn find_byte_index(s: &[u8], c: u8) -> (r: usize)
    ensures
        r == find_byte(s@, c),
        r <= s@.len(),
{
    let mut i: usize = 0;
    while i < s.len()
        invariant
            0 <= i <= s@.len(),
            forall|j: int| 0 <= j < i ==> s@[j] != c,
        decreases s@.len() - i,
    {
        if s[i] == c {
            proof {
                lemma_find_byte_unique(s@, c, i as int);
            }
            return i;
        }
        i += 1;
    }
    proof {
        lemma_find_byte_unique(s@, c, i as int);
    }
    i
}

/// The part of `s` before the first `c` and the part after it; without a `c`, all of
/// `s` and nothing.
pub open spec fn split_once(s: Seq<u8>, c: u8) -> (Seq<u8>, Seq<u8>) {
    let i = find_byte(s, c);
    if i < s.len() {
        (s.subrange(0, i as int), s.subrange(i as int + 1, s.len() as int))
    } else {
        (s, Seq::empty())
    }
}

/// Compares two strings character by character.
pub fn text_eq(a: &str, b: &str) -> (r: bool)
    ensures
        r == (a@ == b@),
{
    let r = bytes_eq(a.as_bytes(), b.as_bytes());
    proof {
        vstd::utf8::encode_utf8_decode_utf8(a@);
        vstd::utf8::encode_utf8_decode_utf8(b@);
    }
    r
}

/// Calls `std::ptr::addr_eq` on two byte slices: whether they start at the same address,
/// whatever their lengths. The contract claims only what follows from that: the bytes
/// both slices cover are the same bytes.
#[verifier::external_body]
pub fn same_start(a: &[u8], b: &[u8]) -> (r: bool)
    ensures
        r ==> forall|i: int| 0 <= i < a@.len() && i < b@.len() ==> a@[i] == b@[i],
{
    std::ptr::addr_eq(a, b)
}

/// The bytes of `buf` from `pos` on (none when `pos` lies past the end).
pub fn tail_from(buf: &[u8], pos: usize) -> (r: &[u8])
    ensures
        pos <= buf@.len() ==> r@ == buf@.subrange(pos as int, buf@.len() as int),
        pos > buf@.len() ==> r@.len() == 0,
{
    if pos <= buf.len() {
        vstd::slice::slice_subrange(buf, pos, buf.len())
    } else {
        vstd::slice::slice_subrange(buf, buf.len(), buf.len())
    }
}

/// The decimal digits of `n`, most significant first, without leading zeros.
pub open spec fn decimal(n: nat) -> Seq<u8>
    decreases n,
{
    if n < 10 {
        seq![(0x30 + n) as u8]
    } else {
        decimal(n / 10).push((0x30 + n % 10) as u8)
    }
}

/// Writes `n` in decimal.
pub fn decimal_bytes(n: u64) -> (r: Vec<u8>)
    ensures
        r@ == decimal(n as nat),
    decreases n,
{
    if n < 10 {
        let mut v: Vec<u8> = Vec::new();
        v.push(0x30u8 + (n as u8));
        v
    } else {
        let mut v = decimal_bytes(n / 10);
        v.push(0x30u8 + ((n % 10) as u8));
        v
    }
}

/// Appends the bytes of `src` to `dst`.
pub fn append_bytes(dst: &mut Vec<u8>, src: &[u8])
    ensures
        final(dst)@ == old(dst)@ + src@,
{
    let mut i: usize = 0;
    while i < src.len()
        invariant
            0 <= i <= src@.len(),
            dst@ == old(dst)@ + src@.subrange(0, i as int),
        decreases src@.len() - i,
    {
        dst.push(src[i]);
        i += 1;
        assert(dst@ =~= old(dst)@ + src@.subrange(0, i as int));
    }
    assert(src@.subrange(0, src@.len() as int) =~= src@);
}

/// Whether `s` begins with `prefix`.
pub open spec fn starts_with(s: Seq<u8>, prefix: Seq<u8>) -> bool {
    prefix.len() <= s.len() && s.subrange(0, prefix.len() as int) == prefix
}

/// Tests whether `s` begins with `prefix`.
pub fn bytes_starts_with(s: &[u8], prefix: &[u8]) -> (r: bool)
    ensures
        r == starts_with(s@, prefix@),
{
    if prefix.len() > s.len() {
        return false;
    }
    let head = vstd::slice::slice_subrange(s, 0, prefix.len());
    bytes_eq(head, prefix)
}

/// Calls `std::str::from_utf8` and reports whether it succeeds: as std documents, it
/// succeeds exactly when the bytes are valid UTF-8.
#[verifier::external_body]
pub fn is_valid_utf8(bytes: &[u8]) -> (r: bool)
    ensures
        r == valid_utf8(bytes@),
{
    std::str::from_utf8(bytes).is_ok()
}

} // verus!
