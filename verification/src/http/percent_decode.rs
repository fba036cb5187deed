//! Percent-decoding of URL components.
use vstd::prelude::*;
use vstd::utf8::*;
use vstd::string::StringSliceAdditionalSpecFns;
use crate::text::{lossy_string, lossy_text, utf8_lossy};

verus! {

/// The value of an ASCII hexadecimal digit.
pub open spec fn hex_digit(b: u8) -> Option<u8> {
    if 0x30 <= b <= 0x39 {
        Some((b - 0x30) as u8)
    } else if 0x61 <= b <= 0x66 {
        Some((b - 0x61 + 10) as u8)
    } else if 0x41 <= b <= 0x46 {
        Some((b - 0x41 + 10) as u8)
    } else {
        None
    }
}

/// A `%` at index `i` followed by two hexadecimal digits.
pub open spec fn is_escape_at(s: Seq<u8>, i: int) -> bool {
    &&& 0 <= i
    &&& i + 2 < s.len()
    &&& s[i] == 0x25
    &&& hex_digit(s[i + 1]) is Some
    &&& hex_digit(s[i + 2]) is Some
}

/// The byte that the escape `%hl` stands for.
pub open spec fn escape_value(h: u8, l: u8) -> u8 {
    (hex_digit(h).unwrap() * 16 + hex_digit(l).unwrap()) as u8
}

/// A byte that starts a decoding step: `%`, and `+` when it stands for a space.
pub open spec fn is_special(b: u8, plus_to_space: bool) -> bool {
    b == 0x25 || (plus_to_space && b == 0x2b)
}

/// Percent-decoding of a byte string, read from the front: `%hl` with two hex digits
/// becomes one byte, `+` becomes a space when `plus_to_space` holds, and every other
/// byte (a `%` that starts no escape among them) stays as it is.
pub open spec fn percent_decode_bytes(s: Seq<u8>, plus_to_space: bool) -> Seq<u8>
    decreases s.len(),
{
    if s.len() == 0 {
        Seq::empty()
    } else if plus_to_space && s[0] == 0x2b {
        seq![0x20u8] + percent_decode_bytes(s.drop_first(), plus_to_space)
    } else if is_escape_at(s, 0) {
        seq![escape_value(s[1], s[2])] + percent_decode_bytes(s.subrange(3, s.len() as int), plus_to_space)
    } else {
        seq![s[0]] + percent_decode_bytes(s.drop_first(), plus_to_space)
    }
}

/// The text that decoding gives: the input itself when decoding changes no byte, and
/// otherwise the decoded bytes read as UTF-8 with invalid sequences replaced.
pub open spec fn decoded_text(text: Seq<char>, plus_to_space: bool) -> Seq<char> {
    let bytes = encode_utf8(text);
    let d = percent_decode_bytes(bytes, plus_to_space);
    if d == bytes {
        text
    } else {
        lossy_text(d)
    }
}

/// Without `%` (and without `+` when it stands for a space), decoding changes nothing.
pub proof fn lemma_decode_no_special(s: Seq<u8>, plus_to_space: bool)
    requires
        forall|j: int| 0 <= j < s.len() ==> !is_special(#[trigger] s[j], plus_to_space),
    ensures
        percent_decode_bytes(s, plus_to_space) == s,
    decreases s.len(),
{
    if s.len() > 0 {
        assert(!is_special(s[0], plus_to_space));
        let t = s.drop_first();
        assert forall|j: int| 0 <= j < t.len() implies !is_special(#[trigger] t[j], plus_to_space) by {
            assert(t[j] == s[j + 1]);
        }
        lemma_decode_no_special(t, plus_to_space);
        assert(s =~= seq![s[0]] + t);
    }
}

/// A text with each `+` turned into a space.
pub open spec fn plus_as_space(s: Seq<char>) -> Seq<char> {
    s.map_values(|c: char| if c == '+' { ' ' } else { c })
}

/// Bytes with each `+` turned into a space.
pub open spec fn plus_as_space_bytes(b: Seq<u8>) -> Seq<u8> {
    b.map_values(|x: u8| if x == 0x2b { 0x20u8 } else { x })
}

/// Decoding never lengthens the bytes.
proof fn lemma_decode_len(b: Seq<u8>, plus_to_space: bool)
    ensures
        percent_decode_bytes(b, plus_to_space).len() <= b.len(),
    decreases b.len(),
{
    if b.len() > 0 {
        lemma_decode_len(b.drop_first(), plus_to_space);
        if b.len() >= 3 {
            lemma_decode_len(b.subrange(3, b.len() as int), plus_to_space);
        }
    }
}

/// Decoding `+` as a space is decoding after turning each `+` into a space.
proof fn lemma_decode_plus_bytes(b: Seq<u8>)
    ensures
        percent_decode_bytes(b, true) == percent_decode_bytes(plus_as_space_bytes(b), false),
    decreases b.len(),
{
    let r = plus_as_space_bytes(b);
    if b.len() > 0 {
        assert(r.drop_first() =~= plus_as_space_bytes(b.drop_first()));
        lemma_decode_plus_bytes(b.drop_first());
        if b.len() >= 3 {
            assert(r.subrange(3, r.len() as int) =~= plus_as_space_bytes(b.subrange(3, b.len() as int)));
            lemma_decode_plus_bytes(b.subrange(3, b.len() as int));
        }
        assert(is_escape_at(r, 0) == (b[0] != 0x2b && is_escape_at(b, 0)));
    } else {
        assert(r =~= Seq::<u8>::empty());
    }
}

/// When decoding (with `+` as a space) leaves the bytes as they are, they hold no `+`.
proof fn lemma_unchanged_has_no_plus(b: Seq<u8>)
    requires
        percent_decode_bytes(b, true) == b,
    ensures
        forall|j: int| 0 <= j < b.len() ==> b[j] != 0x2b,
    decreases b.len(),
{
    if b.len() > 0 {
        let d = percent_decode_bytes(b, true);
        if b[0] == 0x2b {
            assert(d[0] == 0x20u8);
        } else if is_escape_at(b, 0) {
            lemma_decode_len(b.subrange(3, b.len() as int), true);
            assert(d.len() < b.len());
        } else {
            let t = b.drop_first();
            assert(d =~= seq![b[0]] + percent_decode_bytes(t, true));
            assert(percent_decode_bytes(t, true) =~= d.drop_first());
            assert(t =~= b.drop_first());
            lemma_unchanged_has_no_plus(t);
            assert forall|j: int| 0 <= j < b.len() implies b[j] != 0x2b by {
                if j > 0 {
                    assert(b[j] == t[j - 1]);
                }
            }
        }
    }
}

/// The UTF-8 encoding of a character other than `+` holds no `+` byte.
proof fn lemma_scalar_no_plus(u: u32)
    requires
        is_scalar(u),
        u != 0x2b,
    ensures
        forall|j: int| 0 <= j < encode_scalar(u).len() ==> encode_scalar(u)[j] != 0x2b,
{
    assert(has_width_1_encoding(u) && u != 0x2b ==> leading_byte_width_1(u) != 0x2b) by (bit_vector);
    assert(leading_byte_width_2(u) != 0x2b) by (bit_vector);
    assert(leading_byte_width_3(u) != 0x2b) by (bit_vector);
    assert(leading_byte_width_4(u) != 0x2b) by (bit_vector);
    assert(last_continuation_byte(u) != 0x2b) by (bit_vector);
    assert(second_last_continuation_byte(u) != 0x2b) by (bit_vector);
    assert(third_last_continuation_byte(u) != 0x2b) by (bit_vector);
}

/// Turning `+` into a space commutes with UTF-8 encoding.
proof fn lemma_encode_plus_as_space(s: Seq<char>)
    ensures
        encode_utf8(plus_as_space(s)) == plus_as_space_bytes(encode_utf8(s)),
    decreases s.len(),
{
    let t = plus_as_space(s);
    if s.len() > 0 {
        assert(t.drop_first() =~= plus_as_space(s.drop_first()));
        lemma_encode_plus_as_space(s.drop_first());
        let u = s[0] as u32;
        char_is_scalar(s[0]);
        let e = encode_scalar(u);
        let rest = encode_utf8(s.drop_first());
        assert(plus_as_space_bytes(e + rest) =~= plus_as_space_bytes(e) + plus_as_space_bytes(rest));
        if s[0] == '+' {
            assert(u == 0x2b);
            assert(t[0] as u32 == 0x20);
            assert(leading_byte_width_1(0x2bu32) == 0x2b) by (bit_vector);
            assert(leading_byte_width_1(0x20u32) == 0x20) by (bit_vector);
            assert(plus_as_space_bytes(e) =~= encode_scalar(t[0] as u32));
        } else {
            assert(t[0] == s[0]);
            assert(u != 0x2b) by {
                char_u32_cast(s[0], u);
                if u == 0x2b {
                    assert((0x2bu32 as char) == '+');
                }
            }
            lemma_scalar_no_plus(u);
            assert(plus_as_space_bytes(e) =~= e);
        }
    } else {
        assert(t =~= Seq::<char>::empty());
    }
}

/// Decoding a query component is decoding it, with `+` left alone, after each `+` has
/// become a space.
pub proof fn lemma_decode_query_is_decode_with_spaces(s: Seq<char>)
    ensures
        decoded_text(s, true) == decoded_text(plus_as_space(s), false),
{
    let t = plus_as_space(s);
    let b = encode_utf8(s);
    let c = encode_utf8(t);
    lemma_encode_plus_as_space(s);
    lemma_decode_plus_bytes(b);
    let d = percent_decode_bytes(b, true);
    assert(d == percent_decode_bytes(c, false));
    encode_utf8_decode_utf8(s);
    encode_utf8_decode_utf8(t);
    encode_utf8_valid_utf8(t);
    if c == b {
        assert(t == s);
    } else {
        if d == b {
            lemma_unchanged_has_no_plus(b);
            assert(c =~= b);
        }
    }
}

/// One step of decoding at the front of `b.subrange(i, ..)`.
proof fn lemma_decode_step(b: Seq<u8>, i: int, plus_to_space: bool)
    requires
        0 <= i < b.len(),
    ensures
        ({
            let s = b.subrange(i, b.len() as int);
            &&& plus_to_space && b[i] == 0x2b ==> percent_decode_bytes(s, plus_to_space)
                == seq![0x20u8] + percent_decode_bytes(b.subrange(i + 1, b.len() as int), plus_to_space)
            &&& !(plus_to_space && b[i] == 0x2b) && is_escape_at(b, i) ==> percent_decode_bytes(s, plus_to_space)
                == seq![escape_value(b[i + 1], b[i + 2])] + percent_decode_bytes(b.subrange(i + 3, b.len() as int), plus_to_space)
            &&& !(plus_to_space && b[i] == 0x2b) && !is_escape_at(b, i) ==> percent_decode_bytes(s, plus_to_space)
                == seq![b[i]] + percent_decode_bytes(b.subrange(i + 1, b.len() as int), plus_to_space)
        }),
{
    let s = b.subrange(i, b.len() as int);
    assert(s[0] == b[i]);
    assert(s.drop_first() =~= b.subrange(i + 1, b.len() as int));
    if s.len() >= 3 {
        assert(s[1] == b[i + 1]);
        assert(s[2] == b[i + 2]);
        assert(s.subrange(3, s.len() as int) =~= b.subrange(i + 3, b.len() as int));
    }
    assert(is_escape_at(s, 0) == is_escape_at(b, i));
}

/// The value of a hexadecimal digit, or `0xFF` for any other byte.
fn hex_value(b: u8) -> (r: u8)
    ensures
        hex_digit(b) is Some ==> r == hex_digit(b).unwrap() && r < 16,
        hex_digit(b) is None ==> r == 0xFF,
{
    if 0x30u8 <= b && b <= 0x39u8 {
        b - 0x30u8
    } else if 0x61u8 <= b && b <= 0x66u8 {
        b - 0x61u8 + 10
    } else if 0x41u8 <= b && b <= 0x46u8 {
        b - 0x41u8 + 10
    } else {
        0xFF
    }
}

/// Finds the first byte that starts a decoding step.
fn scan(s: &[u8], plus_to_space: bool) -> (r: Option<usize>)
    ensures
        match r {
            Some(i) => i < s@.len() && is_special(s@[i as int], plus_to_space) && forall|j: int|
                0 <= j < i ==> !is_special(#[trigger] s@[j], plus_to_space),
            None => forall|j: int| 0 <= j < s@.len() ==> !is_special(#[trigger] s@[j], plus_to_space),
        },
{
    let mut i: usize = 0;
    while i < s.len()
        invariant
            0 <= i <= s@.len(),
            forall|j: int| 0 <= j < i ==> !is_special(#[trigger] s@[j], plus_to_space),
        decreases s@.len() - i,
    {
        let b = s[i];
        if b == 0x25u8 || (plus_to_space && b == 0x2bu8) {
            return Some(i);
        }
        i += 1;
    }
    None
}

/// Decodes `bytes` from `start_index` on; the bytes before it start no decoding step.
///
/// Returns the decoded bytes and whether any byte changed.
fn decode_internal(bytes: &[u8], start_index: usize, plus_to_space: bool) -> (res: (Vec<u8>, bool))
    requires
        start_index <= bytes@.len(),
        forall|j: int| 0 <= j < start_index ==> !is_special(#[trigger] bytes@[j], plus_to_space),
    ensures
        res.0@ == percent_decode_bytes(bytes@, plus_to_space),
        res.1 == (res.0@ != bytes@),
{
    let ghost b = bytes@;
    let mut decoded: Vec<u8> = Vec::with_capacity(bytes.len());
    let mut i: usize = 0;
    assert(b.subrange(0, b.len() as int) =~= b);

    // Copy the part that needs no decoding.
    while i < start_index
        invariant
            b == bytes@,
            start_index <= b.len(),
            forall|j: int| 0 <= j < start_index ==> !is_special(#[trigger] b[j], plus_to_space),
            i <= start_index,
            decoded@ == b.subrange(0, i as int),
            decoded@ + percent_decode_bytes(b.subrange(i as int, b.len() as int), plus_to_space)
                == percent_decode_bytes(b, plus_to_space),
        decreases start_index - i,
    {
        proof {
            lemma_decode_step(b, i as int, plus_to_space);
            assert(!is_special(b[i as int], plus_to_space));
        }
        decoded.push(bytes[i]);
        i += 1;
        proof {
            assert(decoded@ =~= b.subrange(0, i as int));
            assert(decoded@ + percent_decode_bytes(b.subrange(i as int, b.len() as int), plus_to_space)
                =~= percent_decode_bytes(b, plus_to_space));
        }
    }

    let mut changed = false;
    while i < bytes.len()
        invariant
            b == bytes@,
            i <= b.len(),
            decoded@.len() <= i,
            decoded@ + percent_decode_bytes(b.subrange(i as int, b.len() as int), plus_to_space)
                == percent_decode_bytes(b, plus_to_space),
            !changed ==> decoded@ == b.subrange(0, i as int),
            changed ==> (decoded@.len() < i || exists|k: int|
                0 <= k < decoded@.len() && decoded@[k] != b[k]),
        decreases b.len() - i,
    {
        proof {
            lemma_decode_step(b, i as int, plus_to_space);
        }
        let ghost old_decoded = decoded@;
        let c = bytes[i];
        if c == 0x2bu8 && plus_to_space {
            decoded.push(0x20u8);
            i += 1;
            proof {
                if !changed {
                    assert(decoded@[old_decoded.len() as int] != b[old_decoded.len() as int]);
                } else if old_decoded.len() < i - 1 {
                } else {
                    let k = choose|k: int| 0 <= k < old_decoded.len() && old_decoded[k] != b[k];
                    assert(decoded@[k] != b[k]);
                }
            }
            changed = true;
        } else if c == 0x25u8 && bytes.len() - i > 2 && hex_value(bytes[i + 1]) != 0xFF && hex_value(bytes[i + 2]) != 0xFF {
            let h = hex_value(bytes[i + 1]);
            let l = hex_value(bytes[i + 2]);
            assert((h << 4u8) | l == h * 16 + l) by (bit_vector)
                requires
                    h < 16,
                    l < 16,
            ;
            decoded.push((h << 4) | l);
            i += 3;
            proof {
                assert(is_escape_at(b, i - 3));
                if changed && old_decoded.len() >= i - 3 {
                    let k = choose|k: int| 0 <= k < old_decoded.len() && old_decoded[k] != b[k];
                    assert(decoded@[k] != b[k]);
                }
            }
            changed = true;
        } else {
            proof {
                if c == 0x25u8 {
                    assert(!is_escape_at(b, i as int));
                }
            }
            decoded.push(c);
            i += 1;
            proof {
                if !changed {
                    assert(decoded@ =~= b.subrange(0, i as int));
                } else if old_decoded.len() < i - 1 {
                } else {
                    let k = choose|k: int| 0 <= k < old_decoded.len() && old_decoded[k] != b[k];
                    assert(decoded@[k] != b[k]);
                }
            }
        }
        proof {
            assert(decoded@ + percent_decode_bytes(b.subrange(i as int, b.len() as int), plus_to_space)
                =~= percent_decode_bytes(b, plus_to_space));
        }
    }
    proof {
        assert(b.subrange(i as int, b.len() as int) =~= Seq::<u8>::empty());
        assert(decoded@ + Seq::<u8>::empty() =~= decoded@);
        if changed && decoded@.len() == b.len() {
            let k = choose|k: int| 0 <= k < decoded@.len() && decoded@[k] != b[k];
            assert(decoded@[k] != b[k]);
        }
    }
    (decoded, changed)
}

/// Decodes a string from `start_index` on; the bytes before it start no decoding step.
fn decode_str_from(s: &str, start_index: usize, plus_to_space: bool) -> (res: String)
    requires
        start_index <= s.spec_bytes().len(),
        forall|j: int| 0 <= j < start_index ==> !is_special(#[trigger] s.spec_bytes()[j], plus_to_space),
    ensures
        res@ == decoded_text(s@, plus_to_space),
{
    let (decoded, changed) = decode_internal(s.as_bytes(), start_index, plus_to_space);
    if !changed {
        return s.to_owned();
    }
    lossy_string(decoded.as_slice())
}

/// Percent-decodes a byte string (with `+` as a space when `plus_to_space` holds) and
/// reads the result as UTF-8, replacing invalid sequences.
pub fn decode_bytes_lossy(bytes: &[u8], plus_to_space: bool) -> (res: String)
    ensures
        res@ == utf8_lossy(percent_decode_bytes(bytes@, plus_to_space)),
{
    let (decoded, _changed) = decode_internal(bytes, 0, plus_to_space);
    lossy_string(decoded.as_slice())
}

/// Decodes percent-encoded characters (`%hl`); `+` is left as it is.
///
/// When the text needs no decoding it is returned unchanged.
pub fn decode(s: &str) -> (res: String)
    ensures
        res@ == decoded_text(s@, false),
{
    match scan(s.as_bytes(), false) {
        Some(i) => decode_str_from(s, i, false),
        None => {
            proof {
                lemma_decode_no_special(s.spec_bytes(), false);
            }
            s.to_owned()
        },
    }
}

/// Decodes percent-encoded characters and turns `+` into a space, as query strings
/// are written.
///
/// When the text needs no decoding it is returned unchanged.
pub fn decode_query(s: &str) -> (res: String)
    ensures
        res@ == decoded_text(s@, true),
{
    match scan(s.as_bytes(), true) {
        Some(i) => decode_str_from(s, i, true),
        None => {
            proof {
                lemma_decode_no_special(s.spec_bytes(), true);
            }
            s.to_owned()
        },
    }
}

} // verus!
