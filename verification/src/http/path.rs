//! Iterating over the segments of a request path.
//!
//! Each segment keeps its leading `/`: `/path/to/somewhere` gives `/path`, `/to` and
//! `/somewhere`. Segments are percent-decoded (a `+` stays a `+`).
use vstd::prelude::*;
use vstd::string::StringSliceAdditionalSpecFns;
use std::cmp::Ordering;
use crate::text::{find_byte, find_byte_index, lemma_find_byte, same_start, tail_from, utf8_lossy};
use crate::http::params::{ordered_as_suffix, suffix_order};
use crate::http::percent_decode::{percent_decode_bytes, decode_bytes_lossy};

verus! {

/// The `/` byte.
pub open spec fn slash() -> u8 { 0x2f }

/// The length of the first segment of a non-empty path: up to, not including, the next
/// `/` after its first byte.
pub open spec fn first_segment_len(r: Seq<u8>) -> nat {
    1 + find_byte(r.drop_first(), slash())
}

/// The raw (undecoded) segments of a path, in order.
pub open spec fn raw_segments(r: Seq<u8>) -> Seq<Seq<u8>>
    decreases r.len(),
{
    if r.len() == 0 {
        Seq::empty()
    } else {
        proof {
            lemma_find_byte(r.drop_first(), slash());
        }
        let n = first_segment_len(r) as int;
        seq![r.subrange(0, n)] + raw_segments(r.subrange(n, r.len() as int))
    }
}

/// The decoded segments of a path, in order.
pub open spec fn path_segments(r: Seq<u8>) -> Seq<Seq<char>>
    decreases r.len(),
{
    if r.len() == 0 {
        Seq::empty()
    } else {
        proof {
            lemma_find_byte(r.drop_first(), slash());
        }
        let n = first_segment_len(r) as int;
        seq![utf8_lossy(percent_decode_bytes(r.subrange(0, n), false))] + path_segments(r.subrange(n, r.len() as int))
    }
}

/// Joins byte strings end to end.
pub open spec fn concat_all(parts: Seq<Seq<u8>>) -> Seq<u8>
    decreases parts.len(),
{
    if parts.len() == 0 {
        Seq::empty()
    } else {
        parts[0] + concat_all(parts.drop_first())
    }
}

/// Splitting a path into segments loses no byte: the raw segments joined give the
/// path back.
pub proof fn lemma_segments_join(r: Seq<u8>)
    ensures
        concat_all(raw_segments(r)) == r,
    decreases r.len(),
{
    if r.len() > 0 {
        lemma_find_byte(r.drop_first(), slash());
        let n = first_segment_len(r) as int;
        let rest = r.subrange(n, r.len() as int);
        lemma_segments_join(rest);
        let segs = raw_segments(r);
        assert(segs.drop_first() =~= raw_segments(rest));
        assert(r.subrange(0, n) + rest =~= r);
    }
}

/// Every raw segment but possibly the first starts with `/`, and none holds a `/`
/// after its first byte.
pub proof fn lemma_segments_shape(r: Seq<u8>, i: int)
    requires
        0 <= i < raw_segments(r).len(),
    ensures
        raw_segments(r)[i].len() > 0,
        i > 0 ==> raw_segments(r)[i][0] == slash(),
        forall|j: int| 0 < j < raw_segments(r)[i].len() ==> raw_segments(r)[i][j] != slash(),
    decreases r.len(),
{
    lemma_find_byte(r.drop_first(), slash());
    let n = first_segment_len(r) as int;
    let rest = r.subrange(n, r.len() as int);
    let seg = r.subrange(0, n);
    assert forall|j: int| 0 < j < seg.len() implies seg[j] != slash() by {
        assert(seg[j] == r.drop_first()[j - 1]);
    }
    if i > 0 {
        assert(raw_segments(r)[i] == raw_segments(rest)[i - 1]);
        if i == 1 {
            if rest.len() > 0 {
                assert(rest[0] == r.drop_first()[n - 1]);
                lemma_find_byte(rest.drop_first(), slash());
                assert(raw_segments(rest)[0] == rest.subrange(0, first_segment_len(rest) as int));
            }
        }
        if i > 1 {
            lemma_segments_shape(rest, i - 1);
        } else {
            lemma_segments_shape(rest, 0);
        }
    }
}

/// Iterator over the percent-decoded segments of a path.
///
/// Two iterators compare by where their unread path starts in memory.
#[derive(Clone, Copy, Debug)]
pub struct PathIterator<'buf> {
    buf: &'buf [u8],
    pos: usize,
}

impl<'buf> PathIterator<'buf> {
    /// The part of the path not yet read.
    pub closed spec fn remainder(&self) -> Seq<u8> {
        self.buf@.subrange(self.pos as int, self.buf@.len() as int)
    }

    /// Position and path agree.
    pub closed spec fn wf(&self) -> bool {
        self.pos <= self.buf@.len()
    }

    /// Creates a new `PathIterator` from the given raw path string.
    pub fn new(input: &'buf str) -> (r: Self)
        ensures
            r.wf(),
            r.remainder() == input.spec_bytes(),
    {
        let buf = input.as_bytes();
        assert(buf@.subrange(0, buf@.len() as int) =~= buf@);
        Self { buf, pos: 0 }
    }

    /// Returns the next segment, decoded.
    pub fn next(&mut self) -> (r: Option<String>)
        requires
            old(self).wf(),
        ensures
            final(self).wf(),
            old(self).remainder().len() == 0 ==> r is None && final(self).remainder() == old(self).remainder(),
            old(self).remainder().len() > 0 ==> (r matches Some(s)
                && s@ == path_segments(old(self).remainder())[0]
                && path_segments(final(self).remainder()) == path_segments(old(self).remainder()).drop_first()
                && raw_segments(final(self).remainder()) == raw_segments(old(self).remainder()).drop_first()),
    {
        if self.pos >= self.buf.len() {
            return None;
        }
        let ghost rem = self.remainder();
        let after_first = vstd::slice::slice_subrange(self.buf, self.pos + 1, self.buf.len());
        let k = find_byte_index(after_first, 0x2f);
        let index = self.pos + 1 + k;
        let part = vstd::slice::slice_subrange(self.buf, self.pos, index);
        proof {
            assert(after_first@ =~= rem.drop_first());
            lemma_find_byte(rem.drop_first(), slash());
            assert(part@ =~= rem.subrange(0, first_segment_len(rem) as int));
        }
        self.pos = index;
        proof {
            assert(self.remainder() =~= rem.subrange(first_segment_len(rem) as int, rem.len() as int));
        }
        Some(decode_bytes_lossy(part, false))
    }
}

impl<'buf> PartialEq for PathIterator<'buf> {
    /// Iterators are equal when their unread path starts at the same address.
    fn eq(&self, other: &Self) -> (r: bool)
        ensures
            self.wf() && other.wf() && r ==> forall|i: int| 0 <= i < self.remainder().len()
                && i < other.remainder().len() ==> self.remainder()[i] == other.remainder()[i],
    {
        same_start(tail_from(self.buf, self.pos), tail_from(other.buf, other.pos))
    }
}

impl<'buf> vstd::std_specs::cmp::PartialEqSpecImpl for PathIterator<'buf> {
    /// Equality depends on where the path lies in memory, which no spec states.
    open spec fn obeys_eq_spec() -> bool {
        false
    }

    closed spec fn eq_spec(&self, other: &Self) -> bool {
        self.remainder() == other.remainder()
    }
}

impl<'buf> Eq for PathIterator<'buf> {}

impl<'buf> PartialOrd for PathIterator<'buf> {
    /// `Less` when `other` has read further through the same path, `Equal` at the same
    /// place with something left to read, and `None` otherwise (see `suffix_order`).
    fn partial_cmp(&self, other: &Self) -> (r: Option<Ordering>)
        ensures
            self.wf() && other.wf() ==> ordered_as_suffix(self.remainder(), other.remainder(), r),
    {
        suffix_order(tail_from(self.buf, self.pos), tail_from(other.buf, other.pos))
    }
}

impl<'buf> vstd::std_specs::cmp::PartialOrdSpecImpl for PathIterator<'buf> {
    /// The order depends on where the path lies in memory, which no spec states.
    open spec fn obeys_partial_cmp_spec() -> bool {
        false
    }

    open spec fn partial_cmp_spec(&self, other: &Self) -> Option<Ordering> {
        None
    }
}

} // verus!
