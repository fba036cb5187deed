//! Query parameters: the `Params` helper and its iterators.
//!
//! A query string is split at each `&` into parameters, and each parameter at its first
//! `=` into a name and a value. Names and values are percent-decoded, with `+` read as a
//! space, only after the splitting: an encoded `%26` stays inside its value.
use vstd::prelude::*;
use vstd::string::StringSliceAdditionalSpecFns;
use std::cmp::Ordering;
use crate::text::{find_byte, find_byte_index, lemma_find_byte, same_start, split_once, tail_from, text_eq, utf8_lossy};
use crate::http::percent_decode::{percent_decode_bytes, decode_bytes_lossy};

verus! {

/// The `&` byte that separates parameters.
pub open spec fn amp() -> u8 { 0x26 }

/// The `=` byte that separates a name from its value.
pub open spec fn eq_sign() -> u8 { 0x3d }

/// The decoded name and value of one parameter. A parameter without `=` has an empty
/// value.
pub open spec fn pair_text(seg: Seq<u8>) -> (Seq<char>, Seq<char>) {
    let (k, v) = split_once(seg, eq_sign());
    if find_byte(seg, eq_sign()) < seg.len() {
        (utf8_lossy(percent_decode_bytes(k, true)), utf8_lossy(percent_decode_bytes(v, true)))
    } else {
        (utf8_lossy(percent_decode_bytes(seg, true)), Seq::empty())
    }
}

/// All parameters of a query string, in order, as decoded name-value pairs.
pub open spec fn param_items(q: Seq<u8>) -> Seq<(Seq<char>, Seq<char>)>
    decreases q.len(),
{
    if q.len() == 0 {
        Seq::empty()
    } else {
        proof {
            lemma_find_byte(q, amp());
        }
        seq![pair_text(split_once(q, amp()).0)] + param_items(split_once(q, amp()).1)
    }
}

/// The decoded values of the parameters whose decoded name is `name`, in order.
pub open spec fn param_values(q: Seq<u8>, name: Seq<char>) -> Seq<Seq<char>>
    decreases q.len(),
{
    if q.len() == 0 {
        Seq::empty()
    } else {
        proof {
            lemma_find_byte(q, amp());
        }
        let p = pair_text(split_once(q, amp()).0);
        (if p.0 == name { seq![p.1] } else { Seq::empty() }) + param_values(split_once(q, amp()).1, name)
    }
}

/// The values of the pairs named `name`, in order.
pub open spec fn values_named(items: Seq<(Seq<char>, Seq<char>)>, name: Seq<char>) -> Seq<Seq<char>>
    decreases items.len(),
{
    if items.len() == 0 {
        Seq::empty()
    } else {
        (if items[0].0 == name { seq![items[0].1] } else { Seq::empty() }) + values_named(items.drop_first(), name)
    }
}

/// `Params::find(name)` yields exactly the values of the pairs that `Params::iter`
/// yields with that name, in the same order.
pub proof fn lemma_find_agrees_with_iter(q: Seq<u8>, name: Seq<char>)
    ensures
        param_values(q, name) == values_named(param_items(q), name),
    decreases q.len(),
{
    if q.len() > 0 {
        lemma_find_byte(q, amp());
        let rest = split_once(q, amp()).1;
        lemma_find_agrees_with_iter(rest, name);
        let items = param_items(q);
        assert(items.drop_first() =~= param_items(rest));
    }
}

/// Decodes one parameter into its name and value.
fn decode_pair(current: &[u8]) -> (r: (String, String))
    ensures
        (r.0@, r.1@) == pair_text(current@),
{
    let e = find_byte_index(current, 0x3d);
    if e < current.len() {
        let k = vstd::slice::slice_subrange(current, 0, e);
        let v = vstd::slice::slice_subrange(current, e + 1, current.len());
        (decode_bytes_lossy(k, true), decode_bytes_lossy(v, true))
    } else {
        (decode_bytes_lossy(current, true), String::new())
    }
}

/// Decodes the name of one parameter; also returns where its value starts, if it has
/// one.
fn decode_name(current: &[u8]) -> (r: (String, Option<usize>))
    ensures
        r.0@ == pair_text(current@).0,
        match r.1 {
            Some(e) => e < current@.len() && find_byte(current@, eq_sign()) == e,
            None => find_byte(current@, eq_sign()) == current@.len(),
        },
{
    let e = find_byte_index(current, 0x3d);
    if e < current.len() {
        let k = vstd::slice::slice_subrange(current, 0, e);
        (decode_bytes_lossy(k, true), Some(e))
    } else {
        (decode_bytes_lossy(current, true), None)
    }
}

/// Helper for reading the query parameters of a URL.
#[derive(Clone, Copy)]
pub struct Params<'buf> {
    params: &'buf [u8],
}

impl<'buf> Params<'buf> {
    /// The query string, as bytes.
    pub closed spec fn query(&self) -> Seq<u8> {
        self.params@
    }

    /// Creates a new `Params` helper from the query string.
    pub fn new(params: &'buf str) -> (r: Self)
        ensures
            r.query() == params.spec_bytes(),
    {
        Params { params: params.as_bytes() }
    }

    /// Creates a new `Params` helper from the query string, given as bytes.
    pub fn from_bytes(params: &'buf [u8]) -> (r: Self)
        ensures
            r.query() == params@,
    {
        Params { params }
    }

    /// Returns an iterator over the values of the parameters named `param`.
    pub fn find<'p>(&self, param: &'p str) -> (r: ParamIter<'buf, 'p>)
        ensures
            r.wf(),
            r.values() == param_values(self.query(), param@),
            r.spec_name() == param@,
    {
        ParamIter::new_from_bytes(self.params, param)
    }

    /// Returns an iterator over all name-value pairs.
    pub fn iter(&self) -> (r: AllParamIter<'buf>)
        ensures
            r.wf(),
            r.items() == param_items(self.query()),
    {
        AllParamIter::new_from_bytes(self.params)
    }
}

/// Iterator over all query parameters as name-value pairs.
///
/// Two iterators compare by where their unread text starts in memory.
#[derive(Clone, Copy, Debug)]
pub struct AllParamIter<'buf> {
    buf: &'buf [u8],
    pos: usize,
}

impl<'buf> AllParamIter<'buf> {
    /// The bytes not yet read.
    pub closed spec fn remaining_bytes(&self) -> Seq<u8> {
        self.buf@.subrange(self.pos as int, self.buf@.len() as int)
    }

    /// The pairs still to come.
    pub closed spec fn items(&self) -> Seq<(Seq<char>, Seq<char>)> {
        param_items(self.buf@.subrange(self.pos as int, self.buf@.len() as int))
    }

    /// Position and query string agree.
    pub closed spec fn wf(&self) -> bool {
        self.pos <= self.buf@.len()
    }

    /// Creates a new `AllParamIter` to iterate all parameters.
    pub fn new(params: &'buf str) -> (r: Self)
        ensures
            r.wf(),
            r.items() == param_items(params.spec_bytes()),
    {
        Self::new_from_bytes(params.as_bytes())
    }

    fn new_from_bytes(params: &'buf [u8]) -> (r: Self)
        ensures
            r.wf(),
            r.items() == param_items(params@),
    {
        assert(params@.subrange(0, params@.len() as int) =~= params@);
        Self { buf: params, pos: 0 }
    }

    /// Returns the next name-value pair, decoded.
    pub fn next(&mut self) -> (r: Option<(String, String)>)
        requires
            old(self).wf(),
        ensures
            final(self).wf(),
            old(self).items().len() == 0 ==> r is None && final(self).items() == old(self).items(),
            old(self).items().len() > 0 ==> (r matches Some((k, v)) && (k@, v@) == old(self).items()[0]
                && final(self).items() == old(self).items().drop_first()),
    {
        if self.pos >= self.buf.len() {
            return None;
        }
        let remaining = vstd::slice::slice_subrange(self.buf, self.pos, self.buf.len());
        let i = find_byte_index(remaining, 0x26);
        let current = vstd::slice::slice_subrange(remaining, 0, i);
        let ghost old_rest = split_once(remaining@, amp()).1;
        self.pos = if i < remaining.len() { self.pos + i + 1 } else { self.buf.len() };
        proof {
            lemma_find_byte(remaining@, amp());
            assert(current@ == split_once(remaining@, amp()).0);
            assert(self.buf@.subrange(self.pos as int, self.buf@.len() as int) =~= old_rest);
        }
        Some(decode_pair(current))
    }
}

/// What can be said of `suffix_order(a, b)` from the bytes alone: `None` when `b` is empty
/// or longer than `a`; otherwise, when it is `Some`, never `Greater`, `Equal` exactly when
/// the lengths agree, and `b` is the end part of `a`.
pub open spec fn ordered_as_suffix(a: Seq<u8>, b: Seq<u8>, r: Option<Ordering>) -> bool {
    &&& b.len() == 0 || b.len() > a.len() ==> r is None
    &&& r matches Some(o) ==> o != Ordering::Greater
        && (o == Ordering::Equal <==> a.len() == b.len())
        && b == a.skip(a.len() - b.len())
}

/// The order of two unread texts by where they start in memory, when they end at the same
/// address: `Some(Less)` when `b` is a shorter, non-empty end part of `a`, `Some(Equal)`
/// when both are the same non-empty text, and `None` otherwise: when `b` is empty or
/// longer than `a`, or they do not end together.
pub(crate) fn suffix_order(a: &[u8], b: &[u8]) -> (r: Option<Ordering>)
    ensures
        ordered_as_suffix(a@, b@, r),
{
    if b.len() == 0 || b.len() > a.len() {
        return None;
    }
    let tail = vstd::slice::slice_subrange(a, a.len() - b.len(), a.len());
    if !same_start(tail, b) {
        None
    } else {
        assert(tail@ =~= b@);
        if a.len() == b.len() {
            Some(Ordering::Equal)
        } else {
            Some(Ordering::Less)
        }
    }
}

impl<'buf> PartialEq for AllParamIter<'buf> {
    /// Iterators are equal when their unread text starts at the same address.
    fn eq(&self, other: &Self) -> (r: bool)
        ensures
            self.wf() && other.wf() && r ==> forall|i: int| 0 <= i < self.remaining_bytes().len()
                && i < other.remaining_bytes().len() ==> self.remaining_bytes()[i] == other.remaining_bytes()[i],
    {
        same_start(tail_from(self.buf, self.pos), tail_from(other.buf, other.pos))
    }
}

impl<'buf> vstd::std_specs::cmp::PartialEqSpecImpl for AllParamIter<'buf> {
    /// Equality depends on where the query string lies in memory, which no spec states.
    open spec fn obeys_eq_spec() -> bool {
        false
    }

    closed spec fn eq_spec(&self, other: &Self) -> bool {
        self.remaining_bytes() == other.remaining_bytes()
    }
}

impl<'buf> Eq for AllParamIter<'buf> {}

impl<'buf> PartialOrd for AllParamIter<'buf> {
    /// `Less` when `other` has read further through the same text, `Equal` at the same
    /// place with something left to read, and `None` otherwise (see `suffix_order`).
    fn partial_cmp(&self, other: &Self) -> (r: Option<Ordering>)
        ensures
            self.wf() && other.wf() ==> ordered_as_suffix(self.remaining_bytes(), other.remaining_bytes(), r),
    {
        suffix_order(tail_from(self.buf, self.pos), tail_from(other.buf, other.pos))
    }
}

impl<'buf> vstd::std_specs::cmp::PartialOrdSpecImpl for AllParamIter<'buf> {
    /// The order depends on where the query string lies in memory, which no spec states.
    open spec fn obeys_partial_cmp_spec() -> bool {
        false
    }

    open spec fn partial_cmp_spec(&self, other: &Self) -> Option<Ordering> {
        None
    }
}

/// Iterator over the values of one query parameter.
#[derive(Clone, Copy, Debug)]
pub struct ParamIter<'buf, 'param> {
    buf: &'buf [u8],
    pos: usize,
    filter: &'param str,
}

impl<'buf, 'param> ParamIter<'buf, 'param> {
    /// The bytes not yet read.
    pub closed spec fn remaining_bytes(&self) -> Seq<u8> {
        self.buf@.subrange(self.pos as int, self.buf@.len() as int)
    }

    /// The values still to come.
    pub closed spec fn values(&self) -> Seq<Seq<char>> {
        param_values(self.buf@.subrange(self.pos as int, self.buf@.len() as int), self.filter@)
    }

    /// The parameter name filtered for.
    pub closed spec fn spec_name(&self) -> Seq<char> {
        self.filter@
    }

    /// Position and query string agree.
    pub closed spec fn wf(&self) -> bool {
        self.pos <= self.buf@.len()
    }

    /// Creates a new `ParamIter` to filter the given query string by parameter name.
    pub fn new(params: &'buf str, filter: &'param str) -> (r: Self)
        ensures
            r.wf(),
            r.values() == param_values(params.spec_bytes(), filter@),
            r.spec_name() == filter@,
    {
        Self::new_from_bytes(params.as_bytes(), filter)
    }

    fn new_from_bytes(params: &'buf [u8], filter: &'param str) -> (r: Self)
        ensures
            r.wf(),
            r.values() == param_values(params@, filter@),
            r.spec_name() == filter@,
    {
        assert(params@.subrange(0, params@.len() as int) =~= params@);
        Self { buf: params, pos: 0, filter }
    }

    /// Returns the parameter name being filtered for.
    pub fn name(&self) -> (r: &'param str)
        ensures
            r@ == self.spec_name(),
    {
        self.filter
    }

    /// Returns the next value of a parameter with the name filtered for, decoded.
    pub fn next(&mut self) -> (r: Option<String>)
        requires
            old(self).wf(),
        ensures
            final(self).wf(),
            final(self).spec_name() == old(self).spec_name(),
            one_read(*old(self), *final(self)),
            old(self).values().len() == 0 ==> r is None && final(self).values() == old(self).values(),
            old(self).values().len() > 0 ==> (r matches Some(v) && v@ == old(self).values()[0]
                && final(self).values() == old(self).values().drop_first()),
    {
        let ghost vals = self.values();
        while self.pos < self.buf.len()
            invariant
                self.wf(),
                self.filter == old(self).filter,
                self.values() == vals,
                vals == old(self).values(),
            decreases self.buf@.len() - self.pos,
        {
            let remaining = vstd::slice::slice_subrange(self.buf, self.pos, self.buf.len());
            let i = find_byte_index(remaining, 0x26);
            let current = vstd::slice::slice_subrange(remaining, 0, i);
            let ghost old_rest = split_once(remaining@, amp()).1;
            self.pos = if i < remaining.len() { self.pos + i + 1 } else { self.buf.len() };
            proof {
                lemma_find_byte(remaining@, amp());
                assert(current@ == split_once(remaining@, amp()).0);
                assert(self.buf@.subrange(self.pos as int, self.buf@.len() as int) =~= old_rest);
            }
            let (name, value_start) = decode_name(current);
            proof {
                let p = pair_text(current@);
                assert(vals == (if p.0 == self.filter@ { seq![p.1] } else { Seq::empty() }) + self.values());
            }
            if text_eq(name.as_str(), self.filter) {
                match value_start {
                    Some(e) => {
                        let v = vstd::slice::slice_subrange(current, e + 1, current.len());
                        assert(v@ == split_once(current@, eq_sign()).1);
                        return Some(decode_bytes_lossy(v, true));
                    },
                    None => {
                        return Some(String::new());
                    },
                }
            }
            proof {
                assert(vals =~= Seq::<Seq<char>>::empty() + self.values());
            }
        }
        proof {
            assert(self.buf@.subrange(self.pos as int, self.buf@.len() as int) =~= Seq::<u8>::empty());
        }
        None
    }
}

/// `after` is what one call of `ParamIter::next` leaves of `before`: the same name, and
/// the values still to come less the first, if there was one.
pub open spec fn one_read<'buf, 'param>(before: ParamIter<'buf, 'param>, after: ParamIter<'buf, 'param>) -> bool {
    &&& after.wf()
    &&& after.spec_name() == before.spec_name()
    &&& after.values() =~= if before.values().len() == 0 { before.values() } else { before.values().drop_first() }
}

/// However many values are read, an iterator keeps the name it filters for: along any
/// chain of iterators each left by one call of `next` on the one before, every one has
/// the name of the first.
pub proof fn lemma_name_kept_across_reads<'buf, 'param>(its: Seq<ParamIter<'buf, 'param>>)
    requires
        forall|i: int| 0 <= i < its.len() - 1 ==> one_read(#[trigger] its[i], its[i + 1]),
    ensures
        forall|i: int| 0 <= i < its.len() ==> (#[trigger] its[i]).spec_name() == its[0].spec_name(),
    decreases its.len(),
{
    if its.len() > 1 {
        let front = its.drop_last();
        assert forall|i: int| 0 <= i < front.len() - 1 implies one_read(#[trigger] front[i], front[i + 1]) by {
            assert(front[i] == its[i] && front[i + 1] == its[i + 1]);
            assert(one_read(its[i], its[i + 1]));
        }
        lemma_name_kept_across_reads(front);
        assert forall|i: int| 0 <= i < its.len() implies (#[trigger] its[i]).spec_name() == its[0].spec_name() by {
            if i < its.len() - 1 {
                assert(its[i] == front[i]);
            } else {
                assert(one_read(its[i - 1], its[i]));
                assert(its[i - 1] == front[i - 1]);
            }
        }
    }
}

impl<'buf, 'param> PartialEq for ParamIter<'buf, 'param> {
    /// Iterators are equal when their unread text starts at the same address and they
    /// filter for the same name.
    fn eq(&self, other: &Self) -> (r: bool)
        ensures
            r ==> self.spec_name() == other.spec_name(),
            self.wf() && other.wf() && r ==> forall|i: int| 0 <= i < self.remaining_bytes().len()
                && i < other.remaining_bytes().len() ==> self.remaining_bytes()[i] == other.remaining_bytes()[i],
    {
        same_start(tail_from(self.buf, self.pos), tail_from(other.buf, other.pos)) && text_eq(self.filter, other.filter)
    }
}

impl<'buf, 'param> vstd::std_specs::cmp::PartialEqSpecImpl for ParamIter<'buf, 'param> {
    /// Equality depends on where the query string lies in memory, which no spec states.
    open spec fn obeys_eq_spec() -> bool {
        false
    }

    closed spec fn eq_spec(&self, other: &Self) -> bool {
        self.remaining_bytes() == other.remaining_bytes() && self.filter@ == other.filter@
    }
}

impl<'buf, 'param> Eq for ParamIter<'buf, 'param> {}

impl<'buf, 'param> PartialOrd for ParamIter<'buf, 'param> {
    /// `None` for iterators that filter for other names; otherwise `Less` when `other` has
    /// read further through the same text, `Equal` at the same place with something left
    /// to read, and `None` otherwise (see `suffix_order`).
    fn partial_cmp(&self, other: &Self) -> (r: Option<Ordering>)
        ensures
            self.spec_name() != other.spec_name() ==> r is None,
            self.wf() && other.wf() ==> ordered_as_suffix(self.remaining_bytes(), other.remaining_bytes(), r),
    {
        if !text_eq(self.filter, other.filter) {
            None
        } else {
            suffix_order(tail_from(self.buf, self.pos), tail_from(other.buf, other.pos))
        }
    }
}

impl<'buf, 'param> vstd::std_specs::cmp::PartialOrdSpecImpl for ParamIter<'buf, 'param> {
    /// The order depends on where the query string lies in memory, which no spec states.
    open spec fn obeys_partial_cmp_spec() -> bool {
        false
    }

    open spec fn partial_cmp_spec(&self, other: &Self) -> Option<Ordering> {
        None
    }
}

} // verus!
