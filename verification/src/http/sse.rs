//! Server-Sent Events: the event type and its wire format.
//!
//! An event is written as `id:`, `event:`, `data:` (one line per line of the data) and
//! `retry:` fields, each ending in `\n`, followed by an empty line.
use vstd::prelude::*;
use vstd::utf8::*;
use crate::text::{append_bytes, decimal, decimal_bytes, find_byte, find_byte_index, lemma_find_byte, lossy_string};

verus! {

/// The lines of a text: split at each `\n`; a `\r` just before a `\n` is dropped; a
/// final `\n` ends the last line rather than starting an empty one.
pub open spec fn lines(b: Seq<u8>) -> Seq<Seq<u8>>
    decreases b.len(),
{
    if b.len() == 0 {
        Seq::empty()
    } else {
        proof {
            lemma_find_byte(b, 0x0a);
        }
        let i = find_byte(b, 0x0a);
        if i < b.len() {
            let line = b.subrange(0, i as int);
            let line = if line.len() > 0 && line[line.len() - 1] == 0x0d { line.drop_last() } else { line };
            seq![line] + lines(b.subrange(i as int + 1, b.len() as int))
        } else {
            seq![b]
        }
    }
}

/// One `data: ` field per line.
pub open spec fn data_fields(ls: Seq<Seq<u8>>) -> Seq<u8>
    decreases ls.len(),
{
    if ls.len() == 0 {
        Seq::empty()
    } else {
        seq![0x64u8, 0x61, 0x74, 0x61, 0x3a, 0x20] + ls[0] + seq![0x0au8] + data_fields(ls.drop_first())
    }
}

/// The bytes of a serialized event.
pub open spec fn sse_bytes(id: Option<Seq<char>>, event: Option<Seq<char>>, data: Option<Seq<char>>, retry: Option<u64>) -> Seq<u8> {
    let id_part = match id {
        Some(s) => seq![0x69u8, 0x64, 0x3a, 0x20] + encode_utf8(s) + seq![0x0au8],
        None => Seq::empty(),
    };
    let event_part = match event {
        Some(s) => seq![0x65u8, 0x76, 0x65, 0x6e, 0x74, 0x3a, 0x20] + encode_utf8(s) + seq![0x0au8],
        None => Seq::empty(),
    };
    let data_part = match data {
        Some(s) => if s.len() == 0 {
            seq![0x64u8, 0x61, 0x74, 0x61, 0x3a, 0x0a]
        } else {
            data_fields(lines(encode_utf8(s)))
        },
        None => Seq::empty(),
    };
    let retry_part = match retry {
        Some(r) => seq![0x72u8, 0x65, 0x74, 0x72, 0x79, 0x3a, 0x20] + decimal(r as nat) + seq![0x0au8],
        None => Seq::empty(),
    };
    id_part + event_part + data_part + retry_part + seq![0x0au8]
}

/// Writes one `data: ` field per line of `data`.
fn write_data_lines(out: &mut Vec<u8>, data: &[u8])
    ensures
        final(out)@ == old(out)@ + data_fields(lines(data@)),
{
    let mut rest: &[u8] = data;
    while rest.len() > 0
        invariant
            old(out)@ + data_fields(lines(data@)) == out@ + data_fields(lines(rest@)),
        decreases rest@.len(),
    {
        let ghost before = out@;
        let ghost r = rest@;
        let i = find_byte_index(rest, 0x0a);
        proof {
            lemma_find_byte(r, 0x0a);
        }
        let mut line = vstd::slice::slice_subrange(rest, 0, i);
        if i < rest.len() {
            if line.len() > 0 && line[line.len() - 1] == 0x0d {
                line = vstd::slice::slice_subrange(line, 0, line.len() - 1);
            }
        }
        append_bytes(out, &[0x64u8, 0x61, 0x74, 0x61, 0x3a, 0x20]);
        append_bytes(out, line);
        out.push(0x0a);
        if i < rest.len() {
            rest = vstd::slice::slice_subrange(rest, i + 1, rest.len());
        } else {
            rest = vstd::slice::slice_subrange(rest, rest.len(), rest.len());
        }
        proof {
            let ls = lines(r);
            assert(ls[0] =~= line@);
            assert(ls.drop_first() =~= lines(rest@));
            assert(out@ =~= before + (seq![0x64u8, 0x61, 0x74, 0x61, 0x3a, 0x20] + ls[0] + seq![0x0au8]));
        }
    }
    proof {
        assert(out@ + Seq::<u8>::empty() =~= out@);
    }
}

/// How many times `b` occurs in `s`.
pub open spec fn count_byte(s: Seq<u8>, b: u8) -> nat
    decreases s.len(),
{
    if s.len() == 0 {
        0
    } else {
        (if s[0] == b { 1nat } else { 0nat }) + count_byte(s.drop_first(), b)
    }
}

/// Lines put back together, with a `\n` between each two.
pub open spec fn join_lines(ls: Seq<Seq<u8>>) -> Seq<u8>
    decreases ls.len(),
{
    if ls.len() == 0 {
        Seq::empty()
    } else if ls.len() == 1 {
        ls[0]
    } else {
        ls[0] + seq![0x0au8] + join_lines(ls.drop_first())
    }
}

/// Counting over two parts is counting over each.
proof fn lemma_count_concat(a: Seq<u8>, c: Seq<u8>, b: u8)
    ensures
        count_byte(a + c, b) == count_byte(a, b) + count_byte(c, b),
    decreases a.len(),
{
    if a.len() == 0 {
        assert(a + c =~= c);
    } else {
        assert((a + c).drop_first() =~= a.drop_first() + c);
        lemma_count_concat(a.drop_first(), c, b);
    }
}

/// A byte that does not occur is counted zero times.
proof fn lemma_count_absent(s: Seq<u8>, b: u8)
    requires
        forall|j: int| 0 <= j < s.len() ==> s[j] != b,
    ensures
        count_byte(s, b) == 0,
    decreases s.len(),
{
    if s.len() > 0 {
        assert forall|j: int| 0 <= j < s.len() - 1 implies s.drop_first()[j] != b by {
            assert(s.drop_first()[j] == s[j + 1]);
        }
        lemma_count_absent(s.drop_first(), b);
    }
}

/// Each line gets a `data: ` field of its own, empty lines included: the fields written
/// for lines holding no `\n` end in exactly as many `\n` as there are lines.
pub proof fn lemma_one_data_field_per_line(ls: Seq<Seq<u8>>)
    requires
        forall|k: int, j: int| 0 <= k < ls.len() && 0 <= j < ls[k].len() ==> #[trigger] ls[k][j] != 0x0a,
    ensures
        count_byte(data_fields(ls), 0x0a) == ls.len(),
    decreases ls.len(),
{
    if ls.len() > 0 {
        let head = seq![0x64u8, 0x61, 0x74, 0x61, 0x3a, 0x20];
        let nl = seq![0x0au8];
        lemma_count_absent(head, 0x0a);
        assert forall|j: int| 0 <= j < ls[0].len() implies ls[0][j] != 0x0a by {
            assert(ls[0][j] != 0x0a);
        }
        lemma_count_absent(ls[0], 0x0a);
        assert(count_byte(nl, 0x0a) == 1) by {
            assert(nl.drop_first() =~= Seq::<u8>::empty());
            assert(count_byte(nl.drop_first(), 0x0a) == 0);
        }
        let tail = ls.drop_first();
        assert forall|k: int, j: int| 0 <= k < tail.len() && 0 <= j < tail[k].len() implies #[trigger] tail[k][j] != 0x0a by {
            assert(tail[k] == ls[k + 1]);
        }
        lemma_one_data_field_per_line(tail);
        lemma_count_concat(head, ls[0], 0x0a);
        lemma_count_concat(head + ls[0], nl, 0x0a);
        lemma_count_concat(head + ls[0] + nl, data_fields(tail), 0x0a);
    }
}

/// Splitting data into lines loses nothing: for data without `\r` that does not end in
/// `\n`, the lines hold no `\n` and, joined with `\n`, give the data back (empty lines
/// included).
pub proof fn lemma_lines_join_back(b: Seq<u8>)
    requires
        forall|j: int| 0 <= j < b.len() ==> b[j] != 0x0d,
        b.len() > 0 ==> b.last() != 0x0a,
    ensures
        join_lines(lines(b)) == b,
        forall|k: int, j: int| 0 <= k < lines(b).len() && 0 <= j < lines(b)[k].len() ==> #[trigger] lines(b)[k][j] != 0x0a,
        b.len() > 0 ==> lines(b).len() > 0,
    decreases b.len(),
{
    if b.len() > 0 {
        lemma_find_byte(b, 0x0a);
        let i = find_byte(b, 0x0a);
        if i < b.len() {
            let line = b.subrange(0, i as int);
            if line.len() > 0 {
                assert(line[line.len() - 1] == b[i - 1]);
            }
            let rest = b.subrange(i as int + 1, b.len() as int);
            assert(i + 1 < b.len());
            assert(rest.last() == b.last());
            assert forall|j: int| 0 <= j < rest.len() implies rest[j] != 0x0d by {
                assert(rest[j] == b[i + 1 + j]);
            }
            lemma_lines_join_back(rest);
            let ls = lines(b);
            assert(ls == seq![line] + lines(rest));
            assert(ls.drop_first() =~= lines(rest));
            assert(join_lines(ls) == line + seq![0x0au8] + join_lines(lines(rest)));
            assert(b =~= line + seq![0x0au8] + rest);
            assert forall|k: int, j: int| 0 <= k < ls.len() && 0 <= j < ls[k].len() implies #[trigger] ls[k][j] != 0x0a by {
                if k == 0 {
                    assert(ls[0][j] == b[j]);
                } else {
                    assert(ls[k] == lines(rest)[k - 1]);
                }
            }
        } else {
            assert(lines(b) == seq![b]);
            assert forall|k: int, j: int| 0 <= k < lines(b).len() && 0 <= j < lines(b)[k].len() implies #[trigger] lines(b)[k][j] != 0x0a by {
                assert(lines(b)[k] == b);
            }
        }
    }
}

/// Bytes below 0x80 are valid UTF-8.
proof fn lemma_ascii_valid(b: Seq<u8>)
    requires
        forall|i: int| 0 <= i < b.len() ==> b[i] < 0x80,
    ensures
        valid_utf8(b),
{
    assert(b.subrange(0, 0) =~= Seq::<u8>::empty());
    assert(valid_utf8(Seq::<u8>::empty()));
    partial_valid_utf8_extend_ascii_block(b, 0, b.len() as int);
    assert(b.subrange(0, b.len() as int) =~= b);
}

/// Cutting valid UTF-8 at an ASCII byte leaves valid UTF-8 on both sides of it.
proof fn lemma_cut_at_ascii(b: Seq<u8>, i: int)
    requires
        valid_utf8(b),
        0 <= i < b.len(),
        b[i] < 0x80,
    ensures
        valid_utf8(b.subrange(0, i)),
        valid_utf8(b.subrange(i + 1, b.len() as int)),
{
    is_char_boundary_iff_is_leading_byte(b, i);
    valid_utf8_split(b, i);
    let s2 = b.subrange(i, b.len() as int);
    assert(s2[0] == b[i]);
    assert(valid_utf8(s2));
    assert(pop_first_scalar(s2) =~= b.subrange(i + 1, b.len() as int));
}

/// Every line of valid UTF-8 is valid UTF-8.
proof fn lemma_lines_valid(b: Seq<u8>)
    requires
        valid_utf8(b),
    ensures
        forall|k: int| 0 <= k < lines(b).len() ==> valid_utf8(#[trigger] lines(b)[k]),
    decreases b.len(),
{
    if b.len() > 0 {
        lemma_find_byte(b, 0x0a);
        let i = find_byte(b, 0x0a);
        if i < b.len() {
            lemma_cut_at_ascii(b, i as int);
            let line = b.subrange(0, i as int);
            let line2 = if line.len() > 0 && line[line.len() - 1] == 0x0d { line.drop_last() } else { line };
            if line.len() > 0 && line[line.len() - 1] == 0x0d {
                lemma_cut_at_ascii(line, line.len() - 1);
                assert(line.drop_last() =~= line.subrange(0, line.len() - 1));
            }
            let rest = b.subrange(i as int + 1, b.len() as int);
            lemma_lines_valid(rest);
            let ls = lines(b);
            assert(ls == seq![line2] + lines(rest));
            assert forall|k: int| 0 <= k < ls.len() implies valid_utf8(#[trigger] ls[k]) by {
                if k > 0 {
                    assert(ls[k] == lines(rest)[k - 1]);
                }
            }
        } else {
            assert(lines(b) == seq![b]);
        }
    }
}

/// `data: ` fields of valid UTF-8 lines are valid UTF-8.
proof fn lemma_data_fields_valid(ls: Seq<Seq<u8>>)
    requires
        forall|k: int| 0 <= k < ls.len() ==> valid_utf8(#[trigger] ls[k]),
    ensures
        valid_utf8(data_fields(ls)),
    decreases ls.len(),
{
    if ls.len() == 0 {
        assert(valid_utf8(Seq::<u8>::empty()));
    } else {
        let head = seq![0x64u8, 0x61, 0x74, 0x61, 0x3a, 0x20];
        let nl = seq![0x0au8];
        lemma_ascii_valid(head);
        lemma_ascii_valid(nl);
        assert(valid_utf8(ls[0]));
        lemma_data_fields_valid(ls.drop_first());
        valid_utf8_concat(head, ls[0]);
        valid_utf8_concat(head + ls[0], nl);
        valid_utf8_concat(head + ls[0] + nl, data_fields(ls.drop_first()));
    }
}

/// Decimal digits are ASCII.
proof fn lemma_decimal_ascii(n: nat)
    ensures
        forall|i: int| 0 <= i < decimal(n).len() ==> #[trigger] decimal(n)[i] < 0x80,
    decreases n,
{
    if n >= 10 {
        lemma_decimal_ascii(n / 10);
        let d = decimal(n);
        let p = decimal(n / 10);
        assert(d == p.push((0x30 + n % 10) as u8));
        assert forall|i: int| 0 <= i < d.len() implies #[trigger] d[i] < 0x80 by {
            if i < p.len() {
                assert(d[i] == p[i]);
            }
        }
    }
}

/// A serialized event is valid UTF-8.
proof fn lemma_sse_valid(id: Option<Seq<char>>, event: Option<Seq<char>>, data: Option<Seq<char>>, retry: Option<u64>)
    ensures
        valid_utf8(sse_bytes(id, event, data, retry)),
{
    let nl = seq![0x0au8];
    lemma_ascii_valid(nl);
    assert(valid_utf8(Seq::<u8>::empty()));
    let id_part = match id {
        Some(s) => seq![0x69u8, 0x64, 0x3a, 0x20] + encode_utf8(s) + seq![0x0au8],
        None => Seq::empty(),
    };
    if let Some(s) = id {
        let h = seq![0x69u8, 0x64, 0x3a, 0x20];
        lemma_ascii_valid(h);
        encode_utf8_valid_utf8(s);
        valid_utf8_concat(h, encode_utf8(s));
        valid_utf8_concat(h + encode_utf8(s), nl);
    }
    let event_part = match event {
        Some(s) => seq![0x65u8, 0x76, 0x65, 0x6e, 0x74, 0x3a, 0x20] + encode_utf8(s) + seq![0x0au8],
        None => Seq::empty(),
    };
    if let Some(s) = event {
        let h = seq![0x65u8, 0x76, 0x65, 0x6e, 0x74, 0x3a, 0x20];
        lemma_ascii_valid(h);
        encode_utf8_valid_utf8(s);
        valid_utf8_concat(h, encode_utf8(s));
        valid_utf8_concat(h + encode_utf8(s), nl);
    }
    let data_part = match data {
        Some(s) => if s.len() == 0 {
            seq![0x64u8, 0x61, 0x74, 0x61, 0x3a, 0x0a]
        } else {
            data_fields(lines(encode_utf8(s)))
        },
        None => Seq::empty(),
    };
    if let Some(s) = data {
        if s.len() == 0 {
            lemma_ascii_valid(seq![0x64u8, 0x61, 0x74, 0x61, 0x3a, 0x0a]);
        } else {
            encode_utf8_valid_utf8(s);
            lemma_lines_valid(encode_utf8(s));
            lemma_data_fields_valid(lines(encode_utf8(s)));
        }
    }
    let retry_part = match retry {
        Some(r) => seq![0x72u8, 0x65, 0x74, 0x72, 0x79, 0x3a, 0x20] + decimal(r as nat) + seq![0x0au8],
        None => Seq::empty(),
    };
    if let Some(r) = retry {
        let h = seq![0x72u8, 0x65, 0x74, 0x72, 0x79, 0x3a, 0x20];
        lemma_decimal_ascii(r as nat);
        let t = h + decimal(r as nat) + nl;
        assert forall|i: int| 0 <= i < t.len() implies t[i] < 0x80 by {
            if h.len() <= i < h.len() + decimal(r as nat).len() {
                assert(t[i] == decimal(r as nat)[i - h.len()]);
            }
        }
        lemma_ascii_valid(t);
    }
    assert(valid_utf8(id_part));
    assert(valid_utf8(event_part));
    assert(valid_utf8(data_part));
    assert(valid_utf8(retry_part));
    valid_utf8_concat(id_part, event_part);
    valid_utf8_concat(id_part + event_part, data_part);
    valid_utf8_concat(id_part + event_part + data_part, retry_part);
    valid_utf8_concat(id_part + event_part + data_part + retry_part, nl);
}

/// A Server-Sent Event.
#[derive(Debug, Clone, Default, PartialEq, Eq)]
pub struct SseEvent {
    /// Optional event ID to set the EventSource's last event ID value.
    pub id: Option<String>,
    /// Optional event name/type (e.g. "ping", "message").
    pub event: Option<String>,
    /// The event data payload. Can be multi-line.
    pub data: Option<String>,
    /// Optional reconnection time in milliseconds.
    pub retry: Option<u64>,
}

/// The view of an optional string.
pub open spec fn opt_view(s: Option<String>) -> Option<Seq<char>> {
    match s {
        Some(v) => Some(v@),
        None => None,
    }
}

impl SseEvent {
    /// The bytes this event serializes to.
    pub open spec fn spec_bytes(&self) -> Seq<u8> {
        sse_bytes(opt_view(self.id), opt_view(self.event), opt_view(self.data), self.retry)
    }

    /// Creates a new empty `SseEvent`. If nothing is set, this serializes to a single `\n`.
    pub fn new() -> (r: Self)
        ensures
            r.id is None,
            r.event is None,
            r.data is None,
            r.retry is None,
    {
        Self { id: None, event: None, data: None, retry: None }
    }

    /// Sets the event name/type.
    pub fn with_event(self, event: &str) -> (r: Self)
        ensures
            opt_view(r.event) == Some(event@),
            r.id == self.id,
            r.data == self.data,
            r.retry == self.retry,
    {
        let mut s = self;
        s.event = Some(event.to_owned());
        s
    }

    /// Sets the event ID.
    pub fn with_id(self, id: &str) -> (r: Self)
        ensures
            opt_view(r.id) == Some(id@),
            r.event == self.event,
            r.data == self.data,
            r.retry == self.retry,
    {
        let mut s = self;
        s.id = Some(id.to_owned());
        s
    }

    /// Sets the retry/reconnection time in milliseconds.
    pub fn with_retry(self, retry: u64) -> (r: Self)
        ensures
            r.retry == Some(retry),
            r.id == self.id,
            r.event == self.event,
            r.data == self.data,
    {
        let mut s = self;
        s.retry = Some(retry);
        s
    }

    /// Sets the event data payload.
    ///
    /// If this payload is not set, browsers may ignore the event. Set to an empty string
    /// (or a value) to ensure delivery.
    pub fn with_data(self, data: &str) -> (r: Self)
        ensures
            opt_view(r.data) == Some(data@),
            r.id == self.id,
            r.event == self.event,
            r.retry == self.retry,
    {
        let mut s = self;
        s.data = Some(data.to_owned());
        s
    }

    /// Serializes the event to the bytes sent on the wire.
    pub fn to_bytes(&self) -> (r: Vec<u8>)
        ensures
            r@ == self.spec_bytes(),
    {
        let mut out = self.id_and_event_fields();
        let data = self.data_field();
        append_bytes(&mut out, data.as_slice());
        let retry = self.retry_field();
        append_bytes(&mut out, retry.as_slice());
        out.push(0x0a);
        proof {
            assert(out@ =~= self.spec_bytes());
        }
        out
    }

    /// The `id:` and `event:` fields.
    fn id_and_event_fields(&self) -> (r: Vec<u8>)
        ensures
            r@ == (match opt_view(self.id) {
                Some(s) => seq![0x69u8, 0x64, 0x3a, 0x20] + encode_utf8(s) + seq![0x0au8],
                None => Seq::<u8>::empty(),
            }) + (match opt_view(self.event) {
                Some(s) => seq![0x65u8, 0x76, 0x65, 0x6e, 0x74, 0x3a, 0x20] + encode_utf8(s) + seq![0x0au8],
                None => Seq::<u8>::empty(),
            }),
    {
        let mut out: Vec<u8> = Vec::new();
        if let Some(id) = &self.id {
            append_bytes(&mut out, &[0x69u8, 0x64, 0x3a, 0x20]);
            append_bytes(&mut out, id.as_str().as_bytes());
            out.push(0x0a);
        }
        let ghost p1 = out@;
        if let Some(event) = &self.event {
            append_bytes(&mut out, &[0x65u8, 0x76, 0x65, 0x6e, 0x74, 0x3a, 0x20]);
            append_bytes(&mut out, event.as_str().as_bytes());
            out.push(0x0a);
        }
        proof {
            assert(out@ =~= p1 + (match opt_view(self.event) {
                Some(s) => seq![0x65u8, 0x76, 0x65, 0x6e, 0x74, 0x3a, 0x20] + encode_utf8(s) + seq![0x0au8],
                None => Seq::<u8>::empty(),
            }));
        }
        out
    }

    /// The `data:` fields.
    fn data_field(&self) -> (r: Vec<u8>)
        ensures
            r@ == match opt_view(self.data) {
                Some(s) => if s.len() == 0 {
                    seq![0x64u8, 0x61, 0x74, 0x61, 0x3a, 0x0a]
                } else {
                    data_fields(lines(encode_utf8(s)))
                },
                None => Seq::<u8>::empty(),
            },
    {
        let mut out: Vec<u8> = Vec::new();
        if let Some(data) = &self.data {
            let bytes = data.as_str().as_bytes();
            if bytes.len() == 0 {
                append_bytes(&mut out, &[0x64u8, 0x61, 0x74, 0x61, 0x3a, 0x0a]);
            } else {
                write_data_lines(&mut out, bytes);
            }
        }
        proof {
            if let Some(data) = &self.data {
                if data@.len() == 0 {
                    assert(encode_utf8(data@).len() == 0);
                } else {
                    assert(encode_utf8(data@).len() > 0) by {
                        vstd::utf8::encode_utf8_decode_utf8(data@);
                        if encode_utf8(data@).len() == 0 {
                            assert(encode_utf8(data@) =~= Seq::<u8>::empty());
                        }
                    }
                }
            }
        }
        out
    }

    /// The `retry:` field.
    fn retry_field(&self) -> (r: Vec<u8>)
        ensures
            r@ == match self.retry {
                Some(v) => seq![0x72u8, 0x65, 0x74, 0x72, 0x79, 0x3a, 0x20] + decimal(v as nat) + seq![0x0au8],
                None => Seq::<u8>::empty(),
            },
    {
        let mut out: Vec<u8> = Vec::new();
        if let Some(retry) = self.retry {
            append_bytes(&mut out, &[0x72u8, 0x65, 0x74, 0x72, 0x79, 0x3a, 0x20]);
            let digits = decimal_bytes(retry);
            append_bytes(&mut out, digits.as_slice());
            out.push(0x0a);
        }
        out
    }

    /// Serializes the event to text: the text its bytes encode, which are valid UTF-8.
    pub fn to_string(&self) -> (r: String)
        ensures
            encode_utf8(r@) == self.spec_bytes(),
    {
        let bytes = self.to_bytes();
        proof {
            lemma_sse_valid(opt_view(self.id), opt_view(self.event), opt_view(self.data), self.retry);
            decode_utf8_encode_utf8(bytes@);
        }
        lossy_string(bytes.as_slice())
    }
}

} // verus!
