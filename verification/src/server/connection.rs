//! The decisions a connection makes between reads and writes: where the next request
//! head ends, how its body is read, how the request buffer is compacted, and how a
//! response is laid out for writing.
use vstd::prelude::*;
use crate::http::{Body, Response};
use crate::server::parsing::{header_end, is_header_end_at, lemma_header_end_first, scan_for_header_end};
use crate::server::{response_head, write_response, WriteError};

verus! {

/// Where the scan for the end of a head resumes after a read: three bytes before the
/// data read last, so that a `\r\n\r\n` split by the read is still found.
pub open spec fn scan_start(previous: nat) -> nat {
    if previous >= 3 { (previous - 3) as nat } else { 0 }
}

/// Finds the end of the request head in the first `total` bytes of the buffer, scanning
/// from three bytes before `previous`, the number of bytes already scanned. Returns the
/// offset just after `\r\n\r\n`.
pub fn find_request_head(reqbuf: &[u8], previous: usize, total: usize) -> (r: Option<usize>)
    requires
        previous <= total <= reqbuf@.len(),
    ensures
        match header_end(reqbuf@.subrange(scan_start(previous as nat) as int, total as int)) {
            Some(n) => r == Some((scan_start(previous as nat) + n) as usize),
            None => r is None,
        },
{
    let start = if previous >= 3 { previous - 3 } else { 0 };
    assert(start as nat == scan_start(previous as nat));
    let window = vstd::slice::slice_subrange(reqbuf, start, total);
    assert(window@ == reqbuf@.subrange(start as int, total as int));
    match scan_for_header_end(window) {
        Some(n) => Some(start + n),
        None => None,
    }
}

/// No `\r\n\r\n` starts before `k` in `b`.
pub open spec fn no_header_end_before(b: Seq<u8>, k: int) -> bool {
    forall|j: int| 0 <= j < k ==> !is_header_end_at(b, j)
}

/// A `\r\n\r\n` in `b` means there is a first one.
proof fn lemma_first_end(b: Seq<u8>, i: int) -> (k: int)
    requires
        is_header_end_at(b, i),
    ensures
        is_header_end_at(b, k),
        k <= i,
        no_header_end_before(b, k),
    decreases i,
{
    if exists|j: int| 0 <= j < i && is_header_end_at(b, j) {
        let j = choose|j: int| 0 <= j < i && is_header_end_at(b, j);
        lemma_first_end(b, j)
    } else {
        i
    }
}

/// Where `\r\n\r\n` starts in a window of a buffer, it starts in the buffer too.
proof fn lemma_window_end(buf: Seq<u8>, s: int, t: int, i: int)
    requires
        0 <= s <= t <= buf.len(),
    ensures
        is_header_end_at(buf.subrange(s, t), i) <==> (0 <= i && is_header_end_at(buf.subrange(0, t), i + s)),
{
    let part = buf.subrange(s, t);
    let whole = buf.subrange(0, t);
    if 0 <= i && i + 4 <= part.len() {
        assert(part[i] == whole[i + s]);
        assert(part[i + 1] == whole[i + s + 1]);
        assert(part[i + 2] == whole[i + s + 2]);
        assert(part[i + 3] == whole[i + s + 3]);
    }
}

/// Resuming the scan three bytes before the data read last finds the same end of head
/// as scanning the whole buffer, provided the data read before held no complete
/// `\r\n\r\n`.
pub proof fn lemma_resumed_scan(buf: Seq<u8>, previous: nat, total: nat)
    requires
        previous <= total <= buf.len(),
        header_end(buf.subrange(0, previous as int)) is None,
    ensures
        match header_end(buf.subrange(0, total as int)) {
            Some(n) => header_end(buf.subrange(scan_start(previous) as int, total as int)) == Some((n - scan_start(previous)) as nat),
            None => header_end(buf.subrange(scan_start(previous) as int, total as int)) is None,
        },
{
    reveal(header_end);
    let s = scan_start(previous) as int;
    let whole = buf.subrange(0, total as int);
    let part = buf.subrange(s, total as int);
    let before = buf.subrange(0, previous as int);
    if exists|i: int| is_header_end_at(whole, i) {
        let i0 = choose|i: int| is_header_end_at(whole, i);
        let k = lemma_first_end(whole, i0);
        lemma_header_end_first(whole, k);
        if k < s {
            assert(before[k] == whole[k] && before[k + 1] == whole[k + 1]);
            assert(before[k + 2] == whole[k + 2] && before[k + 3] == whole[k + 3]);
            assert(is_header_end_at(before, k));
        }
        lemma_window_end(buf, s, total as int, k - s);
        assert forall|j: int| 0 <= j < k - s implies !is_header_end_at(part, j) by {
            lemma_window_end(buf, s, total as int, j);
        }
        lemma_header_end_first(part, k - s);
    } else {
        assert forall|i: int| !is_header_end_at(part, i) by {
            lemma_window_end(buf, s, total as int, i);
        }
    }
}

/// Moves the bytes of the next request to the front of the request buffer once a
/// request of `reqlen` bytes is done, and returns how many bytes the buffer now holds.
pub fn consume_request(reqbuf: &mut [u8], total: usize, reqlen: usize) -> (r: usize)
    requires
        total <= old(reqbuf)@.len(),
    ensures
        final(reqbuf)@.len() == old(reqbuf)@.len(),
        r == if reqlen < total { total - reqlen } else { 0 },
        forall|j: int| 0 <= j < r ==> final(reqbuf)@[j] == old(reqbuf)@[reqlen + j],
        forall|j: int| r <= j < final(reqbuf)@.len() ==> final(reqbuf)@[j] == old(reqbuf)@[j],
{
    if reqlen >= total {
        return 0;
    }
    let n = total - reqlen;
    let mut i: usize = 0;
    while i < n
        invariant
            reqlen < total <= old(reqbuf)@.len(),
            n == total - reqlen,
            reqbuf@.len() == old(reqbuf)@.len(),
            0 <= i <= n,
            forall|j: int| 0 <= j < i ==> reqbuf@[j] == old(reqbuf)@[reqlen + j],
            forall|j: int| i <= j < reqbuf@.len() ==> reqbuf@[j] == old(reqbuf)@[j],
        decreases n - i,
    {
        let b = reqbuf[reqlen + i];
        reqbuf[i] = b;
        i += 1;
    }
    n
}

/// How the body of a request is read.
#[derive(Debug, Clone, Copy, PartialEq, Eq, Structural)]
pub enum BodyPlan {
    /// The declared length is over the limit: answer 413 and close the connection.
    TooLarge,
    /// The body does not fit behind the head: move the bytes already read into a new
    /// buffer of the declared length and read the rest into it.
    Allocate,
    /// The body fits behind the head: read what is missing there (nothing when all of
    /// it has been read).
    InPlace,
}

/// Decides how to read a body of `content_length` bytes, given the size `limit` and the
/// `room` left in the request buffer behind the head.
pub fn plan_body(content_length: usize, limit: usize, room: usize) -> (r: BodyPlan)
    ensures
        r == if content_length > limit {
            BodyPlan::TooLarge
        } else if content_length > room {
            BodyPlan::Allocate
        } else {
            BodyPlan::InPlace
        },
{
    if content_length > limit {
        BodyPlan::TooLarge
    } else if content_length > room {
        BodyPlan::Allocate
    } else {
        BodyPlan::InPlace
    }
}

/// How a response is written once its head is in the buffer.
#[derive(Debug, Clone, Copy, PartialEq, Eq, Structural)]
pub enum ResponseOutput {
    /// Only the head, of this length, is written.
    HeadOnly(usize),
    /// The head and the body lie together in the buffer: write this many bytes.
    Buffered(usize),
    /// Write the head, of this length, and then the body.
    HeadThenBody(usize),
    /// Write the head, of this length, and then stream the body.
    HeadThenStream(usize),
}

/// Places the body of a response behind its head of `n` bytes in `buffer` when it is
/// held in memory and fits, and says how the response is written.
fn place_body(body: &Option<Body>, n: usize, buffer: &mut [u8]) -> (out: ResponseOutput)
    requires
        n <= old(buffer)@.len(),
    ensures
        final(buffer)@.len() == old(buffer)@.len(),
        final(buffer)@.subrange(0, n as int) == old(buffer)@.subrange(0, n as int),
        match *body {
            None => out == ResponseOutput::HeadOnly(n)
                && final(buffer)@.skip(n as int) == old(buffer)@.skip(n as int),
            Some(Body::Immediate(data)) => if n + data@.len() < old(buffer)@.len() {
                &&& out == ResponseOutput::Buffered((n + data@.len()) as usize)
                &&& final(buffer)@.subrange(n as int, (n + data@.len()) as int) == data@
                &&& final(buffer)@.skip((n + data@.len()) as int) == old(buffer)@.skip((n + data@.len()) as int)
            } else {
                out == ResponseOutput::HeadThenBody(n)
                    && final(buffer)@.skip(n as int) == old(buffer)@.skip(n as int)
            },
            Some(Body::Stream { .. }) => out == ResponseOutput::HeadThenStream(n)
                && final(buffer)@.skip(n as int) == old(buffer)@.skip(n as int),
        },
{
    match body {
        None => ResponseOutput::HeadOnly(n),
        Some(Body::Immediate(data)) => {
            if data.len() < buffer.len() - n {
                let mut i: usize = 0;
                while i < data.len()
                    invariant
                        n + data@.len() < buffer@.len(),
                        n + data@.len() <= usize::MAX,
                        buffer@.len() == old(buffer)@.len(),
                        0 <= i <= data@.len(),
                        forall|j: int| 0 <= j < n ==> buffer@[j] == old(buffer)@[j],
                        forall|j: int| 0 <= j < i ==> buffer@[n + j] == data@[j],
                        forall|j: int| n + i <= j < buffer@.len() ==> buffer@[j] == old(buffer)@[j],
                    decreases data@.len() - i,
                {
                    buffer[n + i] = data[i];
                    i += 1;
                }
                proof {
                    assert(buffer@.subrange(0, n as int) =~= old(buffer)@.subrange(0, n as int));
                    assert(buffer@.subrange(n as int, n + data@.len()) =~= data@);
                    assert(buffer@.skip(n + data@.len()) =~= old(buffer)@.skip(n + data@.len()));
                }
                ResponseOutput::Buffered(n + data.len())
            } else {
                ResponseOutput::HeadThenBody(n)
            }
        },
        Some(Body::Stream { .. }) => ResponseOutput::HeadThenStream(n),
    }
}

/// Writes the head of a response into `buffer` and decides how the rest is written.
/// For a `HEAD` request the body is dropped after the head is written, so the head
/// still describes it. A body held in memory that fits in the buffer behind the head is
/// copied there.
pub fn finish_response(resp: &mut Response, head_method: bool, date: &str, buffer: &mut [u8]) -> (r: Result<ResponseOutput, WriteError>)
    ensures
        final(resp).status == old(resp).status,
        final(resp).headers == old(resp).headers,
        final(buffer)@.len() == old(buffer)@.len(),
        ({
            let head = response_head(*old(resp), date@);
            let n = head.len();
            match r {
                Err(_) => n > old(buffer)@.len() && final(buffer)@ == old(buffer)@
                    && final(resp).body == old(resp).body,
                Ok(out) => {
                    &&& n <= old(buffer)@.len()
                    &&& final(resp).body == if head_method { None } else { old(resp).body }
                    &&& final(buffer)@.subrange(0, n as int) == head
                    &&& match final(resp).body {
                        None => out == ResponseOutput::HeadOnly(n as usize)
                            && final(buffer)@.skip(n as int) == old(buffer)@.skip(n as int),
                        Some(Body::Immediate(data)) => if n + data@.len() < old(buffer)@.len() {
                            &&& out == ResponseOutput::Buffered((n + data@.len()) as usize)
                            &&& final(buffer)@.subrange(n as int, (n + data@.len()) as int) == data@
                            &&& final(buffer)@.skip((n + data@.len()) as int) == old(buffer)@.skip((n + data@.len()) as int)
                        } else {
                            out == ResponseOutput::HeadThenBody(n as usize)
                                && final(buffer)@.skip(n as int) == old(buffer)@.skip(n as int)
                        },
                        Some(Body::Stream { .. }) => out == ResponseOutput::HeadThenStream(n as usize)
                            && final(buffer)@.skip(n as int) == old(buffer)@.skip(n as int),
                    }
                },
            }
        }),
{
    let n = match write_response(resp, date, buffer) {
        Ok(n) => n,
        Err(e) => return Err(e),
    };
    if head_method {
        resp.body = None;
    }
    let ghost mid = buffer@;
    let out = place_body(&resp.body, n, buffer);
    proof {
        assert(mid.skip(n as int).len() == old(buffer)@.skip(n as int).len());
        if let Some(Body::Immediate(data)) = &resp.body {
            if n + data@.len() < old(buffer)@.len() {
                let a = mid.skip(n + data@.len());
                let b = old(buffer)@.skip(n + data@.len());
                assert(a =~= b) by {
                    assert forall|j: int| 0 <= j < a.len() implies #[trigger] a[j] == b[j] by {
                        assert(a[j] == mid.skip(n as int)[j + data@.len()]);
                        assert(b[j] == old(buffer)@.skip(n as int)[j + data@.len()]);
                    }
                }
            }
        }
    }
    Ok(out)
}

/// The lowercase hexadecimal digit for a value below 16.
pub open spec fn hex_digit_of(v: nat) -> u8 {
    if v < 10 { (0x30 + v) as u8 } else { (0x61 + v - 10) as u8 }
}

/// The value of a lowercase hexadecimal digit.
pub open spec fn hex_digit_value(d: u8) -> nat {
    if 0x30 <= d <= 0x39 { (d - 0x30) as nat } else { (d - 0x61 + 10) as nat }
}

/// `n` as five lowercase hexadecimal digits, with leading zeros.
pub open spec fn hex5(n: nat) -> Seq<u8> {
    seq![
        hex_digit_of((n / 65536) % 16),
        hex_digit_of((n / 4096) % 16),
        hex_digit_of((n / 256) % 16),
        hex_digit_of((n / 16) % 16),
        hex_digit_of(n % 16),
    ]
}

/// The value of five hexadecimal digits.
pub open spec fn hex5_value(s: Seq<u8>) -> nat {
    hex_digit_value(s[0]) * 65536 + hex_digit_value(s[1]) * 4096 + hex_digit_value(s[2]) * 256
        + hex_digit_value(s[3]) * 16 + hex_digit_value(s[4])
}

/// `\r\n`.
pub open spec fn crlf() -> Seq<u8> {
    seq![0x0du8, 0x0a]
}

/// The header of a chunk of `n` bytes reads back as `n`.
pub proof fn lemma_chunk_size_roundtrip(n: u32)
    requires
        n < 0x100000,
    ensures
        hex5_value(hex5(n as nat)) == n,
{
    let a = (n / 65536) % 16;
    let b = (n / 4096) % 16;
    let c = (n / 256) % 16;
    let d = (n / 16) % 16;
    let e = n % 16;
    assert(a * 65536 + b * 4096 + c * 256 + d * 16 + e == n) by (bit_vector)
        requires
            n < 0x100000u32,
            a == (n / 65536) % 16,
            b == (n / 4096) % 16,
            c == (n / 256) % 16,
            d == (n / 16) % 16,
            e == n % 16;
    let h = hex5(n as nat);
    assert(hex_digit_value(h[0]) == a);
    assert(hex_digit_value(h[1]) == b);
    assert(hex_digit_value(h[2]) == c);
    assert(hex_digit_value(h[3]) == d);
    assert(hex_digit_value(h[4]) == e);
}

/// The lowercase hexadecimal digit for a value below 16.
fn hex_digit(v: usize) -> (r: u8)
    requires
        v < 16,
    ensures
        r == hex_digit_of(v as nat),
{
    if v < 10 { 0x30u8 + (v as u8) } else { 0x61u8 + ((v - 10) as u8) }
}

/// Where the data of the next chunk goes in a buffer of `size` bytes that holds `start`
/// bytes: behind seven bytes for the chunk header, up to two bytes before the end for
/// its trailing `\r\n`. `None` when fewer than sixteen bytes are left; the buffer is
/// then sent as it is.
pub fn chunk_data_range(start: usize, size: usize) -> (r: Option<(usize, usize)>)
    requires
        start <= size,
    ensures
        r == if size - start < 16 { None } else { Some(((start + 7) as usize, (size - 2) as usize)) },
{
    if size - start < 16 {
        None
    } else {
        Some((start + 7, size - 2))
    }
}

/// Frames the `n` bytes of chunk data that were read behind `start + 7`: writes the
/// chunk size as five hexadecimal digits and `\r\n` before them and `\r\n` after
/// them. Returns the length of the buffer's content with the chunk.
pub fn frame_chunk(buf: &mut [u8], start: usize, n: usize) -> (r: usize)
    requires
        start + 9 + n <= old(buf)@.len(),
        n < 0x100000,
    ensures
        r == start + 9 + n,
        final(buf)@.len() == old(buf)@.len(),
        final(buf)@.subrange(start as int, start + 7) == hex5(n as nat) + crlf(),
        final(buf)@.subrange(start + 7 + n, start + 9 + n) == crlf(),
        forall|j: int| 0 <= j < final(buf)@.len() && !(start <= j < start + 7) && !(start + 7 + n <= j < start + 9 + n)
            ==> final(buf)@[j] == old(buf)@[j],
{
    buf[start] = hex_digit(n / 65536 % 16);
    buf[start + 1] = hex_digit(n / 4096 % 16);
    buf[start + 2] = hex_digit(n / 256 % 16);
    buf[start + 3] = hex_digit(n / 16 % 16);
    buf[start + 4] = hex_digit(n % 16);
    buf[start + 5] = 0x0d;
    buf[start + 6] = 0x0a;
    buf[start + 7 + n] = 0x0d;
    buf[start + 8 + n] = 0x0a;
    assert(buf@.subrange(start as int, start + 7) =~= hex5(n as nat) + crlf());
    assert(buf@.subrange(start + 7 + n, start + 9 + n) =~= crlf());
    start + 9 + n
}

/// Writes the last chunk, `0\r\n\r\n`, at `start` and returns the length of the
/// buffer's content with it.
pub fn end_chunks(buf: &mut [u8], start: usize) -> (r: usize)
    requires
        start + 5 <= old(buf)@.len(),
    ensures
        r == start + 5,
        final(buf)@.len() == old(buf)@.len(),
        final(buf)@.subrange(start as int, start + 5) == seq![0x30u8, 0x0d, 0x0a, 0x0d, 0x0a],
        forall|j: int| 0 <= j < final(buf)@.len() && !(start <= j < start + 5) ==> final(buf)@[j] == old(buf)@[j],
{
    buf[start] = 0x30;
    buf[start + 1] = 0x0d;
    buf[start + 2] = 0x0a;
    buf[start + 3] = 0x0d;
    buf[start + 4] = 0x0a;
    assert(buf@.subrange(start as int, start + 5) =~= seq![0x30u8, 0x0d, 0x0a, 0x0d, 0x0a]);
    start + 5
}

/// What happened on a connection since its last decision.
pub enum ConnEvent {
    /// A read brought new bytes.
    Received,
    /// The peer closed its side: a read gave no bytes.
    PeerClosed,
    /// No bytes came within the read timeout.
    TimedOut,
    /// A read failed.
    ReadFailed,
    /// A complete request head could not be parsed.
    BadHead,
    /// A request was served: `failed` when its body could not be read or its response
    /// not written, `close` when the request asked for the connection to close.
    Served { failed: bool, close: bool },
    /// No complete request head is buffered: `total` bytes fill a buffer of `capacity`.
    NoHead { total: usize, capacity: usize },
}

/// The error a connection answers before it closes.
pub enum Rejection {
    /// 400: a request head that cannot be parsed.
    BadRequest,
    /// 408: the client sent nothing in time.
    RequestTimeout,
    /// 431: the request head does not fit the buffer.
    HeadersTooLarge,
    /// 413: the request body is over the size limit (see `plan_body`).
    ContentTooLarge,
}

/// What a connection does next.
pub enum ConnAction {
    /// Look for request heads in the buffered bytes (after dropping a request served).
    Scan,
    /// Read more bytes.
    ReadMore,
    /// Answer with an error, then close.
    Reject(Rejection),
    /// Close without answering.
    Close,
}

/// The decision a connection takes on an event.
pub open spec fn connection_step(event: ConnEvent) -> ConnAction {
    match event {
        ConnEvent::Received => ConnAction::Scan,
        ConnEvent::PeerClosed => ConnAction::Close,
        ConnEvent::TimedOut => ConnAction::Reject(Rejection::RequestTimeout),
        ConnEvent::ReadFailed => ConnAction::Close,
        ConnEvent::BadHead => ConnAction::Reject(Rejection::BadRequest),
        ConnEvent::Served { failed, close } => if failed || close {
            ConnAction::Close
        } else {
            ConnAction::Scan
        },
        ConnEvent::NoHead { total, capacity } => if total < capacity {
            ConnAction::ReadMore
        } else {
            ConnAction::Reject(Rejection::HeadersTooLarge)
        },
    }
}

/// Decides what a connection does after `event`: scan on new bytes or after a request
/// served on a connection kept open; read more while the head buffer has room; answer
/// 408 on a timeout, 400 on a head that cannot be parsed and 431 on a full buffer; close
/// when the peer closed, a read or a request failed, or the request asked to close.
pub fn next_action(event: &ConnEvent) -> (r: ConnAction)
    ensures
        r == connection_step(*event),
{
    match event {
        ConnEvent::Received => ConnAction::Scan,
        ConnEvent::PeerClosed => ConnAction::Close,
        ConnEvent::TimedOut => ConnAction::Reject(Rejection::RequestTimeout),
        ConnEvent::ReadFailed => ConnAction::Close,
        ConnEvent::BadHead => ConnAction::Reject(Rejection::BadRequest),
        ConnEvent::Served { failed, close } => if *failed || *close {
            ConnAction::Close
        } else {
            ConnAction::Scan
        },
        ConnEvent::NoHead { total, capacity } => if *total < *capacity {
            ConnAction::ReadMore
        } else {
            ConnAction::Reject(Rejection::HeadersTooLarge)
        },
    }
}

/// The status code of a rejection.
pub open spec fn rejection_status(r: Rejection) -> u16 {
    match r {
        Rejection::BadRequest => 400,
        Rejection::RequestTimeout => 408,
        Rejection::HeadersTooLarge => 431,
        Rejection::ContentTooLarge => 413,
    }
}

/// The response that answers a rejection: its status, `Connection: close`, no body.
pub fn rejection_response(r: &Rejection) -> (resp: Response)
    ensures
        resp.status == rejection_status(*r),
        resp.headers.entries() == seq![("Connection"@, "close"@)],
        resp.body is None,
{
    let base = match r {
        Rejection::BadRequest => Response::bad_request(),
        Rejection::RequestTimeout => Response::request_timeout(),
        Rejection::HeadersTooLarge => Response::headers_too_large(),
        Rejection::ContentTooLarge => Response::content_too_large(),
    };
    let resp = base.with_header("Connection", "close");
    assert(resp.headers.entries() =~= seq![("Connection"@, "close"@)]);
    resp
}

} // verus!
