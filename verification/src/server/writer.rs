//! The bookkeeping of writing a streamed body through one buffer: the reader fills the
//! buffer behind what is waiting to be written, chunks are framed when the length is
//! unknown, and what the socket takes is dropped from the front.
use vstd::prelude::*;
use crate::server::connection::{consume_request, crlf, end_chunks, frame_chunk, hex5};

verus! {

/// The framing of a chunk of data: its size in five hexadecimal digits, `\r\n`, the
/// data, and `\r\n`.
pub open spec fn chunk(data: Seq<u8>) -> Seq<u8> {
    hex5(data.len()) + crlf() + data + crlf()
}

/// The last chunk, `0\r\n\r\n`.
pub open spec fn last_chunk() -> Seq<u8> {
    seq![0x30u8, 0x0d, 0x0a, 0x0d, 0x0a]
}

/// The state of writing a streamed body through a buffer of `size` bytes: the bytes in
/// `write_pos..read_pos` are waiting to be written.
pub struct BodyWriter {
    size: usize,
    read_pos: usize,
    write_pos: usize,
    is_chunked: bool,
    read_done: bool,
}

impl BodyWriter {
    /// The size of the buffer.
    pub closed spec fn spec_size(&self) -> nat {
        self.size as nat
    }

    /// Whether the body is sent in chunks.
    pub closed spec fn chunked(&self) -> bool {
        self.is_chunked
    }

    /// Whether the reader has reached the end of the body.
    pub closed spec fn done(&self) -> bool {
        self.read_done
    }

    /// Where the bytes waiting to be written start.
    pub closed spec fn write_start(&self) -> nat {
        self.write_pos as nat
    }

    /// Where the bytes waiting to be written end.
    pub closed spec fn read_end(&self) -> nat {
        self.read_pos as nat
    }

    /// Positions and buffer size agree, and a chunked body has room for framing.
    pub closed spec fn wf(&self) -> bool {
        &&& self.write_pos <= self.read_pos <= self.size
        &&& self.size <= 0x100000
        &&& self.is_chunked ==> self.size >= 2
    }

    /// The bytes in the buffer that are waiting to be written.
    pub open spec fn pending(&self, buf: Seq<u8>) -> Seq<u8> {
        buf.subrange(self.write_start() as int, self.read_end() as int)
    }

    /// Where the next read goes: behind the bytes waiting, and for a chunked body behind
    /// seven bytes for the chunk header and two bytes before the end for its trailer.
    /// `None` when the reader is done or there is no room.
    pub open spec fn read_window(&self) -> Option<(nat, nat)> {
        if self.done() {
            None
        } else if self.chunked() {
            if self.read_end() + 7 < self.spec_size() - 2 {
                Some((self.read_end() + 7, (self.spec_size() - 2) as nat))
            } else {
                None
            }
        } else if self.read_end() < self.spec_size() {
            Some((self.read_end(), self.spec_size()))
        } else {
            None
        }
    }

    /// Starts writing a body through a buffer of `size` bytes whose first `preread`
    /// bytes are already to be written; `len` is the length of the body if known, and a
    /// body of unknown length is sent in chunks.
    pub fn new(size: usize, preread: usize, len: Option<usize>) -> (r: Self)
        requires
            preread <= size <= 0x100000,
            len is None ==> size >= 2,
        ensures
            r.wf(),
            r.spec_size() == size,
            r.write_start() == 0,
            r.read_end() == preread,
            r.chunked() == len is None,
            !r.done(),
    {
        BodyWriter { size, read_pos: preread, write_pos: 0, is_chunked: len.is_none(), read_done: false }
    }

    /// The range of the buffer the next read goes into, if one is due.
    pub fn read_range(&self) -> (r: Option<(usize, usize)>)
        requires
            self.wf(),
        ensures
            match (r, self.read_window()) {
                (None, None) => true,
                (Some((s, e)), Some((s2, e2))) => s == s2 && e == e2,
                _ => false,
            },
    {
        if self.read_done {
            None
        } else if self.is_chunked {
            if self.read_pos + 7 < self.size - 2 {
                Some((self.read_pos + 7, self.size - 2))
            } else {
                None
            }
        } else if self.read_pos < self.size {
            Some((self.read_pos, self.size))
        } else {
            None
        }
    }

    /// Takes the result of a read of `n` bytes into the read range (0 at the end of the
    /// body). The bytes read join those waiting, framed as a chunk for a chunked body;
    /// the end of a chunked body adds the last chunk.
    pub fn on_read(&mut self, buf: &mut [u8], n: usize)
        requires
            old(self).wf(),
            old(buf)@.len() == old(self).spec_size(),
            old(self).read_window() matches Some((s, e)) && n <= e - s,
        ensures
            final(self).wf(),
            final(buf)@.len() == old(buf)@.len(),
            final(self).spec_size() == old(self).spec_size(),
            final(self).chunked() == old(self).chunked(),
            final(self).write_start() == old(self).write_start(),
            final(self).done() == (n == 0),
            final(self).pending(final(buf)@) == old(self).pending(old(buf)@) + if old(self).chunked() {
                if n == 0 {
                    last_chunk()
                } else {
                    chunk(old(buf)@.subrange(old(self).read_end() + 7int, old(self).read_end() + 7 + n))
                }
            } else {
                old(buf)@.subrange(old(self).read_end() as int, old(self).read_end() + n)
            },
    {
        let ghost pend = self.pending(buf@);
        let ghost r = self.read_pos as int;
        if self.is_chunked {
            if n == 0 {
                self.read_done = true;
                let end = end_chunks(buf, self.read_pos);
                self.read_pos = end;
                proof {
                    assert(self.pending(buf@) =~= pend + last_chunk()) by {
                        assert forall|j: int| 0 <= j < self.pending(buf@).len()
                            implies #[trigger] self.pending(buf@)[j] == (pend + last_chunk())[j] by {
                            if j < pend.len() {
                                assert(buf@[self.write_pos + j] == old(buf)@[self.write_pos + j]);
                            } else {
                                assert(buf@.subrange(r, r + 5)[j - pend.len()] == buf@[r + j - pend.len()]);
                            }
                        }
                    }
                }
            } else {
                let ghost data = buf@.subrange(r + 7, r + 7 + n);
                let end = frame_chunk(buf, self.read_pos, n);
                self.read_pos = end;
                proof {
                    let c = hex5(n as nat) + crlf() + data + crlf();
                    assert(self.pending(buf@) =~= pend + c) by {
                        assert forall|j: int| 0 <= j < self.pending(buf@).len()
                            implies #[trigger] self.pending(buf@)[j] == (pend + c)[j] by {
                            let w = self.write_pos as int;
                            let k = j - pend.len();
                            if j < pend.len() {
                                assert(buf@[w + j] == old(buf)@[w + j]);
                            } else if k < 7 {
                                assert(buf@.subrange(r, r + 7)[k] == buf@[r + k]);
                            } else if k < 7 + n {
                                assert(buf@[r + k] == old(buf)@[r + k]);
                                assert(data[k - 7] == old(buf)@[r + k]);
                            } else {
                                assert(buf@.subrange(r + 7 + n, r + 9 + n)[k - 7 - n] == buf@[r + k]);
                            }
                        }
                    }
                }
            }
        } else {
            if n == 0 {
                self.read_done = true;
                assert(old(buf)@.subrange(r, r) =~= Seq::<u8>::empty());
                assert(pend + Seq::<u8>::empty() =~= pend);
            } else {
                self.read_pos = self.read_pos + n;
                assert(self.pending(buf@) =~= pend + old(buf)@.subrange(r, r + n));
            }
        }
    }

    /// The range of the buffer waiting to be written, if any.
    pub fn write_range(&self) -> (r: Option<(usize, usize)>)
        requires
            self.wf(),
        ensures
            r == if self.write_start() < self.read_end() {
                Some((self.write_start() as usize, self.read_end() as usize))
            } else {
                None
            },
    {
        if self.write_pos < self.read_pos {
            Some((self.write_pos, self.read_pos))
        } else {
            None
        }
    }

    /// Takes the result of writing the waiting bytes to the socket: `n` of them were
    /// written. They are dropped from the front of the buffer. Writing nothing is an
    /// error, reported as `Err`.
    pub fn on_write(&mut self, buf: &mut [u8], n: usize) -> (r: Result<(), ()>)
        requires
            old(self).wf(),
            old(buf)@.len() == old(self).spec_size(),
            old(self).write_start() < old(self).read_end(),
            n <= old(self).read_end() - old(self).write_start(),
        ensures
            final(self).wf(),
            final(buf)@.len() == old(buf)@.len(),
            final(self).spec_size() == old(self).spec_size(),
            final(self).chunked() == old(self).chunked(),
            final(self).done() == old(self).done(),
            r is Err <==> n == 0,
            n == 0 ==> *final(self) == *old(self) && final(buf)@ == old(buf)@,
            n > 0 ==> final(self).write_start() == 0
                && final(self).pending(final(buf)@) == old(self).pending(old(buf)@).skip(n as int),
    {
        if n == 0 {
            return Err(());
        }
        let ghost pend = self.pending(buf@);
        self.write_pos = self.write_pos + n;
        if self.write_pos == self.read_pos {
            self.read_pos = 0;
            self.write_pos = 0;
            assert(self.pending(buf@) =~= pend.skip(n as int));
        } else {
            let w = self.write_pos;
            let left = consume_request(buf, self.read_pos, w);
            self.read_pos = left;
            self.write_pos = 0;
            assert(self.pending(buf@) =~= pend.skip(n as int)) by {
                assert forall|j: int| 0 <= j < self.pending(buf@).len()
                    implies #[trigger] self.pending(buf@)[j] == pend.skip(n as int)[j] by {
                    assert(buf@[j] == old(buf)@[w + j]);
                }
            }
        }
        Ok(())
    }

    /// Whether the whole body has been written.
    pub fn is_finished(&self) -> (r: bool)
        ensures
            r == (self.done() && self.write_start() == self.read_end()),
    {
        self.read_done && self.write_pos == self.read_pos
    }
}

} // verus!
