//! The ring buffer that carries bytes from an async stream function to the socket.
//!
//! The writer side copies bytes in with [`Buffer::copy_from`]; the reader side takes
//! them out, in the same order, with [`Buffer::copy_to`].
use vstd::prelude::*;

verus! {

/// Capacity of the buffer behind an async stream body.
pub const BUFFER_SIZE: usize = 1024;

/// The index `x` into a ring of size `n`, for `x < 2 * n`.
pub open spec fn wrap(x: int, n: int) -> int {
    if x < n { x } else { x - n }
}

/// Circular buffer with fixed capacity `N`.
///
/// The bytes held start at `head`; new bytes are written at `tail`. When `head` and
/// `tail` meet, `is_empty` tells an empty buffer from a full one.
pub struct Buffer<const N: usize> {
    pub buffer: [u8; N],
    pub head: usize,
    pub tail: usize,
    pub is_empty: bool,
}

impl<const N: usize> Buffer<N> {
    /// Positions in range, and an empty buffer has its two ends together.
    pub open spec fn wf(&self) -> bool {
        &&& N > 0
        &&& self.head < N
        &&& self.tail < N
        &&& self.is_empty ==> self.head == self.tail
    }

    /// The number of bytes held.
    pub open spec fn spec_len(&self) -> nat {
        if self.is_empty {
            0
        } else if self.head < self.tail {
            (self.tail - self.head) as nat
        } else {
            (N - self.head + self.tail) as nat
        }
    }

    /// The bytes held, oldest first.
    pub open spec fn contents(&self) -> Seq<u8> {
        Seq::new(self.spec_len(), |k: int| self.buffer@[wrap(self.head + k, N as int)])
    }

    /// An empty buffer.
    pub fn new() -> (r: Self)
        requires
            N > 0,
        ensures
            r.wf(),
            r.is_empty,
            r.head == 0,
            r.tail == 0,
            r.contents() == Seq::<u8>::empty(),
    {
        let r = Self { buffer: vstd::array::array_fill_for_copy_types(0u8), head: 0, tail: 0, is_empty: true };
        assert(r.contents() =~= Seq::<u8>::empty());
        r
    }

    /// The number of bytes held.
    pub fn len(&self) -> (r: usize)
        requires
            self.wf(),
        ensures
            r == self.spec_len(),
    {
        if self.is_empty {
            0
        } else if self.head < self.tail {
            self.tail - self.head
        } else {
            N - self.head + self.tail
        }
    }

    /// Copies bytes out of the buffer into `target`, oldest first, and returns how many.
    ///
    /// As many bytes are taken as the buffer holds and `target` has room for.
    pub fn copy_to(&mut self, target: &mut [u8]) -> (n: usize)
        requires
            old(self).wf(),
        ensures
            final(self).wf(),
            n == if old(self).spec_len() < old(target)@.len() { old(self).spec_len() } else { old(target)@.len() as nat },
            final(self).contents() == old(self).contents().skip(n as int),
            final(target)@.len() == old(target)@.len(),
            final(target)@.subrange(0, n as int) == old(self).contents().take(n as int),
            final(target)@.skip(n as int) == old(target)@.skip(n as int),
            final(self).buffer == old(self).buffer,
            final(self).tail == old(self).tail,
    {
        self.copy_to_at(target, 0)
    }

    /// Copies bytes out of the buffer into `target` from `offset` on, oldest first, and
    /// returns how many; the bytes of `target` before `offset` and after the copy stay.
    ///
    /// As many bytes are taken as the buffer holds and `target` has room for after
    /// `offset`.
    pub fn copy_to_at(&mut self, target: &mut [u8], offset: usize) -> (n: usize)
        requires
            old(self).wf(),
            offset <= old(target)@.len(),
        ensures
            final(self).wf(),
            n == if old(self).spec_len() < old(target)@.len() - offset {
                old(self).spec_len()
            } else {
                (old(target)@.len() - offset) as nat
            },
            final(self).contents() == old(self).contents().skip(n as int),
            final(target)@.len() == old(target)@.len(),
            final(target)@.take(offset as int) == old(target)@.take(offset as int),
            final(target)@.subrange(offset as int, offset + n) == old(self).contents().take(n as int),
            final(target)@.skip(offset + n) == old(target)@.skip(offset + n),
            final(self).buffer == old(self).buffer,
            final(self).tail == old(self).tail,
    {
        let ghost old_contents = self.contents();
        let ghost old_target = target@;
        let room = target.len() - offset;
        assert(old_target.len() <= usize::MAX);
        if self.is_empty || room == 0 {
            assert(old_contents.skip(0) =~= old_contents);
            assert(target@.skip(offset + 0) =~= old_target.skip(offset + 0));
            assert(target@.subrange(offset as int, offset as int) =~= old_contents.take(0));
            return 0;
        }

        // Calculate how many bytes are available to read
        let available = if self.head < self.tail {
            self.tail - self.head
        } else if self.head > self.tail {
            (N - self.head) + self.tail
        } else {
            N
        };

        let to_copy = if available < room { available } else { room };

        // Copy from head to the end of the buffer (or up to to_copy)
        let first_part = if N - self.head < to_copy { N - self.head } else { to_copy };
        let mut k: usize = 0;
        while k < first_part
            invariant
                self.wf(),
                old_contents == self.contents(),
                to_copy <= old_contents.len(),
                first_part <= to_copy,
                first_part <= N - self.head,
                offset + to_copy <= target@.len(),
                target@.len() == old_target.len(),
                old_target.len() <= usize::MAX,
                k <= first_part,
                forall|j: int| 0 <= j < k ==> target@[offset + j] == old_contents[j],
                forall|j: int| 0 <= j < offset ==> target@[j] == old_target[j],
                forall|j: int| offset + k <= j < target@.len() ==> target@[j] == old_target[j],
            decreases first_part - k,
        {
            target[offset + k] = self.buffer[self.head + k];
            k += 1;
        }

        // If we still need more, wrap around and copy from the start
        if first_part < to_copy {
            let second_part = to_copy - first_part;
            let mut j: usize = 0;
            while j < second_part
                invariant
                    self.wf(),
                    old_contents == self.contents(),
                    to_copy <= old_contents.len(),
                    first_part == N - self.head,
                    second_part == to_copy - first_part,
                    offset + to_copy <= target@.len(),
                    target@.len() == old_target.len(),
                    old_target.len() <= usize::MAX,
                    j <= second_part,
                    forall|i: int| 0 <= i < first_part + j ==> target@[offset + i] == old_contents[i],
                    forall|i: int| 0 <= i < offset ==> target@[i] == old_target[i],
                    forall|i: int| offset + first_part + j <= i < target@.len() ==> target@[i] == old_target[i],
                decreases second_part - j,
            {
                target[offset + first_part + j] = self.buffer[j];
                j += 1;
            }
        }

        let ghost old_head = self.head;
        self.head = if to_copy < N - self.head { self.head + to_copy } else { to_copy - (N - self.head) };
        self.is_empty = self.head == self.tail;
        proof {
            assert(self.contents() =~= old_contents.skip(to_copy as int)) by {
                assert forall|i: int| 0 <= i < self.contents().len() implies self.contents()[i] == old_contents.skip(to_copy as int)[i] by {
                    assert(old_contents[to_copy + i] == self.buffer@[wrap(old_head + to_copy + i, N as int)]);
                }
            }
            assert(target@.take(offset as int) =~= old_target.take(offset as int));
            assert(target@.subrange(offset as int, offset + to_copy) =~= old_contents.take(to_copy as int));
            assert(target@.skip(offset + to_copy) =~= old_target.skip(offset + to_copy));
        }
        to_copy
    }

    /// Copies bytes from `src` into the buffer, after the bytes it holds, and returns
    /// how many.
    ///
    /// As many bytes are taken as `src` has and the buffer has room for.
    pub fn copy_from(&mut self, src: &[u8]) -> (n: usize)
        requires
            old(self).wf(),
        ensures
            final(self).wf(),
            n == if N - old(self).spec_len() < src@.len() { (N - old(self).spec_len()) as nat } else { src@.len() },
            final(self).contents() == old(self).contents() + src@.take(n as int),
            final(self).head == old(self).head,
            n == 0 ==> *final(self) == *old(self),
    {
        let ghost old_contents = self.contents();
        if src.len() == 0 {
            return 0;
        }

        // Calculate how many bytes can be written
        let available = if self.is_empty {
            N
        } else if self.tail < self.head {
            self.head - self.tail
        } else if self.tail > self.head {
            (N - self.tail) + self.head
        } else {
            0
        };

        let to_copy = if available < src.len() { available } else { src.len() };
        if to_copy == 0 {
            return 0;
        }

        let ghost len0 = old_contents.len() as int;
        let ghost head = self.head as int;
        assert(self.tail as int == wrap(head + len0, N as int));

        // Write at the tail position
        let first_part = if N - self.tail < to_copy { N - self.tail } else { to_copy };
        let mut k: usize = 0;
        while k < first_part
            invariant
                self.wf(),
                self.head == head,
                self.tail as int == wrap(head + len0, N as int),
                len0 + to_copy <= N,
                len0 == old_contents.len(),
                to_copy <= src@.len(),
                first_part <= to_copy,
                first_part <= N - self.tail,
                k <= first_part,
                forall|i: int| 0 <= i < len0 ==> self.buffer@[wrap(head + i, N as int)] == old_contents[i],
                forall|i: int| 0 <= i < k ==> self.buffer@[wrap(head + len0 + i, N as int)] == src@[i],
            decreases first_part - k,
        {
            let ghost before = self.buffer@;
            let pos = self.tail + k;
            self.buffer[pos] = src[k];
            proof {
                assert forall|i: int| 0 <= i < len0 implies self.buffer@[wrap(head + i, N as int)] == old_contents[i] by {
                    assert(wrap(head + i, N as int) != pos);
                    assert(before[wrap(head + i, N as int)] == old_contents[i]);
                }
                assert forall|i: int| 0 <= i < k + 1 implies self.buffer@[wrap(head + len0 + i, N as int)] == src@[i] by {
                    if i < k {
                        assert(wrap(head + len0 + i, N as int) != pos);
                    }
                }
            }
            k += 1;
        }

        // Wrap around if needed
        if first_part < to_copy {
            let second_part = to_copy - first_part;
            let mut j: usize = 0;
            while j < second_part
                invariant
                    self.wf(),
                    self.head == head,
                    self.tail as int == wrap(head + len0, N as int),
                    len0 + to_copy <= N,
                    len0 == old_contents.len(),
                    to_copy <= src@.len(),
                    first_part == N - self.tail,
                    second_part == to_copy - first_part,
                    j <= second_part,
                    forall|i: int| 0 <= i < len0 ==> self.buffer@[wrap(head + i, N as int)] == old_contents[i],
                    forall|i: int| 0 <= i < first_part + j ==> self.buffer@[wrap(head + len0 + i, N as int)] == src@[i],
                decreases second_part - j,
            {
                let ghost before = self.buffer@;
                self.buffer[j] = src[first_part + j];
                proof {
                    assert forall|i: int| 0 <= i < len0 implies self.buffer@[wrap(head + i, N as int)] == old_contents[i] by {
                        assert(wrap(head + i, N as int) != j);
                        assert(before[wrap(head + i, N as int)] == old_contents[i]);
                    }
                    assert forall|i: int| 0 <= i < first_part + j + 1 implies self.buffer@[wrap(head + len0 + i, N as int)] == src@[i] by {
                        if i < first_part + j {
                            assert(wrap(head + len0 + i, N as int) != j);
                        }
                    }
                }
                j += 1;
            }
        }

        self.tail = if to_copy < N - self.tail { self.tail + to_copy } else { to_copy - (N - self.tail) };
        self.is_empty = false;
        proof {
            assert(self.spec_len() == len0 + to_copy);
            assert(self.contents() =~= old_contents + src@.take(to_copy as int)) by {
                assert forall|i: int| 0 <= i < len0 + to_copy implies #[trigger] self.contents()[i] == (old_contents + src@.take(to_copy as int))[i] by {
                    if i >= len0 {
                        assert(wrap(head + i, N as int) == wrap(head + len0 + (i - len0), N as int));
                    }
                }
            }
        }
        to_copy
    }
}

} // verus!
