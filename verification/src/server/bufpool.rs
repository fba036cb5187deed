//! A pool of connection buffers that gives back buffers no connection needed lately.
use vstd::prelude::*;
use crate::server::BUFSIZE;

verus! {

/// A connection buffer taken from a pool.
pub struct Buffer {
    data: Vec<u8>,
}

impl Buffer {
    /// The bytes of the buffer.
    pub closed spec fn bytes(&self) -> Seq<u8> {
        self.data@
    }

    fn new(v: Vec<u8>) -> (r: Self)
        ensures
            r.bytes() == v@,
    {
        Self { data: v }
    }

    /// The bytes of the buffer, to be written.
    pub fn get_mut(&mut self) -> (r: &mut [u8])
        ensures
            r@ == old(self).bytes(),
            final(r)@ == final(self).bytes(),
    {
        self.data.as_mut_slice()
    }

    /// The buffer's storage, to be given back to its pool when the buffer is done.
    pub fn into_storage(self) -> (r: Vec<u8>)
        ensures
            r@ == self.bytes(),
    {
        self.data
    }
}

impl Default for Buffer {
    fn default() -> (r: Self)
        ensures
            r.bytes() == Seq::new(BUFSIZE as nat, |i: int| 0u8),
    {
        let mut data: Vec<u8> = Vec::new();
        let mut i: usize = 0;
        while i < BUFSIZE
            invariant
                i <= BUFSIZE,
                data@ == Seq::new(i as nat, |j: int| 0u8),
            decreases BUFSIZE - i,
        {
            data.push(0);
            i += 1;
            assert(data@ =~= Seq::new(i as nat, |j: int| 0u8));
        }
        Self { data }
    }
}

/// A pool of spare buffers. It remembers the fewest spare buffers it held since the
/// last reset; a reset drops that many, as nobody needed them, but keeps at least one.
pub struct BufPool {
    buffers: Vec<Vec<u8>>,
    min_size: usize,
}

impl BufPool {
    /// The spare buffers, each as its bytes.
    pub closed spec fn spare(&self) -> Seq<Seq<u8>> {
        self.buffers@.map_values(|b: Vec<u8>| b@)
    }

    /// The fewest spare buffers the pool held since the last reset.
    pub closed spec fn low_water(&self) -> nat {
        self.min_size as nat
    }

    /// An empty pool.
    pub fn new() -> (r: Self)
        ensures
            r.spare().len() == 0,
            r.low_water() == 0,
    {
        let r = Self { buffers: Vec::new(), min_size: 0 };
        assert(r.spare() =~= Seq::<Seq<u8>>::empty());
        r
    }

    /// Takes a spare buffer, the one given back last, or a new zeroed buffer when there
    /// is none.
    pub fn get(&mut self) -> (r: Buffer)
        ensures
            old(self).spare().len() > 0 ==> r.bytes() == old(self).spare().last()
                && final(self).spare() == old(self).spare().drop_last(),
            old(self).spare().len() == 0 ==> r.bytes() == Seq::new(BUFSIZE as nat, |i: int| 0u8)
                && final(self).spare() == old(self).spare(),
            final(self).low_water() == if old(self).low_water() > old(self).spare().len() {
                old(self).spare().len()
            } else {
                old(self).low_water()
            },
    {
        if self.min_size > self.buffers.len() {
            self.min_size = self.buffers.len();
        }
        let ghost before = self.spare();
        match self.buffers.pop() {
            Some(b) => {
                assert(self.spare() =~= before.drop_last());
                Buffer::new(b)
            },
            None => Buffer::default(),
        }
    }

    /// Gives a buffer back to the pool.
    pub fn give(&mut self, buf: Vec<u8>)
        ensures
            final(self).spare() == old(self).spare().push(buf@),
            final(self).low_water() == old(self).low_water(),
    {
        self.buffers.push(buf);
        assert(self.spare() =~= old(self).spare().push(buf@));
    }

    /// Drops the spare buffers nobody needed since the last reset, keeping at least one
    /// (if there is one), and starts counting again.
    pub fn reset(&mut self)
        ensures
            final(self).spare() == old(self).spare().take(
                if old(self).spare().len() > old(self).low_water() + 1 {
                    old(self).spare().len() - old(self).low_water()
                } else if old(self).spare().len() == 0 {
                    0
                } else {
                    1
                } as int,
            ),
            final(self).low_water() == final(self).spare().len(),
    {
        let len = self.buffers.len();
        let unused = if len > self.min_size { len - self.min_size } else { 0 };
        let newsize = if unused > 1 { unused } else { 1 };
        let ghost before = self.spare();
        self.buffers.truncate(newsize);
        self.min_size = self.buffers.len();
        assert(self.spare() =~= before.take(if len < newsize { len as int } else { newsize as int }));
    }
}

} // verus!
