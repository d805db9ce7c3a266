use vstd::prelude::*;

verus! {

/// A block of memory that serves as a disk.
pub struct MemBuf {
    data: Vec<u8>,
}

impl MemBuf {
    /// The bytes of the disk.
    pub closed spec fn view(&self) -> Seq<u8> {
        self.data@
    }

    /// A disk that holds `data`.
    pub fn new(data: Vec<u8>) -> (d: Self)
        ensures
            d@ == data@,
    {
        MemBuf { data }
    }

    /// Size of the disk, in bytes.
    pub fn len(&self) -> (n: usize)
        ensures
            n == self@.len(),
    {
        self.data.len()
    }

    /// Reads from `offset` on into `buf`, as many bytes as `buf` takes and
    /// the disk has. Returns their number.
    pub fn read_at(&self, offset: usize, buf: &mut Vec<u8>) -> (n: usize)
        requires
            offset <= self@.len(),
        ensures
            n == (if old(buf)@.len() <= self@.len() - offset {
                old(buf)@.len() as int
            } else {
                self@.len() - offset
            }),
            final(buf)@ == self@.subrange(offset as int, offset + n) + old(buf)@.subrange(
                n as int,
                old(buf)@.len() as int,
            ),
    {
        let total = self.data.len();
        let avail = total - offset;
        let len = if buf.len() <= avail {
            buf.len()
        } else {
            avail
        };
        let mut i: usize = 0;
        while i < len
            invariant
                i <= len,
                len <= buf@.len(),
                offset + len <= self.data@.len(),
                total == self.data@.len(),
                buf@.len() == old(buf)@.len(),
                forall|k: int| 0 <= k < i ==> buf@[k] == self.data@[offset + k],
                forall|k: int| i <= k < buf@.len() ==> buf@[k] == old(buf)@[k],
            decreases len - i,
        {
            buf.set(i, self.data[offset + i]);
            i = i + 1;
        }
        proof {
            assert(buf@ =~= self@.subrange(offset as int, offset + len) + old(buf)@.subrange(
                len as int,
                old(buf)@.len() as int,
            ));
        }
        len
    }

    /// Writes `buf` to the disk from `offset` on, as many bytes as the disk
    /// takes. Returns their number.
    pub fn write_at(&mut self, offset: usize, buf: &Vec<u8>) -> (n: usize)
        requires
            offset <= old(self)@.len(),
        ensures
            n == (if buf@.len() <= old(self)@.len() - offset {
                buf@.len() as int
            } else {
                old(self)@.len() - offset
            }),
            final(self)@ == old(self)@.subrange(0, offset as int) + buf@.subrange(0, n as int)
                + old(self)@.subrange(offset + n, old(self)@.len() as int),
    {
        let total = self.data.len();
        let avail = total - offset;
        let len = if buf.len() <= avail {
            buf.len()
        } else {
            avail
        };
        let mut i: usize = 0;
        while i < len
            invariant
                i <= len,
                len <= buf@.len(),
                offset + len <= self.data@.len(),
                total == self.data@.len(),
                self.data@.len() == old(self).data@.len(),
                forall|k: int| 0 <= k < i ==> self.data@[offset + k] == buf@[k],
                forall|k: int|
                    0 <= k < self.data@.len() && !(offset <= k < offset + i) ==> self.data@[k]
                        == old(self).data@[k],
            decreases len - i,
        {
            self.data.set(offset + i, buf[i]);
            i = i + 1;
        }
        proof {
            assert(self@ =~= old(self)@.subrange(0, offset as int) + buf@.subrange(0, len as int)
                + old(self)@.subrange(offset + len, old(self)@.len() as int));
        }
        len
    }

    /// Nothing is left to write back: the disk is the memory.
    pub fn sync(&self) {
    }
}

} // verus!
