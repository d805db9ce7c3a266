use vstd::prelude::*;
use crate::consts::{MAX_PHYSICAL_PAGES, MAX_PPN};
use crate::memory::paging::PageEntry;

verus! {

/// The physical frames `[first, first + count)` and what they hold.
///
/// A frame is read either as a page-table node, 512 entries, or as a data
/// page, 4096 bytes; the two readings of one frame are kept apart.
pub struct PhysMemory {
    first: u64,
    count: usize,
    tables: Vec<PageEntry>,
    pages: Vec<u8>,
}

impl PhysMemory {
    /// The memory holds, for each of its frames, 512 entries and 4096 bytes.
    pub closed spec fn wf(&self) -> bool {
        &&& self.count <= MAX_PHYSICAL_PAGES
        &&& self.first + self.count <= MAX_PPN
        &&& self.tables@.len() == self.count * 512
        &&& self.pages@.len() == self.count * 4096
    }

    /// Page number of the first frame.
    pub closed spec fn first_ppn(&self) -> nat {
        self.first as nat
    }

    /// One past the page number of the last frame.
    pub closed spec fn end_ppn(&self) -> nat {
        (self.first + self.count) as nat
    }

    /// Frame `ppn` is part of this memory.
    pub open spec fn contains(&self, ppn: nat) -> bool {
        self.first_ppn() <= ppn < self.end_ppn()
    }

    /// Entry `idx` of the page-table node in frame `ppn`.
    pub closed spec fn entry(&self, ppn: nat, idx: nat) -> PageEntry {
        self.tables@[(ppn - self.first) * 512 + idx]
    }

    /// Byte `off` of the data page in frame `ppn`.
    pub closed spec fn byte(&self, ppn: nat, off: nat) -> u8 {
        self.pages@[(ppn - self.first) * 4096 + off]
    }

    /// The 4096 bytes of the data page in frame `ppn`.
    pub open spec fn page(&self, ppn: nat) -> Seq<u8> {
        Seq::new(4096, |off: int| self.byte(ppn, off as nat))
    }

    /// Both memories hold the same frames, with the same data pages.
    pub open spec fn same_pages(&self, other: &PhysMemory) -> bool {
        &&& self.first_ppn() == other.first_ppn()
        &&& self.end_ppn() == other.end_ppn()
        &&& forall|ppn: nat, off: nat|
            self.contains(ppn) && off < 4096 ==> #[trigger] self.byte(ppn, off) == other.byte(
                ppn,
                off,
            )
    }

    /// Both memories hold the same frames, with the same page-table nodes.
    pub open spec fn same_tables(&self, other: &PhysMemory) -> bool {
        &&& self.first_ppn() == other.first_ppn()
        &&& self.end_ppn() == other.end_ppn()
        &&& forall|ppn: nat, idx: nat|
            self.contains(ppn) && idx < 512 ==> #[trigger] self.entry(ppn, idx) == other.entry(
                ppn,
                idx,
            )
    }

    /// A memory holds the same data pages as itself.
    pub proof fn lemma_same_pages_refl(a: &PhysMemory)
        ensures
            a.same_pages(a),
            a.same_tables(a),
    {
    }

    /// Holding the same data pages carries over from one memory to the next.
    pub proof fn lemma_same_pages_trans(a: &PhysMemory, b: &PhysMemory, c: &PhysMemory)
        requires
            a.same_pages(b),
            b.same_pages(c),
        ensures
            a.same_pages(c),
    {
        assert forall|ppn: nat, off: nat| a.contains(ppn) && off < 4096 implies #[trigger] a.byte(
            ppn,
            off,
        ) == c.byte(ppn, off) by {
            assert(a.byte(ppn, off) == b.byte(ppn, off));
            assert(b.byte(ppn, off) == c.byte(ppn, off));
        }
    }

    /// Holding the same page-table nodes carries over from one memory to the
    /// next.
    pub proof fn lemma_same_tables_trans(a: &PhysMemory, b: &PhysMemory, c: &PhysMemory)
        requires
            a.same_tables(b),
            b.same_tables(c),
        ensures
            a.same_tables(c),
    {
        assert forall|ppn: nat, idx: nat| a.contains(ppn) && idx < 512 implies #[trigger] a.entry(
            ppn,
            idx,
        ) == c.entry(ppn, idx) by {
            assert(a.entry(ppn, idx) == b.entry(ppn, idx));
            assert(b.entry(ppn, idx) == c.entry(ppn, idx));
        }
    }

    /// The frames of a memory have page numbers of at most 44 bits.
    pub proof fn lemma_bounds(&self)
        requires
            self.wf(),
        ensures
            self.first_ppn() <= self.end_ppn() <= MAX_PPN,
    {
    }

    /// A memory of `count` frames from page number `first` on: every table
    /// entry unused, every byte zero.
    pub fn new(first: u64, count: usize) -> (mem: PhysMemory)
        requires
            count <= MAX_PHYSICAL_PAGES,
            first + count <= MAX_PPN,
        ensures
            mem.wf(),
            mem.first_ppn() == first,
            mem.end_ppn() == first + count,
            forall|ppn: nat, idx: nat|
                mem.contains(ppn) && idx < 512 ==> #[trigger] mem.entry(ppn, idx)
                    == PageEntry::empty(),
            forall|ppn: nat, off: nat|
                mem.contains(ppn) && off < 4096 ==> #[trigger] mem.byte(ppn, off) == 0,
    {
        let mut tables: Vec<PageEntry> = Vec::new();
        let mut i: usize = 0;
        while i < count * 512
            invariant
                count <= MAX_PHYSICAL_PAGES,
                i <= count * 512,
                tables@.len() == i,
                forall|j: int| 0 <= j < i ==> tables@[j] == PageEntry::empty(),
            decreases count * 512 - i,
        {
            tables.push(PageEntry::empty());
            i = i + 1;
        }
        let mut pages: Vec<u8> = Vec::new();
        let mut k: usize = 0;
        while k < count * 4096
            invariant
                count <= MAX_PHYSICAL_PAGES,
                k <= count * 4096,
                pages@.len() == k,
                forall|j: int| 0 <= j < k ==> pages@[j] == 0,
            decreases count * 4096 - k,
        {
            pages.push(0);
            k = k + 1;
        }
        PhysMemory { first, count, tables, pages }
    }

    /// Page number of the first frame.
    pub fn first_frame(&self) -> (r: u64)
        requires
            self.wf(),
        ensures
            r == self.first_ppn(),
    {
        self.first
    }

    /// Number of frames.
    pub fn frame_count(&self) -> (r: usize)
        requires
            self.wf(),
        ensures
            r == self.end_ppn() - self.first_ppn(),
    {
        self.count
    }

    /// Frame `ppn` is part of this memory.
    pub fn has_frame(&self, ppn: u64) -> (r: bool)
        requires
            self.wf(),
        ensures
            r == self.contains(ppn as nat),
    {
        self.first <= ppn && ppn - self.first < self.count as u64
    }

    /// Entry `idx` of the page-table node in frame `ppn`.
    pub fn read_entry(&self, ppn: u64, idx: usize) -> (e: PageEntry)
        requires
            self.wf(),
            self.contains(ppn as nat),
            idx < 512,
        ensures
            e == self.entry(ppn as nat, idx as nat),
    {
        self.tables[(ppn - self.first) as usize * 512 + idx]
    }

    /// Writes entry `idx` of the page-table node in frame `ppn`.
    pub fn write_entry(&mut self, ppn: u64, idx: usize, e: PageEntry)
        requires
            old(self).wf(),
            old(self).contains(ppn as nat),
            idx < 512,
        ensures
            final(self).wf(),
            final(self).same_pages(old(self)),
            final(self).entry(ppn as nat, idx as nat) == e,
            forall|p: nat, i: nat|
                final(self).contains(p) && i < 512 && !(p == ppn && i == idx)
                    ==> #[trigger] final(self).entry(p, i) == old(self).entry(p, i),
    {
        self.tables.set((ppn - self.first) as usize * 512 + idx, e);
    }

    /// Marks every entry of the page-table node in frame `ppn` unused.
    pub fn zero_table(&mut self, ppn: u64)
        requires
            old(self).wf(),
            old(self).contains(ppn as nat),
        ensures
            final(self).wf(),
            final(self).same_pages(old(self)),
            forall|i: nat| i < 512 ==> #[trigger] final(self).entry(ppn as nat, i)
                == PageEntry::empty(),
            forall|p: nat, i: nat|
                final(self).contains(p) && i < 512 && p != ppn ==> #[trigger] final(self).entry(
                    p,
                    i,
                ) == old(self).entry(p, i),
    {
        let base: usize = (ppn - self.first) as usize * 512;
        let mut i: usize = 0;
        while i < 512
            invariant
                i <= 512,
                self.wf(),
                self.first == old(self).first,
                self.count == old(self).count,
                self.pages@ == old(self).pages@,
                self.contains(ppn as nat),
                base == (ppn - self.first) * 512,
                forall|j: int| base <= j < base + i ==> self.tables@[j] == PageEntry::empty(),
                forall|j: int|
                    0 <= j < self.tables@.len() && !(base <= j < base + 512) ==> self.tables@[j]
                        == old(self).tables@[j],
            decreases 512 - i,
        {
            self.tables.set(base + i, PageEntry::empty());
            i = i + 1;
        }
    }

    /// Byte `off` of the data page in frame `ppn`.
    pub fn read_byte(&self, ppn: u64, off: usize) -> (b: u8)
        requires
            self.wf(),
            self.contains(ppn as nat),
            off < 4096,
        ensures
            b == self.byte(ppn as nat, off as nat),
    {
        self.pages[(ppn - self.first) as usize * 4096 + off]
    }

    /// Writes byte `off` of the data page in frame `ppn`.
    pub fn write_byte(&mut self, ppn: u64, off: usize, b: u8)
        requires
            old(self).wf(),
            old(self).contains(ppn as nat),
            off < 4096,
        ensures
            final(self).wf(),
            final(self).same_tables(old(self)),
            final(self).byte(ppn as nat, off as nat) == b,
            forall|p: nat, i: nat|
                final(self).contains(p) && i < 4096 && !(p == ppn && i == off)
                    ==> #[trigger] final(self).byte(p, i) == old(self).byte(p, i),
    {
        self.pages.set((ppn - self.first) as usize * 4096 + off, b);
    }

    /// Fills the data page in frame `ppn` with `length` bytes of `data`, from
    /// index `start` on, and with zeros behind them.
    pub fn fill_page(&mut self, ppn: u64, data: &[u8], start: usize, length: usize)
        requires
            old(self).wf(),
            old(self).contains(ppn as nat),
            length <= 4096,
            start + length <= data@.len(),
        ensures
            final(self).wf(),
            final(self).same_tables(old(self)),
            final(self).page(ppn as nat) == page_image(data@, start as nat, length as nat),
            forall|p: nat, i: nat|
                final(self).contains(p) && i < 4096 && p != ppn ==> #[trigger] final(self).byte(
                    p,
                    i,
                ) == old(self).byte(p, i),
    {
        let base: usize = (ppn - self.first) as usize * 4096;
        let n: usize = data.len();
        let mut i: usize = 0;
        while i < 4096
            invariant
                i <= 4096,
                length <= 4096,
                n == data@.len(),
                start + length <= data@.len(),
                self.pages@.len() == old(self).pages@.len(),
                self.wf(),
                self.first == old(self).first,
                self.count == old(self).count,
                self.tables@ == old(self).tables@,
                self.contains(ppn as nat),
                base == (ppn - self.first) * 4096,
                forall|j: int|
                    base <= j < base + i ==> self.pages@[j] == page_image(
                        data@,
                        start as nat,
                        length as nat,
                    )[j - base],
                forall|j: int|
                    0 <= j < self.pages@.len() && !(base <= j < base + 4096) ==> self.pages@[j]
                        == old(self).pages@[j],
            decreases 4096 - i,
        {
            let b: u8 = if i < length {
                data[start + i]
            } else {
                0
            };
            self.pages.set(base + i, b);
            i = i + 1;
        }
        proof {
            assert(self.page(ppn as nat) =~= page_image(data@, start as nat, length as nat));
        }
    }
}

/// What a page holds after `length` bytes of `data`, from index `start` on,
/// were copied to its beginning: those bytes, then zeros.
pub open spec fn page_image(data: Seq<u8>, start: nat, length: nat) -> Seq<u8> {
    Seq::new(
        4096,
        |i: int|
            if i < length {
                data[start + i]
            } else {
                0u8
            },
    )
}

} // verus!
