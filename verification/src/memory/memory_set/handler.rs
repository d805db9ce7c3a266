use vstd::prelude::*;
use crate::consts::{MAX_VPN, PAGE_SIZE, PHYSICAL_MEMORY_OFFSET};
use crate::memory::{alloc_frame, dealloc_frame, Frame};
use crate::memory::frame_allocator::SegmentTreeAllocator;
use crate::memory::memory_set::attr::MemoryAttr;
use crate::memory::paging::{vpn_of, PageEntry, PageTableImpl};
use crate::memory::phys::{page_image, PhysMemory};

verus! {

/// How the pages of an area get their frames.
#[derive(Clone, Copy, Debug, PartialEq, Eq, Structural)]
pub enum Backing {
    /// The page at `va` gets the frame at `va - offset`.
    Linear { offset: u64 },
    /// Every page gets a frame of its own from the frame allocator.
    ByFrame,
}

/// Number of frames that mapping the page `vpn` takes out of the allocator:
/// the page-table nodes that are missing, and the frame of the page itself
/// where the area is backed frame by frame.
pub open spec fn page_frames_needed(
    b: Backing,
    pt: &PageTableImpl,
    mem: &PhysMemory,
    vpn: nat,
) -> nat {
    pt.tables_needed(mem, vpn) + (if b is ByFrame {
        1nat
    } else {
        0nat
    })
}

/// What mapping the page of `va` with protection `attr` does to the page
/// table, the memory and the allocator.
pub open spec fn map_post(
    b: Backing,
    pt0: &PageTableImpl,
    mem0: &PhysMemory,
    a0: &SegmentTreeAllocator,
    pt1: &PageTableImpl,
    mem1: &PhysMemory,
    a1: &SegmentTreeAllocator,
    va: u64,
    attr: MemoryAttr,
) -> bool {
    let vpn = vpn_of(va);
    &&& pt1.inv(mem1)
    &&& a1.wf()
    &&& pt1.backed_by(mem1, a1)
    &&& a1.lo() == a0.lo()
    &&& a1.hi() == a0.hi()
    &&& pt1.root_ppn() == pt0.root_ppn()
    &&& pt1.lookup(mem1, vpn) matches Some(e) && {
        &&& e == attr.applied(PageEntry::leaf(e.ppn))
        &&& pt1.view(mem1) == pt0.view(mem0).insert(vpn, e)
        &&& match b {
            Backing::Linear { offset } => e.ppn == (va - offset) / (PAGE_SIZE as int),
            Backing::ByFrame => a0.is_free(e.ppn as nat) && !a1.is_free(e.ppn as nat)
                && !pt1.frames().contains(e.ppn as nat),
        }
        &&& forall|f: nat| #[trigger]
            pt1.frames().contains(f) ==> pt0.frames().contains(f) || (a0.is_free(f) && !a1.is_free(
                f,
            ) && !(b is ByFrame && f == e.ppn))
        &&& forall|f: nat|
            a0.is_free(f) && !#[trigger] a1.is_free(f) ==> pt1.frames().contains(f) || (b is ByFrame
                && f == e.ppn)
    }
    &&& forall|q: nat|
        q < 512 ==> (pt1.l1_present(mem1, q) <==> (pt0.l1_present(mem0, q) || q == vpn / 262144))
    &&& forall|q: nat|
        q < 262144 ==> (pt1.l0_present(mem1, q) <==> (pt0.l0_present(mem0, q) || q == vpn / 512))
    &&& a1.free_set().len() == a0.free_set().len() - page_frames_needed(b, pt0, mem0, vpn)
    &&& forall|f: nat| a1.is_free(f) ==> a0.is_free(f)
    &&& forall|f: nat| #[trigger] pt0.frames().contains(f) ==> pt1.frames().contains(f)
    &&& mem1.same_pages(mem0)
    &&& forall|p: nat, i: nat|
        mem1.contains(p) && i < 512 && !pt1.frames().contains(p) ==> #[trigger] mem1.entry(p, i)
            == mem0.entry(p, i)
}

/// What the handler of an area needs to find before it can unmap the page of
/// `va`: the page table has an entry for the page, and where the page has a
/// frame of its own, that frame is one that the allocator has handed out.
pub open spec fn unmap_pre(
    b: Backing,
    pt: &PageTableImpl,
    mem: &PhysMemory,
    alloc: &SegmentTreeAllocator,
    va: u64,
) -> bool {
    &&& pt.inv(mem)
    &&& alloc.wf()
    &&& pt.lookup(mem, vpn_of(va)) matches Some(e) && (b is ByFrame && e.valid ==> {
        &&& alloc.lo() <= e.ppn < alloc.hi()
        &&& !alloc.is_free(e.ppn as nat)
    })
}

/// What unmapping the page of `va` does: the entry of the page is cleared and
/// no other entry changes; the frame of a page that was mapped frame by
/// frame is free again, and no other frame changes hands.
pub open spec fn unmap_post(
    b: Backing,
    pt: &PageTableImpl,
    mem0: &PhysMemory,
    a0: &SegmentTreeAllocator,
    mem1: &PhysMemory,
    a1: &SegmentTreeAllocator,
    va: u64,
) -> bool {
    let leaf = pt.lookup(mem0, vpn_of(va)).unwrap();
    &&& pt.inv(mem1)
    &&& pt.lookup(mem1, vpn_of(va)) == Some(PageEntry::empty())
    &&& forall|v: nat|
        v < MAX_VPN && v != vpn_of(va) ==> #[trigger] pt.lookup(mem1, v) == pt.lookup(mem0, v)
    &&& pt.view(mem1) == pt.view(mem0).remove(vpn_of(va))
    &&& mem1.same_pages(mem0)
    &&& forall|p: nat, i: nat|
        mem1.contains(p) && i < 512 && !pt.frames().contains(p) ==> #[trigger] mem1.entry(p, i)
            == mem0.entry(p, i)
    &&& a1.wf()
    &&& a1.lo() == a0.lo()
    &&& a1.hi() == a0.hi()
    &&& if b is ByFrame && leaf.valid {
        &&& forall|q: nat|
            #![trigger a1.is_free(q)]
            a1.is_free(q) <==> (a0.is_free(q) || q == leaf.ppn)
        &&& a1.free_set() == a0.free_set().insert(leaf.ppn as nat)
        &&& a1.free_set().len() == a0.free_set().len() + 1
    } else {
        &&& *a1 == *a0
    }
}

/// What the handler of an area needs to find before it can fill the page of
/// `va`.
pub open spec fn page_copy_pre(
    b: Backing,
    pt: &PageTableImpl,
    mem: &PhysMemory,
    va: u64,
    data: Seq<u8>,
    start: usize,
    length: usize,
) -> bool {
    &&& pt.inv(mem)
    &&& length <= 4096
    &&& start + length <= data.len()
    &&& pt.lookup(mem, vpn_of(va)) matches Some(e) && {
        &&& mem.contains(e.ppn as nat)
        &&& b matches Backing::Linear { offset } ==> {
            &&& va == e.ppn * PAGE_SIZE + offset
            &&& va == e.ppn * PAGE_SIZE + PHYSICAL_MEMORY_OFFSET
        }
    }
}

/// What filling the page of `va` does to the memory: the frame that the page
/// is mapped to holds the bytes copied and zeros behind them, and nothing
/// else has changed.
pub open spec fn page_copy_post(
    pt: &PageTableImpl,
    mem0: &PhysMemory,
    mem1: &PhysMemory,
    va: u64,
    data: Seq<u8>,
    start: usize,
    length: usize,
) -> bool {
    let target = pt.lookup(mem0, vpn_of(va)).unwrap().ppn as nat;
    &&& mem1.wf()
    &&& mem1.same_tables(mem0)
    &&& mem1.page(target) == page_image(data, start as nat, length as nat)
    &&& forall|p: nat, i: nat|
        mem1.contains(p) && i < 4096 && p != target ==> #[trigger] mem1.byte(p, i) == mem0.byte(
            p,
            i,
        )
}

/// The policy by which the pages of a memory area get their frames.
pub trait MemoryHandler {
    /// The policy, as a plain value.
    spec fn backing(&self) -> Backing;

    /// The policy, as a plain value that an area can keep.
    fn box_clone(&self) -> (r: Backing)
        ensures
            r == self.backing(),
    ;

    /// Maps the page of `va` and gives its entry the protection `attr`.
    fn map(
        &self,
        pt: &mut PageTableImpl,
        mem: &mut PhysMemory,
        alloc: &mut SegmentTreeAllocator,
        va: u64,
        attr: &MemoryAttr,
    )
        requires
            old(pt).inv(old(mem)),
            old(alloc).wf(),
            old(pt).backed_by(old(mem), old(alloc)),
            old(alloc).free_set().len() >= page_frames_needed(
                self.backing(),
                old(pt),
                old(mem),
                vpn_of(va),
            ),
            self.backing() matches Backing::Linear { offset } ==> va >= offset,
        ensures
            map_post(
                self.backing(),
                old(pt),
                old(mem),
                old(alloc),
                final(pt),
                final(mem),
                final(alloc),
                va,
                *attr,
            ),
    ;

    /// Takes the mapping of the page of `va` away. Where the page had a
    /// frame of its own, the frame goes back to the allocator.
    fn unmap(
        &self,
        pt: &PageTableImpl,
        mem: &mut PhysMemory,
        alloc: &mut SegmentTreeAllocator,
        va: u64,
    )
        requires
            unmap_pre(self.backing(), pt, old(mem), old(alloc), va),
        ensures
            unmap_post(self.backing(), pt, old(mem), old(alloc), final(mem), final(alloc), va),
    ;

    /// Fills the page of `va` with `length` bytes of `data`, from index
    /// `start` on, and with zeros behind them.
    fn page_copy(
        &self,
        pt: &PageTableImpl,
        mem: &mut PhysMemory,
        va: u64,
        data: &[u8],
        start: usize,
        length: usize,
    )
        requires
            page_copy_pre(self.backing(), pt, old(mem), va, data@, start, length),
        ensures
            page_copy_post(pt, old(mem), final(mem), va, data@, start, length),
    ;
}

/// Linear mapping: a page and its frame lie a fixed distance apart.
#[derive(Clone, Copy, Debug)]
pub struct Linear {
    offset: u64,
}

impl Linear {
    /// The linear mapping at the distance `off`.
    pub fn new(off: u64) -> (h: Self)
        ensures
            h.backing() == (Backing::Linear { offset: off }),
    {
        Linear { offset: off }
    }
}

impl MemoryHandler for Linear {
    closed spec fn backing(&self) -> Backing {
        Backing::Linear { offset: self.offset }
    }

    fn box_clone(&self) -> (r: Backing) {
        Backing::Linear { offset: self.offset }
    }

    fn map(
        &self,
        pt: &mut PageTableImpl,
        mem: &mut PhysMemory,
        alloc: &mut SegmentTreeAllocator,
        va: u64,
        attr: &MemoryAttr,
    ) {
        map_to(pt, mem, alloc, va, va - self.offset, attr);
    }

    fn unmap(
        &self,
        pt: &PageTableImpl,
        mem: &mut PhysMemory,
        alloc: &mut SegmentTreeAllocator,
        va: u64,
    ) {
        pt.unmap(mem, va);
    }

    fn page_copy(
        &self,
        pt: &PageTableImpl,
        mem: &mut PhysMemory,
        va: u64,
        data: &[u8],
        start: usize,
        length: usize,
    ) {
        let e = pt.get_entry(mem, va).unwrap();
        proof {
            pt.lemma_inv_mem(mem);
        }
        mem.fill_page(e.ppn, data, start, length);
    }
}

/// Mapping frame by frame: every page gets a frame of its own.
#[derive(Clone, Copy, Debug)]
pub struct ByFrame;

impl ByFrame {
    /// The mapping frame by frame.
    pub fn new() -> (h: Self)
        ensures
            h.backing() == Backing::ByFrame,
    {
        ByFrame {  }
    }
}

impl MemoryHandler for ByFrame {
    closed spec fn backing(&self) -> Backing {
        Backing::ByFrame
    }

    fn box_clone(&self) -> (r: Backing) {
        Backing::ByFrame
    }

    fn map(
        &self,
        pt: &mut PageTableImpl,
        mem: &mut PhysMemory,
        alloc: &mut SegmentTreeAllocator,
        va: u64,
        attr: &MemoryAttr,
    ) {
        let frame = alloc_frame(alloc).unwrap();
        let pa = frame.start_address();
        proof {
            assert((frame.number() * PAGE_SIZE) as u64 / PAGE_SIZE == frame.number());
        }
        map_to(pt, mem, alloc, va, pa, attr);
    }

    fn unmap(
        &self,
        pt: &PageTableImpl,
        mem: &mut PhysMemory,
        alloc: &mut SegmentTreeAllocator,
        va: u64,
    ) {
        let e = pt.get_entry(mem, va).unwrap();
        pt.unmap(mem, va);
        if e.valid {
            dealloc_frame(alloc, Frame::of_ppn(e.ppn));
        } else {
            proof {
                assert(alloc.free_set() =~= old(alloc).free_set());
            }
        }
    }

    fn page_copy(
        &self,
        pt: &PageTableImpl,
        mem: &mut PhysMemory,
        va: u64,
        data: &[u8],
        start: usize,
        length: usize,
    ) {
        let e = pt.get_entry(mem, va).unwrap();
        proof {
            pt.lemma_inv_mem(mem);
        }
        mem.fill_page(e.ppn, data, start, length);
    }
}

impl MemoryHandler for Backing {
    open spec fn backing(&self) -> Backing {
        *self
    }

    fn box_clone(&self) -> (r: Backing) {
        *self
    }

    fn map(
        &self,
        pt: &mut PageTableImpl,
        mem: &mut PhysMemory,
        alloc: &mut SegmentTreeAllocator,
        va: u64,
        attr: &MemoryAttr,
    ) {
        match self {
            Backing::Linear { offset } => Linear::new(*offset).map(pt, mem, alloc, va, attr),
            Backing::ByFrame => ByFrame::new().map(pt, mem, alloc, va, attr),
        }
    }

    fn unmap(
        &self,
        pt: &PageTableImpl,
        mem: &mut PhysMemory,
        alloc: &mut SegmentTreeAllocator,
        va: u64,
    ) {
        match self {
            Backing::Linear { offset } => Linear::new(*offset).unmap(pt, mem, alloc, va),
            Backing::ByFrame => ByFrame::new().unmap(pt, mem, alloc, va),
        }
    }

    fn page_copy(
        &self,
        pt: &PageTableImpl,
        mem: &mut PhysMemory,
        va: u64,
        data: &[u8],
        start: usize,
        length: usize,
    ) {
        match self {
            Backing::Linear { offset } => Linear::new(*offset).page_copy(
                pt,
                mem,
                va,
                data,
                start,
                length,
            ),
            Backing::ByFrame => ByFrame::new().page_copy(pt, mem, va, data, start, length),
        }
    }
}

/// Maps the page of `va` to the frame of `pa` and gives the entry the
/// protection `attr`.
fn map_to(
    pt: &mut PageTableImpl,
    mem: &mut PhysMemory,
    alloc: &mut SegmentTreeAllocator,
    va: u64,
    pa: u64,
    attr: &MemoryAttr,
)
    requires
        old(pt).inv(old(mem)),
        old(alloc).wf(),
        old(pt).backed_by(old(mem), old(alloc)),
        old(alloc).free_set().len() >= old(pt).tables_needed(old(mem), vpn_of(va)),
    ensures
        final(pt).inv(final(mem)),
        final(alloc).wf(),
        final(pt).backed_by(final(mem), final(alloc)),
        final(alloc).lo() == old(alloc).lo(),
        final(alloc).hi() == old(alloc).hi(),
        final(pt).root_ppn() == old(pt).root_ppn(),
        final(pt).lookup(final(mem), vpn_of(va)) == Some(
            attr.applied(PageEntry::leaf(pa / PAGE_SIZE)),
        ),
        final(pt).view(final(mem)) == old(pt).view(old(mem)).insert(
            vpn_of(va),
            attr.applied(PageEntry::leaf(pa / PAGE_SIZE)),
        ),
        forall|q: nat|
            q < 512 ==> (final(pt).l1_present(final(mem), q) <==> (old(pt).l1_present(old(mem), q)
                || q == vpn_of(va) / 262144)),
        forall|q: nat|
            q < 262144 ==> (final(pt).l0_present(final(mem), q) <==> (old(pt).l0_present(
                old(mem),
                q,
            ) || q == vpn_of(va) / 512)),
        final(alloc).free_set().len() == old(alloc).free_set().len() - old(pt).tables_needed(
            old(mem),
            vpn_of(va),
        ),
        forall|f: nat| final(alloc).is_free(f) ==> old(alloc).is_free(f),
        forall|f: nat| #[trigger]
            old(pt).frames().contains(f) ==> final(pt).frames().contains(f),
        forall|f: nat| #[trigger]
            final(pt).frames().contains(f) ==> old(pt).frames().contains(f) || (old(alloc).is_free(
                f,
            ) && !final(alloc).is_free(f)),
        forall|f: nat|
            old(alloc).is_free(f) && !#[trigger] final(alloc).is_free(f) ==> final(pt).frames().contains(f),
        final(mem).same_pages(old(mem)),
        forall|p: nat, i: nat|
            final(mem).contains(p) && i < 512 && !final(pt).frames().contains(p)
                ==> #[trigger] final(mem).entry(p, i) == old(mem).entry(p, i),
{
    let mut e = pt.map(mem, alloc, va, pa);
    let ghost mid = *mem;
    attr.apply(&mut e);
    pt.set_entry(mem, va, e);
    proof {
        assert(pt.view(mem) =~= old(pt).view(old(mem)).insert(vpn_of(va), e));
        PhysMemory::lemma_same_pages_trans(mem, &mid, old(mem));
        assert forall|p: nat, i: nat|
            mem.contains(p) && i < 512 && !pt.frames().contains(p) implies #[trigger] mem.entry(
            p,
            i,
        ) == old(mem).entry(p, i) by {
            assert(mem.entry(p, i) == mid.entry(p, i));
            assert(mid.entry(p, i) == old(mem).entry(p, i));
        }
    }
}

} // verus!
