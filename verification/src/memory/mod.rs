use vstd::prelude::*;
use crate::consts::{MAX_PHYSICAL_PAGES, MAX_PPN, PAGE_SIZE, PHYSICAL_MEMORY_OFFSET};
use crate::memory::frame_allocator::SegmentTreeAllocator;

pub mod frame_allocator;
pub mod phys;
pub mod paging;
pub mod memory_set;

verus! {

/// A physical frame, named by its page number.
#[derive(Clone, Copy, Debug, PartialEq, Eq, Structural)]
pub struct Frame {
    ppn: u64,
}

impl Frame {
    /// Page number of the frame.
    pub closed spec fn spec_number(&self) -> u64 {
        self.ppn
    }

    /// The frame with page number `ppn`.
    pub fn of_ppn(ppn: u64) -> (f: Frame)
        ensures
            f.number() == ppn,
    {
        Frame { ppn }
    }

    /// The frame that holds the physical address `pa`.
    pub fn of_addr(pa: u64) -> (f: Frame)
        ensures
            f.number() == pa / PAGE_SIZE,
    {
        Frame { ppn: pa / PAGE_SIZE }
    }

    /// Page number of the frame.
    #[verifier::when_used_as_spec(spec_number)]
    pub fn number(&self) -> (ppn: u64)
        ensures
            ppn == self.number(),
    {
        self.ppn
    }

    /// Physical address of the first byte of the frame.
    pub fn start_address(&self) -> (pa: u64)
        requires
            self.number() < MAX_PPN,
        ensures
            pa == self.number() * PAGE_SIZE,
    {
        self.ppn * PAGE_SIZE
    }
}

/// The frame allocator for the physical pages `[l, r)`, all of them free.
pub fn init(l: u64, r: u64) -> (allocator: SegmentTreeAllocator)
    requires
        l <= r,
        r - l <= MAX_PHYSICAL_PAGES,
        r <= MAX_PPN,
    ensures
        allocator.wf(),
        allocator.lo() == l,
        allocator.hi() == r,
        forall|ppn: nat| allocator.is_free(ppn) <==> l <= ppn < r,
        allocator.free_set().len() == r - l,
{
    SegmentTreeAllocator::new(l, r)
}

/// Takes the free frame with the lowest page number out of `allocator`;
/// `None` when no frame is free.
pub fn alloc_frame(allocator: &mut SegmentTreeAllocator) -> (r: Option<Frame>)
    requires
        old(allocator).wf(),
    ensures
        final(allocator).wf(),
        final(allocator).lo() == old(allocator).lo(),
        final(allocator).hi() == old(allocator).hi(),
        r is None <==> old(allocator).free_set().len() == 0,
        r is None ==> *final(allocator) == *old(allocator),
        r matches Some(f) ==> {
            &&& old(allocator).is_free(f.number() as nat)
            &&& f.number() < MAX_PPN
            &&& forall|q: nat| q < f.number() ==> !old(allocator).is_free(q)
            &&& forall|q: nat|
                final(allocator).is_free(q) <==> (old(allocator).is_free(q) && q != f.number())
            &&& final(allocator).free_set() == old(allocator).free_set().remove(f.number() as nat)
            &&& final(allocator).free_set().len() == old(allocator).free_set().len() - 1
        },
{
    proof {
        allocator.lemma_partition();
        allocator.lemma_range_bound();
        if allocator.free_set().len() == 0 {
            assert(allocator.free_set() =~= Set::<nat>::empty());
        }
    }
    match allocator.allocate() {
        Some(ppn) => {
            proof {
                old(allocator).lemma_free_in_range(ppn as nat);
            }
            Some(Frame::of_ppn(ppn))
        },
        None => None,
    }
}

/// Gives the frame `f` back to `allocator`.
pub fn dealloc_frame(allocator: &mut SegmentTreeAllocator, f: Frame)
    requires
        old(allocator).wf(),
        old(allocator).lo() <= f.number() < old(allocator).hi(),
        !old(allocator).is_free(f.number() as nat),
    ensures
        final(allocator).wf(),
        final(allocator).lo() == old(allocator).lo(),
        final(allocator).hi() == old(allocator).hi(),
        forall|q: nat|
            final(allocator).is_free(q) <==> (old(allocator).is_free(q) || q == f.number()),
        final(allocator).free_set() == old(allocator).free_set().insert(f.number() as nat),
        final(allocator).free_set().len() == old(allocator).free_set().len() + 1,
{
    allocator.dealloc(f.number())
}

/// The kernel virtual address at which the direct map shows the physical
/// address `pa`.
pub fn access_pa_via_va(pa: u64) -> (va: u64)
    requires
        pa + PHYSICAL_MEMORY_OFFSET <= u64::MAX,
    ensures
        va == pa + PHYSICAL_MEMORY_OFFSET,
{
    pa + PHYSICAL_MEMORY_OFFSET
}

} // verus!
