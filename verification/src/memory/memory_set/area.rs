use vstd::prelude::*;
use crate::consts::{MAX_VPN, PAGE_SIZE, PHYSICAL_MEMORY_OFFSET};
use crate::memory::frame_allocator::SegmentTreeAllocator;
use crate::memory::memory_set::attr::MemoryAttr;
use crate::memory::memory_set::handler::{
    map_post, page_copy_post, unmap_post, Backing, MemoryHandler,
};
use crate::memory::paging::{vpn_of, PageEntry, PageTableImpl};
use crate::memory::phys::{page_image, PhysMemory};

verus! {

/// Number of the first page of the address range `[start, end)`.
pub open spec fn first_page(start: u64) -> nat {
    (start / PAGE_SIZE) as nat
}

/// One past the number of the last page that the address range `[start, end)`
/// touches; for an empty range, the number of its first page.
pub open spec fn end_page(start: u64, end: u64) -> nat {
    if start < end {
        ((end - 1) / (PAGE_SIZE as int) + 1) as nat
    } else {
        (start / PAGE_SIZE) as nat
    }
}

/// The pages of `[start, end)` lie in one half of the address space that the
/// page table translates: below 2^38, or in the top 2^38 bytes.
pub open spec fn translatable(start: u64, end: u64) -> bool {
    end_page(start, end) <= 0x400_0000 || first_page(start) >= 0xF_FFFF_FC00_0000
}

/// The pages `[a, b)` and the pages `[c, d)` have a page in common.
pub open spec fn pages_meet(a: nat, b: nat, c: nat, d: nat) -> bool {
    a < d && c < b && a < b && c < d
}

/// The nodes that the page table lacks for the pages `[v, hi)`, counted page
/// by page, and with them the frames of the pages themselves where the area
/// is backed frame by frame. `l1` and `l0` are the parts of the address
/// space for which the table has a node of the middle and of the lowest level.
pub open spec fn range_frames_needed(
    b: Backing,
    l1: Set<nat>,
    l0: Set<nat>,
    v: nat,
    hi: nat,
) -> nat
    decreases hi - v,
{
    if v >= hi {
        0
    } else {
        (if l1.contains(v / 262144) {
            0nat
        } else {
            1nat
        }) + (if l0.contains(v / 512) {
            0nat
        } else {
            1nat
        }) + (if b is ByFrame {
            1nat
        } else {
            0nat
        }) + range_frames_needed(b, l1.insert(v / 262144), l0.insert(v / 512), v + 1, hi)
    }
}

/// A bound on the frames that the pages `[v, hi)` need that does not go by
/// the page table: a node of leaves for every 512 pages that the range
/// touches, a node of the middle level for every 512 of those, and a frame
/// for every page where the area is backed frame by frame.
pub open spec fn range_frames_bound(b: Backing, v: nat, hi: nat) -> nat {
    if v < hi {
        (((hi - 1) / 512 - v / 512 + 1) + ((hi - 1) / 262144 - v / 262144 + 1) + (if b is ByFrame {
            hi - v
        } else {
            0
        })) as nat
    } else {
        0
    }
}

/// The pages `[v, hi)` need no more frames than the bound that does not go
/// by the page table.
pub proof fn lemma_range_frames_bound(b: Backing, l1: Set<nat>, l0: Set<nat>, v: nat, hi: nat)
    ensures
        range_frames_needed(b, l1, l0, v, hi) <= range_frames_bound(b, v, hi),
        v < hi ==> range_frames_needed(b, l1, l0, v, hi) + (if l1.contains(v / 262144) {
            1nat
        } else {
            0nat
        }) + (if l0.contains(v / 512) {
            1nat
        } else {
            0nat
        }) <= range_frames_bound(b, v, hi),
    decreases hi - v,
{
    if v < hi {
        lemma_range_frames_bound(b, l1.insert(v / 262144), l0.insert(v / 512), v + 1, hi);
        if v + 1 < hi {
            assert((v + 1) / 512 == v / 512 || (v + 1) / 512 == v / 512 + 1);
            assert((v + 1) / 262144 == v / 262144 || (v + 1) / 262144 == v / 262144 + 1);
            assert(l1.insert(v / 262144).contains(v / 262144));
            assert(l0.insert(v / 512).contains(v / 512));
        }
    }
}

/// The parts of the address space for which `pt` has a node of the middle
/// level.
pub open spec fn l1_set(pt: &PageTableImpl, mem: &PhysMemory) -> Set<nat> {
    Set::new(|q: nat| q < 512 && pt.l1_present(mem, q))
}

/// The parts of the address space for which `pt` has a node of leaves.
pub open spec fn l0_set(pt: &PageTableImpl, mem: &PhysMemory) -> Set<nat> {
    Set::new(|q: nat| q < 262144 && pt.l0_present(mem, q))
}

/// A range of virtual addresses with the policy that backs it and its
/// protection.
#[derive(Clone, Copy, Debug)]
pub struct MemoryArea {
    pub start: u64,
    pub end: u64,
    pub handler: Backing,
    pub attr: MemoryAttr,
}

impl MemoryArea {
    /// Address of the first byte.
    pub open spec fn start_addr(&self) -> u64 {
        self.start
    }

    /// Address behind the last byte.
    pub open spec fn end_addr(&self) -> u64 {
        self.end
    }

    /// How the pages get their frames.
    pub open spec fn backing(&self) -> Backing {
        self.handler
    }

    /// The protection of the pages.
    pub open spec fn attr(&self) -> MemoryAttr {
        self.attr
    }

    /// Number of the first page.
    pub open spec fn first_page(&self) -> nat {
        first_page(self.start_addr())
    }

    /// One past the number of the last page.
    pub open spec fn end_page(&self) -> nat {
        end_page(self.start_addr(), self.end_addr())
    }

    /// Page `p` belongs to the area.
    pub open spec fn contains_page(&self, p: nat) -> bool {
        self.first_page() <= p < self.end_page()
    }

    /// Virtual page number, as the page table counts, of the first page.
    pub open spec fn vpn_lo(&self) -> nat {
        self.first_page() % (MAX_VPN as nat)
    }

    /// One past the virtual page number of the last page.
    pub open spec fn vpn_hi(&self) -> nat {
        (self.vpn_lo() + self.end_page() - self.first_page()) as nat
    }

    /// The range is ordered, and unless it is empty, the page table can
    /// translate it and a linear area does not start below its offset.
    pub open spec fn well_formed(&self) -> bool {
        &&& self.start_addr() <= self.end_addr()
        &&& self.start_addr() < self.end_addr() ==> {
            &&& translatable(self.start_addr(), self.end_addr())
            &&& self.backing() matches Backing::Linear { offset } ==> self.first_page() * PAGE_SIZE
                >= offset
        }
    }

    /// Frames that mapping the area takes out of the allocator.
    pub open spec fn frames_needed(&self, pt: &PageTableImpl, mem: &PhysMemory) -> nat {
        range_frames_needed(
            self.backing(),
            l1_set(pt, mem),
            l0_set(pt, mem),
            self.vpn_lo(),
            self.vpn_hi(),
        )
    }

    /// A bound on the frames that mapping the area takes out of the
    /// allocator that does not go by the page table.
    pub open spec fn frames_bound(&self) -> nat {
        range_frames_bound(self.backing(), self.vpn_lo(), self.vpn_hi())
    }

    /// Page `p` of the area is mapped as the area asks: with the protection
    /// of the area, and for a linear area to the frame at the area's offset.
    pub open spec fn page_mapped(&self, pt: &PageTableImpl, mem: &PhysMemory, p: nat) -> bool {
        pt.translate(mem, p % (MAX_VPN as nat)) matches Some(e) && {
            &&& e == self.attr().applied(PageEntry::leaf(e.ppn))
            &&& self.backing() matches Backing::Linear { offset } ==> e.ppn == (p * PAGE_SIZE
                - offset) / (PAGE_SIZE as int)
        }
    }

    /// Every page of the area is mapped as the area asks.
    pub open spec fn mapped(&self, pt: &PageTableImpl, mem: &PhysMemory) -> bool {
        forall|p: nat| self.contains_page(p) ==> #[trigger] self.page_mapped(pt, mem, p)
    }

    /// Frame to which page `p` of the area is mapped.
    pub open spec fn frame_of(&self, pt: &PageTableImpl, mem: &PhysMemory, p: nat) -> nat {
        pt.translate(mem, p % (MAX_VPN as nat)).unwrap().ppn as nat
    }

    /// The area `[start_addr, end_addr)`, backed as `handler` says, with the
    /// protection `attr`.
    pub fn new(start_addr: u64, end_addr: u64, handler: Backing, attr: MemoryAttr) -> (a: Self)
        ensures
            a == (MemoryArea { start: start_addr, end: end_addr, handler, attr }),
    {
        MemoryArea { start: start_addr, end: end_addr, handler, attr }
    }

    /// Number of the first page.
    pub fn first(&self) -> (p: u64)
        ensures
            p == self.first_page(),
    {
        self.start / PAGE_SIZE
    }

    /// One past the number of the last page.
    pub fn last(&self) -> (p: u64)
        ensures
            p == self.end_page(),
    {
        if self.start < self.end {
            (self.end - 1) / PAGE_SIZE + 1
        } else {
            self.start / PAGE_SIZE
        }
    }

    /// Whether the range is ordered and, unless it is empty, the page table
    /// can translate it and a linear area does not start below its offset.
    pub fn is_well_formed(&self) -> (r: bool)
        ensures
            r == self.well_formed(),
    {
        if self.start > self.end {
            return false;
        }
        if self.start == self.end {
            return true;
        }
        let first = self.first();
        let last = self.last();
        if !(last <= 0x400_0000 || first >= 0xF_FFFF_FC00_0000) {
            return false;
        }
        match self.handler {
            Backing::Linear { offset } => first * PAGE_SIZE >= offset,
            Backing::ByFrame => true,
        }
    }

    /// A number of free frames that is enough to map the area, whatever the
    /// page table holds.
    pub fn max_frames(&self) -> (n: u64)
        requires
            self.well_formed(),
        ensures
            n == self.frames_bound(),
    {
        let first = self.first();
        let last = self.last();
        if first >= last {
            return 0;
        }
        proof {
            lemma_vpn_of_page(first as nat);
            lemma_vpn_of_page((last - 1) as nat);
        }
        let lo = first % MAX_VPN;
        let hi = lo + (last - first);
        let leaves = (hi - 1) / 512 - lo / 512 + 1;
        let middle = (hi - 1) / 262144 - lo / 262144 + 1;
        match self.handler {
            Backing::Linear { offset: _ } => leaves + middle,
            Backing::ByFrame => leaves + middle + (hi - lo),
        }
    }

    /// The area and the address range `[start_addr, end_addr)` have a page in
    /// common.
    pub fn is_overlap_with(&self, start_addr: u64, end_addr: u64) -> (r: bool)
        ensures
            r == pages_meet(
                self.first_page(),
                self.end_page(),
                first_page(start_addr),
                end_page(start_addr, end_addr),
            ),
    {
        let p1 = self.first();
        let p2 = self.last();
        let p3 = start_addr / PAGE_SIZE;
        let p4 = if start_addr < end_addr {
            (end_addr - 1) / PAGE_SIZE + 1
        } else {
            start_addr / PAGE_SIZE
        };
        p1 < p4 && p3 < p2 && p1 < p2 && p3 < p4
    }
}

/// How far mapping an area has come when its pages below `upto` are mapped:
/// what holds of the page table, the memory and the allocator then, against
/// what they were before the first page was mapped. `data` holds the frames
/// that were taken for the pages themselves.
pub open spec fn map_progress(
    area: &MemoryArea,
    pt0: &PageTableImpl,
    mem0: &PhysMemory,
    a0: &SegmentTreeAllocator,
    pt1: &PageTableImpl,
    mem1: &PhysMemory,
    a1: &SegmentTreeAllocator,
    upto: nat,
    data: Set<nat>,
) -> bool {
    let vlo = area.vpn_lo();
    let vcur = (vlo + upto - area.first_page()) as nat;
    &&& area.first_page() <= upto <= area.end_page()
    &&& pt1.inv(mem1)
    &&& a1.wf()
    &&& pt1.backed_by(mem1, a1)
    &&& a1.lo() == a0.lo()
    &&& a1.hi() == a0.hi()
    &&& pt1.root_ppn() == pt0.root_ppn()
    &&& forall|p: nat| area.first_page() <= p < upto ==> #[trigger] area.page_mapped(pt1, mem1, p)
    &&& forall|v: nat|
        v < MAX_VPN && !(vlo <= v < vcur) ==> #[trigger] pt1.translate(mem1, v) == pt0.translate(
            mem0,
            v,
        )
    &&& forall|q: nat|
        q < 512 ==> (#[trigger] pt1.l1_present(mem1, q) <==> (pt0.l1_present(mem0, q) || (vlo < vcur
            && vlo / 262144 <= q <= (vcur - 1) / 262144)))
    &&& forall|q: nat|
        q < 262144 ==> (#[trigger] pt1.l0_present(mem1, q) <==> (pt0.l0_present(mem0, q) || (vlo
            < vcur && vlo / 512 <= q <= (vcur - 1) / 512)))
    &&& a1.free_set().len() + area.frames_needed(pt0, mem0) == a0.free_set().len()
        + range_frames_needed(area.backing(), l1_set(pt1, mem1), l0_set(pt1, mem1), vcur, area.vpn_hi())
    &&& forall|f: nat| #[trigger] a1.is_free(f) ==> a0.is_free(f)
    &&& forall|f: nat| #[trigger] pt0.frames().contains(f) ==> pt1.frames().contains(f)
    &&& forall|f: nat| #[trigger]
        pt1.frames().contains(f) ==> pt0.frames().contains(f) || (a0.is_free(f) && !a1.is_free(f)
            && !data.contains(f))
    &&& forall|f: nat| #[trigger]
        data.contains(f) ==> a0.is_free(f) && !a1.is_free(f) && !pt1.frames().contains(f)
    &&& forall|f: nat|
        a0.is_free(f) && !#[trigger] a1.is_free(f) ==> pt1.frames().contains(f) || data.contains(f)
    &&& area.backing() is ByFrame ==> {
        &&& forall|p: nat|
            area.first_page() <= p < upto ==> data.contains(#[trigger] area.frame_of(pt1, mem1, p))
        &&& forall|p: nat, q: nat|
            area.first_page() <= p < upto && area.first_page() <= q < upto && p != q
                ==> #[trigger] area.frame_of(pt1, mem1, p) != #[trigger] area.frame_of(pt1, mem1, q)
    }
    &&& !(area.backing() is ByFrame) ==> data == Set::<nat>::empty()
    &&& mem1.same_pages(mem0)
    &&& forall|p: nat, i: nat|
        mem1.contains(p) && i < 512 && !pt1.frames().contains(p) ==> #[trigger] mem1.entry(p, i)
            == mem0.entry(p, i)
}

/// Where the mappings of a table have changed for one page only, every other
/// page is translated as before.
pub proof fn lemma_translate_after_insert(
    pt0: &PageTableImpl,
    mem0: &PhysMemory,
    pt1: &PageTableImpl,
    mem1: &PhysMemory,
    v: nat,
    e: PageEntry,
)
    requires
        v < MAX_VPN,
        pt1.view(mem1) == pt0.view(mem0).insert(v, e),
    ensures
        pt1.translate(mem1, v) == Some(e),
        forall|w: nat|
            w < MAX_VPN && w != v ==> #[trigger] pt1.translate(mem1, w) == pt0.translate(mem0, w),
{
    assert(pt1.view(mem1).contains_key(v));
    assert(pt1.view(mem1)[v] == e);
    assert forall|w: nat| w < MAX_VPN && w != v implies #[trigger] pt1.translate(mem1, w)
        == pt0.translate(mem0, w) by {
        assert(pt1.view(mem1).contains_key(w) == pt0.view(mem0).contains_key(w));
        if pt1.view(mem1).contains_key(w) {
            assert(pt1.view(mem1)[w] == pt0.view(mem0)[w]);
        }
    }
}

/// The nodes that a page lacks are the nodes that its two parts of the
/// address space lack.
proof fn lemma_tables_needed(pt: &PageTableImpl, mem: &PhysMemory, v: nat)
    requires
        v < MAX_VPN,
    ensures
        pt.tables_needed(mem, v) == (if l1_set(pt, mem).contains(v / 262144) {
            0nat
        } else {
            1nat
        }) + (if l0_set(pt, mem).contains(v / 512) {
            0nat
        } else {
            1nat
        }),
{
    pt.lemma_l0_below_l1(mem, v / 512);
    assert((v / 512) / 512 == v / 262144);
}

impl MemoryArea {
    /// Maps every page of the area. Returns the frames that were taken for
    /// the pages themselves.
    pub fn map(
        &self,
        pt: &mut PageTableImpl,
        mem: &mut PhysMemory,
        alloc: &mut SegmentTreeAllocator,
    ) -> (data: Ghost<Set<nat>>)
        requires
            self.well_formed(),
            old(pt).inv(old(mem)),
            old(alloc).wf(),
            old(pt).backed_by(old(mem), old(alloc)),
            old(alloc).free_set().len() >= self.frames_needed(old(pt), old(mem)),
        ensures
            map_progress(
                self,
                old(pt),
                old(mem),
                old(alloc),
                final(pt),
                final(mem),
                final(alloc),
                self.end_page(),
                data@,
            ),
    {
        let first = self.first();
        let last = self.last();
        let mut p: u64 = first;
        let ghost mut data: Set<nat> = Set::empty();
        let ghost vlo = self.vpn_lo();
        let ghost vhi = self.vpn_hi();
        proof {
            PhysMemory::lemma_same_pages_refl(mem);
        }
        while p < last
            invariant
                first == self.first_page(),
                last == self.end_page(),
                vlo == self.vpn_lo(),
                vhi == self.vpn_hi(),
                self.well_formed(),
                old(pt).inv(old(mem)),
                old(pt).backed_by(old(mem), old(alloc)),
                old(alloc).free_set().len() >= self.frames_needed(old(pt), old(mem)),
                map_progress(self, old(pt), old(mem), old(alloc), pt, mem, alloc, p as nat, data),
            decreases last - p,
        {
            let va: u64 = p * PAGE_SIZE;
            let ghost v = (vlo + p - first) as nat;
            let ghost pt_a = *pt;
            let ghost mem_a = *mem;
            let ghost alloc_a = *alloc;
            let ghost data_a = data;
            proof {
                lemma_vpn_of_page(first as nat);
                lemma_vpn_of_page(p as nat);
                assert(vpn_of(va) == v);
                assert(v < MAX_VPN);
                assert(v < vhi);
                lemma_tables_needed(pt, mem, v);
            }
            self.handler.map(pt, mem, alloc, va, &self.attr);
            proof {
                assert(map_post(self.handler, &pt_a, &mem_a, &alloc_a, pt, mem, alloc, va, self.attr));
                let e = pt.lookup(mem, v).unwrap();
                lemma_translate_after_insert(&pt_a, &mem_a, pt, mem, v, e);
                assert(l1_set(pt, mem) =~= l1_set(&pt_a, &mem_a).insert(v / 262144));
                assert(l0_set(pt, mem) =~= l0_set(&pt_a, &mem_a).insert(v / 512));
                if self.handler is ByFrame {
                    data = data.insert(e.ppn as nat);
                }
                PhysMemory::lemma_same_pages_trans(mem, &mem_a, old(mem));
                assert forall|q: nat| first <= q < p + 1 implies #[trigger] self.page_mapped(
                    pt,
                    mem,
                    q,
                ) by {
                    if q < p {
                        assert(self.page_mapped(&pt_a, &mem_a, q));
                        lemma_vpn_of_page(q);
                        assert(q % (MAX_VPN as nat) != v);
                    } else {
                        assert(q % (MAX_VPN as nat) == v);
                    }
                }
                assert forall|w: nat| w < MAX_VPN && !(vlo <= w < v + 1) implies #[trigger] pt.translate(
                    mem,
                    w,
                ) == old(pt).translate(old(mem), w) by {
                    assert(pt_a.translate(&mem_a, w) == old(pt).translate(old(mem), w));
                }
                assert forall|pp: nat, i: nat|
                    mem.contains(pp) && i < 512 && !pt.frames().contains(pp) implies #[trigger] mem.entry(
                    pp,
                    i,
                ) == old(mem).entry(pp, i) by {
                    assert(mem.entry(pp, i) == mem_a.entry(pp, i));
                    assert(mem_a.entry(pp, i) == old(mem).entry(pp, i));
                }
                if self.handler is ByFrame {
                    assert forall|q: nat| first <= q < p + 1 implies data.contains(
                        #[trigger] self.frame_of(pt, mem, q),
                    ) by {
                        if q < p {
                            lemma_vpn_of_page(q);
                            assert(q % (MAX_VPN as nat) != v);
                            assert(self.frame_of(pt, mem, q) == self.frame_of(&pt_a, &mem_a, q));
                        }
                    }
                    assert forall|q: nat, r: nat|
                        first <= q < p + 1 && first <= r < p + 1 && q != r implies #[trigger] self.frame_of(
                        pt,
                        mem,
                        q,
                    ) != #[trigger] self.frame_of(pt, mem, r) by {
                        lemma_vpn_of_page(q);
                        lemma_vpn_of_page(r);
                        if q < p {
                            assert(self.frame_of(pt, mem, q) == self.frame_of(&pt_a, &mem_a, q));
                            assert(data_a.contains(self.frame_of(&pt_a, &mem_a, q)));
                        }
                        if r < p {
                            assert(self.frame_of(pt, mem, r) == self.frame_of(&pt_a, &mem_a, r));
                            assert(data_a.contains(self.frame_of(&pt_a, &mem_a, r)));
                        }
                    }
                }
            }
            p = p + 1;
        }
        Ghost(data)
    }
}

/// Index in `data` of the first byte that goes to page `k` of an area.
pub open spec fn chunk_start(len: nat, k: nat) -> nat {
    if k * 4096 <= len {
        k * 4096
    } else {
        len
    }
}

/// Number of bytes of `data` that go to page `k` of an area.
pub open spec fn chunk_len(len: nat, k: nat) -> nat {
    if chunk_start(len, k) + 4096 <= len {
        4096
    } else {
        (len - chunk_start(len, k)) as nat
    }
}

/// What page `k` of an area holds after `data` was copied into the area: its
/// part of `data`, and zeros where `data` has ended.
pub open spec fn chunk(data: Seq<u8>, k: nat) -> Seq<u8> {
    page_image(data, chunk_start(data.len(), k), chunk_len(data.len(), k))
}

impl MemoryArea {
    /// Every page of the area is mapped, to a frame of `mem`, and no two pages
    /// to the same frame; a linear area lies in the kernel's direct map.
    pub open spec fn backed(&self, pt: &PageTableImpl, mem: &PhysMemory) -> bool {
        &&& self.mapped(pt, mem)
        &&& forall|p: nat| self.contains_page(p) ==> mem.contains(#[trigger] self.frame_of(pt, mem, p))
        &&& forall|p: nat, q: nat|
            self.contains_page(p) && self.contains_page(q) && p != q ==> #[trigger] self.frame_of(
                pt,
                mem,
                p,
            ) != #[trigger] self.frame_of(pt, mem, q)
        &&& self.backing() matches Backing::Linear { offset } ==> offset == PHYSICAL_MEMORY_OFFSET
    }

    /// The area can be unmapped: the page table has an entry for every page,
    /// and where the area is backed frame by frame, every page is mapped to
    /// a frame of its own that the allocator has handed out.
    pub open spec fn releasable(
        &self,
        pt: &PageTableImpl,
        mem: &PhysMemory,
        alloc: &SegmentTreeAllocator,
    ) -> bool {
        &&& forall|p: nat|
            self.contains_page(p) ==> #[trigger] pt.lookup(mem, p % (MAX_VPN as nat)) is Some
        &&& self.backing() is ByFrame ==> {
            &&& self.mapped(pt, mem)
            &&& forall|p: nat|
                self.contains_page(p) ==> alloc.lo() <= #[trigger] self.frame_of(pt, mem, p)
                    < alloc.hi() && !alloc.is_free(self.frame_of(pt, mem, p))
            &&& forall|p: nat, q: nat|
                self.contains_page(p) && self.contains_page(q) && p != q
                    ==> #[trigger] self.frame_of(pt, mem, p) != #[trigger] self.frame_of(
                    pt,
                    mem,
                    q,
                )
        }
    }

    /// Frame `f` is the frame of one of the pages of the area below `upto`.
    pub open spec fn frame_below(
        &self,
        pt: &PageTableImpl,
        mem: &PhysMemory,
        upto: nat,
        f: nat,
    ) -> bool {
        exists|p: nat|
            self.first_page() <= p < upto && #[trigger] self.frame_of(pt, mem, p) == f
    }

    /// Takes the mapping of every page of the area away. Where the area is
    /// backed frame by frame, the frames of its pages go back to the
    /// allocator; they are returned.
    pub fn unmap(
        &self,
        pt: &PageTableImpl,
        mem: &mut PhysMemory,
        alloc: &mut SegmentTreeAllocator,
    ) -> (freed: Ghost<Set<nat>>)
        requires
            self.well_formed(),
            pt.inv(old(mem)),
            old(alloc).wf(),
            self.releasable(pt, old(mem), old(alloc)),
        ensures
            pt.inv(final(mem)),
            forall|p: nat|
                self.contains_page(p) ==> #[trigger] pt.lookup(final(mem), p % (MAX_VPN as nat))
                    == Some(PageEntry::empty()),
            forall|v: nat|
                v < MAX_VPN && !(self.vpn_lo() <= v < self.vpn_hi()) ==> #[trigger] pt.lookup(
                    final(mem),
                    v,
                ) == pt.lookup(old(mem), v),
            final(mem).same_pages(old(mem)),
            forall|p: nat, i: nat|
                final(mem).contains(p) && i < 512 && !pt.frames().contains(p)
                    ==> #[trigger] final(mem).entry(p, i) == old(mem).entry(p, i),
            final(alloc).wf(),
            final(alloc).lo() == old(alloc).lo(),
            final(alloc).hi() == old(alloc).hi(),
            forall|q: nat|
                #![trigger final(alloc).is_free(q)]
                final(alloc).is_free(q) <==> (old(alloc).is_free(q) || freed@.contains(q)),
            forall|q: nat| #[trigger] freed@.contains(q) ==> !old(alloc).is_free(q),
            self.backing() is ByFrame ==> {
                &&& forall|q: nat|
                    freed@.contains(q) <==> self.frame_below(pt, old(mem), self.end_page(), q)
                &&& final(alloc).free_set().len() == old(alloc).free_set().len() + (
                self.end_page() - self.first_page())
            },
            !(self.backing() is ByFrame) ==> freed@ == Set::<nat>::empty() && *final(alloc) == *old(
                alloc,
            ),
    {
        let first = self.first();
        let last = self.last();
        let mut p: u64 = first;
        let ghost vlo = self.vpn_lo();
        let ghost mut freed: Set<nat> = Set::empty();
        proof {
            PhysMemory::lemma_same_pages_refl(mem);
            assert(alloc.free_set() =~= old(alloc).free_set());
        }
        while p < last
            invariant
                first == self.first_page(),
                last == self.end_page(),
                vlo == self.vpn_lo(),
                first <= p <= last,
                self.well_formed(),
                pt.inv(old(mem)),
                self.releasable(pt, old(mem), old(alloc)),
                pt.inv(mem),
                alloc.wf(),
                alloc.lo() == old(alloc).lo(),
                alloc.hi() == old(alloc).hi(),
                forall|q: nat|
                    p <= q < last ==> #[trigger] pt.lookup(mem, q % (MAX_VPN as nat)) == pt.lookup(
                        old(mem),
                        q % (MAX_VPN as nat),
                    ),
                forall|q: nat|
                    first <= q < p ==> #[trigger] pt.lookup(mem, q % (MAX_VPN as nat)) == Some(
                        PageEntry::empty(),
                    ),
                forall|v: nat|
                    v < MAX_VPN && !(vlo <= v < vlo + p - first) ==> #[trigger] pt.lookup(mem, v)
                        == pt.lookup(old(mem), v),
                mem.same_pages(old(mem)),
                forall|pp: nat, i: nat|
                    mem.contains(pp) && i < 512 && !pt.frames().contains(pp) ==> #[trigger] mem.entry(
                        pp,
                        i,
                    ) == old(mem).entry(pp, i),
                forall|q: nat|
                    #![trigger alloc.is_free(q)]
                    alloc.is_free(q) <==> (old(alloc).is_free(q) || freed.contains(q)),
                forall|q: nat| #[trigger] freed.contains(q) ==> !old(alloc).is_free(q),
                self.backing() is ByFrame ==> {
                    &&& forall|q: nat|
                        freed.contains(q) <==> self.frame_below(pt, old(mem), p as nat, q)
                    &&& alloc.free_set().len() == old(alloc).free_set().len() + (p - first)
                },
                !(self.backing() is ByFrame) ==> freed == Set::<nat>::empty() && *alloc == *old(
                    alloc,
                ),
            decreases last - p,
        {
            let va: u64 = p * PAGE_SIZE;
            let ghost v = (vlo + p - first) as nat;
            let ghost mem_a = *mem;
            let ghost alloc_a = *alloc;
            let ghost freed_a = freed;
            let ghost f = self.frame_of(pt, old(mem), p as nat);
            proof {
                lemma_vpn_of_page(first as nat);
                lemma_vpn_of_page(p as nat);
                assert(vpn_of(va) == v);
                assert(self.contains_page(p as nat));
                assert(pt.lookup(old(mem), (p as nat) % (MAX_VPN as nat)) is Some);
                assert(pt.lookup(mem, v) == pt.lookup(old(mem), v));
                if self.backing() is ByFrame {
                    assert(self.page_mapped(pt, old(mem), p as nat));
                    assert(old(alloc).lo() <= f < old(alloc).hi() && !old(alloc).is_free(f));
                    if freed.contains(f) {
                        let r = choose|r: nat|
                            self.first_page() <= r < p && #[trigger] self.frame_of(
                                pt,
                                old(mem),
                                r,
                            ) == f;
                        assert(self.contains_page(r));
                    }
                }
            }
            self.handler.unmap(pt, mem, alloc, va);
            proof {
                PhysMemory::lemma_same_pages_trans(mem, &mem_a, old(mem));
                assert(unmap_post(self.handler, pt, &mem_a, &alloc_a, mem, alloc, va));
                if self.backing() is ByFrame {
                    let leaf = pt.lookup(&mem_a, v).unwrap();
                    assert(leaf.valid && leaf.ppn == f);
                    freed = freed.insert(f);
                    assert(alloc.free_set().len() == alloc_a.free_set().len() + 1);
                    assert forall|q: nat| alloc.is_free(q) <==> (old(alloc).is_free(q)
                        || freed.contains(q)) by {
                        assert(alloc.is_free(q) <==> (alloc_a.is_free(q) || q == leaf.ppn));
                        assert(alloc_a.is_free(q) <==> (old(alloc).is_free(q) || freed_a.contains(
                            q,
                        )));
                    }
                    assert forall|q: nat| freed.contains(q) <==> self.frame_below(
                        pt,
                        old(mem),
                        (p + 1) as nat,
                        q,
                    ) by {
                        if freed.contains(q) {
                            if q == f {
                                assert(self.frame_of(pt, old(mem), p as nat) == q);
                            } else {
                                assert(self.frame_below(pt, old(mem), p as nat, q));
                                let r = choose|r: nat|
                                    self.first_page() <= r < p && #[trigger] self.frame_of(
                                        pt,
                                        old(mem),
                                        r,
                                    ) == q;
                                assert(self.frame_of(pt, old(mem), r) == q);
                            }
                        }
                        if self.frame_below(pt, old(mem), (p + 1) as nat, q) {
                            let r = choose|r: nat|
                                self.first_page() <= r < p + 1 && #[trigger] self.frame_of(
                                    pt,
                                    old(mem),
                                    r,
                                ) == q;
                            if r < p {
                                assert(self.frame_below(pt, old(mem), p as nat, q));
                            }
                        }
                    }
                }
                assert forall|q: nat| p + 1 <= q < last implies #[trigger] pt.lookup(
                    mem,
                    q % (MAX_VPN as nat),
                ) == pt.lookup(old(mem), q % (MAX_VPN as nat)) by {
                    lemma_vpn_of_page(q);
                    assert(pt.lookup(&mem_a, q % (MAX_VPN as nat)) == pt.lookup(
                        old(mem),
                        q % (MAX_VPN as nat),
                    ));
                }
                assert forall|q: nat| first <= q < p + 1 implies #[trigger] pt.lookup(
                    mem,
                    q % (MAX_VPN as nat),
                ) == Some(PageEntry::empty()) by {
                    lemma_vpn_of_page(q);
                    if q < p {
                        assert(pt.lookup(&mem_a, q % (MAX_VPN as nat)) == Some(PageEntry::empty()));
                    }
                }
                assert forall|w: nat|
                    w < MAX_VPN && !(vlo <= w < vlo + p + 1 - first) implies #[trigger] pt.lookup(
                    mem,
                    w,
                ) == pt.lookup(old(mem), w) by {
                    assert(pt.lookup(&mem_a, w) == pt.lookup(old(mem), w));
                }
                assert forall|pp: nat, i: nat|
                    mem.contains(pp) && i < 512 && !pt.frames().contains(pp) implies #[trigger] mem.entry(
                    pp,
                    i,
                ) == old(mem).entry(pp, i) by {
                    assert(mem.entry(pp, i) == mem_a.entry(pp, i));
                    assert(mem_a.entry(pp, i) == old(mem).entry(pp, i));
                }
            }
            p = p + 1;
        }
        Ghost(freed)
    }

    /// Copies `data` into the pages of the area, page after page from the
    /// first; what is left of the area behind the end of `data` is filled
    /// with zeros.
    pub fn page_copy(&self, pt: &PageTableImpl, mem: &mut PhysMemory, data: &[u8])
        requires
            self.well_formed(),
            pt.inv(old(mem)),
            self.backed(pt, old(mem)),
        ensures
            pt.inv(final(mem)),
            final(mem).same_tables(old(mem)),
            self.backed(pt, final(mem)),
            forall|p: nat|
                self.contains_page(p) ==> #[trigger] final(mem).page(self.frame_of(pt, old(mem), p))
                    == chunk(data@, (p - self.first_page()) as nat),
            forall|f: nat, i: nat|
                final(mem).contains(f) && i < 4096 && (forall|p: nat|
                    self.contains_page(p) ==> #[trigger] self.frame_of(pt, old(mem), p) != f)
                    ==> #[trigger] final(mem).byte(f, i) == old(mem).byte(f, i),
    {
        let first = self.first();
        let last = self.last();
        let len: usize = data.len();
        let mut p: u64 = first;
        let mut done: usize = 0;
        proof {
            PhysMemory::lemma_same_pages_refl(mem);
            pt.lemma_inv_mem(mem);
        }
        while p < last
            invariant
                first == self.first_page(),
                last == self.end_page(),
                len == data@.len(),
                first <= p <= last,
                done == chunk_start(len as nat, (p - first) as nat),
                self.well_formed(),
                pt.inv(old(mem)),
                self.backed(pt, old(mem)),
                pt.inv(mem),
                mem.wf(),
                mem.same_tables(old(mem)),
                forall|q: nat|
                    first <= q < p ==> #[trigger] mem.page(self.frame_of(pt, old(mem), q)) == chunk(
                        data@,
                        (q - first) as nat,
                    ),
                forall|f: nat, i: nat|
                    mem.contains(f) && i < 4096 && (forall|q: nat|
                        first <= q < p ==> #[trigger] self.frame_of(pt, old(mem), q) != f)
                        ==> #[trigger] mem.byte(f, i) == old(mem).byte(f, i),
            decreases last - p,
        {
            let va: u64 = p * PAGE_SIZE;
            let rem: usize = len - done;
            let n: usize = if rem < 4096 {
                rem
            } else {
                4096
            };
            let ghost mem_a = *mem;
            let ghost v = (p as nat) % (MAX_VPN as nat);
            let ghost target = self.frame_of(pt, old(mem), p as nat);
            proof {
                lemma_vpn_of_page(p as nat);
                assert(vpn_of(va) == v);
                pt.lemma_same_tables(old(mem), mem);
                assert(self.page_mapped(pt, old(mem), p as nat));
                assert(pt.translate(mem, v) == pt.translate(old(mem), v));
                assert(mem.contains(self.frame_of(pt, old(mem), p as nat)));
            }
            self.handler.page_copy(pt, mem, va, data, done, n);
            proof {
                assert(page_copy_post(pt, &mem_a, mem, va, data@, done, n));
                PhysMemory::lemma_same_tables_trans(mem, &mem_a, old(mem));
                pt.lemma_same_tables(old(mem), mem);
                assert(mem.page(target) == chunk(data@, (p - first) as nat));
                assert forall|q: nat| first <= q < p + 1 implies #[trigger] mem.page(
                    self.frame_of(pt, old(mem), q),
                ) == chunk(data@, (q - first) as nat) by {
                    if q < p {
                        let fq = self.frame_of(pt, old(mem), q);
                        assert(fq != target);
                        assert(mem_a.page(fq) == chunk(data@, (q - first) as nat));
                        assert(mem.contains(fq));
                        assert(mem.page(fq) =~= mem_a.page(fq));
                    }
                }
                assert forall|f: nat, i: nat|
                    mem.contains(f) && i < 4096 && (forall|q: nat|
                        first <= q < p + 1 ==> #[trigger] self.frame_of(pt, old(mem), q)
                            != f) implies #[trigger] mem.byte(f, i) == old(mem).byte(f, i) by {
                    assert(self.frame_of(pt, old(mem), p as nat) != f);
                    assert(mem.byte(f, i) == mem_a.byte(f, i));
                    assert(forall|q: nat|
                        first <= q < p ==> #[trigger] self.frame_of(pt, old(mem), q) != f);
                }
            }
            done = done + n;
            p = p + 1;
        }
        proof {
            pt.lemma_same_tables(old(mem), mem);
            assert forall|q: nat| self.contains_page(q) implies #[trigger] self.page_mapped(
                pt,
                mem,
                q,
            ) by {
                assert(self.page_mapped(pt, old(mem), q));
                lemma_vpn_of_page(q);
            }
            assert forall|q: nat| self.contains_page(q) implies mem.contains(
                #[trigger] self.frame_of(pt, mem, q),
            ) by {
                lemma_vpn_of_page(q);
                assert(self.frame_of(pt, mem, q) == self.frame_of(pt, old(mem), q));
            }
            assert forall|q: nat, r: nat|
                self.contains_page(q) && self.contains_page(r) && q != r implies #[trigger] self.frame_of(
                pt,
                mem,
                q,
            ) != #[trigger] self.frame_of(pt, mem, r) by {
                lemma_vpn_of_page(q);
                lemma_vpn_of_page(r);
                assert(self.frame_of(pt, mem, q) == self.frame_of(pt, old(mem), q));
                assert(self.frame_of(pt, mem, r) == self.frame_of(pt, old(mem), r));
            }
        }
    }
}

/// The bound on the frames of a well-formed area is small: an area has at
/// most 2^26 pages.
pub proof fn lemma_frames_bound_small(area: &MemoryArea)
    requires
        area.well_formed(),
    ensures
        area.frames_bound() <= 0x1000_0000,
{
    if area.first_page() < area.end_page() {
        lemma_vpn_of_page(area.first_page());
        lemma_vpn_of_page((area.end_page() - 1) as nat);
    }
}

/// Page `p` is one of the pages `[a, b)`.
pub open spec fn in_pages(p: nat, a: nat, b: nat) -> bool {
    a <= p < b
}

/// Two ranges of pages meet exactly when some page lies in both.
pub proof fn lemma_pages_meet(a: nat, b: nat, c: nat, d: nat)
    ensures
        pages_meet(a, b, c, d) <==> exists|p: nat| #[trigger] in_pages(p, a, b) && in_pages(p, c, d),
{
    if pages_meet(a, b, c, d) {
        let p = if a >= c {
            a
        } else {
            c
        };
        assert(in_pages(p, a, b) && in_pages(p, c, d));
    }
}

/// Distinct pages of the translatable halves of the address space have
/// distinct virtual page numbers.
pub proof fn lemma_vpn_injective(p: nat, q: nat)
    requires
        p < 0x400_0000 || 0xF_FFFF_FC00_0000 <= p < 0x10_0000_0000_0000,
        q < 0x400_0000 || 0xF_FFFF_FC00_0000 <= q < 0x10_0000_0000_0000,
        p % (MAX_VPN as nat) == q % (MAX_VPN as nat),
    ensures
        p == q,
{
    lemma_vpn_of_page(p);
    lemma_vpn_of_page(q);
}

/// Virtual page number of a page of the translatable halves.
pub proof fn lemma_vpn_of_page(p: nat)
    requires
        p < 0x400_0000 || 0xF_FFFF_FC00_0000 <= p < 0x10_0000_0000_0000,
    ensures
        p < 0x400_0000 ==> p % (MAX_VPN as nat) == p,
        p >= 0xF_FFFF_FC00_0000 ==> p % (MAX_VPN as nat) == p - 0xF_FFFF_F800_0000,
{
    if p >= 0xF_FFFF_FC00_0000 {
        let r = (p - 0xF_FFFF_F800_0000) as nat;
        assert(0xF_FFFF_F800_0000 == 0x1FF_FFFF * 0x800_0000);
        assert(p == 0x1FF_FFFF * 0x800_0000 + r);
        assert(0x400_0000 <= r < 0x800_0000);
        vstd::arithmetic::div_mod::lemma_fundamental_div_mod_converse(
            p as int,
            0x800_0000,
            0x1FF_FFFF,
            r as int,
        );
    }
}

} // verus!
