use vstd::prelude::*;
use crate::consts::{MAX_VPN, PAGE_SIZE, PHYSICAL_MEMORY_END, PHYSICAL_MEMORY_OFFSET};
use crate::interrupt::Hart;
use crate::memory::frame_allocator::SegmentTreeAllocator;
use crate::memory::paging::{vpn_of, PageEntry, PageTableImpl};
use crate::memory::phys::PhysMemory;
use area::{
    chunk, end_page, first_page, l0_set, l1_set, lemma_vpn_of_page, map_progress, pages_meet,
    range_frames_needed, MemoryArea,
};
use attr::MemoryAttr;
use handler::{Backing, Linear, MemoryHandler};

pub mod attr;
pub mod handler;
pub mod area;

verus! {

/// The parts of the address space for which a table has a node of the middle
/// level once the pages `[vlo, vhi)` are mapped in addition.
pub open spec fn l1_after(l1: Set<nat>, vlo: nat, vhi: nat) -> Set<nat> {
    Set::new(|q: nat| l1.contains(q) || (q < 512 && vlo < vhi && vlo / 262144 <= q <= (vhi - 1) / 262144))
}

/// The parts of the address space for which a table has a node of leaves once
/// the pages `[vlo, vhi)` are mapped in addition.
pub open spec fn l0_after(l0: Set<nat>, vlo: nat, vhi: nat) -> Set<nat> {
    Set::new(|q: nat| l0.contains(q) || (q < 262144 && vlo < vhi && vlo / 512 <= q <= (vhi - 1) / 512))
}

/// The parts of the address space for which a table has nodes of the middle
/// and of the lowest level once the first `n` of `areas` are mapped, one
/// after the other, in a table that had nodes for the parts `l1` and `l0`.
pub open spec fn sets_upto(areas: Seq<MemoryArea>, l1: Set<nat>, l0: Set<nat>, n: nat) -> (
    Set<nat>,
    Set<nat>,
)
    decreases n,
{
    if n == 0 {
        (l1, l0)
    } else {
        let before = sets_upto(areas, l1, l0, (n - 1) as nat);
        let a = areas[n - 1];
        (l1_after(before.0, a.vpn_lo(), a.vpn_hi()), l0_after(before.1, a.vpn_lo(), a.vpn_hi()))
    }
}

/// Frames that mapping the first `n` of `areas`, one after the other, takes
/// out of the allocator, in a table that had nodes for the parts `l1` and
/// `l0` of the address space.
pub open spec fn areas_frames_needed(
    areas: Seq<MemoryArea>,
    l1: Set<nat>,
    l0: Set<nat>,
    n: nat,
) -> nat
    decreases n,
{
    if n == 0 {
        0
    } else {
        let before = sets_upto(areas, l1, l0, (n - 1) as nat);
        let a = areas[n - 1];
        areas_frames_needed(areas, l1, l0, (n - 1) as nat) + range_frames_needed(
            a.backing(),
            before.0,
            before.1,
            a.vpn_lo(),
            a.vpn_hi(),
        )
    }
}

/// A bound on the frames that mapping the first `n` of `areas` takes out of
/// the allocator that does not go by the page table: the sum of the bounds of
/// the areas.
pub open spec fn areas_frames_bound(areas: Seq<MemoryArea>, n: nat) -> nat
    decreases n,
{
    if n == 0 {
        0
    } else {
        areas_frames_bound(areas, (n - 1) as nat) + areas[n - 1].frames_bound()
    }
}

/// Mapping the first `n` of `areas` takes no more frames than the bound that
/// does not go by the page table.
pub proof fn lemma_areas_frames_bound(areas: Seq<MemoryArea>, l1: Set<nat>, l0: Set<nat>, n: nat)
    ensures
        areas_frames_needed(areas, l1, l0, n) <= areas_frames_bound(areas, n),
    decreases n,
{
    if n > 0 {
        lemma_areas_frames_bound(areas, l1, l0, (n - 1) as nat);
        let before = sets_upto(areas, l1, l0, (n - 1) as nat);
        let a = areas[n - 1];
        area::lemma_range_frames_bound(a.backing(), before.0, before.1, a.vpn_lo(), a.vpn_hi());
    }
}

/// Mapping more areas does not take fewer frames.
pub proof fn lemma_frames_needed_grows(
    areas: Seq<MemoryArea>,
    l1: Set<nat>,
    l0: Set<nat>,
    k: nat,
    n: nat,
)
    requires
        k <= n,
    ensures
        areas_frames_needed(areas, l1, l0, k) <= areas_frames_needed(areas, l1, l0, n),
    decreases n - k,
{
    if k < n {
        lemma_frames_needed_grows(areas, l1, l0, k, (n - 1) as nat);
    }
}

/// What the first `n` areas need and leave depends on those areas only.
pub proof fn lemma_frames_needed_prefix(
    a: Seq<MemoryArea>,
    b: Seq<MemoryArea>,
    l1: Set<nat>,
    l0: Set<nat>,
    n: nat,
)
    requires
        n <= a.len(),
        n <= b.len(),
        forall|i: int| 0 <= i < n ==> a[i] == b[i],
    ensures
        areas_frames_needed(a, l1, l0, n) == areas_frames_needed(b, l1, l0, n),
        sets_upto(a, l1, l0, n) == sets_upto(b, l1, l0, n),
    decreases n,
{
    if n > 0 {
        lemma_frames_needed_prefix(a, b, l1, l0, (n - 1) as nat);
    }
}

/// A virtual address space: its areas, in the order in which they were added,
/// and the page table that maps them.
pub struct MemorySet {
    areas: Vec<MemoryArea>,
    page_table: PageTableImpl,
    data_frames: Ghost<Set<nat>>,
}

impl MemorySet {
    /// The areas, in the order in which they were added.
    pub closed spec fn areas(&self) -> Seq<MemoryArea> {
        self.areas@
    }

    /// The page table.
    pub closed spec fn table(&self) -> PageTableImpl {
        self.page_table
    }

    /// The frames that were taken for the pages of areas backed frame by
    /// frame.
    pub closed spec fn data_frames(&self) -> Set<nat> {
        self.data_frames@
    }

    /// The frames that the address space holds: those of its page table and
    /// those of its pages.
    pub open spec fn owned(&self) -> Set<nat> {
        self.table().frames().union(self.data_frames())
    }

    /// No area has a page in common with the address range `[start, end)`.
    pub open spec fn free_area(&self, start: u64, end: u64) -> bool {
        forall|i: int|
            0 <= i < self.areas().len() ==> !pages_meet(
                (#[trigger] self.areas()[i]).first_page(),
                self.areas()[i].end_page(),
                first_page(start),
                end_page(start, end),
            )
    }

    /// The address space is consistent with the memory and the allocator:
    /// its page table is well formed, every area is mapped as it asks, no
    /// two areas share a page, no frame that it holds is free, and every
    /// page that is backed frame by frame has a frame of its own.
    pub open spec fn wf(&self, mem: &PhysMemory, alloc: &SegmentTreeAllocator) -> bool {
        &&& self.table().inv(mem)
        &&& alloc.wf()
        &&& self.table().backed_by(mem, alloc)
        &&& forall|i: int|
            0 <= i < self.areas().len() ==> (#[trigger] self.areas()[i]).well_formed()
                && self.areas()[i].mapped(&self.table(), mem)
        &&& forall|i: int, j: int|
            0 <= i < j < self.areas().len() ==> !pages_meet(
                (#[trigger] self.areas()[i]).first_page(),
                self.areas()[i].end_page(),
                (#[trigger] self.areas()[j]).first_page(),
                self.areas()[j].end_page(),
            )
        &&& forall|f: nat| #[trigger]
            self.data_frames().contains(f) ==> !alloc.is_free(f) && !self.table().frames().contains(
                f,
            ) && mem.contains(f) && alloc.lo() <= f < alloc.hi()
        &&& self.pages_apart(mem)
    }

    /// Every page of an area that is backed frame by frame has a frame of its
    /// own: the address space holds the frame for that page, and no two such
    /// pages share one.
    #[verifier::opaque]
    pub open spec fn pages_apart(&self, mem: &PhysMemory) -> bool {
        &&& forall|i: int, p: nat|
            0 <= i < self.areas().len() && self.areas()[i].backing() is ByFrame && (
            #[trigger] self.areas()[i].contains_page(p)) ==> self.data_frames().contains(
                self.areas()[i].frame_of(&self.table(), mem, p),
            )
        &&& forall|i: int, j: int, p: nat, q: nat|
            0 <= i < self.areas().len() && 0 <= j < self.areas().len()
                && self.areas()[i].backing() is ByFrame && self.areas()[j].backing() is ByFrame && (
            #[trigger] self.areas()[i].contains_page(p)) && (
            #[trigger] self.areas()[j].contains_page(q)) && p != q ==> self.areas()[i].frame_of(
                &self.table(),
                mem,
                p,
            ) != self.areas()[j].frame_of(&self.table(), mem, q)
    }

    /// Whether no area has a page in common with `[start, end)`.
    pub fn test_free_area(&self, start: u64, end: u64) -> (r: bool)
        ensures
            r == self.free_area(start, end),
    {
        let mut i: usize = 0;
        while i < self.areas.len()
            invariant
                i <= self.areas@.len(),
                forall|k: int|
                    0 <= k < i ==> !pages_meet(
                        (#[trigger] self.areas@[k]).first_page(),
                        self.areas@[k].end_page(),
                        first_page(start),
                        end_page(start, end),
                    ),
            decreases self.areas@.len() - i,
        {
            if self.areas[i].is_overlap_with(start, end) {
                proof {
                    let a = self.areas()[i as int];
                    assert(pages_meet(
                        a.first_page(),
                        a.end_page(),
                        first_page(start),
                        end_page(start, end),
                    ));
                }
                return false;
            }
            i = i + 1;
        }
        true
    }

    /// Number of areas.
    pub fn area_count(&self) -> (n: usize)
        ensures
            n == self.areas().len(),
    {
        self.areas.len()
    }

    /// Area number `i`, in the order in which the areas were added.
    pub fn area(&self, i: usize) -> (a: MemoryArea)
        requires
            i < self.areas().len(),
        ensures
            a == self.areas()[i as int],
    {
        self.areas[i]
    }

    /// The entry that translates the page of `va`, valid or not.
    pub fn get_entry(&self, mem: &PhysMemory, va: u64) -> (r: Option<PageEntry>)
        requires
            self.table().inv(mem),
        ensures
            r == self.table().lookup(mem, vpn_of(va)),
    {
        self.page_table.get_entry(mem, va)
    }

    /// Makes this address space the one that the hart runs in.
    pub fn activate(&self, mem: &PhysMemory, hart: &mut Hart)
        requires
            self.table().inv(mem),
        ensures
            final(hart).satp == crate::memory::paging::satp_of(self.table().root_ppn()),
            final(hart).sstatus == old(hart).sstatus,
            final(hart).sscratch == old(hart).sscratch,
            final(hart).stvec == old(hart).stvec,
            final(hart).sie == old(hart).sie,
    {
        self.page_table.activate(mem, hart);
    }

    /// The frames of the nodes through which the page of `va` is
    /// translated: the root, the node of the middle level and the node of
    /// leaves, as far as the page table has them.
    pub fn path(&self, mem: &PhysMemory, va: u64) -> (r: (u64, Option<u64>, Option<u64>))
        requires
            self.table().inv(mem),
        ensures
            r.0 == self.table().root_ppn(),
            r.1 is Some <==> self.table().l1_present(mem, vpn_of(va) / 262144),
            r.1 matches Some(t) ==> t == self.table().l1_table(mem, vpn_of(va) / 262144)
                && self.table().frames().contains(t as nat) && mem.contains(t as nat),
            r.2 is Some <==> self.table().l0_present(mem, vpn_of(va) / 512),
            r.2 matches Some(t) ==> t == self.table().l0_table(mem, vpn_of(va) / 512)
                && self.table().frames().contains(t as nat) && mem.contains(t as nat),
    {
        self.page_table.path(mem, va)
    }

    /// Value of the address-translation register that selects this address
    /// space.
    pub fn token(&self, mem: &PhysMemory) -> (satp: u64)
        requires
            self.table().inv(mem),
        ensures
            satp == crate::memory::paging::satp_of(self.table().root_ppn()),
    {
        self.page_table.token(mem)
    }

    /// Adds the area `[start, end)` with protection `attr`, backed as
    /// `handler` says: maps its pages, copies `data` into them where there is
    /// any, and records the area behind those that the address space has.
    pub fn push<H: MemoryHandler>(
        &mut self,
        mem: &mut PhysMemory,
        alloc: &mut SegmentTreeAllocator,
        start: u64,
        end: u64,
        attr: MemoryAttr,
        handler: H,
        data: Option<&[u8]>,
    )
        requires
            old(self).wf(old(mem), old(alloc)),
            push_pre(old(self), old(mem), old(alloc), start, end, handler.backing(), attr, data),
        ensures
            push_post(
                old(self),
                old(mem),
                old(alloc),
                final(self),
                final(mem),
                final(alloc),
                (MemoryArea { start, end, handler: handler.backing(), attr }),
                data,
            ),
    {
        let area = MemoryArea::new(start, end, handler.box_clone(), attr);
        let ghost s0 = *self;
        let ghost vlo = area.vpn_lo();
        let ghost vhi = area.vpn_hi();
        let Ghost(new_data) = area.map(&mut self.page_table, mem, alloc);
        let ghost mem_a = *mem;
        proof {
            assert(map_progress(
                &area,
                &s0.page_table,
                old(mem),
                old(alloc),
                &self.page_table,
                &mem_a,
                alloc,
                area.end_page(),
                new_data,
            ));
            lemma_linear_backed(&area, &self.page_table, &mem_a);
        }
        match data {
            Some(d) => {
                proof {
                    assert(area.backed(&self.page_table, &mem_a)) by {
                        if area.backing() is ByFrame {
                            assert forall|p: nat| area.contains_page(p) implies mem_a.contains(
                                #[trigger] area.frame_of(&self.page_table, &mem_a, p),
                            ) by {
                                assert(new_data.contains(area.frame_of(&self.page_table, &mem_a, p)));
                            }
                        } else {
                            assert forall|p: nat| area.contains_page(p) implies mem_a.contains(
                                #[trigger] area.frame_of(&self.page_table, &mem_a, p),
                            ) by {
                                assert(area.page_mapped(&self.page_table, &mem_a, p));
                                assert(linear_target(&area, p) == area.frame_of(
                                    &self.page_table,
                                    &mem_a,
                                    p,
                                ));
                            }
                        }
                    }
                }
                area.page_copy(&self.page_table, mem, d);
                proof {
                    self.page_table.lemma_inv_mem(mem);
                    self.page_table.lemma_same_tables(&mem_a, mem);
                    assert forall|p: nat| area.contains_page(p) implies area.frame_of(
                        &self.page_table,
                        mem,
                        p,
                    ) == area.frame_of(&self.page_table, &mem_a, p) by {
                        lemma_vpn_of_page(p);
                    }
                }
            },
            None => {},
        }
        self.areas.push(area);
        proof {
            self.data_frames = Ghost(self.data_frames@.union(new_data));
            let pt = self.page_table;
            PhysMemory::lemma_same_pages_refl(&mem_a);
            self.page_table.lemma_inv_mem(mem);
            self.page_table.lemma_same_tables(&mem_a, mem);
            assert(l1_set(&pt, mem) =~= l1_after(l1_set(&s0.page_table, old(mem)), vlo, vhi));
            assert(l0_set(&pt, mem) =~= l0_after(l0_set(&s0.page_table, old(mem)), vlo, vhi));
            assert forall|i: int| 0 <= i < self.areas().len() implies (#[trigger] self.areas()[i]).well_formed()
                && self.areas()[i].mapped(&pt, mem) by {
                let a = self.areas()[i];
                if i < s0.areas().len() {
                    assert(a == s0.areas()[i]);
                    assert(a.mapped(&s0.page_table, old(mem)));
                    assert forall|p: nat| a.contains_page(p) implies #[trigger] a.page_mapped(
                        &pt,
                        mem,
                        p,
                    ) by {
                        assert(a.page_mapped(&s0.page_table, old(mem), p));
                        lemma_other_area_vpn(&a, &area, p);
                        let v = p % (MAX_VPN as nat);
                        assert(pt.translate(&mem_a, v) == s0.page_table.translate(old(mem), v));
                    }
                } else {
                    assert(a == area);
                    assert forall|p: nat| a.contains_page(p) implies #[trigger] a.page_mapped(
                        &pt,
                        mem,
                        p,
                    ) by {
                        assert(a.page_mapped(&pt, &mem_a, p));
                        lemma_vpn_of_page(p);
                    }
                }
            }
            assert forall|i: int, j: int| 0 <= i < j < self.areas().len() implies !pages_meet(
                (#[trigger] self.areas()[i]).first_page(),
                self.areas()[i].end_page(),
                (#[trigger] self.areas()[j]).first_page(),
                self.areas()[j].end_page(),
            ) by {
                if j < s0.areas().len() {
                    assert(self.areas()[i] == s0.areas()[i]);
                    assert(self.areas()[j] == s0.areas()[j]);
                } else {
                    assert(self.areas()[i] == s0.areas()[i]);
                }
            }
            assert(self.owned().union(alloc.free_set()) =~= s0.owned().union(
                old(alloc).free_set(),
            ));
            assert(self.areas() =~= s0.areas().push(area));
            if !(area.backing() is ByFrame) {
                assert(self.data_frames() =~= s0.data_frames());
            }
            assert forall|p: nat| area.contains_page(p) implies area.frame_of(&pt, mem, p)
                == area.frame_of(&pt, &mem_a, p) by {
                lemma_vpn_of_page(p);
            }
            assert forall|f: nat| #[trigger] new_data.contains(f) implies old(alloc).lo() <= f < old(alloc).hi() && !s0.data_frames().contains(f) by {
                old(alloc).lemma_free_in_range(f);
            }
            lemma_push_apart(&s0, old(mem), self, mem, area, new_data);
        }
    }

    /// Takes the area that was added last out of the address space: its
    /// pages are unmapped, and where it was backed frame by frame, the
    /// frames of its pages go back to the allocator. Returns the area;
    /// `None` when the address space has no area.
    pub fn pop(&mut self, mem: &mut PhysMemory, alloc: &mut SegmentTreeAllocator) -> (r: Option<
        MemoryArea,
    >)
        requires
            old(self).wf(old(mem), old(alloc)),
        ensures
            final(self).wf(final(mem), final(alloc)),
            pop_post(old(self), old(mem), old(alloc), final(self), final(mem), final(alloc), r),
    {
        let ghost s0 = *self;
        let area = match self.areas.pop() {
            Some(area) => area,
            None => {
                proof {
                    assert(s0.areas().len() == 0);
                    assert(self.areas() =~= s0.areas());
                    assert(self.table() == s0.table());
                    assert(self.data_frames() == s0.data_frames());
                    assert(self.pages_apart(mem)) by {
                        reveal(MemorySet::pages_apart);
                    }
                    assert(self.owned().union(alloc.free_set()) =~= s0.owned().union(
                        alloc.free_set(),
                    ));
                }
                return None;
            },
        };
        let ghost n = s0.areas().len() - 1;
        proof {
            assert(area == s0.areas()[n]);
            assert(area.well_formed() && area.mapped(&s0.table(), mem));
            reveal(MemorySet::pages_apart);
            assert(area.releasable(&s0.table(), mem, alloc)) by {
                assert forall|p: nat| area.contains_page(p) implies #[trigger] s0.table().lookup(
                    mem,
                    p % (MAX_VPN as nat),
                ) is Some by {
                    assert(area.page_mapped(&s0.table(), mem, p));
                }
                if area.backing() is ByFrame {
                    assert forall|p: nat| area.contains_page(p) implies alloc.lo()
                        <= #[trigger] area.frame_of(&s0.table(), mem, p) < alloc.hi()
                        && !alloc.is_free(area.frame_of(&s0.table(), mem, p)) by {
                        assert(s0.areas()[n].contains_page(p));
                        assert(s0.data_frames().contains(area.frame_of(&s0.table(), mem, p)));
                    }
                    assert forall|p: nat, q: nat|
                        area.contains_page(p) && area.contains_page(q) && p != q implies #[trigger] area.frame_of(
                        &s0.table(),
                        mem,
                        p,
                    ) != #[trigger] area.frame_of(&s0.table(), mem, q) by {
                        assert(s0.areas()[n].contains_page(p));
                        assert(s0.areas()[n].contains_page(q));
                    }
                }
            }
        }
        let Ghost(freed) = area.unmap(&self.page_table, mem, alloc);
        proof {
            self.data_frames = Ghost(self.data_frames@.difference(freed));
            lemma_pop(&s0, old(mem), old(alloc), self, mem, alloc, area, freed);
        }
        Some(area)
    }
}

/// What `pop` has done when it returns `r`.
pub open spec fn pop_post(
    s0: &MemorySet,
    mem0: &PhysMemory,
    a0: &SegmentTreeAllocator,
    s1: &MemorySet,
    mem1: &PhysMemory,
    a1: &SegmentTreeAllocator,
    r: Option<MemoryArea>,
) -> bool {
    &&& s1.table() == s0.table()
    &&& a1.lo() == a0.lo()
    &&& a1.hi() == a0.hi()
    &&& s1.owned().union(a1.free_set()) == s0.owned().union(a0.free_set())
    &&& if s0.areas().len() == 0 {
        &&& r is None
        &&& s1.areas() == s0.areas()
        &&& s1.data_frames() == s0.data_frames()
        &&& *mem1 == *mem0
        &&& *a1 == *a0
    } else {
        let area = s0.areas().last();
        &&& r == Some(area)
        &&& s1.areas() == s0.areas().drop_last()
        &&& forall|p: nat|
            area.contains_page(p) ==> #[trigger] s1.table().lookup(mem1, p % (MAX_VPN as nat))
                == Some(PageEntry::empty())
        &&& forall|v: nat|
            v < MAX_VPN && !(area.vpn_lo() <= v < area.vpn_hi()) ==> #[trigger] s1.table().lookup(
                mem1,
                v,
            ) == s0.table().lookup(mem0, v)
        &&& mem1.same_pages(mem0)
        &&& forall|p: nat, i: nat|
            mem1.contains(p) && i < 512 && !s1.table().frames().contains(p) ==> #[trigger] mem1.entry(
                p,
                i,
            ) == mem0.entry(p, i)
        &&& if area.backing() is ByFrame {
            &&& forall|p: nat|
                area.contains_page(p) ==> a1.is_free(#[trigger] area.frame_of(&s0.table(), mem0, p))
                    && !s1.data_frames().contains(area.frame_of(&s0.table(), mem0, p))
            &&& forall|f: nat|
                #![trigger a1.is_free(f)]
                a1.is_free(f) <==> (a0.is_free(f) || area.frame_below(
                    &s0.table(),
                    mem0,
                    area.end_page(),
                    f,
                ))
            &&& forall|f: nat|
                #![trigger s1.data_frames().contains(f)]
                s1.data_frames().contains(f) <==> (s0.data_frames().contains(f)
                    && !area.frame_below(&s0.table(), mem0, area.end_page(), f))
            &&& a1.free_set().len() == a0.free_set().len() + (area.end_page() - area.first_page())
        } else {
            &&& *a1 == *a0
            &&& s1.data_frames() == s0.data_frames()
        }
    }
}

/// After `push`, every page that is backed frame by frame still has a frame
/// of its own.
proof fn lemma_push_apart(
    s0: &MemorySet,
    mem0: &PhysMemory,
    s1: &MemorySet,
    mem1: &PhysMemory,
    area: MemoryArea,
    new_data: Set<nat>,
)
    requires
        s0.pages_apart(mem0),
        s1.areas() == s0.areas().push(area),
        forall|i: int| 0 <= i < s1.areas().len() ==> (#[trigger] s1.areas()[i]).well_formed(),
        forall|i: int, j: int|
            0 <= i < j < s1.areas().len() ==> !pages_meet(
                (#[trigger] s1.areas()[i]).first_page(),
                s1.areas()[i].end_page(),
                (#[trigger] s1.areas()[j]).first_page(),
                s1.areas()[j].end_page(),
            ),
        forall|v: nat|
            v < MAX_VPN && !(area.vpn_lo() <= v < area.vpn_hi()) ==> #[trigger] s1.table().translate(
                mem1,
                v,
            ) == s0.table().translate(mem0, v),
        s1.data_frames() == s0.data_frames().union(new_data),
        forall|f: nat| #[trigger] new_data.contains(f) ==> !s0.data_frames().contains(f),
        area.backing() is ByFrame ==> {
            &&& forall|p: nat|
                area.contains_page(p) ==> new_data.contains(
                    #[trigger] area.frame_of(&s1.table(), mem1, p),
                )
            &&& forall|p: nat, q: nat|
                area.contains_page(p) && area.contains_page(q) && p != q ==> #[trigger] area.frame_of(
                    &s1.table(),
                    mem1,
                    p,
                ) != #[trigger] area.frame_of(&s1.table(), mem1, q)
        },
    ensures
        s1.pages_apart(mem1),
{
    reveal(MemorySet::pages_apart);
    let n = s0.areas().len() as int;
    let pt0 = s0.table();
    let pt1 = s1.table();
    assert forall|i: int, p: nat|
        0 <= i < n && #[trigger] s1.areas()[i].contains_page(p) implies s1.areas()[i].frame_of(
        &pt1,
        mem1,
        p,
    ) == s0.areas()[i].frame_of(&pt0, mem0, p) && s1.areas()[i] == s0.areas()[i] by {
        assert(s1.areas()[i] == s0.areas()[i]);
        assert(s1.areas()[n] == area);
        lemma_other_area_vpn(&s1.areas()[i], &area, p);
    }
    assert forall|i: int, p: nat|
        0 <= i < s1.areas().len() && s1.areas()[i].backing() is ByFrame && (
        #[trigger] s1.areas()[i].contains_page(p)) implies s1.data_frames().contains(
        s1.areas()[i].frame_of(&pt1, mem1, p),
    ) by {
        if i < n {
            assert(s0.areas()[i].contains_page(p));
            assert(s0.data_frames().contains(s0.areas()[i].frame_of(&pt0, mem0, p)));
        } else {
            assert(s1.areas()[i] == area);
        }
    }
    assert forall|i: int, j: int, p: nat, q: nat|
        0 <= i < s1.areas().len() && 0 <= j < s1.areas().len() && s1.areas()[i].backing() is ByFrame
            && s1.areas()[j].backing() is ByFrame && (#[trigger] s1.areas()[i].contains_page(p)) && (
        #[trigger] s1.areas()[j].contains_page(q)) && p != q implies s1.areas()[i].frame_of(
        &pt1,
        mem1,
        p,
    ) != s1.areas()[j].frame_of(&pt1, mem1, q) by {
        if i < n && j < n {
            assert(s0.areas()[i].contains_page(p));
            assert(s0.areas()[j].contains_page(q));
        } else if i < n {
            assert(s1.areas()[j] == area);
            assert(s0.areas()[i].contains_page(p));
            assert(s0.data_frames().contains(s0.areas()[i].frame_of(&pt0, mem0, p)));
            assert(new_data.contains(area.frame_of(&pt1, mem1, q)));
        } else if j < n {
            assert(s1.areas()[i] == area);
            assert(s0.areas()[j].contains_page(q));
            assert(s0.data_frames().contains(s0.areas()[j].frame_of(&pt0, mem0, q)));
            assert(new_data.contains(area.frame_of(&pt1, mem1, p)));
        } else {
            assert(s1.areas()[i] == area && s1.areas()[j] == area);
        }
    }
}

/// After `pop`, the address space is consistent, and every frame is where
/// `pop_post` says.
proof fn lemma_pop(
    s0: &MemorySet,
    mem0: &PhysMemory,
    a0: &SegmentTreeAllocator,
    s1: &MemorySet,
    mem1: &PhysMemory,
    a1: &SegmentTreeAllocator,
    area: MemoryArea,
    freed: Set<nat>,
)
    requires
        s0.wf(mem0, a0),
        s0.areas().len() > 0,
        area == s0.areas().last(),
        s1.areas() == s0.areas().drop_last(),
        s1.table() == s0.table(),
        s1.data_frames() == s0.data_frames().difference(freed),
        s1.table().inv(mem1),
        forall|p: nat|
            area.contains_page(p) ==> #[trigger] s1.table().lookup(mem1, p % (MAX_VPN as nat))
                == Some(PageEntry::empty()),
        forall|v: nat|
            v < MAX_VPN && !(area.vpn_lo() <= v < area.vpn_hi()) ==> #[trigger] s1.table().lookup(
                mem1,
                v,
            ) == s0.table().lookup(mem0, v),
        mem1.same_pages(mem0),
        forall|p: nat, i: nat|
            mem1.contains(p) && i < 512 && !s1.table().frames().contains(p) ==> #[trigger] mem1.entry(
                p,
                i,
            ) == mem0.entry(p, i),
        a1.wf(),
        a1.lo() == a0.lo(),
        a1.hi() == a0.hi(),
        forall|q: nat| #![trigger a1.is_free(q)] a1.is_free(q) <==> (a0.is_free(q) || freed.contains(q)),
        forall|q: nat| #[trigger] freed.contains(q) ==> !a0.is_free(q),
        area.backing() is ByFrame ==> {
            &&& forall|q: nat|
                freed.contains(q) <==> area.frame_below(&s0.table(), mem0, area.end_page(), q)
            &&& a1.free_set().len() == a0.free_set().len() + (area.end_page() - area.first_page())
        },
        !(area.backing() is ByFrame) ==> freed == Set::<nat>::empty() && *a1 == *a0,
    ensures
        s1.wf(mem1, a1),
        pop_post(s0, mem0, a0, s1, mem1, a1, Some(area)),
{
    reveal(MemorySet::pages_apart);
    let n = (s0.areas().len() - 1) as int;
    let pt = s0.table();
    assert(area == s0.areas()[n]);
    assert(area.well_formed());
    // every freed frame was the frame of a page of the area, which the address space held
    assert forall|f: nat| #[trigger] freed.contains(f) implies s0.data_frames().contains(f) by {
        if area.backing() is ByFrame {
            assert(area.frame_below(&pt, mem0, area.end_page(), f));
            let p = choose|p: nat|
                area.first_page() <= p < area.end_page() && #[trigger] area.frame_of(&pt, mem0, p)
                    == f;
            assert(s0.areas()[n].contains_page(p));
        }
    }
    assert forall|i: int, p: nat|
        0 <= i < n && #[trigger] s1.areas()[i].contains_page(p) implies pt.translate(
        mem1,
        p % (MAX_VPN as nat),
    ) == pt.translate(mem0, p % (MAX_VPN as nat)) && s1.areas()[i] == s0.areas()[i] by {
        assert(s1.areas()[i] == s0.areas()[i]);
        lemma_other_area_vpn(&s0.areas()[i], &area, p);
    }
    assert forall|i: int| 0 <= i < s1.areas().len() implies (#[trigger] s1.areas()[i]).well_formed()
        && s1.areas()[i].mapped(&pt, mem1) by {
        let a = s1.areas()[i];
        assert(a == s0.areas()[i]);
        assert(a.mapped(&pt, mem0));
        assert forall|p: nat| a.contains_page(p) implies #[trigger] a.page_mapped(&pt, mem1, p) by {
            assert(a.page_mapped(&pt, mem0, p));
            assert(s1.areas()[i].contains_page(p));
        }
    }
    assert forall|i: int, j: int| 0 <= i < j < s1.areas().len() implies !pages_meet(
        (#[trigger] s1.areas()[i]).first_page(),
        s1.areas()[i].end_page(),
        (#[trigger] s1.areas()[j]).first_page(),
        s1.areas()[j].end_page(),
    ) by {
        assert(s1.areas()[i] == s0.areas()[i]);
        assert(s1.areas()[j] == s0.areas()[j]);
    }
    // a page of another area does not have a freed frame
    assert forall|i: int, p: nat|
        0 <= i < n && s1.areas()[i].backing() is ByFrame && (
        #[trigger] s1.areas()[i].contains_page(p)) implies !freed.contains(
        s0.areas()[i].frame_of(&pt, mem0, p),
    ) by {
        let f = s0.areas()[i].frame_of(&pt, mem0, p);
        if freed.contains(f) {
            assert(area.frame_below(&pt, mem0, area.end_page(), f));
            let q = choose|q: nat|
                area.first_page() <= q < area.end_page() && #[trigger] area.frame_of(&pt, mem0, q)
                    == f;
            assert(s0.areas()[n].contains_page(q));
            assert(s0.areas()[i].contains_page(p));
            if p == q {
                assert(pages_meet(
                    s0.areas()[i].first_page(),
                    s0.areas()[i].end_page(),
                    s0.areas()[n].first_page(),
                    s0.areas()[n].end_page(),
                ));
            }
        }
    }
    assert(s1.pages_apart(mem1)) by {
        assert forall|i: int, p: nat|
            0 <= i < s1.areas().len() && s1.areas()[i].backing() is ByFrame && (
            #[trigger] s1.areas()[i].contains_page(p)) implies s1.data_frames().contains(
            s1.areas()[i].frame_of(&pt, mem1, p),
        ) by {
            assert(s0.areas()[i].contains_page(p));
        }
        assert forall|i: int, j: int, p: nat, q: nat|
            0 <= i < s1.areas().len() && 0 <= j < s1.areas().len()
                && s1.areas()[i].backing() is ByFrame && s1.areas()[j].backing() is ByFrame && (
            #[trigger] s1.areas()[i].contains_page(p)) && (
            #[trigger] s1.areas()[j].contains_page(q)) && p != q implies s1.areas()[i].frame_of(
            &pt,
            mem1,
            p,
        ) != s1.areas()[j].frame_of(&pt, mem1, q) by {
            assert(s0.areas()[i].contains_page(p));
            assert(s0.areas()[j].contains_page(q));
        }
    }
    s0.table().lemma_inv_mem(mem0);
    assert(s1.owned().union(a1.free_set()) =~= s0.owned().union(a0.free_set()));
    if area.backing() is ByFrame {
        assert forall|p: nat| area.contains_page(p) implies a1.is_free(
            #[trigger] area.frame_of(&pt, mem0, p),
        ) && !s1.data_frames().contains(area.frame_of(&pt, mem0, p)) by {
            assert(area.frame_below(&pt, mem0, area.end_page(), area.frame_of(&pt, mem0, p)));
        }
    } else {
        assert(s1.data_frames() =~= s0.data_frames());
    }
}

/// Where the link script has put the sections of the kernel image: the
/// virtual addresses of their first bytes and of the bytes behind their last,
/// and the address behind the image.
#[derive(Clone, Copy, Debug)]
pub struct KernelLayout {
    pub stext: u64,
    pub etext: u64,
    pub srodata: u64,
    pub erodata: u64,
    pub sdata: u64,
    pub edata: u64,
    pub sbss: u64,
    pub ebss: u64,
    pub end: u64,
}

/// A linear area of the kernel, at the offset of the direct map.
pub open spec fn kernel_area(start: u64, end: u64, readonly: bool, execute: bool) -> MemoryArea {
    MemoryArea {
        start,
        end,
        handler: Backing::Linear { offset: PHYSICAL_MEMORY_OFFSET },
        attr: MemoryAttr { user: false, readonly, execute },
    }
}

/// First address of the window through which the kernel reaches physical
/// memory: the first page boundary behind the image.
pub open spec fn window_start(layout: KernelLayout) -> u64 {
    ((layout.end / PAGE_SIZE + 1) * PAGE_SIZE) as u64
}

/// Address behind the window through which the kernel reaches physical
/// memory.
pub open spec fn window_end() -> u64 {
    (PHYSICAL_MEMORY_END + PHYSICAL_MEMORY_OFFSET) as u64
}

/// The areas that every address space starts with: the text of the kernel,
/// readable and executable; its constants, readable; its data and its
/// zeroed data, readable and writable; and the window on physical memory,
/// readable and writable. All are linear and for the kernel only.
pub open spec fn preamble_areas(layout: KernelLayout) -> Seq<MemoryArea> {
    seq![
        kernel_area(layout.stext, layout.etext, true, true),
        kernel_area(layout.srodata, layout.erodata, true, false),
        kernel_area(layout.sdata, layout.edata, false, false),
        kernel_area(layout.sbss, layout.ebss, false, false),
        kernel_area(window_start(layout), window_end(), false, false),
    ]
}

impl KernelLayout {
    /// The five areas of the kernel can be mapped side by side: each is a
    /// well-formed area, and no two share a page.
    pub open spec fn wf(&self) -> bool {
        &&& self.end < 0xffff_ffff_ffff_e000
        &&& forall|i: int| 0 <= i < 5 ==> (#[trigger] preamble_areas(*self)[i]).well_formed()
        &&& forall|i: int, j: int|
            0 <= i < j < 5 ==> !pages_meet(
                (#[trigger] preamble_areas(*self)[i]).first_page(),
                preamble_areas(*self)[i].end_page(),
                (#[trigger] preamble_areas(*self)[j]).first_page(),
                preamble_areas(*self)[j].end_page(),
            )
    }
}

impl MemorySet {
    /// The address space starts with the areas of the kernel.
    pub open spec fn has_preamble(&self, layout: KernelLayout) -> bool {
        &&& self.areas().len() >= 5
        &&& self.areas().subrange(0, 5) == preamble_areas(layout)
    }

    /// Adds the areas of the kernel: its text, read-only data, data and
    /// zeroed data, and the window on physical memory.
    pub fn map_kernel_and_physical_memory(
        &mut self,
        mem: &mut PhysMemory,
        alloc: &mut SegmentTreeAllocator,
        layout: &KernelLayout,
    )
        requires
            old(self).wf(old(mem), old(alloc)),
            layout.wf(),
            forall|i: int|
                0 <= i < 5 ==> old(self).free_area(
                    (#[trigger] preamble_areas(*layout)[i]).start,
                    preamble_areas(*layout)[i].end,
                ),
            old(alloc).free_set().len() >= areas_frames_needed(
                preamble_areas(*layout),
                l1_set(&old(self).table(), old(mem)),
                l0_set(&old(self).table(), old(mem)),
                5,
            ),
        ensures
            final(self).wf(final(mem), final(alloc)),
            final(self).areas() == old(self).areas() + preamble_areas(*layout),
            (l1_set(&final(self).table(), final(mem)), l0_set(&final(self).table(), final(mem)))
                == sets_upto(
                preamble_areas(*layout),
                l1_set(&old(self).table(), old(mem)),
                l0_set(&old(self).table(), old(mem)),
                5,
            ),
            final(self).table().root_ppn() == old(self).table().root_ppn(),
            final(alloc).lo() == old(alloc).lo(),
            final(alloc).hi() == old(alloc).hi(),
            final(alloc).free_set().len() == old(alloc).free_set().len() - areas_frames_needed(
                preamble_areas(*layout),
                l1_set(&old(self).table(), old(mem)),
                l0_set(&old(self).table(), old(mem)),
                5,
            ),
            final(self).owned().union(final(alloc).free_set()) == old(self).owned().union(
                old(alloc).free_set(),
            ),
            final(self).data_frames() == old(self).data_frames(),
            final(mem).same_pages(old(mem)),
            forall|p: nat, i: nat|
                final(mem).contains(p) && i < 512 && !final(self).table().frames().contains(p)
                    ==> #[trigger] final(mem).entry(p, i) == old(mem).entry(p, i),
    {
        let ghost pre = preamble_areas(*layout);
        let ghost s0 = *self;
        let ghost m0 = *mem;
        let ghost a0 = *alloc;
        proof {
            reveal_with_fuel(areas_frames_needed, 6);
            reveal_with_fuel(sets_upto, 6);
            assert(pre[0].well_formed() && pre[1].well_formed() && pre[2].well_formed()
                && pre[3].well_formed() && pre[4].well_formed());
            assert(s0.free_area(pre[0].start, pre[0].end));
            assert(s0.free_area(pre[1].start, pre[1].end));
            assert(s0.free_area(pre[2].start, pre[2].end));
            assert(s0.free_area(pre[3].start, pre[3].end));
            assert(s0.free_area(pre[4].start, pre[4].end));
        }
        // .text R|X
        self.push_kernel(
            mem,
            alloc,
            layout.stext,
            layout.etext,
            MemoryAttr::new().set_readonly().set_execute(),
        );
        let ghost s1 = *self;
        let ghost m1 = *mem;
        let ghost a1 = *alloc;
        proof {
            lemma_free_after_push(&s0, &s1, pre[0], pre[1]);
        }
        // .rodata R
        self.push_kernel(mem, alloc, layout.srodata, layout.erodata, MemoryAttr::new().set_readonly());
        let ghost s2 = *self;
        let ghost m2 = *mem;
        let ghost a2 = *alloc;
        proof {
            lemma_free_after_push(&s0, &s1, pre[0], pre[2]);
            lemma_free_after_push(&s1, &s2, pre[1], pre[2]);
            lemma_grown_trans(&s0, &m0, &a0, &s1, &m1, &a1, &s2, &m2, &a2);
        }
        // .data R|W
        self.push_kernel(mem, alloc, layout.sdata, layout.edata, MemoryAttr::new());
        let ghost s3 = *self;
        let ghost m3 = *mem;
        let ghost a3 = *alloc;
        proof {
            lemma_free_after_push(&s0, &s1, pre[0], pre[3]);
            lemma_free_after_push(&s1, &s2, pre[1], pre[3]);
            lemma_free_after_push(&s2, &s3, pre[2], pre[3]);
            lemma_grown_trans(&s0, &m0, &a0, &s2, &m2, &a2, &s3, &m3, &a3);
        }
        // .bss R|W
        self.push_kernel(mem, alloc, layout.sbss, layout.ebss, MemoryAttr::new());
        let ghost s4 = *self;
        let ghost m4 = *mem;
        let ghost a4 = *alloc;
        proof {
            lemma_free_after_push(&s0, &s1, pre[0], pre[4]);
            lemma_free_after_push(&s1, &s2, pre[1], pre[4]);
            lemma_free_after_push(&s2, &s3, pre[2], pre[4]);
            lemma_free_after_push(&s3, &s4, pre[3], pre[4]);
            lemma_grown_trans(&s0, &m0, &a0, &s3, &m3, &a3, &s4, &m4, &a4);
        }
        // physical memory R|W
        self.push_kernel(
            mem,
            alloc,
            (layout.end / PAGE_SIZE + 1) * PAGE_SIZE,
            PHYSICAL_MEMORY_END + PHYSICAL_MEMORY_OFFSET,
            MemoryAttr::new(),
        );
        proof {
            lemma_grown_trans(&s0, &m0, &a0, &s4, &m4, &a4, self, mem, alloc);
            reveal(grown);
            assert(self.areas() =~= old(self).areas() + preamble_areas(*layout));
        }
    }

    /// Adds a linear area of the kernel, at the offset of the direct map.
    fn push_kernel(
        &mut self,
        mem: &mut PhysMemory,
        alloc: &mut SegmentTreeAllocator,
        start: u64,
        end: u64,
        attr: MemoryAttr,
    )
        requires
            old(self).wf(old(mem), old(alloc)),
            push_pre(
                old(self),
                old(mem),
                old(alloc),
                start,
                end,
                Backing::Linear { offset: PHYSICAL_MEMORY_OFFSET },
                attr,
                None,
            ),
        ensures
            final(self).wf(final(mem), final(alloc)),
            final(self).areas() == old(self).areas().push(
                MemoryArea {
                    start,
                    end,
                    handler: Backing::Linear { offset: PHYSICAL_MEMORY_OFFSET },
                    attr,
                },
            ),
            l1_set(&final(self).table(), final(mem)) == l1_after(
                l1_set(&old(self).table(), old(mem)),
                (MemoryArea {
                    start,
                    end,
                    handler: Backing::Linear { offset: PHYSICAL_MEMORY_OFFSET },
                    attr,
                }).vpn_lo(),
                (MemoryArea {
                    start,
                    end,
                    handler: Backing::Linear { offset: PHYSICAL_MEMORY_OFFSET },
                    attr,
                }).vpn_hi(),
            ),
            l0_set(&final(self).table(), final(mem)) == l0_after(
                l0_set(&old(self).table(), old(mem)),
                (MemoryArea {
                    start,
                    end,
                    handler: Backing::Linear { offset: PHYSICAL_MEMORY_OFFSET },
                    attr,
                }).vpn_lo(),
                (MemoryArea {
                    start,
                    end,
                    handler: Backing::Linear { offset: PHYSICAL_MEMORY_OFFSET },
                    attr,
                }).vpn_hi(),
            ),
            final(alloc).free_set().len() == old(alloc).free_set().len() - (MemoryArea {
                start,
                end,
                handler: Backing::Linear { offset: PHYSICAL_MEMORY_OFFSET },
                attr,
            }).frames_needed(&old(self).table(), old(mem)),
            grown(old(self), old(mem), old(alloc), final(self), final(mem), final(alloc)),
    {
        self.push(mem, alloc, start, end, attr, Linear::new(PHYSICAL_MEMORY_OFFSET), None);
        proof {
            reveal(grown);
        }
    }

    /// A new address space, with the areas of the kernel mapped.
    pub fn new(
        mem: &mut PhysMemory,
        alloc: &mut SegmentTreeAllocator,
        layout: &KernelLayout,
    ) -> (s: MemorySet)
        requires
            old(mem).wf(),
            old(alloc).wf(),
            forall|f: nat| old(alloc).is_free(f) ==> old(mem).contains(f),
            layout.wf(),
            old(alloc).free_set().len() >= 1 + areas_frames_needed(
                preamble_areas(*layout),
                Set::empty(),
                Set::empty(),
                5,
            ),
        ensures
            s.wf(final(mem), final(alloc)),
            s.areas() == preamble_areas(*layout),
            (l1_set(&s.table(), final(mem)), l0_set(&s.table(), final(mem))) == sets_upto(
                preamble_areas(*layout),
                Set::empty(),
                Set::empty(),
                5,
            ),
            forall|f: nat| final(alloc).is_free(f) ==> final(mem).contains(f),
            s.has_preamble(*layout),
            old(alloc).is_free(s.table().root_ppn()),
            forall|q: nat| q < s.table().root_ppn() ==> !old(alloc).is_free(q),
            final(alloc).lo() == old(alloc).lo(),
            final(alloc).hi() == old(alloc).hi(),
            final(alloc).free_set().len() == old(alloc).free_set().len() - 1 - areas_frames_needed(
                preamble_areas(*layout),
                Set::empty(),
                Set::empty(),
                5,
            ),
            s.owned().union(final(alloc).free_set()) == old(alloc).free_set(),
            s.data_frames() == Set::<nat>::empty(),
            final(mem).same_pages(old(mem)),
    {
        let page_table = PageTableImpl::new_bare(mem, alloc);
        let mut memory_set = MemorySet {
            areas: Vec::new(),
            page_table,
            data_frames: Ghost(Set::empty()),
        };
        let ghost s1 = memory_set;
        let ghost m1 = *mem;
        let ghost a1 = *alloc;
        proof {
            assert(l1_set(&memory_set.table(), mem) =~= Set::<nat>::empty());
            assert(l0_set(&memory_set.table(), mem) =~= Set::<nat>::empty());
            assert(s1.owned().union(a1.free_set()) =~= old(alloc).free_set());
            assert(s1.pages_apart(mem)) by {
                reveal(MemorySet::pages_apart);
            }
        }
        memory_set.map_kernel_and_physical_memory(mem, alloc, layout);
        proof {
            PhysMemory::lemma_same_pages_trans(mem, &m1, old(mem));
            assert(memory_set.owned().union(alloc.free_set()) =~= old(alloc).free_set());
            assert(memory_set.areas() =~= preamble_areas(*layout));
            assert(memory_set.areas().subrange(0, 5) =~= preamble_areas(*layout));
        }
        memory_set
    }
}

/// What stays as it was while an address space gains linear areas: its root,
/// the frames it had, the frames of its pages, the data pages of the memory,
/// and the page-table nodes that are not its own. Every frame that left the
/// allocator is a node of its page table.
#[verifier::opaque]
pub open spec fn grown(
    s0: &MemorySet,
    mem0: &PhysMemory,
    a0: &SegmentTreeAllocator,
    s1: &MemorySet,
    mem1: &PhysMemory,
    a1: &SegmentTreeAllocator,
) -> bool {
    &&& s1.table().root_ppn() == s0.table().root_ppn()
    &&& a1.lo() == a0.lo()
    &&& a1.hi() == a0.hi()
    &&& s1.data_frames() == s0.data_frames()
    &&& s1.owned().union(a1.free_set()) == s0.owned().union(a0.free_set())
    &&& forall|f: nat| #[trigger] s0.table().frames().contains(f) ==> s1.table().frames().contains(f)
    &&& forall|f: nat| #[trigger] a1.is_free(f) ==> a0.is_free(f)
    &&& mem1.same_pages(mem0)
    &&& forall|p: nat, i: nat|
        mem1.contains(p) && i < 512 && !s1.table().frames().contains(p) ==> #[trigger] mem1.entry(
            p,
            i,
        ) == mem0.entry(p, i)
}

proof fn lemma_grown_trans(
    s0: &MemorySet,
    mem0: &PhysMemory,
    a0: &SegmentTreeAllocator,
    s1: &MemorySet,
    mem1: &PhysMemory,
    a1: &SegmentTreeAllocator,
    s2: &MemorySet,
    mem2: &PhysMemory,
    a2: &SegmentTreeAllocator,
)
    requires
        grown(s0, mem0, a0, s1, mem1, a1),
        grown(s1, mem1, a1, s2, mem2, a2),
    ensures
        grown(s0, mem0, a0, s2, mem2, a2),
{
    reveal(grown);
    PhysMemory::lemma_same_pages_trans(mem2, mem1, mem0);
    assert forall|p: nat, i: nat|
        mem2.contains(p) && i < 512 && !s2.table().frames().contains(p) implies #[trigger] mem2.entry(
        p,
        i,
    ) == mem0.entry(p, i) by {
        assert(mem2.entry(p, i) == mem1.entry(p, i));
        assert(mem1.entry(p, i) == mem0.entry(p, i));
    }
}

/// An address range that is free in an address space, and has no page in
/// common with an area that is pushed, is free afterwards too.
proof fn lemma_free_after_push(s0: &MemorySet, s1: &MemorySet, pushed: MemoryArea, next: MemoryArea)
    requires
        s1.areas() == s0.areas().push(pushed),
        s0.free_area(next.start, next.end),
        !pages_meet(pushed.first_page(), pushed.end_page(), next.first_page(), next.end_page()),
    ensures
        s1.free_area(next.start, next.end),
{
    assert forall|i: int| 0 <= i < s1.areas().len() implies !pages_meet(
        (#[trigger] s1.areas()[i]).first_page(),
        s1.areas()[i].end_page(),
        first_page(next.start),
        end_page(next.start, next.end),
    ) by {
        if i < s0.areas().len() {
            assert(s1.areas()[i] == s0.areas()[i]);
        }
    }
}

/// Every frame is in one place: where an address space and the free frames of
/// the allocator make up the range of the allocator together, which `new`
/// brings about and `push` keeps, the frames that the address space holds are
/// the frames that the allocator has handed out, each of them once, and none
/// of them is free.
pub proof fn lemma_frames_accounted(s: &MemorySet, mem: &PhysMemory, alloc: &SegmentTreeAllocator)
    requires
        s.wf(mem, alloc),
        s.owned().union(alloc.free_set()) == alloc.range_set(),
    ensures
        s.owned() == alloc.taken_set(),
        s.owned().disjoint(alloc.free_set()),
        s.table().frames().disjoint(s.data_frames()),
        alloc.free_set().union(alloc.taken_set()) == alloc.range_set(),
{
    alloc.lemma_partition();
    assert forall|f: nat| s.owned().contains(f) implies !alloc.free_set().contains(f) by {
        if s.table().frames().contains(f) {
        } else {
            assert(s.data_frames().contains(f));
        }
    }
    assert forall|f: nat| s.owned().contains(f) <==> alloc.taken_set().contains(f) by {
        if s.owned().contains(f) {
            assert(s.owned().union(alloc.free_set()).contains(f));
            assert(alloc.range_set().contains(f));
        }
        if alloc.taken_set().contains(f) {
            assert(alloc.range_set().contains(f));
            assert(s.owned().union(alloc.free_set()).contains(f));
        }
    }
    assert(s.owned() =~= alloc.taken_set());
}

/// Every page that is backed frame by frame has a frame of its own: the
/// frame is one that the allocator has handed out, the address space holds
/// it for that page, it holds no node of the page table, and no other such
/// page of the address space is mapped to it.
pub proof fn lemma_page_frames(
    s: &MemorySet,
    mem: &PhysMemory,
    alloc: &SegmentTreeAllocator,
    i: int,
    p: nat,
    j: int,
    q: nat,
)
    requires
        s.wf(mem, alloc),
        0 <= i < s.areas().len(),
        0 <= j < s.areas().len(),
        s.areas()[i].backing() is ByFrame,
        s.areas()[j].backing() is ByFrame,
        s.areas()[i].contains_page(p),
        s.areas()[j].contains_page(q),
    ensures
        s.data_frames().contains(s.areas()[i].frame_of(&s.table(), mem, p)),
        !alloc.is_free(s.areas()[i].frame_of(&s.table(), mem, p)),
        alloc.lo() <= s.areas()[i].frame_of(&s.table(), mem, p) < alloc.hi(),
        mem.contains(s.areas()[i].frame_of(&s.table(), mem, p)),
        !s.table().frames().contains(s.areas()[i].frame_of(&s.table(), mem, p)),
        p != q ==> s.areas()[i].frame_of(&s.table(), mem, p) != s.areas()[j].frame_of(
            &s.table(),
            mem,
            q,
        ),
{
    reveal(MemorySet::pages_apart);
}

/// Address spaces stay apart: while one address space gains an area that is
/// backed frame by frame, or one without data, another address space, which
/// holds none of its frames, stays as it is. It is still consistent, it
/// translates every page as before, its data pages hold what they held, and
/// it still shares no frame with the first.
pub proof fn lemma_spaces_apart(
    other: &MemorySet,
    s0: &MemorySet,
    mem0: &PhysMemory,
    a0: &SegmentTreeAllocator,
    s1: &MemorySet,
    mem1: &PhysMemory,
    a1: &SegmentTreeAllocator,
    area: MemoryArea,
    data: Option<&[u8]>,
)
    requires
        other.wf(mem0, a0),
        s0.wf(mem0, a0),
        other.owned().disjoint(s0.owned()),
        push_post(s0, mem0, a0, s1, mem1, a1, area, data),
        area.backing() is ByFrame || data is None,
    ensures
        other.wf(mem1, a1),
        other.owned().disjoint(s1.owned()),
        other.table().view(mem1) == other.table().view(mem0),
        forall|f: nat| other.data_frames().contains(f) ==> #[trigger] mem1.page(f) == mem0.page(f),
{
    let pt = other.table();
    pt.lemma_inv_mem(mem0);
    s1.table().lemma_inv_mem(mem1);
    assert forall|f: nat| #[trigger] other.owned().contains(f) implies !s1.owned().contains(f) by {
        assert(!s0.owned().contains(f));
        assert(!a0.is_free(f)) by {
            if other.table().frames().contains(f) {
            } else {
                assert(other.data_frames().contains(f));
            }
        }
        if s1.owned().contains(f) {
            assert(s1.owned().union(a1.free_set()).contains(f));
            assert(s0.owned().union(a0.free_set()).contains(f));
        }
    }
    assert forall|f: nat, i: nat| pt.frames().contains(f) && i < 512 implies #[trigger] mem1.entry(
        f,
        i,
    ) == mem0.entry(f, i) by {
        assert(other.owned().contains(f));
        assert(!s1.owned().contains(f));
        assert(!s1.table().frames().contains(f));
        assert(mem0.contains(f));
        assert(mem1.contains(f));
    }
    pt.lemma_own_nodes_kept(mem0, mem1);
    assert forall|i: int| 0 <= i < other.areas().len() implies (#[trigger] other.areas()[i]).well_formed()
        && other.areas()[i].mapped(&pt, mem1) by {
        let a = other.areas()[i];
        assert(a.mapped(&pt, mem0));
        assert forall|p: nat| a.contains_page(p) implies #[trigger] a.page_mapped(&pt, mem1, p) by {
            assert(a.page_mapped(&pt, mem0, p));
            lemma_vpn_of_page(p);
        }
    }
    assert(other.pages_apart(mem1)) by {
        reveal(MemorySet::pages_apart);
        assert forall|i: int, p: nat|
            0 <= i < other.areas().len() && #[trigger] other.areas()[i].contains_page(p) implies other.areas()[i].frame_of(
            &pt,
            mem1,
            p,
        ) == other.areas()[i].frame_of(&pt, mem0, p) by {
            assert(other.areas()[i].well_formed());
            lemma_vpn_of_page(p);
        }
    }
    assert forall|f: nat| other.data_frames().contains(f) implies #[trigger] mem1.page(f)
        == mem0.page(f) by {
        assert(other.owned().contains(f));
        assert(!s1.owned().contains(f));
        match data {
            Some(d) => {
                assert forall|p: nat| area.contains_page(p) implies #[trigger] area.frame_of(
                    &s1.table(),
                    mem1,
                    p,
                ) != f by {
                    assert(s1.data_frames().contains(area.frame_of(&s1.table(), mem1, p)));
                    assert(s1.owned().contains(area.frame_of(&s1.table(), mem1, p)));
                }
                assert forall|i: nat| i < 4096 implies mem1.byte(f, i) == mem0.byte(f, i) by {}
            },
            None => {},
        }
        assert(mem1.page(f) =~= mem0.page(f));
    }
}

/// An address space that starts with the areas of the kernel still starts
/// with them after an area was pushed: every address space that `new` made
/// keeps the kernel mapped, whatever is added to it.
pub proof fn lemma_preamble_kept(
    before: MemorySet,
    after: MemorySet,
    area: MemoryArea,
    layout: KernelLayout,
)
    requires
        before.has_preamble(layout),
        after.areas() == before.areas().push(area),
    ensures
        after.has_preamble(layout),
{
    assert(after.areas().subrange(0, 5) =~= before.areas().subrange(0, 5));
}

/// Frame to which a linear area sends its page `p`.
pub open spec fn linear_target(area: &MemoryArea, p: nat) -> nat {
    match area.backing() {
        Backing::Linear { offset } => ((p * PAGE_SIZE - offset) / (PAGE_SIZE as int)) as nat,
        Backing::ByFrame => 0,
    }
}

/// What `push` asks of the address range, the handler and the data.
pub open spec fn push_pre(
    s: &MemorySet,
    mem: &PhysMemory,
    alloc: &SegmentTreeAllocator,
    start: u64,
    end: u64,
    b: Backing,
    attr: MemoryAttr,
    data: Option<&[u8]>,
) -> bool {
    let area = MemoryArea { start, end, handler: b, attr };
    &&& area.well_formed()
    &&& s.free_area(start, end)
    &&& alloc.free_set().len() >= area.frames_needed(&s.table(), mem)
    &&& data is Some ==> (b matches Backing::Linear { offset } ==> {
        &&& offset == PHYSICAL_MEMORY_OFFSET
        &&& forall|p: nat| area.contains_page(p) ==> mem.contains(#[trigger] linear_target(&area, p))
    })
}

/// What `push` has done when it returns.
pub open spec fn push_post(
    s0: &MemorySet,
    mem0: &PhysMemory,
    a0: &SegmentTreeAllocator,
    s1: &MemorySet,
    mem1: &PhysMemory,
    a1: &SegmentTreeAllocator,
    area: MemoryArea,
    data: Option<&[u8]>,
) -> bool {
    &&& s1.wf(mem1, a1)
    &&& s1.areas() == s0.areas().push(area)
    &&& s1.table().root_ppn() == s0.table().root_ppn()
    &&& a1.lo() == a0.lo()
    &&& a1.hi() == a0.hi()
    &&& mem1.first_ppn() == mem0.first_ppn()
    &&& mem1.end_ppn() == mem0.end_ppn()
    &&& forall|v: nat|
        v < MAX_VPN && !(area.vpn_lo() <= v < area.vpn_hi()) ==> #[trigger] s1.table().translate(
            mem1,
            v,
        ) == s0.table().translate(mem0, v)
    &&& l1_set(&s1.table(), mem1) == l1_after(l1_set(&s0.table(), mem0), area.vpn_lo(), area.vpn_hi())
    &&& l0_set(&s1.table(), mem1) == l0_after(l0_set(&s0.table(), mem0), area.vpn_lo(), area.vpn_hi())
    &&& a1.free_set().len() == a0.free_set().len() - area.frames_needed(&s0.table(), mem0)
    &&& s1.owned().union(a1.free_set()) == s0.owned().union(a0.free_set())
    &&& s0.owned().subset_of(s1.owned())
    &&& forall|f: nat| #[trigger] s0.table().frames().contains(f) ==> s1.table().frames().contains(f)
    &&& forall|f: nat| #[trigger] a1.is_free(f) ==> a0.is_free(f)
    &&& !(area.backing() is ByFrame) ==> s1.data_frames() == s0.data_frames()
    &&& forall|f: nat| #[trigger] s0.data_frames().contains(f) ==> s1.data_frames().contains(f)
    &&& area.backing() is ByFrame ==> {
        &&& forall|p: nat|
            area.contains_page(p) ==> s1.data_frames().contains(
                #[trigger] area.frame_of(&s1.table(), mem1, p),
            ) && !s0.owned().contains(area.frame_of(&s1.table(), mem1, p))
        &&& forall|p: nat, q: nat|
            area.contains_page(p) && area.contains_page(q) && p != q ==> #[trigger] area.frame_of(
                &s1.table(),
                mem1,
                p,
            ) != #[trigger] area.frame_of(&s1.table(), mem1, q)
    }
    &&& match data {
        Some(d) => {
            &&& forall|p: nat|
                area.contains_page(p) ==> #[trigger] mem1.page(area.frame_of(&s1.table(), mem1, p))
                    == chunk(d@, (p - area.first_page()) as nat)
            &&& forall|f: nat, i: nat|
                mem1.contains(f) && i < 4096 && (forall|p: nat|
                    area.contains_page(p) ==> #[trigger] area.frame_of(&s1.table(), mem1, p) != f)
                    ==> #[trigger] mem1.byte(f, i) == mem0.byte(f, i)
        },
        None => mem1.same_pages(mem0),
    }
    &&& forall|p: nat, i: nat|
        mem1.contains(p) && i < 512 && !s1.table().frames().contains(p) ==> #[trigger] mem1.entry(
            p,
            i,
        ) == mem0.entry(p, i)
}

/// The pages of a linear area that is mapped go to frames that differ from
/// page to page, each the area's offset below its page.
proof fn lemma_linear_backed(area: &MemoryArea, pt: &PageTableImpl, mem: &PhysMemory)
    requires
        area.well_formed(),
        area.mapped(pt, mem),
    ensures
        area.backing() is Linear ==> {
            &&& forall|p: nat|
                area.contains_page(p) ==> #[trigger] area.frame_of(pt, mem, p) == linear_target(
                    area,
                    p,
                )
            &&& forall|p: nat, q: nat|
                area.contains_page(p) && area.contains_page(q) && p != q ==> #[trigger] area.frame_of(
                    pt,
                    mem,
                    p,
                ) != #[trigger] area.frame_of(pt, mem, q)
        },
{
    if area.backing() is Linear {
        assert forall|p: nat| area.contains_page(p) implies #[trigger] area.frame_of(pt, mem, p)
            == linear_target(area, p) by {
            assert(area.page_mapped(pt, mem, p));
        }
        assert forall|p: nat, q: nat|
            area.contains_page(p) && area.contains_page(q) && p != q implies #[trigger] area.frame_of(
            pt,
            mem,
            p,
        ) != #[trigger] area.frame_of(pt, mem, q) by {
            assert(area.frame_of(pt, mem, p) == linear_target(area, p));
            assert(area.frame_of(pt, mem, q) == linear_target(area, q));
        }
    }
}

/// A page of an area is not translated by the part of the page table that
/// serves an area which has no page in common with it.
pub proof fn lemma_other_area_vpn(a: &MemoryArea, b: &MemoryArea, p: nat)
    requires
        a.well_formed(),
        b.well_formed(),
        a.contains_page(p),
        !pages_meet(a.first_page(), a.end_page(), b.first_page(), b.end_page()),
    ensures
        p % (MAX_VPN as nat) < MAX_VPN,
        !(b.vpn_lo() <= p % (MAX_VPN as nat) < b.vpn_hi()),
{
    lemma_vpn_of_page(p);
    if b.first_page() < b.end_page() {
        lemma_vpn_of_page(b.first_page());
        let v = p % (MAX_VPN as nat);
        if b.vpn_lo() <= v < b.vpn_hi() {
            let q = (b.first_page() + v - b.vpn_lo()) as nat;
            assert(b.contains_page(q));
            lemma_vpn_of_page(q);
            assert(q % (MAX_VPN as nat) == v);
            area::lemma_vpn_injective(p, q);
        }
    }
}

} // verus!
