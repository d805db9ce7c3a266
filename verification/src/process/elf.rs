use vstd::prelude::*;
use crate::consts::{USER_STACK_OFFSET, USER_STACK_SIZE};
use crate::memory::memory_set::area::{pages_meet, MemoryArea};
use crate::memory::memory_set::attr::MemoryAttr;
use crate::memory::memory_set::handler::Backing;
use crate::memory::frame_allocator::SegmentTreeAllocator;
use crate::consts::MAX_VPN;
use crate::memory::memory_set::area::{chunk, l0_set, l1_set};
use crate::memory::memory_set::lemma_other_area_vpn;
use crate::memory::memory_set::handler::ByFrame;
use crate::memory::memory_set::{
    areas_frames_bound, areas_frames_needed, lemma_areas_frames_bound, lemma_frames_needed_grows,
    lemma_frames_needed_prefix, preamble_areas,
    sets_upto, KernelLayout, MemorySet,
};
use crate::memory::phys::PhysMemory;

verus! {

/// Flag of a segment: its pages may be executed.
pub const FLAG_X: u32 = 0x1;

/// Flag of a segment: its pages may be written.
pub const FLAG_W: u32 = 0x2;

/// Kind of an object file.
#[derive(Clone, Copy, Debug, PartialEq, Eq, Structural)]
pub enum ElfType {
    /// No kind is given.
    Unknown,
    Relocatable,
    Executable,
    SharedObject,
    Core,
    ProcessorSpecific(u16),
}

/// A segment of a program, as its program header describes it.
pub struct Segment {
    /// The segment is to be loaded.
    pub load: bool,
    /// Virtual address of its first byte.
    pub vaddr: u64,
    /// Number of bytes that it takes in memory.
    pub mem_size: u64,
    /// Its flags.
    pub flags: u32,
    /// The bytes that the file holds for it.
    pub data: Vec<u8>,
}

/// A program, as its object file describes it.
pub struct ElfImage {
    pub kind: ElfType,
    /// Virtual address at which the program starts.
    pub entry: u64,
    pub segments: Vec<Segment>,
}

/// Why a program cannot be run.
#[derive(Clone, Copy, Debug, PartialEq, Eq, Structural)]
pub enum ElfError {
    /// The object file is not an executable.
    NotExecutable,
    /// A segment to be loaded does not fit: it ends behind the address
    /// space, the page table cannot translate it, or it shares a page with
    /// another segment, with the kernel or with the user stack.
    BadSegment,
}

/// The protection that the flags of a segment ask for: user mode may reach
/// the pages and read them, write them if the segment is writable, and
/// execute them if it is executable.
pub open spec fn attr_of_flags(flags: u32) -> MemoryAttr {
    MemoryAttr { user: true, readonly: flags & FLAG_W != FLAG_W, execute: flags & FLAG_X == FLAG_X }
}

/// The protection that the flags of a segment ask for.
pub fn to_attr(flags: u32) -> (attr: MemoryAttr)
    ensures
        attr == attr_of_flags(flags),
{
    let mut attr = MemoryAttr::new().set_user();
    if flags & FLAG_X == FLAG_X {
        attr = attr.set_execute();
    }
    if flags & FLAG_W != FLAG_W {
        attr = attr.set_readonly();
    }
    attr
}

/// The area of a segment: its bytes in memory, backed frame by frame.
pub open spec fn segment_area(seg: &Segment) -> MemoryArea {
    MemoryArea {
        start: seg.vaddr,
        end: (seg.vaddr + seg.mem_size) as u64,
        handler: Backing::ByFrame,
        attr: attr_of_flags(seg.flags),
    }
}

/// The areas of the first `n` segments that are to be loaded, in their
/// order.
pub open spec fn load_areas(segs: Seq<Segment>, n: nat) -> Seq<MemoryArea>
    decreases n,
{
    if n == 0 {
        Seq::empty()
    } else if segs[n - 1].load {
        load_areas(segs, (n - 1) as nat).push(segment_area(&segs[n - 1]))
    } else {
        load_areas(segs, (n - 1) as nat)
    }
}

/// The segments among the first `n` that are to be loaded, in their order.
pub open spec fn load_segments(segs: Seq<Segment>, n: nat) -> Seq<Segment>
    decreases n,
{
    if n == 0 {
        Seq::empty()
    } else if segs[n - 1].load {
        load_segments(segs, (n - 1) as nat).push(segs[n - 1])
    } else {
        load_segments(segs, (n - 1) as nat)
    }
}

/// The area of the user stack: readable and writable in user mode, backed
/// frame by frame.
pub open spec fn stack_area() -> MemoryArea {
    MemoryArea {
        start: USER_STACK_OFFSET,
        end: (USER_STACK_OFFSET + USER_STACK_SIZE) as u64,
        handler: Backing::ByFrame,
        attr: MemoryAttr { user: true, readonly: false, execute: false },
    }
}

/// The areas of the address space of a program: those of the kernel, those of
/// the segments to be loaded, and the user stack.
pub open spec fn planned_areas(image: &ElfImage, layout: KernelLayout) -> Seq<MemoryArea> {
    preamble_areas(layout) + load_areas(image.segments@, image.segments@.len()) + seq![
        stack_area(),
    ]
}

/// No segment to be loaded ends behind the address space.
pub open spec fn segments_in_range(segs: Seq<Segment>) -> bool {
    forall|i: int| 0 <= i < segs.len() && segs[i].load ==> segs[i].vaddr + segs[i].mem_size <= u64::MAX
}

/// Every area is well formed and no two share a page.
pub open spec fn areas_fit(areas: Seq<MemoryArea>) -> bool {
    &&& forall|i: int| 0 <= i < areas.len() ==> (#[trigger] areas[i]).well_formed()
    &&& forall|i: int, j: int|
        0 <= i < j < areas.len() ==> !pages_meet(
            (#[trigger] areas[i]).first_page(),
            areas[i].end_page(),
            (#[trigger] areas[j]).first_page(),
            areas[j].end_page(),
        )
}

/// The program can be given an address space: its segments lie in the
/// address space, and its areas fit beside each other.
pub open spec fn image_fits(image: &ElfImage, layout: KernelLayout) -> bool {
    segments_in_range(image.segments@) && areas_fit(planned_areas(image, layout))
}

/// The areas of the kernel, in the order in which an address space gets them.
pub fn kernel_areas(layout: &KernelLayout) -> (v: Vec<MemoryArea>)
    requires
        layout.end < 0xffff_ffff_ffff_e000,
    ensures
        v@ == preamble_areas(*layout),
{
    let offset = crate::consts::PHYSICAL_MEMORY_OFFSET;
    let mut v: Vec<MemoryArea> = Vec::new();
    v.push(
        MemoryArea::new(
            layout.stext,
            layout.etext,
            Backing::Linear { offset },
            MemoryAttr::new().set_readonly().set_execute(),
        ),
    );
    v.push(
        MemoryArea::new(
            layout.srodata,
            layout.erodata,
            Backing::Linear { offset },
            MemoryAttr::new().set_readonly(),
        ),
    );
    v.push(MemoryArea::new(layout.sdata, layout.edata, Backing::Linear { offset }, MemoryAttr::new()));
    v.push(MemoryArea::new(layout.sbss, layout.ebss, Backing::Linear { offset }, MemoryAttr::new()));
    v.push(
        MemoryArea::new(
            (layout.end / crate::consts::PAGE_SIZE + 1) * crate::consts::PAGE_SIZE,
            crate::consts::PHYSICAL_MEMORY_END + offset,
            Backing::Linear { offset },
            MemoryAttr::new(),
        ),
    );
    proof {
        assert(v@ =~= preamble_areas(*layout));
    }
    v
}

/// The areas of the address space of the program `image`, if the program can
/// be given one.
pub fn plan_areas(image: &ElfImage, layout: &KernelLayout) -> (r: Option<Vec<MemoryArea>>)
    requires
        layout.end < 0xffff_ffff_ffff_e000,
    ensures
        r is Some <==> image_fits(image, *layout),
        r matches Some(v) ==> v@ == planned_areas(image, *layout),
{
    let mut v = kernel_areas(layout);
    let n = image.segments.len();
    let mut i: usize = 0;
    while i < n
        invariant
            i <= n,
            n == image.segments@.len(),
            v@ == preamble_areas(*layout) + load_areas(image.segments@, i as nat),
            forall|k: int|
                0 <= k < i && image.segments@[k].load ==> image.segments@[k].vaddr
                    + image.segments@[k].mem_size <= u64::MAX,
        decreases n - i,
    {
        let seg = &image.segments[i];
        if seg.load {
            match seg.vaddr.checked_add(seg.mem_size) {
                Some(end) => {
                    v.push(MemoryArea::new(seg.vaddr, end, Backing::ByFrame, to_attr(seg.flags)));
                },
                None => {
                    return None;
                },
            }
        }
        proof {
            assert(v@ =~= preamble_areas(*layout) + load_areas(image.segments@, (i + 1) as nat));
        }
        i = i + 1;
    }
    v.push(
        MemoryArea::new(
            USER_STACK_OFFSET,
            USER_STACK_OFFSET + USER_STACK_SIZE,
            Backing::ByFrame,
            MemoryAttr::new().set_user(),
        ),
    );
    proof {
        assert(v@ =~= planned_areas(image, *layout));
    }
    if check_areas(&v) {
        Some(v)
    } else {
        None
    }
}

/// Whether every area is well formed and no two share a page.
pub fn check_areas(areas: &Vec<MemoryArea>) -> (r: bool)
    ensures
        r == areas_fit(areas@),
{
    let n = areas.len();
    let mut j: usize = 0;
    while j < n
        invariant
            j <= n,
            n == areas@.len(),
            forall|k: int| 0 <= k < j ==> (#[trigger] areas@[k]).well_formed(),
            forall|a: int, b: int|
                0 <= a < b < j ==> !pages_meet(
                    (#[trigger] areas@[a]).first_page(),
                    areas@[a].end_page(),
                    (#[trigger] areas@[b]).first_page(),
                    areas@[b].end_page(),
                ),
        decreases n - j,
    {
        if !areas[j].is_well_formed() {
            return false;
        }
        let mut i: usize = 0;
        while i < j
            invariant
                i <= j < n,
                n == areas@.len(),
                forall|a: int|
                    0 <= a < i ==> !pages_meet(
                        (#[trigger] areas@[a]).first_page(),
                        areas@[a].end_page(),
                        areas@[j as int].first_page(),
                        areas@[j as int].end_page(),
                    ),
            decreases j - i,
        {
            if areas[i].is_overlap_with(areas[j].start, areas[j].end) {
                proof {
                    assert(pages_meet(
                        areas@[i as int].first_page(),
                        areas@[i as int].end_page(),
                        areas@[j as int].first_page(),
                        areas@[j as int].end_page(),
                    ));
                }
                return false;
            }
            i = i + 1;
        }
        j = j + 1;
    }
    true
}

/// The areas of the kernel and of the segments of a program that are to be
/// loaded.
pub open spec fn loaded_areas(image: &ElfImage, layout: KernelLayout) -> Seq<MemoryArea> {
    preamble_areas(layout) + load_areas(image.segments@, image.segments@.len())
}

/// Number of frames that the address space of a program takes: the root of
/// its page table, and what its areas need.
pub open spec fn image_frames_needed(image: &ElfImage, layout: KernelLayout) -> nat {
    1 + areas_frames_needed(
        planned_areas(image, layout),
        Set::empty(),
        Set::empty(),
        planned_areas(image, layout).len(),
    )
}

proof fn lemma_load_prefix(segs: Seq<Segment>, n: nat)
    requires
        n <= segs.len(),
    ensures
        load_areas(segs, n).len() <= n,
        load_areas(segs, n).len() == load_segments(segs, n).len(),
        forall|j: int|
            0 <= j < load_areas(segs, n).len() ==> load_areas(segs, n)[j] == segment_area(
                &load_segments(segs, n)[j],
            ),
    decreases n,
{
    if n > 0 {
        lemma_load_prefix(segs, (n - 1) as nat);
    }
}

/// The areas of the first `n` segments are the first of the areas of the
/// first `m`.
pub proof fn lemma_load_grows(segs: Seq<Segment>, n: nat, m: nat)
    requires
        n <= m <= segs.len(),
    ensures
        load_areas(segs, n).len() <= load_areas(segs, m).len(),
        forall|j: int|
            0 <= j < load_areas(segs, n).len() ==> load_areas(segs, m)[j] == load_areas(segs, n)[j],
    decreases m - n,
{
    if n < m {
        lemma_load_grows(segs, n, (m - 1) as nat);
    }
}

/// A number of free frames that is enough to give the plan `areas` an
/// address space, whatever order the allocator hands its frames out in: one
/// for the root of the page table, and the bounds of the areas.
pub fn plan_max_frames(areas: &Vec<MemoryArea>) -> (n: u64)
    requires
        areas_fit(areas@),
        areas@.len() <= 0x1_0000_0000,
    ensures
        n == 1 + areas_frames_bound(areas@, areas@.len()),
        n >= 1 + areas_frames_needed(areas@, Set::empty(), Set::empty(), areas@.len()),
{
    let mut n: u64 = 1;
    let mut i: usize = 0;
    while i < areas.len()
        invariant
            i <= areas@.len(),
            areas@.len() <= 0x1_0000_0000,
            areas_fit(areas@),
            n == 1 + areas_frames_bound(areas@, i as nat),
            n <= 1 + i * 0x1000_0000,
        decreases areas@.len() - i,
    {
        let m = areas[i].max_frames();
        proof {
            assert(areas@[i as int].well_formed());
            crate::memory::memory_set::area::lemma_frames_bound_small(&areas@[i as int]);
        }
        n = n + m;
        i = i + 1;
    }
    proof {
        lemma_areas_frames_bound(areas@, Set::empty(), Set::empty(), areas@.len());
    }
    n
}

/// The plan of a program that fits needs no more frames than
/// `plan_max_frames` says.
pub proof fn lemma_image_frames_bound(image: &ElfImage, layout: KernelLayout)
    ensures
        image_frames_needed(image, layout) <= 1 + areas_frames_bound(
            planned_areas(image, layout),
            planned_areas(image, layout).len(),
        ),
{
    lemma_areas_frames_bound(
        planned_areas(image, layout),
        Set::empty(),
        Set::empty(),
        planned_areas(image, layout).len(),
    );
}

/// Every page of `area` lies in a frame of its own that the address space
/// holds, and the pages hold `data`, page after page from the first, with
/// zeros behind its end.
pub open spec fn area_loaded(vm: &MemorySet, mem: &PhysMemory, area: MemoryArea, data: Seq<u8>) -> bool {
    forall|p: nat|
        area.contains_page(p) ==> vm.data_frames().contains(
            #[trigger] area.frame_of(&vm.table(), mem, p),
        ) && mem.page(area.frame_of(&vm.table(), mem, p)) == chunk(
            data,
            (p - area.first_page()) as nat,
        )
}

/// Adds area number `k` of the plan `planned` to an address space that holds
/// the areas before it.
pub(crate) fn push_planned(
    vm: &mut MemorySet,
    mem: &mut PhysMemory,
    alloc: &mut SegmentTreeAllocator,
    area: MemoryArea,
    data: Option<&[u8]>,
    Ghost(planned): Ghost<Seq<MemoryArea>>,
    Ghost(k): Ghost<nat>,
)
    requires
        old(vm).wf(old(mem), old(alloc)),
        areas_fit(planned),
        k < planned.len(),
        area == planned[k as int],
        area.backing() is ByFrame,
        old(vm).areas() == planned.subrange(0, k as int),
        (l1_set(&old(vm).table(), old(mem)), l0_set(&old(vm).table(), old(mem))) == sets_upto(
            planned,
            Set::empty(),
            Set::empty(),
            k,
        ),
        old(alloc).free_set().len() + areas_frames_needed(planned, Set::empty(), Set::empty(), k)
            >= areas_frames_needed(planned, Set::empty(), Set::empty(), k + 1),
    ensures
        final(vm).wf(final(mem), final(alloc)),
        final(vm).areas() == planned.subrange(0, k + 1 as int),
        (l1_set(&final(vm).table(), final(mem)), l0_set(&final(vm).table(), final(mem)))
            == sets_upto(planned, Set::empty(), Set::empty(), k + 1),
        final(alloc).lo() == old(alloc).lo(),
        final(alloc).hi() == old(alloc).hi(),
        final(alloc).free_set().len() + areas_frames_needed(
            planned,
            Set::empty(),
            Set::empty(),
            k + 1,
        ) == old(alloc).free_set().len() + areas_frames_needed(
            planned,
            Set::empty(),
            Set::empty(),
            k,
        ),
        final(vm).owned().union(final(alloc).free_set()) == old(vm).owned().union(
            old(alloc).free_set(),
        ),
        final(vm).table().root_ppn() == old(vm).table().root_ppn(),
        data matches Some(d) ==> area_loaded(final(vm), final(mem), area, d@),
        forall|j: int, d: Seq<u8>|
            0 <= j < k && #[trigger] area_loaded(old(vm), old(mem), planned[j], d) ==> area_loaded(
                final(vm),
                final(mem),
                planned[j],
                d,
            ),
{
    let ghost s0 = *vm;
    proof {
        assert(planned[k as int].well_formed());
        assert forall|j: int| 0 <= j < vm.areas().len() implies !pages_meet(
            (#[trigger] vm.areas()[j]).first_page(),
            vm.areas()[j].end_page(),
            area.first_page(),
            area.end_page(),
        ) by {
            assert(vm.areas()[j] == planned[j]);
        }
    }
    vm.push(mem, alloc, area.start, area.end, area.attr, area.handler, data);
    proof {
        assert(vm.areas() =~= planned.subrange(0, k + 1 as int));
        assert forall|j: int, d: Seq<u8>|
            0 <= j < k && #[trigger] area_loaded(&s0, old(mem), planned[j], d) implies area_loaded(
            vm,
            mem,
            planned[j],
            d,
        ) by {
            let a = planned[j];
            assert(a.well_formed());
            assert(!pages_meet(a.first_page(), a.end_page(), area.first_page(), area.end_page()));
            assert forall|p: nat| a.contains_page(p) implies vm.data_frames().contains(
                #[trigger] a.frame_of(&vm.table(), mem, p),
            ) && mem.page(a.frame_of(&vm.table(), mem, p)) == chunk(
                d,
                (p - a.first_page()) as nat,
            ) by {
                lemma_other_area_vpn(&a, &area, p);
                let v = p % (MAX_VPN as nat);
                assert(vm.table().translate(mem, v) == s0.table().translate(old(mem), v));
                let f = a.frame_of(&s0.table(), old(mem), p);
                assert(a.frame_of(&vm.table(), mem, p) == f);
                assert(s0.data_frames().contains(f));
                assert(s0.owned().contains(f));
                assert(old(mem).contains(f));
                match data {
                    Some(dd) => {
                        assert forall|q: nat| area.contains_page(q) implies #[trigger] area.frame_of(
                            &vm.table(),
                            mem,
                            q,
                        ) != f by {}
                        assert forall|i: nat| i < 4096 implies mem.byte(f, i) == old(mem).byte(
                            f,
                            i,
                        ) by {}
                    },
                    None => {},
                }
                assert(mem.page(f) =~= old(mem).page(f));
            }
        }
        match data {
            Some(d) => {
                assert forall|p: nat| area.contains_page(p) implies vm.data_frames().contains(
                    #[trigger] area.frame_of(&vm.table(), mem, p),
                ) && mem.page(area.frame_of(&vm.table(), mem, p)) == chunk(
                    d@,
                    (p - area.first_page()) as nat,
                ) by {}
            },
            None => {},
        }
    }
}

/// Where the area of segment `i` stands in the plan: behind the areas of the
/// kernel and those of the segments before it.
pub proof fn lemma_planned_index(image: &ElfImage, layout: KernelLayout, i: nat)
    requires
        i < image.segments@.len(),
        image.segments@[i as int].load,
    ensures
        ({
            let k = 5 + load_areas(image.segments@, i).len();
            &&& k < loaded_areas(image, layout).len()
            &&& planned_areas(image, layout)[k as int] == segment_area(&image.segments@[i as int])
            &&& load_areas(image.segments@, i + 1).len() == load_areas(image.segments@, i).len()
                + 1
        }),
{
    let segs = image.segments@;
    lemma_load_grows(segs, i + 1, segs.len());
    assert(load_areas(segs, i + 1) == load_areas(segs, i).push(segment_area(&segs[i as int])));
    let k = 5 + load_areas(segs, i).len();
    assert(load_areas(segs, i + 1)[k - 5] == segment_area(&segs[i as int]));
}

/// The plan starts with the areas of the kernel and those of the first `i`
/// segments, and ends with the user stack.
pub proof fn lemma_planned_prefix(image: &ElfImage, layout: KernelLayout, i: nat)
    requires
        i <= image.segments@.len(),
    ensures
        preamble_areas(layout) + load_areas(image.segments@, i) == planned_areas(
            image,
            layout,
        ).subrange(0, 5 + load_areas(image.segments@, i).len() as int),
        5 + load_areas(image.segments@, i).len() <= loaded_areas(image, layout).len(),
        loaded_areas(image, layout).len() + 1 == planned_areas(image, layout).len(),
{
    let segs = image.segments@;
    lemma_load_grows(segs, i, segs.len());
    assert(preamble_areas(layout) + load_areas(segs, i) =~= planned_areas(image, layout).subrange(
        0,
        5 + load_areas(segs, i).len() as int,
    ));
}

/// The address space of the program `image`: the areas of the kernel, and the
/// segments to be loaded, each mapped frame by frame at its address and
/// filled with its bytes.
pub fn make_memory_set(
    image: &ElfImage,
    mem: &mut PhysMemory,
    alloc: &mut SegmentTreeAllocator,
    layout: &KernelLayout,
) -> (vm: MemorySet)
    requires
        old(mem).wf(),
        old(alloc).wf(),
        forall|f: nat| old(alloc).is_free(f) ==> old(mem).contains(f),
        layout.wf(),
        image_fits(image, *layout),
        old(alloc).free_set().len() >= 1 + areas_frames_needed(
            planned_areas(image, *layout),
            Set::empty(),
            Set::empty(),
            loaded_areas(image, *layout).len(),
        ),
    ensures
        vm.wf(final(mem), final(alloc)),
        vm.areas() == loaded_areas(image, *layout),
        vm.has_preamble(*layout),
        (l1_set(&vm.table(), final(mem)), l0_set(&vm.table(), final(mem))) == sets_upto(
            planned_areas(image, *layout),
            Set::empty(),
            Set::empty(),
            loaded_areas(image, *layout).len(),
        ),
        final(alloc).lo() == old(alloc).lo(),
        final(alloc).hi() == old(alloc).hi(),
        final(alloc).free_set().len() == old(alloc).free_set().len() - 1 - areas_frames_needed(
            planned_areas(image, *layout),
            Set::empty(),
            Set::empty(),
            loaded_areas(image, *layout).len(),
        ),
        vm.owned().union(final(alloc).free_set()) == old(alloc).free_set(),
        old(alloc).is_free(vm.table().root_ppn()),
        forall|q: nat| q < vm.table().root_ppn() ==> !old(alloc).is_free(q),
        forall|j: int|
            0 <= j < image.segments@.len() && image.segments@[j].load ==> area_loaded(
                &vm,
                final(mem),
                segment_area(&#[trigger] image.segments@[j]),
                image.segments@[j].data@,
            ),
{
    let ghost planned = planned_areas(image, *layout);
    let ghost segs = image.segments@;
    let ghost pre = preamble_areas(*layout);
    let ghost free0 = old(alloc).free_set().len();
    let ghost total = loaded_areas(image, *layout).len();
    proof {
        lemma_frames_needed_prefix(planned, pre, Set::empty(), Set::empty(), 5);
        lemma_frames_needed_grows(planned, Set::empty(), Set::empty(), 5, total);
    }
    let mut memory_set = MemorySet::new(mem, alloc, layout);
    let ghost root = memory_set.table().root_ppn();
    let n = image.segments.len();
    let mut i: usize = 0;
    proof {
        lemma_planned_prefix(image, *layout, 0);
    }
    while i < n
        invariant
            i <= n,
            n == segs.len(),
            segs == image.segments@,
            planned == planned_areas(image, *layout),
            total == loaded_areas(image, *layout).len(),
            areas_fit(planned),
            segments_in_range(segs),
            memory_set.wf(mem, alloc),
            memory_set.areas() == planned.subrange(0, 5 + load_areas(segs, i as nat).len() as int),
            5 + load_areas(segs, i as nat).len() <= total,
            total < planned.len(),
            (l1_set(&memory_set.table(), mem), l0_set(&memory_set.table(), mem)) == sets_upto(
                planned,
                Set::empty(),
                Set::empty(),
                (5 + load_areas(segs, i as nat).len()) as nat,
            ),
            alloc.lo() == old(alloc).lo(),
            alloc.hi() == old(alloc).hi(),
            free0 >= 1 + areas_frames_needed(planned, Set::empty(), Set::empty(), total),
            alloc.free_set().len() + areas_frames_needed(
                planned,
                Set::empty(),
                Set::empty(),
                (5 + load_areas(segs, i as nat).len()) as nat,
            ) + 1 == free0,
            memory_set.owned().union(alloc.free_set()) == old(alloc).free_set(),
            memory_set.table().root_ppn() == root,
            forall|j: int|
                0 <= j < i && segs[j].load ==> area_loaded(
                    &memory_set,
                    mem,
                    segment_area(&#[trigger] segs[j]),
                    segs[j].data@,
                ),
        decreases n - i,
    {
        let seg = &image.segments[i];
        if seg.load {
            let ghost k = (5 + load_areas(segs, i as nat).len()) as nat;
            proof {
                lemma_planned_index(image, *layout, i as nat);
                lemma_frames_needed_grows(planned, Set::empty(), Set::empty(), k + 1, total);
            }
            let area = MemoryArea::new(
                seg.vaddr,
                seg.vaddr + seg.mem_size,
                crate::memory::memory_set::handler::Backing::ByFrame,
                to_attr(seg.flags),
            );
            let ghost vm0 = memory_set;
            let ghost mem0 = *mem;
            push_planned(
                &mut memory_set,
                mem,
                alloc,
                area,
                Some(seg.data.as_slice()),
                Ghost(planned),
                Ghost(k),
            );
            proof {
                assert forall|j: int| 0 <= j < i && segs[j].load implies area_loaded(
                    &memory_set,
                    mem,
                    segment_area(&#[trigger] segs[j]),
                    segs[j].data@,
                ) by {
                    lemma_planned_index(image, *layout, j as nat);
                    lemma_load_grows(segs, (j + 1) as nat, i as nat);
                    let kj = 5 + load_areas(segs, j as nat).len();
                    assert(planned[kj as int] == segment_area(&segs[j]));
                    assert(area_loaded(&vm0, &mem0, planned[kj as int], segs[j].data@));
                }
            }
        }
        proof {
            lemma_planned_prefix(image, *layout, (i + 1) as nat);
        }
        i = i + 1;
    }
    proof {
        lemma_planned_prefix(image, *layout, n as nat);
        assert(memory_set.areas() =~= loaded_areas(image, *layout));
        assert(memory_set.areas().subrange(0, 5) =~= pre);
    }
    memory_set
}

} // verus!
