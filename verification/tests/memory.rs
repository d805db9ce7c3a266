use rvkernel::consts::{PAGE_SIZE, PHYSICAL_MEMORY_END, PHYSICAL_MEMORY_OFFSET};
use rvkernel::memory::frame_allocator::SegmentTreeAllocator;
use rvkernel::memory::memory_set::area::MemoryArea;
use rvkernel::memory::memory_set::attr::MemoryAttr;
use rvkernel::memory::memory_set::handler::{Backing, ByFrame, Linear, MemoryHandler};
use rvkernel::memory::memory_set::{KernelLayout, MemorySet};
use rvkernel::memory::paging::{PageEntry, PageTableImpl};
use rvkernel::memory::phys::PhysMemory;
use rvkernel::memory::{access_pa_via_va, alloc_frame, dealloc_frame, init, Frame};

const BASE: u64 = 0x80400;

fn machine(frames: usize) -> (PhysMemory, SegmentTreeAllocator) {
    (PhysMemory::new(BASE, frames), init(BASE, BASE + frames as u64))
}

fn layout() -> KernelLayout {
    let k = 0xffff_ffff_c020_0000u64;
    KernelLayout {
        stext: k,
        etext: k + 0x3000,
        srodata: k + 0x3000,
        erodata: k + 0x4000,
        sdata: k + 0x4000,
        edata: k + 0x6000,
        sbss: k + 0x6000,
        ebss: k + 0x9000,
        end: k + 0x9000,
    }
}

#[test]
fn allocator_of_one_frame() {
    let mut a = init(BASE, BASE + 1);
    assert_eq!(a.num_free(), 1);
    let f = alloc_frame(&mut a);
    assert_eq!(f.map(|f| f.number()), Some(BASE));
    assert!(alloc_frame(&mut a).is_none());
    dealloc_frame(&mut a, f.unwrap());
    assert_eq!(alloc_frame(&mut a).map(|f| f.number()), Some(BASE));
    assert_eq!(a.num_free(), 0);
}

#[test]
fn allocator_of_no_frame() {
    let mut a = init(BASE, BASE);
    assert_eq!(a.num_free(), 0);
    assert!(alloc_frame(&mut a).is_none());
}

#[test]
fn allocator_hands_out_lowest_free_frame() {
    let mut a = init(7, 12);
    for expected in 7..12u64 {
        assert_eq!(a.allocate(), Some(expected));
    }
    assert_eq!(a.allocate(), None);
    a.dealloc(9);
    a.dealloc(8);
    a.dealloc(11);
    assert_eq!(a.num_free(), 3);
    assert_eq!(a.allocate(), Some(8));
    assert_eq!(a.allocate(), Some(9));
    assert_eq!(a.allocate(), Some(11));
    assert_eq!(a.allocate(), None);
}

#[test]
fn frame_allocating_test() {
    let mut a = init(BASE, BASE + 16);
    assert_eq!(alloc_frame(&mut a), Some(Frame::of_ppn(BASE)));
    let f = alloc_frame(&mut a);
    assert_eq!(f, Some(Frame::of_ppn(BASE + 1)));
    assert_eq!(alloc_frame(&mut a), Some(Frame::of_ppn(BASE + 2)));
    dealloc_frame(&mut a, f.unwrap());
    assert_eq!(alloc_frame(&mut a), Some(Frame::of_ppn(BASE + 1)));
    assert_eq!(alloc_frame(&mut a), Some(Frame::of_ppn(BASE + 3)));
}

#[test]
fn allocator_counts_every_frame_once() {
    let mut a = init(100, 133);
    let mut seen = Vec::new();
    while let Some(p) = a.allocate() {
        assert!(!seen.contains(&p));
        assert!((100..133).contains(&p));
        seen.push(p);
    }
    assert_eq!(seen.len(), 33);
    for p in seen {
        a.dealloc(p);
    }
    assert_eq!(a.num_free(), 33);
}

#[test]
fn frame_addresses() {
    let f = Frame::of_addr(0x8020_1234);
    assert_eq!(f.number(), 0x80201);
    assert_eq!(f.start_address(), 0x8020_1000);
    assert_eq!(access_pa_via_va(0x8020_0000), 0xffff_ffff_c020_0000);
}

#[test]
fn entry_hardware_format() {
    let leaf = PageEntry::leaf(0x80201);
    assert_eq!(leaf.bits(), (0x80201u64 << 10) | 0xcf);
    assert_eq!(PageEntry::from_bits(leaf.bits()), leaf);
    let ptr = PageEntry::pointer(0x12345);
    assert_eq!(ptr.bits(), (0x12345u64 << 10) | 0x01);
    assert_eq!(PageEntry::from_bits(ptr.bits()), ptr);
    assert_eq!(PageEntry::empty().bits(), 0);
    assert!(PageEntry::empty().is_unused());
    assert!(!leaf.is_unused());
    let user = PageEntry::from_bits(0x1f | (7 << 10));
    assert!(user.valid && user.readable && user.writable && user.executable && user.user);
    assert!(!user.global && !user.accessed && !user.dirty);
    assert_eq!(user.ppn, 7);
    assert_eq!(user.target(), 7 * PAGE_SIZE);
}

#[test]
fn attribute_builders_and_apply() {
    let a = MemoryAttr::new();
    assert_eq!(a, MemoryAttr { user: false, readonly: false, execute: false });
    let b = a.set_user().set_readonly().set_execute();
    assert_eq!(b, MemoryAttr { user: true, readonly: true, execute: true });
    let mut e = PageEntry::leaf(5);
    MemoryAttr::new().set_readonly().apply(&mut e);
    assert!(e.valid && e.readable && !e.writable && !e.executable && !e.user);
    assert_eq!(e.ppn, 5);
    let mut e = PageEntry::empty();
    MemoryAttr::new().set_user().set_execute().apply(&mut e);
    assert!(e.valid && e.writable && e.executable && e.user);
}

#[test]
fn map_then_get_entry_then_unmap() {
    let (mut mem, mut alloc) = machine(16);
    let mut pt = PageTableImpl::new_bare(&mut mem, &mut alloc);
    assert_eq!(pt.token(&mem), 0x8000_0000_0000_0000 + BASE);
    let va = 0xffff_ffff_c020_3000u64;
    assert_eq!(pt.get_entry(&mem, va), None);
    let e = pt.map(&mut mem, &mut alloc, va, 0x8020_3000);
    assert_eq!(e, PageEntry::leaf(0x80203));
    assert_eq!(alloc.num_free(), 16 - 3);
    assert_eq!(pt.get_entry(&mem, va).map(|e| e.ppn), Some(0x80203));
    assert!(pt.get_entry(&mem, va).unwrap().valid);
    // a neighbour in the same node of leaves has a slot, which is unused
    assert_eq!(pt.get_entry(&mem, va + PAGE_SIZE), Some(PageEntry::empty()));
    // a page far away has none
    assert_eq!(pt.get_entry(&mem, 0x1000), None);
    pt.unmap(&mut mem, va);
    let after = pt.get_entry(&mem, va).unwrap();
    assert!(!after.valid);
    assert_eq!(alloc.num_free(), 16 - 3);
}

#[test]
fn path_names_the_nodes_of_a_page() {
    let (mut mem, mut alloc) = machine(16);
    let mut pt = PageTableImpl::new_bare(&mut mem, &mut alloc);
    let va = 0xffff_ffff_c020_3000u64;
    assert_eq!(pt.path(&mem, va), (BASE, None, None));
    pt.map(&mut mem, &mut alloc, va, 0x8020_3000);
    // the allocator hands out the lowest frame: the root, then the two nodes
    assert_eq!(pt.path(&mem, va), (BASE, Some(BASE + 1), Some(BASE + 2)));
    // the node of leaves holds the leaf, the nodes above point downwards
    let vpn = (va / PAGE_SIZE) % (1 << 27);
    assert_eq!(mem.read_entry(BASE + 2, (vpn % 512) as usize), PageEntry::leaf(0x80203));
    assert_eq!(mem.read_entry(BASE + 1, ((vpn / 512) % 512) as usize).ppn, BASE + 2);
    assert_eq!(mem.read_entry(BASE, (vpn / 512 / 512) as usize).ppn, BASE + 1);
    // a neighbour goes through the same nodes
    assert_eq!(pt.path(&mem, va + PAGE_SIZE), (BASE, Some(BASE + 1), Some(BASE + 2)));
    // a page under the same root entry shares the middle node only
    assert_eq!(pt.path(&mem, va + 512 * PAGE_SIZE), (BASE, Some(BASE + 1), None));
    assert_eq!(pt.path(&mem, 0x1000), (BASE, None, None));
}

#[test]
fn pages_of_a_memory_set_have_frames_of_their_own() {
    let (mut mem, mut alloc) = machine(256);
    let mut set = MemorySet::new(&mut mem, &mut alloc, &layout());
    set.push(&mut mem, &mut alloc, 0x10000, 0x13000, MemoryAttr::new().set_user(), ByFrame::new(), None);
    set.push(&mut mem, &mut alloc, 0x40_0000, 0x40_2000, MemoryAttr::new().set_user(), ByFrame::new(), None);
    let pages = [0x10000u64, 0x11000, 0x12000, 0x40_0000, 0x40_1000];
    let frames: Vec<u64> = pages.iter().map(|va| set.get_entry(&mem, *va).unwrap().ppn).collect();
    for (i, f) in frames.iter().enumerate() {
        assert!(mem.has_frame(*f));
        for va in pages.iter() {
            let (root, upper, lower) = set.path(&mem, *va);
            assert!(*f != root && Some(*f) != upper && Some(*f) != lower);
        }
        for g in frames[i + 1..].iter() {
            assert_ne!(f, g);
        }
    }
    // none of them is free: what the allocator still hands out is another frame
    while let Some(f) = alloc.allocate() {
        assert!(!frames.contains(&f));
    }
}

#[test]
fn mapping_a_second_page_reuses_the_nodes() {
    let (mut mem, mut alloc) = machine(16);
    let mut pt = PageTableImpl::new_bare(&mut mem, &mut alloc);
    pt.map(&mut mem, &mut alloc, 0x40_0000, 0x8050_0000);
    let left = alloc.num_free();
    pt.map(&mut mem, &mut alloc, 0x40_1000, 0x8050_7000);
    assert_eq!(alloc.num_free(), left);
    assert_eq!(pt.get_entry(&mem, 0x40_0000).unwrap().ppn, 0x80500);
    assert_eq!(pt.get_entry(&mem, 0x40_1fff).unwrap().ppn, 0x80507);
    // another part of the address space needs a node of leaves of its own
    pt.map(&mut mem, &mut alloc, 0x80_0000, 0x8050_8000);
    assert_eq!(alloc.num_free(), left - 1);
    let mut e = pt.get_entry(&mem, 0x40_0000).unwrap();
    e.set_user(true);
    pt.set_entry(&mut mem, 0x40_0000, e);
    assert!(pt.get_entry(&mem, 0x40_0000).unwrap().user);
    assert!(!pt.get_entry(&mem, 0x40_1000).unwrap().user);
}

#[test]
fn handlers_map_pages() {
    let (mut mem, mut alloc) = machine(16);
    let mut pt = PageTableImpl::new_bare(&mut mem, &mut alloc);
    let lin = Linear::new(PHYSICAL_MEMORY_OFFSET);
    assert_eq!(lin.box_clone(), Backing::Linear { offset: PHYSICAL_MEMORY_OFFSET });
    let attr = MemoryAttr::new().set_readonly();
    lin.map(&mut pt, &mut mem, &mut alloc, 0xffff_ffff_c020_0000, &attr);
    let e = pt.get_entry(&mem, 0xffff_ffff_c020_0000).unwrap();
    assert_eq!(e.ppn, 0x80200);
    assert!(e.valid && e.readable && !e.writable && !e.user);
    let by = ByFrame::new();
    assert_eq!(by.box_clone(), Backing::ByFrame);
    let free = alloc.num_free();
    by.map(&mut pt, &mut mem, &mut alloc, 0x1000_0000, &MemoryAttr::new().set_user());
    let e = pt.get_entry(&mem, 0x1000_0000).unwrap();
    assert!(e.valid && e.user && e.writable);
    assert!(mem.has_frame(e.ppn));
    // the page itself and two nodes of the table
    assert_eq!(alloc.num_free(), free - 3);
    let data = [1u8, 2, 3];
    by.page_copy(&pt, &mut mem, 0x1000_0000, &data, 1, 2);
    assert_eq!(mem.read_byte(e.ppn, 0), 2);
    assert_eq!(mem.read_byte(e.ppn, 1), 3);
    assert_eq!(mem.read_byte(e.ppn, 2), 0);
    assert_eq!(mem.read_byte(e.ppn, 4095), 0);
    // unmapping gives the frame of the page back, and keeps the nodes
    let free = alloc.num_free();
    by.unmap(&pt, &mut mem, &mut alloc, 0x1000_0000);
    assert!(!pt.get_entry(&mem, 0x1000_0000).unwrap().valid);
    assert_eq!(alloc.num_free(), free + 1);
    assert_eq!(alloc.allocate(), Some(e.ppn));
    // a linear page has no frame of its own to give back
    let free = alloc.num_free();
    lin.unmap(&pt, &mut mem, &mut alloc, 0xffff_ffff_c020_0000);
    assert!(!pt.get_entry(&mem, 0xffff_ffff_c020_0000).unwrap().valid);
    assert_eq!(alloc.num_free(), free);
}

#[test]
fn area_overlap_goes_by_pages() {
    let a = MemoryArea::new(0x1000, 0x3000, Backing::ByFrame, MemoryAttr::new());
    assert!(a.is_overlap_with(0x2fff, 0x4000));
    assert!(a.is_overlap_with(0x0, 0x1001));
    assert!(!a.is_overlap_with(0x3000, 0x4000));
    assert!(!a.is_overlap_with(0x0, 0x1000));
    assert!(!a.is_overlap_with(0x2000, 0x2000));
    assert_eq!(a.first(), 1);
    assert_eq!(a.last(), 3);
    assert!(a.is_well_formed());
    assert_eq!(a.max_frames(), 2 + 1 + 1);
    let wide = MemoryArea::new(0x1f_f000, 0x20_1000, Backing::Linear { offset: 0 }, MemoryAttr::new());
    assert_eq!(wide.max_frames(), 2 + 1);
    let empty = MemoryArea::new(0x5000, 0x5000, Backing::ByFrame, MemoryAttr::new());
    assert_eq!(empty.max_frames(), 0);
    let hole = MemoryArea::new(0x40_0000_0000, 0x40_0000_1000, Backing::ByFrame, MemoryAttr::new());
    assert!(!hole.is_well_formed());
    let below = MemoryArea::new(0x1000, 0x2000, Backing::Linear { offset: 0x2000 }, MemoryAttr::new());
    assert!(!below.is_well_formed());
}

#[test]
fn new_memory_set_holds_the_kernel() {
    let (mut mem, mut alloc) = machine(256);
    let l = layout();
    let set = MemorySet::new(&mut mem, &mut alloc, &l);
    assert_eq!(set.area_count(), 5);
    let text = set.area(0);
    assert_eq!((text.start, text.end), (l.stext, l.etext));
    assert_eq!(text.attr, MemoryAttr { user: false, readonly: true, execute: true });
    assert_eq!(text.handler, Backing::Linear { offset: PHYSICAL_MEMORY_OFFSET });
    assert_eq!(set.area(1).attr, MemoryAttr { user: false, readonly: true, execute: false });
    assert_eq!(set.area(2).attr, MemoryAttr { user: false, readonly: false, execute: false });
    assert_eq!(set.area(3).attr, MemoryAttr { user: false, readonly: false, execute: false });
    let window = set.area(4);
    assert_eq!(window.start, l.end + PAGE_SIZE);
    assert_eq!(window.end, PHYSICAL_MEMORY_END + PHYSICAL_MEMORY_OFFSET);
    // text: read and execute
    let e = set.get_entry(&mem, l.stext + 0x2000).unwrap();
    assert_eq!(e.ppn, 0x80202);
    assert!(e.valid && e.readable && e.executable && !e.writable && !e.user);
    // rodata: read only
    let e = set.get_entry(&mem, l.srodata).unwrap();
    assert!(e.valid && e.readable && !e.executable && !e.writable);
    // data and bss: read and write
    let e = set.get_entry(&mem, l.sdata).unwrap();
    assert!(e.valid && e.readable && e.writable && !e.executable);
    let e = set.get_entry(&mem, l.ebss - 1).unwrap();
    assert!(e.valid && e.writable);
    // the last page of physical memory
    let e = set.get_entry(&mem, PHYSICAL_MEMORY_END + PHYSICAL_MEMORY_OFFSET - 1).unwrap();
    assert_eq!(e.ppn, PHYSICAL_MEMORY_END / PAGE_SIZE - 1);
    assert!(e.valid && e.writable && !e.user);
    // the page behind the image is left out
    assert!(!set.get_entry(&mem, l.end).unwrap().valid);
    assert_eq!(set.token(&mem), 0x8000_0000_0000_0000 + BASE);
}

#[test]
fn push_of_an_empty_area() {
    let (mut mem, mut alloc) = machine(256);
    let mut set = MemorySet::new(&mut mem, &mut alloc, &layout());
    let free = alloc.num_free();
    assert!(set.test_free_area(0x5000, 0x5000));
    set.push(&mut mem, &mut alloc, 0x5000, 0x5000, MemoryAttr::new().set_user(), ByFrame::new(), None);
    assert_eq!(set.area_count(), 6);
    assert_eq!((set.area(5).start, set.area(5).end), (0x5000, 0x5000));
    assert_eq!(alloc.num_free(), free);
    assert_eq!(set.get_entry(&mem, 0x5000), None);
}

#[test]
fn push_of_an_empty_area_anywhere() {
    let (mut mem, mut alloc) = machine(256);
    let mut set = MemorySet::new(&mut mem, &mut alloc, &layout());
    let free = alloc.num_free();
    // in the part of the address space that the page table does not reach
    let hole = 0x40_0000_0000u64;
    assert!(MemoryArea::new(hole, hole, Backing::ByFrame, MemoryAttr::new()).is_well_formed());
    set.push(&mut mem, &mut alloc, hole, hole, MemoryAttr::new(), ByFrame::new(), None);
    // linear, below its offset
    let below = MemoryArea::new(0x7000, 0x7000, Backing::Linear { offset: 0x9000 }, MemoryAttr::new());
    assert!(below.is_well_formed());
    set.push(&mut mem, &mut alloc, 0x7000, 0x7000, MemoryAttr::new(), Linear::new(0x9000), None);
    assert_eq!(set.area_count(), 7);
    assert_eq!((set.area(5).start, set.area(5).end), (hole, hole));
    assert_eq!(set.area(6).handler, Backing::Linear { offset: 0x9000 });
    assert_eq!(alloc.num_free(), free);
    assert_eq!(set.get_entry(&mem, 0x7000), None);
    // an empty area is in nobody's way
    assert!(set.test_free_area(0x6000, 0x8000));
}

#[test]
fn pop_gives_the_frames_of_the_pages_back() {
    let (mut mem, mut alloc) = machine(256);
    let mut set = MemorySet::new(&mut mem, &mut alloc, &layout());
    let data = [5u8; 10];
    set.push(&mut mem, &mut alloc, 0x10000, 0x13000, MemoryAttr::new().set_user(), ByFrame::new(), Some(&data));
    let after_push = alloc.num_free();
    let frames: Vec<u64> =
        (0..3u64).map(|i| set.get_entry(&mem, 0x10000 + i * PAGE_SIZE).unwrap().ppn).collect();
    let area = set.pop(&mut mem, &mut alloc).unwrap();
    assert_eq!((area.start, area.end, area.handler), (0x10000, 0x13000, Backing::ByFrame));
    assert_eq!(set.area_count(), 5);
    // the three frames of the pages are free again; the nodes of the table stay
    assert_eq!(alloc.num_free(), after_push + 3);
    for i in 0..3u64 {
        assert!(!set.get_entry(&mem, 0x10000 + i * PAGE_SIZE).unwrap().valid);
    }
    let mut again: Vec<u64> = (0..3).map(|_| alloc.allocate().unwrap()).collect();
    again.sort();
    let mut sorted = frames.clone();
    sorted.sort();
    assert_eq!(again, sorted);
    for f in again {
        alloc.dealloc(f);
    }
    // the range can be used again, and the kernel is still mapped
    assert!(set.test_free_area(0x10000, 0x13000));
    assert!(set.get_entry(&mem, layout().stext).unwrap().valid);
    // a linear area gives no frame back
    let window = set.pop(&mut mem, &mut alloc).unwrap();
    assert_eq!(window.end, PHYSICAL_MEMORY_END + PHYSICAL_MEMORY_OFFSET);
    assert_eq!(alloc.num_free(), after_push + 3);
    assert!(!set.get_entry(&mem, window.start).unwrap().valid);
    for _ in 0..4 {
        assert!(set.pop(&mut mem, &mut alloc).is_some());
    }
    assert!(set.pop(&mut mem, &mut alloc).is_none());
    assert_eq!(set.area_count(), 0);
}

#[test]
fn push_copies_data_and_fills_with_zeros() {
    let (mut mem, mut alloc) = machine(256);
    let mut set = MemorySet::new(&mut mem, &mut alloc, &layout());
    let data: Vec<u8> = (0..5000u32).map(|i| (i % 251) as u8 + 1).collect();
    assert!(set.test_free_area(0x10000, 0x13000));
    set.push(
        &mut mem,
        &mut alloc,
        0x10000,
        0x13000,
        MemoryAttr::new().set_user(),
        ByFrame::new(),
        Some(&data),
    );
    assert!(!set.test_free_area(0x12fff, 0x20000));
    assert!(set.test_free_area(0x13000, 0x20000));
    let p0 = set.get_entry(&mem, 0x10000).unwrap();
    let p1 = set.get_entry(&mem, 0x11000).unwrap();
    let p2 = set.get_entry(&mem, 0x12000).unwrap();
    assert!(p0.valid && p0.user && p0.writable);
    assert!(p0.ppn != p1.ppn && p1.ppn != p2.ppn && p0.ppn != p2.ppn);
    assert_eq!(mem.read_byte(p0.ppn, 0), data[0]);
    assert_eq!(mem.read_byte(p0.ppn, 4095), data[4095]);
    assert_eq!(mem.read_byte(p1.ppn, 0), data[4096]);
    assert_eq!(mem.read_byte(p1.ppn, 903), data[4999]);
    assert_eq!(mem.read_byte(p1.ppn, 904), 0);
    for off in 0..4096 {
        assert_eq!(mem.read_byte(p2.ppn, off), 0);
    }
}

#[test]
fn activate_selects_the_table() {
    let (mut mem, mut alloc) = machine(256);
    let set = MemorySet::new(&mut mem, &mut alloc, &layout());
    let mut hart = rvkernel::interrupt::Hart { sstatus: 2, sscratch: 0, stvec: 0, sie: 0, satp: 0 };
    set.activate(&mem, &mut hart);
    assert_eq!(hart.satp, set.token(&mem));
    assert_eq!(hart.sstatus, 2);
}
