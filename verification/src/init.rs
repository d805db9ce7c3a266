use vstd::prelude::*;
use crate::consts::{
    KERNEL_BEGIN_PADDR, KERNEL_BEGIN_VADDR, KERNEL_STACK_SIZE, MAX_PHYSICAL_PAGES,
    PHYSICAL_MEMORY_END,
};
use crate::fs::stdio::Stdin;
use crate::interrupt::{Hart, MmioWrite};
use crate::memory::frame_allocator::SegmentTreeAllocator;
use crate::process::processor::Processor;
use crate::process::structs::Tid;
use crate::process::{MAX_THREADS, QUANTUM};
use crate::interrupt::SIE_SEIE;
use crate::timer::{Timer, SIE_STIE};

verus! {

/// Page number of the first frame that the kernel may hand out when its
/// image ends at the virtual address `end`: the frame behind the one that
/// holds the last byte of the image.
pub open spec fn first_free_frame(end: u64) -> int {
    (end - KERNEL_BEGIN_VADDR + KERNEL_BEGIN_PADDR) / 4096 + 1
}

/// The page numbers `[l, r)` of the frames that the kernel may hand out when
/// its image ends at the virtual address `end`: from behind the image to the
/// end of physical memory.
pub fn frame_range(end: u64) -> (range: (u64, u64))
    requires
        KERNEL_BEGIN_VADDR <= end,
        end - KERNEL_BEGIN_VADDR + KERNEL_BEGIN_PADDR < PHYSICAL_MEMORY_END,
    ensures
        range.0 == first_free_frame(end),
        range.1 == PHYSICAL_MEMORY_END / 4096,
        range.0 <= range.1,
{
    ((end - KERNEL_BEGIN_VADDR + KERNEL_BEGIN_PADDR) / 4096 + 1, PHYSICAL_MEMORY_END / 4096)
}

/// The state of the kernel after it was set up.
pub struct Kernel {
    pub allocator: SegmentTreeAllocator,
    pub cpu: Processor,
    pub timer: Timer,
    pub stdin: Stdin,
    /// The stores to device registers that have to follow.
    pub writes: Vec<MmioWrite>,
    /// Time at which the timer is to fire first.
    pub first_event: u64,
}

/// Sets the kernel up, in the order in which its parts depend on each other:
/// traps, the frame allocator over the frames behind the image, the
/// processor with its idle thread, and the timer. The hart then has
/// interrupts enabled and disabled again for the first switch, to the idle
/// thread.
pub fn rust_main(
    hart: &mut Hart,
    end: u64,
    alltraps: u64,
    idle_entry: u64,
    cpu_addr: u64,
    kstack_bottom: u64,
    trapret: u64,
    now: u64,
) -> (k: Kernel)
    requires
        alltraps % 4 == 0,
        KERNEL_BEGIN_VADDR <= end,
        end - KERNEL_BEGIN_VADDR + KERNEL_BEGIN_PADDR < PHYSICAL_MEMORY_END,
        PHYSICAL_MEMORY_END / 4096 - first_free_frame(end) <= MAX_PHYSICAL_PAGES,
        kstack_bottom != 0,
        kstack_bottom % KERNEL_STACK_SIZE == 0,
        kstack_bottom + KERNEL_STACK_SIZE <= u64::MAX,
    ensures
        final(hart).sscratch == 0,
        final(hart).stvec == alltraps,
        final(hart).satp == old(hart).satp,
        final(hart).sie == (old(hart).sie | SIE_SEIE) | SIE_STIE,
        !final(hart).interrupts_on(),
        k.allocator.wf(),
        k.allocator.lo() == first_free_frame(end),
        k.allocator.hi() == PHYSICAL_MEMORY_END / 4096,
        forall|ppn: nat| k.allocator.is_free(ppn) <==> first_free_frame(end) <= ppn
            < PHYSICAL_MEMORY_END / 4096,
        k.allocator.free_set().len() == PHYSICAL_MEMORY_END / 4096 - first_free_frame(end),
        k.cpu.wf(),
        k.cpu.consistent(),
        k.cpu.running() is None,
        k.cpu.slots().len() == MAX_THREADS,
        forall|i: int| 0 <= i < MAX_THREADS ==> k.cpu.slots()[i] is None,
        k.cpu.pool().queue() == Seq::<Tid>::empty(),
        k.cpu.pool().scheduler().quantum() == QUANTUM,
        k.timer.wf(),
        k.timer.ticks() == 0,
        k.stdin.chars() == Seq::<char>::empty(),
        k.writes@.len() == 3,
        k.first_event == crate::interrupt::advanced(now, crate::consts::TIMEBASE),
{
    let writes = crate::interrupt::init(hart, alltraps);
    let range = frame_range(end);
    let allocator = crate::memory::init(range.0, range.1);
    let mut cpu = Processor::new();
    let satp = hart.satp;
    let sstatus = hart.sstatus;
    crate::process::init(&mut cpu, idle_entry, cpu_addr, kstack_bottom, satp, trapret, sstatus);
    let timer = Timer::new();
    let first_event = crate::timer::init(hart, now);
    crate::interrupt::disable_and_store(hart);
    Kernel { allocator, cpu, timer, stdin: Stdin::new(), writes, first_event }
}

} // verus!
