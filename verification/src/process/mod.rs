use vstd::prelude::*;
use crate::consts::KERNEL_STACK_SIZE;
use crate::context::{initial_content, with_arguments};
use crate::interrupt::{disabled, Hart};
use crate::memory::frame_allocator::SegmentTreeAllocator;
use crate::memory::memory_set::{KernelLayout, MemorySet};
use crate::memory::phys::PhysMemory;
use elf::{image_fits, image_frames_needed, ElfImage, ElfType};
use processor::{exited, slept, tick_done, unchanged, woken, Processor};
use scheduler::{pushed, RRScheduler};
use structs::{user_thread_made, Status, Thread, Tid};
use thread_pool::{ThreadInfo, ThreadPool};

pub mod structs;
pub mod scheduler;
pub mod thread_pool;
pub mod processor;
pub mod elf;

verus! {

/// Number of slots of the thread pool of the kernel.
pub const MAX_THREADS: usize = 100;

/// Number of timer ticks for which a thread runs before it makes way.
pub const QUANTUM: usize = 1;

/// Sets the processor up: a round-robin scheduler, a pool of `MAX_THREADS`
/// free slots, and the idle thread, which starts at `idle_entry` on a stack
/// in the block of memory at `kstack_bottom` and finds `cpu_addr`, the
/// address of the processor, as its first argument.
pub fn init(
    cpu: &mut Processor,
    idle_entry: u64,
    cpu_addr: u64,
    kstack_bottom: u64,
    satp: u64,
    trapret: u64,
    sstatus: u64,
)
    requires
        kstack_bottom != 0,
        kstack_bottom % KERNEL_STACK_SIZE == 0,
        kstack_bottom + KERNEL_STACK_SIZE <= u64::MAX,
    ensures
        final(cpu).wf(),
        final(cpu).consistent(),
        final(cpu).running() is None,
        final(cpu).slots().len() == MAX_THREADS,
        forall|i: int| 0 <= i < MAX_THREADS ==> final(cpu).slots()[i] is None,
        final(cpu).pool().queue() == Seq::<Tid>::empty(),
        final(cpu).pool().scheduler().quantum() == QUANTUM,
        final(cpu).inner.unwrap().idle.kstack.bottom() == kstack_bottom,
        final(cpu).inner.unwrap().idle.kstack.content() matches Some(c) && exists|
            c0: crate::context::ContextContent,
        |
            initial_content(
                &c0,
                idle_entry,
                (kstack_bottom + KERNEL_STACK_SIZE) as u64,
                satp,
                trapret,
                sstatus,
                true,
            ) && with_arguments(&c0, &c, seq![cpu_addr, 0, 0]),
{
    let scheduler = RRScheduler::new(QUANTUM);
    let thread_pool = ThreadPool::new(MAX_THREADS, scheduler);
    let mut idle = Thread::new_kernel(idle_entry, kstack_bottom, satp, trapret, sstatus);
    let args: [u64; 3] = [cpu_addr, 0, 0];
    idle.append_initial_arguments(args);
    proof {
        assert(args@ =~= seq![cpu_addr, 0, 0]);
    }
    cpu.init(idle, Box::new(thread_pool));
}

/// A timer tick for the thread that runs on `cpu`.
pub fn tick(cpu: &mut Processor, hart: &mut Hart) -> (flags: Option<u64>)
    requires
        old(cpu).wf(),
    ensures
        final(cpu).wf(),
        old(cpu).consistent() ==> final(cpu).consistent(),
        tick_done(old(cpu), final(cpu)),
        flags is Some <==> (old(cpu).running() is Some && (match old(cpu).sched().current() {
            Some(t) => old(cpu).sched().slice(t) <= 1,
            None => true,
        })),
        match flags {
            Some(f) => f == old(hart).sstatus && *final(hart) == disabled(*old(hart))
                && !final(hart).interrupts_on(),
            None => *final(hart) == *old(hart),
        },
{
    cpu.tick(hart)
}

/// The first switch of the kernel: returns the boot thread that is switched
/// away from.
pub fn run(cpu: &Processor, hart: &Hart) -> (boot: Box<Thread>)
    requires
        cpu.wf(),
        !hart.interrupts_on(),
    ensures
        boot.context.content_addr == 0,
        boot.kstack.is_empty(),
        boot.wait is None,
{
    cpu.run(hart)
}

/// The thread that runs on `cpu` exits with `code`.
pub fn exit(cpu: &mut Processor, hart: &mut Hart, code: usize)
    requires
        old(cpu).wf(),
        old(cpu).may_exit(),
    ensures
        final(cpu).wf(),
        *final(hart) == disabled(*old(hart)),
        !final(hart).interrupts_on(),
        exited(old(cpu), final(cpu)),
{
    cpu.exit(hart, code);
}

/// The thread that runs on `cpu` gives the hart up and sleeps until it is
/// woken.
pub fn yield_now(cpu: &mut Processor, hart: &mut Hart) -> (flags: Option<u64>)
    requires
        old(cpu).wf(),
        old(cpu).running() matches Some(tid) ==> old(cpu).slots()[tid as int] is Some,
    ensures
        final(cpu).wf(),
        slept(old(cpu), final(cpu)),
        match old(cpu).running() {
            Some(tid) => {
                &&& flags == Some(old(hart).sstatus)
                &&& *final(hart) == disabled(*old(hart))
                &&& !final(hart).interrupts_on()
            },
            None => flags is None && *final(hart) == *old(hart),
        },
{
    cpu.yield_now(hart)
}

/// Makes the thread `tid` ready.
pub fn wake_up(cpu: &mut Processor, tid: Tid)
    requires
        old(cpu).wf(),
        tid < old(cpu).slots().len(),
        old(cpu).slots()[tid as int] is Some,
    ensures
        final(cpu).wf(),
        woken(old(cpu), final(cpu), tid),
        old(cpu).consistent() && old(cpu).running() != Some(tid) ==> final(cpu).consistent(),
{
    cpu.wake_up(tid);
}

/// Identifier of the thread that runs on `cpu`.
pub fn current_tid(cpu: &Processor) -> (tid: usize)
    requires
        cpu.initialized(),
        cpu.running() is Some,
    ensures
        Some(tid) == cpu.running(),
{
    cpu.current_tid()
}

/// Whether the program `found` can be started: it was found, it is an
/// executable, and it can be given an address space.
pub open spec fn can_execute(found: Option<&ElfImage>, layout: KernelLayout) -> bool {
    found matches Some(image) && image.kind == ElfType::Executable && image_fits(image, layout)
}

/// Processor `after` is processor `before` with a new thread in slot `tid`:
/// the thread is ready and waits at the tail of the queue.
pub open spec fn spawned(before: &Processor, after: &Processor, tid: Tid) -> bool {
    &&& after.slots().len() == before.slots().len()
    &&& after.slots()[tid as int] matches Some(info) && info.status == Status::Ready
        && info.thread is Some
    &&& pushed(&before.sched(), &after.sched(), tid)
    &&& forall|other: int|
        0 <= other < before.slots().len() && other != tid ==> after.slots()[other]
            == before.slots()[other]
}

/// Starts the program `found` as a new user thread, for which the thread
/// `host_tid` waits. Returns the address space of the new thread; `None`
/// when no program was found or the program cannot be run, and then nothing
/// has changed.
pub fn execute(
    cpu: &mut Processor,
    found: Option<&ElfImage>,
    host_tid: Option<Tid>,
    mem: &mut PhysMemory,
    alloc: &mut SegmentTreeAllocator,
    layout: &KernelLayout,
    kstack_bottom: u64,
    trapret: u64,
    sstatus: u64,
) -> (started: Option<MemorySet>)
    requires
        old(cpu).wf(),
        !old(cpu).pool().is_full(),
        old(cpu).running() matches Some(t) ==> old(cpu).slots()[t as int] is Some,
        old(mem).wf(),
        old(alloc).wf(),
        forall|f: nat| old(alloc).is_free(f) ==> old(mem).contains(f),
        layout.wf(),
        kstack_bottom != 0,
        kstack_bottom % KERNEL_STACK_SIZE == 0,
        kstack_bottom + KERNEL_STACK_SIZE <= u64::MAX,
        can_execute(found, *layout) ==> old(alloc).free_set().len() >= image_frames_needed(
            found.unwrap(),
            *layout,
        ),
    ensures
        final(cpu).wf(),
        final(alloc).wf(),
        final(cpu).running() == old(cpu).running(),
        final(cpu).inner.unwrap().current == old(cpu).inner.unwrap().current,
        old(cpu).consistent() ==> final(cpu).consistent(),
        started is Some <==> can_execute(found, *layout),
        started is None ==> *final(mem) == *old(mem) && *final(alloc) == *old(alloc) && unchanged(
            old(cpu),
            final(cpu),
        ),
        started matches Some(vm) ==> exists|tid: Tid| #[trigger]
            old(cpu).pool().lowest_free(tid) && spawned(old(cpu), final(cpu), tid)
                && user_thread_made(
                &*final(cpu).slots()[tid as int].unwrap().thread.unwrap(),
                &vm,
                found.unwrap(),
                host_tid,
                final(mem),
                old(alloc),
                final(alloc),
                *layout,
                kstack_bottom,
                trapret,
                sstatus,
            ),
{
    let image = match found {
        Some(image) => image,
        None => {
            return None;
        },
    };
    let r = Thread::new_user(image, host_tid, mem, alloc, layout, kstack_bottom, trapret, sstatus);
    match r {
        Ok((thread, vm)) => {
            proof {
                assert(r != Err::<(Box<Thread>, MemorySet), elf::ElfError>(
                    elf::ElfError::NotExecutable,
                ));
                assert(r != Err::<(Box<Thread>, MemorySet), elf::ElfError>(
                    elf::ElfError::BadSegment,
                ));
            }
            let ghost made = *thread;
            cpu.add_thread(thread);
            proof {
                let tid = choose|tid: Tid| #[trigger]
                    old(cpu).pool().lowest_free(tid) && cpu.slots() == old(cpu).slots().update(
                        tid as int,
                        Some(ThreadInfo { status: Status::Ready, thread: Some(Box::new(made)) }),
                    ) && cpu.pool().queue() == old(cpu).pool().queue().push(tid);
                assert(spawned(old(cpu), cpu, tid));
                assert(*cpu.slots()[tid as int].unwrap().thread.unwrap() == made);
            }
            Some(vm)
        },
        Err(e) => {
            proof {
                match e {
                    elf::ElfError::NotExecutable => {},
                    elf::ElfError::BadSegment => {},
                }
            }
            None
        },
    }
}

} // verus!
