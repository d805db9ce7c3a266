use vstd::prelude::*;
use crate::consts::KERNEL_STACK_SIZE;
use crate::fs::stdio::{Stdin, StdinPop};
use crate::interrupt::{disabled, Hart};
use crate::io::byte_of_char;
use crate::memory::frame_allocator::SegmentTreeAllocator;
use crate::memory::memory_set::{KernelLayout, MemorySet};
use crate::memory::phys::PhysMemory;
use crate::process::elf::{image_frames_needed, ElfImage};
use crate::process::processor::{exited, slept, unchanged, Processor};
use crate::process::structs::{Status, Tid};
use crate::process::thread_pool::ThreadInfo;
use crate::process::structs::user_thread_made;
use crate::process::{can_execute, execute, spawned};

verus! {

/// Number of the system call that reads from the standard input.
pub const SYS_READ: u64 = 63;

/// Number of the system call that shows a byte on the console.
pub const SYS_WRITE: u64 = 64;

/// Number of the system call that ends the thread.
pub const SYS_EXIT: u64 = 93;

/// Number of the system call that runs a program.
pub const SYS_EXEC: u64 = 221;

/// What a thread asks of the kernel.
#[derive(Clone, Copy, Debug, PartialEq, Eq, Structural)]
pub enum Syscall {
    /// Read a byte from the standard input into the byte at `base`.
    Read { fd: u64, base: u64, len: u64 },
    /// Show a byte on the console.
    Write(u8),
    /// Exit with a code.
    Exit(usize),
    /// Run the program whose path, a string that ends with a zero byte, is
    /// at the address given.
    Exec(u64),
}

/// The system call with number `id` and the arguments `a0`, `a1` and `a2`;
/// `None` for a number that the kernel does not know.
pub open spec fn syscall_of(id: u64, a0: u64, a1: u64, a2: u64) -> Option<Syscall> {
    if id == SYS_READ {
        Some(Syscall::Read { fd: a0, base: a1, len: a2 })
    } else if id == SYS_WRITE {
        Some(Syscall::Write((a0 % 256) as u8))
    } else if id == SYS_EXIT {
        Some(Syscall::Exit(a0 as usize))
    } else if id == SYS_EXEC {
        Some(Syscall::Exec(a0))
    } else {
        None
    }
}

/// The kernel knows a system call with number `id`.
pub open spec fn is_syscall(id: u64) -> bool {
    id == SYS_READ || id == SYS_WRITE || id == SYS_EXIT || id == SYS_EXEC
}

/// Whether the kernel knows a system call with number `id`.
pub fn known_syscall(id: u64) -> (r: bool)
    ensures
        r == is_syscall(id),
{
    id == SYS_READ || id == SYS_WRITE || id == SYS_EXIT || id == SYS_EXEC
}

/// Decodes the system call with number `id`, which the kernel knows:
/// `known_syscall` tells.
pub fn syscall(id: u64, args: [u64; 3]) -> (r: Syscall)
    requires
        is_syscall(id),
    ensures
        Some(r) == syscall_of(id, args@[0], args@[1], args@[2]),
{
    if id == SYS_READ {
        Syscall::Read { fd: args[0], base: args[1], len: args[2] }
    } else if id == SYS_WRITE {
        Syscall::Write((args[0] % 256) as u8)
    } else if id == SYS_EXIT {
        Syscall::Exit(args[0] as usize)
    } else {
        Syscall::Exec(args[0])
    }
}

/// What a read from the standard input comes to.
#[derive(Clone, Copy, Debug, PartialEq, Eq, Structural)]
pub enum ReadOutcome {
    /// A byte was read: it goes to the byte that the thread has named, and
    /// the system call returns `ret`.
    Done { byte: u8, ret: isize },
    /// Nothing was typed: the thread waits, and reads again when it was
    /// woken. The status register as it was is to be written back then.
    Wait(u64),
}

/// The thread that runs reads a byte from the standard input.
pub fn sys_read(stdin: &mut Stdin, cpu: &mut Processor, hart: &mut Hart) -> (r: ReadOutcome)
    requires
        old(cpu).wf(),
        old(stdin).chars().len() == 0 ==> old(cpu).running_in_slot(),
    ensures
        final(cpu).wf(),
        old(stdin).chars().len() > 0 ==> {
            &&& r == (ReadOutcome::Done { byte: byte_of_char(old(stdin).chars()[0]), ret: 1 })
            &&& final(stdin).chars() == old(stdin).chars().skip(1)
            &&& final(stdin).waiting() == old(stdin).waiting()
            &&& unchanged(old(cpu), final(cpu))
            &&& *final(hart) == *old(hart)
        },
        old(stdin).chars().len() == 0 ==> {
            &&& r == ReadOutcome::Wait(old(hart).sstatus)
            &&& final(stdin).chars() == old(stdin).chars()
            &&& final(stdin).waiting() == old(stdin).waiting().push(old(cpu).running().unwrap())
            &&& slept(old(cpu), final(cpu))
            &&& *final(hart) == disabled(*old(hart))
            &&& !final(hart).interrupts_on()
        },
{
    match stdin.pop(cpu, hart) {
        StdinPop::Char(ch) => {
            let code: u32 = ch as u32;
            ReadOutcome::Done { byte: (code % 256) as u8, ret: 1 }
        },
        StdinPop::Wait(flags) => ReadOutcome::Wait(flags),
    }
}

/// The value to pass to the firmware for the console to show the byte that a
/// thread writes, and what the system call returns.
pub fn sys_write(byte: u8) -> (r: (usize, isize))
    ensures
        r.0 == byte,
        r.1 == 0,
{
    (byte as usize, 0)
}

/// The thread that runs exits with `code`.
pub fn sys_exit(cpu: &mut Processor, hart: &mut Hart, code: usize)
    requires
        old(cpu).wf(),
        old(cpu).may_exit(),
    ensures
        final(cpu).wf(),
        *final(hart) == disabled(*old(hart)),
        !final(hart).interrupts_on(),
        exited(old(cpu), final(cpu)),
{
    crate::process::exit(cpu, hart, code);
}

/// Length of the string, ended by a zero byte, that `bytes` starts with;
/// `None` when no byte of `bytes` is zero.
pub fn from_cstr(bytes: &[u8]) -> (r: Option<usize>)
    ensures
        r is Some <==> exists|i: int| 0 <= i < bytes@.len() && bytes@[i] == 0,
        r matches Some(n) ==> n < bytes@.len() && bytes@[n as int] == 0 && forall|j: int|
            0 <= j < n ==> bytes@[j] != 0,
{
    let len = bytes.len();
    let mut i: usize = 0;
    while i < len
        invariant
            i <= len,
            len == bytes@.len(),
            forall|j: int| 0 <= j < i ==> bytes@[j] != 0,
        decreases len - i,
    {
        if bytes[i] == 0 {
            return Some(i);
        }
        i = i + 1;
    }
    None
}

/// Processor `after` is processor `before` once the thread that runs has
/// started the program `image` in slot `tid` and gone to sleep: the new
/// thread is a user thread of the program with the address space `vm`, it is
/// ready and waits at the tail of the queue, and the thread that runs is the
/// one that waits for it to exit.
pub open spec fn exec_started(
    before: &Processor,
    after: &Processor,
    tid: Tid,
    vm: &MemorySet,
    image: &ElfImage,
    mem1: &PhysMemory,
    alloc0: &SegmentTreeAllocator,
    alloc1: &SegmentTreeAllocator,
    layout: KernelLayout,
    kstack_bottom: u64,
    trapret: u64,
    sstatus: u64,
) -> bool {
    let host = before.running().unwrap();
    &&& crate::process::scheduler::pushed(&before.sched(), &after.sched(), tid)
    &&& after.inner.unwrap().current == before.inner.unwrap().current
    &&& after.slots() == before.slots().update(tid as int, after.slots()[tid as int]).update(
        host as int,
        Some(ThreadInfo { status: Status::Sleeping, thread: None }),
    )
    &&& after.slots()[tid as int] matches Some(info) && info.status == Status::Ready && (
    info.thread matches Some(thread) && user_thread_made(
        &*thread,
        vm,
        image,
        Some(host),
        mem1,
        alloc0,
        alloc1,
        layout,
        kstack_bottom,
        trapret,
        sstatus,
    ))
}

/// What running a program comes to.
pub struct ExecOutcome {
    /// What the system call returns.
    pub ret: isize,
    /// The address space of the program, when it was started.
    pub started: Option<MemorySet>,
    /// When the program was started, the thread that has asked for it sleeps
    /// until the program exits: the status register as it was is to be
    /// written back when it runs again.
    pub flags: Option<u64>,
}

/// The thread that runs asks for the program `found` to be run: the program
/// is started as a new user thread, and the thread sleeps until the program
/// exits. Where no program was found, or the program cannot be run, the
/// thread goes on at once.
pub fn sys_exec(
    cpu: &mut Processor,
    hart: &mut Hart,
    found: Option<&ElfImage>,
    mem: &mut PhysMemory,
    alloc: &mut SegmentTreeAllocator,
    layout: &KernelLayout,
    kstack_bottom: u64,
    trapret: u64,
) -> (out: ExecOutcome)
    requires
        old(cpu).wf(),
        !old(cpu).pool().is_full(),
        old(cpu).running() matches Some(t) && old(cpu).slots()[t as int] is Some,
        old(mem).wf(),
        old(alloc).wf(),
        forall|f: nat| old(alloc).is_free(f) ==> old(mem).contains(f),
        layout.wf(),
        kstack_bottom != 0,
        kstack_bottom % KERNEL_STACK_SIZE == 0,
        kstack_bottom + KERNEL_STACK_SIZE <= u64::MAX,
        can_execute(found, *layout) ==> old(alloc).free_set().len() >= image_frames_needed(
            found.unwrap(),
            *layout,
        ),
    ensures
        final(cpu).wf(),
        final(alloc).wf(),
        final(cpu).running() == old(cpu).running(),
        out.ret == 0,
        out.started is Some <==> can_execute(found, *layout),
        out.started is None ==> {
            &&& out.flags is None
            &&& *final(hart) == *old(hart)
            &&& *final(mem) == *old(mem)
            &&& *final(alloc) == *old(alloc)
            &&& unchanged(old(cpu), final(cpu))
        },
        out.started matches Some(vm) ==> {
            &&& out.flags == Some(old(hart).sstatus)
            &&& *final(hart) == disabled(*old(hart))
            &&& !final(hart).interrupts_on()
            &&& exists|tid: Tid| #[trigger]
                old(cpu).pool().lowest_free(tid) && exec_started(
                    old(cpu),
                    final(cpu),
                    tid,
                    &vm,
                    found.unwrap(),
                    final(mem),
                    old(alloc),
                    final(alloc),
                    *layout,
                    kstack_bottom,
                    trapret,
                    old(hart).sstatus,
                )
        },
{
    let host = crate::process::current_tid(cpu);
    let sstatus = hart.sstatus;
    let started = execute(
        cpu,
        found,
        Some(host),
        mem,
        alloc,
        layout,
        kstack_bottom,
        trapret,
        sstatus,
    );
    let ghost mid = *cpu;
    let flags = if started.is_some() {
        crate::process::yield_now(cpu, hart)
    } else {
        None
    };
    proof {
        if started is Some {
            let vm = started.unwrap();
            let image = found.unwrap();
            let tid = choose|tid: Tid| #[trigger]
                old(cpu).pool().lowest_free(tid) && spawned(old(cpu), &mid, tid)
                    && user_thread_made(
                    &*mid.slots()[tid as int].unwrap().thread.unwrap(),
                    &vm,
                    image,
                    Some(host),
                    mem,
                    old(alloc),
                    alloc,
                    *layout,
                    kstack_bottom,
                    trapret,
                    sstatus,
                );
            assert(tid != host);
            assert(cpu.slots()[tid as int] == mid.slots()[tid as int]);
            assert(cpu.slots() =~= old(cpu).slots().update(tid as int, cpu.slots()[tid as int]).update(
                host as int,
                Some(ThreadInfo { status: Status::Sleeping, thread: None }),
            ));
            assert(exec_started(
                old(cpu),
                cpu,
                tid,
                &vm,
                image,
                mem,
                old(alloc),
                alloc,
                *layout,
                kstack_bottom,
                trapret,
                sstatus,
            ));
        }
    }
    ExecOutcome { ret: 0, started, flags }
}

} // verus!
