use rvkernel::consts::{PAGE_SIZE, USER_STACK_OFFSET, USER_STACK_SIZE};
use rvkernel::context::{SSTATUS_SPIE, SSTATUS_SPP};
use rvkernel::fs::stdio::{Stdin, StdinPop};
use rvkernel::interrupt::{external, try_serial, Hart};
use rvkernel::memory::init as memory_init;
use rvkernel::memory::memory_set::attr::MemoryAttr;
use rvkernel::memory::memory_set::handler::Backing;
use rvkernel::memory::memory_set::KernelLayout;
use rvkernel::memory::phys::PhysMemory;
use rvkernel::process::elf::{
    check_areas, kernel_areas, plan_areas, plan_max_frames, to_attr, ElfError, ElfImage, ElfType,
    Segment,
};
use rvkernel::process::processor::Processor;
use rvkernel::process::scheduler::RRScheduler;
use rvkernel::process::structs::{Status, Thread};
use rvkernel::process::thread_pool::ThreadPool;
use rvkernel::process::{current_tid, execute, exit, run, tick, wake_up, yield_now};
use rvkernel::sync::condvar::Condvar;
use rvkernel::syscall::{sys_exec, sys_exit, sys_read, ReadOutcome};
use rvkernel::timer::{super_timer, Timer};

const TRAPRET: u64 = 0xffff_ffff_c020_1234;
const STACKS: u64 = 0xffff_ffff_c100_0000;
const BASE: u64 = 0x80400;

fn stack(n: u64) -> u64 {
    STACKS + n * 0x8000
}

fn kernel_thread(n: u64) -> Box<Thread> {
    Thread::new_kernel(0x1000 * n, stack(n), 0, TRAPRET, 0)
}

fn hart() -> Hart {
    Hart { sstatus: 0x2, sscratch: 0, stvec: 0, sie: 0, satp: 0 }
}

fn cpu(capacity: usize, quantum: usize) -> Processor {
    let mut cpu = Processor::new();
    assert!(!cpu.is_initialized());
    let pool = ThreadPool::new(capacity, RRScheduler::new(quantum));
    cpu.init(kernel_thread(99), Box::new(pool));
    cpu
}

fn status(cpu: &Processor, tid: usize) -> Option<Status> {
    cpu.inner.as_ref().unwrap().pool.status(tid)
}

fn layout() -> KernelLayout {
    let k = 0xffff_ffff_c020_0000u64;
    KernelLayout {
        stext: k,
        etext: k + 0x3000,
        srodata: k + 0x3000,
        erodata: k + 0x4000,
        sdata: k + 0x4000,
        edata: k + 0x6000,
        sbss: k + 0x6000,
        ebss: k + 0x9000,
        end: k + 0x9000,
    }
}

fn hello() -> ElfImage {
    ElfImage {
        kind: ElfType::Executable,
        entry: 0x10120,
        segments: vec![
            Segment { load: false, vaddr: 0x10040, mem_size: 0x100, flags: 4, data: vec![9; 16] },
            Segment { load: true, vaddr: 0x10000, mem_size: 0x1800, flags: 5, data: vec![0x13; 0x1234] },
            Segment { load: true, vaddr: 0x12000, mem_size: 0x2000, flags: 6, data: vec![7, 8, 9] },
        ],
    }
}

#[test]
fn scheduler_takes_threads_in_turn() {
    let mut s = RRScheduler::new(2);
    assert_eq!(s.pop(), None);
    assert!(s.tick());
    s.push(3);
    s.push(1);
    s.push(4);
    assert_eq!(s.ready_count(), 3);
    assert!(s.is_queued(1) && !s.is_queued(2));
    assert_eq!(s.time_left(3), 0);
    assert_eq!(s.pop(), Some(3));
    assert_eq!(s.running(), Some(3));
    assert_eq!(s.time_left(3), 2);
    assert!(!s.tick());
    assert_eq!(s.time_left(3), 1);
    assert!(s.tick());
    assert_eq!(s.time_left(3), 0);
    assert!(s.tick());
    s.push(3);
    assert_eq!(s.pop(), Some(1));
    assert_eq!(s.pop(), Some(4));
    assert_eq!(s.pop(), Some(3));
    assert_eq!(s.pop(), None);
    assert_eq!(s.running(), Some(3));
}

#[test]
fn scheduler_exit_clears_the_running_thread_only() {
    let mut s = RRScheduler::new(3);
    s.push(0);
    s.push(1);
    assert_eq!(s.pop(), Some(0));
    s.exit(1);
    assert_eq!(s.running(), Some(0));
    assert_eq!(s.time_left(0), 3);
    assert!(s.is_queued(1));
    s.exit(0);
    assert_eq!(s.running(), None);
    assert_eq!(s.time_left(0), 0);
    assert!(s.tick());
}

#[test]
fn pool_of_one_slot() {
    let mut pool = ThreadPool::new(1, RRScheduler::new(1));
    assert_eq!(pool.capacity(), 1);
    assert!(pool.has_room());
    assert_eq!(pool.alloc_tid(), 0);
    pool.add(kernel_thread(1));
    assert!(!pool.has_room());
    assert_eq!(pool.status(0), Some(Status::Ready));
    assert!(pool.is_queued(0));
}

#[test]
fn pool_of_no_slot() {
    let pool = ThreadPool::new(0, RRScheduler::new(1));
    assert!(!pool.has_room());
}

#[test]
fn pool_moves_threads_in_and_out() {
    let mut pool = ThreadPool::new(4, RRScheduler::new(1));
    pool.add(kernel_thread(1));
    pool.add(kernel_thread(2));
    assert_eq!(pool.alloc_tid(), 2);
    let (tid, t) = pool.acquire().unwrap();
    assert_eq!(tid, 0);
    assert_eq!(t.kstack.top(), stack(1) + 0x8000);
    assert_eq!(pool.status(0), Some(Status::Running(0)));
    assert!(pool.threads[0].as_ref().unwrap().thread.is_none());
    // the quantum of one tick is used up
    assert!(pool.tick());
    assert!(!pool.is_queued(0));
    // it comes back and waits behind the other
    assert!(pool.retrieve(0, t).is_none());
    assert_eq!(pool.status(0), Some(Status::Ready));
    let (tid, t) = pool.acquire().unwrap();
    assert_eq!(tid, 1);
    // it sleeps: it is not queued when it comes back
    pool.sleep(1);
    assert!(pool.retrieve(1, t).is_none());
    assert_eq!(pool.status(1), Some(Status::Sleeping));
    assert!(!pool.is_queued(1));
    let (tid, t) = pool.acquire().unwrap();
    assert_eq!(tid, 0);
    assert!(pool.acquire().is_none());
    pool.wakeup(1);
    assert_eq!(pool.status(1), Some(Status::Ready));
    assert!(pool.is_queued(1));
    // it exits: its slot is free, and the thread is handed back
    assert!(pool.exit(0).is_none());
    assert_eq!(pool.status(0), None);
    let gone = pool.retrieve(0, t).unwrap();
    assert_eq!(gone.kstack.top(), stack(1) + 0x8000);
    assert_eq!(pool.alloc_tid(), 0);
    let (tid, t) = pool.acquire().unwrap();
    assert_eq!(tid, 1);
    assert!(pool.exit(1).is_none());
    assert!(pool.retrieve(1, t).is_some());
    assert!(pool.acquire().is_none());
}

#[test]
fn idle_runs_threads_in_turn() {
    let mut cpu = cpu(4, 1);
    let mut hart = hart();
    cpu.add_thread(kernel_thread(1));
    cpu.add_thread(kernel_thread(2));
    cpu.add_thread(kernel_thread(3));
    let mut order = Vec::new();
    for _ in 0..7 {
        let step = cpu.idle_main(&mut hart);
        assert!(!hart.interrupts_enabled());
        assert!(step.gone.is_none());
        let tid = step.next.unwrap();
        assert_eq!(current_tid(&cpu), tid);
        for t in 0..3 {
            let running = status(&cpu, t) == Some(Status::Running(t));
            assert_eq!(running, t == tid);
        }
        // the timer fires: the quantum of one tick is used up
        let flags = tick(&mut cpu, &mut hart);
        assert!(flags.is_some());
        assert!(!hart.interrupts_enabled());
        order.push(tid);
    }
    assert_eq!(order, vec![0, 1, 2, 0, 1, 2, 0]);
}

#[test]
fn tick_with_a_longer_quantum() {
    let mut cpu = cpu(2, 3);
    let mut hart = hart();
    assert_eq!(tick(&mut cpu, &mut hart), None);
    cpu.add_thread(kernel_thread(1));
    assert_eq!(cpu.idle_main(&mut hart).next, Some(0));
    hart.sstatus = 0x122;
    assert_eq!(tick(&mut cpu, &mut hart), None);
    assert_eq!(hart.sstatus, 0x122);
    assert_eq!(tick(&mut cpu, &mut hart), None);
    assert_eq!(tick(&mut cpu, &mut hart), Some(0x122));
    assert_eq!(hart.sstatus, 0x120);
}

fn time_left(cpu: &Processor, tid: usize) -> usize {
    cpu.inner.as_ref().unwrap().pool.scheduler.time_left(tid)
}

#[test]
fn ticks_are_counted_against_the_thread_that_runs() {
    let mut cpu = cpu(4, 3);
    let mut hart = hart();
    cpu.add_thread(kernel_thread(1));
    cpu.add_thread(kernel_thread(2));
    assert_eq!((time_left(&cpu, 0), time_left(&cpu, 1)), (0, 0));
    // no thread runs: a tick counts against nobody
    assert_eq!(tick(&mut cpu, &mut hart), None);
    assert_eq!((time_left(&cpu, 0), time_left(&cpu, 1)), (0, 0));
    // the thread that is taken has a full quantum
    assert_eq!(cpu.idle_main(&mut hart).next, Some(0));
    assert_eq!(cpu.inner.as_ref().unwrap().pool.scheduler.running(), Some(0));
    assert_eq!((time_left(&cpu, 0), time_left(&cpu, 1)), (3, 0));
    assert_eq!(tick(&mut cpu, &mut hart), None);
    assert_eq!((time_left(&cpu, 0), time_left(&cpu, 1)), (2, 0));
    // sleeping keeps the ticks
    hart.sstatus = 2;
    assert!(yield_now(&mut cpu, &mut hart).is_some());
    assert_eq!((time_left(&cpu, 0), time_left(&cpu, 1)), (2, 0));
    assert_eq!(cpu.idle_main(&mut hart).next, Some(1));
    assert_eq!((time_left(&cpu, 0), time_left(&cpu, 1)), (2, 3));
    assert_eq!(tick(&mut cpu, &mut hart), None);
    assert_eq!(tick(&mut cpu, &mut hart), None);
    assert!(tick(&mut cpu, &mut hart).is_some());
    assert_eq!(time_left(&cpu, 1), 0);
    // waking puts the thread in the queue with no tick left
    wake_up(&mut cpu, 0);
    assert_eq!(time_left(&cpu, 0), 0);
    // exiting clears the ticks of the thread that exits only
    assert_eq!(cpu.idle_main(&mut hart).next, Some(0));
    assert_eq!((time_left(&cpu, 0), time_left(&cpu, 1)), (3, 0));
    assert!(cpu.can_exit());
    exit(&mut cpu, &mut hart, 0);
    assert_eq!((time_left(&cpu, 0), time_left(&cpu, 1)), (0, 0));
    assert_eq!(cpu.inner.as_ref().unwrap().pool.scheduler.running(), None);
}

#[test]
fn what_may_exit() {
    let mut cpu = cpu(4, 1);
    let mut hart = hart();
    // no thread runs
    assert!(!cpu.can_exit());
    assert!(!cpu.runs_in_slot());
    let mut waited = kernel_thread(1);
    waited.wait = Some(2);
    cpu.add_thread(waited);
    assert_eq!(cpu.idle_main(&mut hart).next, Some(0));
    assert!(cpu.runs_in_slot());
    assert!(cpu.holds(0) && !cpu.holds(2) && !cpu.holds(4));
    // the thread that waits for it holds no slot
    assert!(!cpu.can_exit());
    cpu.add_thread(kernel_thread(2));
    cpu.add_thread(kernel_thread(3));
    assert!(cpu.can_exit());
    // it was woken while it ran: it waits in the queue
    wake_up(&mut cpu, 0);
    assert!(!cpu.can_exit());
}

#[test]
fn idle_waits_when_nothing_is_ready() {
    let mut cpu = cpu(2, 1);
    let mut hart = hart();
    let step = cpu.idle_main(&mut hart);
    assert!(step.next.is_none() && step.gone.is_none());
    assert_eq!(hart.sstatus, 0);
    let boot = run(&cpu, &hart);
    assert_eq!(boot.context.content_addr, 0);
}

#[test]
fn yield_sleeps_until_woken() {
    let mut cpu = cpu(4, 1);
    let mut hart = hart();
    assert_eq!(yield_now(&mut cpu, &mut hart), None);
    cpu.add_thread(kernel_thread(1));
    cpu.add_thread(kernel_thread(2));
    assert_eq!(cpu.idle_main(&mut hart).next, Some(0));
    hart.sstatus = 0x22;
    assert_eq!(yield_now(&mut cpu, &mut hart), Some(0x22));
    assert_eq!(hart.sstatus, 0x20);
    assert_eq!(status(&cpu, 0), Some(Status::Sleeping));
    assert_eq!(cpu.idle_main(&mut hart).next, Some(1));
    assert_eq!(status(&cpu, 0), Some(Status::Sleeping));
    assert!(tick(&mut cpu, &mut hart).is_some());
    // only thread 1 is ready
    assert_eq!(cpu.idle_main(&mut hart).next, Some(1));
    wake_up(&mut cpu, 0);
    assert_eq!(status(&cpu, 0), Some(Status::Ready));
    assert!(tick(&mut cpu, &mut hart).is_some());
    assert_eq!(cpu.idle_main(&mut hart).next, Some(0));
}

#[test]
fn exit_frees_the_slot_and_wakes_the_waiting_thread() {
    let mut cpu = cpu(4, 1);
    let mut hart = hart();
    cpu.add_thread(kernel_thread(1));
    assert_eq!(cpu.idle_main(&mut hart).next, Some(0));
    // thread 0 starts a child and waits for it
    let mut child = kernel_thread(2);
    child.wait = Some(0);
    cpu.add_thread(child);
    yield_now(&mut cpu, &mut hart);
    assert_eq!(cpu.idle_main(&mut hart).next, Some(1));
    hart.sstatus = 2;
    exit(&mut cpu, &mut hart, 0);
    assert!(!hart.interrupts_enabled());
    assert_eq!(status(&cpu, 1), None);
    assert_eq!(status(&cpu, 0), Some(Status::Ready));
    let step = cpu.idle_main(&mut hart);
    assert_eq!(step.gone.unwrap().kstack.release(), Some(stack(2)));
    assert_eq!(step.next, Some(0));
    hart.sstatus = 2;
    sys_exit(&mut cpu, &mut hart, 3);
    let step = cpu.idle_main(&mut hart);
    assert_eq!(step.gone.unwrap().kstack.release(), Some(stack(1)));
    assert_eq!(step.next, None);
}

#[test]
fn condition_wakes_in_order() {
    let mut cpu = cpu(4, 1);
    let mut hart = hart();
    let mut cond = Condvar::new();
    assert!(cond.can_notify(&cpu));
    assert_eq!(cond.notify(&mut cpu), None);
    cpu.add_thread(kernel_thread(1));
    cpu.add_thread(kernel_thread(2));
    assert_eq!(cpu.idle_main(&mut hart).next, Some(0));
    hart.sstatus = 0x102;
    assert_eq!(cond.wait(&mut cpu, &mut hart), 0x102);
    assert_eq!(hart.sstatus, 0x100);
    assert_eq!(cpu.idle_main(&mut hart).next, Some(1));
    cond.wait(&mut cpu, &mut hart);
    assert_eq!(cond.waiting_count(), 2);
    assert_eq!(cpu.idle_main(&mut hart).next, None);
    assert_eq!(cond.notify(&mut cpu), Some(0));
    assert_eq!(cond.notify(&mut cpu), Some(1));
    assert_eq!(cond.notify(&mut cpu), None);
    assert_eq!(cpu.idle_main(&mut hart).next, Some(0));
}

#[test]
fn standard_input() {
    let mut cpu = cpu(4, 1);
    let mut hart = hart();
    let mut stdin = Stdin::new();
    cpu.add_thread(kernel_thread(1));
    assert_eq!(cpu.idle_main(&mut hart).next, Some(0));
    hart.sstatus = 2;
    // nothing typed: the reader waits
    assert_eq!(sys_read(&mut stdin, &mut cpu, &mut hart), ReadOutcome::Wait(2));
    assert_eq!(status(&cpu, 0), Some(Status::Sleeping));
    assert_eq!(cpu.idle_main(&mut hart).next, None);
    // nothing at the serial port
    assert!(stdin.can_push(&cpu));
    assert!(!try_serial(&mut stdin, &mut cpu, usize::MAX));
    assert_eq!(stdin.pending(), 0);
    // a carriage return is typed: it counts as a line feed and wakes the reader
    assert!(try_serial(&mut stdin, &mut cpu, b'\r' as usize));
    external(&mut stdin, &mut cpu, b'x' as usize);
    assert_eq!(stdin.pending(), 2);
    assert_eq!(status(&cpu, 0), Some(Status::Ready));
    assert_eq!(cpu.idle_main(&mut hart).next, Some(0));
    hart.sstatus = 2;
    assert_eq!(sys_read(&mut stdin, &mut cpu, &mut hart), ReadOutcome::Done { byte: b'\n', ret: 1 });
    assert_eq!(hart.sstatus, 2);
    assert!(matches!(stdin.pop(&mut cpu, &mut hart), StdinPop::Char('x')));
    assert_eq!(stdin.pending(), 0);
}

#[test]
fn timer_interrupt_preempts() {
    let mut cpu = cpu(4, 2);
    let mut hart = hart();
    let mut timer = Timer::new();
    cpu.add_thread(kernel_thread(1));
    assert_eq!(cpu.idle_main(&mut hart).next, Some(0));
    hart.sstatus = 0x22;
    let out = super_timer(&mut timer, &mut cpu, &mut hart, 500);
    assert_eq!(out.next_event, 100_500);
    assert_eq!(out.preempt, None);
    assert_eq!(timer.get(), 1);
    let out = super_timer(&mut timer, &mut cpu, &mut hart, 100_500);
    assert_eq!(out.next_event, 200_500);
    assert_eq!(out.preempt, Some(0x22));
    assert_eq!(hart.sstatus, 0x20);
    assert_eq!(timer.get(), 2);
}

#[test]
fn flags_of_segments() {
    assert_eq!(to_attr(0), MemoryAttr { user: true, readonly: true, execute: false });
    assert_eq!(to_attr(1), MemoryAttr { user: true, readonly: true, execute: true });
    assert_eq!(to_attr(2), MemoryAttr { user: true, readonly: false, execute: false });
    assert_eq!(to_attr(4), MemoryAttr { user: true, readonly: true, execute: false });
    assert_eq!(to_attr(7), MemoryAttr { user: true, readonly: false, execute: true });
}

#[test]
fn plan_of_a_program() {
    let l = layout();
    let kernel = kernel_areas(&l);
    assert_eq!(kernel.len(), 5);
    assert!(check_areas(&kernel));
    let plan = plan_areas(&hello(), &l).unwrap();
    assert_eq!(plan.len(), 8);
    assert_eq!((plan[5].start, plan[5].end), (0x10000, 0x11800));
    assert_eq!(plan[5].handler, Backing::ByFrame);
    assert_eq!(plan[5].attr, MemoryAttr { user: true, readonly: true, execute: true });
    assert_eq!((plan[6].start, plan[6].end), (0x12000, 0x14000));
    assert_eq!(plan[6].attr, MemoryAttr { user: true, readonly: false, execute: false });
    assert_eq!((plan[7].start, plan[7].end), (USER_STACK_OFFSET, USER_STACK_OFFSET + USER_STACK_SIZE));
    // the root, the kernel, 2 + 2 pages of segments, 16 of stack, and their nodes
    let kernel_bound: u64 = kernel.iter().map(|a| a.max_frames()).sum();
    assert_eq!(plan[5].max_frames(), 2 + 1 + 1);
    assert_eq!(plan[7].max_frames(), 16 + 1 + 1);
    assert_eq!(plan_max_frames(&plan), 1 + kernel_bound + 4 + 4 + 18);
    // two segments in one page
    let mut bad = hello();
    bad.segments[2].vaddr = 0x11000;
    assert!(plan_areas(&bad, &l).is_none());
    // a segment that ends behind the address space
    let mut bad = hello();
    bad.segments[2].vaddr = u64::MAX - 0x10;
    assert!(plan_areas(&bad, &l).is_none());
    // a segment in the kernel
    let mut bad = hello();
    bad.segments[1].vaddr = l.sdata;
    assert!(plan_areas(&bad, &l).is_none());
    // a segment that is not loaded may lie anywhere
    let mut fine = hello();
    fine.segments[0].vaddr = l.sdata;
    assert!(plan_areas(&fine, &l).is_some());
}

#[test]
fn user_thread_of_a_program() {
    let mut mem = PhysMemory::new(BASE, 512);
    let mut alloc = memory_init(BASE, BASE + 512);
    let l = layout();
    let image = hello();
    let before = alloc.num_free();
    let (mut thread, vm) =
        Thread::new_user(&image, Some(4), &mut mem, &mut alloc, &l, stack(1), TRAPRET, 0x102)
            .ok()
            .unwrap();
    assert_eq!(thread.wait, Some(4));
    assert_eq!(vm.area_count(), 8);
    let c = thread.kstack.take().unwrap();
    assert_eq!(c.tf.sepc, 0x10120);
    assert_eq!(c.tf.x[2], USER_STACK_OFFSET + USER_STACK_SIZE);
    assert_eq!(c.satp, vm.token(&mem));
    assert_eq!(c.ra, TRAPRET);
    assert_eq!(c.tf.sstatus & (SSTATUS_SPP | SSTATUS_SPIE | 2), SSTATUS_SPIE);
    // text: two pages, user, read and execute, filled from the file
    let e0 = vm.get_entry(&mem, 0x10000).unwrap();
    let e1 = vm.get_entry(&mem, 0x11000).unwrap();
    assert!(e0.valid && e0.user && e0.executable && !e0.writable);
    assert_eq!(mem.read_byte(e0.ppn, 0), 0x13);
    assert_eq!(mem.read_byte(e1.ppn, 0x233), 0x13);
    assert_eq!(mem.read_byte(e1.ppn, 0x234), 0);
    // data: writable, the rest zero
    let d0 = vm.get_entry(&mem, 0x12000).unwrap();
    let d1 = vm.get_entry(&mem, 0x13000).unwrap();
    assert!(d0.valid && d0.user && d0.writable && !d0.executable);
    assert_eq!((mem.read_byte(d0.ppn, 0), mem.read_byte(d0.ppn, 2), mem.read_byte(d0.ppn, 3)), (7, 9, 0));
    assert_eq!(mem.read_byte(d1.ppn, 0), 0);
    // the user stack
    let s = vm.get_entry(&mem, USER_STACK_OFFSET + USER_STACK_SIZE - 1).unwrap();
    assert!(s.valid && s.user && s.writable && !s.executable);
    assert!(!vm.get_entry(&mem, USER_STACK_OFFSET + USER_STACK_SIZE).map_or(false, |e| e.valid));
    // the kernel is mapped too
    assert!(vm.get_entry(&mem, l.stext).unwrap().valid);
    assert!(!vm.get_entry(&mem, l.stext).unwrap().user);
    assert!((before - alloc.num_free()) as u64 <= plan_max_frames(&plan_areas(&image, &l).unwrap()));
    // 4 pages of segments, 16 of stack, and the nodes of the page table
    let pages = 4 + USER_STACK_SIZE / PAGE_SIZE;
    assert!(before - alloc.num_free() > pages as usize);
    // every frame of a page is a frame of its own
    let mut frames = vec![e0.ppn, e1.ppn, d0.ppn, d1.ppn, s.ppn];
    frames.sort();
    frames.dedup();
    assert_eq!(frames.len(), 5);
}

#[test]
fn programs_that_cannot_run() {
    let mut mem = PhysMemory::new(BASE, 512);
    let mut alloc = memory_init(BASE, BASE + 512);
    let l = layout();
    let before = alloc.num_free();
    let mut lib = hello();
    lib.kind = ElfType::SharedObject;
    let r = Thread::new_user(&lib, None, &mut mem, &mut alloc, &l, stack(1), TRAPRET, 0);
    assert_eq!(r.err(), Some(ElfError::NotExecutable));
    let mut bad = hello();
    bad.segments[1].mem_size = 0x3000;
    let r = Thread::new_user(&bad, None, &mut mem, &mut alloc, &l, stack(1), TRAPRET, 0);
    assert_eq!(r.err(), Some(ElfError::BadSegment));
    assert_eq!(alloc.num_free(), before);
}

#[test]
fn exec_starts_a_program_and_waits_for_it() {
    let mut mem = PhysMemory::new(BASE, 512);
    let mut alloc = memory_init(BASE, BASE + 512);
    let l = layout();
    let mut cpu = cpu(4, 1);
    let mut hart = hart();
    cpu.add_thread(kernel_thread(1));
    assert_eq!(cpu.idle_main(&mut hart).next, Some(0));
    // nothing found: the caller goes on
    hart.sstatus = 0x22;
    let out = sys_exec(&mut cpu, &mut hart, None, &mut mem, &mut alloc, &l, stack(2), TRAPRET);
    assert_eq!(out.ret, 0);
    assert!(out.started.is_none() && out.flags.is_none());
    assert_eq!(hart.sstatus, 0x22);
    assert_eq!(status(&cpu, 0), Some(Status::Running(0)));
    let image = hello();
    let out = sys_exec(&mut cpu, &mut hart, Some(&image), &mut mem, &mut alloc, &l, stack(2), TRAPRET);
    assert_eq!(out.ret, 0);
    assert!(out.started.is_some());
    assert_eq!(out.flags, Some(0x22));
    assert_eq!(status(&cpu, 0), Some(Status::Sleeping));
    assert_eq!(status(&cpu, 1), Some(Status::Ready));
    assert_eq!(cpu.idle_main(&mut hart).next, Some(1));
    exit(&mut cpu, &mut hart, 0);
    assert_eq!(status(&cpu, 0), Some(Status::Ready));
    assert_eq!(cpu.idle_main(&mut hart).next, Some(0));
    // without a caller
    let started = execute(&mut cpu, Some(&image), None, &mut mem, &mut alloc, &l, stack(3), TRAPRET, 0);
    assert!(started.is_some());
    assert_eq!(status(&cpu, 1), Some(Status::Ready));
}
