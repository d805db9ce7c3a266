use rvkernel::consts::{KERNEL_STACK_SIZE, TIMEBASE};
use rvkernel::context::{
    first_sstatus, Context, ContextContent, CONTEXT_CONTENT_SIZE, SSTATUS_MASK, SSTATUS_SIE,
    SSTATUS_SPIE, SSTATUS_SPP,
};
use rvkernel::fs::device::MemBuf;
use rvkernel::init::{frame_range, rust_main};
use rvkernel::interrupt::{
    breakpoint, disable_and_store, enable_and_wfi, enable_serial_interrupt, init,
    init_external_interrupt, page_fault, restore, rust_trap, syscall_return, trap_cause, Hart,
    MmioWrite, PageFault, TrapCause, TrapEvent, SIE_SEIE,
};
use rvkernel::io::{getchar, getchar_option, putchar, puts};
use rvkernel::process::structs::{KernelStack, Thread};
use rvkernel::syscall::{from_cstr, known_syscall, sys_write, syscall, Syscall};
use rvkernel::timer::{clock_set_next_event, Timer};

const TRAPRET: u64 = 0xffff_ffff_c020_1234;
const STACK: u64 = 0xffff_ffff_c100_0000;

fn frame_with_cause(scause: u64) -> rvkernel::context::TrapFrame {
    let mut x = [0u64; 32];
    for (i, r) in x.iter_mut().enumerate() {
        *r = 100 + i as u64;
    }
    rvkernel::context::TrapFrame { x, sstatus: 0x120, sepc: 0x1000, stval: 0x12345678, scause }
}

#[test]
fn first_status_of_a_kernel_thread() {
    // every defined bit set, and some that are not
    let s = first_sstatus(u64::MAX, true);
    assert_eq!(s, SSTATUS_MASK & !SSTATUS_SIE);
    assert_eq!(s & SSTATUS_SIE, 0);
    assert_eq!(s & SSTATUS_SPIE, SSTATUS_SPIE);
    assert_eq!(s & SSTATUS_SPP, SSTATUS_SPP);
    // nothing set before
    assert_eq!(first_sstatus(0, true), SSTATUS_SPIE | SSTATUS_SPP);
    // interrupts were on: they are off until the return from the trap
    assert_eq!(first_sstatus(SSTATUS_SIE, true), SSTATUS_SPIE | SSTATUS_SPP);
}

#[test]
fn first_status_of_a_user_thread() {
    assert_eq!(first_sstatus(0, false), SSTATUS_SPIE);
    assert_eq!(first_sstatus(SSTATUS_SPP | SSTATUS_SIE, false), SSTATUS_SPIE);
    let s = first_sstatus(u64::MAX, false);
    assert_eq!(s, SSTATUS_MASK & !SSTATUS_SIE & !SSTATUS_SPP);
}

#[test]
fn content_of_a_new_kernel_thread() {
    let c = ContextContent::new_kernel_thread(0x8000, 0x9000, 0x8000_0000_0008_0400, TRAPRET, 0x2);
    assert_eq!(c.ra, TRAPRET);
    assert_eq!(c.satp, 0x8000_0000_0008_0400);
    assert_eq!(c.s, [0u64; 12]);
    assert_eq!(c.tf.sepc, 0x8000);
    assert_eq!(c.tf.x[2], 0x9000);
    for i in 0..32 {
        if i != 2 {
            assert_eq!(c.tf.x[i], 0);
        }
    }
    assert_eq!(c.tf.sstatus, SSTATUS_SPIE | SSTATUS_SPP);
    assert_eq!(c.tf.stval, 0);
    assert_eq!(c.tf.scause, 0);
}

#[test]
fn content_of_a_new_user_thread() {
    let c = ContextContent::new_user_thread(0x10000, 0x7000, 5, TRAPRET, SSTATUS_SPP);
    assert_eq!(c.ra, TRAPRET);
    assert_eq!(c.satp, 5);
    assert_eq!(c.tf.sepc, 0x10000);
    assert_eq!(c.tf.x[2], 0x7000);
    assert_eq!(c.tf.x[10], 0);
    assert_eq!(c.tf.sstatus, SSTATUS_SPIE);
}

#[test]
fn kernel_thread_with_arguments() {
    let mut t = Thread::new_kernel(0x8000, STACK, 7, TRAPRET, 0);
    assert_eq!(t.context.content_addr, STACK + KERNEL_STACK_SIZE - CONTEXT_CONTENT_SIZE);
    assert!(t.wait.is_none());
    assert_eq!(t.kstack.top(), STACK + KERNEL_STACK_SIZE);
    t.append_initial_arguments([11, 22, 33]);
    let c = t.kstack.take().unwrap();
    assert_eq!((c.tf.x[10], c.tf.x[11], c.tf.x[12]), (11, 22, 33));
    assert_eq!(c.tf.x[2], STACK + KERNEL_STACK_SIZE);
    assert_eq!(c.tf.x[13], 0);
    assert_eq!(c.tf.sepc, 0x8000);
    assert_eq!(c.ra, TRAPRET);
    assert_eq!(c.satp, 7);
}

#[test]
fn boot_thread_and_stacks() {
    let boot = Thread::get_boot_thread();
    assert_eq!(boot.context, Context::null());
    assert_eq!(boot.context.content_addr, 0);
    assert_eq!(boot.kstack.top(), KERNEL_STACK_SIZE);
    assert!(boot.wait.is_none());
    assert_eq!(KernelStack::new_empty().release(), None);
    assert_eq!(KernelStack::new(STACK).release(), Some(STACK));
    let mut k = KernelStack::new(STACK);
    let ctx = Context::new_user_thread(1, 2, &mut k, 3, 4, 5);
    assert_eq!(ctx.content_addr, STACK + KERNEL_STACK_SIZE - 400);
    ctx.append_initial_arguments(&mut k, [7, 8, 9]);
    let c = k.take().unwrap();
    assert_eq!((c.tf.sepc, c.tf.x[2], c.satp, c.ra), (1, 2, 3, 4));
    assert_eq!(c.tf.x[12], 9);
    assert!(k.take().is_none());
}

#[test]
fn disable_then_restore_is_identity() {
    for s in [0u64, 2, 0x122, u64::MAX, 0x8000_0003_000d_e762] {
        let mut hart = Hart { sstatus: s, sscratch: 1, stvec: 2, sie: 3, satp: 4 };
        let before = hart;
        let flags = disable_and_store(&mut hart);
        assert_eq!(flags, s);
        assert_eq!(hart.sstatus, s & !2);
        assert!(!hart.interrupts_enabled());
        restore(&mut hart, flags);
        assert_eq!(hart, before);
    }
    let mut hart = Hart { sstatus: 0x100, sscratch: 0, stvec: 0, sie: 0, satp: 0 };
    enable_and_wfi(&mut hart);
    assert_eq!(hart.sstatus, 0x102);
    assert!(hart.interrupts_enabled());
}

#[test]
fn trap_setup() {
    let mut hart = Hart { sstatus: 0x100, sscratch: 9, stvec: 0, sie: 0x20, satp: 77 };
    let writes = init(&mut hart, 0xffff_ffff_c020_0040);
    assert_eq!(hart.sscratch, 0);
    assert_eq!(hart.stvec, 0xffff_ffff_c020_0040);
    assert_eq!(hart.sstatus, 0x102);
    assert_eq!(hart.sie, 0x20 | SIE_SEIE);
    assert_eq!(hart.satp, 77);
    assert_eq!(
        writes,
        vec![
            MmioWrite { addr: 0xffff_ffff_4c00_2080, value: 1 << 10, width: 4 },
            MmioWrite { addr: 0xffff_ffff_5000_0004, value: 0x0B, width: 1 },
            MmioWrite { addr: 0xffff_ffff_5000_0001, value: 0x01, width: 1 },
        ]
    );
    assert_eq!(init_external_interrupt(), writes[0]);
    assert_eq!(enable_serial_interrupt(), (writes[1], writes[2]));
}

#[test]
fn trap_of_a_breakpoint() {
    let mut tf = frame_with_cause(3);
    assert_eq!(rust_trap(&mut tf), TrapEvent::Breakpoint);
    assert_eq!(tf.sepc, 0x1002);
    let mut pc = u64::MAX;
    breakpoint(&mut pc);
    assert_eq!(pc, 1);
}

#[test]
fn trap_of_interrupts() {
    let mut tf = frame_with_cause((1 << 63) | 5);
    assert_eq!(rust_trap(&mut tf), TrapEvent::Timer);
    assert_eq!(tf.sepc, 0x1000);
    let mut tf = frame_with_cause((1 << 63) | 9);
    assert_eq!(rust_trap(&mut tf), TrapEvent::External);
    assert_eq!(tf.sepc, 0x1000);
    // a software interrupt is known to the hardware but not handled
    assert_eq!(trap_cause(&frame_with_cause((1 << 63) | 1)), TrapCause::Other);
    // number 5 without the interrupt bit is a load fault, not the timer
    assert_eq!(trap_cause(&frame_with_cause(5)), TrapCause::Other);
    assert_eq!(trap_cause(&frame_with_cause((1 << 63) | 3)), TrapCause::Other);
    assert_eq!(trap_cause(&frame_with_cause((1 << 63) | 5)), TrapCause::SupervisorTimer);
    assert!(!TrapCause::SupervisorTimer.fatal() && !TrapCause::SupervisorExternal.fatal());
    assert!(!TrapCause::Breakpoint.fatal() && !TrapCause::UserEnvCall.fatal());
}

#[test]
fn trap_of_a_system_call() {
    let mut tf = frame_with_cause(8);
    assert_eq!(rust_trap(&mut tf), TrapEvent::Syscall { id: 117, a0: 110, a1: 111, a2: 112 });
    assert_eq!(tf.sepc, 0x1004);
    assert_eq!(tf.x[10], 110);
    syscall_return(&mut tf, -1);
    assert_eq!(tf.x[10], u64::MAX);
    syscall_return(&mut tf, 1);
    assert_eq!(tf.x[10], 1);
    assert_eq!(tf.x[11], 111);
}

#[test]
fn trap_of_page_faults_and_others() {
    for (code, cause) in [
        (12u64, TrapCause::InstructionPageFault),
        (13, TrapCause::LoadPageFault),
        (15, TrapCause::StorePageFault),
    ] {
        let tf = frame_with_cause(code);
        assert_eq!(trap_cause(&tf), cause);
        assert!(cause.fatal() && cause.page_fault());
        assert_eq!(page_fault(&tf), PageFault { cause, stval: 0x12345678, sepc: 0x1000 });
    }
    for code in [0u64, 1, 2, 4, 6, 7, 9, 10, 11, 14, 16, 1 << 62] {
        let cause = trap_cause(&frame_with_cause(code));
        assert_eq!(cause, TrapCause::Other);
        assert!(cause.fatal() && !cause.page_fault());
    }
}

#[test]
fn system_calls_by_number() {
    assert_eq!(syscall(63, [0, 0x5000, 1]), Syscall::Read { fd: 0, base: 0x5000, len: 1 });
    assert_eq!(syscall(64, [0x141, 0, 0]), Syscall::Write(0x41));
    assert_eq!(syscall(93, [3, 0, 0]), Syscall::Exit(3));
    assert_eq!(syscall(221, [0x6000, 0, 0]), Syscall::Exec(0x6000));
    for id in [63u64, 64, 93, 221] {
        assert!(known_syscall(id));
    }
    for id in [0u64, 1, 62, 65, 92, 94, 220, 222, u64::MAX] {
        assert!(!known_syscall(id));
    }
    assert_eq!(sys_write(b'O'), (79, 0));
}

#[test]
fn strings_end_at_the_first_zero() {
    assert_eq!(from_cstr(b"rust/hello_world\0junk\0"), Some(16));
    assert_eq!(from_cstr(b"\0"), Some(0));
    assert_eq!(from_cstr(b"no end"), None);
    assert_eq!(from_cstr(b""), None);
}

#[test]
fn console_characters() {
    assert_eq!(getchar(b'a' as usize), 'a');
    assert_eq!(getchar(255), '\0');
    assert_eq!(getchar(usize::MAX), '\0');
    assert_eq!(getchar(0x141), 'A');
    assert_eq!(getchar_option(usize::MAX), None);
    assert_eq!(getchar_option(b'\r' as usize), Some('\r'));
    assert_eq!(getchar_option(255), Some('\u{ff}'));
    assert_eq!(putchar('O'), 79);
    assert_eq!(putchar('\u{141}'), 0x41);
    assert_eq!(puts("OK\n"), vec![79, 75, 10]);
    assert_eq!(puts(""), Vec::<usize>::new());
}

#[test]
fn timer_counts_in_rounds_of_a_hundred() {
    let mut t = Timer::new();
    for i in 1..100 {
        t.count();
        assert_eq!(t.get(), i);
    }
    t.count();
    assert_eq!(t.get(), 0);
    let mut hart = Hart { sstatus: 2, sscratch: 0, stvec: 0, sie: 0x200, satp: 0 };
    assert_eq!(rvkernel::timer::init(&mut hart, 7), 7 + TIMEBASE);
    assert_eq!(hart.sie, 0x220);
    assert_eq!(hart.sstatus, 2);
    assert_eq!(clock_set_next_event(5), 5 + TIMEBASE);
    assert_eq!(clock_set_next_event(u64::MAX), TIMEBASE - 1);
}

#[test]
fn memory_disk() {
    let mut d = MemBuf::new(vec![1, 2, 3, 4, 5]);
    assert_eq!(d.len(), 5);
    let mut buf = vec![0u8; 3];
    assert_eq!(d.read_at(1, &mut buf), 3);
    assert_eq!(buf, vec![2, 3, 4]);
    let mut buf = vec![9u8; 4];
    assert_eq!(d.read_at(3, &mut buf), 2);
    assert_eq!(buf, vec![4, 5, 9, 9]);
    assert_eq!(d.read_at(5, &mut buf), 0);
    assert_eq!(d.write_at(4, &vec![7, 8]), 1);
    assert_eq!(d.write_at(0, &vec![6]), 1);
    let mut all = vec![0u8; 5];
    assert_eq!(d.read_at(0, &mut all), 5);
    assert_eq!(all, vec![6, 2, 3, 4, 7]);
    d.sync();
}

#[test]
fn kernel_setup() {
    let end = 0xffff_ffff_c7f0_0000u64;
    assert_eq!(frame_range(end), (0x87f01, 0x88000));
    let mut hart = Hart { sstatus: 0, sscratch: 5, stvec: 0, sie: 0, satp: 0x8000_0000_0008_0000 };
    let mut k = rust_main(&mut hart, end, 0xffff_ffff_c020_0040, 0x4000, 0x5000, STACK, TRAPRET, 1000);
    assert_eq!(hart.sscratch, 0);
    assert_eq!(hart.stvec, 0xffff_ffff_c020_0040);
    assert!(!hart.interrupts_enabled());
    assert_eq!(hart.sie, 0x220);
    assert_eq!(k.allocator.num_free(), 0x88000 - 0x87f01);
    assert_eq!(k.allocator.allocate(), Some(0x87f01));
    assert!(k.cpu.is_initialized());
    assert_eq!(k.timer.get(), 0);
    assert_eq!(k.stdin.pending(), 0);
    assert_eq!(k.writes.len(), 3);
    assert_eq!(k.first_event, 1000 + TIMEBASE);
    let inner = k.cpu.inner.as_mut().unwrap();
    assert_eq!(inner.pool.capacity(), 100);
    assert!(inner.current.is_none());
    let c = inner.idle.kstack.take().unwrap();
    assert_eq!(c.tf.sepc, 0x4000);
    assert_eq!((c.tf.x[10], c.tf.x[11], c.tf.x[12]), (0x5000, 0, 0));
    assert_eq!(c.satp, 0x8000_0000_0008_0000);
    assert_eq!(c.tf.sstatus & SSTATUS_SPP, SSTATUS_SPP);
}
