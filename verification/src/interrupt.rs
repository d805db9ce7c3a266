use vstd::prelude::*;
use riscv::interrupt::supervisor::{Exception, Interrupt};
use riscv::interrupt::Trap;
use riscv::register::scause::Scause;
use riscv::{ExceptionNumber, InterruptNumber};
use crate::consts::PHYSICAL_MEMORY_OFFSET;
use crate::context::{TrapFrame, SSTATUS_SIE};
use crate::fs::stdio::Stdin;
use crate::io::{char_of_byte, getchar_option};
use crate::process::processor::{unchanged, woken, Processor};

verus! {

/// Supervisor external interrupt enable, in the interrupt-enable register.
pub const SIE_SEIE: u64 = 0x200;

/// Physical address of the word of the interrupt controller that enables
/// sources for supervisor mode on the first hart.
pub const PLIC_S_MODE_ENABLES: u64 = 0x0c00_2080;

/// Number of the serial port among the sources of the interrupt controller.
pub const PLIC_SERIAL: u32 = 0xa;

/// Physical address of the serial port.
pub const UART16550: u64 = 0x1000_0000;

/// The control registers of the hart that the kernel reads and writes.
#[derive(Clone, Copy, Debug, PartialEq, Eq, Structural)]
pub struct Hart {
    pub sstatus: u64,
    pub sscratch: u64,
    pub stvec: u64,
    pub sie: u64,
    pub satp: u64,
}

impl Hart {
    /// Interrupts are enabled in supervisor mode.
    pub open spec fn interrupts_on(&self) -> bool {
        self.sstatus & SSTATUS_SIE != 0
    }

    /// Whether interrupts are enabled in supervisor mode.
    pub fn interrupts_enabled(&self) -> (r: bool)
        ensures
            r == self.interrupts_on(),
    {
        self.sstatus & SSTATUS_SIE != 0
    }
}

/// A store to a device register that the kernel asks for.
#[derive(Clone, Copy, Debug, PartialEq, Eq, Structural)]
pub struct MmioWrite {
    /// Kernel virtual address of the register.
    pub addr: u64,
    /// Value to store.
    pub value: u32,
    /// Width of the store, in bytes.
    pub width: u8,
}

/// The hart after interrupts were disabled.
pub open spec fn disabled(h: Hart) -> Hart {
    Hart { sstatus: h.sstatus & !SSTATUS_SIE, ..h }
}

/// The hart after the status register was written back.
pub open spec fn restored(h: Hart, flags: u64) -> Hart {
    Hart { sstatus: flags, ..h }
}

/// The hart after interrupts were enabled.
pub open spec fn enabled(h: Hart) -> Hart {
    Hart { sstatus: h.sstatus | SSTATUS_SIE, ..h }
}

/// Disables interrupts and returns the status register as it was.
pub fn disable_and_store(hart: &mut Hart) -> (flags: u64)
    ensures
        flags == old(hart).sstatus,
        *final(hart) == disabled(*old(hart)),
        !final(hart).interrupts_on(),
{
    let flags = hart.sstatus;
    hart.sstatus = flags & !SSTATUS_SIE;
    proof {
        assert((flags & !0x2u64) & 0x2u64 == 0) by (bit_vector);
    }
    flags
}

/// Writes the status register back.
pub fn restore(hart: &mut Hart, flags: u64)
    ensures
        *final(hart) == restored(*old(hart), flags),
{
    hart.sstatus = flags;
}

/// Enables interrupts; the hart then waits for the next one.
pub fn enable_and_wfi(hart: &mut Hart)
    ensures
        *final(hart) == enabled(*old(hart)),
        final(hart).interrupts_on(),
{
    let flags = hart.sstatus;
    hart.sstatus = flags | SSTATUS_SIE;
    proof {
        assert((flags | 0x2u64) & 0x2u64 != 0) by (bit_vector);
    }
}

/// Disabling interrupts and then writing back the status register that the
/// disabling returned leaves every bit of the status register, and the rest
/// of the hart, as it was.
pub proof fn lemma_disable_restore(h: Hart)
    ensures
        restored(disabled(h), h.sstatus) == h,
        disabled(h).sstatus & SSTATUS_SIE == 0,
{
    let s = h.sstatus;
    assert((s & !0x2u64) & 0x2u64 == 0) by (bit_vector);
}

/// The store that lets the interrupt controller pass the serial port on to
/// supervisor mode.
pub fn init_external_interrupt() -> (w: MmioWrite)
    ensures
        w == (MmioWrite {
            addr: (PLIC_S_MODE_ENABLES + PHYSICAL_MEMORY_OFFSET) as u64,
            value: 0x400,
            width: 4,
        }),
{
    proof {
        assert(1u32 << 0xau32 == 0x400u32) by (bit_vector);
    }
    MmioWrite { addr: PLIC_S_MODE_ENABLES + PHYSICAL_MEMORY_OFFSET, value: 1u32 << PLIC_SERIAL, width: 4 }
}

/// The two stores that make the serial port raise an interrupt when it has
/// received a byte.
pub fn enable_serial_interrupt() -> (w: (MmioWrite, MmioWrite))
    ensures
        w.0 == (MmioWrite {
            addr: (UART16550 + PHYSICAL_MEMORY_OFFSET + 4) as u64,
            value: 0x0B,
            width: 1,
        }),
        w.1 == (MmioWrite {
            addr: (UART16550 + PHYSICAL_MEMORY_OFFSET + 1) as u64,
            value: 0x01,
            width: 1,
        }),
{
    let base = UART16550 + PHYSICAL_MEMORY_OFFSET;
    (
        MmioWrite { addr: base + 4, value: 0x0B, width: 1 },
        MmioWrite { addr: base + 1, value: 0x01, width: 1 },
    )
}

/// Sets the hart up for traps: the scratch register is zero, which marks
/// that the hart runs in the kernel; traps enter at `alltraps`, in direct
/// mode; interrupts are enabled, and external interrupts among them. Returns
/// the stores to device registers that have to follow.
pub fn init(hart: &mut Hart, alltraps: u64) -> (writes: Vec<MmioWrite>)
    requires
        alltraps % 4 == 0,
    ensures
        final(hart).sscratch == 0,
        final(hart).stvec == alltraps,
        final(hart).sstatus == old(hart).sstatus | SSTATUS_SIE,
        final(hart).interrupts_on(),
        final(hart).sie == old(hart).sie | SIE_SEIE,
        final(hart).satp == old(hart).satp,
        writes@ == seq![
            MmioWrite {
                addr: (PLIC_S_MODE_ENABLES + PHYSICAL_MEMORY_OFFSET) as u64,
                value: 0x400,
                width: 4,
            },
            MmioWrite {
                addr: (UART16550 + PHYSICAL_MEMORY_OFFSET + 4) as u64,
                value: 0x0B,
                width: 1,
            },
            MmioWrite {
                addr: (UART16550 + PHYSICAL_MEMORY_OFFSET + 1) as u64,
                value: 0x01,
                width: 1,
            },
        ],
{
    hart.sscratch = 0;
    hart.stvec = alltraps;
    let flags = hart.sstatus;
    hart.sstatus = flags | SSTATUS_SIE;
    hart.sie = hart.sie | SIE_SEIE;
    proof {
        assert((flags | 0x2u64) & 0x2u64 != 0) by (bit_vector);
    }
    let mut writes: Vec<MmioWrite> = Vec::new();
    writes.push(init_external_interrupt());
    let serial = enable_serial_interrupt();
    writes.push(serial.0);
    writes.push(serial.1);
    proof {
        assert(writes@ =~= seq![
            MmioWrite {
                addr: (PLIC_S_MODE_ENABLES + PHYSICAL_MEMORY_OFFSET) as u64,
                value: 0x400,
                width: 4,
            },
            MmioWrite {
                addr: (UART16550 + PHYSICAL_MEMORY_OFFSET + 4) as u64,
                value: 0x0B,
                width: 1,
            },
            MmioWrite {
                addr: (UART16550 + PHYSICAL_MEMORY_OFFSET + 1) as u64,
                value: 0x01,
                width: 1,
            },
        ]);
    }
    writes
}

/// Why the hart has trapped.
#[derive(Clone, Copy, Debug, PartialEq, Eq, Structural)]
pub enum TrapCause {
    Breakpoint,
    SupervisorTimer,
    SupervisorExternal,
    UserEnvCall,
    InstructionPageFault,
    LoadPageFault,
    StorePageFault,
    /// Any other interrupt or exception.
    Other,
}

/// The cause that the cause register `bits` stands for: the top bit tells an
/// interrupt from an exception, the bits below are its number.
pub open spec fn trap_cause_of(bits: u64) -> TrapCause {
    if bits >= 0x8000_0000_0000_0000 {
        let code = bits - 0x8000_0000_0000_0000;
        if code == 5 {
            TrapCause::SupervisorTimer
        } else if code == 9 {
            TrapCause::SupervisorExternal
        } else {
            TrapCause::Other
        }
    } else {
        if bits == 3 {
            TrapCause::Breakpoint
        } else if bits == 8 {
            TrapCause::UserEnvCall
        } else if bits == 12 {
            TrapCause::InstructionPageFault
        } else if bits == 13 {
            TrapCause::LoadPageFault
        } else if bits == 15 {
            TrapCause::StorePageFault
        } else {
            TrapCause::Other
        }
    }
}

/// What the cause register holds: an interrupt or an exception, and its
/// number.
#[derive(Clone, Copy, Debug, PartialEq, Eq, Structural)]
enum RawCause {
    Interrupt(u64),
    Exception(u64),
}

/// The interrupts of supervisor mode.
#[derive(Clone, Copy, Debug, PartialEq, Eq, Structural)]
enum InterruptName {
    SupervisorSoft,
    SupervisorTimer,
    SupervisorExternal,
}

/// The exceptions of supervisor mode.
#[derive(Clone, Copy, Debug, PartialEq, Eq, Structural)]
enum ExceptionName {
    InstructionMisaligned,
    InstructionFault,
    IllegalInstruction,
    Breakpoint,
    LoadMisaligned,
    LoadFault,
    StoreMisaligned,
    StoreFault,
    UserEnvCall,
    SupervisorEnvCall,
    InstructionPageFault,
    LoadPageFault,
    StorePageFault,
}

/// The top bit of the cause register tells an interrupt from an exception;
/// the bits below it are the number.
spec fn raw_cause_of(bits: u64) -> RawCause {
    if bits >= 0x8000_0000_0000_0000 {
        RawCause::Interrupt((bits - 0x8000_0000_0000_0000) as u64)
    } else {
        RawCause::Exception(bits)
    }
}

/// The interrupt with the number `code`, if there is one.
spec fn interrupt_named(code: u64) -> Option<InterruptName> {
    if code == 1 {
        Some(InterruptName::SupervisorSoft)
    } else if code == 5 {
        Some(InterruptName::SupervisorTimer)
    } else if code == 9 {
        Some(InterruptName::SupervisorExternal)
    } else {
        None
    }
}

/// The exception with the number `code`, if there is one.
spec fn exception_named(code: u64) -> Option<ExceptionName> {
    if code == 0 {
        Some(ExceptionName::InstructionMisaligned)
    } else if code == 1 {
        Some(ExceptionName::InstructionFault)
    } else if code == 2 {
        Some(ExceptionName::IllegalInstruction)
    } else if code == 3 {
        Some(ExceptionName::Breakpoint)
    } else if code == 4 {
        Some(ExceptionName::LoadMisaligned)
    } else if code == 5 {
        Some(ExceptionName::LoadFault)
    } else if code == 6 {
        Some(ExceptionName::StoreMisaligned)
    } else if code == 7 {
        Some(ExceptionName::StoreFault)
    } else if code == 8 {
        Some(ExceptionName::UserEnvCall)
    } else if code == 9 {
        Some(ExceptionName::SupervisorEnvCall)
    } else if code == 12 {
        Some(ExceptionName::InstructionPageFault)
    } else if code == 13 {
        Some(ExceptionName::LoadPageFault)
    } else if code == 15 {
        Some(ExceptionName::StorePageFault)
    } else {
        None
    }
}

/// `Scause::cause` of the riscv crate, on a value made with
/// `Scause::from_bits`: an interrupt where bit 63 of `bits` is set, else an
/// exception, with the bits below bit 63 as its number.
#[verifier::external_body]
fn scause_cause(bits: u64) -> (r: RawCause)
    ensures
        r == raw_cause_of(bits),
{
    match Scause::from_bits(bits as usize).cause() {
        Trap::Interrupt(code) => RawCause::Interrupt(code as u64),
        Trap::Exception(code) => RawCause::Exception(code as u64),
    }
}

/// `from_number` of the riscv crate's supervisor `Interrupt`: the crate
/// knows the numbers 1, 5 and 9 and refuses every other.
#[verifier::external_body]
fn interrupt_of(code: u64) -> (r: Option<InterruptName>)
    ensures
        r == interrupt_named(code),
{
    Some(match Interrupt::from_number(code as usize).ok()? {
        Interrupt::SupervisorSoft => InterruptName::SupervisorSoft,
        Interrupt::SupervisorTimer => InterruptName::SupervisorTimer,
        Interrupt::SupervisorExternal => InterruptName::SupervisorExternal,
    })
}

/// `from_number` of the riscv crate's supervisor `Exception`: the crate
/// knows the numbers 0 to 9, 12, 13 and 15 and refuses every other.
#[verifier::external_body]
fn exception_of(code: u64) -> (r: Option<ExceptionName>)
    ensures
        r == exception_named(code),
{
    Some(match Exception::from_number(code as usize).ok()? {
        Exception::InstructionMisaligned => ExceptionName::InstructionMisaligned,
        Exception::InstructionFault => ExceptionName::InstructionFault,
        Exception::IllegalInstruction => ExceptionName::IllegalInstruction,
        Exception::Breakpoint => ExceptionName::Breakpoint,
        Exception::LoadMisaligned => ExceptionName::LoadMisaligned,
        Exception::LoadFault => ExceptionName::LoadFault,
        Exception::StoreMisaligned => ExceptionName::StoreMisaligned,
        Exception::StoreFault => ExceptionName::StoreFault,
        Exception::UserEnvCall => ExceptionName::UserEnvCall,
        Exception::SupervisorEnvCall => ExceptionName::SupervisorEnvCall,
        Exception::InstructionPageFault => ExceptionName::InstructionPageFault,
        Exception::LoadPageFault => ExceptionName::LoadPageFault,
        Exception::StorePageFault => ExceptionName::StorePageFault,
    })
}

/// The program counter `n` bytes behind `pc`; addresses wrap around.
pub open spec fn advanced(pc: u64, n: u64) -> u64 {
    if pc + n <= u64::MAX {
        (pc + n) as u64
    } else {
        (pc + n - 0x1_0000_0000_0000_0000) as u64
    }
}

fn advance(pc: u64, n: u64) -> (r: u64)
    ensures
        r == advanced(pc, n),
{
    if pc <= u64::MAX - n {
        pc + n
    } else {
        pc - (u64::MAX - n) - 1
    }
}

impl TrapCause {
    /// The cause is a page fault.
    pub open spec fn is_page_fault(&self) -> bool {
        *self == TrapCause::InstructionPageFault || *self == TrapCause::LoadPageFault || *self
            == TrapCause::StorePageFault
    }

    /// The kernel does not go on after a trap with this cause: a page fault,
    /// or a cause that it does not handle.
    pub open spec fn is_fatal(&self) -> bool {
        self.is_page_fault() || *self == TrapCause::Other
    }

    /// Whether the cause is a page fault.
    pub fn page_fault(&self) -> (r: bool)
        ensures
            r == self.is_page_fault(),
    {
        match self {
            TrapCause::InstructionPageFault => true,
            TrapCause::LoadPageFault => true,
            TrapCause::StorePageFault => true,
            _ => false,
        }
    }

    /// Whether the kernel does not go on after a trap with this cause.
    pub fn fatal(&self) -> (r: bool)
        ensures
            r == self.is_fatal(),
    {
        match self {
            TrapCause::InstructionPageFault => true,
            TrapCause::LoadPageFault => true,
            TrapCause::StorePageFault => true,
            TrapCause::Other => true,
            _ => false,
        }
    }
}

/// The cause of the trap saved in `tf`.
pub fn trap_cause(tf: &TrapFrame) -> (cause: TrapCause)
    ensures
        cause == trap_cause_of(tf.scause),
{
    match scause_cause(tf.scause) {
        RawCause::Interrupt(code) => match interrupt_of(code) {
            Some(InterruptName::SupervisorTimer) => TrapCause::SupervisorTimer,
            Some(InterruptName::SupervisorExternal) => TrapCause::SupervisorExternal,
            _ => TrapCause::Other,
        },
        RawCause::Exception(code) => match exception_of(code) {
            Some(ExceptionName::Breakpoint) => TrapCause::Breakpoint,
            Some(ExceptionName::UserEnvCall) => TrapCause::UserEnvCall,
            Some(ExceptionName::InstructionPageFault) => TrapCause::InstructionPageFault,
            Some(ExceptionName::LoadPageFault) => TrapCause::LoadPageFault,
            Some(ExceptionName::StorePageFault) => TrapCause::StorePageFault,
            _ => TrapCause::Other,
        },
    }
}

/// What the kernel has to do about a trap after the trap frame was brought up
/// to date.
#[derive(Clone, Copy, Debug, PartialEq, Eq, Structural)]
pub enum TrapEvent {
    /// A breakpoint; the thread goes on behind it.
    Breakpoint,
    /// The timer has fired.
    Timer,
    /// A device asks for service.
    External,
    /// A system call, with what the registers a7, a0, a1 and a2 held.
    Syscall { id: u64, a0: u64, a1: u64, a2: u64 },
}

/// What the kernel reports about a page fault before it stops.
#[derive(Clone, Copy, Debug, PartialEq, Eq, Structural)]
pub struct PageFault {
    pub cause: TrapCause,
    /// The address that faulted.
    pub stval: u64,
    /// The program counter of the instruction that faulted.
    pub sepc: u64,
}

/// The event that the trap in `tf` stands for; `None` for a trap after which
/// the kernel does not go on.
pub open spec fn trap_event_of(tf: &TrapFrame) -> Option<TrapEvent> {
    match trap_cause_of(tf.scause) {
        TrapCause::Breakpoint => Some(TrapEvent::Breakpoint),
        TrapCause::SupervisorTimer => Some(TrapEvent::Timer),
        TrapCause::SupervisorExternal => Some(TrapEvent::External),
        TrapCause::UserEnvCall => Some(
            TrapEvent::Syscall { id: tf.x@[17], a0: tf.x@[10], a1: tf.x@[11], a2: tf.x@[12] },
        ),
        _ => None,
    }
}

/// Number of bytes by which the program counter of the trap moves on: behind
/// the two bytes of a breakpoint, behind the four of a system call, and not
/// at all otherwise.
pub open spec fn trap_step(cause: TrapCause) -> u64 {
    match cause {
        TrapCause::Breakpoint => 2,
        TrapCause::UserEnvCall => 4,
        _ => 0,
    }
}

/// Decodes the trap saved in `tf` and moves its program counter on where
/// the thread is to go on behind the instruction that trapped. The trap is
/// one that the kernel handles: `trap_cause` and `TrapCause::fatal` tell.
pub fn rust_trap(tf: &mut TrapFrame) -> (event: TrapEvent)
    requires
        !trap_cause_of(old(tf).scause).is_fatal(),
    ensures
        Some(event) == trap_event_of(old(tf)),
        final(tf).sepc == advanced(old(tf).sepc, trap_step(trap_cause_of(old(tf).scause))),
        final(tf).x == old(tf).x,
        final(tf).sstatus == old(tf).sstatus,
        final(tf).stval == old(tf).stval,
        final(tf).scause == old(tf).scause,
{
    match trap_cause(tf) {
        TrapCause::Breakpoint => {
            breakpoint(&mut tf.sepc);
            TrapEvent::Breakpoint
        },
        TrapCause::SupervisorTimer => TrapEvent::Timer,
        TrapCause::SupervisorExternal => TrapEvent::External,
        TrapCause::UserEnvCall => {
            let event = TrapEvent::Syscall { id: tf.x[17], a0: tf.x[10], a1: tf.x[11], a2: tf.x[12] };
            tf.sepc = advance(tf.sepc, 4);
            event
        },
        _ => vstd::pervasive::unreached(),
    }
}

/// Moves the program counter behind a breakpoint.
pub fn breakpoint(sepc: &mut u64)
    ensures
        *final(sepc) == advanced(*old(sepc), 2),
{
    *sepc = advance(*sepc, 2);
}

/// The report of the page fault saved in `tf`: its cause, the address that
/// faulted and the program counter.
pub fn page_fault(tf: &TrapFrame) -> (report: PageFault)
    requires
        trap_cause_of(tf.scause).is_page_fault(),
    ensures
        report == (PageFault {
            cause: trap_cause_of(tf.scause),
            stval: tf.stval,
            sepc: tf.sepc,
        }),
{
    PageFault { cause: trap_cause(tf), stval: tf.stval, sepc: tf.sepc }
}

/// Puts the result of a system call where the thread finds it: in the
/// register a0 of its trap frame.
pub fn syscall_return(tf: &mut TrapFrame, ret: isize)
    ensures
        final(tf).x@ == old(tf).x@.update(10, ret as u64),
        final(tf).sepc == old(tf).sepc,
        final(tf).sstatus == old(tf).sstatus,
        final(tf).stval == old(tf).stval,
        final(tf).scause == old(tf).scause,
{
    tf.x[10] = ret as u64;
}

/// The character that joins the standard input when the firmware has read
/// the value `raw` from the console: a carriage return counts as a line
/// feed; `None` when nothing was typed.
pub open spec fn typed_char(raw: usize) -> Option<char> {
    if raw == usize::MAX {
        None
    } else if char_of_byte((raw % 256) as u8) == '\r' {
        Some('\n')
    } else {
        Some(char_of_byte((raw % 256) as u8))
    }
}

/// What the serial port's asking for service comes to when the firmware has
/// read `raw`: the character typed joins the standard input, and the thread
/// that has waited longest for one is made ready.
pub open spec fn serial_served(
    stdin0: &Stdin,
    cpu0: &Processor,
    stdin1: &Stdin,
    cpu1: &Processor,
    raw: usize,
) -> bool {
    match typed_char(raw) {
        Some(ch) => {
            &&& stdin1.chars() == stdin0.chars().push(ch)
            &&& stdin0.waiting().len() == 0 ==> stdin1.waiting() == stdin0.waiting() && unchanged(
                cpu0,
                cpu1,
            )
            &&& stdin0.waiting().len() > 0 ==> stdin1.waiting() == stdin0.waiting().skip(1)
                && woken(cpu0, cpu1, stdin0.waiting()[0])
        },
        None => {
            &&& stdin1.chars() == stdin0.chars()
            &&& stdin1.waiting() == stdin0.waiting()
            &&& unchanged(cpu0, cpu1)
        },
    }
}

/// The serial port asks for service: the character that the firmware has
/// read, `raw`, joins the standard input, and the thread that has waited
/// longest for one is made ready. Returns whether a character was there.
pub fn try_serial(stdin: &mut Stdin, cpu: &mut Processor, raw: usize) -> (got: bool)
    requires
        old(cpu).wf(),
        old(stdin).head_in_slot(old(cpu)),
    ensures
        final(cpu).wf(),
        got == (typed_char(raw) is Some),
        serial_served(old(stdin), old(cpu), final(stdin), final(cpu), raw),
{
    match getchar_option(raw) {
        Some(ch) => {
            if ch == '\r' {
                stdin.push('\n', cpu);
            } else {
                stdin.push(ch, cpu);
            }
            true
        },
        None => false,
    }
}

/// A device asks for service: the kernel serves the serial port.
pub fn external(stdin: &mut Stdin, cpu: &mut Processor, raw: usize)
    requires
        old(cpu).wf(),
        old(stdin).head_in_slot(old(cpu)),
    ensures
        final(cpu).wf(),
        serial_served(old(stdin), old(cpu), final(stdin), final(cpu), raw),
{
    let _ = try_serial(stdin, cpu, raw);
}

} // verus!
