use vstd::prelude::*;
use riscv::register::sstatus::{Sstatus, SPP};
use crate::process::structs::KernelStack;

verus! {

/// The bits of the supervisor status register that are defined; the others
/// read as zero.
pub const SSTATUS_MASK: u64 = 0x8000_0003_000d_e762;

/// Supervisor interrupt enable.
pub const SSTATUS_SIE: u64 = 0x2;

/// Supervisor previous interrupt enable.
pub const SSTATUS_SPIE: u64 = 0x20;

/// Supervisor previous privilege: set when the trap came from supervisor
/// mode.
pub const SSTATUS_SPP: u64 = 0x100;

/// Size of a context block on a kernel stack, in bytes: fourteen words of the
/// switch primitive and the thirty-six words of a trap frame.
pub const CONTEXT_CONTENT_SIZE: u64 = 400;

/// `bits` with the bits of `mask` set where `on` holds, cleared where not.
pub open spec fn with_bits(bits: u64, mask: u64, on: bool) -> u64 {
    if on {
        (bits & !mask) | mask
    } else {
        bits & !mask
    }
}

/// A status register value with one field written: the defined bits of
/// `bits`, with the bits of `mask` set or cleared.
pub open spec fn sstatus_with(bits: u64, mask: u64, on: bool) -> u64 {
    with_bits(bits & SSTATUS_MASK, mask, on)
}

/// `Sstatus::set_spp` of the riscv crate, on a value made with
/// `Sstatus::from_bits` and read back with `Sstatus::bits`: the undefined bits
/// of `bits` are dropped and bit 8 is written, to 1 for supervisor mode and
/// to 0 for user mode.
#[verifier::external_body]
fn sstatus_set_spp(bits: u64, supervisor: bool) -> (r: u64)
    ensures
        r == sstatus_with(bits, SSTATUS_SPP, supervisor),
{
    let mut s = Sstatus::from_bits(bits as usize);
    s.set_spp(
        match supervisor {
            true => SPP::Supervisor,
            false => SPP::User,
        },
    );
    s.bits() as u64
}

/// `Sstatus::set_spie` of the riscv crate, on a value made with
/// `Sstatus::from_bits` and read back with `Sstatus::bits`: the undefined bits
/// of `bits` are dropped and bit 5 is written.
#[verifier::external_body]
fn sstatus_set_spie(bits: u64, on: bool) -> (r: u64)
    ensures
        r == sstatus_with(bits, SSTATUS_SPIE, on),
{
    let mut s = Sstatus::from_bits(bits as usize);
    s.set_spie(on);
    s.bits() as u64
}

/// `Sstatus::set_sie` of the riscv crate, on a value made with
/// `Sstatus::from_bits` and read back with `Sstatus::bits`: the undefined bits
/// of `bits` are dropped and bit 1 is written.
#[verifier::external_body]
fn sstatus_set_sie(bits: u64, on: bool) -> (r: u64)
    ensures
        r == sstatus_with(bits, SSTATUS_SIE, on),
{
    let mut s = Sstatus::from_bits(bits as usize);
    s.set_sie(on);
    s.bits() as u64
}

/// The status register value that a new thread starts from: the defined bits
/// of `bits`, with the previous privilege as asked, interrupts enabled after
/// the return from the trap, and disabled until then.
pub open spec fn initial_sstatus(bits: u64, supervisor: bool) -> u64 {
    sstatus_with(
        sstatus_with(sstatus_with(bits, SSTATUS_SPP, supervisor), SSTATUS_SPIE, true),
        SSTATUS_SIE,
        false,
    )
}

/// The status register value for the first run of a new thread.
pub fn first_sstatus(bits: u64, supervisor: bool) -> (r: u64)
    ensures
        r == initial_sstatus(bits, supervisor),
        r & SSTATUS_SIE == 0,
        r & SSTATUS_SPIE != 0,
        (r & SSTATUS_SPP != 0) == supervisor,
{
    let a = sstatus_set_spp(bits, supervisor);
    let b = sstatus_set_spie(a, true);
    let c = sstatus_set_sie(b, false);
    proof {
        lemma_initial_sstatus(bits, supervisor);
    }
    c
}

/// The status register value of a new thread has interrupts off, has them on
/// after the return from the trap, and returns to the privilege asked for.
pub proof fn lemma_initial_sstatus(bits: u64, supervisor: bool)
    ensures
        initial_sstatus(bits, supervisor) & SSTATUS_SIE == 0,
        initial_sstatus(bits, supervisor) & SSTATUS_SPIE != 0,
        (initial_sstatus(bits, supervisor) & SSTATUS_SPP != 0) == supervisor,
{
    let m = SSTATUS_MASK;
    assert({
        let a = if supervisor {
            ((bits & m) & !0x100u64) | 0x100u64
        } else {
            (bits & m) & !0x100u64
        };
        let b = ((a & m) & !0x20u64) | 0x20u64;
        let c = (b & m) & !0x2u64;
        &&& c & 0x2 == 0
        &&& c & 0x20 != 0
        &&& (c & 0x100 != 0) == supervisor
    }) by (bit_vector)
        requires
            m == 0x8000_0003_000d_e762u64,
    ;
}

/// The state that a trap saves: the general registers, then the status
/// register, the program counter of the trap, the trap value and the cause.
pub struct TrapFrame {
    pub x: [u64; 32],
    pub sstatus: u64,
    pub sepc: u64,
    pub stval: u64,
    pub scause: u64,
}

/// What a thread leaves on its kernel stack when it is switched away from:
/// the return address, the address-translation register and the twelve
/// callee-saved registers, and above them a trap frame.
pub struct ContextContent {
    pub ra: u64,
    pub satp: u64,
    pub s: [u64; 12],
    pub tf: TrapFrame,
}

/// The block with which a thread starts: switching to it returns into the
/// trap-return code at `trapret`, which restores the trap frame and so enters
/// `entry` with stack pointer `sp`, in supervisor or user mode.
pub open spec fn initial_content(
    c: &ContextContent,
    entry: u64,
    sp: u64,
    satp: u64,
    trapret: u64,
    sstatus: u64,
    supervisor: bool,
) -> bool {
    &&& c.ra == trapret
    &&& c.satp == satp
    &&& c.s@ == Seq::new(12, |i: int| 0u64)
    &&& c.tf.x@ == Seq::new(
        32,
        |i: int|
            if i == 2 {
                sp
            } else {
                0u64
            },
    )
    &&& c.tf.sepc == entry
    &&& c.tf.sstatus == initial_sstatus(sstatus, supervisor)
    &&& c.tf.stval == 0
    &&& c.tf.scause == 0
}

/// Where a thread is when the switch primitive has returned into the
/// trap-return code and that code has restored the trap frame of the block.
pub struct Entry {
    pub pc: u64,
    pub sp: u64,
    pub a0: u64,
    pub a1: u64,
    pub a2: u64,
    pub satp: u64,
    pub supervisor: bool,
    pub interrupts: bool,
}

/// The state in which the thread of block `c` runs first, where the block
/// returns into the trap-return code at `trapret`.
pub open spec fn first_entry(c: &ContextContent) -> Entry {
    Entry {
        pc: c.tf.sepc,
        sp: c.tf.x@[2],
        a0: c.tf.x@[10],
        a1: c.tf.x@[11],
        a2: c.tf.x@[12],
        satp: c.satp,
        supervisor: c.tf.sstatus & SSTATUS_SPP != 0,
        interrupts: c.tf.sstatus & SSTATUS_SPIE != 0,
    }
}

/// The words of a block as they lie in memory, from the lowest address: the
/// return address, the address-translation register, the registers s0 to
/// s11, the registers x0 to x31, and the status register, the program
/// counter, the trap value and the cause of the trap frame.
pub open spec fn context_words(c: &ContextContent) -> Seq<u64> {
    seq![c.ra, c.satp] + c.s@ + c.tf.x@ + seq![c.tf.sstatus, c.tf.sepc, c.tf.stval, c.tf.scause]
}

impl ContextContent {
    /// The block of a new kernel thread that starts at `entry` on the stack
    /// that ends at `kstack_top`, in the address space `satp`. `trapret` is
    /// the address of the trap-return code, `sstatus` the status register as
    /// it is now.
    pub fn new_kernel_thread(
        entry: u64,
        kstack_top: u64,
        satp: u64,
        trapret: u64,
        sstatus: u64,
    ) -> (c: ContextContent)
        ensures
            initial_content(&c, entry, kstack_top, satp, trapret, sstatus, true),
    {
        let mut x: [u64; 32] = [0u64; 32];
        x[2] = kstack_top;
        let tf = TrapFrame {
            x,
            sstatus: first_sstatus(sstatus, true),
            sepc: entry,
            stval: 0,
            scause: 0,
        };
        let c = ContextContent { ra: trapret, satp, s: [0u64; 12], tf };
        proof {
            assert(c.s@ =~= Seq::new(12, |i: int| 0u64));
            assert(c.tf.x@ =~= Seq::new(
                32,
                |i: int|
                    if i == 2 {
                        kstack_top
                    } else {
                        0u64
                    },
            ));
        }
        c
    }

    /// The block of a new user thread that starts at `entry` with the user
    /// stack that ends at `ustack_top`, in the address space `satp`.
    pub fn new_user_thread(
        entry: u64,
        ustack_top: u64,
        satp: u64,
        trapret: u64,
        sstatus: u64,
    ) -> (c: ContextContent)
        ensures
            initial_content(&c, entry, ustack_top, satp, trapret, sstatus, false),
    {
        let mut x: [u64; 32] = [0u64; 32];
        x[2] = ustack_top;
        let tf = TrapFrame {
            x,
            sstatus: first_sstatus(sstatus, false),
            sepc: entry,
            stval: 0,
            scause: 0,
        };
        let c = ContextContent { ra: trapret, satp, s: [0u64; 12], tf };
        proof {
            assert(c.s@ =~= Seq::new(12, |i: int| 0u64));
            assert(c.tf.x@ =~= Seq::new(
                32,
                |i: int|
                    if i == 2 {
                        ustack_top
                    } else {
                        0u64
                    },
            ));
        }
        c
    }

    /// The block as the switch primitive and the trap-return code find it in
    /// memory, word by word from the lowest address.
    pub fn to_words(&self) -> (w: Vec<u64>)
        ensures
            w@ == context_words(self),
            w@.len() * 8 == CONTEXT_CONTENT_SIZE,
    {
        let mut w: Vec<u64> = Vec::new();
        w.push(self.ra);
        w.push(self.satp);
        let mut i: usize = 0;
        while i < 12
            invariant
                i <= 12,
                w@.len() == 2 + i,
                w@[0] == self.ra,
                w@[1] == self.satp,
                forall|k: int| 0 <= k < i ==> w@[2 + k] == self.s@[k],
            decreases 12 - i,
        {
            w.push(self.s[i]);
            i = i + 1;
        }
        let mut j: usize = 0;
        while j < 32
            invariant
                j <= 32,
                w@.len() == 14 + j,
                w@[0] == self.ra,
                w@[1] == self.satp,
                forall|k: int| 0 <= k < 12 ==> w@[2 + k] == self.s@[k],
                forall|k: int| 0 <= k < j ==> w@[14 + k] == self.tf.x@[k],
            decreases 32 - j,
        {
            w.push(self.tf.x[j]);
            j = j + 1;
        }
        w.push(self.tf.sstatus);
        w.push(self.tf.sepc);
        w.push(self.tf.stval);
        w.push(self.tf.scause);
        proof {
            assert(w@ =~= context_words(self));
        }
        w
    }

    /// Puts the block at the top of the kernel stack `stack` and returns the
    /// context that names it.
    pub fn push_at(self, stack: &mut KernelStack) -> (ctx: Context)
        requires
            old(stack).wf(),
            !old(stack).is_empty(),
        ensures
            final(stack).wf(),
            final(stack).bottom() == old(stack).bottom(),
            final(stack).content() == Some(self),
            ctx.content_addr == old(stack).top_addr() - CONTEXT_CONTENT_SIZE,
    {
        let addr = stack.top() - CONTEXT_CONTENT_SIZE;
        stack.store(self);
        Context { content_addr: addr }
    }
}

/// The saved state of a thread, named by the address of its block on the
/// kernel stack of the thread.
#[derive(Clone, Copy, Debug, PartialEq, Eq, Structural)]
pub struct Context {
    pub content_addr: u64,
}

impl Context {
    /// The context of the boot thread: no block yet.
    pub fn null() -> (c: Context)
        ensures
            c.content_addr == 0,
    {
        Context { content_addr: 0 }
    }

    /// The context of a new kernel thread, with its block at the top of
    /// `kstack`.
    pub fn new_kernel_thread(
        entry: u64,
        kstack: &mut KernelStack,
        satp: u64,
        trapret: u64,
        sstatus: u64,
    ) -> (ctx: Context)
        requires
            old(kstack).wf(),
            !old(kstack).is_empty(),
        ensures
            final(kstack).wf(),
            final(kstack).bottom() == old(kstack).bottom(),
            ctx.content_addr == old(kstack).top_addr() - CONTEXT_CONTENT_SIZE,
            final(kstack).content() matches Some(c) && initial_content(
                &c,
                entry,
                old(kstack).top_addr() as u64,
                satp,
                trapret,
                sstatus,
                true,
            ),
    {
        let top = kstack.top();
        ContextContent::new_kernel_thread(entry, top, satp, trapret, sstatus).push_at(kstack)
    }

    /// The context of a new user thread, with its block at the top of
    /// `kstack`.
    pub fn new_user_thread(
        entry: u64,
        ustack_top: u64,
        kstack: &mut KernelStack,
        satp: u64,
        trapret: u64,
        sstatus: u64,
    ) -> (ctx: Context)
        requires
            old(kstack).wf(),
            !old(kstack).is_empty(),
        ensures
            final(kstack).wf(),
            final(kstack).bottom() == old(kstack).bottom(),
            ctx.content_addr == old(kstack).top_addr() - CONTEXT_CONTENT_SIZE,
            final(kstack).content() matches Some(c) && initial_content(
                &c,
                entry,
                ustack_top,
                satp,
                trapret,
                sstatus,
                false,
            ),
    {
        ContextContent::new_user_thread(entry, ustack_top, satp, trapret, sstatus).push_at(kstack)
    }

    /// Writes `args` into the registers a0, a1 and a2 of the trap frame in
    /// the block on `kstack`, so that the thread finds them as its first
    /// three arguments.
    pub fn append_initial_arguments(&self, kstack: &mut KernelStack, args: [u64; 3])
        requires
            old(kstack).wf(),
            old(kstack).content() is Some,
        ensures
            final(kstack).wf(),
            final(kstack).bottom() == old(kstack).bottom(),
            final(kstack).content() matches Some(c) && with_arguments(
                &old(kstack).content().unwrap(),
                &c,
                args@,
            ),
    {
        let mut content = kstack.take().unwrap();
        content.tf.x[10] = args[0];
        content.tf.x[11] = args[1];
        content.tf.x[12] = args[2];
        kstack.store(content);
    }
}

/// Block `c1` is block `c0` with the registers a0, a1 and a2 of its trap frame
/// set to `args`.
pub open spec fn with_arguments(c0: &ContextContent, c1: &ContextContent, args: Seq<u64>) -> bool {
    &&& c1.ra == c0.ra
    &&& c1.satp == c0.satp
    &&& c1.s == c0.s
    &&& c1.tf.sstatus == c0.tf.sstatus
    &&& c1.tf.sepc == c0.tf.sepc
    &&& c1.tf.stval == c0.tf.stval
    &&& c1.tf.scause == c0.tf.scause
    &&& c1.tf.x@ == c0.tf.x@.update(10, args[0]).update(11, args[1]).update(12, args[2])
}

/// A new kernel thread first runs at its entry, in supervisor mode, with
/// interrupts enabled and the first three arguments zero.
pub proof fn lemma_kernel_thread_entry(
    c: ContextContent,
    entry: u64,
    kstack_top: u64,
    satp: u64,
    trapret: u64,
    sstatus: u64,
)
    requires
        initial_content(&c, entry, kstack_top, satp, trapret, sstatus, true),
    ensures
        c.ra == trapret,
        first_entry(&c) == (Entry {
            pc: entry,
            sp: kstack_top,
            a0: 0,
            a1: 0,
            a2: 0,
            satp,
            supervisor: true,
            interrupts: true,
        }),
        c.tf.sstatus & SSTATUS_SIE == 0,
{
    lemma_initial_sstatus(sstatus, true);
}

/// A new user thread first runs at its entry, in user mode, on its user
/// stack, with interrupts enabled.
pub proof fn lemma_user_thread_entry(
    c: ContextContent,
    entry: u64,
    ustack_top: u64,
    satp: u64,
    trapret: u64,
    sstatus: u64,
)
    requires
        initial_content(&c, entry, ustack_top, satp, trapret, sstatus, false),
    ensures
        c.ra == trapret,
        first_entry(&c) == (Entry {
            pc: entry,
            sp: ustack_top,
            a0: 0,
            a1: 0,
            a2: 0,
            satp,
            supervisor: false,
            interrupts: true,
        }),
        c.tf.sstatus & SSTATUS_SIE == 0,
{
    lemma_initial_sstatus(sstatus, false);
}

/// A thread whose initial arguments were set first runs with them in a0, a1
/// and a2, and otherwise as it would have.
pub proof fn lemma_arguments_entry(c0: ContextContent, c1: ContextContent, args: Seq<u64>)
    requires
        c0.tf.x@.len() == 32,
        args.len() == 3,
        with_arguments(&c0, &c1, args),
    ensures
        first_entry(&c1) == (Entry { a0: args[0], a1: args[1], a2: args[2], ..first_entry(&c0) }),
{
}

} // verus!
