use vstd::prelude::*;
use crate::consts::{KERNEL_STACK_SIZE, USER_STACK_OFFSET, USER_STACK_SIZE};
use crate::memory::frame_allocator::SegmentTreeAllocator;
use crate::memory::memory_set::handler::Backing;
use crate::memory::memory_set::area::MemoryArea;
use crate::memory::memory_set::attr::MemoryAttr;
use crate::memory::memory_set::{lemma_frames_needed_grows, KernelLayout, MemorySet};
use crate::memory::paging::satp_of;
use crate::memory::phys::PhysMemory;
use crate::process::elf::{
    area_loaded, image_fits, image_frames_needed, lemma_planned_prefix, loaded_areas,
    make_memory_set, plan_areas, planned_areas, push_planned, segment_area, stack_area, ElfError,
    ElfImage, ElfType,
};
use crate::context::{
    context_words, initial_content, with_arguments, Context, ContextContent, CONTEXT_CONTENT_SIZE,
};

verus! {

/// Identifier of a thread: its slot in the thread pool.
pub type Tid = usize;

/// Exit code of a thread.
pub type ExitCode = usize;

/// The kernel stack of a thread: a block of `KERNEL_STACK_SIZE` bytes,
/// aligned to its size, and the context block that lies at its top while the
/// thread does not run. The stack of the boot thread is the empty stack at
/// address 0.
pub struct KernelStack {
    bottom: u64,
    content: Option<ContextContent>,
}

impl KernelStack {
    /// Address of the lowest byte; 0 for the empty stack.
    pub closed spec fn bottom(&self) -> u64 {
        self.bottom
    }

    /// The context block at the top of the stack, if there is one.
    pub closed spec fn content(&self) -> Option<ContextContent> {
        self.content
    }

    /// This is the stack of the boot thread.
    pub open spec fn is_empty(&self) -> bool {
        self.bottom() == 0
    }

    /// Address behind the highest byte.
    pub open spec fn top_addr(&self) -> int {
        self.bottom() + KERNEL_STACK_SIZE
    }

    /// The stack is aligned to its size and ends within the address space;
    /// the empty stack holds no block.
    pub open spec fn wf(&self) -> bool {
        &&& self.bottom() % KERNEL_STACK_SIZE == 0
        &&& self.bottom() + KERNEL_STACK_SIZE <= u64::MAX
        &&& self.is_empty() ==> self.content() is None
    }

    /// The stack in the block of memory at `bottom`.
    pub fn new(bottom: u64) -> (s: Self)
        requires
            bottom != 0,
            bottom % KERNEL_STACK_SIZE == 0,
            bottom + KERNEL_STACK_SIZE <= u64::MAX,
        ensures
            s.wf(),
            s.bottom() == bottom,
            s.content() is None,
    {
        KernelStack { bottom, content: None }
    }

    /// The stack of the boot thread.
    pub fn new_empty() -> (s: Self)
        ensures
            s.wf(),
            s.is_empty(),
            s.content() is None,
    {
        KernelStack { bottom: 0, content: None }
    }

    /// Address behind the highest byte.
    pub fn top(&self) -> (t: u64)
        requires
            self.wf(),
        ensures
            t == self.top_addr(),
    {
        self.bottom + KERNEL_STACK_SIZE
    }

    /// Address of the lowest byte; 0 for the stack of the boot thread.
    pub fn base(&self) -> (b: u64)
        ensures
            b == self.bottom(),
    {
        self.bottom
    }

    /// The words of the context block at the top of the stack, as they lie
    /// in memory; `None` when the stack holds no block.
    pub fn content_words(&self) -> (w: Option<Vec<u64>>)
        ensures
            w is Some <==> self.content() is Some,
            w matches Some(v) ==> v@ == context_words(&self.content().unwrap()),
    {
        match &self.content {
            Some(c) => Some(c.to_words()),
            None => None,
        }
    }

    /// Puts `c` at the top of the stack.
    pub fn store(&mut self, c: ContextContent)
        requires
            old(self).wf(),
            !old(self).is_empty(),
        ensures
            final(self).wf(),
            final(self).bottom() == old(self).bottom(),
            final(self).content() == Some(c),
    {
        self.content = Some(c);
    }

    /// Takes the block at the top of the stack away.
    pub fn take(&mut self) -> (c: Option<ContextContent>)
        requires
            old(self).wf(),
        ensures
            final(self).wf(),
            final(self).bottom() == old(self).bottom(),
            final(self).content() is None,
            c == old(self).content(),
    {
        self.content.take()
    }

    /// Gives the stack up. Returns the address of the block of memory to
    /// free; `None` for the stack of the boot thread, which owns none.
    pub fn release(self) -> (r: Option<u64>)
        ensures
            r == (if self.is_empty() {
                None
            } else {
                Some(self.bottom())
            }),
    {
        if self.bottom != 0 {
            Some(self.bottom)
        } else {
            None
        }
    }
}

/// `thread` is a new user thread for the program `image`, and `vm` its
/// address space: the areas of the kernel, the segments of the program, each
/// in frames of its own that hold its bytes, and the user stack; every frame
/// that has left the allocator is held by the address space. The thread
/// starts at the entry of the program, on the user stack, in user mode, in
/// that address space.
#[verifier::opaque]
pub open spec fn user_thread_made(
    thread: &Thread,
    vm: &MemorySet,
    image: &ElfImage,
    wait: Option<Tid>,
    mem1: &PhysMemory,
    alloc0: &SegmentTreeAllocator,
    alloc1: &SegmentTreeAllocator,
    layout: KernelLayout,
    kstack_bottom: u64,
    trapret: u64,
    sstatus: u64,
) -> bool {
    &&& vm.wf(mem1, alloc1)
    &&& vm.areas() == planned_areas(image, layout)
    &&& vm.has_preamble(layout)
    &&& forall|j: int|
        0 <= j < image.segments@.len() && image.segments@[j].load ==> area_loaded(
            vm,
            mem1,
            segment_area(&#[trigger] image.segments@[j]),
            image.segments@[j].data@,
        )
    &&& alloc1.free_set().len() == alloc0.free_set().len() - image_frames_needed(image, layout)
    &&& vm.owned().union(alloc1.free_set()) == alloc0.free_set()
    &&& thread.wait == wait
    &&& thread.kstack.wf()
    &&& thread.kstack.bottom() == kstack_bottom
    &&& thread.context.content_addr == kstack_bottom + KERNEL_STACK_SIZE - CONTEXT_CONTENT_SIZE
    &&& thread.kstack.content() matches Some(c) && initial_content(
        &c,
        image.entry,
        (USER_STACK_OFFSET + USER_STACK_SIZE) as u64,
        satp_of(vm.table().root_ppn()) as u64,
        trapret,
        sstatus,
        false,
    )
}

/// A thread of the kernel: its saved state, its kernel stack, and the thread
/// that waits for it to exit, if one does.
pub struct Thread {
    pub context: Context,
    pub kstack: KernelStack,
    pub wait: Option<Tid>,
}

impl Thread {
    /// The thread that the hart runs when it enters the kernel: it has no
    /// saved state and no stack of its own.
    pub fn get_boot_thread() -> (t: Box<Thread>)
        ensures
            t.context.content_addr == 0,
            t.kstack.wf(),
            t.kstack.is_empty(),
            t.kstack.content() is None,
            t.wait is None,
    {
        Box::new(Thread { context: Context::null(), kstack: KernelStack::new_empty(), wait: None })
    }

    /// A kernel thread that starts at `entry`, on a stack in the block of
    /// memory at `kstack_bottom`, in the address space `satp` that the kernel
    /// runs in. `trapret` is the address of the trap-return code, `sstatus`
    /// the status register as it is now.
    pub fn new_kernel(
        entry: u64,
        kstack_bottom: u64,
        satp: u64,
        trapret: u64,
        sstatus: u64,
    ) -> (t: Box<Thread>)
        requires
            kstack_bottom != 0,
            kstack_bottom % KERNEL_STACK_SIZE == 0,
            kstack_bottom + KERNEL_STACK_SIZE <= u64::MAX,
        ensures
            t.kstack.wf(),
            t.kstack.bottom() == kstack_bottom,
            t.context.content_addr == kstack_bottom + KERNEL_STACK_SIZE - CONTEXT_CONTENT_SIZE,
            t.kstack.content() matches Some(c) && initial_content(
                &c,
                entry,
                (kstack_bottom + KERNEL_STACK_SIZE) as u64,
                satp,
                trapret,
                sstatus,
                true,
            ),
            t.wait is None,
    {
        let mut kstack = KernelStack::new(kstack_bottom);
        let context = Context::new_kernel_thread(entry, &mut kstack, satp, trapret, sstatus);
        Box::new(Thread { context, kstack, wait: None })
    }

    /// A user thread that runs the program `image` in an address space of its
    /// own, which is returned with it: the areas of the kernel, the segments
    /// of the program, and a user stack. The thread starts at the entry of
    /// the program, on the user stack, in user mode; its kernel stack lies in
    /// the block of memory at `kstack_bottom`, and `wait_thread` is the
    /// thread that waits for it to exit.
    pub fn new_user(
        image: &ElfImage,
        wait_thread: Option<Tid>,
        mem: &mut PhysMemory,
        alloc: &mut SegmentTreeAllocator,
        layout: &KernelLayout,
        kstack_bottom: u64,
        trapret: u64,
        sstatus: u64,
    ) -> (r: Result<(Box<Thread>, MemorySet), ElfError>)
        requires
            old(mem).wf(),
            old(alloc).wf(),
            forall|f: nat| old(alloc).is_free(f) ==> old(mem).contains(f),
            layout.wf(),
            kstack_bottom != 0,
            kstack_bottom % KERNEL_STACK_SIZE == 0,
            kstack_bottom + KERNEL_STACK_SIZE <= u64::MAX,
            image.kind == ElfType::Executable && image_fits(image, *layout) ==> old(alloc).free_set().len()
                >= image_frames_needed(image, *layout),
        ensures
            final(alloc).wf(),
            final(alloc).lo() == old(alloc).lo(),
            final(alloc).hi() == old(alloc).hi(),
            r == Err::<(Box<Thread>, MemorySet), ElfError>(ElfError::NotExecutable) <==> image.kind
                != ElfType::Executable,
            r == Err::<(Box<Thread>, MemorySet), ElfError>(ElfError::BadSegment) <==> (image.kind
                == ElfType::Executable && !image_fits(image, *layout)),
            r is Err ==> *final(mem) == *old(mem) && *final(alloc) == *old(alloc),
            r matches Ok((thread, vm)) ==> user_thread_made(
                &*thread,
                &vm,
                image,
                wait_thread,
                final(mem),
                old(alloc),
                final(alloc),
                *layout,
                kstack_bottom,
                trapret,
                sstatus,
            ),
    {
        match image.kind {
            ElfType::Executable => {},
            _ => {
                return Err(ElfError::NotExecutable);
            },
        }
        match plan_areas(image, layout) {
            Some(_) => {},
            None => {
                return Err(ElfError::BadSegment);
            },
        }
        let ghost planned = planned_areas(image, *layout);
        let ghost total = loaded_areas(image, *layout).len();
        proof {
            lemma_planned_prefix(image, *layout, image.segments@.len());
            lemma_frames_needed_grows(planned, Set::empty(), Set::empty(), total, total + 1);
        }
        let mut vm = make_memory_set(image, mem, alloc, layout);
        let ghost vm1 = vm;
        let ghost mem1 = *mem;
        let ustack_bottom = USER_STACK_OFFSET;
        let ustack_top = USER_STACK_OFFSET + USER_STACK_SIZE;
        proof {
            assert(vm.areas() =~= planned.subrange(0, total as int));
            assert(planned[total as int] == stack_area());
        }
        push_planned(
            &mut vm,
            mem,
            alloc,
            MemoryArea::new(ustack_bottom, ustack_top, Backing::ByFrame, MemoryAttr::new().set_user()),
            None,
            Ghost(planned),
            Ghost(total),
        );
        proof {
            assert(vm.areas() =~= planned);
            assert(vm.areas().subrange(0, 5) =~= vm1.areas().subrange(0, 5));
            assert forall|j: int|
                0 <= j < image.segments@.len() && image.segments@[j].load implies area_loaded(
                &vm,
                mem,
                segment_area(&#[trigger] image.segments@[j]),
                image.segments@[j].data@,
            ) by {
                crate::process::elf::lemma_planned_index(image, *layout, j as nat);
                crate::process::elf::lemma_load_grows(
                    image.segments@,
                    (j + 1) as nat,
                    image.segments@.len(),
                );
                let kj = 5 + crate::process::elf::load_areas(image.segments@, j as nat).len();
                assert(planned[kj as int] == segment_area(&image.segments@[j]));
                assert(area_loaded(&vm1, &mem1, planned[kj as int], image.segments@[j].data@));
            }
        }
        let mut kstack = KernelStack::new(kstack_bottom);
        let token = vm.token(mem);
        let context = Context::new_user_thread(
            image.entry,
            ustack_top,
            &mut kstack,
            token,
            trapret,
            sstatus,
        );
        proof {
            reveal(user_thread_made);
        }
        Ok((Box::new(Thread { context, kstack, wait: wait_thread }), vm))
    }

    /// Sets the first three arguments that the thread finds when it first
    /// runs.
    pub fn append_initial_arguments(&mut self, args: [u64; 3])
        requires
            old(self).kstack.wf(),
            old(self).kstack.content() is Some,
        ensures
            final(self).context == old(self).context,
            final(self).wait == old(self).wait,
            final(self).kstack.wf(),
            final(self).kstack.bottom() == old(self).kstack.bottom(),
            final(self).kstack.content() matches Some(c) && with_arguments(
                &old(self).kstack.content().unwrap(),
                &c,
                args@,
            ),
    {
        let ctx = self.context;
        ctx.append_initial_arguments(&mut self.kstack, args);
    }
}

/// What a thread in the thread pool does.
#[derive(Clone, Copy, Debug, PartialEq, Eq, Structural)]
pub enum Status {
    /// It can run and waits for the hart.
    Ready,
    /// It runs.
    Running(Tid),
    /// It waits for an event and is not scheduled before it is woken.
    Sleeping,
    /// It has exited.
    Exited(ExitCode),
}

} // verus!
