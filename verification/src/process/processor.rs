use vstd::prelude::*;
use crate::interrupt::{disable_and_store, disabled, Hart};
use crate::process::scheduler::{pushed, ticked, RRScheduler};
use crate::process::structs::{Status, Thread, Tid};
use crate::process::thread_pool::{ThreadInfo, ThreadPool};

verus! {

/// What a processor holds once it is set up.
pub struct ProcessorInner {
    /// The threads of the kernel.
    pub pool: Box<ThreadPool>,
    /// The thread that picks the next thread to run.
    pub idle: Box<Thread>,
    /// The thread that runs, with its identifier.
    pub current: Option<(Tid, Box<Thread>)>,
}

/// The one hart of the machine as the scheduler sees it.
pub struct Processor {
    pub inner: Option<ProcessorInner>,
}

/// What the idle thread has decided.
pub struct IdleStep {
    /// A thread that has exited, for its stack to be freed.
    pub gone: Option<Box<Thread>>,
    /// The thread to switch to; `None` when no thread is ready and the hart
    /// is to wait for an interrupt.
    pub next: Option<Tid>,
}

/// The slots of a pool after the thread of slot `tid` came back from the
/// hart: a thread that was running is ready again, a thread that has exited
/// leaves its slot free.
pub open spec fn slots_after_retrieve(
    slots: Seq<Option<ThreadInfo>>,
    tid: Tid,
    thread: Box<Thread>,
) -> Seq<Option<ThreadInfo>> {
    match slots[tid as int] {
        None => slots,
        Some(info) => slots.update(
            tid as int,
            Some(
                ThreadInfo {
                    status: if info.status is Running {
                        Status::Ready
                    } else {
                        info.status
                    },
                    thread: Some(thread),
                },
            ),
        ),
    }
}

/// The queue of a pool after the thread of slot `tid` came back from the
/// hart: a thread that was running waits at the tail.
pub open spec fn queue_after_retrieve(
    slots: Seq<Option<ThreadInfo>>,
    queue: Seq<Tid>,
    tid: Tid,
) -> Seq<Tid> {
    match slots[tid as int] {
        Some(info) => if info.status is Running {
            queue.push(tid)
        } else {
            queue
        },
        None => queue,
    }
}

/// Processor `after` is processor `before` once the thread that ran has
/// exited: the thread is still the one that the processor holds as running,
/// its slot is free, and the thread that waited for it, if any, is ready and
/// waits at the tail of the queue.
pub open spec fn exited(before: &Processor, after: &Processor) -> bool {
    let tid = before.running().unwrap();
    let freed = before.slots().update(tid as int, None);
    let wait = before.inner.unwrap().current.unwrap().1.wait;
    let ran = before.sched().current() == Some(tid);
    &&& after.inner.unwrap().current == before.inner.unwrap().current
    &&& match wait {
        Some(w) => after.slots() == freed.update(
            w as int,
            Some(
                ThreadInfo { status: Status::Ready, thread: before.slots()[w as int].unwrap().thread },
            ),
        ) && after.pool().queue() == before.pool().queue().push(w),
        None => after.slots() == freed && after.pool().queue() == before.pool().queue(),
    }
    &&& after.sched().quantum() == before.sched().quantum()
    &&& after.sched().current() == (if ran {
        None
    } else {
        before.sched().current()
    })
    &&& forall|t: Tid|
        #[trigger] after.sched().slice(t) == (if wait == Some(t) || (ran && t == tid) {
            0
        } else {
            before.sched().slice(t)
        })
}

/// Processor `after` is processor `before` after a timer tick: the thread
/// that runs has one tick less, and nothing else has changed; with no
/// thread running, nothing has changed.
pub open spec fn tick_done(before: &Processor, after: &Processor) -> bool {
    &&& after.inner.unwrap().current == before.inner.unwrap().current
    &&& after.slots() == before.slots()
    &&& if before.running() is Some {
        ticked(&before.sched(), &after.sched())
    } else {
        after.sched() == before.sched()
    }
}

/// The scheduler of processor `after` is that of processor `before` after a
/// round of the idle thread that has taken the thread `next`: the thread
/// that came back from running waits with no tick left, the thread taken
/// has a full quantum and is the one that runs, and nothing else has
/// changed.
pub open spec fn idle_scheduled(before: &Processor, after: &Processor, next: Option<Tid>) -> bool {
    let back = match before.running() {
        Some(t) => if before.slots()[t as int] matches Some(info) && info.status is Running {
            Some(t)
        } else {
            None
        },
        None => None,
    };
    &&& after.sched().quantum() == before.sched().quantum()
    &&& after.sched().current() == (if next is Some {
        next
    } else {
        before.sched().current()
    })
    &&& forall|t: Tid|
        #[trigger] after.sched().slice(t) == (if next == Some(t) {
            before.sched().quantum()
        } else if back == Some(t) {
            0
        } else {
            before.sched().slice(t)
        })
}

/// Processor `after` is processor `before` once the thread of slot `tid` was
/// made ready: its slot says so, and it waits at the tail of the queue.
pub open spec fn woken(before: &Processor, after: &Processor, tid: Tid) -> bool {
    &&& after.inner.unwrap().current == before.inner.unwrap().current
    &&& after.slots() == before.slots().update(
        tid as int,
        Some(ThreadInfo { status: Status::Ready, thread: before.slots()[tid as int].unwrap().thread }),
    )
    &&& pushed(&before.sched(), &after.sched(), tid)
}

/// Processor `after` is processor `before` after the thread that runs went
/// to sleep: its slot says so, and nothing else has changed, the scheduler
/// included. With no thread running, nothing has changed.
pub open spec fn slept(before: &Processor, after: &Processor) -> bool {
    &&& after.inner.unwrap().current == before.inner.unwrap().current
    &&& after.sched() == before.sched()
    &&& after.slots() == (match before.running() {
        Some(tid) => before.slots().update(
            tid as int,
            Some(ThreadInfo { status: Status::Sleeping, thread: None }),
        ),
        None => before.slots(),
    })
}

/// Processor `after` is processor `before` with nothing changed about its
/// threads.
pub open spec fn unchanged(before: &Processor, after: &Processor) -> bool {
    &&& after.inner.unwrap().current == before.inner.unwrap().current
    &&& after.slots() == before.slots()
    &&& after.sched() == before.sched()
}

impl Processor {
    /// The processor is set up.
    pub open spec fn initialized(&self) -> bool {
        self.inner is Some
    }

    /// The thread pool.
    pub open spec fn pool(&self) -> ThreadPool {
        *self.inner.unwrap().pool
    }

    /// The scheduler of the thread pool.
    pub open spec fn sched(&self) -> RRScheduler {
        self.pool().scheduler()
    }

    /// The slots of the thread pool.
    pub open spec fn slots(&self) -> Seq<Option<ThreadInfo>> {
        self.pool().threads@
    }

    /// Identifier of the thread that runs.
    pub open spec fn running(&self) -> Option<Tid> {
        match self.inner.unwrap().current {
            Some((tid, _)) => Some(tid),
            None => None,
        }
    }

    /// The processor is set up, its pool is consistent, and every thread is
    /// in one place: a slot whose thread is away, or is marked as running,
    /// is the slot of the thread that runs, and the thread that runs is
    /// away from its slot.
    pub open spec fn wf(&self) -> bool {
        &&& self.initialized()
        &&& self.pool().wf()
        &&& self.running() matches Some(t) ==> t < self.slots().len()
        &&& forall|tid: Tid|
            tid < self.slots().len() ==> ((#[trigger] self.slots()[tid as int]) matches Some(info)
                ==> {
                &&& (info.thread is None || info.status is Running) ==> self.running() == Some(tid)
                &&& self.running() == Some(tid) ==> info.thread is None
            })
    }

    /// A thread runs, and it holds its slot: it has not exited.
    pub open spec fn running_in_slot(&self) -> bool {
        self.running() matches Some(tid) && self.slots()[tid as int] is Some
    }

    /// The thread that runs may exit: it does not wait in the queue, and the
    /// thread that waits for it, if any, is another thread, which holds its
    /// slot.
    pub open spec fn may_exit(&self) -> bool {
        &&& self.running() matches Some(tid) && !self.pool().queue().contains(tid)
        &&& self.inner.unwrap().current.unwrap().1.wait matches Some(w) ==> {
            &&& w < self.slots().len()
            &&& w != self.running().unwrap()
            &&& self.slots()[w as int] is Some
        }
    }

    /// A slot is marked as running exactly when it is the slot of the thread
    /// that runs.
    pub open spec fn consistent(&self) -> bool {
        forall|tid: Tid|
            tid < self.slots().len() ==> (((#[trigger] self.slots()[tid as int]) matches Some(info)
                && info.status is Running) <==> self.running() == Some(tid))
    }

    /// A processor that is not set up.
    pub fn new() -> (p: Processor)
        ensures
            !p.initialized(),
    {
        Processor { inner: None }
    }

    /// Sets the processor up with its idle thread and its thread pool.
    pub fn init(&mut self, idle: Box<Thread>, pool: Box<ThreadPool>)
        requires
            pool.wf(),
            forall|tid: Tid|
                tid < pool.threads@.len() ==> ((#[trigger] pool.threads@[tid as int]) matches Some(
                    info,
                ) ==> info.thread is Some && !(info.status is Running)),
        ensures
            final(self).wf(),
            final(self).consistent(),
            final(self).pool() == *pool,
            final(self).running() is None,
            final(self).inner.unwrap().idle == idle,
    {
        self.inner = Some(ProcessorInner { pool, idle, current: None });
    }

    /// Whether the processor is set up.
    pub fn is_initialized(&self) -> (r: bool)
        ensures
            r == self.initialized(),
    {
        self.inner.is_some()
    }

    /// Adds a thread that is ready to run.
    pub fn add_thread(&mut self, thread: Box<Thread>)
        requires
            old(self).wf(),
            !old(self).pool().is_full(),
            old(self).running() matches Some(t) ==> old(self).slots()[t as int] is Some,
        ensures
            final(self).wf(),
            old(self).consistent() ==> final(self).consistent(),
            final(self).running() == old(self).running(),
            final(self).inner.unwrap().current == old(self).inner.unwrap().current,
            final(self).inner.unwrap().idle == old(self).inner.unwrap().idle,
            exists|tid: Tid| #[trigger]
                old(self).pool().lowest_free(tid) && final(self).slots() == old(self).slots().update(
                    tid as int,
                    Some(ThreadInfo { status: Status::Ready, thread: Some(thread) }),
                ) && pushed(&old(self).sched(), &final(self).sched(), tid),
    {
        match &mut self.inner {
            Some(inner) => {
                inner.pool.add(thread);
            },
            None => {},
        }
    }

    /// One round of the idle thread. With interrupts disabled, the thread
    /// that has come back from the hart, if any, is returned to the pool, and
    /// the thread that is next to run is taken from it.
    pub fn idle_main(&mut self, hart: &mut Hart) -> (step: IdleStep)
        requires
            old(self).wf(),
        ensures
            final(self).wf(),
            *final(hart) == disabled(*old(hart)),
            !final(hart).interrupts_on(),
            final(self).running() == step.next,
            step.next is Some ==> final(self).consistent(),
            idle_scheduled(old(self), final(self), step.next),
            ({
                let slots = match old(self).inner.unwrap().current {
                    Some((tid, thread)) => slots_after_retrieve(old(self).slots(), tid, thread),
                    None => old(self).slots(),
                };
                let queue = match old(self).running() {
                    Some(tid) => queue_after_retrieve(
                        old(self).slots(),
                        old(self).pool().queue(),
                        tid,
                    ),
                    None => old(self).pool().queue(),
                };
                &&& step.gone is Some <==> (old(self).running() matches Some(tid)
                    && old(self).slots()[tid as int] is None)
                &&& step.gone matches Some(t) ==> old(self).inner.unwrap().current.unwrap().1 == t
                &&& queue.len() == 0 ==> step.next is None && final(self).slots() == slots
                    && final(self).pool().queue() == queue
                &&& queue.len() > 0 ==> step.next == Some(queue[0]) && final(self).slots()
                    == slots.update(
                    queue[0] as int,
                    Some(ThreadInfo { status: Status::Running(queue[0]), thread: None }),
                ) && final(self).pool().queue() == queue.skip(1)
            }),
    {
        disable_and_store(hart);
        let ProcessorInner { mut pool, idle, current } = self.inner.take().unwrap();
        let ghost slots0 = pool.threads@;
        let mut gone: Option<Box<Thread>> = None;
        match current {
            Some((tid, thread)) => {
                gone = pool.retrieve(tid, thread);
            },
            None => {},
        }
        let ghost mid = pool.threads@;
        proof {
            assert(slots0 == old(self).slots());
            assert forall|t: Tid| t < mid.len() implies ((#[trigger] mid[t as int]) matches Some(
                info,
            ) ==> info.thread is Some && !(info.status is Running)) by {
                assert(old(self).slots()[t as int] == slots0[t as int]);
                if old(self).running() != Some(t) {
                    assert(mid[t as int] == slots0[t as int]);
                }
            }
            if pool.queue().len() > 0 {
                let head = pool.queue()[0];
                assert(mid[head as int] is Some);
            }
        }
        match pool.acquire() {
            Some((tid, thread)) => {
                proof {
                    assert forall|t: Tid| t < pool.threads@.len() && t != tid implies (
                    #[trigger] pool.threads@[t as int]) == mid[t as int] by {}
                }
                self.inner = Some(ProcessorInner { pool, idle, current: Some((tid, thread)) });
                IdleStep { gone, next: Some(tid) }
            },
            None => {
                self.inner = Some(ProcessorInner { pool, idle, current: None });
                IdleStep { gone, next: None }
            },
        }
    }

    /// A timer tick. Where the thread that runs has used up its ticks,
    /// interrupts are disabled for the switch to the idle thread, and the
    /// status register as it was is returned, to be written back when the
    /// thread runs again.
    pub fn tick(&mut self, hart: &mut Hart) -> (flags: Option<u64>)
        requires
            old(self).wf(),
        ensures
            final(self).wf(),
            old(self).consistent() ==> final(self).consistent(),
            tick_done(old(self), final(self)),
            flags is Some <==> (old(self).running() is Some && (match old(self).sched().current() {
                Some(t) => old(self).sched().slice(t) <= 1,
                None => true,
            })),
            match flags {
                Some(f) => f == old(hart).sstatus && *final(hart) == disabled(*old(hart))
                    && !final(hart).interrupts_on(),
                None => *final(hart) == *old(hart),
            },
    {
        match &mut self.inner {
            Some(inner) => {
                if !inner.current.is_none() {
                    if inner.pool.tick() {
                        return Some(disable_and_store(hart));
                    }
                }
                None
            },
            None => None,
        }
    }

    /// The first switch of the kernel, from the boot thread to the idle
    /// thread: returns the boot thread, into whose context the switch
    /// saves the state that is left behind.
    pub fn run(&self, hart: &Hart) -> (boot: Box<Thread>)
        requires
            self.wf(),
            !hart.interrupts_on(),
        ensures
            boot.context.content_addr == 0,
            boot.kstack.is_empty(),
            boot.wait is None,
    {
        Thread::get_boot_thread()
    }

    /// The thread that runs exits: with interrupts disabled, its slot is
    /// freed and the thread that waits for it, if any, is made ready. The
    /// switch to the idle thread follows.
    pub fn exit(&mut self, hart: &mut Hart, code: usize)
        requires
            old(self).wf(),
            old(self).may_exit(),
        ensures
            final(self).wf(),
            *final(hart) == disabled(*old(hart)),
            !final(hart).interrupts_on(),
            exited(old(self), final(self)),
    {
        disable_and_store(hart);
        match &mut self.inner {
            Some(inner) => {
                let (tid, wait) = match &inner.current {
                    Some((tid, thread)) => (*tid, thread.wait),
                    None => (0, None),
                };
                let _ = inner.pool.exit(tid);
                match wait {
                    Some(w) => {
                        inner.pool.wakeup(w);
                    },
                    None => {},
                }
            },
            None => {},
        }
    }

    /// The thread that runs gives the hart up and sleeps until it is woken.
    /// With a thread running, interrupts are disabled for the switch to the
    /// idle thread, and the status register as it was is returned, to be
    /// written back when the thread runs again.
    pub fn yield_now(&mut self, hart: &mut Hart) -> (flags: Option<u64>)
        requires
            old(self).wf(),
            old(self).running() matches Some(tid) ==> old(self).slots()[tid as int] is Some,
        ensures
            final(self).wf(),
            slept(old(self), final(self)),
            match old(self).running() {
                Some(tid) => {
                    &&& flags == Some(old(hart).sstatus)
                    &&& *final(hart) == disabled(*old(hart))
                    &&& !final(hart).interrupts_on()
                },
                None => flags is None && *final(hart) == *old(hart),
            },
    {
        match &mut self.inner {
            Some(inner) => {
                let tid = match &inner.current {
                    Some((tid, _)) => *tid,
                    None => {
                        return None;
                    },
                };
                let flags = disable_and_store(hart);
                inner.pool.sleep(tid);
                Some(flags)
            },
            None => None,
        }
    }

    /// Makes the thread of slot `tid` ready.
    pub fn wake_up(&mut self, tid: Tid)
        requires
            old(self).wf(),
            tid < old(self).slots().len(),
            old(self).slots()[tid as int] is Some,
        ensures
            final(self).wf(),
            woken(old(self), final(self), tid),
            old(self).consistent() && old(self).running() != Some(tid) ==> final(self).consistent(),
    {
        match &mut self.inner {
            Some(inner) => {
                inner.pool.wakeup(tid);
            },
            None => {},
        }
    }

    /// Whether slot `tid` is held by a thread.
    pub fn holds(&self, tid: Tid) -> (r: bool)
        requires
            self.initialized(),
        ensures
            r == (tid < self.slots().len() && self.slots()[tid as int] is Some),
    {
        match &self.inner {
            Some(inner) => tid < inner.pool.capacity() && inner.pool.status(tid).is_some(),
            None => false,
        }
    }

    /// Whether a thread runs that holds its slot.
    pub fn runs_in_slot(&self) -> (r: bool)
        requires
            self.wf(),
        ensures
            r == self.running_in_slot(),
    {
        match &self.inner {
            Some(inner) => match &inner.current {
                Some((tid, _)) => inner.pool.status(*tid).is_some(),
                None => false,
            },
            None => false,
        }
    }

    /// Whether the thread that runs may exit.
    pub fn can_exit(&self) -> (r: bool)
        requires
            self.wf(),
        ensures
            r == self.may_exit(),
    {
        match &self.inner {
            Some(inner) => match &inner.current {
                Some((tid, thread)) => {
                    if inner.pool.is_queued(*tid) {
                        return false;
                    }
                    match thread.wait {
                        Some(w) => w < inner.pool.capacity() && w != *tid && inner.pool.status(
                            w,
                        ).is_some(),
                        None => true,
                    }
                },
                None => false,
            },
            None => false,
        }
    }

    /// Identifier of the thread that runs.
    pub fn current_tid(&self) -> (tid: usize)
        requires
            self.initialized(),
            self.running() is Some,
        ensures
            Some(tid) == self.running(),
    {
        match &self.inner {
            Some(inner) => match &inner.current {
                Some((tid, _)) => *tid,
                None => 0,
            },
            None => 0,
        }
    }
}

} // verus!
