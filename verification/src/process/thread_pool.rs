use vstd::prelude::*;
use crate::process::scheduler::{
    exit_done, pushed, slices_kept, slices_set, ticked, RRScheduler,
};
use crate::process::structs::{Status, Thread, Tid};

verus! {

/// What a slot of the thread pool holds.
pub struct ThreadInfo {
    /// What the thread does.
    pub status: Status,
    /// The thread itself, while it does not run on the hart.
    pub thread: Option<Box<Thread>>,
}

/// A table of threads with a fixed number of slots; the number of its slot
/// is the identifier of a thread.
pub struct ThreadPool {
    /// The slots; `None` marks a slot that no thread holds.
    pub threads: Vec<Option<ThreadInfo>>,
    /// The scheduler that orders the threads that are ready.
    pub scheduler: RRScheduler,
}

impl ThreadPool {
    /// The scheduler of the pool.
    pub open spec fn scheduler(&self) -> RRScheduler {
        self.scheduler
    }

    /// The threads that are ready, the next to run first.
    pub open spec fn queue(&self) -> Seq<Tid> {
        self.scheduler().queue()
    }

    /// Every thread in the queue of the scheduler holds a slot.
    pub open spec fn wf(&self) -> bool {
        &&& self.scheduler().wf()
        &&& forall|i: int|
            0 <= i < self.queue().len() ==> (#[trigger] self.queue()[i]) < self.threads@.len()
                && self.threads@[self.queue()[i] as int] is Some
    }

    /// The thread that is next to run, if there is one, is in its slot.
    pub open spec fn head_parked(&self) -> bool {
        self.queue().len() > 0 ==> self.threads@[self.queue()[0] as int].unwrap().thread is Some
    }

    /// Slot `tid` is free and every slot below it is taken.
    pub open spec fn lowest_free(&self, tid: Tid) -> bool {
        &&& tid < self.threads@.len()
        &&& self.threads@[tid as int] is None
        &&& forall|i: int| 0 <= i < tid ==> self.threads@[i] is Some
    }

    /// Every slot is taken.
    pub open spec fn is_full(&self) -> bool {
        forall|i: int| 0 <= i < self.threads@.len() ==> self.threads@[i] is Some
    }

    /// A pool of `size` free slots.
    pub fn new(size: usize, scheduler: RRScheduler) -> (pool: ThreadPool)
        requires
            scheduler.wf(),
            scheduler.queue().len() == 0,
        ensures
            pool.wf(),
            pool.threads@.len() == size,
            forall|i: int| 0 <= i < size ==> pool.threads@[i] is None,
            pool.scheduler() == scheduler,
    {
        let mut v: Vec<Option<ThreadInfo>> = Vec::new();
        let mut i: usize = 0;
        while i < size
            invariant
                i <= size,
                v@.len() == i,
                forall|k: int| 0 <= k < i ==> v@[k] is None,
            decreases size - i,
        {
            v.push(None);
            i = i + 1;
        }
        ThreadPool { threads: v, scheduler }
    }

    /// Whether some slot is free.
    pub fn has_room(&self) -> (r: bool)
        ensures
            r == !self.is_full(),
    {
        let mut i: usize = 0;
        while i < self.threads.len()
            invariant
                i <= self.threads@.len(),
                forall|k: int| 0 <= k < i ==> self.threads@[k] is Some,
            decreases self.threads@.len() - i,
        {
            if self.threads[i].is_none() {
                return true;
            }
            i = i + 1;
        }
        false
    }

    /// The free slot with the lowest number.
    pub fn alloc_tid(&self) -> (tid: Tid)
        requires
            !self.is_full(),
        ensures
            self.lowest_free(tid),
    {
        let mut i: usize = 0;
        while i < self.threads.len()
            invariant
                i <= self.threads@.len(),
                forall|k: int| 0 <= k < i ==> self.threads@[k] is Some,
            decreases self.threads@.len() - i,
        {
            if self.threads[i].is_none() {
                return i;
            }
            i = i + 1;
        }
        vstd::pervasive::unreached()
    }

    /// Puts `thread` into the free slot with the lowest number and makes it
    /// ready.
    pub fn add(&mut self, thread: Box<Thread>)
        requires
            old(self).wf(),
            !old(self).is_full(),
        ensures
            final(self).wf(),
            exists|tid: Tid| #[trigger]
                old(self).lowest_free(tid) && final(self).threads@ == old(self).threads@.update(
                    tid as int,
                    Some(ThreadInfo { status: Status::Ready, thread: Some(thread) }),
                ) && pushed(&old(self).scheduler(), &final(self).scheduler(), tid),
    {
        let tid = self.alloc_tid();
        self.threads[tid] = Some(ThreadInfo { status: Status::Ready, thread: Some(thread) });
        self.scheduler.push(tid);
        proof {
            assert(old(self).lowest_free(tid));
            assert forall|i: int| 0 <= i < self.queue().len() implies (#[trigger] self.queue()[i])
                < self.threads@.len() && self.threads@[self.queue()[i] as int] is Some by {
                if i < old(self).queue().len() {
                    assert(self.queue()[i] == old(self).queue()[i]);
                }
            }
        }
    }

    /// Takes the thread that is next to run out of its slot and marks it as
    /// running; `None` when no thread is ready.
    pub fn acquire(&mut self) -> (r: Option<(Tid, Box<Thread>)>)
        requires
            old(self).wf(),
            old(self).head_parked(),
        ensures
            final(self).wf(),
            final(self).scheduler().quantum() == old(self).scheduler().quantum(),
            old(self).queue().len() == 0 ==> {
                &&& r is None
                &&& final(self).threads@ == old(self).threads@
                &&& final(self).queue() == old(self).queue()
                &&& final(self).scheduler().current() == old(self).scheduler().current()
                &&& slices_kept(&old(self).scheduler(), &final(self).scheduler())
            },
            old(self).queue().len() > 0 ==> {
                let tid = old(self).queue()[0];
                &&& r == Some((tid, old(self).threads@[tid as int].unwrap().thread.unwrap()))
                &&& final(self).threads@ == old(self).threads@.update(
                    tid as int,
                    Some(ThreadInfo { status: Status::Running(tid), thread: None }),
                )
                &&& final(self).queue() == old(self).queue().skip(1)
                &&& final(self).scheduler().current() == Some(tid)
                &&& slices_set(
                    &old(self).scheduler(),
                    &final(self).scheduler(),
                    tid,
                    old(self).scheduler().quantum(),
                )
            },
    {
        match self.scheduler.pop() {
            Some(tid) => {
                proof {
                    assert(old(self).queue()[0] == tid);
                    assert forall|i: int| 0 <= i < self.queue().len() implies (
                    #[trigger] self.queue()[i]) < self.threads@.len()
                        && old(self).threads@[self.queue()[i] as int] is Some by {
                        assert(self.queue()[i] == old(self).queue()[i + 1]);
                    }
                }
                let mut info: Option<ThreadInfo> = Some(
                    ThreadInfo { status: Status::Running(tid), thread: None },
                );
                core::mem::swap(&mut self.threads[tid], &mut info);
                let thread = info.unwrap().thread.unwrap();
                Some((tid, thread))
            },
            None => None,
        }
    }

    /// Takes back the thread `thread` of slot `tid`, which has stopped
    /// running. Where the slot is free, the thread has exited: it is handed
    /// back for its stack to be freed. Otherwise it goes into its slot, and
    /// if it was running it is ready again.
    pub fn retrieve(&mut self, tid: Tid, thread: Box<Thread>) -> (gone: Option<Box<Thread>>)
        requires
            old(self).wf(),
            tid < old(self).threads@.len(),
        ensures
            final(self).wf(),
            final(self).scheduler().current() == old(self).scheduler().current(),
            final(self).scheduler().quantum() == old(self).scheduler().quantum(),
            match old(self).threads@[tid as int] {
                None => gone == Some(thread) && final(self).threads@ == old(self).threads@
                    && final(self).queue() == old(self).queue() && slices_kept(
                    &old(self).scheduler(),
                    &final(self).scheduler(),
                ),
                Some(info) => {
                    &&& gone is None
                    &&& info.status is Running ==> final(self).threads@ == old(self).threads@.update(
                        tid as int,
                        Some(ThreadInfo { status: Status::Ready, thread: Some(thread) }),
                    ) && pushed(&old(self).scheduler(), &final(self).scheduler(), tid)
                    &&& !(info.status is Running) ==> final(self).threads@ == old(self).threads@.update(
                        tid as int,
                        Some(ThreadInfo { status: info.status, thread: Some(thread) }),
                    ) && final(self).queue() == old(self).queue() && slices_kept(
                        &old(self).scheduler(),
                        &final(self).scheduler(),
                    )
                },
            },
    {
        let status = match &self.threads[tid] {
            None => {
                return Some(thread);
            },
            Some(info) => info.status,
        };
        match status {
            Status::Running(_) => {
                self.threads[tid] = Some(ThreadInfo { status: Status::Ready, thread: Some(thread) });
                self.scheduler.push(tid);
                proof {
                    assert forall|i: int| 0 <= i < self.queue().len() implies (
                    #[trigger] self.queue()[i]) < self.threads@.len()
                        && self.threads@[self.queue()[i] as int] is Some by {
                        if i < old(self).queue().len() {
                            assert(self.queue()[i] == old(self).queue()[i]);
                        }
                    }
                }
            },
            _ => {
                self.threads[tid] = Some(ThreadInfo { status, thread: Some(thread) });
                proof {
                    assert forall|i: int| 0 <= i < self.queue().len() implies (
                    #[trigger] self.queue()[i]) < self.threads@.len()
                        && self.threads@[self.queue()[i] as int] is Some by {
                        assert(self.queue()[i] == old(self).queue()[i]);
                    }
                }
            },
        }
        None
    }

    /// Counts one timer tick against the thread that runs; `true` when it
    /// has to make way.
    pub fn tick(&mut self) -> (r: bool)
        requires
            old(self).wf(),
        ensures
            final(self).wf(),
            final(self).threads@ == old(self).threads@,
            ticked(&old(self).scheduler(), &final(self).scheduler()),
            r == (match old(self).scheduler().current() {
                Some(t) => final(self).scheduler().slice(t) == 0,
                None => true,
            }),
    {
        let ret = self.scheduler.tick();
        ret
    }

    /// Frees slot `tid`: its thread has exited. Hands back the thread if it
    /// was in its slot.
    pub fn exit(&mut self, tid: Tid) -> (gone: Option<Box<Thread>>)
        requires
            old(self).wf(),
            tid < old(self).threads@.len(),
            !old(self).queue().contains(tid),
        ensures
            final(self).wf(),
            final(self).threads@ == old(self).threads@.update(tid as int, None),
            exit_done(&old(self).scheduler(), &final(self).scheduler(), tid),
            gone == (match old(self).threads@[tid as int] {
                Some(info) => info.thread,
                None => None,
            }),
    {
        let mut info: Option<ThreadInfo> = None;
        core::mem::swap(&mut self.threads[tid], &mut info);
        self.scheduler.exit(tid);
        proof {
            assert forall|i: int| 0 <= i < self.queue().len() implies (#[trigger] self.queue()[i])
                < self.threads@.len() && self.threads@[self.queue()[i] as int] is Some by {
                assert(old(self).queue().contains(old(self).queue()[i]));
            }
        }
        match info {
            Some(i) => i.thread,
            None => None,
        }
    }

    /// Makes the thread of slot `tid` ready.
    pub fn wakeup(&mut self, tid: Tid)
        requires
            old(self).wf(),
            tid < old(self).threads@.len(),
            old(self).threads@[tid as int] is Some,
        ensures
            final(self).wf(),
            final(self).threads@ == old(self).threads@.update(
                tid as int,
                Some(
                    ThreadInfo {
                        status: Status::Ready,
                        thread: old(self).threads@[tid as int].unwrap().thread,
                    },
                ),
            ),
            pushed(&old(self).scheduler(), &final(self).scheduler(), tid),
    {
        match &mut self.threads[tid] {
            Some(info) => {
                info.status = Status::Ready;
            },
            None => {},
        }
        self.scheduler.push(tid);
        proof {
            assert(self.threads@ =~= old(self).threads@.update(
                tid as int,
                Some(
                    ThreadInfo {
                        status: Status::Ready,
                        thread: old(self).threads@[tid as int].unwrap().thread,
                    },
                ),
            ));
            assert forall|i: int| 0 <= i < self.queue().len() implies (#[trigger] self.queue()[i])
                < self.threads@.len() && self.threads@[self.queue()[i] as int] is Some by {
                if i < old(self).queue().len() {
                    assert(self.queue()[i] == old(self).queue()[i]);
                }
            }
        }
    }

    /// Marks the thread of slot `tid` as sleeping.
    pub fn sleep(&mut self, tid: Tid)
        requires
            old(self).wf(),
            tid < old(self).threads@.len(),
            old(self).threads@[tid as int] is Some,
        ensures
            final(self).wf(),
            final(self).threads@ == old(self).threads@.update(
                tid as int,
                Some(
                    ThreadInfo {
                        status: Status::Sleeping,
                        thread: old(self).threads@[tid as int].unwrap().thread,
                    },
                ),
            ),
            final(self).scheduler() == old(self).scheduler(),
    {
        match &mut self.threads[tid] {
            Some(info) => {
                info.status = Status::Sleeping;
            },
            None => {},
        }
        proof {
            assert(self.threads@ =~= old(self).threads@.update(
                tid as int,
                Some(
                    ThreadInfo {
                        status: Status::Sleeping,
                        thread: old(self).threads@[tid as int].unwrap().thread,
                    },
                ),
            ));
        }
    }

    /// Number of slots.
    pub fn capacity(&self) -> (n: usize)
        ensures
            n == self.threads@.len(),
    {
        self.threads.len()
    }

    /// What the thread of slot `tid` does; `None` for a free slot.
    pub fn status(&self, tid: Tid) -> (r: Option<Status>)
        requires
            tid < self.threads@.len(),
        ensures
            r == (match self.threads@[tid as int] {
                Some(info) => Some(info.status),
                None => None,
            }),
    {
        match &self.threads[tid] {
            Some(info) => Some(info.status),
            None => None,
        }
    }

    /// Whether thread `tid` waits in the queue of the scheduler.
    pub fn is_queued(&self, tid: Tid) -> (r: bool)
        ensures
            r == self.queue().contains(tid),
    {
        self.scheduler.is_queued(tid)
    }
}

} // verus!
