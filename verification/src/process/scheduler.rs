use vstd::prelude::*;
use std::collections::VecDeque;
use crate::process::structs::Tid;

verus! {

/// Round-robin scheduler: the threads that are ready wait in a queue, and the
/// thread taken from its head runs for a fixed number of timer ticks.
pub struct RRScheduler {
    slices: Vec<usize>,
    queue: VecDeque<Tid>,
    max_time: usize,
    current: Option<Tid>,
}

impl RRScheduler {
    /// The threads that are ready, the next to run first.
    pub closed spec fn queue(&self) -> Seq<Tid> {
        self.queue@
    }

    /// The thread that was taken last and has not exited.
    pub closed spec fn current(&self) -> Option<Tid> {
        self.current
    }

    /// Number of ticks that a thread runs for.
    pub closed spec fn quantum(&self) -> usize {
        self.max_time
    }

    /// Ticks that thread `tid` has left.
    pub closed spec fn slice(&self, tid: Tid) -> usize {
        if tid < self.slices@.len() {
            self.slices@[tid as int]
        } else {
            0
        }
    }

    /// The scheduler keeps a count of ticks for the thread that runs and for
    /// every thread in the queue.
    pub closed spec fn wf(&self) -> bool {
        &&& self.current matches Some(t) ==> t < self.slices@.len()
        &&& forall|i: int| 0 <= i < self.queue@.len() ==> self.queue@[i] < self.slices@.len()
    }

    /// A scheduler with no thread, in which a thread runs for `max_time`
    /// ticks.
    pub fn new(max_time: usize) -> (s: Self)
        ensures
            s.wf(),
            s.queue() == Seq::<Tid>::empty(),
            s.current() is None,
            s.quantum() == max_time,
            forall|t: Tid| s.slice(t) == 0,
    {
        RRScheduler { slices: Vec::new(), queue: VecDeque::new(), max_time, current: None }
    }

    /// Puts thread `tid` at the tail of the queue, with no tick left: it gets
    /// its ticks when it is taken.
    pub fn push(&mut self, tid: Tid)
        requires
            old(self).wf(),
        ensures
            final(self).wf(),
            pushed(old(self), final(self), tid),
    {
        while self.slices.len() <= tid
            invariant
                self.wf(),
                self.queue@ == old(self).queue@,
                self.current == old(self).current,
                self.max_time == old(self).max_time,
                self.slices@.len() >= old(self).slices@.len(),
                forall|t: Tid| self.slice(t) == old(self).slice(t),
            decreases tid + 1 - self.slices@.len(),
        {
            self.slices.push(0);
        }
        self.slices.set(tid, 0);
        self.queue.push_back(tid);
    }

    /// Takes the thread at the head of the queue and gives it its ticks;
    /// `None` when no thread is ready.
    pub fn pop(&mut self) -> (r: Option<Tid>)
        requires
            old(self).wf(),
        ensures
            final(self).wf(),
            final(self).quantum() == old(self).quantum(),
            old(self).queue().len() == 0 ==> {
                &&& r is None
                &&& final(self).queue() == old(self).queue()
                &&& final(self).current() == old(self).current()
                &&& slices_kept(old(self), final(self))
            },
            old(self).queue().len() > 0 ==> {
                &&& r == Some(old(self).queue()[0])
                &&& final(self).queue() == old(self).queue().skip(1)
                &&& final(self).current() == r
                &&& slices_set(old(self), final(self), old(self).queue()[0], old(self).quantum())
            },
    {
        match self.queue.pop_front() {
            Some(tid) => {
                proof {
                    assert(old(self).queue@[0] == tid);
                    assert(self.queue@ =~= old(self).queue@.skip(1));
                    assert forall|i: int| 0 <= i < self.queue@.len() implies self.queue@[i]
                        < self.slices@.len() by {
                        assert(self.queue@[i] == old(self).queue@[i + 1]);
                    }
                }
                self.slices.set(tid, self.max_time);
                self.current = Some(tid);
                Some(tid)
            },
            None => None,
        }
    }

    /// Counts one tick against the thread that runs. Returns whether its
    /// ticks are used up, so that it has to make way; with no thread
    /// running, `true`.
    pub fn tick(&mut self) -> (r: bool)
        requires
            old(self).wf(),
        ensures
            final(self).wf(),
            ticked(old(self), final(self)),
            r == (match old(self).current() {
                Some(t) => final(self).slice(t) == 0,
                None => true,
            }),
    {
        match self.current {
            Some(tid) => {
                let left = self.slices[tid];
                if left > 0 {
                    self.slices.set(tid, left - 1);
                }
                self.slices[tid] == 0
            },
            None => true,
        }
    }

    /// Thread `tid` has exited: if it is the thread that runs, it loses its
    /// ticks and no thread runs.
    pub fn exit(&mut self, tid: Tid)
        requires
            old(self).wf(),
        ensures
            final(self).wf(),
            exit_done(old(self), final(self), tid),
    {
        match self.current {
            Some(t) => {
                if t == tid {
                    self.slices.set(tid, 0);
                    self.current = None;
                }
            },
            None => {},
        }
    }

    /// Ticks that thread `tid` has left.
    pub fn time_left(&self, tid: Tid) -> (n: usize)
        ensures
            n == self.slice(tid),
    {
        if tid < self.slices.len() {
            self.slices[tid]
        } else {
            0
        }
    }

    /// The thread that was taken last and has not exited.
    pub fn running(&self) -> (r: Option<Tid>)
        ensures
            r == self.current(),
    {
        self.current
    }

    /// Number of threads that are ready.
    pub fn ready_count(&self) -> (n: usize)
        ensures
            n == self.queue().len(),
    {
        self.queue.len()
    }

    /// Whether thread `tid` waits in the queue.
    pub fn is_queued(&self, tid: Tid) -> (r: bool)
        ensures
            r == self.queue().contains(tid),
    {
        let mut i: usize = 0;
        while i < self.queue.len()
            invariant
                i <= self.queue@.len(),
                forall|k: int| 0 <= k < i ==> self.queue@[k] != tid,
            decreases self.queue@.len() - i,
        {
            if self.queue[i] == tid {
                return true;
            }
            i = i + 1;
        }
        false
    }
}

/// Scheduler `s1` counts for every thread the ticks that `s0` counts, but
/// for thread `tid`, for which it counts `value`.
pub open spec fn slices_set(s0: &RRScheduler, s1: &RRScheduler, tid: Tid, value: usize) -> bool {
    forall|t: Tid|
        #[trigger] s1.slice(t) == (if t == tid {
            value
        } else {
            s0.slice(t)
        })
}

/// Scheduler `s1` counts for every thread the ticks that `s0` counts.
pub open spec fn slices_kept(s0: &RRScheduler, s1: &RRScheduler) -> bool {
    forall|t: Tid| #[trigger] s1.slice(t) == s0.slice(t)
}

/// The ticks that a thread has left after one more tick, when it had `left`.
pub open spec fn after_tick(left: usize) -> usize {
    if left > 0 {
        (left - 1) as usize
    } else {
        0
    }
}

/// Scheduler `s1` is scheduler `s0` after a tick: the thread that runs has
/// one tick less, unless it had none, and nothing else has changed.
pub open spec fn ticked(s0: &RRScheduler, s1: &RRScheduler) -> bool {
    &&& s1.queue() == s0.queue()
    &&& s1.current() == s0.current()
    &&& s1.quantum() == s0.quantum()
    &&& match s0.current() {
        Some(t) => slices_set(s0, s1, t, after_tick(s0.slice(t))),
        None => slices_kept(s0, s1),
    }
}

/// Scheduler `s1` is scheduler `s0` after thread `tid` became ready: it
/// waits at the tail of the queue with no tick left, and nothing else has
/// changed.
pub open spec fn pushed(s0: &RRScheduler, s1: &RRScheduler, tid: Tid) -> bool {
    &&& s1.queue() == s0.queue().push(tid)
    &&& s1.current() == s0.current()
    &&& s1.quantum() == s0.quantum()
    &&& slices_set(s0, s1, tid, 0)
}

/// Scheduler `s1` is scheduler `s0` after thread `tid` exited: if it was the
/// thread that runs, no thread runs and it has no tick left; nothing else
/// has changed.
pub open spec fn exit_done(s0: &RRScheduler, s1: &RRScheduler, tid: Tid) -> bool {
    &&& s1.queue() == s0.queue()
    &&& s1.quantum() == s0.quantum()
    &&& if s0.current() == Some(tid) {
        s1.current() is None && slices_set(s0, s1, tid, 0)
    } else {
        s1.current() == s0.current() && slices_kept(s0, s1)
    }
}

/// What is done to the queue of a scheduler.
pub enum QueueOp {
    /// A thread becomes ready.
    Push(Tid),
    /// The thread at the head is taken, if there is one.
    Pop,
}

/// The queue after the operations `ops` were applied to the queue `q`, one
/// after the other.
pub open spec fn queue_after(q: Seq<Tid>, ops: Seq<QueueOp>) -> Seq<Tid>
    decreases ops.len(),
{
    if ops.len() == 0 {
        q
    } else {
        let before = queue_after(q, ops.drop_last());
        match ops.last() {
            QueueOp::Push(t) => before.push(t),
            QueueOp::Pop => if before.len() > 0 {
                before.skip(1)
            } else {
                before
            },
        }
    }
}

/// The threads that were taken while the operations `ops` were applied to
/// the queue `q`, in the order in which they were taken.
pub open spec fn taken_by(q: Seq<Tid>, ops: Seq<QueueOp>) -> Seq<Tid>
    decreases ops.len(),
{
    if ops.len() == 0 {
        Seq::empty()
    } else {
        let before = queue_after(q, ops.drop_last());
        let taken = taken_by(q, ops.drop_last());
        match ops.last() {
            QueueOp::Push(t) => taken,
            QueueOp::Pop => if before.len() > 0 {
                taken.push(before[0])
            } else {
                taken
            },
        }
    }
}

/// The threads that became ready while the operations `ops` were applied, in
/// the order in which they became ready.
pub open spec fn pushed_by(ops: Seq<QueueOp>) -> Seq<Tid>
    decreases ops.len(),
{
    if ops.len() == 0 {
        Seq::empty()
    } else {
        match ops.last() {
            QueueOp::Push(t) => pushed_by(ops.drop_last()).push(t),
            QueueOp::Pop => pushed_by(ops.drop_last()),
        }
    }
}

/// First in, first out: the threads taken, followed by those that still
/// wait, are the threads that waited at first followed by those that became
/// ready since, in the same order.
pub proof fn lemma_fifo(q: Seq<Tid>, ops: Seq<QueueOp>)
    ensures
        taken_by(q, ops) + queue_after(q, ops) == q + pushed_by(ops),
    decreases ops.len(),
{
    if ops.len() == 0 {
        assert(taken_by(q, ops) + queue_after(q, ops) =~= q + pushed_by(ops));
    } else {
        lemma_fifo(q, ops.drop_last());
        let before = queue_after(q, ops.drop_last());
        let taken = taken_by(q, ops.drop_last());
        let pushed = pushed_by(ops.drop_last());
        assert(taken + before == q + pushed);
        match ops.last() {
            QueueOp::Push(t) => {
                assert(taken + before.push(t) =~= (taken + before).push(t));
                assert(q + pushed.push(t) =~= (q + pushed).push(t));
            },
            QueueOp::Pop => {
                if before.len() > 0 {
                    assert(taken.push(before[0]) + before.skip(1) =~= taken + before);
                }
            },
        }
    }
}

/// Round robin: a thread that becomes ready behind the threads `q` is not
/// taken before each of them was taken, in their order; it is the next to be
/// taken after them.
pub proof fn lemma_round_robin(q: Seq<Tid>, a: Tid, ops: Seq<QueueOp>)
    ensures
        taken_by(q.push(a), ops).len() <= q.len() ==> taken_by(q.push(a), ops) == q.subrange(
            0,
            taken_by(q.push(a), ops).len() as int,
        ),
        taken_by(q.push(a), ops).len() > q.len() ==> taken_by(q.push(a), ops).subrange(
            0,
            q.len() as int,
        ) == q && taken_by(q.push(a), ops)[q.len() as int] == a,
{
    lemma_fifo(q.push(a), ops);
    let taken = taken_by(q.push(a), ops);
    let rest = queue_after(q.push(a), ops);
    let all = q.push(a) + pushed_by(ops);
    assert(taken + rest == all);
    if taken.len() <= q.len() {
        assert forall|i: int| 0 <= i < taken.len() implies taken[i] == q[i] by {
            assert((taken + rest)[i] == all[i]);
        }
        assert(taken =~= q.subrange(0, taken.len() as int));
    } else {
        assert forall|i: int| 0 <= i < q.len() implies taken[i] == q[i] by {
            assert((taken + rest)[i] == all[i]);
        }
        assert(taken.subrange(0, q.len() as int) =~= q);
        assert((taken + rest)[q.len() as int] == all[q.len() as int]);
    }
}

} // verus!
