use vstd::prelude::*;
use std::collections::VecDeque;
use crate::interrupt::{disabled, Hart};
use crate::process::processor::{slept, unchanged, Processor};
use crate::process::structs::Tid;
use crate::process::{current_tid, wake_up, yield_now};

verus! {

/// A condition that threads wait for: the threads that wait, the one that
/// came first at the head.
pub struct Condvar {
    wait_queue: VecDeque<Tid>,
}

impl Condvar {
    /// The threads that wait, the one that came first at the head.
    pub closed spec fn waiting(&self) -> Seq<Tid> {
        self.wait_queue@
    }

    /// A condition that no thread waits for.
    pub fn new() -> (c: Self)
        ensures
            c.waiting() == Seq::<Tid>::empty(),
    {
        Condvar { wait_queue: VecDeque::new() }
    }

    /// The thread that runs waits for the condition: it joins the threads
    /// that wait and gives the hart up. Returns the status register as it
    /// was, to be written back when the thread runs again.
    pub fn wait(&mut self, cpu: &mut Processor, hart: &mut Hart) -> (flags: u64)
        requires
            old(cpu).wf(),
            old(cpu).running() matches Some(tid) && old(cpu).slots()[tid as int] is Some,
        ensures
            final(self).waiting() == old(self).waiting().push(old(cpu).running().unwrap()),
            final(cpu).wf(),
            slept(old(cpu), final(cpu)),
            flags == old(hart).sstatus,
            *final(hart) == disabled(*old(hart)),
            !final(hart).interrupts_on(),
    {
        self.wait_queue.push_back(current_tid(cpu));
        yield_now(cpu, hart).unwrap()
    }

    /// The condition holds: the thread that has waited longest is made
    /// ready. Returns that thread; `None` when no thread waits.
    pub fn notify(&mut self, cpu: &mut Processor) -> (woken: Option<Tid>)
        requires
            old(cpu).wf(),
            old(self).head_in_slot(old(cpu)),
        ensures
            final(cpu).wf(),
            old(self).waiting().len() == 0 ==> {
                &&& woken is None
                &&& final(self).waiting() == old(self).waiting()
                &&& unchanged(old(cpu), final(cpu))
            },
            old(self).waiting().len() > 0 ==> {
                &&& woken == Some(old(self).waiting()[0])
                &&& final(self).waiting() == old(self).waiting().skip(1)
                &&& crate::process::processor::woken(old(cpu), final(cpu), old(self).waiting()[0])
            },
    {
        let tid = self.wait_queue.pop_front();
        match tid {
            Some(tid) => {
                proof {
                    assert(self.wait_queue@ =~= old(self).wait_queue@.skip(1));
                }
                wake_up(cpu, tid);
                Some(tid)
            },
            None => None,
        }
    }

    /// The thread that has waited longest, if a thread waits, holds a slot
    /// of `cpu`: it can be woken.
    pub open spec fn head_in_slot(&self, cpu: &Processor) -> bool {
        self.waiting().len() > 0 ==> self.waiting()[0] < cpu.slots().len() && cpu.slots()[self.waiting()[0] as int]
            is Some
    }

    /// Whether `notify` can wake the thread that has waited longest.
    pub fn can_notify(&self, cpu: &Processor) -> (r: bool)
        requires
            cpu.initialized(),
        ensures
            r == self.head_in_slot(cpu),
    {
        if self.wait_queue.len() == 0 {
            true
        } else {
            cpu.holds(self.wait_queue[0])
        }
    }

    /// Number of threads that wait.
    pub fn waiting_count(&self) -> (n: usize)
        ensures
            n == self.waiting().len(),
    {
        self.wait_queue.len()
    }
}

} // verus!
