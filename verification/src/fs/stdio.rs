use vstd::prelude::*;
use std::collections::VecDeque;
use crate::interrupt::{disabled, Hart};
use crate::process::processor::{slept, unchanged, Processor};
use crate::process::structs::Tid;
use crate::sync::condvar::Condvar;

verus! {

/// The standard input of the kernel: the characters that were typed and not
/// read yet, and the threads that wait for one.
pub struct Stdin {
    buf: VecDeque<char>,
    pushed: Condvar,
}

/// What a thread that reads from the standard input gets.
pub enum StdinPop {
    /// The character that was typed first.
    Char(char),
    /// Nothing was typed: the thread waits, and reads again when it was
    /// woken. The status register as it was is to be written back then.
    Wait(u64),
}

impl Stdin {
    /// The characters that were typed and not read yet, the first at the
    /// head.
    pub closed spec fn chars(&self) -> Seq<char> {
        self.buf@
    }

    /// The threads that wait for a character.
    pub closed spec fn waiting(&self) -> Seq<Tid> {
        self.pushed.waiting()
    }

    /// An input with no character and no thread that waits.
    pub fn new() -> (s: Self)
        ensures
            s.chars() == Seq::<char>::empty(),
            s.waiting() == Seq::<Tid>::empty(),
    {
        Stdin { buf: VecDeque::new(), pushed: Condvar::new() }
    }

    /// A character was typed: it joins the input, and the thread that has
    /// waited longest is made ready.
    pub fn push(&mut self, ch: char, cpu: &mut Processor) -> (woken: Option<Tid>)
        requires
            old(cpu).wf(),
            old(self).head_in_slot(old(cpu)),
        ensures
            final(self).chars() == old(self).chars().push(ch),
            final(cpu).wf(),
            old(self).waiting().len() == 0 ==> {
                &&& woken is None
                &&& final(self).waiting() == old(self).waiting()
                &&& unchanged(old(cpu), final(cpu))
            },
            old(self).waiting().len() > 0 ==> {
                &&& woken == Some(old(self).waiting()[0])
                &&& final(self).waiting() == old(self).waiting().skip(1)
                &&& crate::process::processor::woken(old(cpu), final(cpu), old(self).waiting()[0])
            },
    {
        self.buf.push_back(ch);
        self.pushed.notify(cpu)
    }

    /// The thread that runs reads a character: the one that was typed first,
    /// or, when none is there, the thread waits for one.
    pub fn pop(&mut self, cpu: &mut Processor, hart: &mut Hart) -> (r: StdinPop)
        requires
            old(cpu).wf(),
            old(self).chars().len() == 0 ==> old(cpu).running_in_slot(),
        ensures
            final(cpu).wf(),
            old(self).chars().len() > 0 ==> {
                &&& r == StdinPop::Char(old(self).chars()[0])
                &&& final(self).chars() == old(self).chars().skip(1)
                &&& final(self).waiting() == old(self).waiting()
                &&& unchanged(old(cpu), final(cpu))
                &&& *final(hart) == *old(hart)
            },
            old(self).chars().len() == 0 ==> {
                &&& r == StdinPop::Wait(old(hart).sstatus)
                &&& final(self).chars() == old(self).chars()
                &&& final(self).waiting() == old(self).waiting().push(old(cpu).running().unwrap())
                &&& slept(old(cpu), final(cpu))
                &&& *final(hart) == disabled(*old(hart))
                &&& !final(hart).interrupts_on()
            },
    {
        match self.buf.pop_front() {
            Some(ch) => {
                proof {
                    assert(self.buf@ =~= old(self).buf@.skip(1));
                }
                StdinPop::Char(ch)
            },
            None => StdinPop::Wait(self.pushed.wait(cpu, hart)),
        }
    }

    /// The thread that has waited longest for a character, if a thread
    /// waits, holds a slot of `cpu`: it can be woken.
    pub open spec fn head_in_slot(&self, cpu: &Processor) -> bool {
        self.waiting().len() > 0 ==> self.waiting()[0] < cpu.slots().len() && cpu.slots()[self.waiting()[0] as int]
            is Some
    }

    /// Whether `push` can wake the thread that has waited longest.
    pub fn can_push(&self, cpu: &Processor) -> (r: bool)
        requires
            cpu.initialized(),
        ensures
            r == self.head_in_slot(cpu),
    {
        self.pushed.can_notify(cpu)
    }

    /// Number of characters that were typed and not read yet.
    pub fn pending(&self) -> (n: usize)
        ensures
            n == self.chars().len(),
    {
        self.buf.len()
    }
}

} // verus!
