use vstd::prelude::*;
use crate::consts::TIMEBASE;
use crate::interrupt::{advanced, disabled, Hart};
use crate::process::processor::{tick_done, Processor};

verus! {

/// Number of timer interrupts after which the count of them starts over.
pub const TICKS_PER_ROUND: usize = 100;

/// The count of timer interrupts.
pub struct Timer {
    ticks: usize,
}

/// What the kernel asks for after a timer interrupt.
pub struct TimerOutcome {
    /// Time at which the timer is to fire next.
    pub next_event: u64,
    /// Where the thread that runs has to make way: the status register as it
    /// was before interrupts were disabled for the switch.
    pub preempt: Option<u64>,
}

impl Timer {
    /// Timer interrupts counted since the count last started over.
    pub closed spec fn ticks(&self) -> usize {
        self.ticks
    }

    /// The count is below the length of a round.
    pub open spec fn wf(&self) -> bool {
        self.ticks() < TICKS_PER_ROUND
    }

    /// A count that starts at zero.
    pub fn new() -> (t: Timer)
        ensures
            t.wf(),
            t.ticks() == 0,
    {
        Timer { ticks: 0 }
    }

    /// Counts one timer interrupt; after the hundredth the count starts over.
    pub fn count(&mut self)
        requires
            old(self).wf(),
        ensures
            final(self).wf(),
            final(self).ticks() == (old(self).ticks() + 1) % (TICKS_PER_ROUND as int),
    {
        self.ticks = self.ticks + 1;
        if self.ticks == TICKS_PER_ROUND {
            self.ticks = 0;
        }
    }

    /// Timer interrupts counted since the count last started over.
    pub fn get(&self) -> (n: usize)
        ensures
            n == self.ticks(),
    {
        self.ticks
    }
}

/// Supervisor timer interrupt enable, in the interrupt-enable register.
pub const SIE_STIE: u64 = 0x20;

/// Turns the timer on at time `now`: timer interrupts are enabled, and the
/// first is asked for one time base later. Returns the time of the first.
pub fn init(hart: &mut Hart, now: u64) -> (first_event: u64)
    ensures
        first_event == advanced(now, TIMEBASE),
        final(hart).sie == old(hart).sie | SIE_STIE,
        final(hart).sstatus == old(hart).sstatus,
        final(hart).sscratch == old(hart).sscratch,
        final(hart).stvec == old(hart).stvec,
        final(hart).satp == old(hart).satp,
{
    hart.sie = hart.sie | SIE_STIE;
    clock_set_next_event(now)
}

/// Time of the next timer interrupt when the time is `now`: one time base
/// later.
pub fn clock_set_next_event(now: u64) -> (next: u64)
    ensures
        next == advanced(now, TIMEBASE),
{
    if now <= u64::MAX - TIMEBASE {
        now + TIMEBASE
    } else {
        now - (u64::MAX - TIMEBASE) - 1
    }
}

/// Handles a timer interrupt at time `now`: the next interrupt is asked for,
/// the scheduler is told, and the interrupt is counted.
pub fn super_timer(timer: &mut Timer, cpu: &mut Processor, hart: &mut Hart, now: u64) -> (out:
    TimerOutcome)
    requires
        old(timer).wf(),
        old(cpu).wf(),
    ensures
        final(timer).wf(),
        final(timer).ticks() == (old(timer).ticks() + 1) % (TICKS_PER_ROUND as int),
        out.next_event == advanced(now, TIMEBASE),
        final(cpu).wf(),
        old(cpu).consistent() ==> final(cpu).consistent(),
        tick_done(old(cpu), final(cpu)),
        out.preempt is Some <==> (old(cpu).running() is Some && (match old(cpu).sched().current() {
            Some(t) => old(cpu).sched().slice(t) <= 1,
            None => true,
        })),
        match out.preempt {
            Some(f) => f == old(hart).sstatus && *final(hart) == disabled(*old(hart))
                && !final(hart).interrupts_on(),
            None => *final(hart) == *old(hart),
        },
{
    let next_event = clock_set_next_event(now);
    let preempt = crate::process::tick(cpu, hart);
    timer.count();
    TimerOutcome { next_event, preempt }
}

} // verus!
