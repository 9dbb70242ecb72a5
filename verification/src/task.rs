//! What a task is to the executor: a computation that is polled until it is done.

use crate::time::Instant;
use crate::waker::ReadyMask;
use crate::waker::WakerInfo;
use vstd::prelude::*;

verus! {

/// Outcome of one poll.
#[derive(Debug, Clone, Copy, PartialEq, Eq)]
pub enum Poll<T> {
    /// The computation is done, with this result.
    Ready(T),
    /// The computation is not done: poll it again after a wake or a deadline.
    Pending,
}

impl<T> Poll<T> {
    /// Whether the computation is done.
    pub fn is_ready(&self) -> (r: bool)
        ensures
            r == (self is Ready),
    {
        match self {
            Poll::Ready(_) => true,
            Poll::Pending => false,
        }
    }

    /// Whether the computation is not done.
    pub fn is_pending(&self) -> (r: bool)
        ensures
            r == (self is Pending),
    {
        match self {
            Poll::Ready(_) => false,
            Poll::Pending => true,
        }
    }
}

/// The earlier of a stored deadline and a new one.
pub open spec fn earliest(stored: Option<Instant>, time: Instant) -> Instant {
    match stored {
        Some(t) => if t@ <= time@ {
            t
        } else {
            time
        },
        None => time,
    }
}

/// Earliest wins: the deadline that is kept is not later than the stored one nor than the
/// new one, and it is one of the two.
pub proof fn lemma_earliest(stored: Option<Instant>, time: Instant)
    ensures
        earliest(stored, time)@ <= time@,
        stored matches Some(t) ==> earliest(stored, time)@ <= t@,
        earliest(stored, time) == time || stored == Some(earliest(stored, time)),
{
}

/// The deadline that is kept where `time` is asked for and `stored` is what was there:
/// the earlier of the two.
pub fn lower_deadline(stored: Option<Instant>, time: Instant) -> (r: Option<Instant>)
    ensures
        r == Some(earliest(stored, time)),
{
    match stored {
        Some(t) => if t.ticks() <= time.ticks() {
            Some(t)
        } else {
            Some(time)
        },
        None => Some(time),
    }
}

/// What the executor hands to the task that it polls: the task's wake handle and the time
/// of the poll. It gathers what the task asks for: wakes, and a deadline for its own slot.
pub struct Context {
    waker: WakerInfo,
    now: Instant,
    woken: ReadyMask,
    sleep_until: Option<Instant>,
}

impl Context {
    /// The wake handle of the task being polled.
    pub closed spec fn waker_spec(self) -> WakerInfo {
        self.waker
    }

    /// The time of this poll.
    pub closed spec fn now(self) -> Instant {
        self.now
    }

    /// The slots that were woken through this context.
    pub closed spec fn woken(self) -> Set<int> {
        self.woken@
    }

    /// The earliest deadline that the task asked for in this poll.
    pub closed spec fn deadline(self) -> Option<Instant> {
        self.sleep_until
    }

    /// A context for one poll, at time `now`, of the task that `waker` is bound to.
    pub fn new(waker: WakerInfo, now: Instant) -> (r: Self)
        ensures
            r.waker_spec() == waker,
            r.now() == now,
            r.woken() == Set::<int>::empty(),
            r.deadline().is_none(),
    {
        Context { waker, now, woken: ReadyMask::new(), sleep_until: None }
    }

    /// The slot of the task being polled.
    pub fn task_index(&self) -> (r: usize)
        ensures
            r == self.waker_spec().index(),
    {
        self.waker.task_index()
    }

    /// The wake handle of the task being polled.
    pub fn waker(&self) -> (r: WakerInfo)
        ensures
            r == self.waker_spec(),
    {
        self.waker
    }

    /// The time of this poll.
    pub fn current_time(&self) -> (r: Instant)
        ensures
            r == self.now(),
    {
        self.now
    }

    /// The wake requests gathered so far.
    pub fn wake_requests(&self) -> (r: ReadyMask)
        ensures
            r@ == self.woken(),
    {
        self.woken
    }

    /// The deadline gathered so far.
    pub fn sleep_request(&self) -> (r: Option<Instant>)
        ensures
            r == self.deadline(),
    {
        self.sleep_until
    }

    /// Asks for a wake of the polled task no later than `time`. Once `time` has come the
    /// answer is `Ready` and nothing is recorded. Before that the answer is `Pending`, and
    /// the recorded deadline is lowered to `time` where it was later or absent: it is never
    /// raised.
    pub fn wakeup_task_at(&mut self, time: Instant) -> (r: Poll<()>)
        ensures
            final(self).waker_spec() == old(self).waker_spec(),
            final(self).now() == old(self).now(),
            final(self).woken() == old(self).woken(),
            old(self).now()@ >= time@ ==> r == Poll::Ready(()) && final(self).deadline() == old(
                self,
            ).deadline(),
            old(self).now()@ < time@ ==> r == Poll::<()>::Pending && final(self).deadline() == Some(
                earliest(old(self).deadline(), time),
            ),
    {
        if self.now.ticks() >= time.ticks() {
            Poll::Ready(())
        } else {
            self.sleep_until = lower_deadline(self.sleep_until, time);
            Poll::Pending
        }
    }

    /// Marks the polled task runnable again: it is polled in the next pass.
    pub fn set_task_runnable(&mut self)
        ensures
            final(self).waker_spec() == old(self).waker_spec(),
            final(self).now() == old(self).now(),
            final(self).deadline() == old(self).deadline(),
            final(self).woken() == old(self).woken().insert(old(self).waker_spec().index()),
    {
        let w = self.waker;
        w.wake_task(&mut self.woken);
    }

    /// Marks the task of `waker` runnable.
    pub fn wake(&mut self, waker: &WakerInfo)
        ensures
            final(self).waker_spec() == old(self).waker_spec(),
            final(self).now() == old(self).now(),
            final(self).deadline() == old(self).deadline(),
            final(self).woken() == old(self).woken().insert(waker.index()),
    {
        waker.wake_task(&mut self.woken);
    }
}

/// One poll of a computation: the computation, the context and the shared state as the
/// poll found them and as it left them, and its outcome.
pub struct PollStep<T, S, O> {
    /// The computation before the poll.
    pub task_before: T,
    /// The computation after the poll.
    pub task_after: T,
    /// The context that was handed to the poll.
    pub cx_before: Context,
    /// The context as the poll left it, with what the computation asked for.
    pub cx_after: Context,
    /// The shared state before the poll.
    pub shared_before: S,
    /// The shared state after the poll.
    pub shared_after: S,
    /// What the poll returned.
    pub outcome: Poll<O>,
}

/// A computation that the executor can poll: the library's own leaf computations, and
/// the tasks that its users write as state machines. `S` is the state that the tasks of
/// one executor share, such as their mailboxes.
pub trait Task<S> {
    /// What the computation yields when it is done.
    type Output;

    /// Whether `step` is a poll that this kind of computation can make. A computation
    /// that does not say what its polls do leaves this as it is: every poll is one that
    /// it can make.
    open spec fn poll_spec(step: PollStep<Self, S, Self::Output>) -> bool where Self: Sized {
        true
    }

    /// Advances the computation once.
    fn poll(&mut self, cx: &mut Context, shared: &mut S) -> (outcome: Poll<Self::Output>) where
        Self: Sized,

        ensures
            Self::poll_spec(
                PollStep {
                    task_before: *old(self),
                    task_after: *final(self),
                    cx_before: *old(cx),
                    cx_after: *final(cx),
                    shared_before: *old(shared),
                    shared_after: *final(shared),
                    outcome,
                },
            ),
    ;
}

} // verus!
